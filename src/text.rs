//! ASCII rendering of the grid's fields.
use vstd::prelude::*;

verus! {

/// ASCII `0`.
pub const DIGIT_ZERO: u8 = 48;

/// ASCII space.
pub const SPACE: u8 = 32;

/// ASCII `,`, which ends every field.
pub const COMMA: u8 = 44;

/// ASCII `.`.
pub const POINT: u8 = 46;

/// ASCII line feed, which ends every row.
pub const NEWLINE: u8 = 10;

/// ASCII `B`, the unit of byte counts under 1,000.
pub const UNIT_B: u8 = 66;

/// ASCII `K`, the unit of byte counts under 1,000,000.
pub const UNIT_K: u8 = 75;

/// ASCII `M`, the unit of larger byte counts.
pub const UNIT_M: u8 = 77;

/// Decimal digits of `n`, most significant first, without leading zeros.
pub open spec fn digits(n: nat) -> Seq<u8>
    decreases n,
{
    if n < 10 {
        seq![(DIGIT_ZERO + n) as u8]
    } else {
        digits(n / 10).push((DIGIT_ZERO + n % 10) as u8)
    }
}

/// `s` right-aligned in a field of width 4 (left-padded with spaces; longer text
/// is kept whole).
pub open spec fn pad4(s: Seq<u8>) -> Seq<u8> {
    if s.len() >= 4 {
        s
    } else {
        Seq::new((4 - s.len()) as nat, |i: int| SPACE) + s
    }
}

/// The field for a byte count: under 1,000 in bytes (`B`), under 1,000,000 in
/// kibibytes (`K`), otherwise in mebibytes (`M`), each by integer division,
/// right-aligned to width 4 and followed by a comma.
pub open spec fn label_text(bytes: nat) -> Seq<u8> {
    if bytes < 1000 {
        pad4(digits(bytes)).push(UNIT_B).push(COMMA)
    } else if bytes < 1_000_000 {
        pad4(digits(bytes / 1024)).push(UNIT_K).push(COMMA)
    } else {
        pad4(digits(bytes / 1_048_576)).push(UNIT_M).push(COMMA)
    }
}

/// The field for a latency given in tenths: one decimal place, right-aligned to
/// width 4, followed by a comma.
pub open spec fn latency_text(tenths: nat) -> Seq<u8> {
    pad4(digits(tenths / 10).push(POINT) + digits(tenths % 10)).push(COMMA)
}

/// Appends the decimal digits of `n` to `out`.
fn push_digits(out: &mut Vec<u8>, n: u128)
    ensures
        final(out)@ == old(out)@ + digits(n as nat),
    decreases n,
{
    if n >= 10 {
        push_digits(out, n / 10);
    }
    out.push((DIGIT_ZERO as u128 + n % 10) as u8);
    proof {
        assert(final(out)@ =~= old(out)@ + digits(n as nat));
    }
}

/// The decimal digits of `n`.
pub fn decimal(n: u128) -> (r: Vec<u8>)
    ensures
        r@ == digits(n as nat),
{
    let mut out: Vec<u8> = Vec::new();
    push_digits(&mut out, n);
    assert(out@ =~= digits(n as nat));
    out
}

/// Appends `s` right-aligned in a field of width 4.
fn push_padded(out: &mut Vec<u8>, s: &Vec<u8>)
    ensures
        final(out)@ == old(out)@ + pad4(s@),
{
    let mut k: usize = s.len();
    assert(out@ =~= old(out)@ + Seq::new((k - s.len()) as nat, |i: int| SPACE));
    while k < 4
        invariant
            s.len() <= k <= 4 || s.len() >= 4 && k == s.len(),
            out@ == old(out)@ + Seq::new((k - s.len()) as nat, |i: int| SPACE),
        decreases 4 - k,
    {
        out.push(SPACE);
        k = k + 1;
        proof {
            assert(out@ =~= old(out)@ + Seq::new((k - s.len()) as nat, |i: int| SPACE));
        }
    }
    let mut j: usize = 0;
    assert(out@ =~= old(out)@ + (if s.len() >= 4 {
        Seq::empty()
    } else {
        Seq::new((4 - s.len()) as nat, |i: int| SPACE)
    }) + s@.take(0));
    while j < s.len()
        invariant
            j <= s.len(),
            out@ == old(out)@ + (if s.len() >= 4 {
                Seq::empty()
            } else {
                Seq::new((4 - s.len()) as nat, |i: int| SPACE)
            }) + s@.take(j as int),
        decreases s.len() - j,
    {
        out.push(s[j]);
        j = j + 1;
        proof {
            assert(s@.take(j as int) =~= s@.take(j - 1 as int).push(s@[j - 1]));
        }
    }
    proof {
        assert(s@.take(s.len() as int) =~= s@);
        assert(Seq::<u8>::empty() + s@ =~= s@);
    }
}

/// The field for a byte count (see `label_text`).
pub fn label(bytes: u128) -> (r: Vec<u8>)
    ensures
        r@ == label_text(bytes as nat),
{
    let mut out: Vec<u8> = Vec::new();
    if bytes < 1000 {
        push_padded(&mut out, &decimal(bytes));
        out.push(UNIT_B);
    } else if bytes < 1_000_000 {
        push_padded(&mut out, &decimal(bytes / 1024));
        out.push(UNIT_K);
    } else {
        push_padded(&mut out, &decimal(bytes / 1_048_576));
        out.push(UNIT_M);
    }
    out.push(COMMA);
    assert(out@ =~= label_text(bytes as nat));
    out
}

/// The field for a latency given in tenths (see `latency_text`).
pub fn latency_field(tenths: u128) -> (r: Vec<u8>)
    ensures
        r@ == latency_text(tenths as nat),
{
    let mut number = decimal(tenths / 10);
    number.push(POINT);
    let mut frac = decimal(tenths % 10);
    number.append(&mut frac);
    let mut out: Vec<u8> = Vec::new();
    push_padded(&mut out, &number);
    out.push(COMMA);
    assert(out@ =~= latency_text(tenths as nat));
    out
}

} // verus!

verus! {

/// The number of comma-terminated fields in `s`, that is, of its commas.
pub open spec fn field_count(s: Seq<u8>) -> nat
    decreases s.len(),
{
    if s.len() == 0 {
        0
    } else {
        field_count(s.drop_last()) + if s.last() == COMMA {
            1nat
        } else {
            0nat
        }
    }
}

/// Appending one byte adds a field exactly when the byte is a comma.
pub proof fn lemma_field_count_push(s: Seq<u8>, b: u8)
    ensures
        field_count(s.push(b)) == field_count(s) + if b == COMMA {
            1nat
        } else {
            0nat
        },
{
    assert(s.push(b).drop_last() =~= s);
}

/// The fields of a concatenation are those of its parts.
pub proof fn lemma_field_count_add(a: Seq<u8>, b: Seq<u8>)
    ensures
        field_count(a + b) == field_count(a) + field_count(b),
    decreases b.len(),
{
    if b.len() == 0 {
        assert(a + b =~= a);
    } else {
        lemma_field_count_add(a, b.drop_last());
        assert((a + b).drop_last() =~= a + b.drop_last());
    }
}

proof fn lemma_field_count_none(s: Seq<u8>)
    requires
        forall|i: int| 0 <= i < s.len() ==> s[i] != COMMA,
    ensures
        field_count(s) == 0,
    decreases s.len(),
{
    if s.len() > 0 {
        lemma_field_count_none(s.drop_last());
    }
}

proof fn lemma_digits_are_digits(n: nat)
    ensures
        forall|i: int| 0 <= i < digits(n).len() ==> DIGIT_ZERO <= #[trigger] digits(n)[i] <= DIGIT_ZERO + 9,
    decreases n,
{
    if n >= 10 {
        lemma_digits_are_digits(n / 10);
        let d = (DIGIT_ZERO + n % 10) as u8;
        assert(d == DIGIT_ZERO + n % 10);
        assert forall|i: int| 0 <= i < digits(n).len() implies DIGIT_ZERO <= #[trigger] digits(
            n,
        )[i] <= DIGIT_ZERO + 9 by {
            if i < digits(n / 10).len() {
                assert(digits(n)[i] == digits(n / 10)[i]);
            }
        }
    } else {
        assert(((DIGIT_ZERO + n) as u8) == DIGIT_ZERO + n);
    }
}

proof fn lemma_padded_number_has_no_field(s: Seq<u8>)
    requires
        forall|i: int| 0 <= i < s.len() ==> s[i] != COMMA,
    ensures
        field_count(pad4(s)) == 0,
{
    assert forall|i: int| 0 <= i < pad4(s).len() implies pad4(s)[i] != COMMA by {
        if s.len() < 4 && i >= 4 - s.len() {
            assert(pad4(s)[i] == s[i - (4 - s.len())]);
        }
    }
    lemma_field_count_none(pad4(s));
}

/// A byte-count label is exactly one field.
pub proof fn lemma_label_is_one_field(bytes: nat)
    ensures
        field_count(label_text(bytes)) == 1,
{
    let n: nat = if bytes < 1000 {
        bytes
    } else if bytes < 1_000_000 {
        bytes / 1024
    } else {
        bytes / 1_048_576
    };
    let unit = if bytes < 1000 {
        UNIT_B
    } else if bytes < 1_000_000 {
        UNIT_K
    } else {
        UNIT_M
    };
    lemma_digits_are_digits(n);
    lemma_padded_number_has_no_field(digits(n));
    lemma_field_count_push(pad4(digits(n)), unit);
    lemma_field_count_push(pad4(digits(n)).push(unit), COMMA);
}

/// A latency field is exactly one field.
pub proof fn lemma_latency_is_one_field(tenths: nat)
    ensures
        field_count(latency_text(tenths)) == 1,
{
    let s = digits(tenths / 10).push(POINT) + digits(tenths % 10);
    lemma_digits_are_digits(tenths / 10);
    lemma_digits_are_digits(tenths % 10);
    assert forall|i: int| 0 <= i < s.len() implies s[i] != COMMA by {
        if i > digits(tenths / 10).len() {
            assert(s[i] == digits(tenths % 10)[i - digits(tenths / 10).len() - 1]);
        }
    }
    lemma_padded_number_has_no_field(s);
    lemma_field_count_push(pad4(s), COMMA);
}

} // verus!
