//! The sweep over working-set sizes and strides, and the grid it produces.
use vstd::prelude::*;
use crate::arith::{
    is_pow2,
    lemma_log2_pow2,
    lemma_pow2_divides,
    lemma_pow2_le_iff_log2,
    lemma_pow2_mono,
    lemma_pow2_pos,
    log2,
    pow2,
};
use crate::clock::Clock;
use crate::measure::measure_cell;
use crate::text::{
    COMMA,
    NEWLINE,
    field_count,
    label,
    label_text,
    latency_field,
    latency_text,
    lemma_field_count_add,
    lemma_field_count_push,
    lemma_label_is_one_field,
    lemma_latency_is_one_field,
};

verus! {

/// Smallest working-set size of the standard sweep, in words.
pub const ARRAY_MIN: usize = 1024;

/// Capacity of the standard pool, in words: the largest working-set size.
pub const ARRAY_MAX: usize = 16_777_216;

/// Time budget of one cell of the standard sweep: twenty seconds.
pub const BUDGET_NS: u64 = 20_000_000_000;

/// The constants of a sweep.
pub struct Config {
    /// Smallest working-set size, in words.
    pub array_min: usize,
    /// Pool capacity and largest working-set size, in words.
    pub array_max: usize,
    /// Time budget of each cell, in nanoseconds.
    pub budget_ns: u64,
}

impl Config {
    /// Both sizes are powers of two, the smaller one no larger than the larger.
    pub open spec fn valid(self) -> bool {
        &&& 1 <= self.array_min <= self.array_max
        &&& is_pow2(self.array_min as nat)
        &&& is_pow2(self.array_max as nat)
    }

    /// The standard sweep: 1,024 to 16,777,216 words, twenty seconds a cell.
    pub fn standard() -> (c: Config)
        ensures
            c.array_min == ARRAY_MIN,
            c.array_max == ARRAY_MAX,
            c.budget_ns == BUDGET_NS,
            c.valid(),
    {
        proof {
            reveal_with_fuel(pow2, 25);
            lemma_log2_pow2(10);
            lemma_log2_pow2(24);
        }
        Config { array_min: ARRAY_MIN, array_max: ARRAY_MAX, budget_ns: BUDGET_NS }
    }
}

/// Bytes in a machine word.
pub open spec fn word() -> nat {
    vstd::layout::size_of::<usize>()
}

/// Bytes in a machine word.
pub fn word_bytes() -> (r: usize)
    ensures
        r == word(),
{
    core::mem::size_of::<usize>()
}

/// `words * word_size` bytes, computed without overflow.
fn bytes_of(words: usize, word_size: usize) -> (r: u128)
    ensures
        r == words * word_size,
{
    assert(words as u128 * word_size as u128 <= u64::MAX * u64::MAX) by (nonlinear_arith)
        requires
            words <= u64::MAX,
            word_size <= u64::MAX,
    ;
    words as u128 * word_size as u128
}

/// The strides tested at working-set size `csize`: `1, 2, 4, ...` up to `csize / 2`,
/// that is `2^i` for every `i < log2(csize)`.
pub fn strides(csize: usize) -> (r: Vec<usize>)
    ensures
        r@.len() == log2(csize as nat),
        forall|i: int| 0 <= i < r@.len() ==> r@[i] == pow2(i as nat),
{
    let mut out: Vec<usize> = Vec::new();
    let mut s: usize = 1;
    proof {
        lemma_pow2_pos(0);
    }
    while s <= csize / 2
        invariant
            s == pow2(out@.len()),
            s >= 1,
            csize < 2 ==> out@.len() == 0,
            csize >= 1 ==> out@.len() <= log2(csize as nat),
            forall|i: int| 0 <= i < out@.len() ==> out@[i] == pow2(i as nat),
        decreases csize - s,
    {
        proof {
            lemma_pow2_le_iff_log2(out@.len() + 1, csize as nat);
            assert(pow2(out@.len() + 1) == 2 * pow2(out@.len()));
        }
        out.push(s);
        s = s * 2;
    }
    proof {
        if csize >= 1 {
            lemma_pow2_le_iff_log2(out@.len() + 1, csize as nat);
        } else {
            assert(out@.len() == 0);
        }
    }
    out
}

/// The working-set sizes of a sweep: `array_min`, doubled while it stays within
/// `array_max`.
pub fn working_set_sizes(array_min: usize, array_max: usize) -> (r: Vec<usize>)
    requires
        array_min >= 1,
    ensures
        forall|i: int|
            0 <= i < r@.len() ==> r@[i] == array_min * pow2(i as nat) && r@[i] <= array_max,
        array_min * pow2(r@.len()) > array_max,
{
    let mut out: Vec<usize> = Vec::new();
    if array_min > array_max {
        proof {
            assert(pow2(0) == 1);
            assert(array_min * 1 == array_min);
        }
        return out;
    }
    let mut c: usize = array_min;
    proof {
        assert(pow2(0) == 1);
        assert(array_min * 1 == array_min);
    }
    loop
        invariant_except_break
            c == array_min * pow2(out@.len()),
            c <= array_max,
        invariant
            array_min >= 1,
            forall|i: int|
                0 <= i < out@.len() ==> out@[i] == array_min * pow2(i as nat) && out@[i]
                    <= array_max,
        ensures
            array_min * pow2(out@.len()) > array_max,
        decreases array_max - c,
    {
        let ghost n = out@.len();
        out.push(c);
        proof {
            lemma_pow2_pos(n);
            assert(pow2(n + 1) == 2 * pow2(n));
            assert(array_min * (2 * pow2(n)) == 2 * (array_min * pow2(n))) by (nonlinear_arith);
            assert(array_min * pow2(n) >= 1) by (nonlinear_arith)
                requires
                    array_min >= 1,
                    pow2(n) >= 1,
            ;
        }
        if c > array_max / 2 {
            break;
        }
        c = c * 2;
    }
    out
}

/// The labels of strides `2^0` to `2^(k-1)`, each given in bytes.
pub open spec fn stride_labels(k: nat) -> Seq<u8>
    decreases k,
{
    if k == 0 {
        Seq::empty()
    } else {
        stride_labels((k - 1) as nat) + label_text(pow2((k - 1) as nat) * word())
    }
}

/// The header row: an empty leading field, then one label for each stride tested at
/// the largest working-set size.
pub open spec fn header_text(array_max: nat) -> Seq<u8> {
    seq![COMMA] + stride_labels(log2(array_max)) + seq![NEWLINE]
}

/// The latency fields of a row, in order.
pub open spec fn cells_text(cells: Seq<u128>) -> Seq<u8>
    decreases cells.len(),
{
    if cells.len() == 0 {
        Seq::empty()
    } else {
        cells_text(cells.drop_last()) + latency_text(cells.last() as nat)
    }
}

/// A data row: the working-set size's label in bytes, then the latency fields.
pub open spec fn row_text(csize: nat, cells: Seq<u128>) -> Seq<u8> {
    label_text(csize as nat * word()) + cells_text(cells) + seq![NEWLINE]
}

/// The header row for a pool of `array_max` words.
pub fn header_row(array_max: usize) -> (r: Vec<u8>)
    ensures
        r@ == header_text(array_max as nat),
{
    let wb = word_bytes();
    let all = strides(array_max);
    let mut out: Vec<u8> = Vec::new();
    out.push(COMMA);
    let mut i: usize = 0;
    while i < all.len()
        invariant
            wb == word(),
            all@.len() == log2(array_max as nat),
            forall|j: int| 0 <= j < all@.len() ==> all@[j] == pow2(j as nat),
            i <= all.len(),
            out@ == seq![COMMA] + stride_labels(i as nat),
        decreases all.len() - i,
    {
        let mut field = label(bytes_of(all[i], wb));
        out.append(&mut field);
        i = i + 1;
        proof {
            assert(out@ =~= seq![COMMA] + stride_labels(i as nat));
        }
    }
    out.push(NEWLINE);
    out
}

/// A data row for working-set size `csize` with the given latencies (in tenths).
pub fn row_line(csize: usize, cells: &Vec<u128>) -> (r: Vec<u8>)
    ensures
        r@ == row_text(csize as nat, cells@),
{
    let wb = word_bytes();
    let mut out = label(bytes_of(csize, wb));
    let mut i: usize = 0;
    while i < cells.len()
        invariant
            i <= cells.len(),
            out@ == label_text(csize as nat * word()) + cells_text(cells@.take(i as int)),
        decreases cells.len() - i,
    {
        let mut field = latency_field(cells[i]);
        out.append(&mut field);
        i = i + 1;
        proof {
            assert(cells@.take(i as int).drop_last() =~= cells@.take(i - 1 as int));
            assert(out@ =~= label_text(csize as nat * word()) + cells_text(cells@.take(i as int)));
        }
    }
    out.push(NEWLINE);
    proof {
        assert(cells@.take(cells.len() as int) =~= cells@);
    }
    out
}

/// Measures one row of the grid: one cell for each stride tested at `csize`, in
/// increasing stride order, each latency in tenths of a nanosecond and at least one
/// tenth.
pub fn measure_row(pool: &mut Vec<usize>, clock: &Clock, csize: usize, budget_ns: u64) -> (r: Vec<
    u128,
>)
    requires
        is_pow2(csize as nat),
        csize <= old(pool).len(),
    ensures
        final(pool).len() == old(pool).len(),
        r@.len() == log2(csize as nat),
        forall|i: int| 0 <= i < r@.len() ==> r@[i] >= 1,
{
    let all = strides(csize);
    let mut out: Vec<u128> = Vec::new();
    let mut i: usize = 0;
    while i < all.len()
        invariant
            is_pow2(csize as nat),
            csize <= pool.len(),
            pool.len() == old(pool).len(),
            all@.len() == log2(csize as nat),
            forall|j: int| 0 <= j < all@.len() ==> all@[j] == pow2(j as nat),
            i <= all.len(),
            out@.len() == i,
            forall|j: int| 0 <= j < out@.len() ==> out@[j] >= 1,
        decreases all.len() - i,
    {
        let stride = all[i];
        proof {
            lemma_pow2_divides(i as nat, log2(csize as nat));
            lemma_pow2_mono(i as nat, log2(csize as nat));
            lemma_pow2_pos(i as nat);
        }
        let cell = measure_cell(pool, clock, csize, stride, budget_ns);
        out.push(cell.tenths);
        i = i + 1;
    }
    out
}

} // verus!

verus! {

proof fn lemma_stride_labels_fields(k: nat)
    ensures
        field_count(stride_labels(k)) == k,
    decreases k,
{
    if k > 0 {
        lemma_stride_labels_fields((k - 1) as nat);
        lemma_label_is_one_field(pow2((k - 1) as nat) * word());
        lemma_field_count_add(
            stride_labels((k - 1) as nat),
            label_text(pow2((k - 1) as nat) * word()),
        );
    }
}

proof fn lemma_cells_fields(cells: Seq<u128>)
    ensures
        field_count(cells_text(cells)) == cells.len(),
    decreases cells.len(),
{
    if cells.len() > 0 {
        lemma_cells_fields(cells.drop_last());
        lemma_latency_is_one_field(cells.last() as nat);
        lemma_field_count_add(cells_text(cells.drop_last()), latency_text(cells.last() as nat));
    }
}

/// The header row for a pool of `array_max` words has `log2(array_max) + 1`
/// comma-terminated fields: the empty leading field, then one label for each stride
/// from 1 to `array_max / 2`.
pub proof fn lemma_header_fields(array_max: nat)
    ensures
        field_count(header_text(array_max)) == log2(array_max) + 1,
{
    let labels = stride_labels(log2(array_max));
    lemma_stride_labels_fields(log2(array_max));
    lemma_field_count_push(Seq::empty(), COMMA);
    assert(seq![COMMA] =~= Seq::<u8>::empty().push(COMMA));
    assert(field_count(Seq::<u8>::empty()) == 0);
    lemma_field_count_add(seq![COMMA], labels);
    lemma_field_count_push(seq![COMMA] + labels, NEWLINE);
    assert(header_text(array_max) =~= (seq![COMMA] + labels).push(NEWLINE));
}

/// A data row has one comma-terminated field for its size label and one for each
/// latency it carries.
pub proof fn lemma_row_fields(csize: nat, cells: Seq<u128>)
    ensures
        field_count(row_text(csize, cells)) == cells.len() + 1,
{
    lemma_label_is_one_field(csize * word());
    lemma_cells_fields(cells);
    lemma_field_count_add(label_text(csize * word()), cells_text(cells));
    lemma_field_count_push(label_text(csize * word()) + cells_text(cells), NEWLINE);
    assert(row_text(csize, cells) =~= (label_text(csize * word()) + cells_text(cells)).push(
        NEWLINE,
    ));
}

} // verus!
