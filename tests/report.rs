use memlat::clock::Clock;
use memlat::report::{
    header_row, measure_row, row_line, strides, word_bytes, working_set_sizes, Config, ARRAY_MAX,
    ARRAY_MIN, BUDGET_NS,
};
use memlat::text::label;

fn s(v: Vec<u8>) -> String {
    String::from_utf8(v).unwrap()
}

#[test]
fn standard_constants() {
    let c = Config::standard();
    assert_eq!(c.array_min, 1024);
    assert_eq!(c.array_max, 4096 * 4096);
    assert_eq!(c.budget_ns, 20_000_000_000);
    assert_eq!((ARRAY_MIN, ARRAY_MAX, BUDGET_NS), (c.array_min, c.array_max, c.budget_ns));
}

#[test]
fn word_is_a_usize() {
    assert_eq!(word_bytes(), std::mem::size_of::<usize>());
}

#[test]
fn strides_up_to_half_the_size() {
    assert_eq!(strides(16), vec![1, 2, 4, 8]);
    assert_eq!(strides(2), vec![1]);
    assert_eq!(strides(1), Vec::<usize>::new());
    assert_eq!(strides(0), Vec::<usize>::new());
    assert_eq!(strides(4096 * 4096).len(), 24);
}

#[test]
fn sizes_double_up_to_the_capacity() {
    assert_eq!(working_set_sizes(8, 16), vec![8, 16]);
    assert_eq!(working_set_sizes(8, 8), vec![8]);
    assert_eq!(working_set_sizes(8, 31), vec![8, 16]);
    assert_eq!(working_set_sizes(16, 8), Vec::<usize>::new());
    let all = working_set_sizes(1024, 4096 * 4096);
    assert_eq!(all.len(), 15);
    assert_eq!(all[0], 1024);
    assert_eq!(all[14], 4096 * 4096);
    assert_eq!(working_set_sizes(1, usize::MAX).len(), usize::BITS as usize);
}

#[test]
fn header_lists_one_label_per_stride() {
    let w = word_bytes() as u128;
    let mut expected = String::from(",");
    for stride in [1u128, 2, 4, 8] {
        expected.push_str(&s(label(stride * w)));
    }
    expected.push('\n');
    let header = s(header_row(16));
    assert_eq!(header, expected);
    // log2(16) + 1 comma-terminated fields: the empty one and four labels.
    assert_eq!(header.matches(',').count(), 5);
}

#[test]
fn header_of_standard_pool_has_twenty_five_fields() {
    let header = s(header_row(4096 * 4096));
    assert_eq!(header.matches(',').count(), 25);
    assert!(header.starts_with(','));
    assert!(header.ends_with(",\n"));
}

#[test]
fn row_renders_label_and_latencies() {
    let w = word_bytes() as u128;
    let line = s(row_line(8, &vec![1, 123, 45678]));
    assert_eq!(line, format!("{} 0.1,12.3,4567.8,\n", s(label(8 * w))));
    let empty = s(row_line(1, &vec![]));
    assert_eq!(empty, format!("{}\n", s(label(w))));
}

#[test]
fn small_sweep_end_to_end() {
    let cfg = Config { array_min: 8, array_max: 16, budget_ns: 50_000_000 };
    let mut pool = vec![0usize; cfg.array_max];
    let clock = Clock::start();
    let mut out = s(header_row(cfg.array_max));
    for csize in working_set_sizes(cfg.array_min, cfg.array_max) {
        let cells = measure_row(&mut pool, &clock, csize, cfg.budget_ns);
        out.push_str(&s(row_line(csize, &cells)));
    }
    let lines: Vec<&str> = out.lines().collect();
    assert_eq!(lines.len(), 3);
    let rows = &lines[1..];
    for (row, csize) in rows.iter().zip([8usize, 16]) {
        let fields: Vec<&str> = row.split(',').collect();
        assert_eq!(fields.last(), Some(&""));
        let latencies = &fields[1..fields.len() - 1];
        assert_eq!(latencies.len(), csize.trailing_zeros() as usize);
        for f in latencies {
            let v: f64 = f.trim().parse().unwrap();
            assert!(v >= 0.1, "{}", f);
        }
    }
}
