use memlat::chain::build_chain;

fn walk(pool: &[usize]) -> Vec<usize> {
    let mut seen = vec![0usize];
    let mut next = pool[0];
    while next != 0 {
        seen.push(next);
        next = pool[next];
        assert!(seen.len() <= pool.len(), "ring does not close");
    }
    seen
}

#[test]
fn ring_visits_every_slot_once() {
    for exp in 1..=12u32 {
        let csize = 1usize << exp;
        let mut stride = 1usize;
        while stride <= csize / 2 {
            let mut pool = vec![7usize; csize + 5];
            build_chain(&mut pool, csize, stride);
            let lap = walk(&pool);
            let expected: Vec<usize> = (0..csize / stride).map(|k| k * stride).collect();
            assert_eq!(lap, expected, "csize {} stride {}", csize, stride);
            stride *= 2;
        }
    }
}

#[test]
fn ring_at_smallest_size_with_unit_stride_visits_every_element() {
    let mut pool = vec![0usize; 1024];
    build_chain(&mut pool, 1024, 1);
    assert_eq!(walk(&pool).len(), 1024);
}

#[test]
fn ring_at_smallest_size_with_half_stride_visits_two_elements() {
    let mut pool = vec![0usize; 1024];
    build_chain(&mut pool, 1024, 512);
    assert_eq!(walk(&pool), vec![0, 512]);
}

#[test]
fn ring_leaves_other_elements_alone() {
    let mut pool = vec![3usize; 20];
    build_chain(&mut pool, 16, 4);
    assert_eq!(pool[0], 4);
    assert_eq!(pool[4], 8);
    assert_eq!(pool[8], 12);
    assert_eq!(pool[12], 0);
    for i in [1, 2, 3, 5, 11, 15, 16, 19] {
        assert_eq!(pool[i], 3);
    }
}

#[test]
fn ring_over_single_slot_is_the_sentinel() {
    let mut pool = vec![9usize; 4];
    build_chain(&mut pool, 4, 4);
    assert_eq!(pool, vec![0, 9, 9, 9]);
}
