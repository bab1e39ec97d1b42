use royalroad_dl::BufferedIter;

fn drain(mut it: BufferedIter<u32>) -> Vec<u32> {
    let mut out = Vec::new();
    while let Some(x) = it.next() {
        out.push(x);
    }
    out
}

#[test]
fn consumption_follows_source_order() {
    for limit in 1..6 {
        let it = BufferedIter::new(vec![5, 3, 9, 1, 7], limit);
        assert_eq!(drain(it), vec![5, 3, 9, 1, 7]);
    }
}

#[test]
fn admits_at_most_limit_ahead() {
    let mut it = BufferedIter::new(vec![1, 2, 3, 4, 5], 2);
    assert_eq!(it.len(), 2);
    assert_eq!(it.admitted(), 2);
    assert_eq!(it.next(), Some(1));
    assert_eq!(it.len(), 2);
    assert_eq!(it.admitted(), 3);
    assert_eq!(it.next(), Some(2));
    assert_eq!(it.next(), Some(3));
    assert_eq!(it.admitted(), 5);
    assert_eq!(it.len(), 2);
    assert_eq!(it.next(), Some(4));
    assert_eq!(it.len(), 1);
    assert_eq!(it.next(), Some(5));
    assert_eq!(it.len(), 0);
    assert_eq!(it.next(), None);
    assert_eq!(it.next(), None);
}

#[test]
fn zero_limit_admits_everything_first() {
    let mut it = BufferedIter::new(vec![4, 8, 15, 16], 0);
    assert_eq!(it.len(), 4);
    assert_eq!(it.admitted(), 4);
    assert_eq!(it.next(), Some(4));
    assert_eq!(it.len(), 3);
    assert_eq!(drain(it), vec![8, 15, 16]);
}

#[test]
fn size_hint_counts_source_and_buffer() {
    let mut it = BufferedIter::new(vec![1, 2, 3, 4, 5, 6], 2);
    assert_eq!(it.size_hint(), (6, Some(6)));
    it.next();
    assert_eq!(it.size_hint(), (5, Some(5)));
    let empty: BufferedIter<u32> = BufferedIter::new(Vec::new(), 3);
    assert_eq!(empty.size_hint(), (0, Some(0)));
    assert_eq!(empty.len(), 0);
}

#[test]
fn limit_larger_than_source() {
    let it = BufferedIter::new(vec![1, 2], 10);
    assert_eq!(it.len(), 2);
    assert_eq!(drain(it), vec![1, 2]);
}

#[test]
fn into_vec_keeps_order_after_partial_consumption() {
    let mut it = BufferedIter::new(vec![10, 20, 30, 40], 1);
    assert_eq!(it.next(), Some(10));
    assert_eq!(it.into_vec(), vec![20, 30, 40]);
}
