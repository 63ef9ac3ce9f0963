use pagekv::store::{bytes_lt, Bound, Memory, Range, Test};

fn all() -> Range {
    Range { start: Bound::Unbounded, end: Bound::Unbounded }
}

fn sorted(mut v: Vec<(Vec<u8>, Vec<u8>)>) -> Vec<(Vec<u8>, Vec<u8>)> {
    v.sort();
    v
}

#[test]
fn tests() {
    let mut s = Test::new();
    assert_eq!(s.to_string(), "test");
    assert_eq!(s.get(b"a"), None);

    s.set(b"a", vec![1]);
    s.set(b"b", vec![2]);
    s.set(b"c", vec![3]);
    assert_eq!(s.get(b"a"), Some(vec![1]));
    assert_eq!(s.get(b"b"), Some(vec![2]));

    s.set(b"a", vec![10]);
    assert_eq!(s.get(b"a"), Some(vec![10]));

    s.delete(b"b");
    assert_eq!(s.get(b"b"), None);
    s.delete(b"missing");

    s.set(b"", vec![]);
    assert_eq!(s.get(b""), Some(vec![]));

    s.flush();
    assert_eq!(
        sorted(s.scan(&all())),
        vec![(b"".to_vec(), vec![]), (b"a".to_vec(), vec![10]), (b"c".to_vec(), vec![3])]
    );

    let r = Range { start: Bound::Excluded(b"".to_vec()), end: Bound::Included(b"c".to_vec()) };
    assert_eq!(sorted(s.scan(&r)), vec![(b"a".to_vec(), vec![10]), (b"c".to_vec(), vec![3])]);

    let r = Range { start: Bound::Included(b"a".to_vec()), end: Bound::Excluded(b"c".to_vec()) };
    assert_eq!(s.scan(&r), vec![(b"a".to_vec(), vec![10])]);
}

#[test]
fn clones_share_one_store() {
    let mut w1 = Test::new();
    let mut w2 = w1.clone();
    let reader = w2.clone();
    w1.set(b"x", vec![1]);
    w2.set(b"y", vec![2]);
    assert_eq!(reader.get(b"x"), Some(vec![1]));
    assert_eq!(reader.get(b"y"), Some(vec![2]));
    w2.delete(b"x");
    assert_eq!(w1.get(b"x"), None);
}

#[test]
fn scan_is_a_snapshot() {
    let mut s = Test::new();
    s.set(b"k1", vec![1]);
    s.set(b"k2", vec![2]);
    let snap = sorted(s.scan(&all()));
    s.set(b"k3", vec![3]);
    s.set(b"k1", vec![9]);
    s.delete(b"k2");
    assert_eq!(snap, vec![(b"k1".to_vec(), vec![1]), (b"k2".to_vec(), vec![2])]);
    assert_eq!(sorted(s.scan(&all())), vec![(b"k1".to_vec(), vec![9]), (b"k3".to_vec(), vec![3])]);
}

#[test]
fn writes_while_walking_a_scan() {
    let mut s = Test::new();
    s.set(b"a", vec![1]);
    s.set(b"b", vec![2]);
    for (k, v) in s.scan(&all()) {
        let mut bumped = v.clone();
        bumped.push(0);
        s.set(&k, bumped);
    }
    assert_eq!(s.get(b"a"), Some(vec![1, 0]));
    assert_eq!(s.get(b"b"), Some(vec![2, 0]));
}

#[test]
fn memory_backend_alone() {
    let mut m = Memory::new();
    m.set(b"k", vec![7]);
    assert_eq!(m.get(b"k"), Some(vec![7]));
    m.delete(b"k");
    assert_eq!(m.get(b"k"), None);
    assert!(m.scan(&all()).is_empty());
}

#[test]
fn byte_order_is_lexicographic() {
    assert!(bytes_lt(b"", b"a"));
    assert!(!bytes_lt(b"a", b""));
    assert!(bytes_lt(b"ab", b"b"));
    assert!(bytes_lt(b"a", b"ab"));
    assert!(!bytes_lt(b"ab", b"ab"));
    assert!(bytes_lt(&[0, 255], &[1]));
}

#[test]
fn range_bounds() {
    let r = Range { start: Bound::Included(b"b".to_vec()), end: Bound::Excluded(b"d".to_vec()) };
    assert!(!r.contains(b"a"));
    assert!(r.contains(b"b"));
    assert!(r.contains(b"c"));
    assert!(r.contains(b"cz"));
    assert!(!r.contains(b"d"));
}
