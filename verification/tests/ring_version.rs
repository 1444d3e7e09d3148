use simaai_sentinel::ring::Ring;
use simaai_sentinel::version::VERSION;

#[test]
fn build_version_is_never_empty() {
    assert!(!VERSION.is_empty());
}

#[test]
fn ring_keeps_the_newest_values() {
    let mut ring = Ring::new(3);
    assert_eq!(ring.last(), None);
    for value in 1..=5 {
        ring.push(value);
    }
    assert_eq!(ring.to_vec(), vec![3, 4, 5]);
    assert_eq!(ring.last(), Some(&5));
}

#[test]
fn ring_below_capacity_keeps_everything() {
    let mut ring = Ring::new(4);
    ring.push("a".to_string());
    ring.push("b".to_string());
    assert_eq!(ring.to_vec(), vec!["a".to_string(), "b".to_string()]);
}

#[test]
fn ring_of_zero_capacity_grows() {
    let mut ring = Ring::new(0);
    ring.push(1);
    ring.push(2);
    assert_eq!(ring.to_vec(), vec![1, 2]);
}

#[test]
fn ring_after_many_pushes_holds_the_newest_in_order() {
    let mut ring = Ring::new(3);
    for value in 1..=7 {
        ring.push(value);
    }
    assert_eq!(ring.to_vec(), vec![5, 6, 7]);
    assert_eq!(ring.last(), Some(&7));
}
