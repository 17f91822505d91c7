use gartop::history::History;

#[test]
fn test_push_and_latest() {
    let mut h: History<i32> = History::new(3);
    assert!(h.latest().is_none());

    h.push(1);
    assert_eq!(h.latest(), Some(&1));

    h.push(2);
    assert_eq!(h.latest(), Some(&2));
}

#[test]
fn test_capacity() {
    let mut h: History<i32> = History::new(3);
    h.push(1);
    h.push(2);
    h.push(3);
    assert_eq!(h.len(), 3);

    h.push(4);
    assert_eq!(h.len(), 3);
    assert_eq!(h.to_vec(), vec![2, 3, 4]);
}

#[test]
fn test_last_n() {
    let mut h: History<i32> = History::new(5);
    for i in 1..=5 {
        h.push(i);
    }
    assert_eq!(h.last_n(3), vec![3, 4, 5]);
    assert_eq!(h.last_n(10), vec![1, 2, 3, 4, 5]);
}

#[test]
fn history_keeps_latest_capacity_samples() {
    let mut h: History<u32> = History::new(4);
    for i in 0..100u32 {
        h.push(i);
        assert!(h.len() <= 4);
        assert_eq!(h.latest(), Some(&i));
    }
    assert_eq!(h.to_vec(), vec![96, 97, 98, 99]);
}

#[test]
fn history_zero_capacity_keeps_one() {
    let mut h: History<i32> = History::new(0);
    h.push(7);
    h.push(8);
    assert_eq!(h.len(), 1);
    assert_eq!(h.to_vec(), vec![8]);
}

#[test]
fn history_clear_and_empty() {
    let mut h: History<String> = History::new(2);
    assert!(h.is_empty());
    h.push("a".to_string());
    assert!(!h.is_empty());
    h.clear();
    assert!(h.is_empty());
    assert_eq!(h.len(), 0);
    assert!(h.latest().is_none());
    assert_eq!(h.last_n(0), Vec::<String>::new());
}

#[test]
fn history_default_and_clone() {
    let mut h: History<i32> = History::default();
    for i in 0..400 {
        h.push(i);
    }
    assert_eq!(h.len(), 300);
    let c = h.clone();
    assert_eq!(c.to_vec(), h.to_vec());
    assert_eq!(c.last_n(2), vec![398, 399]);
}
