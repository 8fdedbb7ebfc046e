use sfp::history::HISTORY_SIZE;
use sfp::History;

#[test]
fn history_size_is_32() {
    assert_eq!(HISTORY_SIZE, 32);
}

#[test]
fn new_history_is_empty() {
    let history = History::new(32);
    assert_eq!(history.len(), 0);
    assert_eq!(history.capacity(), 32);
    assert_eq!(history.find(0), None);
}

#[test]
fn push_then_find() {
    let mut history = History::new(32);
    history.push(5, vec![1, 2, 3]);
    history.push(6, vec![]);
    assert_eq!(history.len(), 2);
    assert_eq!(history.find(5), Some(&vec![1, 2, 3]));
    assert_eq!(history.find(6), Some(&vec![]));
    assert_eq!(history.find(7), None);
}

#[test]
fn full_history_evicts_the_oldest() {
    let mut history = History::new(32);
    for seq in 0..32u8 {
        history.push(seq, vec![seq]);
    }
    assert_eq!(history.len(), 32);
    assert_eq!(history.find(0), Some(&vec![0]));
    history.push(32, vec![32]);
    assert_eq!(history.len(), 32);
    assert_eq!(history.find(0), None);
    assert_eq!(history.find(1), Some(&vec![1]));
    assert_eq!(history.find(32), Some(&vec![32]));
}

#[test]
fn find_serves_the_oldest_of_equal_numbers() {
    let mut history = History::new(4);
    history.push(1, vec![0xa]);
    history.push(2, vec![0xb]);
    history.push(1, vec![0xc]);
    assert_eq!(history.find(1), Some(&vec![0xa]));
    history.push(3, vec![0xd]);
    history.push(4, vec![0xe]);
    assert_eq!(history.find(1), Some(&vec![0xc]));
    assert_eq!(history.len(), 4);
}

#[test]
fn history_of_capacity_zero_stays_empty() {
    let mut history = History::new(0);
    history.push(1, vec![1]);
    assert_eq!(history.len(), 0);
    assert_eq!(history.find(1), None);
}

#[test]
fn history_of_capacity_one_holds_the_last() {
    let mut history = History::new(1);
    history.push(1, vec![1]);
    history.push(2, vec![2]);
    assert_eq!(history.len(), 1);
    assert_eq!(history.find(1), None);
    assert_eq!(history.find(2), Some(&vec![2]));
}
