use std::collections::VecDeque;

use type_expr_compiler::relay::{buffer_bytes, history_base64, record, HISTORY_LIMIT};

#[test]
fn history_keeps_the_latest_hundred() {
    let mut history: VecDeque<Vec<u8>> = VecDeque::new();
    for i in 0..HISTORY_LIMIT {
        record(&mut history, vec![i as u8]);
    }
    assert_eq!(history.len(), 100);
    assert_eq!(history[0], vec![0]);
    record(&mut history, vec![200]);
    assert_eq!(history.len(), 100);
    assert_eq!(history[0], vec![1]);
    assert_eq!(history[99], vec![200]);
    record(&mut history, vec![201]);
    assert_eq!(history[0], vec![2]);
    assert_eq!(history[98], vec![200]);
    assert_eq!(history[99], vec![201]);
}

#[test]
fn history_over_the_limit_loses_one_packet_at_a_time() {
    let mut history: VecDeque<Vec<u8>> = (0..105u8).map(|i| vec![i]).collect();
    record(&mut history, vec![255]);
    assert_eq!(history.len(), 105);
    assert_eq!(history[0], vec![1]);
    assert_eq!(history[104], vec![255]);
}

#[test]
fn buffer_items_that_are_numbers_give_their_low_byte() {
    let items = vec![Some(1), None, Some(255), Some(256), Some(0x1234), None, Some(u64::MAX)];
    assert_eq!(buffer_bytes(&items), vec![1, 255, 0, 0x34, 255]);
    assert!(buffer_bytes(&Vec::new()).is_empty());
    assert!(buffer_bytes(&vec![None, None]).is_empty());
}

#[test]
fn history_in_base64() {
    let mut history: VecDeque<Vec<u8>> = VecDeque::new();
    record(&mut history, b"hello".to_vec());
    record(&mut history, Vec::new());
    record(&mut history, vec![0xFF, 0xFE, 0xFD]);
    record(&mut history, b"hello world~".to_vec());
    assert_eq!(
        history_base64(&history),
        vec![
            "aGVsbG8=".to_string(),
            String::new(),
            "//79".to_string(),
            "aGVsbG8gd29ybGR+".to_string()
        ]
    );
    assert!(history_base64(&VecDeque::new()).is_empty());
}
