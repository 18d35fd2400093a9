use fleet_attention::log::push_bounded;

#[test]
fn bounded_log_keeps_newest() {
    let mut log: Vec<u32> = Vec::new();
    for i in 0..10 {
        push_bounded(&mut log, i, 5);
    }
    assert_eq!(log, vec![5, 6, 7, 8, 9]);
}

#[test]
fn bounded_log_under_limit_grows() {
    let mut log: Vec<u32> = vec![1, 2];
    push_bounded(&mut log, 3, 100);
    assert_eq!(log, vec![1, 2, 3]);
}

#[test]
fn bounded_log_zero_limit_is_empty() {
    let mut log: Vec<u32> = vec![];
    push_bounded(&mut log, 3, 0);
    assert!(log.is_empty());
}

#[test]
fn bounded_log_over_limit_is_trimmed() {
    let mut log: Vec<u32> = vec![1, 2, 3, 4];
    push_bounded(&mut log, 5, 2);
    assert_eq!(log, vec![4, 5]);
}
