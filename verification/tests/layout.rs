use tidbyt_rs::layout::distribute;

#[test]
fn gaps_share_the_room_evenly_and_the_last_takes_the_rest() {
    // 60 - (10 + 10 + 10) = 30 over two gaps
    assert_eq!(distribute(60, &vec![10, 10, 10]), vec![15, 15]);
    // 60 - 29 = 31 over two gaps: 15 each, and 1 more for the last
    assert_eq!(distribute(60, &vec![10, 10, 9]), vec![15, 16]);
    // 60 - 28 = 32 over one gap
    assert_eq!(distribute(60, &vec![8, 20]), vec![32]);
}

#[test]
fn overflowing_children_get_negative_gaps() {
    // 60 - 65 = -5 over two gaps, rounded towards zero: -2 each, nothing added
    assert_eq!(distribute(60, &vec![30, 30, 5]), vec![-2, -2]);
    // 60 - 66 = -6 over two gaps
    assert_eq!(distribute(60, &vec![30, 30, 6]), vec![-3, -3]);
}

#[test]
fn fewer_than_two_children_have_no_gap() {
    assert_eq!(distribute(60, &vec![]), Vec::<i64>::new());
    assert_eq!(distribute(60, &vec![12]), Vec::<i64>::new());
}
