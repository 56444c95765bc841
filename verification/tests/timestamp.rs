use gitfacade::timestamp::Timestamp;

#[test]
fn new_keeps_both_parts() {
    let t = Timestamp::new(1608839587, -300);
    assert_eq!(t.seconds, 1608839587);
    assert_eq!(t.offset_minutes, -300);
}

#[test]
fn minimum_is_the_lowest_pair() {
    assert_eq!(Timestamp::minimum(), Timestamp::new(i64::MIN, i32::MIN));
    assert!(Timestamp::new(i64::MIN, i32::MIN + 1).is_at_least(&Timestamp::minimum()));
    assert!(Timestamp::new(0, 0).is_at_least(&Timestamp::minimum()));
    assert!(Timestamp::minimum().is_at_least(&Timestamp::minimum()));
}

#[test]
fn seconds_decide_first() {
    let early = Timestamp::new(10, 600);
    let late = Timestamp::new(11, -600);
    assert!(early.is_before(&late));
    assert!(!late.is_before(&early));
    assert!(late.is_after(&early));
    assert!(late.is_at_least(&early));
    assert!(!early.is_at_least(&late));
}

#[test]
fn offset_decides_between_equal_seconds() {
    let west = Timestamp::new(10, -60);
    let east = Timestamp::new(10, 60);
    assert!(west.is_before(&east));
    assert!(east.is_after(&west));
    assert!(!west.is_at_least(&east));
    assert!(east.is_at_least(&west));
}

#[test]
fn a_time_is_at_least_itself_and_not_after_itself() {
    let t = Timestamp::new(10, 60);
    assert!(t.is_at_least(&t));
    assert!(!t.is_after(&t));
    assert!(!t.is_before(&t));
}
