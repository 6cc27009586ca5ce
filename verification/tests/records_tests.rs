use cdno_domain::records::{parse_record_time, record_order};

#[test]
fn record_times_parse_in_each_format() {
    assert_eq!(parse_record_time("18:00"), Some((64800, 0)));
    assert_eq!(parse_record_time(" 9:00 "), Some((32400, 0)));
    assert_eq!(parse_record_time("07:15:30"), Some((26130, 0)));
    assert_eq!(parse_record_time("6:30 PM"), Some((66600, 0)));
    assert_eq!(parse_record_time("6:30:05 AM"), Some((23405, 0)));
    assert_eq!(parse_record_time("later"), None);
    assert_eq!(parse_record_time(""), None);
}

#[test]
fn records_sort_by_time_only_when_all_are_timed() {
    let evening = parse_record_time("18:00");
    let morning = parse_record_time("9:00");
    // "18:00" sorts before "9:00" as text; parsed, the morning comes first.
    assert_eq!(record_order(&vec![evening, morning]), vec![1, 0]);
    // Ties keep document order.
    assert_eq!(record_order(&vec![evening, morning, morning]), vec![1, 2, 0]);
    // One record without a time leaves the whole set in document order.
    assert_eq!(record_order(&vec![evening, None, morning]), vec![0, 1, 2]);
    assert_eq!(record_order(&vec![evening, parse_record_time("soon"), morning]), vec![0, 1, 2]);
    assert_eq!(record_order(&Vec::new()), Vec::<usize>::new());
}
