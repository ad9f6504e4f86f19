use calldrop::record::{CallRecord, FilterCriteria, FilterError};

fn text(s: &str) -> Option<String> {
    Some(s.to_string())
}

#[test]
fn criteria_default_to_the_whole_range() {
    let criteria = FilterCriteria::from_args(None, None, None).unwrap();
    assert_eq!(criteria.user_phone_number, None);
    assert_eq!(criteria.duration_min, 0);
    assert_eq!(criteria.duration_max, u64::MAX);
}

#[test]
fn criteria_take_their_bounds_from_duration_text() {
    let criteria = FilterCriteria::from_args(text("555"), text("0:0:30"), text("1:30:00")).unwrap();
    assert_eq!(criteria.user_phone_number, text("555"));
    assert_eq!(criteria.duration_min, 30);
    assert_eq!(criteria.duration_max, 5400);
}

#[test]
fn criteria_with_one_bound_default_the_other() {
    let lower = FilterCriteria::from_args(None, text("0:1:0"), None).unwrap();
    assert_eq!((lower.duration_min, lower.duration_max), (60, u64::MAX));
    let upper = FilterCriteria::from_args(None, None, text("0:90:90")).unwrap();
    assert_eq!((upper.duration_min, upper.duration_max), (0, 5490));
}

#[test]
fn criteria_may_hold_an_empty_range() {
    let criteria = FilterCriteria::from_args(None, text("1:0:0"), text("0:0:1")).unwrap();
    assert_eq!((criteria.duration_min, criteria.duration_max), (3600, 1));
}

#[test]
fn criteria_keep_the_phone_number_as_it_is() {
    let criteria = FilterCriteria::from_args(text(" +1 (555) 0100 "), None, None).unwrap();
    assert_eq!(criteria.user_phone_number, text(" +1 (555) 0100 "));
    let empty = FilterCriteria::from_args(text(""), None, None).unwrap();
    assert_eq!(empty.user_phone_number, text(""));
}

#[test]
fn a_malformed_lower_bound_is_refused() {
    let error = FilterCriteria::from_args(None, text("abc"), None).unwrap_err();
    assert_eq!(error, FilterError::MalformedDurationMin);
    let error = FilterCriteria::from_args(text("555"), text("1:2"), text("0:0:5")).unwrap_err();
    assert_eq!(error, FilterError::MalformedDurationMin);
}

#[test]
fn a_malformed_upper_bound_is_refused() {
    let error = FilterCriteria::from_args(None, None, text("1:2:")).unwrap_err();
    assert_eq!(error, FilterError::MalformedDurationMax);
    let error = FilterCriteria::from_args(None, text("0:0:0"), text("30")).unwrap_err();
    assert_eq!(error, FilterError::MalformedDurationMax);
}

#[test]
fn the_lower_bound_is_reported_before_the_upper_one() {
    let error = FilterCriteria::from_args(None, text("x"), text("y")).unwrap_err();
    assert_eq!(error, FilterError::MalformedDurationMin);
}

#[test]
fn filter_errors_name_the_bound() {
    assert_eq!(
        FilterError::MalformedDurationMin.message(),
        "Failed to parse duration from the input `duration_min`"
    );
    assert_eq!(
        FilterError::MalformedDurationMax.message(),
        "Failed to parse duration from the input `duration_max`"
    );
}

#[test]
fn a_new_record_has_all_its_columns() {
    let record = CallRecord::new("0:0:10".to_string(), "555".to_string(), true);
    assert_eq!(record.duration, text("0:0:10"));
    assert_eq!(record.user_phone_number, text("555"));
    assert_eq!(record.call_successfully_completed, Some(true));
}
