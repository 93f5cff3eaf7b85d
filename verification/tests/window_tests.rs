use elb_log_rank::timewindow::{from_time, selects_log_file, validate_time, TimeOfDay};

fn t(hhmm: &str) -> Option<TimeOfDay> {
    Some(from_time(hhmm).unwrap())
}

#[test]
fn parses_hhmm_times() {
    assert_eq!(from_time("0000").unwrap().minutes, 0);
    assert_eq!(from_time("1230").unwrap().minutes, 750);
    assert_eq!(from_time("2359").unwrap().minutes, 1439);
}

#[test]
fn rejects_malformed_times() {
    assert!(from_time("2400").is_err());
    assert!(from_time("0060").is_err());
    assert!(from_time("930").is_err());
    assert!(from_time("09300").is_err());
    assert!(from_time("12a0").is_err());
    assert!(from_time("").is_err());
}

#[test]
fn timestamp_inside_window_is_accepted() {
    let name = "app.20230615T1230Z.log";
    assert!(selects_log_file(name, &t("1200"), &t("1300")));
}

#[test]
fn timestamp_after_end_bound_is_rejected() {
    let name = "app.20230615T1230Z.log";
    assert!(!selects_log_file(name, &None, &t("1100")));
}

#[test]
fn both_bounds_must_hold() {
    // Pins the documented resolution: with both bounds set the lower
    // bound still applies, so a file before it is rejected even though
    // it satisfies the upper bound alone.
    let name = "app.20230615T1230Z.log";
    assert!(!selects_log_file(name, &t("1300"), &t("1400")));
    assert!(selects_log_file(name, &t("1230"), &t("1230")));
}

#[test]
fn single_bounds_apply_on_their_own() {
    let name = "app.20230615T1230Z.log";
    assert!(selects_log_file(name, &t("1200"), &None));
    assert!(!selects_log_file(name, &t("1300"), &None));
    assert!(selects_log_file(name, &None, &t("1230")));
    assert!(selects_log_file(name, &None, &None));
}

#[test]
fn no_timestamp_passes_only_without_bounds() {
    assert!(selects_log_file("plain.log", &None, &None));
    assert!(!selects_log_file("plain.log", &t("0000"), &None));
    assert!(!selects_log_file("plain.log", &None, &t("2359")));
}

#[test]
fn last_timestamp_wins() {
    let name = "a.20230615T0100Z.b.20230615T1230Z.log";
    assert!(selects_log_file(name, &t("1200"), &None));
    let reversed = "a.20230615T1230Z.b.20230615T0100Z.log";
    assert!(!selects_log_file(reversed, &t("1200"), &None));
}

#[test]
fn out_of_range_digits_are_no_timestamp() {
    assert!(selects_log_file("app.20230615T9930Z.log", &None, &None));
    assert!(!selects_log_file("app.20230615T9930Z.log", &t("0000"), &None));
}

#[test]
fn suffix_is_required() {
    assert!(!selects_log_file("app.20230615T1230Z.txt", &None, &None));
    assert!(!selects_log_file("log", &None, &None));
    assert!(selects_log_file(".log", &None, &None));
}

#[test]
fn time_parse_error_names_itself() {
    let err = from_time("nope").unwrap_err();
    assert_eq!(err.message(), "invalid time");
}

#[test]
fn validate_time_ignores_the_suffix() {
    assert!(validate_time("anything.20230615T1230Z.txt", &t("1200"), &t("1300")));
}
