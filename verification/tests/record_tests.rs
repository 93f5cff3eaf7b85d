use elb_log_rank::log::{Log, LogParseError};
use elb_log_rank::parse_i64;
use elb_log_rank::chars::is_duration;

fn expanded_fields() -> Vec<String> {
    vec![
        "https",                       // request type
        "2023-06-15T12:30:01.123456Z", // close time
        "app/my-elb/50dc6c495c0c9188", // elb identifier
        "192.168.131.39:2817",         // client
        "10.0.0.1:80",                 // target
        "0.001",                       // request processing time
        "-1",                          // target processing time
        "0.003",                       // response processing time
        "200",                         // elb status code
        "200",                         // target status code
        "34",                          // received bytes
        "366",                         // sent bytes
        "GET",                         // request method
        "http://example.com:80/",      // request url
        "HTTP/1.1",                    // request http version
        "curl/7.46.0",                 // user agent
        "-",                           // ssl cipher
        "-",                           // ssl protocol
        "arn:aws:elasticloadbalancing:targetgroup/my-targets", // target group arn
        "Root=1-58337262-36d228ad5d99923122bbe354",            // trace id
        "-",                           // sni domain name
        "-",                           // certificate arn
        "0",                           // matched rule priority
        "2023-06-15T12:30:01.123000Z", // request creation time
        "forward",                     // actions executed
        "-",                           // redirect url
        "-",                           // error reason
        "10.0.0.1:80",                 // targets list
        "200",                         // target status code list
        "-",                           // classification
        "-",                           // classification reason
    ]
    .into_iter()
    .map(String::from)
    .collect()
}

fn quoted_fields() -> Vec<String> {
    let mut v: Vec<String> = expanded_fields();
    // Fold method, URL and version back into one composite request field.
    let method = v.remove(12);
    let url = v.remove(12);
    let version = v.remove(12);
    v.insert(12, format!("{} {} {}", method, url, version));
    v
}

#[test]
fn binds_expanded_fields_positionally() {
    let l = Log::from_expanded_fields(&expanded_fields()).unwrap();
    assert_eq!(l.request_type, "https");
    assert_eq!(l.client, "192.168.131.39:2817");
    assert_eq!(l.request_method, "GET");
    assert_eq!(l.request_url, "http://example.com:80/");
    assert_eq!(l.request_http_version, "HTTP/1.1");
    assert_eq!(l.classification_reason, "-");
    assert_eq!(l.elb_status_code_value(), 200);
    assert_eq!(l.received_bytes_value(), 34);
    assert_eq!(l.sent_bytes_value(), 366);
    assert_eq!(l.target_status_code_value(), 200);
    assert_eq!(l.matched_rule_priority_value(), 0);
}

#[test]
fn binds_quoted_fields_and_splits_request() {
    let l = Log::from_quoted_fields(&quoted_fields()).unwrap();
    assert_eq!(l.request_method, "GET");
    assert_eq!(l.request_url, "http://example.com:80/");
    assert_eq!(l.request_http_version, "HTTP/1.1");
    assert_eq!(l.user_agent, "curl/7.46.0");
    assert_eq!(l.key_method_url(), "GET http://example.com:80/");
    assert_eq!(l.key_full_request(), "GET http://example.com:80/ HTTP/1.1");
}

#[test]
fn wrong_field_count_is_rejected() {
    let mut v = expanded_fields();
    v.pop();
    assert_eq!(Log::from_expanded_fields(&v).unwrap_err(), LogParseError::FieldCount);
    let mut q = quoted_fields();
    q.push(String::from("extra"));
    assert_eq!(Log::from_quoted_fields(&q).unwrap_err(), LogParseError::FieldCount);
}

#[test]
fn malformed_request_field_is_rejected() {
    let mut q = quoted_fields();
    q[12] = String::from("GETONLY");
    assert_eq!(Log::from_quoted_fields(&q).unwrap_err(), LogParseError::RequestFormat);
}

#[test]
fn sentinel_fields_tolerate_non_numeric_text() {
    let mut v = expanded_fields();
    v[9] = String::from("-");
    let l = Log::from_expanded_fields(&v).unwrap();
    assert_eq!(l.target_status_code_value(), -1);
    let mut w = expanded_fields();
    w[22] = String::from("garbage");
    let l2 = Log::from_expanded_fields(&w).unwrap();
    assert_eq!(l2.matched_rule_priority_value(), -1);
}

#[test]
fn non_numeric_received_bytes_fails_the_line() {
    let mut v = expanded_fields();
    v[10] = String::from("not-a-number");
    assert_eq!(Log::from_expanded_fields(&v).unwrap_err(), LogParseError::NumericField);
}

#[test]
fn non_numeric_duration_fails_the_line() {
    let mut v = expanded_fields();
    v[6] = String::from("fast");
    assert_eq!(Log::from_expanded_fields(&v).unwrap_err(), LogParseError::NumericField);
}

#[test]
fn parses_signed_integers_exactly() {
    assert_eq!(parse_i64("123"), Some(123));
    assert_eq!(parse_i64("-45"), Some(-45));
    assert_eq!(parse_i64("0"), Some(0));
    assert_eq!(parse_i64(""), None);
    assert_eq!(parse_i64("-"), None);
    assert_eq!(parse_i64("12a"), None);
    assert_eq!(parse_i64("9223372036854775807"), Some(i64::MAX));
    assert_eq!(parse_i64("9223372036854775808"), None);
    assert_eq!(parse_i64("-9223372036854775808"), Some(i64::MIN));
    assert_eq!(parse_i64("-9223372036854775809"), None);
}

#[test]
fn duration_texts_are_digits_around_one_point_or_sentinel() {
    assert!(is_duration("0.001"));
    assert!(is_duration("-1"));
    assert!(is_duration("12"));
    assert!(!is_duration("1."));
    assert!(!is_duration(".5"));
    assert!(!is_duration("1.2.3"));
    assert!(!is_duration("abc"));
    assert!(!is_duration(""));
    assert!(!is_duration("-2"));
}
