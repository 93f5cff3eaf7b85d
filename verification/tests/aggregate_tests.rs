use elb_log_rank::log::UrlCount;
use elb_log_rank::pipeline::{aggregate_batches, process_line, process_lines, KeyStrategy};
use elb_log_rank::ranker::{rank_all, top_n};
use elb_log_rank::table::FreqTable;
use elb_log_rank::tokenizer::LineFormat;

fn expanded_line(method: &str, url: &str) -> String {
    let fields = vec![
        "https",
        "2023-06-15T12:30:01.123456Z",
        "app/my-elb/50dc6c495c0c9188",
        "192.168.131.39:2817",
        "10.0.0.1:80",
        "0.001",
        "-1",
        "0.003",
        "200",
        "200",
        "34",
        "366",
        method,
        url,
        "HTTP/1.1",
        "curl/7.46.0",
        "-",
        "-",
        "arn:aws:elasticloadbalancing:targetgroup/my-targets",
        "Root=1-58337262-36d228ad5d99923122bbe354",
        "-",
        "-",
        "0",
        "2023-06-15T12:30:01.123000Z",
        "forward",
        "-",
        "-",
        "10.0.0.1:80",
        "200",
        "-",
        "-",
    ];
    fields.join(" ")
}

#[test]
fn counts_each_parsed_line_once() {
    let lines = vec![
        expanded_line("GET", "http://a/"),
        expanded_line("GET", "http://a/"),
        expanded_line("POST", "http://b/"),
        String::from("too short to parse"),
    ];
    let mut table = FreqTable::new();
    let skipped = process_lines(&lines, LineFormat::Expanded, KeyStrategy::MethodUrl, &mut table);
    assert_eq!(skipped, 1);
    assert_eq!(table.get(&String::from("GET http://a/")), 2);
    assert_eq!(table.get(&String::from("POST http://b/")), 1);
    assert_eq!(table.get(&String::from("absent")), 0);
    assert_eq!(table.len(), 2);
}

#[test]
fn full_request_strategy_keeps_the_version() {
    let lines = vec![expanded_line("GET", "http://a/")];
    let mut table = FreqTable::new();
    process_lines(&lines, LineFormat::Expanded, KeyStrategy::FullRequest, &mut table);
    assert_eq!(table.get(&String::from("GET http://a/ HTTP/1.1")), 1);
}

#[test]
fn failed_line_leaves_table_untouched() {
    let mut table = FreqTable::new();
    let ok = process_line("garbage", LineFormat::Quoted, KeyStrategy::MethodUrl, &mut table);
    assert!(!ok);
    assert_eq!(table.len(), 0);
}

#[test]
fn merge_gives_the_same_counts_in_either_order() {
    let a_key = String::from("GET http://a/");
    let b_key = String::from("GET http://b/");
    let c_key = String::from("GET http://c/");

    let mut t1 = FreqTable::new();
    t1.add_count(&a_key, 2);
    t1.add_count(&b_key, 1);
    let mut t2 = FreqTable::new();
    t2.add_count(&b_key, 3);
    t2.add_count(&c_key, 1);

    let mut first = FreqTable::new();
    first.merge_from(&t1);
    first.merge_from(&t2);
    let mut second = FreqTable::new();
    second.merge_from(&t2);
    second.merge_from(&t1);

    for key in [&a_key, &b_key, &c_key] {
        assert_eq!(first.get(key), second.get(key));
    }
    assert_eq!(first.get(&a_key), 2);
    assert_eq!(first.get(&b_key), 4);
    assert_eq!(first.get(&c_key), 1);
}

#[test]
fn partitioning_does_not_change_counts() {
    let lines = vec![
        expanded_line("GET", "http://a/"),
        expanded_line("GET", "http://b/"),
        expanded_line("GET", "http://a/"),
        expanded_line("GET", "http://c/"),
    ];
    // One worker takes everything.
    let mut whole = FreqTable::new();
    process_lines(&lines, LineFormat::Expanded, KeyStrategy::MethodUrl, &mut whole);
    // Two workers split the lines, and merge in reverse order.
    let batch1 = vec![lines[0].clone(), lines[1].clone()];
    let batch2 = vec![lines[2].clone(), lines[3].clone()];
    let mut w1 = FreqTable::new();
    let mut w2 = FreqTable::new();
    process_lines(&batch1, LineFormat::Expanded, KeyStrategy::MethodUrl, &mut w1);
    process_lines(&batch2, LineFormat::Expanded, KeyStrategy::MethodUrl, &mut w2);
    let mut shared = FreqTable::new();
    shared.merge_from(&w2);
    shared.merge_from(&w1);
    for key in ["GET http://a/", "GET http://b/", "GET http://c/"] {
        assert_eq!(whole.get(&String::from(key)), shared.get(&String::from(key)));
    }
}

#[test]
fn sequential_aggregation_matches_manual_merge() {
    let batches = vec![
        vec![expanded_line("GET", "http://a/"), expanded_line("GET", "http://b/")],
        vec![expanded_line("GET", "http://a/"), String::from("bad line")],
        vec![],
    ];
    let table = aggregate_batches(&batches, LineFormat::Expanded, KeyStrategy::MethodUrl);
    assert_eq!(table.get(&String::from("GET http://a/")), 2);
    assert_eq!(table.get(&String::from("GET http://b/")), 1);
    assert_eq!(table.len(), 2);
}

fn rows(v: &[UrlCount]) -> Vec<(String, u64)> {
    v.iter().map(|u| (u.url.clone(), u.count)).collect()
}

#[test]
fn truncates_to_top_two_with_omission_count() {
    let mut table = FreqTable::new();
    table.add_count(&String::from("A"), 10);
    table.add_count(&String::from("B"), 7);
    table.add_count(&String::from("C"), 7);
    table.add_count(&String::from("D"), 3);
    let (top, omitted) = top_n(&table, 2);
    assert_eq!(rows(&top), vec![(String::from("A"), 10), (String::from("B"), 7)]);
    assert_eq!(omitted, 2);
}

#[test]
fn ranks_all_when_the_limit_is_large() {
    let mut table = FreqTable::new();
    table.add_count(&String::from("D"), 3);
    table.add_count(&String::from("C"), 7);
    table.add_count(&String::from("A"), 10);
    table.add_count(&String::from("B"), 7);
    let (top, omitted) = top_n(&table, 20);
    assert_eq!(
        rows(&top),
        vec![
            (String::from("A"), 10),
            (String::from("B"), 7),
            (String::from("C"), 7),
            (String::from("D"), 3),
        ]
    );
    assert_eq!(omitted, 0);
    let ranked = rank_all(&table);
    assert_eq!(rows(&ranked), rows(&top));
}

#[test]
fn rerun_produces_identical_output() {
    let lines = vec![
        expanded_line("GET", "http://a/"),
        expanded_line("POST", "http://b/"),
        expanded_line("GET", "http://a/"),
    ];
    let mut run1 = FreqTable::new();
    process_lines(&lines, LineFormat::Expanded, KeyStrategy::MethodUrl, &mut run1);
    let mut run2 = FreqTable::new();
    process_lines(&lines, LineFormat::Expanded, KeyStrategy::MethodUrl, &mut run2);
    let (top1, om1) = top_n(&run1, 10);
    let (top2, om2) = top_n(&run2, 10);
    assert_eq!(rows(&top1), rows(&top2));
    assert_eq!(om1, om2);
}

#[test]
fn url_count_rows_order_by_count() {
    let small = UrlCount { url: String::from("z"), count: 1 };
    let big = UrlCount { url: String::from("a"), count: 5 };
    assert!(small < big);
    assert!(big > small);
    assert_eq!(
        small.partial_cmp(&big),
        Some(std::cmp::Ordering::Less)
    );
}

#[test]
fn url_count_rows_compare_by_key() {
    let a = UrlCount { url: String::from("GET /"), count: 1 };
    let b = UrlCount { url: String::from("GET /"), count: 5 };
    let c = UrlCount { url: String::from("POST /"), count: 1 };
    assert!(a == b);
    assert!(a != c);
}
