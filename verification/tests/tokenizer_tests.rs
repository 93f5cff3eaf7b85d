use elb_log_rank::tokenizer::{tokenize, LineFormat};

fn strs(v: Vec<&str>) -> Vec<String> {
    v.into_iter().map(String::from).collect()
}

#[test]
fn tokenizes_quoted_fields_round_trip() {
    let toks = tokenize("GET \"200 \" example.com", LineFormat::Quoted);
    assert_eq!(toks, strs(vec!["GET", "200 ", "example.com"]));
}

#[test]
fn quoted_interior_spaces_kept_verbatim() {
    let toks = tokenize("a \" b  c \" d", LineFormat::Quoted);
    assert_eq!(toks, strs(vec!["a", " b  c ", "d"]));
}

#[test]
fn consecutive_delimiters_drop_empty_tokens() {
    let toks = tokenize("a   b", LineFormat::Quoted);
    assert_eq!(toks, strs(vec!["a", "b"]));
    let toks2 = tokenize("  a b  ", LineFormat::Quoted);
    assert_eq!(toks2, strs(vec!["a", "b"]));
}

#[test]
fn tab_splits_in_quote_aware_variant_only() {
    assert_eq!(tokenize("a\tb", LineFormat::Quoted), strs(vec!["a", "b"]));
    assert_eq!(tokenize("a\tb", LineFormat::Expanded), strs(vec!["a\tb"]));
}

#[test]
fn quoted_empty_token_is_kept() {
    let toks = tokenize("a \"\" b", LineFormat::Quoted);
    assert_eq!(toks, strs(vec!["a", "", "b"]));
}

#[test]
fn unterminated_quote_extends_to_line_end() {
    let toks = tokenize("a \"bc d", LineFormat::Quoted);
    assert_eq!(toks, strs(vec!["a", "bc d"]));
}

#[test]
fn quote_inside_token_starts_new_token() {
    let toks = tokenize("ab\"cd\"", LineFormat::Quoted);
    assert_eq!(toks, strs(vec!["ab", "cd"]));
}

#[test]
fn expanded_variant_gives_quotes_no_meaning() {
    let toks = tokenize("a \"b c\"", LineFormat::Expanded);
    assert_eq!(toks, strs(vec!["a", "\"b", "c\""]));
}

#[test]
fn empty_line_has_no_tokens() {
    assert_eq!(tokenize("", LineFormat::Quoted), Vec::<String>::new());
    assert_eq!(tokenize("   ", LineFormat::Quoted), Vec::<String>::new());
}
