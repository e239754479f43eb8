use saba_core::token::{HtmlToken, HtmlTokenizer};

fn collect_tokens(html: &str) -> Vec<HtmlToken> {
    let mut t = HtmlTokenizer::new(html.to_string());
    let mut out = Vec::new();
    loop {
        match t.next() {
            Some(tok) => out.push(tok),
            None => break,
        }
    }
    out
}

#[test]
fn test_tokenizer_is_deterministic() {
    let html = "<html><head></head><body class=\"main\"><p>hi</p></body></html>";
    let first = collect_tokens(html);
    let second = collect_tokens(html);
    assert_eq!(first, second);
    assert!(!first.is_empty());
}

#[test]
fn test_script_body_is_raw_text() {
    let toks = collect_tokens("<script>if (a < b) {}</script>");
    let mut expected = vec![HtmlToken::StartTag {
        tag: "script".to_string(),
        self_closing: false,
        attributes: Vec::new(),
    }];
    for c in "if (a < b) {}".chars() {
        expected.push(HtmlToken::Char(c));
    }
    expected.push(HtmlToken::EndTag { tag: "script".to_string() });
    expected.push(HtmlToken::EOF);
    assert_eq!(toks, expected);
}

#[test]
fn test_plain_text_becomes_chars() {
    let toks = collect_tokens("hi");
    assert_eq!(
        toks,
        vec![HtmlToken::Char('h'), HtmlToken::Char('i'), HtmlToken::EOF]
    );
}

#[test]
fn test_next_after_end_yields_none_forever() {
    let mut t = HtmlTokenizer::new("a".to_string());
    assert_eq!(t.next(), Some(HtmlToken::Char('a')));
    assert_eq!(t.next(), Some(HtmlToken::EOF));
    assert_eq!(t.next(), None);
    assert_eq!(t.next(), None);
}

#[test]
fn test_tag_names_are_case_normalised() {
    let toks = collect_tokens("<HTML>");
    assert_eq!(
        toks[0],
        HtmlToken::StartTag {
            tag: "html".to_string(),
            self_closing: false,
            attributes: Vec::new(),
        }
    );
}

#[test]
fn test_attributes_are_collected_in_order() {
    let toks = collect_tokens("<body class=\"main\" id=x>");
    match &toks[0] {
        HtmlToken::StartTag { tag, self_closing, attributes } => {
            assert_eq!(tag, "body");
            assert!(!self_closing);
            assert_eq!(attributes.len(), 2);
            assert_eq!(attributes[0].name(), "class");
            assert_eq!(attributes[0].value(), "main");
            assert_eq!(attributes[1].name(), "id");
            assert_eq!(attributes[1].value(), "x");
        }
        other => panic!("expected a start tag, got {:?}", other),
    }
}

#[test]
fn test_self_closing_flag() {
    let toks = collect_tokens("<body/>");
    match &toks[0] {
        HtmlToken::StartTag { tag, self_closing, .. } => {
            assert_eq!(tag, "body");
            assert!(*self_closing);
        }
        other => panic!("expected a start tag, got {:?}", other),
    }
}

#[test]
fn test_end_tag() {
    let toks = collect_tokens("</body>");
    assert_eq!(
        toks,
        vec![HtmlToken::EndTag { tag: "body".to_string() }, HtmlToken::EOF]
    );
}

#[test]
fn test_stray_less_than_is_literal_text() {
    let toks = collect_tokens("a < b");
    assert_eq!(
        toks,
        vec![
            HtmlToken::Char('a'),
            HtmlToken::Char(' '),
            HtmlToken::Char('<'),
            HtmlToken::Char(' '),
            HtmlToken::Char('b'),
            HtmlToken::EOF,
        ]
    );
}

#[test]
fn test_unfinished_end_tag_in_script_is_text() {
    let toks = collect_tokens("<style>a </ b</style>");
    let mut expected = vec![HtmlToken::StartTag {
        tag: "style".to_string(),
        self_closing: false,
        attributes: Vec::new(),
    }];
    for c in "a < b".chars() {
        expected.push(HtmlToken::Char(c));
    }
    expected.push(HtmlToken::EndTag { tag: "style".to_string() });
    expected.push(HtmlToken::EOF);
    assert_eq!(toks, expected);
}

#[test]
fn test_token_count_within_budget() {
    let html = "<html><head><script>if (a < b) {}</script></head><body><p>hi</p></body></html>";
    let n = html.chars().count();
    let toks = collect_tokens(html);
    assert!(toks.len() <= n + 1);
}
