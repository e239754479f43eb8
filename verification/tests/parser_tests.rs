use saba_core::dom::{ElementKind, NodeKind, Window};
use saba_core::parser::HtmlParser;
use saba_core::token::HtmlTokenizer;

fn build(html: &str) -> Window {
    HtmlParser::new(HtmlTokenizer::new(html.to_string())).construct_tree()
}

#[test]
fn test_document_structure_end_to_end() {
    let window = build("<html><head></head><body><p>hi</p></body></html>");
    let doc = window.document();
    let doc_node = window.node(doc).unwrap();
    assert_eq!(doc_node.kind(), NodeKind::Document);

    let html_id = window.node(doc).unwrap().first_child().unwrap();
    assert_eq!(window.node(doc).unwrap().last_child(), Some(html_id));
    let html_node = window.node(html_id).unwrap();
    assert_eq!(html_node.element_kind(), Some(ElementKind::Html));
    assert_eq!(html_node.parent(), Some(doc));
    assert_eq!(html_node.next_sibling(), None);

    let head_id = window.node(html_id).unwrap().first_child().unwrap();
    assert_eq!(window.node(head_id).unwrap().element_kind(), Some(ElementKind::Head));
    assert_eq!(window.node(head_id).unwrap().parent(), Some(html_id));

    let body_id = window.node(head_id).unwrap().next_sibling().unwrap();
    assert_eq!(window.node(body_id).unwrap().element_kind(), Some(ElementKind::Body));
    assert_eq!(window.node(body_id).unwrap().previous_sibling(), Some(head_id));
    assert_eq!(window.node(html_id).unwrap().last_child(), Some(body_id));

    let p_id = window.node(body_id).unwrap().first_child().unwrap();
    assert_eq!(window.node(body_id).unwrap().last_child(), Some(p_id));
    assert_eq!(window.node(p_id).unwrap().element_kind(), Some(ElementKind::P));

    let text_id = window.node(p_id).unwrap().first_child().unwrap();
    match window.node(text_id).unwrap().kind() {
        NodeKind::Text(s) => assert_eq!(s, "hi"),
        other => panic!("expected a text node, got {:?}", other),
    }
    assert_eq!(window.node(text_id).unwrap().next_sibling(), None);
    assert_eq!(window.node(text_id).unwrap().parent(), Some(p_id));
}

#[test]
fn test_adjacent_characters_share_one_text_node() {
    let window = build("<html><head></head><body>ab</body></html>");
    let doc = window.document();
    let html_id = window.node(doc).unwrap().first_child().unwrap();
    let head_id = window.node(html_id).unwrap().first_child().unwrap();
    let body_id = window.node(head_id).unwrap().next_sibling().unwrap();
    let text_id = window.node(body_id).unwrap().first_child().unwrap();
    assert_eq!(window.node(body_id).unwrap().last_child(), Some(text_id));
    match window.node(text_id).unwrap().kind() {
        NodeKind::Text(s) => assert_eq!(s, "ab"),
        other => panic!("expected a single text node, got {:?}", other),
    }
}

#[test]
fn test_script_content_stays_inside_script_element() {
    let window = build("<html><head><script>if (a < b) {}</script></head><body></body></html>");
    let doc = window.document();
    let html_id = window.node(doc).unwrap().first_child().unwrap();
    let head_id = window.node(html_id).unwrap().first_child().unwrap();
    let script_id = window.node(head_id).unwrap().first_child().unwrap();
    assert_eq!(window.node(script_id).unwrap().element_kind(), Some(ElementKind::Script));
    let text_id = window.node(script_id).unwrap().first_child().unwrap();
    match window.node(text_id).unwrap().kind() {
        NodeKind::Text(s) => assert_eq!(s, "if (a < b) {}"),
        other => panic!("expected the script text, got {:?}", other),
    }
    let body_id = window.node(head_id).unwrap().next_sibling().unwrap();
    assert_eq!(window.node(body_id).unwrap().element_kind(), Some(ElementKind::Body));
    assert_eq!(window.node(body_id).unwrap().first_child(), None);
}

#[test]
fn test_missing_structure_is_inserted_implicitly() {
    let window = build("<p>hi</p>");
    let doc = window.document();
    let html_id = window.node(doc).unwrap().first_child().unwrap();
    assert_eq!(window.node(html_id).unwrap().element_kind(), Some(ElementKind::Html));
    let head_id = window.node(html_id).unwrap().first_child().unwrap();
    assert_eq!(window.node(head_id).unwrap().element_kind(), Some(ElementKind::Head));
    let body_id = window.node(head_id).unwrap().next_sibling().unwrap();
    assert_eq!(window.node(body_id).unwrap().element_kind(), Some(ElementKind::Body));
    let p_id = window.node(body_id).unwrap().first_child().unwrap();
    assert_eq!(window.node(p_id).unwrap().element_kind(), Some(ElementKind::P));
}

#[test]
fn test_unknown_tags_are_skipped() {
    let window = build("<html><head></head><body><div>hi</div></body></html>");
    let doc = window.document();
    let html_id = window.node(doc).unwrap().first_child().unwrap();
    let head_id = window.node(html_id).unwrap().first_child().unwrap();
    let body_id = window.node(head_id).unwrap().next_sibling().unwrap();
    // the div itself is skipped; its text still lands in the body
    let text_id = window.node(body_id).unwrap().first_child().unwrap();
    match window.node(text_id).unwrap().kind() {
        NodeKind::Text(s) => assert_eq!(s, "hi"),
        other => panic!("expected text under body, got {:?}", other),
    }
}

#[test]
fn test_empty_input_builds_bare_document() {
    let window = build("");
    let doc = window.document();
    assert_eq!(window.node(doc).unwrap().kind(), NodeKind::Document);
    assert_eq!(window.node(doc).unwrap().first_child(), None);
    assert_eq!(window.node(doc).unwrap().parent(), None);
}

#[test]
fn test_sibling_links_are_symmetric() {
    let window = build("<html><head></head><body><p>a</p><p>b</p></body></html>");
    for id in 0..window.node_count() {
        let n = window.node(id).unwrap().clone();
        if let Some(s) = n.next_sibling() {
            assert_eq!(window.node(s).unwrap().previous_sibling(), Some(id));
        }
        if let Some(q) = n.previous_sibling() {
            assert_eq!(window.node(q).unwrap().next_sibling(), Some(id));
        }
        if let Some(c) = n.first_child() {
            assert_eq!(window.node(c).unwrap().parent(), Some(id));
        }
        if let Some(l) = n.last_child() {
            assert_eq!(window.node(l).unwrap().parent(), Some(id));
        }
    }
}

#[test]
fn test_forward_ownership_chain_never_revisits() {
    let window = build("<html><head></head><body><p>a</p><p>b</p></body></html>");
    let mut visited = vec![false; window.node_count()];
    let mut pending = vec![window.document()];
    while let Some(id) = pending.pop() {
        assert!(!visited[id], "the forward ownership chain revisited a node");
        visited[id] = true;
        let n = window.node(id).unwrap();
        if let Some(c) = n.first_child() {
            pending.push(c);
        }
        if let Some(s) = n.next_sibling() {
            pending.push(s);
        }
    }
}
