use saba_core::dom::{Attribute, Element, ElementKind, Node, NodeKind, Window};

#[test]
fn test_element_kind_from_name() {
    assert_eq!(ElementKind::from_name("html"), Some(ElementKind::Html));
    assert_eq!(ElementKind::from_name("head"), Some(ElementKind::Head));
    assert_eq!(ElementKind::from_name("style"), Some(ElementKind::Style));
    assert_eq!(ElementKind::from_name("script"), Some(ElementKind::Script));
    assert_eq!(ElementKind::from_name("body"), Some(ElementKind::Body));
    assert_eq!(ElementKind::from_name("p"), Some(ElementKind::P));
    assert_eq!(ElementKind::from_name("div"), None);
    assert_eq!(ElementKind::from_name(""), None);
}

#[test]
fn test_element_new_keeps_kind_and_attributes() {
    let mut a = Attribute::new();
    a.add_char('i', true);
    a.add_char('d', true);
    a.add_char('x', false);
    let e = Element::new("body", vec![a]);
    assert_eq!(e.kind(), ElementKind::Body);
    assert_eq!(e.attributes.len(), 1);
    assert_eq!(e.attributes[0].name(), "id");
    assert_eq!(e.attributes[0].value(), "x");
}

#[test]
fn test_new_node_is_unlinked() {
    let n = Node::new(NodeKind::Document);
    assert_eq!(n.kind(), NodeKind::Document);
    assert_eq!(n.parent(), None);
    assert_eq!(n.first_child(), None);
    assert_eq!(n.last_child(), None);
    assert_eq!(n.previous_sibling(), None);
    assert_eq!(n.next_sibling(), None);
    assert_eq!(n.window(), None);
}

#[test]
fn test_node_setters() {
    let mut n = Node::new(NodeKind::Document);
    n.set_parent(Some(3));
    n.set_first_child(Some(4));
    n.set_last_child(Some(5));
    n.set_previous_sibling(Some(6));
    n.set_next_sibling(Some(7));
    n.set_window(Some(0));
    assert_eq!(n.parent(), Some(3));
    assert_eq!(n.first_child(), Some(4));
    assert_eq!(n.last_child(), Some(5));
    assert_eq!(n.previous_sibling(), Some(6));
    assert_eq!(n.next_sibling(), Some(7));
    assert_eq!(n.window(), Some(0));
}

#[test]
fn test_get_element_only_on_element_nodes() {
    let e = Element::new("p", Vec::new());
    let n = Node::new(NodeKind::Element(e));
    assert_eq!(n.element_kind(), Some(ElementKind::P));
    assert!(n.get_element().is_some());
    let t = Node::new(NodeKind::Text("x".to_string()));
    assert_eq!(t.element_kind(), None);
    assert!(t.get_element().is_none());
    let d = Node::new(NodeKind::Document);
    assert!(d.get_element().is_none());
}

#[test]
fn test_append_child_keeps_links_symmetric() {
    let mut w = Window::new();
    let doc = w.document();
    let first = w.append_child(doc, NodeKind::Text("a".to_string()));
    let second = w.append_child(doc, NodeKind::Text("b".to_string()));

    assert_eq!(w.node(doc).unwrap().first_child(), Some(first));
    assert_eq!(w.node(doc).unwrap().last_child(), Some(second));
    assert_eq!(w.node(first).unwrap().next_sibling(), Some(second));
    assert_eq!(w.node(second).unwrap().previous_sibling(), Some(first));
    assert_eq!(w.node(first).unwrap().parent(), Some(doc));
    assert_eq!(w.node(second).unwrap().parent(), Some(doc));
    assert_eq!(w.node(first).unwrap().previous_sibling(), None);
    assert_eq!(w.node(second).unwrap().next_sibling(), None);
    assert_eq!(w.node_count(), 3);
}

#[test]
fn test_window_document_is_root() {
    let w = Window::new();
    let doc = w.document();
    assert_eq!(doc, 0);
    assert_eq!(w.node_count(), 1);
    assert_eq!(w.node(doc).unwrap().kind(), NodeKind::Document);
    assert_eq!(w.node(doc).unwrap().window(), Some(0));
    assert!(w.node(1).is_none());
}

#[test]
fn test_append_text_char_extends_text() {
    let mut w = Window::new();
    let doc = w.document();
    let t = w.append_child(doc, NodeKind::Text("h".to_string()));
    w.append_text_char(t, 'i');
    match w.node(t).unwrap().kind() {
        NodeKind::Text(s) => assert_eq!(s, "hi"),
        other => panic!("expected a text node, got {:?}", other),
    }
}
