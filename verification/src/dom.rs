//! The node store: a document tree held in one owning arena. Every link
//! (parent, child, sibling) is an index into the arena, and well-formedness
//! ties the links together: sibling links are symmetric, child links point
//! back to the parent, and every forward link (`first_child`, `next_sibling`)
//! goes to a strictly larger index, which makes the forward ownership chain
//! acyclic.

use vstd::prelude::*;
use crate::text::{push_char, str_eq};

verus! {

/// One name/value pair of a start tag.
#[derive(Debug, Clone, PartialEq, Eq)]
pub struct Attribute {
    pub name: String,
    pub value: String,
}

impl Attribute {
    pub fn new() -> (r: Attribute)
        ensures
            r.name@ == Seq::<char>::empty(),
            r.value@ == Seq::<char>::empty(),
    {
        Attribute { name: String::new(), value: String::new() }
    }

    /// Extends the name (while one is being read) or the value.
    pub fn add_char(&mut self, c: char, is_name: bool)
        ensures
            is_name ==> final(self).name@ == old(self).name@.push(c) && final(self).value == old(
                self,
            ).value,
            !is_name ==> final(self).value@ == old(self).value@.push(c) && final(self).name == old(
                self,
            ).name,
    {
        if is_name {
            push_char(&mut self.name, c);
        } else {
            push_char(&mut self.value, c);
        }
    }

    pub fn name(&self) -> (r: String)
        ensures
            r == self.name,
    {
        self.name.clone()
    }

    pub fn value(&self) -> (r: String)
        ensures
            r == self.value,
    {
        self.value.clone()
    }
}

pub(crate) fn clone_attributes(v: &Vec<Attribute>) -> (r: Vec<Attribute>)
    ensures
        r@ == v@,
{
    let mut r: Vec<Attribute> = Vec::new();
    let mut i: usize = 0;
    while i < v.len()
        invariant
            i <= v@.len(),
            r@ =~= v@.take(i as int),
        decreases v@.len() - i,
    {
        r.push(Attribute { name: v[i].name.clone(), value: v[i].value.clone() });
        proof {
            assert(r@ =~= v@.take(i + 1));
        }
        i = i + 1;
    }
    proof {
        assert(r@ =~= v@);
    }
    r
}

/// The name/value views of an attribute sequence.
pub open spec fn attr_views(v: Seq<Attribute>) -> Seq<(Seq<char>, Seq<char>)> {
    v.map_values(|a: Attribute| (a.name@, a.value@))
}

/// The closed set of element kinds the tree builder knows.
#[derive(Debug, Clone, Copy, PartialEq, Eq, Structural)]
pub enum ElementKind {
    Html,
    Head,
    Style,
    Script,
    Body,
    P,
}

/// The kind a tag name maps to; `None` for an unsupported tag.
pub open spec fn spec_kind_from_name(n: Seq<char>) -> Option<ElementKind> {
    if n == "html"@ {
        Some(ElementKind::Html)
    } else if n == "head"@ {
        Some(ElementKind::Head)
    } else if n == "style"@ {
        Some(ElementKind::Style)
    } else if n == "script"@ {
        Some(ElementKind::Script)
    } else if n == "body"@ {
        Some(ElementKind::Body)
    } else if n == "p"@ {
        Some(ElementKind::P)
    } else {
        None
    }
}

impl ElementKind {
    /// The kind named by a tag, or `None`: callers must treat an unsupported
    /// tag before they construct an element.
    pub fn from_name(name: &str) -> (r: Option<ElementKind>)
        ensures
            r == spec_kind_from_name(name@),
    {
        if str_eq(name, "html") {
            Some(ElementKind::Html)
        } else if str_eq(name, "head") {
            Some(ElementKind::Head)
        } else if str_eq(name, "style") {
            Some(ElementKind::Style)
        } else if str_eq(name, "script") {
            Some(ElementKind::Script)
        } else if str_eq(name, "body") {
            Some(ElementKind::Body)
        } else if str_eq(name, "p") {
            Some(ElementKind::P)
        } else {
            None
        }
    }
}

/// An element: a kind from the closed set, plus its attributes in order.
#[derive(Debug, Clone, PartialEq, Eq)]
pub struct Element {
    pub kind: ElementKind,
    pub attributes: Vec<Attribute>,
}

impl Element {
    /// Constructing from an unrecognised tag name is a hard failure, so a
    /// recognised name is demanded here.
    pub fn new(element_name: &str, attributes: Vec<Attribute>) -> (r: Element)
        requires
            spec_kind_from_name(element_name@) is Some,
        ensures
            Some(r.kind) == spec_kind_from_name(element_name@),
            r.attributes == attributes,
    {
        match ElementKind::from_name(element_name) {
            Some(kind) => Element { kind, attributes },
            None => {
                proof {
                    assert(false);
                }
                Element { kind: ElementKind::Html, attributes }
            },
        }
    }

    pub fn kind(&self) -> (r: ElementKind)
        ensures
            r == self.kind,
    {
        self.kind
    }
}

/// What a node is: the document root, an element, or a run of text.
#[derive(Debug, Clone, PartialEq, Eq)]
pub enum NodeKind {
    Document,
    Element(Element),
    Text(String),
}

/// Deep equality of node kinds: same variant, same element kind and
/// attribute views, same text.
pub open spec fn kind_like(a: NodeKind, b: NodeKind) -> bool {
    match (a, b) {
        (NodeKind::Document, NodeKind::Document) => true,
        (NodeKind::Element(x), NodeKind::Element(y)) => x.kind == y.kind && x.attributes@
            == y.attributes@,
        (NodeKind::Text(x), NodeKind::Text(y)) => x@ == y@,
        _ => false,
    }
}

fn clone_kind(k: &NodeKind) -> (r: NodeKind)
    ensures
        kind_like(r, *k),
{
    match k {
        NodeKind::Document => NodeKind::Document,
        NodeKind::Element(e) => NodeKind::Element(
            Element { kind: e.kind, attributes: clone_attributes(&e.attributes) },
        ),
        NodeKind::Text(s) => NodeKind::Text(s.clone()),
    }
}

/// One node of the tree. Links are arena indices; `None` is an absent link.
#[derive(Debug, Clone)]
pub struct Node {
    pub kind: NodeKind,
    pub window: Option<usize>,
    pub parent: Option<usize>,
    pub first_child: Option<usize>,
    pub last_child: Option<usize>,
    pub previous_sibling: Option<usize>,
    pub next_sibling: Option<usize>,
}

impl Node {
    /// A fresh, unlinked node.
    pub fn new(kind: NodeKind) -> (r: Node)
        ensures
            r.kind == kind,
            r.window is None,
            r.parent is None,
            r.first_child is None,
            r.last_child is None,
            r.previous_sibling is None,
            r.next_sibling is None,
    {
        Node {
            kind,
            window: None,
            parent: None,
            first_child: None,
            last_child: None,
            previous_sibling: None,
            next_sibling: None,
        }
    }

    pub fn kind(&self) -> (r: NodeKind)
        ensures
            kind_like(r, self.kind),
    {
        clone_kind(&self.kind)
    }

    /// The element carried by an element node.
    pub fn get_element(&self) -> (r: Option<Element>)
        ensures
            self.kind matches NodeKind::Element(e) ==> r matches Some(e2) && e2.kind == e.kind
                && e2.attributes@ == e.attributes@,
            !(self.kind matches NodeKind::Element(_)) ==> r is None,
    {
        match &self.kind {
            NodeKind::Element(e) => Some(
                Element { kind: e.kind, attributes: clone_attributes(&e.attributes) },
            ),
            _ => None,
        }
    }

    /// The kind of an element node.
    pub fn element_kind(&self) -> (r: Option<ElementKind>)
        ensures
            r == match self.kind {
                NodeKind::Element(e) => Some(e.kind),
                _ => None::<ElementKind>,
            },
    {
        match &self.kind {
            NodeKind::Element(e) => Some(e.kind),
            _ => None,
        }
    }

    pub fn window(&self) -> (r: Option<usize>)
        ensures
            r == self.window,
    {
        self.window
    }

    pub fn parent(&self) -> (r: Option<usize>)
        ensures
            r == self.parent,
    {
        self.parent
    }

    pub fn first_child(&self) -> (r: Option<usize>)
        ensures
            r == self.first_child,
    {
        self.first_child
    }

    pub fn last_child(&self) -> (r: Option<usize>)
        ensures
            r == self.last_child,
    {
        self.last_child
    }

    pub fn previous_sibling(&self) -> (r: Option<usize>)
        ensures
            r == self.previous_sibling,
    {
        self.previous_sibling
    }

    pub fn next_sibling(&self) -> (r: Option<usize>)
        ensures
            r == self.next_sibling,
    {
        self.next_sibling
    }

    pub fn set_window(&mut self, window: Option<usize>)
        ensures
            *final(self) == (Node { window, ..*old(self) }),
    {
        self.window = window;
    }

    pub fn set_parent(&mut self, parent: Option<usize>)
        ensures
            *final(self) == (Node { parent, ..*old(self) }),
    {
        self.parent = parent;
    }

    pub fn set_first_child(&mut self, first_child: Option<usize>)
        ensures
            *final(self) == (Node { first_child, ..*old(self) }),
    {
        self.first_child = first_child;
    }

    pub fn set_last_child(&mut self, last_child: Option<usize>)
        ensures
            *final(self) == (Node { last_child, ..*old(self) }),
    {
        self.last_child = last_child;
    }

    pub fn set_previous_sibling(&mut self, previous_sibling: Option<usize>)
        ensures
            *final(self) == (Node { previous_sibling, ..*old(self) }),
    {
        self.previous_sibling = previous_sibling;
    }

    pub fn set_next_sibling(&mut self, next_sibling: Option<usize>)
        ensures
            *final(self) == (Node { next_sibling, ..*old(self) }),
    {
        self.next_sibling = next_sibling;
    }
}

/// What a node is, at the specification level.
pub ghost enum NodeKindSpec {
    Document,
    Element { kind: ElementKind, attributes: Seq<(Seq<char>, Seq<char>)> },
    Text(Seq<char>),
}

/// One node of the tree, at the specification level.
pub ghost struct NodeSpec {
    pub kind: NodeKindSpec,
    pub window: Option<usize>,
    pub parent: Option<usize>,
    pub first_child: Option<usize>,
    pub last_child: Option<usize>,
    pub previous_sibling: Option<usize>,
    pub next_sibling: Option<usize>,
}

pub open spec fn kind_view(k: NodeKind) -> NodeKindSpec {
    match k {
        NodeKind::Document => NodeKindSpec::Document,
        NodeKind::Element(e) => NodeKindSpec::Element {
            kind: e.kind,
            attributes: attr_views(e.attributes@),
        },
        NodeKind::Text(s) => NodeKindSpec::Text(s@),
    }
}

pub open spec fn node_view(n: Node) -> NodeSpec {
    NodeSpec {
        kind: kind_view(n.kind),
        window: n.window,
        parent: n.parent,
        first_child: n.first_child,
        last_child: n.last_child,
        previous_sibling: n.previous_sibling,
        next_sibling: n.next_sibling,
    }
}

/// The whole arena, at the specification level.
pub open spec fn node_views(nodes: Seq<Node>) -> Seq<NodeSpec> {
    nodes.map_values(|n: Node| node_view(n))
}

/// What `append_child` does, stated over the specification-level arena: the
/// fresh node goes to the end, linked as the parent's new last child.
pub open spec fn spec_append_child(nodes: Seq<NodeSpec>, parent: int, kind: NodeKindSpec) -> Seq<
    NodeSpec,
> {
    let id = nodes.len() as usize;
    match nodes[parent].last_child {
        Some(l) => nodes.update(
            l as int,
            NodeSpec { next_sibling: Some(id), ..nodes[l as int] },
        ).update(parent, NodeSpec { last_child: Some(id), ..nodes[parent] }).push(
            NodeSpec {
                kind,
                window: None,
                parent: Some(parent as usize),
                first_child: None,
                last_child: None,
                previous_sibling: Some(l),
                next_sibling: None,
            },
        ),
        None => nodes.update(
            parent,
            NodeSpec { first_child: Some(id), last_child: Some(id), ..nodes[parent] },
        ).push(
            NodeSpec {
                kind,
                window: None,
                parent: Some(parent as usize),
                first_child: None,
                last_child: None,
                previous_sibling: None,
                next_sibling: None,
            },
        ),
    }
}

/// What `append_text_char` does, stated over the specification-level arena.
pub open spec fn spec_append_text(nodes: Seq<NodeSpec>, id: int, c: char) -> Seq<NodeSpec> {
    match nodes[id].kind {
        NodeKindSpec::Text(s) => nodes.update(
            id,
            NodeSpec { kind: NodeKindSpec::Text(s.push(c)), ..nodes[id] },
        ),
        _ => nodes,
    }
}

/// The per-node part of well-formedness. Back links go to strictly smaller
/// indices, forward links to strictly larger ones, and each link is answered
/// by the matching back link of its target.
pub open spec fn node_wf(nodes: Seq<Node>, i: int) -> bool {
    let n = nodes[i];
    &&& (n.parent matches Some(p) ==> p < i)
    &&& (n.previous_sibling matches Some(q) ==> q < i && nodes[q as int].next_sibling == Some(
        i as usize,
    ) && nodes[q as int].parent == n.parent)
    &&& (n.next_sibling matches Some(s) ==> i < s < nodes.len() && nodes[s as int].previous_sibling
        == Some(i as usize) && nodes[s as int].parent == n.parent)
    &&& (n.first_child matches Some(c) ==> i < c < nodes.len() && nodes[c as int].parent == Some(
        i as usize,
    ) && nodes[c as int].previous_sibling is None)
    &&& (n.last_child matches Some(l) ==> i < l < nodes.len() && nodes[l as int].parent == Some(
        i as usize,
    ) && nodes[l as int].next_sibling is None)
    &&& (n.first_child is Some <==> n.last_child is Some)
    &&& (i > 0 ==> !(n.kind is Document))
    &&& (i > 0 ==> n.parent is Some)
    &&& (n.parent matches Some(p) ==> (n.previous_sibling is None ==> nodes[p as int].first_child
        == Some(i as usize)))
}

/// Well-formedness of the whole arena: node 0 is the document root, without
/// parent or siblings, and every node satisfies `node_wf`.
pub open spec fn nodes_wf(nodes: Seq<Node>) -> bool {
    &&& nodes.len() >= 1
    &&& nodes[0].kind is Document
    &&& nodes[0].parent is None
    &&& nodes[0].previous_sibling is None
    &&& nodes[0].next_sibling is None
    &&& forall|i: int| 0 <= i < nodes.len() ==> node_wf(nodes, i)
}

/// The context object that owns the whole tree; its view is the arena.
#[derive(Debug, Clone)]
pub struct Window {
    nodes: Vec<Node>,
}

impl View for Window {
    type V = Seq<Node>;

    closed spec fn view(&self) -> Seq<Node> {
        self.nodes@
    }
}

impl Window {
    pub open spec fn wf(&self) -> bool {
        nodes_wf(self@)
    }

    /// A window owning a single document node.
    pub fn new() -> (w: Window)
        ensures
            w.wf(),
            w@.len() == 1,
            w@[0].kind is Document,
            w@[0].first_child is None,
            w@[0].last_child is None,
            w@[0].window == Some(0usize),
    {
        let mut doc = Node::new(NodeKind::Document);
        doc.set_window(Some(0));
        let mut nodes: Vec<Node> = Vec::new();
        nodes.push(doc);
        Window { nodes }
    }

    /// The handle of the document node.
    pub fn document(&self) -> (r: usize)
        ensures
            r == 0,
    {
        0
    }

    /// How many nodes the tree holds.
    pub fn node_count(&self) -> (r: usize)
        ensures
            r == self@.len(),
    {
        self.nodes.len()
    }

    /// The node behind a handle, or `None` for a stale handle.
    pub fn node(&self, id: usize) -> (r: Option<&Node>)
        ensures
            match r {
                Some(n) => id < self@.len() && *n == self@[id as int],
                None => id >= self@.len(),
            },
    {
        if id < self.nodes.len() {
            Some(&self.nodes[id])
        } else {
            None
        }
    }

    /// The single insertion primitive: creates a node of `kind` and links it
    /// as the last child of `parent`, keeping every tree invariant.
    pub fn append_child(&mut self, parent: usize, kind: NodeKind) -> (id: usize)
        requires
            old(self).wf(),
            parent < old(self)@.len(),
            old(self)@.len() < usize::MAX,
            !(kind is Document),
        ensures
            final(self).wf(),
            id == old(self)@.len(),
            final(self)@.len() == old(self)@.len() + 1,
            final(self)@[id as int].kind == kind,
            final(self)@[id as int].parent == Some(parent),
            final(self)@[id as int].first_child is None,
            final(self)@[id as int].last_child is None,
            final(self)@[id as int].next_sibling is None,
            final(self)@[id as int].previous_sibling == old(self)@[parent as int].last_child,
            final(self)@[parent as int].last_child == Some(id),
            old(self)@[parent as int].first_child is None ==> final(self)@[parent as int].first_child
                == Some(id),
            old(self)@[parent as int].first_child is Some ==> final(self)@[parent as int].first_child
                == old(self)@[parent as int].first_child,
            forall|j: int|
                0 <= j < old(self)@.len() ==> (#[trigger] final(self)@[j]).kind == old(
                    self,
                )@[j].kind,
            forall|j: int|
                0 <= j < old(self)@.len() && j != parent && Some(j as usize) != old(
                    self,
                )@[parent as int].last_child ==> final(self)@[j] == old(self)@[j],
            final(self)@[parent as int] == (Node {
                first_child: final(self)@[parent as int].first_child,
                last_child: Some(id),
                ..old(self)@[parent as int]
            }),
            old(self)@[parent as int].last_child matches Some(l) ==> final(self)@[l as int] == (
            Node { next_sibling: Some(id), ..old(self)@[l as int] }),
            node_views(final(self)@) == spec_append_child(
                node_views(old(self)@),
                parent as int,
                kind_view(kind),
            ),
    {
        proof {
            assert(node_wf(self@, parent as int));
        }
        let id = self.nodes.len();
        let mut node = Node::new(kind);
        node.set_parent(Some(parent));
        let lc = self.nodes[parent].last_child;
        match lc {
            Some(l) => {
                node.set_previous_sibling(Some(l));
                self.nodes[l].next_sibling = Some(id);
            },
            None => {
                self.nodes[parent].first_child = Some(id);
            },
        }
        self.nodes[parent].last_child = Some(id);
        self.nodes.push(node);
        proof {
            let pre = old(self)@;
            let post = self@;
            let pi = parent as int;
            assert forall|i: int| 0 <= i < post.len() implies node_wf(post, i) by {
                assert(node_wf(pre, pi));
                if i < pre.len() {
                    assert(node_wf(pre, i));
                    match pre[pi].last_child {
                        Some(l) => {
                            assert(node_wf(pre, l as int));
                            if i != pi && i != l {
                                lemma_untouched_node_wf(pre, post, i, pi, l as int, id as int);
                            }
                        },
                        None => {
                            if i != pi {
                                lemma_untouched_node_wf(pre, post, i, pi, pi, id as int);
                            }
                        },
                    }
                }
            }
            assert forall|j: int| 0 <= j < post.len() implies node_views(post)[j]
                == spec_append_child(node_views(pre), pi, kind_view(kind))[j] by {
                if j < pre.len() && j != pi && Some(j as usize) != pre[pi].last_child {
                    assert(post[j] == pre[j]);
                }
            }
            assert(node_views(post) =~~= spec_append_child(node_views(pre), pi, kind_view(kind)));
        }
        id
    }

    /// Appends one character to the text node behind `id`; nothing else in
    /// the tree changes.
    pub fn append_text_char(&mut self, id: usize, c: char)
        requires
            old(self).wf(),
            id < old(self)@.len(),
            old(self)@[id as int].kind matches NodeKind::Text(_),
        ensures
            final(self).wf(),
            final(self)@.len() == old(self)@.len(),
            forall|j: int|
                0 <= j < old(self)@.len() && j != id ==> final(self)@[j] == old(self)@[j],
            ({
                let n0 = old(self)@[id as int];
                let n1 = final(self)@[id as int];
                &&& n1.parent == n0.parent
                &&& n1.window == n0.window
                &&& n1.first_child == n0.first_child
                &&& n1.last_child == n0.last_child
                &&& n1.previous_sibling == n0.previous_sibling
                &&& n1.next_sibling == n0.next_sibling
                &&& (n0.kind matches NodeKind::Text(s0) ==> n1.kind matches NodeKind::Text(s1)
                    && s1@ == s0@.push(c))
            }),
            node_views(final(self)@) == spec_append_text(node_views(old(self)@), id as int, c),
    {
        match &mut self.nodes[id].kind {
            NodeKind::Text(s) => {
                push_char(s, c);
            },
            _ => {},
        }
        proof {
            let pre = old(self)@;
            let post = self@;
            assert forall|i: int| 0 <= i < post.len() implies node_wf(post, i) by {
                assert(node_wf(pre, i));
                assert(post[i].parent == pre[i].parent);
                assert(post[i].previous_sibling == pre[i].previous_sibling);
                assert(post[i].next_sibling == pre[i].next_sibling);
                assert(post[i].first_child == pre[i].first_child);
                assert(post[i].last_child == pre[i].last_child);
            }
            assert forall|j: int| 0 <= j < post.len() implies node_views(post)[j]
                == spec_append_text(node_views(pre), id as int, c)[j] by {
                if j != id {
                    assert(post[j] == pre[j]);
                }
            }
            assert(node_views(post) =~~= spec_append_text(node_views(pre), id as int, c));
        }
    }
}

/// A node whose own links and whose link targets were all left alone keeps
/// `node_wf` across an insertion that only touched `pi` (the parent), `li`
/// (the parent's old last child) and added node `id`.
proof fn lemma_untouched_node_wf(pre: Seq<Node>, post: Seq<Node>, i: int, pi: int, li: int, id: int)
    requires
        0 <= i < pre.len(),
        0 <= pi < pre.len(),
        0 <= li < pre.len(),
        id == pre.len(),
        post.len() == pre.len() + 1,
        i != pi,
        i != li,
        nodes_wf(pre),
        post[i] == pre[i],
        forall|j: int| 0 <= j < pre.len() && j != pi && j != li ==> post[j] == pre[j],
        post[pi].parent == pre[pi].parent,
        post[pi].previous_sibling == pre[pi].previous_sibling,
        post[pi].next_sibling == pre[pi].next_sibling,
        post[li].parent == pre[li].parent,
        post[li].previous_sibling == pre[li].previous_sibling,
        pre[pi].first_child is Some ==> post[pi].first_child == pre[pi].first_child,
        li != pi ==> post[li].first_child == pre[li].first_child,
        pre[pi].last_child matches Some(l) ==> l == li,
        pre[pi].last_child is None ==> li == pi,
    ensures
        node_wf(post, i),
{
    assert(node_wf(pre, i));
    assert(node_wf(pre, pi));
    let n = pre[i];
    match n.previous_sibling {
        Some(q) => {
            if q as int == li && li != pi {
                // li is the parent's old last child, so its old next sibling
                // is None; yet node_wf(pre, i) says it is Some(i): impossible.
                assert(pre[li].next_sibling is None);
                assert(false);
            }
            assert(post[q as int].next_sibling == pre[q as int].next_sibling);
            assert(post[q as int].parent == pre[q as int].parent);
        },
        None => {},
    }
    match n.next_sibling {
        Some(s) => {
            assert(post[s as int].previous_sibling == pre[s as int].previous_sibling);
            assert(post[s as int].parent == pre[s as int].parent);
        },
        None => {},
    }
    match n.first_child {
        Some(c) => {
            assert(post[c as int].parent == pre[c as int].parent);
            assert(post[c as int].previous_sibling == pre[c as int].previous_sibling);
        },
        None => {},
    }
    match n.last_child {
        Some(l) => {
            if l as int == li && li != pi {
                // li's parent is pi, but node_wf(pre, i) makes it i:
                // impossible since i is not pi.
                assert(pre[li].parent == Some(pi as usize));
                assert(false);
            }
            assert(post[l as int].parent == pre[l as int].parent);
            assert(post[l as int].next_sibling == pre[l as int].next_sibling);
        },
        None => {},
    }
    match n.parent {
        Some(p) => {
            if n.previous_sibling is None {
                // i is its parent's first child; that parent's first-child
                // link moved only if it had no children, which node_wf(pre, i)
                // rules out here.
                assert(pre[p as int].first_child == Some(i as usize));
                if p as int == pi {
                    assert(post[pi].first_child == pre[pi].first_child);
                } else if p as int == li {
                    assert(post[li].first_child == pre[li].first_child);
                }
            }
        },
        None => {},
    }
}

/// One step of the forward ownership chain: from a node to its first child
/// or to its next sibling.
pub open spec fn forward_step(nodes: Seq<Node>, a: int, b: int) -> bool {
    0 <= a < nodes.len() && 0 <= b < nodes.len() && (nodes[a].first_child == Some(b as usize)
        || nodes[a].next_sibling == Some(b as usize))
}

/// A path that follows forward ownership links only.
pub open spec fn is_forward_chain(nodes: Seq<Node>, path: Seq<int>) -> bool {
    forall|k: int| 0 <= k < path.len() - 1 ==> forward_step(nodes, #[trigger] path[k], path[k + 1])
}

/// Sibling-link symmetry: a node's `next_sibling` points back through
/// `previous_sibling`, and both child links point back through `parent`.
pub proof fn lemma_sibling_link_symmetry(nodes: Seq<Node>, i: int)
    requires
        nodes_wf(nodes),
        0 <= i < nodes.len(),
    ensures
        nodes[i].next_sibling matches Some(s) ==> nodes[s as int].previous_sibling == Some(
            i as usize,
        ),
        nodes[i].previous_sibling matches Some(q) ==> nodes[q as int].next_sibling == Some(
            i as usize,
        ),
        nodes[i].first_child matches Some(c) ==> nodes[c as int].parent == Some(i as usize),
        nodes[i].last_child matches Some(l) ==> nodes[l as int].parent == Some(i as usize),
{
    assert(node_wf(nodes, i));
}

proof fn lemma_chain_increases(nodes: Seq<Node>, path: Seq<int>, k1: int, k2: int)
    requires
        nodes_wf(nodes),
        is_forward_chain(nodes, path),
        0 <= k1 < k2 < path.len(),
    ensures
        path[k1] < path[k2],
    decreases k2 - k1,
{
    if k2 == k1 + 1 {
        assert(forward_step(nodes, path[k1], path[k2]));
        assert(node_wf(nodes, path[k1]));
    } else {
        lemma_chain_increases(nodes, path, k1, k2 - 1);
        lemma_chain_increases(nodes, path, k2 - 1, k2);
    }
}

/// Single-owner acyclicity: a forward ownership chain never revisits a node,
/// since every step strictly increases the arena index.
pub proof fn lemma_ownership_chain_acyclic(nodes: Seq<Node>, path: Seq<int>, k1: int, k2: int)
    requires
        nodes_wf(nodes),
        is_forward_chain(nodes, path),
        0 <= k1 < k2 < path.len(),
    ensures
        path[k1] != path[k2],
{
    lemma_chain_increases(nodes, path, k1, k2);
}

} // verus!
