//! The tree builder: an insertion-mode automaton that consumes the token
//! stream one token at a time and grows the document tree through the node
//! store's single insertion primitive, so that every tree invariant holds of
//! the result whatever the markup was. Malformed markup never aborts
//! construction; unknown tags are skipped.

use vstd::prelude::*;
use crate::dom::{
    attr_views, clone_attributes, node_views, spec_append_child, spec_append_text,
    spec_kind_from_name, Attribute, Element, ElementKind, NodeKind, NodeKindSpec, NodeSpec,
    Window,
};
use crate::text::{is_space, space_char, str_eq};
use crate::token::{
    lemma_spec_next_measure, opt_token_view, spec_next, tk_measure, HtmlToken, HtmlTokenizer,
    TokenSpec, TokenizerView,
};

verus! {

/// The tree builder's parsing context.
#[derive(Debug, Clone, Copy, PartialEq, Eq, Structural)]
pub enum InsertionMode {
    Initial,
    BeforeHtml,
    BeforeHead,
    InHead,
    AfterHead,
    InBody,
    Text,
    AfterBody,
    AfterAfterBody,
}

/// How many times the builder may reprocess a token without consuming one:
/// every reprocessing step moves the mode strictly down this budget.
pub open spec fn mode_budget(m: InsertionMode) -> int {
    match m {
        InsertionMode::Initial => 5,
        InsertionMode::BeforeHtml => 4,
        InsertionMode::BeforeHead => 3,
        InsertionMode::InHead => 2,
        InsertionMode::AfterHead => 1,
        InsertionMode::InBody => 0,
        InsertionMode::Text => 0,
        InsertionMode::AfterBody => 0,
        InsertionMode::AfterAfterBody => 0,
    }
}

/// A one-character text node was appended as the last child of `top` (when
/// the arena had room for it).
spec fn fresh_text_node(w0: Seq<crate::dom::Node>, w1: Seq<crate::dom::Node>, top: int, c: char) -> bool {
    w0.len() < usize::MAX ==> {
        &&& w1.len() == w0.len() + 1
        &&& (w1[w0.len() as int].kind matches NodeKind::Text(s) && s@ == seq![c])
        &&& w1[w0.len() as int].parent == Some(top as usize)
        &&& w1[top].last_child == Some(w0.len() as usize)
    }
}

/// Whether an element of the given kind is open on the stack.
pub open spec fn stack_has_kind(nodes: Seq<NodeSpec>, st: Seq<usize>, kind: ElementKind) -> bool {
    exists|k: int|
        0 <= k < st.len() && ((#[trigger] nodes[st[k] as int].kind) matches NodeKindSpec::Element {
            kind: ek,
            attributes,
        } && ek == kind)
}

/// What inserting an element for `tag` does: for a recognised tag (and room
/// in the arena) a fresh element node is appended under the stack top (the
/// document when the stack is empty) and opened on the stack; otherwise
/// nothing changes.
pub open spec fn spec_insert_element(
    nodes: Seq<NodeSpec>,
    st: Seq<usize>,
    tag: Seq<char>,
    attrs: Seq<(Seq<char>, Seq<char>)>,
) -> (Seq<NodeSpec>, Seq<usize>) {
    match spec_kind_from_name(tag) {
        Some(k) => if nodes.len() < usize::MAX {
            let parent: usize = if st.len() > 0 {
                st.last()
            } else {
                0
            };
            (
                spec_append_child(
                    nodes,
                    parent as int,
                    NodeKindSpec::Element { kind: k, attributes: attrs },
                ),
                st.push(nodes.len() as usize),
            )
        } else {
            (nodes, st)
        },
        None => (nodes, st),
    }
}

/// What inserting one character of text does: merged into the stack top's
/// last child when that is a text node, else a fresh one-character text node
/// appended there; with an empty stack the character is dropped.
pub open spec fn spec_insert_char(nodes: Seq<NodeSpec>, st: Seq<usize>, c: char) -> Seq<NodeSpec> {
    if st.len() == 0 {
        nodes
    } else {
        let top = st.last() as int;
        match nodes[top].last_child {
            Some(l) => match nodes[l as int].kind {
                NodeKindSpec::Text(s0) => spec_append_text(nodes, l as int, c),
                _ => if nodes.len() < usize::MAX {
                    spec_append_child(nodes, top, NodeKindSpec::Text(seq![c]))
                } else {
                    nodes
                },
            },
            None => if nodes.len() < usize::MAX {
                spec_append_child(nodes, top, NodeKindSpec::Text(seq![c]))
            } else {
                nodes
            },
        }
    }
}

/// What popping to an element kind does: open elements leave the stack until
/// one of the kind has been popped, or the stack is exhausted.
pub open spec fn spec_pop_until(nodes: Seq<NodeSpec>, st: Seq<usize>, kind: ElementKind) -> Seq<
    usize,
>
    decreases st.len(),
{
    if st.len() == 0 {
        st
    } else {
        let id = st.last() as int;
        let rest = st.drop_last();
        if nodes[id].kind matches NodeKindSpec::Element { kind: ek, attributes } && (ek == kind) {
            rest
        } else {
            spec_pop_until(nodes, rest, kind)
        }
    }
}


/// A whitespace-only character token.
pub open spec fn is_ws_char_token(t: Option<TokenSpec>) -> bool {
    t matches Some(TokenSpec::Char(c)) && is_space(c)
}

/// A start tag with the given name.
pub open spec fn start_tag_named(t: Option<TokenSpec>, name: Seq<char>) -> bool {
    t matches Some(TokenSpec::StartTag { tag, .. }) && tag == name
}

/// An end tag with the given name.
pub open spec fn end_tag_named(t: Option<TokenSpec>, name: Seq<char>) -> bool {
    t matches Some(TokenSpec::EndTag { tag }) && tag == name
}

/// The attributes carried by a start tag; empty for anything else.
pub open spec fn token_attrs(t: Option<TokenSpec>) -> Seq<(Seq<char>, Seq<char>)> {
    match t {
        Some(TokenSpec::StartTag { attributes, .. }) => attributes,
        _ => Seq::empty(),
    }
}

/// The arena a fresh window starts from: one document node.
pub open spec fn initial_arena() -> Seq<NodeSpec> {
    seq![
        NodeSpec {
            kind: NodeKindSpec::Document,
            window: Some(0usize),
            parent: None,
            first_child: None,
            last_child: None,
            previous_sibling: None,
            next_sibling: None,
        },
    ]
}

/// The insertion-mode automaton, one token at a time: what the tree builder
/// leaves in the arena, given the token under consideration, the current and
/// saved modes, the arena and open-element stack so far, and the tokenizer
/// that yields the rest of the stream. Each arm is one mode's insertion
/// rule; tokens are consumed through `spec_next` or reprocessed under the
/// next mode.
pub open spec fn spec_build_on(
    token: Option<TokenSpec>,
    mode: InsertionMode,
    omode: InsertionMode,
    nodes: Seq<NodeSpec>,
    stack: Seq<usize>,
    m: TokenizerView,
) -> Seq<NodeSpec>
    decreases tk_measure(m), (if token is Some {
        1int
    } else {
        0int
    }), mode_budget(mode),
    via check_spec_build_on
{
    match token {
        None => nodes,
        Some(TokenSpec::EOF) => nodes,
        _ => {
            let next = spec_next(m);
            match mode {
                InsertionMode::Initial => {
                    if is_ws_char_token(token) {
                        spec_build_on(next.0, mode, omode, nodes, stack, next.1)
                    } else {
                        spec_build_on(token, InsertionMode::BeforeHtml, omode, nodes, stack, m)
                    }
                },
                InsertionMode::BeforeHtml => {
                    if is_ws_char_token(token) {
                        spec_build_on(next.0, mode, omode, nodes, stack, next.1)
                    } else if start_tag_named(token, "html"@) {
                        let ins = spec_insert_element(nodes, stack, "html"@, token_attrs(token));
                        spec_build_on(
                            next.0,
                            InsertionMode::BeforeHead,
                            omode,
                            ins.0,
                            ins.1,
                            next.1,
                        )
                    } else {
                        let ins = spec_insert_element(nodes, stack, "html"@, Seq::empty());
                        spec_build_on(token, InsertionMode::BeforeHead, omode, ins.0, ins.1, m)
                    }
                },
                InsertionMode::BeforeHead => {
                    if is_ws_char_token(token) {
                        spec_build_on(next.0, mode, omode, nodes, stack, next.1)
                    } else if start_tag_named(token, "head"@) {
                        let ins = spec_insert_element(nodes, stack, "head"@, token_attrs(token));
                        spec_build_on(next.0, InsertionMode::InHead, omode, ins.0, ins.1, next.1)
                    } else {
                        let ins = spec_insert_element(nodes, stack, "head"@, Seq::empty());
                        spec_build_on(token, InsertionMode::InHead, omode, ins.0, ins.1, m)
                    }
                },
                InsertionMode::InHead => {
                    if is_ws_char_token(token) {
                        spec_build_on(next.0, mode, omode, nodes, stack, next.1)
                    } else if start_tag_named(token, "style"@) {
                        let ins = spec_insert_element(nodes, stack, "style"@, token_attrs(token));
                        spec_build_on(
                            next.0,
                            InsertionMode::Text,
                            InsertionMode::InHead,
                            ins.0,
                            ins.1,
                            next.1,
                        )
                    } else if start_tag_named(token, "script"@) {
                        let ins = spec_insert_element(nodes, stack, "script"@, token_attrs(token));
                        spec_build_on(
                            next.0,
                            InsertionMode::Text,
                            InsertionMode::InHead,
                            ins.0,
                            ins.1,
                            next.1,
                        )
                    } else if end_tag_named(token, "head"@) {
                        let st = spec_pop_until(nodes, stack, ElementKind::Head);
                        spec_build_on(next.0, InsertionMode::AfterHead, omode, nodes, st, next.1)
                    } else {
                        let st = spec_pop_until(nodes, stack, ElementKind::Head);
                        spec_build_on(token, InsertionMode::AfterHead, omode, nodes, st, m)
                    }
                },
                InsertionMode::AfterHead => {
                    if is_ws_char_token(token) {
                        spec_build_on(next.0, mode, omode, nodes, stack, next.1)
                    } else if start_tag_named(token, "body"@) {
                        let ins = spec_insert_element(nodes, stack, "body"@, token_attrs(token));
                        spec_build_on(next.0, InsertionMode::InBody, omode, ins.0, ins.1, next.1)
                    } else {
                        let ins = spec_insert_element(nodes, stack, "body"@, Seq::empty());
                        spec_build_on(token, InsertionMode::InBody, omode, ins.0, ins.1, m)
                    }
                },
                InsertionMode::InBody => {
                    match token {
                        Some(TokenSpec::Char(c)) => {
                            spec_build_on(
                                next.0,
                                mode,
                                omode,
                                spec_insert_char(nodes, stack, c),
                                stack,
                                next.1,
                            )
                        },
                        _ => {
                            if start_tag_named(token, "p"@) {
                                let ins = spec_insert_element(
                                    nodes,
                                    stack,
                                    "p"@,
                                    token_attrs(token),
                                );
                                spec_build_on(next.0, mode, omode, ins.0, ins.1, next.1)
                            } else if end_tag_named(token, "body"@) {
                                let st = spec_pop_until(nodes, stack, ElementKind::Body);
                                spec_build_on(
                                    next.0,
                                    InsertionMode::AfterBody,
                                    omode,
                                    nodes,
                                    st,
                                    next.1,
                                )
                            } else if end_tag_named(token, "p"@) {
                                let st = if stack_has_kind(nodes, stack, ElementKind::P) {
                                    spec_pop_until(nodes, stack, ElementKind::P)
                                } else {
                                    stack
                                };
                                spec_build_on(next.0, mode, omode, nodes, st, next.1)
                            } else {
                                spec_build_on(next.0, mode, omode, nodes, stack, next.1)
                            }
                        },
                    }
                },
                InsertionMode::Text => {
                    match token {
                        Some(TokenSpec::Char(c)) => {
                            spec_build_on(
                                next.0,
                                mode,
                                omode,
                                spec_insert_char(nodes, stack, c),
                                stack,
                                next.1,
                            )
                        },
                        Some(TokenSpec::EndTag { .. }) => {
                            let st = if stack.len() > 0 {
                                stack.drop_last()
                            } else {
                                stack
                            };
                            spec_build_on(next.0, omode, omode, nodes, st, next.1)
                        },
                        _ => spec_build_on(next.0, mode, omode, nodes, stack, next.1),
                    }
                },
                InsertionMode::AfterBody => {
                    if end_tag_named(token, "html"@) {
                        spec_build_on(
                            next.0,
                            InsertionMode::AfterAfterBody,
                            omode,
                            nodes,
                            stack,
                            next.1,
                        )
                    } else {
                        spec_build_on(next.0, mode, omode, nodes, stack, next.1)
                    }
                },
                InsertionMode::AfterAfterBody => {
                    spec_build_on(next.0, mode, omode, nodes, stack, next.1)
                },
            }
        },
    }
}

#[via_fn]
proof fn check_spec_build_on(
    token: Option<TokenSpec>,
    mode: InsertionMode,
    omode: InsertionMode,
    nodes: Seq<NodeSpec>,
    stack: Seq<usize>,
    m: TokenizerView,
) {
    lemma_spec_next_measure(m);
}

/// The tree a builder in the given state leaves behind once the token
/// stream ends.
pub open spec fn spec_build_from(
    mode: InsertionMode,
    omode: InsertionMode,
    nodes: Seq<NodeSpec>,
    stack: Seq<usize>,
    m: TokenizerView,
) -> Seq<NodeSpec> {
    let first = spec_next(m);
    spec_build_on(first.0, mode, omode, nodes, stack, first.1)
}

/// The document tree built from a whole token stream: what a fresh parser
/// over the tokenizer state `m` constructs.
pub open spec fn spec_build(m: TokenizerView) -> Seq<NodeSpec> {
    spec_build_from(
        InsertionMode::Initial,
        InsertionMode::Initial,
        initial_arena(),
        Seq::empty(),
        m,
    )
}

#[derive(Debug, Clone)]
pub struct HtmlParser {
    window: Window,
    mode: InsertionMode,
    original_insertion_mode: InsertionMode,
    stack_of_open_elements: Vec<usize>,
    t: HtmlTokenizer,
}

impl HtmlParser {
    /// The window's tree invariants hold, the tokenizer is well formed, and
    /// every handle on the open-element stack points into the arena.
    pub closed spec fn wf(&self) -> bool {
        &&& self.window.wf()
        &&& self.t.wf()
        &&& forall|k: int|
            0 <= k < self.stack_of_open_elements@.len() ==> (
            #[trigger] self.stack_of_open_elements@[k]) < self.window@.len()
    }

    /// The parser's view of the tree under construction.
    pub closed spec fn spec_window(&self) -> Seq<crate::dom::Node> {
        self.window@
    }

    /// The parser's view of the tokenizer it drives.
    pub closed spec fn spec_tokenizer(&self) -> crate::token::TokenizerView {
        self.t@
    }

    /// The current insertion mode.
    pub closed spec fn spec_mode(&self) -> InsertionMode {
        self.mode
    }

    /// The mode to restore when raw-text parsing ends.
    pub closed spec fn spec_original_mode(&self) -> InsertionMode {
        self.original_insertion_mode
    }

    /// The open-element stack, as arena handles.
    pub closed spec fn spec_stack(&self) -> Seq<usize> {
        self.stack_of_open_elements@
    }

    pub fn new(t: HtmlTokenizer) -> (r: HtmlParser)
        requires
            t.wf(),
        ensures
            r.wf(),
            r.spec_window().len() == 1,
            r.spec_window()[0].kind is Document,
            r.spec_window()[0].first_child is None,
            r.spec_tokenizer() == t@,
            r.spec_mode() == InsertionMode::Initial,
            r.spec_original_mode() == InsertionMode::Initial,
            r.spec_stack() == Seq::<usize>::empty(),
            node_views(r.spec_window()) == initial_arena(),
    {
        let window = Window::new();
        proof {
            assert(node_views(window@)[0] == crate::dom::node_view(window@[0]));
            assert(node_views(window@) =~~= initial_arena());
        }
        HtmlParser {
            window,
            mode: InsertionMode::Initial,
            original_insertion_mode: InsertionMode::Initial,
            stack_of_open_elements: Vec::new(),
            t,
        }
    }

    /// Creates an element for a recognised tag, inserts it as last child of
    /// the current insertion point and opens it on the stack; an unsupported
    /// tag is skipped.
    fn insert_element(&mut self, tag: &str, attributes: Vec<Attribute>)
        requires
            old(self).wf(),
        ensures
            final(self).wf(),
            final(self).t == old(self).t,
            final(self).mode == old(self).mode,
            final(self).original_insertion_mode == old(self).original_insertion_mode,
            crate::dom::spec_kind_from_name(tag@) is None ==> *final(self) == *old(self),
            crate::dom::spec_kind_from_name(tag@) is Some && old(self).window@.len()
                < usize::MAX ==> ({
                let id = old(self).window@.len() as int;
                let parent: int = if old(self).stack_of_open_elements@.len() > 0 {
                    old(self).stack_of_open_elements@.last() as int
                } else {
                    0
                };
                &&& final(self).window@.len() == id + 1
                &&& (final(self).window@[id].kind matches NodeKind::Element(e) && Some(e.kind)
                    == crate::dom::spec_kind_from_name(tag@) && e.attributes == attributes)
                &&& final(self).window@[id].parent == Some(parent as usize)
                &&& final(self).window@[parent].last_child == Some(id as usize)
                &&& final(self).stack_of_open_elements@ == old(
                    self,
                ).stack_of_open_elements@.push(id as usize)
            }),
            node_views(final(self).window@) == spec_insert_element(
                node_views(old(self).window@),
                old(self).stack_of_open_elements@,
                tag@,
                attr_views(attributes@),
            ).0,
            final(self).stack_of_open_elements@ == spec_insert_element(
                node_views(old(self).window@),
                old(self).stack_of_open_elements@,
                tag@,
                attr_views(attributes@),
            ).1,
    {
        match ElementKind::from_name(tag) {
            Some(_) => {
                if self.window.node_count() < usize::MAX {
                    let e = Element::new(tag, attributes);
                    let parent = if self.stack_of_open_elements.len() > 0 {
                        self.stack_of_open_elements[self.stack_of_open_elements.len() - 1]
                    } else {
                        self.window.document()
                    };
                    let id = self.window.append_child(parent, NodeKind::Element(e));
                    self.stack_of_open_elements.push(id);
                }
            },
            None => {},
        }
    }

    /// Appends one character of text at the insertion point, merging it into
    /// the text node that is already the last child there.
    fn insert_char(&mut self, c: char)
        requires
            old(self).wf(),
        ensures
            final(self).wf(),
            final(self).t == old(self).t,
            final(self).mode == old(self).mode,
            final(self).original_insertion_mode == old(self).original_insertion_mode,
            final(self).stack_of_open_elements == old(self).stack_of_open_elements,
            old(self).stack_of_open_elements@.len() == 0 ==> *final(self) == *old(self),
            old(self).stack_of_open_elements@.len() > 0 ==> ({
                let top = old(self).stack_of_open_elements@.last() as int;
                let w0 = old(self).window@;
                match w0[top].last_child {
                    Some(l) => match w0[l as int].kind {
                        NodeKind::Text(s0) => final(self).window@.len() == w0.len() && (
                        final(self).window@[l as int].kind matches NodeKind::Text(s1) && s1@
                            == s0@.push(c)) && (forall|j: int|
                            0 <= j < w0.len() && j != l ==> final(self).window@[j] == w0[j]),
                        _ => fresh_text_node(w0, final(self).window@, top, c),
                    },
                    None => fresh_text_node(w0, final(self).window@, top, c),
                }
            }),
            node_views(final(self).window@) == spec_insert_char(
                node_views(old(self).window@),
                old(self).stack_of_open_elements@,
                c,
            ),
    {
        if self.stack_of_open_elements.len() == 0 {
            return;
        }
        let top = self.stack_of_open_elements[self.stack_of_open_elements.len() - 1];
        let lc = match self.window.node(top) {
            Some(n) => n.last_child(),
            None => None,
        };
        proof {
            assert(crate::dom::node_wf(self.window@, top as int));
        }
        let mut text_target: Option<usize> = None;
        match lc {
            Some(l) => {
                match self.window.node(l) {
                    Some(n) => {
                        match &n.kind {
                            NodeKind::Text(_) => {
                                text_target = Some(l);
                            },
                            _ => {},
                        }
                    },
                    None => {},
                }
            },
            None => {},
        }
        match text_target {
            Some(l) => {
                self.window.append_text_char(l, c);
            },
            None => {
                if self.window.node_count() < usize::MAX {
                    let mut s = String::new();
                    crate::text::push_char(&mut s, c);
                    let _ = self.window.append_child(top, NodeKind::Text(s));
                }
            },
        }
    }

    /// Pops open elements until one of the given kind has been popped, or
    /// the stack is exhausted.
    fn pop_until(&mut self, kind: ElementKind)
        requires
            old(self).wf(),
        ensures
            final(self).wf(),
            final(self).window == old(self).window,
            final(self).t == old(self).t,
            final(self).mode == old(self).mode,
            final(self).original_insertion_mode == old(self).original_insertion_mode,
            final(self).stack_of_open_elements@.len() <= old(
                self,
            ).stack_of_open_elements@.len(),
            final(self).stack_of_open_elements@ == old(self).stack_of_open_elements@.take(
                final(self).stack_of_open_elements@.len() as int,
            ),
            final(self).stack_of_open_elements@ == spec_pop_until(
                node_views(old(self).window@),
                old(self).stack_of_open_elements@,
                kind,
            ),
    {
        loop
            invariant
                self.wf(),
                self.window == old(self).window,
                self.t == old(self).t,
                self.mode == old(self).mode,
                self.original_insertion_mode == old(self).original_insertion_mode,
                self.stack_of_open_elements@.len() <= old(
                    self,
                ).stack_of_open_elements@.len(),
                self.stack_of_open_elements@ == old(self).stack_of_open_elements@.take(
                    self.stack_of_open_elements@.len() as int,
                ),
                spec_pop_until(
                    node_views(old(self).window@),
                    self.stack_of_open_elements@,
                    kind,
                ) == spec_pop_until(
                    node_views(old(self).window@),
                    old(self).stack_of_open_elements@,
                    kind,
                ),
            decreases self.stack_of_open_elements@.len(),
        {
            let id = match self.stack_of_open_elements.pop() {
                Some(id) => id,
                None => {
                    return ;
                },
            };
            proof {
                assert(self.stack_of_open_elements@ =~= old(self).stack_of_open_elements@.take(
                    self.stack_of_open_elements@.len() as int,
                ));
            }
            let done = match self.window.node(id) {
                Some(n) => match &n.kind {
                    NodeKind::Element(e) => e.kind == kind,
                    _ => false,
                },
                None => false,
            };
            if done {
                return ;
            }
        }
    }

    /// Whether an element of the given kind is open on the stack.
    fn contains_in_stack(&self, kind: ElementKind) -> (r: bool)
        requires
            self.wf(),
        ensures
            r == stack_has_kind(node_views(self.window@), self.stack_of_open_elements@, kind),
    {
        let mut k: usize = 0;
        while k < self.stack_of_open_elements.len()
            invariant
                self.wf(),
                k <= self.stack_of_open_elements@.len(),
                forall|j: int|
                    0 <= j < k ==> !((#[trigger] node_views(
                        self.window@,
                    )[self.stack_of_open_elements@[j] as int].kind) matches NodeKindSpec::Element {
                        kind: ek,
                        attributes,
                    } && (ek == kind)),
            decreases self.stack_of_open_elements@.len() - k,
        {
            let id = self.stack_of_open_elements[k];
            let here = match self.window.node(id) {
                Some(n) => match &n.kind {
                    NodeKind::Element(e) => e.kind == kind,
                    _ => false,
                },
                None => false,
            };
            if here {
                proof {
                    let nid = self.stack_of_open_elements@[k as int] as int;
                    assert(node_views(self.window@)[nid] == crate::dom::node_view(
                        self.window@[nid],
                    ));
                    assert((node_views(self.window@)[nid].kind
                        matches NodeKindSpec::Element { kind: ek, attributes } && (ek
                        == kind)));
                    assert(stack_has_kind(
                        node_views(self.window@),
                        self.stack_of_open_elements@,
                        kind,
                    ));
                }
                return true;
            }
            k = k + 1;
        }
        false
    }

    /// Consumes the whole token stream and builds the document tree. The
    /// returned window is exactly what the insertion-mode automaton
    /// `spec_build_from` says — for a fresh parser, `spec_build` of the
    /// tokenizer — and satisfies every tree invariant, whatever the markup
    /// was: sibling links symmetric, child links answered by parent links,
    /// and the forward ownership chain acyclic.
    #[verifier::loop_isolation(false)]
    #[verifier::rlimit(100)]
    pub fn construct_tree(self) -> (w: Window)
        requires
            self.wf(),
        ensures
            w.wf(),
            node_views(w@) == spec_build_from(
                self.spec_mode(),
                self.spec_original_mode(),
                node_views(self.spec_window()),
                self.spec_stack(),
                self.spec_tokenizer(),
            ),
    {
        let mut this = self;
        let ghost target = spec_build_from(
            this.mode,
            this.original_insertion_mode,
            node_views(this.window@),
            this.stack_of_open_elements@,
            this.t@,
        );
        let mut token = this.t.next();
        loop
            invariant
                this.wf(),
                spec_build_on(
                    opt_token_view(token),
                    this.mode,
                    this.original_insertion_mode,
                    node_views(this.window@),
                    this.stack_of_open_elements@,
                    this.t@,
                ) == target,
            decreases tk_measure(this.t@), (if token is Some {
                1int
            } else {
                0int
            }), mode_budget(this.mode),
        {
            let ghost pre_token = opt_token_view(token);
            let ghost pre_mode = this.mode;
            let ghost pre_omode = this.original_insertion_mode;
            let ghost pre_nodes = node_views(this.window@);
            let ghost pre_stack = this.stack_of_open_elements@;
            let ghost pre_m = this.t@;
            match &token {
                None => {
                    proof {
                        assert(spec_build_on(
                            opt_token_view(token),
                            this.mode,
                            this.original_insertion_mode,
                            node_views(this.window@),
                            this.stack_of_open_elements@,
                            this.t@,
                        ) == node_views(this.window@));
                    }
                    return this.window;
                },
                Some(HtmlToken::EOF) => {
                    proof {
                        assert(spec_build_on(
                            opt_token_view(token),
                            this.mode,
                            this.original_insertion_mode,
                            node_views(this.window@),
                            this.stack_of_open_elements@,
                            this.t@,
                        ) == node_views(this.window@));
                    }
                    return this.window;
                },
                _ => {},
            }
            match this.mode {
                InsertionMode::Initial => {
                    let ws = match &token {
                        Some(HtmlToken::Char(c)) => space_char(*c),
                        _ => false,
                    };
                    if ws {
                        token = this.t.next();
                    } else {
                        this.mode = InsertionMode::BeforeHtml;
                    }
                },
                InsertionMode::BeforeHtml => {
                    let mut ws = false;
                    let mut html_start = false;
                    let mut attrs: Vec<Attribute> = Vec::new();
                    match &token {
                        Some(HtmlToken::Char(c)) => {
                            ws = space_char(*c);
                        },
                        Some(HtmlToken::StartTag { tag, attributes, .. }) => {
                            if str_eq(tag.as_str(), "html") {
                                html_start = true;
                                attrs = clone_attributes(attributes);
                            }
                        },
                        _ => {},
                    }
                    if ws {
                        token = this.t.next();
                    } else if html_start {
                        this.insert_element("html", attrs);
                        this.mode = InsertionMode::BeforeHead;
                        token = this.t.next();
                    } else {
                        this.insert_element("html", Vec::new());
                        this.mode = InsertionMode::BeforeHead;
                    }
                },
                InsertionMode::BeforeHead => {
                    let mut ws = false;
                    let mut head_start = false;
                    let mut attrs: Vec<Attribute> = Vec::new();
                    match &token {
                        Some(HtmlToken::Char(c)) => {
                            ws = space_char(*c);
                        },
                        Some(HtmlToken::StartTag { tag, attributes, .. }) => {
                            if str_eq(tag.as_str(), "head") {
                                head_start = true;
                                attrs = clone_attributes(attributes);
                            }
                        },
                        _ => {},
                    }
                    if ws {
                        token = this.t.next();
                    } else if head_start {
                        this.insert_element("head", attrs);
                        this.mode = InsertionMode::InHead;
                        token = this.t.next();
                    } else {
                        this.insert_element("head", Vec::new());
                        this.mode = InsertionMode::InHead;
                    }
                },
                InsertionMode::InHead => {
                    let mut ws = false;
                    let mut style_start = false;
                    let mut script_start = false;
                    let mut head_end = false;
                    let mut attrs: Vec<Attribute> = Vec::new();
                    match &token {
                        Some(HtmlToken::Char(c)) => {
                            ws = space_char(*c);
                        },
                        Some(HtmlToken::StartTag { tag, attributes, .. }) => {
                            if str_eq(tag.as_str(), "style") {
                                style_start = true;
                                attrs = clone_attributes(attributes);
                            } else if str_eq(tag.as_str(), "script") {
                                script_start = true;
                                attrs = clone_attributes(attributes);
                            }
                        },
                        Some(HtmlToken::EndTag { tag }) => {
                            head_end = str_eq(tag.as_str(), "head");
                        },
                        _ => {},
                    }
                    if ws {
                        token = this.t.next();
                    } else if style_start || script_start {
                        if style_start {
                            this.insert_element("style", attrs);
                        } else {
                            this.insert_element("script", attrs);
                        }
                        this.original_insertion_mode = InsertionMode::InHead;
                        this.mode = InsertionMode::Text;
                        token = this.t.next();
                    } else if head_end {
                        this.pop_until(ElementKind::Head);
                        this.mode = InsertionMode::AfterHead;
                        token = this.t.next();
                    } else {
                        this.pop_until(ElementKind::Head);
                        this.mode = InsertionMode::AfterHead;
                    }
                },
                InsertionMode::AfterHead => {
                    let mut ws = false;
                    let mut body_start = false;
                    let mut attrs: Vec<Attribute> = Vec::new();
                    match &token {
                        Some(HtmlToken::Char(c)) => {
                            ws = space_char(*c);
                        },
                        Some(HtmlToken::StartTag { tag, attributes, .. }) => {
                            if str_eq(tag.as_str(), "body") {
                                body_start = true;
                                attrs = clone_attributes(attributes);
                            }
                        },
                        _ => {},
                    }
                    if ws {
                        token = this.t.next();
                    } else if body_start {
                        this.insert_element("body", attrs);
                        this.mode = InsertionMode::InBody;
                        token = this.t.next();
                    } else {
                        this.insert_element("body", Vec::new());
                        this.mode = InsertionMode::InBody;
                    }
                },
                InsertionMode::InBody => {
                    let mut ch: Option<char> = None;
                    let mut p_start = false;
                    let mut p_end = false;
                    let mut body_end = false;
                    let mut attrs: Vec<Attribute> = Vec::new();
                    match &token {
                        Some(HtmlToken::Char(c)) => {
                            ch = Some(*c);
                        },
                        Some(HtmlToken::StartTag { tag, attributes, .. }) => {
                            if str_eq(tag.as_str(), "p") {
                                p_start = true;
                                attrs = clone_attributes(attributes);
                            }
                        },
                        Some(HtmlToken::EndTag { tag }) => {
                            if str_eq(tag.as_str(), "body") {
                                body_end = true;
                            } else if str_eq(tag.as_str(), "p") {
                                p_end = true;
                            }
                        },
                        _ => {},
                    }
                    match ch {
                        Some(c) => {
                            this.insert_char(c);
                        },
                        None => {
                            if p_start {
                                this.insert_element("p", attrs);
                            } else if p_end {
                                if this.contains_in_stack(ElementKind::P) {
                                    this.pop_until(ElementKind::P);
                                }
                            } else if body_end {
                                this.pop_until(ElementKind::Body);
                                this.mode = InsertionMode::AfterBody;
                            }
                        },
                    }
                    token = this.t.next();
                },
                InsertionMode::Text => {
                    let mut ch: Option<char> = None;
                    let mut end = false;
                    match &token {
                        Some(HtmlToken::Char(c)) => {
                            ch = Some(*c);
                        },
                        Some(HtmlToken::EndTag { .. }) => {
                            end = true;
                        },
                        _ => {},
                    }
                    match ch {
                        Some(c) => {
                            this.insert_char(c);
                        },
                        None => {
                            if end {
                                let _ = this.stack_of_open_elements.pop();
                                this.mode = this.original_insertion_mode;
                            }
                        },
                    }
                    token = this.t.next();
                },
                InsertionMode::AfterBody => {
                    let mut html_end = false;
                    match &token {
                        Some(HtmlToken::EndTag { tag }) => {
                            html_end = str_eq(tag.as_str(), "html");
                        },
                        _ => {},
                    }
                    if html_end {
                        this.mode = InsertionMode::AfterAfterBody;
                    }
                    token = this.t.next();
                },
                InsertionMode::AfterAfterBody => {
                    token = this.t.next();
                },
            }
            proof {
                assert(attr_views(Seq::<Attribute>::empty()) =~= Seq::<(
                    Seq<char>,
                    Seq<char>,
                )>::empty());
                assert(spec_build_on(
                    opt_token_view(token),
                    this.mode,
                    this.original_insertion_mode,
                    node_views(this.window@),
                    this.stack_of_open_elements@,
                    this.t@,
                ) == spec_build_on(pre_token, pre_mode, pre_omode, pre_nodes, pre_stack, pre_m));
            }
        }
    }
}

} // verus!
