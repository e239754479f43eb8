//! The lexical tokenizer: a finite-state machine that turns the character
//! stream into markup tokens. Its behaviour is pinned down by `spec_next`, a
//! total function from tokenizer state to the emitted token and successor
//! state; `next` is proved to implement it, which also makes tokenization
//! deterministic.

use vstd::prelude::*;
use crate::dom::{attr_views, Attribute};
use crate::text::{chars_of, is_alpha, is_space, is_upper, lower_char, push_char, space_char,
    str_eq, alpha_char, upper_char, to_lower};

verus! {

/// A markup token.
#[derive(Debug, Clone, PartialEq, Eq)]
pub enum HtmlToken {
    StartTag { tag: String, self_closing: bool, attributes: Vec<Attribute> },
    EndTag { tag: String },
    Char(char),
    EOF,
}

/// The states of the tokenizer.
#[derive(Debug, Clone, Copy, PartialEq, Eq)]
pub enum State {
    Data,
    TagOpen,
    EndTagOpen,
    TagName,
    BeforeAttributeName,
    AttributeName,
    AfterAttributeName,
    BeforeAttributeValue,
    AttributeValueDoubleQuoted,
    AttributeValueSingleQuoted,
    AttributeValueUnquoted,
    AfterAttributeValueQuoted,
    SelfClosingStartTag,
    ScriptData,
    ScriptDataLessThanSign,
    ScriptDataEndTagOpen,
    ScriptDataEndTagName,
    TemporaryBuffer,
}

/// A token at the specification level, over character sequences.
pub ghost enum TokenSpec {
    StartTag { tag: Seq<char>, self_closing: bool, attributes: Seq<(Seq<char>, Seq<char>)> },
    EndTag { tag: Seq<char> },
    Char(char),
    EOF,
}

pub open spec fn token_view(t: HtmlToken) -> TokenSpec {
    match t {
        HtmlToken::StartTag { tag, self_closing, attributes } => TokenSpec::StartTag {
            tag: tag@,
            self_closing,
            attributes: attr_views(attributes@),
        },
        HtmlToken::EndTag { tag } => TokenSpec::EndTag { tag: tag@ },
        HtmlToken::Char(c) => TokenSpec::Char(c),
        HtmlToken::EOF => TokenSpec::EOF,
    }
}

pub open spec fn opt_token_view(t: Option<HtmlToken>) -> Option<TokenSpec> {
    match t {
        Some(x) => Some(token_view(x)),
        None => None,
    }
}

/// The whole tokenizer state, at the specification level.
pub ghost struct TokenizerView {
    pub state: State,
    pub pos: int,
    pub reconsume: bool,
    pub latest_token: Option<TokenSpec>,
    pub input: Seq<char>,
    pub buf: Seq<char>,
}

/// A fresh tag under construction.
pub open spec fn create_tag_spec(start_tag_token: bool) -> Option<TokenSpec> {
    if start_tag_token {
        Some(TokenSpec::StartTag { tag: Seq::empty(), self_closing: false, attributes: Seq::empty() })
    } else {
        Some(TokenSpec::EndTag { tag: Seq::empty() })
    }
}

/// `c` appended to the name of the tag under construction.
pub open spec fn append_tag_name_spec(t: Option<TokenSpec>, c: char) -> Option<TokenSpec> {
    match t {
        Some(TokenSpec::StartTag { tag, self_closing, attributes }) => Some(
            TokenSpec::StartTag { tag: tag.push(c), self_closing, attributes },
        ),
        Some(TokenSpec::EndTag { tag }) => Some(TokenSpec::EndTag { tag: tag.push(c) }),
        other => other,
    }
}

/// An empty attribute opened on the tag under construction.
pub open spec fn start_new_attribute_spec(t: Option<TokenSpec>) -> Option<TokenSpec> {
    match t {
        Some(TokenSpec::StartTag { tag, self_closing, attributes }) => Some(
            TokenSpec::StartTag {
                tag,
                self_closing,
                attributes: attributes.push((Seq::empty(), Seq::empty())),
            },
        ),
        other => other,
    }
}

/// `c` appended to the name or value of the newest attribute.
pub open spec fn append_attribute_spec(t: Option<TokenSpec>, c: char, is_name: bool) -> Option<
    TokenSpec,
> {
    match t {
        Some(TokenSpec::StartTag { tag, self_closing, attributes }) => {
            if attributes.len() > 0 {
                let i = attributes.len() - 1;
                let a = attributes[i as int];
                let a2 = if is_name {
                    (a.0.push(c), a.1)
                } else {
                    (a.0, a.1.push(c))
                };
                Some(
                    TokenSpec::StartTag {
                        tag,
                        self_closing,
                        attributes: attributes.update(i as int, a2),
                    },
                )
            } else {
                Some(TokenSpec::StartTag { tag, self_closing, attributes })
            }
        },
        other => other,
    }
}

/// The self-closing flag raised on the tag under construction.
pub open spec fn set_self_closing_spec(t: Option<TokenSpec>) -> Option<TokenSpec> {
    match t {
        Some(TokenSpec::StartTag { tag, self_closing, attributes }) => Some(
            TokenSpec::StartTag { tag, self_closing: true, attributes },
        ),
        other => other,
    }
}

/// The state entered after a tag is emitted: raw-text elements switch the
/// tokenizer into its raw-text sub-machine.
pub open spec fn state_after_emit(t: TokenSpec) -> State {
    match t {
        TokenSpec::StartTag { tag, .. } => if tag == "script"@ || tag == "style"@ {
            State::ScriptData
        } else {
            State::Data
        },
        _ => State::Data,
    }
}

/// The character the machine will read next: the re-presented one when the
/// reconsume flag is up, the one under the cursor otherwise.
pub open spec fn cur_char(m: TokenizerView) -> char {
    if m.reconsume {
        m.input[m.pos - 1]
    } else {
        m.input[m.pos]
    }
}

/// Bounds the reconsume-only transitions: re-presenting a character to a new
/// state without advancing always strictly lowers this rank, whatever the
/// character; part of the termination measure.
pub open spec fn chain_rank(s: State, c: char) -> int {
    match s {
        State::Data => 0,
        State::TagOpen => 1,
        State::EndTagOpen => 1,
        State::TagName => 0,
        State::BeforeAttributeName => 1,
        State::AttributeName => if is_space(c) || c == '/' || c == '>' {
            1int
        } else {
            0int
        },
        State::AfterAttributeName => if is_space(c) || c == '/' || c == '=' || c == '>' {
            0int
        } else {
            1int
        },
        State::BeforeAttributeValue => 1,
        State::AttributeValueDoubleQuoted => 0,
        State::AttributeValueSingleQuoted => 0,
        State::AttributeValueUnquoted => 0,
        State::AfterAttributeValueQuoted => 2,
        State::SelfClosingStartTag => 2,
        State::ScriptData => 0,
        State::ScriptDataLessThanSign => 1,
        State::ScriptDataEndTagOpen => 1,
        State::ScriptDataEndTagName => if is_alpha(c) || c == '>' {
            0int
        } else {
            2int
        },
        State::TemporaryBuffer => 1,
    }
}

/// Termination measure of the tokenizer: dominated by the unread input, with
/// corrections for the reconsume flag, the state and the temporary buffer.
/// Every call of `next` that yields a token strictly lowers it.
pub open spec fn tk_measure(m: TokenizerView) -> int {
    if m.pos > m.input.len() {
        0
    } else {
        40 * (m.input.len() + 1 - m.pos) + (if m.reconsume {
            20int
        } else {
            0int
        }) + 5 * chain_rank(m.state, cur_char(m)) + m.buf.len()
    }
}

/// What one call of `next` does: the token it yields (`None` once the stream
/// has ended) and the state it leaves behind. Total and deterministic.
pub open spec fn spec_next(m: TokenizerView) -> (Option<TokenSpec>, TokenizerView)
    decreases tk_measure(m),
{
    if m.pos > m.input.len() {
        (None, m)
    } else if !m.reconsume && m.pos == m.input.len() {
        (Some(TokenSpec::EOF), TokenizerView { pos: m.input.len() as int + 1, ..m })
    } else {
        let c = if m.reconsume {
            m.input[m.pos - 1]
        } else {
            m.input[m.pos]
        };
        let m1 = if m.reconsume {
            TokenizerView { reconsume: false, ..m }
        } else {
            TokenizerView { pos: m.pos + 1, ..m }
        };
        match m.state {
            State::Data => {
                if c == '<' {
                    spec_next(TokenizerView { state: State::TagOpen, ..m1 })
                } else {
                    (Some(TokenSpec::Char(c)), m1)
                }
            },
            State::TagOpen => {
                if c == '/' {
                    spec_next(TokenizerView { state: State::EndTagOpen, ..m1 })
                } else if is_alpha(c) {
                    spec_next(
                        TokenizerView {
                            reconsume: true,
                            state: State::TagName,
                            latest_token: create_tag_spec(true),
                            ..m1
                        },
                    )
                } else {
                    (
                        Some(TokenSpec::Char('<')),
                        TokenizerView { reconsume: true, state: State::Data, ..m1 },
                    )
                }
            },
            State::EndTagOpen => {
                if is_alpha(c) {
                    spec_next(
                        TokenizerView {
                            reconsume: true,
                            state: State::TagName,
                            latest_token: create_tag_spec(false),
                            ..m1
                        },
                    )
                } else {
                    spec_next(m1)
                }
            },
            State::TagName => {
                if is_space(c) {
                    spec_next(TokenizerView { state: State::BeforeAttributeName, ..m1 })
                } else if c == '/' {
                    spec_next(TokenizerView { state: State::SelfClosingStartTag, ..m1 })
                } else if c == '>' {
                    match m1.latest_token {
                        Some(tok) => (
                            Some(tok),
                            TokenizerView {
                                latest_token: None,
                                state: state_after_emit(tok),
                                ..m1
                            },
                        ),
                        None => spec_next(TokenizerView { state: State::Data, ..m1 }),
                    }
                } else if is_upper(c) {
                    spec_next(
                        TokenizerView {
                            latest_token: append_tag_name_spec(m1.latest_token, lower_char(c)),
                            ..m1
                        },
                    )
                } else {
                    spec_next(
                        TokenizerView {
                            latest_token: append_tag_name_spec(m1.latest_token, c),
                            ..m1
                        },
                    )
                }
            },
            State::BeforeAttributeName => {
                if is_space(c) {
                    spec_next(m1)
                } else if c == '/' || c == '>' {
                    spec_next(
                        TokenizerView { reconsume: true, state: State::AfterAttributeName, ..m1 },
                    )
                } else {
                    spec_next(
                        TokenizerView {
                            reconsume: true,
                            state: State::AttributeName,
                            latest_token: start_new_attribute_spec(m1.latest_token),
                            ..m1
                        },
                    )
                }
            },
            State::AttributeName => {
                if is_space(c) || c == '/' || c == '>' {
                    spec_next(
                        TokenizerView { reconsume: true, state: State::AfterAttributeName, ..m1 },
                    )
                } else if c == '=' {
                    spec_next(TokenizerView { state: State::BeforeAttributeValue, ..m1 })
                } else if is_upper(c) {
                    spec_next(
                        TokenizerView {
                            latest_token: append_attribute_spec(
                                m1.latest_token,
                                lower_char(c),
                                true,
                            ),
                            ..m1
                        },
                    )
                } else {
                    spec_next(
                        TokenizerView {
                            latest_token: append_attribute_spec(m1.latest_token, c, true),
                            ..m1
                        },
                    )
                }
            },
            State::AfterAttributeName => {
                if is_space(c) {
                    spec_next(m1)
                } else if c == '/' {
                    spec_next(TokenizerView { state: State::SelfClosingStartTag, ..m1 })
                } else if c == '=' {
                    spec_next(TokenizerView { state: State::BeforeAttributeValue, ..m1 })
                } else if c == '>' {
                    match m1.latest_token {
                        Some(tok) => (
                            Some(tok),
                            TokenizerView {
                                latest_token: None,
                                state: state_after_emit(tok),
                                ..m1
                            },
                        ),
                        None => spec_next(TokenizerView { state: State::Data, ..m1 }),
                    }
                } else {
                    spec_next(
                        TokenizerView {
                            reconsume: true,
                            state: State::AttributeName,
                            latest_token: start_new_attribute_spec(m1.latest_token),
                            ..m1
                        },
                    )
                }
            },
            State::BeforeAttributeValue => {
                if is_space(c) {
                    spec_next(m1)
                } else if c == '"' {
                    spec_next(TokenizerView { state: State::AttributeValueDoubleQuoted, ..m1 })
                } else if c == '\'' {
                    spec_next(TokenizerView { state: State::AttributeValueSingleQuoted, ..m1 })
                } else {
                    spec_next(
                        TokenizerView {
                            reconsume: true,
                            state: State::AttributeValueUnquoted,
                            ..m1
                        },
                    )
                }
            },
            State::AttributeValueDoubleQuoted => {
                if c == '"' {
                    spec_next(TokenizerView { state: State::AfterAttributeValueQuoted, ..m1 })
                } else {
                    spec_next(
                        TokenizerView {
                            latest_token: append_attribute_spec(m1.latest_token, c, false),
                            ..m1
                        },
                    )
                }
            },
            State::AttributeValueSingleQuoted => {
                if c == '\'' {
                    spec_next(TokenizerView { state: State::AfterAttributeValueQuoted, ..m1 })
                } else {
                    spec_next(
                        TokenizerView {
                            latest_token: append_attribute_spec(m1.latest_token, c, false),
                            ..m1
                        },
                    )
                }
            },
            State::AttributeValueUnquoted => {
                if is_space(c) {
                    spec_next(TokenizerView { state: State::BeforeAttributeName, ..m1 })
                } else if c == '>' {
                    match m1.latest_token {
                        Some(tok) => (
                            Some(tok),
                            TokenizerView {
                                latest_token: None,
                                state: state_after_emit(tok),
                                ..m1
                            },
                        ),
                        None => spec_next(TokenizerView { state: State::Data, ..m1 }),
                    }
                } else {
                    spec_next(
                        TokenizerView {
                            latest_token: append_attribute_spec(m1.latest_token, c, false),
                            ..m1
                        },
                    )
                }
            },
            State::AfterAttributeValueQuoted => {
                if is_space(c) {
                    spec_next(TokenizerView { state: State::BeforeAttributeName, ..m1 })
                } else if c == '/' {
                    spec_next(TokenizerView { state: State::SelfClosingStartTag, ..m1 })
                } else if c == '>' {
                    match m1.latest_token {
                        Some(tok) => (
                            Some(tok),
                            TokenizerView {
                                latest_token: None,
                                state: state_after_emit(tok),
                                ..m1
                            },
                        ),
                        None => spec_next(TokenizerView { state: State::Data, ..m1 }),
                    }
                } else {
                    spec_next(
                        TokenizerView { reconsume: true, state: State::BeforeAttributeName, ..m1 },
                    )
                }
            },
            State::SelfClosingStartTag => {
                if c == '>' {
                    let m2 = TokenizerView {
                        latest_token: set_self_closing_spec(m1.latest_token),
                        ..m1
                    };
                    match m2.latest_token {
                        Some(tok) => (
                            Some(tok),
                            TokenizerView {
                                latest_token: None,
                                state: state_after_emit(tok),
                                ..m2
                            },
                        ),
                        None => spec_next(TokenizerView { state: State::Data, ..m2 }),
                    }
                } else {
                    spec_next(
                        TokenizerView { reconsume: true, state: State::BeforeAttributeName, ..m1 },
                    )
                }
            },
            State::ScriptData => {
                if c == '<' {
                    spec_next(TokenizerView { state: State::ScriptDataLessThanSign, ..m1 })
                } else {
                    (Some(TokenSpec::Char(c)), m1)
                }
            },
            State::ScriptDataLessThanSign => {
                if c == '/' {
                    spec_next(
                        TokenizerView {
                            state: State::ScriptDataEndTagOpen,
                            buf: Seq::empty(),
                            ..m1
                        },
                    )
                } else {
                    (
                        Some(TokenSpec::Char('<')),
                        TokenizerView { reconsume: true, state: State::ScriptData, ..m1 },
                    )
                }
            },
            State::ScriptDataEndTagOpen => {
                if is_alpha(c) {
                    spec_next(
                        TokenizerView {
                            reconsume: true,
                            state: State::ScriptDataEndTagName,
                            latest_token: create_tag_spec(false),
                            ..m1
                        },
                    )
                } else {
                    (
                        Some(TokenSpec::Char('<')),
                        TokenizerView { reconsume: true, state: State::ScriptData, ..m1 },
                    )
                }
            },
            State::ScriptDataEndTagName => {
                if c == '>' {
                    match m1.latest_token {
                        Some(tok) => (
                            Some(tok),
                            TokenizerView {
                                latest_token: None,
                                state: state_after_emit(tok),
                                ..m1
                            },
                        ),
                        None => spec_next(TokenizerView { state: State::Data, ..m1 }),
                    }
                } else if is_alpha(c) {
                    spec_next(
                        TokenizerView {
                            buf: m1.buf.push(c),
                            latest_token: append_tag_name_spec(m1.latest_token, lower_char(c)),
                            ..m1
                        },
                    )
                } else {
                    spec_next(
                        TokenizerView {
                            reconsume: true,
                            state: State::TemporaryBuffer,
                            buf: seq!['<', '/'] + m1.buf,
                            ..m1
                        },
                    )
                }
            },
            State::TemporaryBuffer => {
                if m1.buf.len() == 0 {
                    spec_next(
                        TokenizerView { reconsume: true, state: State::ScriptData, ..m1 },
                    )
                } else {
                    (
                        Some(TokenSpec::Char(m1.buf[0])),
                        TokenizerView { reconsume: true, buf: m1.buf.drop_first(), ..m1 },
                    )
                }
            },
        }
    }
}

/// Spent toward the token budget: unread input positions, buffered
/// characters, a re-presented character, and a small state allowance for
/// characters already consumed toward an unfinished unit. Every token but
/// the end-of-input marker strictly lowers it, which bounds the stream at
/// one token per input position plus the marker.
pub open spec fn budget_rank(s: State) -> int {
    match s {
        State::TagOpen => 1,
        State::ScriptDataLessThanSign => 1,
        State::ScriptDataEndTagOpen => 2,
        State::ScriptDataEndTagName => 2,
        _ => 0,
    }
}

pub open spec fn tk_budget(m: TokenizerView) -> int {
    if m.pos > m.input.len() {
        0
    } else {
        (m.input.len() - m.pos) + m.buf.len() + (if m.reconsume {
            1int
        } else {
            0int
        }) + budget_rank(m.state)
    }
}

/// A call that yields a token strictly lowers the measure; one that yields
/// nothing leaves the state alone; and a state whose cursor is still within
/// the input always yields a token. A token other than the end-of-input
/// marker also strictly lowers the token budget.
#[verifier::spinoff_prover]
#[verifier::rlimit(100)]
pub proof fn lemma_spec_next_measure(m: TokenizerView)
    ensures
        spec_next(m).0 is Some ==> tk_measure(spec_next(m).1) < tk_measure(m),
        spec_next(m).0 is None ==> spec_next(m).1 == m,
        m.pos <= m.input.len() ==> spec_next(m).0 is Some,
        spec_next(m).1.input == m.input,
    decreases tk_measure(m),
{
    if m.pos > m.input.len() {
    } else if !m.reconsume && m.pos == m.input.len() {
    } else {
        let c = if m.reconsume {
            m.input[m.pos - 1]
        } else {
            m.input[m.pos]
        };
        let m1 = if m.reconsume {
            TokenizerView { reconsume: false, ..m }
        } else {
            TokenizerView { pos: m.pos + 1, ..m }
        };
        match m.state {
            State::Data => {
                if c == '<' {
                    lemma_spec_next_measure(TokenizerView { state: State::TagOpen, ..m1 });
                }
            },
            State::TagOpen => {
                if c == '/' {
                    lemma_spec_next_measure(TokenizerView { state: State::EndTagOpen, ..m1 });
                } else if is_alpha(c) {
                    lemma_spec_next_measure(
                        TokenizerView {
                            reconsume: true,
                            state: State::TagName,
                            latest_token: create_tag_spec(true),
                            ..m1
                        },
                    );
                }
            },
            State::EndTagOpen => {
                if is_alpha(c) {
                    lemma_spec_next_measure(
                        TokenizerView {
                            reconsume: true,
                            state: State::TagName,
                            latest_token: create_tag_spec(false),
                            ..m1
                        },
                    );
                } else {
                    lemma_spec_next_measure(m1);
                }
            },
            State::TagName => {
                if is_space(c) {
                    lemma_spec_next_measure(
                        TokenizerView { state: State::BeforeAttributeName, ..m1 },
                    );
                } else if c == '/' {
                    lemma_spec_next_measure(
                        TokenizerView { state: State::SelfClosingStartTag, ..m1 },
                    );
                } else if c == '>' {
                    if m1.latest_token is None {
                        lemma_spec_next_measure(TokenizerView { state: State::Data, ..m1 });
                    }
                } else if is_upper(c) {
                    lemma_spec_next_measure(
                        TokenizerView {
                            latest_token: append_tag_name_spec(m1.latest_token, lower_char(c)),
                            ..m1
                        },
                    );
                } else {
                    lemma_spec_next_measure(
                        TokenizerView {
                            latest_token: append_tag_name_spec(m1.latest_token, c),
                            ..m1
                        },
                    );
                }
            },
            State::BeforeAttributeName => {
                if is_space(c) {
                    lemma_spec_next_measure(m1);
                } else if c == '/' || c == '>' {
                    lemma_spec_next_measure(
                        TokenizerView { reconsume: true, state: State::AfterAttributeName, ..m1 },
                    );
                } else {
                    lemma_spec_next_measure(
                        TokenizerView {
                            reconsume: true,
                            state: State::AttributeName,
                            latest_token: start_new_attribute_spec(m1.latest_token),
                            ..m1
                        },
                    );
                }
            },
            State::AttributeName => {
                if is_space(c) || c == '/' || c == '>' {
                    lemma_spec_next_measure(
                        TokenizerView { reconsume: true, state: State::AfterAttributeName, ..m1 },
                    );
                } else if c == '=' {
                    lemma_spec_next_measure(
                        TokenizerView { state: State::BeforeAttributeValue, ..m1 },
                    );
                } else if is_upper(c) {
                    lemma_spec_next_measure(
                        TokenizerView {
                            latest_token: append_attribute_spec(
                                m1.latest_token,
                                lower_char(c),
                                true,
                            ),
                            ..m1
                        },
                    );
                } else {
                    lemma_spec_next_measure(
                        TokenizerView {
                            latest_token: append_attribute_spec(m1.latest_token, c, true),
                            ..m1
                        },
                    );
                }
            },
            State::AfterAttributeName => {
                if is_space(c) {
                    lemma_spec_next_measure(m1);
                } else if c == '/' {
                    lemma_spec_next_measure(
                        TokenizerView { state: State::SelfClosingStartTag, ..m1 },
                    );
                } else if c == '=' {
                    lemma_spec_next_measure(
                        TokenizerView { state: State::BeforeAttributeValue, ..m1 },
                    );
                } else if c == '>' {
                    if m1.latest_token is None {
                        lemma_spec_next_measure(TokenizerView { state: State::Data, ..m1 });
                    }
                } else {
                    lemma_spec_next_measure(
                        TokenizerView {
                            reconsume: true,
                            state: State::AttributeName,
                            latest_token: start_new_attribute_spec(m1.latest_token),
                            ..m1
                        },
                    );
                }
            },
            State::BeforeAttributeValue => {
                if is_space(c) {
                    lemma_spec_next_measure(m1);
                } else if c == '"' {
                    lemma_spec_next_measure(
                        TokenizerView { state: State::AttributeValueDoubleQuoted, ..m1 },
                    );
                } else if c == '\'' {
                    lemma_spec_next_measure(
                        TokenizerView { state: State::AttributeValueSingleQuoted, ..m1 },
                    );
                } else {
                    lemma_spec_next_measure(
                        TokenizerView {
                            reconsume: true,
                            state: State::AttributeValueUnquoted,
                            ..m1
                        },
                    );
                }
            },
            State::AttributeValueDoubleQuoted => {
                if c == '"' {
                    lemma_spec_next_measure(
                        TokenizerView { state: State::AfterAttributeValueQuoted, ..m1 },
                    );
                } else {
                    lemma_spec_next_measure(
                        TokenizerView {
                            latest_token: append_attribute_spec(m1.latest_token, c, false),
                            ..m1
                        },
                    );
                }
            },
            State::AttributeValueSingleQuoted => {
                if c == '\'' {
                    lemma_spec_next_measure(
                        TokenizerView { state: State::AfterAttributeValueQuoted, ..m1 },
                    );
                } else {
                    lemma_spec_next_measure(
                        TokenizerView {
                            latest_token: append_attribute_spec(m1.latest_token, c, false),
                            ..m1
                        },
                    );
                }
            },
            State::AttributeValueUnquoted => {
                if is_space(c) {
                    lemma_spec_next_measure(
                        TokenizerView { state: State::BeforeAttributeName, ..m1 },
                    );
                } else if c == '>' {
                    if m1.latest_token is None {
                        lemma_spec_next_measure(TokenizerView { state: State::Data, ..m1 });
                    }
                } else {
                    lemma_spec_next_measure(
                        TokenizerView {
                            latest_token: append_attribute_spec(m1.latest_token, c, false),
                            ..m1
                        },
                    );
                }
            },
            State::AfterAttributeValueQuoted => {
                if is_space(c) {
                    lemma_spec_next_measure(
                        TokenizerView { state: State::BeforeAttributeName, ..m1 },
                    );
                } else if c == '/' {
                    lemma_spec_next_measure(
                        TokenizerView { state: State::SelfClosingStartTag, ..m1 },
                    );
                } else if c == '>' {
                    if m1.latest_token is None {
                        lemma_spec_next_measure(TokenizerView { state: State::Data, ..m1 });
                    }
                } else {
                    lemma_spec_next_measure(
                        TokenizerView { reconsume: true, state: State::BeforeAttributeName, ..m1 },
                    );
                }
            },
            State::SelfClosingStartTag => {
                if c == '>' {
                    let m2 = TokenizerView {
                        latest_token: set_self_closing_spec(m1.latest_token),
                        ..m1
                    };
                    if m2.latest_token is None {
                        lemma_spec_next_measure(TokenizerView { state: State::Data, ..m2 });
                    }
                } else {
                    lemma_spec_next_measure(
                        TokenizerView { reconsume: true, state: State::BeforeAttributeName, ..m1 },
                    );
                }
            },
            State::ScriptData => {
                if c == '<' {
                    lemma_spec_next_measure(
                        TokenizerView { state: State::ScriptDataLessThanSign, ..m1 },
                    );
                }
            },
            State::ScriptDataLessThanSign => {
                if c == '/' {
                    lemma_spec_next_measure(
                        TokenizerView {
                            state: State::ScriptDataEndTagOpen,
                            buf: Seq::empty(),
                            ..m1
                        },
                    );
                }
            },
            State::ScriptDataEndTagOpen => {
                if is_alpha(c) {
                    lemma_spec_next_measure(
                        TokenizerView {
                            reconsume: true,
                            state: State::ScriptDataEndTagName,
                            latest_token: create_tag_spec(false),
                            ..m1
                        },
                    );
                }
            },
            State::ScriptDataEndTagName => {
                if c == '>' {
                    if m1.latest_token is None {
                        lemma_spec_next_measure(TokenizerView { state: State::Data, ..m1 });
                    }
                } else if is_alpha(c) {
                    lemma_spec_next_measure(
                        TokenizerView {
                            buf: m1.buf.push(c),
                            latest_token: append_tag_name_spec(m1.latest_token, lower_char(c)),
                            ..m1
                        },
                    );
                } else {
                    lemma_spec_next_measure(
                        TokenizerView {
                            reconsume: true,
                            state: State::TemporaryBuffer,
                            buf: seq!['<', '/'] + m1.buf,
                            ..m1
                        },
                    );
                }
            },
            State::TemporaryBuffer => {
                if m1.buf.len() == 0 {
                    lemma_spec_next_measure(
                        TokenizerView { reconsume: true, state: State::ScriptData, ..m1 },
                    );
                }
            },
        }
    }
}

/// Every yielded token strictly lowers the token budget, except the
/// end-of-input marker, after which the cursor stands past the input.
#[verifier::spinoff_prover]
#[verifier::rlimit(100)]
pub proof fn lemma_spec_next_budget(m: TokenizerView)
    ensures
        spec_next(m).0 is Some ==> tk_budget(spec_next(m).1) < tk_budget(m) || spec_next(
            m,
        ).1.pos > m.input.len(),
    decreases tk_measure(m),
{
    if m.pos > m.input.len() {
    } else if !m.reconsume && m.pos == m.input.len() {
    } else {
        let c = if m.reconsume {
            m.input[m.pos - 1]
        } else {
            m.input[m.pos]
        };
        let m1 = if m.reconsume {
            TokenizerView { reconsume: false, ..m }
        } else {
            TokenizerView { pos: m.pos + 1, ..m }
        };
        match m.state {
            State::Data => {
                if c == '<' {
                    lemma_spec_next_budget(TokenizerView { state: State::TagOpen, ..m1 });
                }
            },
            State::TagOpen => {
                if c == '/' {
                    lemma_spec_next_budget(TokenizerView { state: State::EndTagOpen, ..m1 });
                } else if is_alpha(c) {
                    lemma_spec_next_budget(
                        TokenizerView {
                            reconsume: true,
                            state: State::TagName,
                            latest_token: create_tag_spec(true),
                            ..m1
                        },
                    );
                }
            },
            State::EndTagOpen => {
                if is_alpha(c) {
                    lemma_spec_next_budget(
                        TokenizerView {
                            reconsume: true,
                            state: State::TagName,
                            latest_token: create_tag_spec(false),
                            ..m1
                        },
                    );
                } else {
                    lemma_spec_next_budget(m1);
                }
            },
            State::TagName => {
                if is_space(c) {
                    lemma_spec_next_budget(
                        TokenizerView { state: State::BeforeAttributeName, ..m1 },
                    );
                } else if c == '/' {
                    lemma_spec_next_budget(
                        TokenizerView { state: State::SelfClosingStartTag, ..m1 },
                    );
                } else if c == '>' {
                    if m1.latest_token is None {
                        lemma_spec_next_budget(TokenizerView { state: State::Data, ..m1 });
                    }
                } else if is_upper(c) {
                    lemma_spec_next_budget(
                        TokenizerView {
                            latest_token: append_tag_name_spec(m1.latest_token, lower_char(c)),
                            ..m1
                        },
                    );
                } else {
                    lemma_spec_next_budget(
                        TokenizerView {
                            latest_token: append_tag_name_spec(m1.latest_token, c),
                            ..m1
                        },
                    );
                }
            },
            State::BeforeAttributeName => {
                if is_space(c) {
                    lemma_spec_next_budget(m1);
                } else if c == '/' || c == '>' {
                    lemma_spec_next_budget(
                        TokenizerView { reconsume: true, state: State::AfterAttributeName, ..m1 },
                    );
                } else {
                    lemma_spec_next_budget(
                        TokenizerView {
                            reconsume: true,
                            state: State::AttributeName,
                            latest_token: start_new_attribute_spec(m1.latest_token),
                            ..m1
                        },
                    );
                }
            },
            State::AttributeName => {
                if is_space(c) || c == '/' || c == '>' {
                    lemma_spec_next_budget(
                        TokenizerView { reconsume: true, state: State::AfterAttributeName, ..m1 },
                    );
                } else if c == '=' {
                    lemma_spec_next_budget(
                        TokenizerView { state: State::BeforeAttributeValue, ..m1 },
                    );
                } else if is_upper(c) {
                    lemma_spec_next_budget(
                        TokenizerView {
                            latest_token: append_attribute_spec(
                                m1.latest_token,
                                lower_char(c),
                                true,
                            ),
                            ..m1
                        },
                    );
                } else {
                    lemma_spec_next_budget(
                        TokenizerView {
                            latest_token: append_attribute_spec(m1.latest_token, c, true),
                            ..m1
                        },
                    );
                }
            },
            State::AfterAttributeName => {
                if is_space(c) {
                    lemma_spec_next_budget(m1);
                } else if c == '/' {
                    lemma_spec_next_budget(
                        TokenizerView { state: State::SelfClosingStartTag, ..m1 },
                    );
                } else if c == '=' {
                    lemma_spec_next_budget(
                        TokenizerView { state: State::BeforeAttributeValue, ..m1 },
                    );
                } else if c == '>' {
                    if m1.latest_token is None {
                        lemma_spec_next_budget(TokenizerView { state: State::Data, ..m1 });
                    }
                } else {
                    lemma_spec_next_budget(
                        TokenizerView {
                            reconsume: true,
                            state: State::AttributeName,
                            latest_token: start_new_attribute_spec(m1.latest_token),
                            ..m1
                        },
                    );
                }
            },
            State::BeforeAttributeValue => {
                if is_space(c) {
                    lemma_spec_next_budget(m1);
                } else if c == '"' {
                    lemma_spec_next_budget(
                        TokenizerView { state: State::AttributeValueDoubleQuoted, ..m1 },
                    );
                } else if c == '\'' {
                    lemma_spec_next_budget(
                        TokenizerView { state: State::AttributeValueSingleQuoted, ..m1 },
                    );
                } else {
                    lemma_spec_next_budget(
                        TokenizerView {
                            reconsume: true,
                            state: State::AttributeValueUnquoted,
                            ..m1
                        },
                    );
                }
            },
            State::AttributeValueDoubleQuoted => {
                if c == '"' {
                    lemma_spec_next_budget(
                        TokenizerView { state: State::AfterAttributeValueQuoted, ..m1 },
                    );
                } else {
                    lemma_spec_next_budget(
                        TokenizerView {
                            latest_token: append_attribute_spec(m1.latest_token, c, false),
                            ..m1
                        },
                    );
                }
            },
            State::AttributeValueSingleQuoted => {
                if c == '\'' {
                    lemma_spec_next_budget(
                        TokenizerView { state: State::AfterAttributeValueQuoted, ..m1 },
                    );
                } else {
                    lemma_spec_next_budget(
                        TokenizerView {
                            latest_token: append_attribute_spec(m1.latest_token, c, false),
                            ..m1
                        },
                    );
                }
            },
            State::AttributeValueUnquoted => {
                if is_space(c) {
                    lemma_spec_next_budget(
                        TokenizerView { state: State::BeforeAttributeName, ..m1 },
                    );
                } else if c == '>' {
                    if m1.latest_token is None {
                        lemma_spec_next_budget(TokenizerView { state: State::Data, ..m1 });
                    }
                } else {
                    lemma_spec_next_budget(
                        TokenizerView {
                            latest_token: append_attribute_spec(m1.latest_token, c, false),
                            ..m1
                        },
                    );
                }
            },
            State::AfterAttributeValueQuoted => {
                if is_space(c) {
                    lemma_spec_next_budget(
                        TokenizerView { state: State::BeforeAttributeName, ..m1 },
                    );
                } else if c == '/' {
                    lemma_spec_next_budget(
                        TokenizerView { state: State::SelfClosingStartTag, ..m1 },
                    );
                } else if c == '>' {
                    if m1.latest_token is None {
                        lemma_spec_next_budget(TokenizerView { state: State::Data, ..m1 });
                    }
                } else {
                    lemma_spec_next_budget(
                        TokenizerView { reconsume: true, state: State::BeforeAttributeName, ..m1 },
                    );
                }
            },
            State::SelfClosingStartTag => {
                if c == '>' {
                    let m2 = TokenizerView {
                        latest_token: set_self_closing_spec(m1.latest_token),
                        ..m1
                    };
                    if m2.latest_token is None {
                        lemma_spec_next_budget(TokenizerView { state: State::Data, ..m2 });
                    }
                } else {
                    lemma_spec_next_budget(
                        TokenizerView { reconsume: true, state: State::BeforeAttributeName, ..m1 },
                    );
                }
            },
            State::ScriptData => {
                if c == '<' {
                    lemma_spec_next_budget(
                        TokenizerView { state: State::ScriptDataLessThanSign, ..m1 },
                    );
                }
            },
            State::ScriptDataLessThanSign => {
                if c == '/' {
                    lemma_spec_next_budget(
                        TokenizerView {
                            state: State::ScriptDataEndTagOpen,
                            buf: Seq::empty(),
                            ..m1
                        },
                    );
                }
            },
            State::ScriptDataEndTagOpen => {
                if is_alpha(c) {
                    lemma_spec_next_budget(
                        TokenizerView {
                            reconsume: true,
                            state: State::ScriptDataEndTagName,
                            latest_token: create_tag_spec(false),
                            ..m1
                        },
                    );
                }
            },
            State::ScriptDataEndTagName => {
                if c == '>' {
                    if m1.latest_token is None {
                        lemma_spec_next_budget(TokenizerView { state: State::Data, ..m1 });
                    }
                } else if is_alpha(c) {
                    lemma_spec_next_budget(
                        TokenizerView {
                            buf: m1.buf.push(c),
                            latest_token: append_tag_name_spec(m1.latest_token, lower_char(c)),
                            ..m1
                        },
                    );
                } else {
                    lemma_spec_next_budget(
                        TokenizerView {
                            reconsume: true,
                            state: State::TemporaryBuffer,
                            buf: seq!['<', '/'] + m1.buf,
                            ..m1
                        },
                    );
                }
            },
            State::TemporaryBuffer => {
                if m1.buf.len() == 0 {
                    lemma_spec_next_budget(
                        TokenizerView { reconsume: true, state: State::ScriptData, ..m1 },
                    );
                }
            },
        }
    }
}

/// From any state, at most `tk_budget` tokens come out before the
/// end-of-input marker: the whole stream holds at most `tk_budget + 1`
/// tokens.
pub proof fn lemma_token_count(m: TokenizerView, n: nat)
    ensures
        spec_tokens(m, n).len() <= tk_budget(m) + 1,
    decreases n,
{
    if n > 0 {
        let r = spec_next(m);
        lemma_spec_next_budget(m);
        lemma_spec_next_measure(m);
        match r.0 {
            Some(tok) => {
                lemma_token_count(r.1, (n - 1) as nat);
                if r.1.pos > m.input.len() {
                    if n - 1 > 0 {
                        reveal_with_fuel(spec_next, 2);
                        assert(spec_next(r.1) == (None::<TokenSpec>, r.1));
                        assert(spec_tokens(r.1, (n - 1) as nat) =~= Seq::<TokenSpec>::empty());
                    }
                }
            },
            None => {},
        }
    }
}

/// The stated stream bound: a fresh tokenizer over `len` characters yields
/// at most `len + 1` tokens — one per input position, plus the end-of-input
/// marker.
pub proof fn lemma_fresh_token_budget(m: TokenizerView, n: nat)
    requires
        m.state == State::Data,
        m.pos == 0,
        !m.reconsume,
        m.buf.len() == 0,
    ensures
        spec_tokens(m, n).len() <= m.input.len() + 1,
{
    lemma_token_count(m, n);
}

/// Raw-text isolation, in general: inside the raw-text sub-machine any
/// character other than `<` is emitted verbatim as a character token, and
/// the machine stays in place to do the same with the next one.
pub proof fn lemma_script_data_verbatim(m: TokenizerView)
    requires
        m.state == State::ScriptData,
        !m.reconsume,
        0 <= m.pos < m.input.len(),
        m.input[m.pos] != '<',
    ensures
        spec_next(m) == (
            Some(TokenSpec::Char(m.input[m.pos])),
            TokenizerView { pos: m.pos + 1, ..m },
        ),
{
}

/// The first `n` tokens from a tokenizer state.
pub open spec fn spec_tokens(m: TokenizerView, n: nat) -> Seq<TokenSpec>
    decreases n,
{
    if n == 0 {
        Seq::empty()
    } else {
        let r = spec_next(m);
        match r.0 {
            Some(tok) => seq![tok] + spec_tokens(r.1, (n - 1) as nat),
            None => Seq::empty(),
        }
    }
}

/// Tokenizing is deterministic: the token stream is a function of the
/// tokenizer state alone, so tokenizing the same input twice yields
/// identical token sequences.
pub proof fn lemma_tokenizer_deterministic(a: TokenizerView, b: TokenizerView, n: nat)
    requires
        a == b,
    ensures
        spec_tokens(a, n) == spec_tokens(b, n),
{
}

/// The tokenizer: current state, cursor, reconsume flag, the token under
/// construction, the input and the temporary buffer.
#[derive(Debug, Clone, PartialEq, Eq)]
pub struct HtmlTokenizer {
    state: State,
    pos: usize,
    reconsume: bool,
    latest_token: Option<HtmlToken>,
    input: Vec<char>,
    buf: Vec<char>,
}

impl View for HtmlTokenizer {
    type V = TokenizerView;

    closed spec fn view(&self) -> TokenizerView {
        TokenizerView {
            state: self.state,
            pos: self.pos as int,
            reconsume: self.reconsume,
            latest_token: opt_token_view(self.latest_token),
            input: self.input@,
            buf: self.buf@,
        }
    }
}

impl HtmlTokenizer {
    /// The cursor stays within the input, with one step past the end marking
    /// the produced end-of-input; a raised reconsume flag always has a
    /// previous character to re-present.
    pub open spec fn wf(&self) -> bool {
        &&& self@.input.len() < usize::MAX
        &&& self@.pos <= self@.input.len() + 1
        &&& (self@.reconsume ==> 1 <= self@.pos <= self@.input.len())
    }

    pub fn new(html: String) -> (r: HtmlTokenizer)
        requires
            html@.len() < usize::MAX,
        ensures
            r.wf(),
            r@ == (TokenizerView {
                state: State::Data,
                pos: 0,
                reconsume: false,
                latest_token: None,
                input: html@,
                buf: Seq::empty(),
            }),
    {
        HtmlTokenizer {
            state: State::Data,
            pos: 0,
            reconsume: false,
            latest_token: None,
            input: chars_of(html.as_str()),
            buf: Vec::new(),
        }
    }

    /// Whether the end-of-input token has already been produced.
    fn is_eof(&self) -> (r: bool)
        ensures
            r == (self@.pos > self@.input.len()),
    {
        self.pos > self.input.len()
    }

    /// Reads the character under the cursor and advances.
    fn consume_next_input(&mut self) -> (c: char)
        requires
            old(self)@.pos < old(self)@.input.len(),
        ensures
            c == old(self)@.input[old(self)@.pos],
            final(self)@ == (TokenizerView { pos: old(self)@.pos + 1, ..old(self)@ }),
    {
        let n = self.input.len();
        proof {
            assert(self.pos < n);
        }
        let c = self.input[self.pos];
        self.pos = self.pos + 1;
        c
    }

    /// Re-presents the previous character to the current state.
    fn reconsume_input(&mut self) -> (c: char)
        requires
            old(self)@.reconsume,
            1 <= old(self)@.pos <= old(self)@.input.len(),
        ensures
            c == old(self)@.input[old(self)@.pos - 1],
            final(self)@ == (TokenizerView { reconsume: false, ..old(self)@ }),
    {
        self.reconsume = false;
        self.input[self.pos - 1]
    }

    /// Opens a fresh start or end tag as the token under construction.
    fn create_tag(&mut self, start_tag_token: bool)
        ensures
            final(self)@ == (TokenizerView {
                latest_token: create_tag_spec(start_tag_token),
                ..old(self)@
            }),
    {
        if start_tag_token {
            self.latest_token = Some(
                HtmlToken::StartTag {
                    tag: String::new(),
                    self_closing: false,
                    attributes: Vec::new(),
                },
            );
            proof {
                assert(attr_views(Seq::<Attribute>::empty()) =~= Seq::<(
                    Seq<char>,
                    Seq<char>,
                )>::empty());
            }
        } else {
            self.latest_token = Some(HtmlToken::EndTag { tag: String::new() });
        }
    }

    /// Appends `c` to the name of the tag under construction.
    fn append_tag_name(&mut self, c: char)
        ensures
            final(self)@ == (TokenizerView {
                latest_token: append_tag_name_spec(old(self)@.latest_token, c),
                ..old(self)@
            }),
    {
        let t = self.latest_token.take();
        self.latest_token = match t {
            Some(HtmlToken::StartTag { mut tag, self_closing, attributes }) => {
                push_char(&mut tag, c);
                Some(HtmlToken::StartTag { tag, self_closing, attributes })
            },
            Some(HtmlToken::EndTag { mut tag }) => {
                push_char(&mut tag, c);
                Some(HtmlToken::EndTag { tag })
            },
            other => other,
        };
    }

    /// Opens an empty attribute on the tag under construction.
    fn start_new_attribute(&mut self)
        ensures
            final(self)@ == (TokenizerView {
                latest_token: start_new_attribute_spec(old(self)@.latest_token),
                ..old(self)@
            }),
    {
        let t = self.latest_token.take();
        self.latest_token = match t {
            Some(HtmlToken::StartTag { tag, self_closing, mut attributes }) => {
                let ghost prev = attributes@;
                attributes.push(Attribute::new());
                proof {
                    lemma_attr_views_push(prev, attributes@[attributes@.len() - 1]);
                    assert(attr_views(attributes@) =~= attr_views(prev).push(
                        (Seq::empty(), Seq::empty()),
                    ));
                }
                Some(HtmlToken::StartTag { tag, self_closing, attributes })
            },
            other => other,
        };
    }

    /// Appends `c` to the newest attribute's name or value.
    fn append_attribute(&mut self, c: char, is_name: bool)
        ensures
            final(self)@ == (TokenizerView {
                latest_token: append_attribute_spec(old(self)@.latest_token, c, is_name),
                ..old(self)@
            }),
    {
        let t = self.latest_token.take();
        self.latest_token = match t {
            Some(HtmlToken::StartTag { tag, self_closing, mut attributes }) => {
                if attributes.len() > 0 {
                    let ghost prev = attributes@;
                    let mut a = match attributes.pop() {
                        Some(a) => a,
                        None => Attribute::new(),
                    };
                    a.add_char(c, is_name);
                    attributes.push(a);
                    proof {
                        lemma_attr_views_pop_push(prev, attributes@);
                    }
                }
                Some(HtmlToken::StartTag { tag, self_closing, attributes })
            },
            other => other,
        };
    }

    /// Raises the self-closing flag on the tag under construction.
    fn set_self_closing_flag(&mut self)
        ensures
            final(self)@ == (TokenizerView {
                latest_token: set_self_closing_spec(old(self)@.latest_token),
                ..old(self)@
            }),
    {
        let t = self.latest_token.take();
        self.latest_token = match t {
            Some(HtmlToken::StartTag { tag, self_closing, attributes }) => Some(
                HtmlToken::StartTag { tag, self_closing: true, attributes },
            ),
            other => other,
        };
    }

    /// Hands out the tag under construction.
    fn take_latest_token(&mut self) -> (t: Option<HtmlToken>)
        ensures
            opt_token_view(t) == old(self)@.latest_token,
            final(self)@ == (TokenizerView { latest_token: None, ..old(self)@ }),
    {
        self.latest_token.take()
    }

    /// Emits the tag under construction and picks the follow-up state; with
    /// none under construction, falls back to reading data.
    fn emit_tag(&mut self) -> (t: Option<HtmlToken>)
        ensures
            match t {
                Some(tok) => opt_token_view(Some(tok)) == old(self)@.latest_token && final(self)@ == (
                TokenizerView {
                    latest_token: None,
                    state: state_after_emit(token_view(tok)),
                    ..old(self)@
                }),
                None => old(self)@.latest_token is None && final(self)@ == (TokenizerView {
                    latest_token: None,
                    state: State::Data,
                    ..old(self)@
                }),
            },
    {
        let t = self.take_latest_token();
        match t {
            Some(tok) => {
                let raw_text = match &tok {
                    HtmlToken::StartTag { tag, .. } => str_eq(tag.as_str(), "script") || str_eq(
                        tag.as_str(),
                        "style",
                    ),
                    _ => false,
                };
                if raw_text {
                    self.state = State::ScriptData;
                } else {
                    self.state = State::Data;
                }
                Some(tok)
            },
            None => {
                self.state = State::Data;
                None
            },
        }
    }

    /// Produces the next token, or `None` once the stream has ended; does
    /// exactly what `spec_next` says.
    #[verifier::loop_isolation(false)]
    #[verifier::spinoff_prover]
    #[verifier::rlimit(100)]
    pub fn next(&mut self) -> (t: Option<HtmlToken>)
        requires
            old(self).wf(),
        ensures
            final(self).wf(),
            opt_token_view(t) == spec_next(old(self)@).0,
            final(self)@ == spec_next(old(self)@).1,
            t is Some ==> tk_measure(final(self)@) < tk_measure(old(self)@),
            t is None ==> final(self)@ == old(self)@,
    {
        proof {
            lemma_spec_next_measure(old(self)@);
        }
        if self.is_eof() {
            return None;
        }
        loop
            invariant
                self.wf(),
                self@.pos <= self@.input.len(),
                spec_next(self@) == spec_next(old(self)@),
            decreases tk_measure(self@),
        {
            let ghost m0 = self@;
            if !self.reconsume && self.pos == self.input.len() {
                self.pos = self.pos + 1;
                return Some(HtmlToken::EOF);
            }
            let c = if self.reconsume {
                self.reconsume_input()
            } else {
                self.consume_next_input()
            };
            match self.state {
                State::Data => {
                    if c == '<' {
                        self.state = State::TagOpen;
                    } else {
                        return Some(HtmlToken::Char(c));
                    }
                },
                State::TagOpen => {
                    if c == '/' {
                        self.state = State::EndTagOpen;
                    } else if alpha_char(c) {
                        self.reconsume = true;
                        self.state = State::TagName;
                        self.create_tag(true);
                    } else {
                        self.reconsume = true;
                        self.state = State::Data;
                        return Some(HtmlToken::Char('<'));
                    }
                },
                State::EndTagOpen => {
                    if alpha_char(c) {
                        self.reconsume = true;
                        self.state = State::TagName;
                        self.create_tag(false);
                    }
                },
                State::TagName => {
                    if space_char(c) {
                        self.state = State::BeforeAttributeName;
                    } else if c == '/' {
                        self.state = State::SelfClosingStartTag;
                    } else if c == '>' {
                        let t = self.emit_tag();
                        match t {
                            Some(tok) => {
                                return Some(tok);
                            },
                            None => {},
                        }
                    } else if upper_char(c) {
                        self.append_tag_name(to_lower(c));
                    } else {
                        self.append_tag_name(c);
                    }
                },
                State::BeforeAttributeName => {
                    if space_char(c) {
                    } else if c == '/' || c == '>' {
                        self.reconsume = true;
                        self.state = State::AfterAttributeName;
                    } else {
                        self.reconsume = true;
                        self.state = State::AttributeName;
                        self.start_new_attribute();
                    }
                },
                State::AttributeName => {
                    if space_char(c) || c == '/' || c == '>' {
                        self.reconsume = true;
                        self.state = State::AfterAttributeName;
                    } else if c == '=' {
                        self.state = State::BeforeAttributeValue;
                    } else if upper_char(c) {
                        self.append_attribute(to_lower(c), true);
                    } else {
                        self.append_attribute(c, true);
                    }
                },
                State::AfterAttributeName => {
                    if space_char(c) {
                    } else if c == '/' {
                        self.state = State::SelfClosingStartTag;
                    } else if c == '=' {
                        self.state = State::BeforeAttributeValue;
                    } else if c == '>' {
                        let t = self.emit_tag();
                        match t {
                            Some(tok) => {
                                return Some(tok);
                            },
                            None => {},
                        }
                    } else {
                        self.reconsume = true;
                        self.state = State::AttributeName;
                        self.start_new_attribute();
                    }
                },
                State::BeforeAttributeValue => {
                    if space_char(c) {
                    } else if c == '"' {
                        self.state = State::AttributeValueDoubleQuoted;
                    } else if c == '\'' {
                        self.state = State::AttributeValueSingleQuoted;
                    } else {
                        self.reconsume = true;
                        self.state = State::AttributeValueUnquoted;
                    }
                },
                State::AttributeValueDoubleQuoted => {
                    if c == '"' {
                        self.state = State::AfterAttributeValueQuoted;
                    } else {
                        self.append_attribute(c, false);
                    }
                },
                State::AttributeValueSingleQuoted => {
                    if c == '\'' {
                        self.state = State::AfterAttributeValueQuoted;
                    } else {
                        self.append_attribute(c, false);
                    }
                },
                State::AttributeValueUnquoted => {
                    if space_char(c) {
                        self.state = State::BeforeAttributeName;
                    } else if c == '>' {
                        let t = self.emit_tag();
                        match t {
                            Some(tok) => {
                                return Some(tok);
                            },
                            None => {},
                        }
                    } else {
                        self.append_attribute(c, false);
                    }
                },
                State::AfterAttributeValueQuoted => {
                    if space_char(c) {
                        self.state = State::BeforeAttributeName;
                    } else if c == '/' {
                        self.state = State::SelfClosingStartTag;
                    } else if c == '>' {
                        let t = self.emit_tag();
                        match t {
                            Some(tok) => {
                                return Some(tok);
                            },
                            None => {},
                        }
                    } else {
                        self.reconsume = true;
                        self.state = State::BeforeAttributeName;
                    }
                },
                State::SelfClosingStartTag => {
                    if c == '>' {
                        self.set_self_closing_flag();
                        let t = self.emit_tag();
                        match t {
                            Some(tok) => {
                                return Some(tok);
                            },
                            None => {},
                        }
                    } else {
                        self.reconsume = true;
                        self.state = State::BeforeAttributeName;
                    }
                },
                State::ScriptData => {
                    if c == '<' {
                        self.state = State::ScriptDataLessThanSign;
                    } else {
                        return Some(HtmlToken::Char(c));
                    }
                },
                State::ScriptDataLessThanSign => {
                    if c == '/' {
                        self.buf = Vec::new();
                        self.state = State::ScriptDataEndTagOpen;
                    } else {
                        self.reconsume = true;
                        self.state = State::ScriptData;
                        return Some(HtmlToken::Char('<'));
                    }
                },
                State::ScriptDataEndTagOpen => {
                    if alpha_char(c) {
                        self.reconsume = true;
                        self.state = State::ScriptDataEndTagName;
                        self.create_tag(false);
                    } else {
                        self.reconsume = true;
                        self.state = State::ScriptData;
                        return Some(HtmlToken::Char('<'));
                    }
                },
                State::ScriptDataEndTagName => {
                    if c == '>' {
                        let t = self.emit_tag();
                        match t {
                            Some(tok) => {
                                return Some(tok);
                            },
                            None => {},
                        }
                    } else if alpha_char(c) {
                        self.buf.push(c);
                        self.append_tag_name(to_lower(c));
                    } else {
                        let mut nb: Vec<char> = Vec::new();
                        nb.push('<');
                        nb.push('/');
                        let ghost before = self.buf@;
                        nb.append(&mut self.buf);
                        self.buf = nb;
                        proof {
                            assert(self.buf@ =~= seq!['<', '/'] + before);
                        }
                        self.reconsume = true;
                        self.state = State::TemporaryBuffer;
                    }
                },
                State::TemporaryBuffer => {
                    self.reconsume = true;
                    if self.buf.len() == 0 {
                        self.state = State::ScriptData;
                    } else {
                        let ch = self.buf.remove(0);
                        proof {
                            assert(self.buf@ =~= m0.buf.drop_first());
                        }
                        return Some(HtmlToken::Char(ch));
                    }
                },
            }
            proof {
                assert(spec_next(m0) == spec_next(self@));
            }
        }
    }
}

proof fn lemma_attr_views_push(v: Seq<Attribute>, a: Attribute)
    ensures
        attr_views(v.push(a)) =~= attr_views(v).push((a.name@, a.value@)),
{
    assert forall|j: int| 0 <= j < v.len() + 1 implies attr_views(v.push(a))[j] == attr_views(
        v,
    ).push((a.name@, a.value@))[j] by {
        if j < v.len() {
            assert(v.push(a)[j] == v[j]);
        } else {
            assert(v.push(a)[j] == a);
        }
    }
}

proof fn lemma_attr_views_pop_push(pre: Seq<Attribute>, post: Seq<Attribute>)
    requires
        pre.len() > 0,
        post.len() == pre.len(),
        forall|j: int| 0 <= j < pre.len() - 1 ==> post[j] == pre[j],
    ensures
        attr_views(post) =~= attr_views(pre).update(
            pre.len() - 1,
            (post[post.len() - 1].name@, post[post.len() - 1].value@),
        ),
{
    assert forall|j: int| 0 <= j < pre.len() implies attr_views(post)[j] == attr_views(pre).update(
        pre.len() - 1,
        (post[post.len() - 1].name@, post[post.len() - 1].value@),
    )[j] by {
        if j < pre.len() - 1 {
            assert(post[j] == pre[j]);
        }
    }
}

} // verus!
