//! Markup tokenizer, tree builder, and tree queries.
//!
//! The tokenizer turns a character stream into structural tokens with
//! single-character error recovery; the tree builder consumes the token
//! stream with an explicit open-element stack and never fails, whatever the
//! input. Queries (by id, class, tag, data attribute) and text extraction
//! walk the resulting tree.

use vstd::prelude::*;
use vstd::string::StringExecFns;

use crate::dom::{
    lemma_nodes_view_index, lemma_nodes_view_len, lemma_nodes_view_push, nodes_view, GNode, Node,
};
use crate::text::{
    chars_eq, chars_to_string, find_char, find_from, find_seq, find_seq_from, is_ws,
    lemma_find_from, lemma_find_seq_from, lemma_skip_ws, skip_whitespace, skip_ws,
    split_whitespace_chars, split_ws_from, starts_with_at, starts_with_chars, str_to_chars,
    string_eq_str, string_starts_with, sub_chars, sub_string,
};

verus! {

/// A structural markup token.
#[derive(Debug, PartialEq, Clone)]
pub enum Token {
    /// A start tag (e.g., `<div>`), with its attribute pairs.
    StartTag(String, Vec<(String, String)>),
    /// An end tag (e.g., `</div>`).
    EndTag(String),
    /// Text content.
    Text(String),
    /// A comment (e.g., `<!-- note -->`).
    Comment(String),
    /// A doctype declaration, kept verbatim.
    Doctype(String),
    /// A recovery token for input on which no other token could make
    /// progress; one character is skipped.
    Error(String),
}

/// The mathematical model of a [`Token`].
#[verifier::ext_equal]
pub enum GToken {
    StartTag(Seq<char>, Seq<(Seq<char>, Seq<char>)>),
    EndTag(Seq<char>),
    Text(Seq<char>),
    Comment(Seq<char>),
    Doctype(Seq<char>),
    Error(Seq<char>),
}

impl View for Token {
    type V = GToken;

    open spec fn view(&self) -> GToken {
        match self {
            Token::StartTag(n, a) => GToken::StartTag(n@, a.deep_view()),
            Token::EndTag(n) => GToken::EndTag(n@),
            Token::Text(t) => GToken::Text(t@),
            Token::Comment(t) => GToken::Comment(t@),
            Token::Doctype(t) => GToken::Doctype(t@),
            Token::Error(t) => GToken::Error(t@),
        }
    }
}

impl DeepView for Token {
    type V = GToken;

    open spec fn deep_view(&self) -> GToken {
        self.view()
    }
}

/// Strips a surrounding quote pair (double or single) from an attribute
/// value, as the tokenizer does.
pub open spec fn unquote(v: Seq<char>) -> Seq<char> {
    if v.len() >= 1 && (v[0] == '"' || v[0] == '\'') {
        if v.len() >= 2 {
            v.subrange(1, v.len() - 1)
        } else {
            Seq::empty()
        }
    } else {
        v
    }
}

/// Splits one whitespace-free `name=value` part into an attribute pair:
/// the name is everything before the first `=`, the value everything
/// between the first and second `=` (or the rest), with quotes stripped.
pub open spec fn attr_of_part(part: Seq<char>) -> (Seq<char>, Seq<char>) {
    match find_from(part, 0, '=') {
        Option::None => (part, Seq::empty()),
        Option::Some(e1) => {
            let raw = match find_from(part, e1 + 1, '=') {
                Option::None => part.subrange(e1 + 1, part.len() as int),
                Option::Some(e2) => part.subrange(e1 + 1, e2),
            };
            (part.subrange(0, e1), unquote(raw))
        },
    }
}

/// The attribute pairs of a start tag whose inside (between `<` and `>`)
/// splits on whitespace into `parts`; the first part is the tag name.
pub open spec fn attrs_of_parts(parts: Seq<Seq<char>>) -> Seq<(Seq<char>, Seq<char>)> {
    parts.subrange(1, parts.len() as int).map_values(|p: Seq<char>| attr_of_part(p))
}

/// One step of the tokenizer at position `pos0` of `s`: the token found (or
/// none, ending the stream) and the position after it. The priority order
/// is: skip whitespace, doctype, comment, end tag, start tag, text; if no
/// text either, one character is skipped and an error token is emitted.
/// An unterminated doctype, comment or tag ends the stream early.
pub open spec fn spec_next(s: Seq<char>, pos0: int) -> (Option<GToken>, int) {
    if pos0 < 0 || pos0 >= s.len() {
        (Option::None, pos0)
    } else {
        let p = skip_ws(s, pos0);
        if starts_with_at(s, p, "<!DOCTYPE"@) {
            match find_from(s, p, '>') {
                Option::None => (Option::None, p),
                Option::Some(e) => (Option::Some(GToken::Doctype(s.subrange(p, e + 1))), e + 1),
            }
        } else if starts_with_at(s, p, "<!--"@) {
            match find_seq_from(s, p, "-->"@) {
                Option::None => (Option::None, p),
                Option::Some(e) => {
                    let text = if e >= p + 4 {
                        s.subrange(p + 4, e)
                    } else {
                        Seq::empty()
                    };
                    (Option::Some(GToken::Comment(text)), e + 3)
                },
            }
        } else if p < s.len() && s[p] == '<' {
            if p + 1 < s.len() && s[p + 1] == '/' {
                match find_from(s, p + 2, '>') {
                    Option::None => (Option::None, p),
                    Option::Some(e) => (Option::Some(GToken::EndTag(s.subrange(p + 2, e))), e + 1),
                }
            } else {
                match find_from(s, p + 1, '>') {
                    Option::None => (Option::None, p),
                    Option::Some(e) => {
                        let parts = split_ws_from(s.subrange(p + 1, e), 0);
                        if parts.len() > 0 {
                            (
                                Option::Some(GToken::StartTag(parts[0], attrs_of_parts(parts))),
                                e + 1,
                            )
                        } else {
                            spec_text_step(s, e + 1)
                        }
                    },
                }
            }
        } else {
            spec_text_step(s, p)
        }
    }
}

/// The text branch of the tokenizer: text up to the next `<`, or, when that
/// text would be empty, a one-character skip with an error token.
pub open spec fn spec_text_step(s: Seq<char>, q: int) -> (Option<GToken>, int) {
    let tend = match find_from(s, q, '<') {
        Option::None => s.len() as int,
        Option::Some(t) => t,
    };
    if tend == q {
        (Option::Some(GToken::Error("Malformed HTML"@)), q + 1)
    } else {
        (Option::Some(GToken::Text(s.subrange(q, tend))), tend)
    }
}

/// Every emitted token advances the position, and never beyond one past the
/// end of the input.
pub proof fn lemma_spec_next_progress(s: Seq<char>, pos: int)
    requires
        0 <= pos,
    ensures
        ({
            let (t, p) = spec_next(s, pos);
            &&& t is Some ==> pos < p <= s.len() + 1
            &&& t is None ==> pos <= p
        }),
{
    if pos >= s.len() {
    } else {
        lemma_skip_ws(s, pos);
        reveal_strlit("-->");
        let p = skip_ws(s, pos);
        lemma_find_from(s, p, '>');
        lemma_find_seq_from(s, p, "-->"@);
        lemma_find_from(s, p + 2, '>');
        lemma_find_from(s, p + 1, '>');
        lemma_find_from(s, p, '<');
        if starts_with_at(s, p, "<!DOCTYPE"@) {
        } else if starts_with_at(s, p, "<!--"@) {
        } else if p < s.len() && s[p] == '<' {
            if p + 1 < s.len() && s[p + 1] == '/' {
            } else {
                match find_from(s, p + 1, '>') {
                    Option::None => {},
                    Option::Some(e) => {
                        lemma_find_from(s, e + 1, '<');
                    },
                }
            }
        }
    }
}

/// Once the tokenizer answers nothing, it answers nothing at its new
/// position too: the stream has ended.
pub proof fn lemma_spec_next_none_stable(s: Seq<char>, pos: int)
    requires
        0 <= pos,
        spec_next(s, pos).0 is None,
    ensures
        spec_next(s, spec_next(s, pos).1).0 is None,
        spec_next(s, spec_next(s, pos).1).1 == spec_next(s, pos).1,
{
    if pos >= s.len() {
    } else {
        lemma_skip_ws(s, pos);
        let p = skip_ws(s, pos);
        if p < s.len() {
            assert(!is_ws(s[p]));
            assert(skip_ws(s, p) == p);
        }
    }
}

/// The sequence of tokens from position `pos` to the end of the stream.
pub open spec fn spec_tokens(s: Seq<char>, pos: int) -> Seq<GToken>
    decreases s.len() + 2 - pos,
    via spec_tokens_dec
{
    if pos < 0 {
        Seq::empty()
    } else {
        let (t, p) = spec_next(s, pos);
        match t {
            Option::None => Seq::empty(),
            Option::Some(tok) => seq![tok] + spec_tokens(s, p),
        }
    }
}

#[via_fn]
proof fn spec_tokens_dec(s: Seq<char>, pos: int) {
    if pos >= 0 {
        lemma_spec_next_progress(s, pos);
    }
}

/// A lazy tokenizer over a character buffer.
pub struct HTMLTokenizer {
    input: Vec<char>,
    position: usize,
    current_token: Option<Token>,
}

impl HTMLTokenizer {
    /// The characters being tokenized.
    pub closed spec fn src(&self) -> Seq<char> {
        self.input@
    }

    /// The current position of the tokenizer.
    pub closed spec fn pos(&self) -> int {
        self.position as int
    }

    /// The tokenizer's validity: the position stays within one past the end
    /// of the input, which itself leaves room for that one extra step.
    pub closed spec fn wf(&self) -> bool {
        &&& self.input@.len() < usize::MAX
        &&& self.position <= self.input@.len() + 1
    }

    /// Creates a tokenizer over the characters of `input`; the input must
    /// leave one position of headroom below the address-space bound, a
    /// machine limit of the cursor.
    pub fn new(input: &str) -> (r: HTMLTokenizer)
        requires
            input@.len() < usize::MAX,
        ensures
            r.src() == input@,
            r.pos() == 0,
            r.wf(),
    {
        HTMLTokenizer { input: str_to_chars(input), position: 0, current_token: Option::None }
    }

    /// Advances to and returns the next token, as [`spec_next`] describes.
    pub fn next_token(&mut self) -> (r: Option<Token>)
        requires
            old(self).wf(),
        ensures
            final(self).wf(),
            final(self).src() == old(self).src(),
            ({
                let (t, p) = spec_next(old(self).src(), old(self).pos());
                &&& final(self).pos() == p
                &&& r.deep_view() == t
            }),
    {
        let t = self.tokenize();
        self.current_token = t.clone();
        t
    }

    /// One tokenizing step with error recovery.
    fn tokenize(&mut self) -> (r: Option<Token>)
        requires
            old(self).wf(),
        ensures
            final(self).wf(),
            final(self).src() == old(self).src(),
            ({
                let (t, p) = spec_next(old(self).src(), old(self).pos());
                &&& final(self).pos() == p
                &&& r.deep_view() == t
            }),
    {
        let n: usize = self.input.len();
        if self.position >= n {
            return Option::None;
        }
        let p = skip_whitespace(&self.input, self.position);
        self.position = p;

        // Doctype.
        let doct = str_to_chars("<!DOCTYPE");
        if starts_with_chars(&self.input, p, &doct) {
            proof {
                lemma_find_from(self.input@, p as int, '>');
            }
            match find_char(&self.input, p, '>') {
                Option::None => {
                    return Option::None;
                },
                Option::Some(e) => {
                    let text = sub_string(&self.input, p, e + 1);
                    self.position = e + 1;
                    return Option::Some(Token::Doctype(text));
                },
            }
        }

        // Comment.
        let copen = str_to_chars("<!--");
        let cclose = str_to_chars("-->");
        if starts_with_chars(&self.input, p, &copen) {
            proof {
                lemma_find_seq_from(self.input@, p as int, "-->"@);
                reveal_strlit("-->");
            }
            match find_seq(&self.input, p, &cclose) {
                Option::None => {
                    return Option::None;
                },
                Option::Some(e) => {
                    let text = if e - p >= 4 {
                        sub_string(&self.input, p + 4, e)
                    } else {
                        String::new()
                    };
                    self.position = e + 3;
                    return Option::Some(Token::Comment(text));
                },
            }
        }

        // Tags.
        if p < n && self.input[p] == '<' {
            if p + 1 < n && self.input[p + 1] == '/' {
                proof {
                    lemma_find_from(self.input@, p + 2, '>');
                }
                match find_char(&self.input, p + 2, '>') {
                    Option::None => {
                        return Option::None;
                    },
                    Option::Some(e) => {
                        let name = sub_string(&self.input, p + 2, e);
                        self.position = e + 1;
                        return Option::Some(Token::EndTag(name));
                    },
                }
            } else {
                proof {
                    lemma_find_from(self.input@, p + 1, '>');
                }
                match find_char(&self.input, p + 1, '>') {
                    Option::None => {
                        return Option::None;
                    },
                    Option::Some(e) => {
                        let content = sub_chars(&self.input, p + 1, e);
                        let parts = split_whitespace_chars(&content, 0);
                        self.position = e + 1;
                        if parts.len() > 0 {
                            let name = chars_to_string(&parts[0]);
                            let ghost parts_view = parts.deep_view();
                            let mut attrs: Vec<(String, String)> = Vec::new();
                            let mut i: usize = 1;
                            proof {
                                assert(attrs.deep_view() =~~= attrs_of_parts(parts_view).take(0));
                            }
                            while i < parts.len()
                                invariant
                                    1 <= i <= parts@.len(),
                                    parts@.len() <= usize::MAX,
                                    parts.deep_view() == parts_view,
                                    parts_view.len() == parts@.len(),
                                    attrs.deep_view() == attrs_of_parts(parts_view).take(
                                        i - 1 as int,
                                    ),
                                decreases parts@.len() - i,
                            {
                                let pair = attr_of_part_exec(&parts[i]);
                                proof {
                                    assert(attrs_of_parts(parts_view).len() == parts_view.len()
                                        - 1);
                                    assert(attrs.deep_view().len() == i - 1);
                                    assert(attrs@.len() == i - 1);
                                }
                                attrs.push(pair);
                                proof {
                                    assert(parts_view[i as int] =~= parts@[i as int]@);
                                    assert(pair.deep_view() == (pair.0@, pair.1@));
                                    assert(pair.deep_view() == attr_of_part(parts@[i as int]@));
                                    assert(attrs@[i - 1] == pair);
                                    assert(attrs.deep_view()[i - 1] == attr_of_part(
                                        parts_view[i as int],
                                    ));
                                    assert(attrs.deep_view() =~= attrs_of_parts(parts_view).take(
                                        i as int,
                                    ));
                                }
                                i = i + 1;
                            }
                            proof {
                                assert(attrs.deep_view() =~= attrs_of_parts(parts_view));
                                assert(parts_view[0] =~= parts@[0]@);
                            }
                            return Option::Some(Token::StartTag(name, attrs));
                        }
                    },
                }
            }
        }

        // Text, or a one-character recovery step.
        let q = self.position;
        proof {
            lemma_find_from(self.input@, q as int, '<');
        }
        let tend = match find_char(&self.input, q, '<') {
            Option::None => n,
            Option::Some(t) => t,
        };
        if tend == q {
            self.position = q + 1;
            Option::Some(Token::Error(String::from_str("Malformed HTML")))
        } else {
            let text = sub_string(&self.input, q, tend);
            self.position = tend;
            Option::Some(Token::Text(text))
        }
    }
}

/// Errors of markup parsing and tree traversal. The parser recovers from
/// every malformed input, so its entry points in fact always succeed; the
/// type remains for callers that match on failures.
#[derive(Debug, PartialEq)]
pub enum HTMLError {
    /// A failure of the parsing process.
    ParseError(String),
    /// An error during tree traversal.
    DOMError(String),
}

/// An open element of the tree builder's stack: its tag name, attributes,
/// and the children collected so far.
struct Frame {
    name: String,
    attributes: Vec<(String, String)>,
    children: Vec<Node>,
}

/// The mathematical model of a [`Frame`].
#[verifier::ext_equal]
pub struct GFrame {
    pub name: Seq<char>,
    pub attrs: Seq<(Seq<char>, Seq<char>)>,
    pub children: Seq<GNode>,
}

impl View for Frame {
    type V = GFrame;

    closed spec fn view(&self) -> GFrame {
        GFrame {
            name: self.name@,
            attrs: self.attributes.deep_view(),
            children: nodes_view(self.children@),
        }
    }
}

impl DeepView for Frame {
    type V = GFrame;

    open spec fn deep_view(&self) -> GFrame {
        self.view()
    }
}

/// The element a finished frame stands for.
pub open spec fn gframe_elem(f: GFrame) -> GNode {
    GNode::Element { name: f.name, attrs: f.attrs, children: f.children }
}

/// The builder's initial stack: one open synthetic root element.
pub open spec fn init_frames() -> Seq<GFrame> {
    seq![GFrame { name: "html"@, attrs: Seq::empty(), children: Seq::empty() }]
}

/// Appends a finished node to the children of the innermost open element.
pub open spec fn push_child(st: Seq<GFrame>, n: GNode) -> Seq<GFrame>
    recommends
        st.len() >= 1,
{
    st.update(
        st.len() - 1,
        GFrame {
            name: st.last().name,
            attrs: st.last().attrs,
            children: st.last().children.push(n),
        },
    )
}

/// One builder step: a start tag opens an element, an end tag closes the
/// innermost one (ignored at the root — over-closing never corrupts the
/// stack), leaves attach to the innermost open element, and error tokens
/// are skipped.
pub open spec fn build_step(st: Seq<GFrame>, t: GToken) -> Seq<GFrame>
    recommends
        st.len() >= 1,
{
    match t {
        GToken::StartTag(n, a) => st.push(GFrame { name: n, attrs: a, children: Seq::empty() }),
        GToken::EndTag(_) => if st.len() > 1 {
            push_child(st.drop_last(), gframe_elem(st.last()))
        } else {
            st
        },
        GToken::Text(s) => push_child(st, GNode::Text { content: s }),
        GToken::Comment(s) => push_child(st, GNode::Comment { content: s }),
        GToken::Doctype(s) => push_child(st, GNode::Doctype { name: s }),
        GToken::Error(_) => st,
    }
}

/// Folds the whole token sequence over the builder steps.
pub open spec fn build_frames(ts: Seq<GToken>, st: Seq<GFrame>) -> Seq<GFrame>
    decreases ts.len(),
{
    if ts.len() == 0 {
        st
    } else {
        build_frames(ts.drop_first(), build_step(st, ts[0]))
    }
}

/// Closes every element still open at the end of input, so unclosed
/// elements end up as the deepest-nested children.
pub open spec fn collapse_frames(st: Seq<GFrame>) -> GFrame
    decreases st.len(),
{
    if st.len() == 0 {
        GFrame { name: "html"@, attrs: Seq::empty(), children: Seq::empty() }
    } else if st.len() == 1 {
        st[0]
    } else {
        collapse_frames(push_child(st.drop_last(), gframe_elem(st.last())))
    }
}

/// The tree built from a token sequence: the synthetic root element at the
/// stack's bottom, owning everything the tokens opened or wrote.
pub open spec fn spec_build(ts: Seq<GToken>) -> GNode {
    gframe_elem(collapse_frames(build_frames(ts, init_frames())))
}

/// The tree parsed from a character sequence: tokenize, then build.
pub open spec fn spec_parse_doc(s: Seq<char>) -> GNode {
    spec_build(spec_tokens(s, 0))
}

/// Pops the innermost open frame; the stack is never empty.
fn pop_frame(stack: &mut Vec<Frame>) -> (r: Frame)
    requires
        old(stack)@.len() >= 1,
    ensures
        final(stack)@ == old(stack)@.drop_last(),
        r == old(stack)@.last(),
{
    match stack.pop() {
        Option::Some(f) => f,
        Option::None => {
            proof {
                assert(false);
            }
            Frame { name: String::new(), attributes: Vec::new(), children: Vec::new() }
        },
    }
}

/// The markup parser: parses a string into a document tree, with error
/// recovery on any malformed input.
pub struct HTMLParser;

impl HTMLParser {
    /// Creates a parser.
    pub fn new() -> (r: HTMLParser) {
        HTMLParser
    }

    /// Parses markup into the root node of a document tree. Parsing
    /// recovers from every malformed input, so the result is always `Ok`,
    /// and holds exactly the tree that [`spec_parse_doc`] describes. The
    /// input must leave one position of headroom below the address-space
    /// bound, a machine limit of the tokenizer's cursor.
    pub fn parse(&self, html: &str) -> (r: Result<Node, HTMLError>)
        requires
            html@.len() < usize::MAX,
        ensures
            r matches Ok(n) && n@ == spec_parse_doc(html@),
    {
        let mut tokens = HTMLTokenizer::new(html);
        self.build_dom(&mut tokens)
    }

    /// Consumes the tokenizer and builds a document tree with an explicit
    /// open-element stack whose bottom is the returned synthetic root;
    /// over-closing is ignored and unterminated elements are closed at end
    /// of input, so building always succeeds.
    pub fn build_dom(&self, tokens: &mut HTMLTokenizer) -> (r: Result<Node, HTMLError>)
        requires
            old(tokens).wf(),
        ensures
            final(tokens).wf(),
            r matches Ok(n) && n@ == spec_build(spec_tokens(old(tokens).src(), old(tokens).pos())),
    {
        let ghost src = tokens.src();
        let ghost all = spec_tokens(src, tokens.pos());
        let mut stack: Vec<Frame> = Vec::new();
        stack.push(
            Frame { name: String::from_str("html"), attributes: Vec::new(), children: Vec::new() },
        );
        proof {
            assert(stack.deep_view() =~~= init_frames());
        }
        let mut done = false;
        while !done
            invariant
                tokens.wf(),
                tokens.src() == src,
                stack@.len() >= 1,
                build_frames(spec_tokens(src, tokens.pos()), stack.deep_view()) == build_frames(
                    all,
                    init_frames(),
                ),
                done ==> spec_tokens(src, tokens.pos()).len() == 0,
            decreases src.len() + 2 - tokens.pos() + (if done {
                0int
            } else {
                1int
            }),
        {
            let ghost pos0 = tokens.pos();
            let ghost rem = spec_tokens(src, pos0);
            proof {
                lemma_spec_next_progress(src, pos0);
            }
            let t = tokens.next_token();
            match t {
                Option::None => {
                    proof {
                        lemma_spec_next_none_stable(src, pos0);
                        assert(spec_tokens(src, tokens.pos()).len() == 0);
                        assert(spec_tokens(src, pos0).len() == 0);
                    }
                    done = true;
                },
                Option::Some(tok) => {
                    proof {
                        assert(rem == seq![tok@] + spec_tokens(src, tokens.pos()));
                        assert(rem.drop_first() =~= spec_tokens(src, tokens.pos()));
                        assert(rem[0] == tok@);
                        assert(build_frames(rem, stack.deep_view()) == build_frames(
                            spec_tokens(src, tokens.pos()),
                            build_step(stack.deep_view(), tok@),
                        ));
                    }
                    let ghost st0 = stack.deep_view();
                    match tok {
                        Token::StartTag(name, attrs) => {
                            stack.push(Frame { name, attributes: attrs, children: Vec::new() });
                            proof {
                                assert(stack.deep_view() =~~= build_step(
                                    st0,
                                    GToken::StartTag(name@, attrs.deep_view()),
                                ));
                            }
                        },
                        Token::EndTag(_) => {
                            if stack.len() > 1 {
                                let child = pop_frame(&mut stack);
                                let elem = match child {
                                    Frame { name, attributes, children } => Node::Element {
                                        name,
                                        attributes,
                                        children,
                                    },
                                };
                                let mut parent = pop_frame(&mut stack);
                                let ghost pc = parent.children@;
                                parent.children.push(elem);
                                proof {
                                    lemma_nodes_view_push(pc, elem);
                                }
                                stack.push(parent);
                                proof {
                                    assert(stack.deep_view() =~~= build_step(st0, tok@));
                                }
                            }
                        },
                        Token::Text(text) => {
                            let mut top = pop_frame(&mut stack);
                            let ghost tc = top.children@;
                            let leaf = Node::Text { content: text };
                            top.children.push(leaf);
                            proof {
                                lemma_nodes_view_push(tc, leaf);
                            }
                            stack.push(top);
                            proof {
                                assert(stack.deep_view() =~~= build_step(st0, tok@));
                            }
                        },
                        Token::Comment(text) => {
                            let mut top = pop_frame(&mut stack);
                            let ghost tc = top.children@;
                            let leaf = Node::Comment { content: text };
                            top.children.push(leaf);
                            proof {
                                lemma_nodes_view_push(tc, leaf);
                            }
                            stack.push(top);
                            proof {
                                assert(stack.deep_view() =~~= build_step(st0, tok@));
                            }
                        },
                        Token::Doctype(text) => {
                            let mut top = pop_frame(&mut stack);
                            let ghost tc = top.children@;
                            let leaf = Node::Doctype { name: text };
                            top.children.push(leaf);
                            proof {
                                lemma_nodes_view_push(tc, leaf);
                            }
                            stack.push(top);
                            proof {
                                assert(stack.deep_view() =~~= build_step(st0, tok@));
                            }
                        },
                        Token::Error(_) => {
                            proof {
                                assert(stack.deep_view() =~~= build_step(st0, tok@));
                            }
                        },
                    }
                },
            }
        }
        // Close whatever is still open.
        while stack.len() > 1
            invariant
                stack@.len() >= 1,
                collapse_frames(stack.deep_view()) == collapse_frames(
                    build_frames(all, init_frames()),
                ),
            decreases stack@.len(),
        {
            let ghost st0 = stack.deep_view();
            let child = match stack.pop() {
                Option::Some(f) => f,
                Option::None => {
                    proof {
                        assert(false);
                    }
                    Frame { name: String::new(), attributes: Vec::new(), children: Vec::new() }
                },
            };
            let elem = match child {
                Frame { name, attributes, children } => Node::Element {
                    name,
                    attributes,
                    children,
                },
            };
            let mut parent = match stack.pop() {
                Option::Some(f) => f,
                Option::None => {
                    proof {
                        assert(false);
                    }
                    Frame { name: String::new(), attributes: Vec::new(), children: Vec::new() }
                },
            };
            let ghost pc = parent.children@;
            parent.children.push(elem);
            proof {
                lemma_nodes_view_push(pc, elem);
            }
            stack.push(parent);
            proof {
                assert(stack.deep_view() =~~= push_child(st0.drop_last(), gframe_elem(st0.last())));
            }
        }
        let root_frame = pop_frame(&mut stack);
        let ghost groot = gframe_elem(collapse_frames(build_frames(all, init_frames())));
        let root = match root_frame {
            Frame { name, attributes, children } => Node::Element { name, attributes, children },
        };
        proof {
            assert(root@ =~~= groot);
        }
        Ok(root)
    }
}

/// Executable attribute-pair split, mirroring [`attr_of_part`].
fn attr_of_part_exec(part: &Vec<char>) -> (r: (String, String))
    ensures
        (r.0@, r.1@) == attr_of_part(part@),
{
    proof {
        lemma_find_from(part@, 0, '=');
    }
    match find_char(part, 0, '=') {
        Option::None => {
            let name = sub_string(part, 0, part.len());
            proof {
                assert(name@ =~= part@);
            }
            (name, String::new())
        },
        Option::Some(e1) => {
            let pn: usize = part.len();
            proof {
                lemma_find_from(part@, e1 + 1, '=');
            }
            let name = sub_string(part, 0, e1);
            let raw = match find_char(part, e1 + 1, '=') {
                Option::None => sub_chars(part, e1 + 1, pn),
                Option::Some(e2) => sub_chars(part, e1 + 1, e2),
            };
            let value = if raw.len() >= 1 && (raw[0] == '"' || raw[0] == '\'') {
                if raw.len() >= 2 {
                    sub_string(&raw, 1, raw.len() - 1)
                } else {
                    String::new()
                }
            } else {
                chars_to_string(&raw)
            };
            (name, value)
        },
    }
}


/// Whether the attribute list holds a pair `(name, value)`.
pub open spec fn has_attr(attrs: Seq<(Seq<char>, Seq<char>)>, name: Seq<char>, value: Seq<char>) -> bool {
    exists|k: int| 0 <= k < attrs.len() && attrs[k].0 == name && attrs[k].1 == value
}

/// Whether some `class` attribute's whitespace-split value list holds
/// `cls`.
pub open spec fn class_attr_match(attrs: Seq<(Seq<char>, Seq<char>)>, cls: Seq<char>) -> bool {
    exists|k: int|
        0 <= k < attrs.len() && attrs[k].0 == "class"@ && split_ws_from(attrs[k].1, 0).contains(
            cls,
        )
}

/// The first element in document order (the node itself first, then its
/// children left to right) whose `id` attribute equals `id`.
pub open spec fn find_by_id(g: GNode, id: Seq<char>) -> Option<GNode>
    decreases g,
{
    match g {
        GNode::Element { attrs, children, .. } => {
            if has_attr(attrs, "id"@, id) {
                Option::Some(g)
            } else {
                find_by_id_seq(children, id)
            }
        },
        _ => Option::None,
    }
}

pub open spec fn find_by_id_seq(s: Seq<GNode>, id: Seq<char>) -> Option<GNode>
    decreases s,
{
    if s.len() == 0 {
        Option::None
    } else {
        match find_by_id(s[0], id) {
            Option::Some(e) => Option::Some(e),
            Option::None => find_by_id_seq(s.drop_first(), id),
        }
    }
}

/// All elements, in document order, whose `class` attribute lists `cls`.
pub open spec fn by_class(g: GNode, cls: Seq<char>) -> Seq<GNode>
    decreases g,
{
    match g {
        GNode::Element { attrs, children, .. } => (if class_attr_match(attrs, cls) {
            seq![g]
        } else {
            Seq::empty()
        }) + by_class_seq(children, cls),
        _ => Seq::empty(),
    }
}

pub open spec fn by_class_seq(s: Seq<GNode>, cls: Seq<char>) -> Seq<GNode>
    decreases s,
{
    if s.len() == 0 {
        Seq::empty()
    } else {
        by_class(s[0], cls) + by_class_seq(s.drop_first(), cls)
    }
}

/// All elements, in document order, whose tag name equals `tag`.
pub open spec fn by_tag(g: GNode, tag: Seq<char>) -> Seq<GNode>
    decreases g,
{
    match g {
        GNode::Element { name, children, .. } => (if name == tag {
            seq![g]
        } else {
            Seq::empty()
        }) + by_tag_seq(children, tag),
        _ => Seq::empty(),
    }
}

pub open spec fn by_tag_seq(s: Seq<GNode>, tag: Seq<char>) -> Seq<GNode>
    decreases s,
{
    if s.len() == 0 {
        Seq::empty()
    } else {
        by_tag(s[0], tag) + by_tag_seq(s.drop_first(), tag)
    }
}

/// Whether the attribute list holds a `data-` attribute with the given name
/// and value; names not beginning with `data-` never match.
pub open spec fn data_attr_match(
    attrs: Seq<(Seq<char>, Seq<char>)>,
    name: Seq<char>,
    value: Seq<char>,
) -> bool {
    exists|k: int|
        0 <= k < attrs.len() && starts_with_at(attrs[k].0, 0, "data-"@) && attrs[k].0 == name
            && attrs[k].1 == value
}

/// All elements, in document order, with a matching data attribute.
pub open spec fn by_data(g: GNode, name: Seq<char>, value: Seq<char>) -> Seq<GNode>
    decreases g,
{
    match g {
        GNode::Element { attrs, children, .. } => (if data_attr_match(attrs, name, value) {
            seq![g]
        } else {
            Seq::empty()
        }) + by_data_seq(children, name, value),
        _ => Seq::empty(),
    }
}

pub open spec fn by_data_seq(s: Seq<GNode>, name: Seq<char>, value: Seq<char>) -> Seq<GNode>
    decreases s,
{
    if s.len() == 0 {
        Seq::empty()
    } else {
        by_data(s[0], name, value) + by_data_seq(s.drop_first(), name, value)
    }
}

/// The concatenation of all text content under a node, in document order.
pub open spec fn text_of(g: GNode) -> Seq<char>
    decreases g,
{
    match g {
        GNode::Text { content } => content,
        GNode::Element { children, .. } => text_of_seq(children),
        _ => Seq::empty(),
    }
}

pub open spec fn text_of_seq(s: Seq<GNode>) -> Seq<char>
    decreases s,
{
    if s.len() == 0 {
        Seq::empty()
    } else {
        text_of(s[0]) + text_of_seq(s.drop_first())
    }
}


/// Executable scan for an attribute pair, mirroring [`has_attr`].
pub(crate) fn attrs_has(attrs: &Vec<(String, String)>, name: &str, value: &str) -> (r: bool)
    ensures
        r == has_attr(attrs.deep_view(), name@, value@),
{
    let n: usize = attrs.len();
    let mut k: usize = 0;
    while k < n
        invariant
            0 <= k <= n,
            n == attrs@.len(),
            forall|j: int|
                0 <= j < k ==> !(attrs.deep_view()[j].0 == name@ && attrs.deep_view()[j].1
                    == value@),
        decreases n - k,
    {
        if string_eq_str(&attrs[k].0, name) && string_eq_str(&attrs[k].1, value) {
            proof {
                assert(attrs.deep_view()[k as int].0 == name@);
                assert(attrs.deep_view()[k as int].1 == value@);
            }
            return true;
        }
        k = k + 1;
    }
    false
}

/// Executable scan for a class among the whitespace-split values of the
/// `class` attributes, mirroring [`class_attr_match`].
pub(crate) fn attrs_class_match(attrs: &Vec<(String, String)>, cls: &str) -> (r: bool)
    ensures
        r == class_attr_match(attrs.deep_view(), cls@),
{
    let clsv = str_to_chars(cls);
    let n: usize = attrs.len();
    let mut k: usize = 0;
    while k < n
        invariant
            0 <= k <= n,
            n == attrs@.len(),
            clsv@ == cls@,
            forall|j: int|
                0 <= j < k ==> !(attrs.deep_view()[j].0 == "class"@ && split_ws_from(
                    attrs.deep_view()[j].1,
                    0,
                ).contains(cls@)),
        decreases n - k,
    {
        if string_eq_str(&attrs[k].0, "class") {
            let vchars = str_to_chars(attrs[k].1.as_str());
            let pieces = split_whitespace_chars(&vchars, 0);
            let ghost pieces_view = pieces.deep_view();
            proof {
                assert(attrs.deep_view()[k as int] == (attrs@[k as int].0@, attrs@[k as int].1@));
            }
            let m: usize = pieces.len();
            let mut j: usize = 0;
            while j < m
                invariant
                    0 <= j <= m,
                    m == pieces@.len(),
                    0 <= k < attrs@.len(),
                    pieces.deep_view() == pieces_view,
                    pieces_view.len() == pieces@.len(),
                    pieces_view == split_ws_from(vchars@, 0),
                    clsv@ == cls@,
                    attrs.deep_view()[k as int].0 == "class"@,
                    attrs.deep_view()[k as int].1 == vchars@,
                    forall|q: int| 0 <= q < j ==> pieces_view[q] != cls@,
                decreases m - j,
            {
                proof {
                    assert(pieces_view[j as int] =~= pieces@[j as int]@);
                }
                if chars_eq(&pieces[j], &clsv) {
                    proof {
                        assert(pieces_view[j as int] == cls@);
                        assert(attrs.deep_view()[k as int] == (
                            attrs@[k as int].0@,
                            attrs@[k as int].1@,
                        ));
                        assert(attrs.deep_view()[k as int].1 == vchars@);
                        assert(split_ws_from(attrs.deep_view()[k as int].1, 0) == pieces_view);
                        assert(split_ws_from(attrs.deep_view()[k as int].1, 0).contains(cls@));
                        assert(attrs.deep_view()[k as int].0 == "class"@);
                    }
                    return true;
                }
                j = j + 1;
            }
            proof {
                assert(attrs.deep_view()[k as int] == (attrs@[k as int].0@, attrs@[k as int].1@));
                assert(attrs.deep_view()[k as int].1 == vchars@);
                assert(split_ws_from(attrs.deep_view()[k as int].1, 0) == pieces_view);
                assert(!split_ws_from(attrs.deep_view()[k as int].1, 0).contains(cls@));
            }
        }
        k = k + 1;
    }
    false
}

/// Executable scan for a data attribute, mirroring [`data_attr_match`].
fn attrs_data_match(attrs: &Vec<(String, String)>, name: &str, value: &str) -> (r: bool)
    ensures
        r == data_attr_match(attrs.deep_view(), name@, value@),
{
    let n: usize = attrs.len();
    let mut k: usize = 0;
    while k < n
        invariant
            0 <= k <= n,
            n == attrs@.len(),
            forall|j: int|
                0 <= j < k ==> !(starts_with_at(attrs.deep_view()[j].0, 0, "data-"@)
                    && attrs.deep_view()[j].0 == name@ && attrs.deep_view()[j].1 == value@),
        decreases n - k,
    {
        if string_starts_with(&attrs[k].0, "data-") && string_eq_str(&attrs[k].0, name)
            && string_eq_str(&attrs[k].1, value) {
            proof {
                assert(starts_with_at(attrs.deep_view()[k as int].0, 0, "data-"@));
                assert(attrs.deep_view()[k as int].0 == name@);
                assert(attrs.deep_view()[k as int].1 == value@);
            }
            return true;
        }
        k = k + 1;
    }
    false
}

impl HTMLParser {
    /// The first element, in document order, whose `id` attribute equals
    /// `id`, searched from `root`.
    #[verifier::loop_isolation(false)]
    pub fn get_element_by_id<'a>(&self, root: &'a Node, id: &str) -> (r: Option<&'a Node>)
        ensures
            match r {
                Option::Some(e) => find_by_id(root@, id@) == Option::Some(e@),
                Option::None => find_by_id(root@, id@) is None,
            },
        decreases *root,
    {
        match root {
            Node::Element { attributes, children, .. } => {
                if attrs_has(attributes, "id", id) {
                    return Option::Some(root);
                }
                let ghost views = nodes_view(children@);
                proof {
                    lemma_nodes_view_len(children@);
                    assert(views.skip(0) =~= views);
                    assert(find_by_id(root@, id@) == find_by_id_seq(views, id@));
                }
                let n: usize = children.len();
                let mut i: usize = 0;
                while i < n
                    invariant
                        0 <= i <= n,
                        n == children@.len(),
                        views == nodes_view(children@),
                        views.len() == n,
                        find_by_id(root@, id@) == find_by_id_seq(views.skip(i as int), id@),
                    decreases n - i,
                {
                    proof {
                        lemma_nodes_view_index(children@, i as int);
                        assert(views.skip(i as int)[0] == views[i as int]);
                        assert(views.skip(i as int).drop_first() =~= views.skip(i + 1));
                        vstd::std_specs::vec::axiom_vec_index_decreases::<Node>(
                            *children,
                            i as int,
                        );
                    }
                    match self.get_element_by_id(&children[i], id) {
                        Option::Some(e) => {
                            return Option::Some(e);
                        },
                        Option::None => {},
                    }
                    i = i + 1;
                }
                proof {
                    assert(views.skip(n as int) =~= Seq::<GNode>::empty());
                }
                Option::None
            },
            _ => Option::None,
        }
    }

    /// All elements under `root`, in document order, whose `class`
    /// attribute lists `class_name`.
    #[verifier::loop_isolation(false)]
    pub fn get_elements_by_class<'a>(&self, root: &'a Node, class_name: &str) -> (r: Vec<
        &'a Node,
    >)
        ensures
            r.deep_view() == by_class(root@, class_name@),
        decreases *root,
    {
        let mut results: Vec<&'a Node> = Vec::new();
        match root {
            Node::Element { attributes, children, .. } => {
                if attrs_class_match(attributes, class_name) {
                    results.push(root);
                }
                let ghost views = nodes_view(children@);
                proof {
                    lemma_nodes_view_len(children@);
                    assert(views.skip(0) =~= views);
                    assert(by_class(root@, class_name@) =~= results.deep_view() + by_class_seq(
                        views.skip(0),
                        class_name@,
                    ));
                }
                let n: usize = children.len();
                let mut i: usize = 0;
                while i < n
                    invariant
                        0 <= i <= n,
                        n == children@.len(),
                        views == nodes_view(children@),
                        views.len() == n,
                        by_class(root@, class_name@) == results.deep_view() + by_class_seq(
                            views.skip(i as int),
                            class_name@,
                        ),
                    decreases n - i,
                {
                    proof {
                        lemma_nodes_view_index(children@, i as int);
                        assert(views.skip(i as int)[0] == views[i as int]);
                        assert(views.skip(i as int).drop_first() =~= views.skip(i + 1));
                        vstd::std_specs::vec::axiom_vec_index_decreases::<Node>(
                            *children,
                            i as int,
                        );
                    }
                    let ghost before = results.deep_view();
                    let mut sub = self.get_elements_by_class(&children[i], class_name);
                    let ghost sub_view = sub.deep_view();
                    results.append(&mut sub);
                    proof {
                        assert(results.deep_view() =~~= before + sub_view);
                        assert(before + (sub_view + by_class_seq(views.skip(i + 1), class_name@))
                            =~= (before + sub_view) + by_class_seq(views.skip(i + 1), class_name@));
                    }
                    i = i + 1;
                }
                proof {
                    assert(views.skip(n as int) =~= Seq::<GNode>::empty());
                    assert(results.deep_view() + Seq::<GNode>::empty() =~= results.deep_view());
                }
                results
            },
            _ => {
                proof {
                    assert(results.deep_view() =~~= by_class(root@, class_name@));
                }
                results
            },
        }
    }

    /// All elements under `root`, in document order, whose tag name equals
    /// `tag_name`.
    #[verifier::loop_isolation(false)]
    pub fn get_elements_by_tag<'a>(&self, root: &'a Node, tag_name: &str) -> (r: Vec<&'a Node>)
        ensures
            r.deep_view() == by_tag(root@, tag_name@),
        decreases *root,
    {
        let mut results: Vec<&'a Node> = Vec::new();
        match root {
            Node::Element { name, children, .. } => {
                if string_eq_str(name, tag_name) {
                    results.push(root);
                }
                let ghost views = nodes_view(children@);
                proof {
                    lemma_nodes_view_len(children@);
                    assert(views.skip(0) =~= views);
                    assert(by_tag(root@, tag_name@) =~= results.deep_view() + by_tag_seq(
                        views.skip(0),
                        tag_name@,
                    ));
                }
                let n: usize = children.len();
                let mut i: usize = 0;
                while i < n
                    invariant
                        0 <= i <= n,
                        n == children@.len(),
                        views == nodes_view(children@),
                        views.len() == n,
                        by_tag(root@, tag_name@) == results.deep_view() + by_tag_seq(
                            views.skip(i as int),
                            tag_name@,
                        ),
                    decreases n - i,
                {
                    proof {
                        lemma_nodes_view_index(children@, i as int);
                        assert(views.skip(i as int)[0] == views[i as int]);
                        assert(views.skip(i as int).drop_first() =~= views.skip(i + 1));
                        vstd::std_specs::vec::axiom_vec_index_decreases::<Node>(
                            *children,
                            i as int,
                        );
                    }
                    let ghost before = results.deep_view();
                    let mut sub = self.get_elements_by_tag(&children[i], tag_name);
                    let ghost sub_view = sub.deep_view();
                    results.append(&mut sub);
                    proof {
                        assert(results.deep_view() =~~= before + sub_view);
                        assert(before + (sub_view + by_tag_seq(views.skip(i + 1), tag_name@)) =~= (
                        before + sub_view) + by_tag_seq(views.skip(i + 1), tag_name@));
                    }
                    i = i + 1;
                }
                proof {
                    assert(views.skip(n as int) =~= Seq::<GNode>::empty());
                    assert(results.deep_view() + Seq::<GNode>::empty() =~= results.deep_view());
                }
                results
            },
            _ => {
                proof {
                    assert(results.deep_view() =~~= by_tag(root@, tag_name@));
                }
                results
            },
        }
    }

    /// All elements under `root`, in document order, holding a data
    /// attribute with the given name and value.
    #[verifier::loop_isolation(false)]
    pub fn get_elements_by_data<'a>(
        &self,
        root: &'a Node,
        data_name: &str,
        data_value: &str,
    ) -> (r: Vec<&'a Node>)
        ensures
            r.deep_view() == by_data(root@, data_name@, data_value@),
        decreases *root,
    {
        let mut results: Vec<&'a Node> = Vec::new();
        match root {
            Node::Element { attributes, children, .. } => {
                if attrs_data_match(attributes, data_name, data_value) {
                    results.push(root);
                }
                let ghost views = nodes_view(children@);
                proof {
                    lemma_nodes_view_len(children@);
                    assert(views.skip(0) =~= views);
                    assert(by_data(root@, data_name@, data_value@) =~= results.deep_view()
                        + by_data_seq(views.skip(0), data_name@, data_value@));
                }
                let n: usize = children.len();
                let mut i: usize = 0;
                while i < n
                    invariant
                        0 <= i <= n,
                        n == children@.len(),
                        views == nodes_view(children@),
                        views.len() == n,
                        by_data(root@, data_name@, data_value@) == results.deep_view()
                            + by_data_seq(views.skip(i as int), data_name@, data_value@),
                    decreases n - i,
                {
                    proof {
                        lemma_nodes_view_index(children@, i as int);
                        assert(views.skip(i as int)[0] == views[i as int]);
                        assert(views.skip(i as int).drop_first() =~= views.skip(i + 1));
                        vstd::std_specs::vec::axiom_vec_index_decreases::<Node>(
                            *children,
                            i as int,
                        );
                    }
                    let ghost before = results.deep_view();
                    let mut sub = self.get_elements_by_data(&children[i], data_name, data_value);
                    let ghost sub_view = sub.deep_view();
                    results.append(&mut sub);
                    proof {
                        assert(results.deep_view() =~~= before + sub_view);
                        assert(before + (sub_view + by_data_seq(
                            views.skip(i + 1),
                            data_name@,
                            data_value@,
                        )) =~= (before + sub_view) + by_data_seq(
                            views.skip(i + 1),
                            data_name@,
                            data_value@,
                        ));
                    }
                    i = i + 1;
                }
                proof {
                    assert(views.skip(n as int) =~= Seq::<GNode>::empty());
                    assert(results.deep_view() + Seq::<GNode>::empty() =~= results.deep_view());
                }
                results
            },
            _ => {
                proof {
                    assert(results.deep_view() =~~= by_data(root@, data_name@, data_value@));
                }
                results
            },
        }
    }

    /// The concatenated text content under `handle`, in document order.
    #[verifier::loop_isolation(false)]
    pub fn extract_text(&self, handle: &Node) -> (r: String)
        ensures
            r@ == text_of(handle@),
        decreases *handle,
    {
        match handle {
            Node::Text { content } => content.clone(),
            Node::Element { children, .. } => {
                let mut text = String::new();
                let ghost views = nodes_view(children@);
                proof {
                    lemma_nodes_view_len(children@);
                    assert(views.skip(0) =~= views);
                }
                let n: usize = children.len();
                let mut i: usize = 0;
                while i < n
                    invariant
                        0 <= i <= n,
                        n == children@.len(),
                        views == nodes_view(children@),
                        views.len() == n,
                        text@ + text_of_seq(views.skip(i as int)) == text_of_seq(views),
                    decreases n - i,
                {
                    proof {
                        lemma_nodes_view_index(children@, i as int);
                        assert(views.skip(i as int)[0] == views[i as int]);
                        assert(views.skip(i as int).drop_first() =~= views.skip(i + 1));
                        vstd::std_specs::vec::axiom_vec_index_decreases::<Node>(
                            *children,
                            i as int,
                        );
                    }
                    let piece = self.extract_text(&children[i]);
                    let ghost before = text@;
                    text.append(piece.as_str());
                    proof {
                        assert(before + (text_of(views[i as int]) + text_of_seq(
                            views.skip(i + 1),
                        )) =~= (before + text_of(views[i as int])) + text_of_seq(views.skip(i + 1)));
                    }
                    i = i + 1;
                }
                proof {
                    assert(views.skip(n as int) =~= Seq::<GNode>::empty());
                    assert(text@ + Seq::<char>::empty() =~= text@);
                }
                text
            },
            _ => String::new(),
        }
    }

    /// Builds a fresh element node with the given tag and attributes.
    pub fn create_element(&self, tag: &str, attrs: Vec<(String, String)>) -> (r: Node)
        ensures
            r@ == (GNode::Element { name: tag@, attrs: attrs.deep_view(), children: Seq::empty() }),
    {
        let ghost a = attrs.deep_view();
        let r = Node::Element {
            name: String::from_str(tag),
            attributes: attrs,
            children: Vec::new(),
        };
        proof {
            assert(r@ =~~= (GNode::Element { name: tag@, attrs: a, children: Seq::empty() }));
        }
        r
    }

    /// Hook for a scripting stage; this engine runs no scripts, so the tree
    /// is left untouched.
    pub fn execute_scripts(&self, _root: &Node) {
    }

    /// Hook for attaching stylesheet text directly to a tree; style
    /// computation lives in the cascade engine instead, so the tree is left
    /// untouched.
    pub fn apply_css(&self, _root: &Node, _css: &str) {
    }
}

} // verus!
