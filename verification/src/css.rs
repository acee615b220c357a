//! Stylesheet parser and cascade engine.
//!
//! The parser turns stylesheet text into an ordered sequence of rules, each
//! holding selectors and declarations, with specificity derived per rule.
//! The cascade engine matches selectors against document elements and
//! resolves each element's effective properties by the key
//! (importance, specificity, source order).

use vstd::prelude::*;
use vstd::string::StringExecFns;

use crate::dom::{lemma_nodes_view_index, lemma_nodes_view_len, nodes_view, GNode, Node};
use crate::html::{class_attr_match, has_attr};
use crate::text::{
    chars_to_string, find_char, find_from, is_ws, lemma_find_from, lemma_skip_ws, norm_value,
    normalize_value, skip_whitespace, skip_ws, split_char, split_on_char, starts_with_at,
    starts_with_chars, str_to_chars, string_eq_str, sub_chars, sub_string, trim, trim_chars,
};

verus! {

/// A combinator written before a selector.
#[derive(Debug, PartialEq, Eq, Clone, Copy)]
pub enum Combinator {
    /// Written as whitespace between two selectors.
    Descendant,
    /// Written `>`.
    Child,
    /// Written `+`.
    Adjacent,
    /// Written `~`.
    Sibling,
}

/// One selector: an optional tag name, optional id, classes, pseudo-classes
/// and an optional leading combinator (`None` is the default descendant
/// relation).
#[derive(Debug, PartialEq, Clone)]
pub struct Selector {
    /// The tag name (e.g., `div`).
    pub tag: Option<String>,
    /// The element id (written `#id`).
    pub id: Option<String>,
    /// Class names (written `.class`).
    pub classes: Vec<String>,
    /// Pseudo-classes (written `:name`); matching them always succeeds in
    /// this engine, a documented simplification.
    pub pseudo_classes: Vec<String>,
    /// The combinator written before the selector, if any.
    pub combinator: Option<Combinator>,
}

/// One `property: value` declaration, with its importance flag.
#[derive(Debug, PartialEq, Clone)]
pub struct Declaration {
    pub property: String,
    pub value: String,
    pub important: bool,
}

/// One rule: its selector list, declaration block, and derived specificity
/// (the lexicographic maximum over its selectors).
#[derive(Debug, PartialEq)]
pub struct Rule {
    pub selectors: Vec<Selector>,
    pub declarations: Vec<Declaration>,
    pub specificity: (u32, u32, u32),
}

/// Errors of stylesheet parsing. A missing declaration block after a
/// selector list is the one hard failure; everything inside a block is
/// skipped rather than failed.
#[derive(Debug, PartialEq)]
pub enum CSSError {
    ParseError(String),
    SelectorError(String),
    DeclarationError(String),
}

/// The mathematical model of a [`Selector`].
#[verifier::ext_equal]
pub struct GSelector {
    pub tag: Option<Seq<char>>,
    pub id: Option<Seq<char>>,
    pub classes: Seq<Seq<char>>,
    pub pseudo: Seq<Seq<char>>,
    pub combinator: Option<Combinator>,
}

/// The mathematical model of a [`Declaration`].
#[verifier::ext_equal]
pub struct GDeclaration {
    pub property: Seq<char>,
    pub value: Seq<char>,
    pub important: bool,
}

/// The mathematical model of a [`Rule`].
#[verifier::ext_equal]
pub struct GRule {
    pub selectors: Seq<GSelector>,
    pub declarations: Seq<GDeclaration>,
    pub specificity: (u32, u32, u32),
}

impl View for Selector {
    type V = GSelector;

    open spec fn view(&self) -> GSelector {
        GSelector {
            tag: match self.tag {
                Option::Some(t) => Option::Some(t@),
                Option::None => Option::None,
            },
            id: match self.id {
                Option::Some(t) => Option::Some(t@),
                Option::None => Option::None,
            },
            classes: self.classes.deep_view(),
            pseudo: self.pseudo_classes.deep_view(),
            combinator: self.combinator,
        }
    }
}

impl DeepView for Selector {
    type V = GSelector;

    open spec fn deep_view(&self) -> GSelector {
        self.view()
    }
}

impl View for Declaration {
    type V = GDeclaration;

    open spec fn view(&self) -> GDeclaration {
        GDeclaration { property: self.property@, value: self.value@, important: self.important }
    }
}

impl DeepView for Declaration {
    type V = GDeclaration;

    open spec fn deep_view(&self) -> GDeclaration {
        self.view()
    }
}

impl View for Rule {
    type V = GRule;

    open spec fn view(&self) -> GRule {
        GRule {
            selectors: self.selectors.deep_view(),
            declarations: self.declarations.deep_view(),
            specificity: self.specificity,
        }
    }
}

impl DeepView for Rule {
    type V = GRule;

    open spec fn deep_view(&self) -> GRule {
        self.view()
    }
}

/// The specificity of one selector: 1 if an id is present, the number of
/// classes and pseudo-classes (saturating at the type's bound), and 1 if a
/// tag name is present.
pub open spec fn spec_specificity(s: GSelector) -> (u32, u32, u32) {
    let a: u32 = if s.id is Some {
        1
    } else {
        0
    };
    let b: u32 = if s.classes.len() + s.pseudo.len() > u32::MAX {
        u32::MAX
    } else {
        (s.classes.len() + s.pseudo.len()) as u32
    };
    let c: u32 = if s.tag is Some {
        1
    } else {
        0
    };
    (a, b, c)
}

/// Lexicographic order on specificities.
pub open spec fn spec_lt(x: (u32, u32, u32), y: (u32, u32, u32)) -> bool {
    if x.0 != y.0 {
        x.0 < y.0
    } else if x.1 != y.1 {
        x.1 < y.1
    } else {
        x.2 < y.2
    }
}

/// The running lexicographic maximum of the selectors' specificities.
pub open spec fn max_spec_from(sels: Seq<GSelector>, cur: (u32, u32, u32)) -> (u32, u32, u32)
    decreases sels.len(),
{
    if sels.len() == 0 {
        cur
    } else {
        let h = spec_specificity(sels[0]);
        max_spec_from(
            sels.drop_first(),
            if spec_lt(cur, h) {
                h
            } else {
                cur
            },
        )
    }
}

/// Whether `c` may appear in an identifier (ASCII letters, digits, `-`, `_`).
pub open spec fn is_ident(c: char) -> bool {
    ('a' <= c && c <= 'z') || ('A' <= c && c <= 'Z') || ('0' <= c && c <= '9') || c == '-' || c
        == '_'
}

fn is_ident_char(c: char) -> (r: bool)
    ensures
        r == is_ident(c),
{
    ('a' <= c && c <= 'z') || ('A' <= c && c <= 'Z') || ('0' <= c && c <= '9') || c == '-' || c
        == '_'
}

/// First index at or after `pos` that is not an identifier character (or
/// the length of `s`).
pub open spec fn ident_end(s: Seq<char>, pos: int) -> int
    decreases s.len() - pos,
{
    if pos < 0 || pos >= s.len() {
        s.len() as int
    } else if is_ident(s[pos]) {
        ident_end(s, pos + 1)
    } else {
        pos
    }
}

pub proof fn lemma_ident_end(s: Seq<char>, pos: int)
    requires
        0 <= pos <= s.len(),
    ensures
        pos <= ident_end(s, pos) <= s.len(),
    decreases s.len() - pos,
{
    if pos < s.len() && is_ident(s[pos]) {
        lemma_ident_end(s, pos + 1);
    }
}

fn ident_end_exec(s: &Vec<char>, from: usize) -> (r: usize)
    requires
        from <= s@.len(),
    ensures
        r as int == ident_end(s@, from as int),
        from <= r <= s@.len(),
    decreases s@.len() - from,
{
    proof {
        lemma_ident_end(s@, from as int);
    }
    if from >= s.len() {
        s.len()
    } else if is_ident_char(s[from]) {
        ident_end_exec(s, from + 1)
    } else {
        from
    }
}

/// An empty selector: nothing constrained.
pub open spec fn empty_selector() -> GSelector {
    GSelector {
        tag: Option::None,
        id: Option::None,
        classes: Seq::empty(),
        pseudo: Seq::empty(),
        combinator: Option::None,
    }
}

/// Scans one selector's text: whitespace is skipped (descendant parts are
/// flattened into one compound), `>`/`+`/`~` set the combinator, `#`/`.`/`:`
/// read an id, class or pseudo-class, a bare identifier becomes the tag
/// name (the first one wins), and any other character is skipped.
pub open spec fn sel_scan(s: Seq<char>, pos: int, cur: GSelector) -> GSelector
    decreases s.len() - pos, 0int,
    via sel_scan_dec
{
    if pos < 0 || pos >= s.len() {
        cur
    } else {
        let c = s[pos];
        if c == '>' {
            sel_scan(s, pos + 1, GSelector { combinator: Option::Some(Combinator::Child), ..cur })
        } else if c == '+' {
            sel_scan(
                s,
                pos + 1,
                GSelector { combinator: Option::Some(Combinator::Adjacent), ..cur },
            )
        } else if c == '~' {
            sel_scan(s, pos + 1, GSelector { combinator: Option::Some(Combinator::Sibling), ..cur })
        } else if c == '#' {
            let e = ident_end(s, pos + 1);
            sel_scan(s, e, GSelector { id: Option::Some(s.subrange(pos + 1, e)), ..cur })
        } else if c == '.' {
            let e = ident_end(s, pos + 1);
            sel_scan(s, e, GSelector { classes: cur.classes.push(s.subrange(pos + 1, e)), ..cur })
        } else if c == ':' {
            let e = ident_end(s, pos + 1);
            sel_scan(s, e, GSelector { pseudo: cur.pseudo.push(s.subrange(pos + 1, e)), ..cur })
        } else if is_ident(c) {
            let e = ident_end(s, pos);
            if cur.tag is None {
                sel_scan(s, e, GSelector { tag: Option::Some(s.subrange(pos, e)), ..cur })
            } else {
                sel_scan(s, e, cur)
            }
        } else {
            sel_scan(s, pos + 1, cur)
        }
    }
}

#[via_fn]
proof fn sel_scan_dec(s: Seq<char>, pos: int, cur: GSelector) {
    if 0 <= pos < s.len() {
        lemma_ident_end(s, pos + 1);
        if is_ident(s[pos]) {
            assert(ident_end(s, pos) == ident_end(s, pos + 1));
        }
    }
}

/// The selector parsed from one comma-separated piece.
pub open spec fn spec_parse_selector(piece: Seq<char>) -> GSelector {
    sel_scan(piece, 0, empty_selector())
}

/// The selector list parsed from the text before a declaration block.
pub open spec fn spec_parse_selectors(text: Seq<char>) -> Seq<GSelector> {
    split_char(text, ',').map_values(|p: Seq<char>| spec_parse_selector(p))
}

/// Whether `v` ends with the characters of `pat`.
pub open spec fn ends_with(v: Seq<char>, pat: Seq<char>) -> bool {
    v.len() >= pat.len() && starts_with_at(v, v.len() - pat.len(), pat)
}

/// The declaration parsed from one `;`-separated fragment: the trimmed
/// property before the first `:`, the whitespace-normalized value after it;
/// a trailing `!important` is stripped and sets the flag. Fragments without
/// a colon or with an empty property are skipped.
pub open spec fn spec_parse_decl(frag: Seq<char>) -> Option<GDeclaration> {
    match find_from(frag, 0, ':') {
        Option::None => Option::None,
        Option::Some(c) => {
            let prop = trim(frag.subrange(0, c));
            if prop.len() == 0 {
                Option::None
            } else {
                let v = norm_value(frag.subrange(c + 1, frag.len() as int));
                if ends_with(v, "!important"@) {
                    Option::Some(
                        GDeclaration {
                            property: prop,
                            value: trim(v.subrange(0, v.len() - "!important"@.len())),
                            important: true,
                        },
                    )
                } else {
                    Option::Some(GDeclaration { property: prop, value: v, important: false })
                }
            }
        },
    }
}

/// The declarations parsed from the fragments of a block.
pub open spec fn decls_of(frags: Seq<Seq<char>>) -> Seq<GDeclaration>
    decreases frags.len(),
{
    if frags.len() == 0 {
        Seq::empty()
    } else {
        (match spec_parse_decl(frags[0]) {
            Option::Some(d) => seq![d],
            Option::None => Seq::empty(),
        }) + decls_of(frags.drop_first())
    }
}

/// The declarations parsed from a block's text.
pub open spec fn spec_parse_decls(text: Seq<char>) -> Seq<GDeclaration> {
    decls_of(split_char(text, ';'))
}

/// The rules parsed from position `pos` on: each rule is a selector list up
/// to `{` and a declaration block up to `}` (or the end of input). A
/// selector list with no `{` after it is the hard error; the whole parse
/// then yields nothing but that offending fragment (the remaining text).
pub open spec fn spec_parse_rules(s: Seq<char>, pos: int) -> Result<Seq<GRule>, Seq<char>>
    decreases s.len() - pos,
    via spec_parse_rules_dec
{
    if pos < 0 {
        Result::Ok(Seq::empty())
    } else {
        let p = skip_ws(s, pos);
        if p >= s.len() {
            Result::Ok(Seq::empty())
        } else {
            match find_from(s, p, '{') {
                Option::None => Result::Err(s.subrange(p, s.len() as int)),
                Option::Some(b) => {
                    let sels = spec_parse_selectors(s.subrange(p, b));
                    let dend = match find_from(s, b + 1, '}') {
                        Option::None => s.len() as int,
                        Option::Some(e) => e,
                    };
                    let decls = spec_parse_decls(s.subrange(b + 1, dend));
                    let nxt = if dend < s.len() {
                        dend + 1
                    } else {
                        s.len() as int
                    };
                    let rule = GRule {
                        selectors: sels,
                        declarations: decls,
                        specificity: max_spec_from(sels, (0u32, 0u32, 0u32)),
                    };
                    match spec_parse_rules(s, nxt) {
                        Result::Err(f) => Result::Err(f),
                        Result::Ok(rest) => Result::Ok(seq![rule] + rest),
                    }
                },
            }
        }
    }
}

#[via_fn]
proof fn spec_parse_rules_dec(s: Seq<char>, pos: int) {
    if pos >= 0 {
        if pos <= s.len() {
            lemma_skip_ws(s, pos);
        }
        let p = skip_ws(s, pos);
        if 0 <= p {
            lemma_find_from(s, p, '{');
            if let Option::Some(b) = find_from(s, p, '{') {
                lemma_find_from(s, b + 1, '}');
            }
        }
    }
}

/// The whole stylesheet's rules, or the offending fragment on the hard
/// error.
pub open spec fn spec_parse_css(s: Seq<char>) -> Result<Seq<GRule>, Seq<char>> {
    spec_parse_rules(s, 0)
}

/// The stylesheet parser and cascade engine.
pub struct CSSParser;

impl CSSParser {
    /// Creates a parser.
    pub fn new() -> (r: CSSParser) {
        CSSParser
    }

    /// The specificity of one selector, as [`spec_specificity`] states.
    pub fn calculate_specificity(&self, selector: &Selector) -> (r: (u32, u32, u32))
        ensures
            r == spec_specificity(selector@),
    {
        let a: u32 = if selector.id.is_some() {
            1
        } else {
            0
        };
        let cl = selector.classes.len();
        let pl = selector.pseudo_classes.len();
        let b: u32 = if cl > u32::MAX as usize {
            u32::MAX
        } else if pl > (u32::MAX as usize) - cl {
            u32::MAX
        } else {
            (cl + pl) as u32
        };
        let c: u32 = if selector.tag.is_some() {
            1
        } else {
            0
        };
        (a, b, c)
    }

    /// Parses stylesheet text into its ordered rules; fails exactly when a
    /// selector list has no declaration block after it, and then reports
    /// the offending fragment as an invalid selector.
    pub fn parse(&self, css: &str) -> (r: Result<Vec<Rule>, CSSError>)
        ensures
            match r {
                Result::Ok(rules) => spec_parse_css(css@) == Result::<Seq<GRule>, Seq<char>>::Ok(
                    rules.deep_view(),
                ),
                Result::Err(e) => ({
                    &&& spec_parse_css(css@) is Err
                    &&& e matches CSSError::SelectorError(m) && spec_parse_css(css@) matches Result::Err(f) && m@ == f
                }),
            },
    {
        let s = str_to_chars(css);
        let n: usize = s.len();
        let mut rules: Vec<Rule> = Vec::new();
        let mut pos: usize = 0;
        loop
            invariant
                pos <= n,
                n == s@.len(),
                s@ == css@,
                spec_parse_rules(s@, 0) == match spec_parse_rules(s@, pos as int) {
                    Result::Err(f) => Result::<Seq<GRule>, Seq<char>>::Err(f),
                    Result::Ok(rest) => Result::Ok(rules.deep_view() + rest),
                },
            decreases n - pos,
        {
            let ghost pos0 = pos as int;
            let p = skip_whitespace(&s, pos);
            if p >= n {
                proof {
                    assert(rules.deep_view() + Seq::<GRule>::empty() =~= rules.deep_view());
                }
                return Result::Ok(rules);
            }
            proof {
                lemma_find_from(s@, p as int, '{');
            }
            match find_char(&s, p, '{') {
                Option::None => {
                    let fragment = sub_string(&s, p, n);
                    return Result::Err(CSSError::SelectorError(fragment));
                },
                Option::Some(b) => {
                    let sel_text = sub_chars(&s, p, b);
                    let selectors = self.parse_selector_list(&sel_text);
                    proof {
                        lemma_find_from(s@, b + 1, '}');
                    }
                    let dend = match find_char(&s, b + 1, '}') {
                        Option::None => n,
                        Option::Some(e) => e,
                    };
                    let dtext = sub_chars(&s, b + 1, dend);
                    let declarations = self.parse_declarations(&dtext);
                    let ghost sels_view = selectors.deep_view();
                    let mut best: (u32, u32, u32) = (0, 0, 0);
                    let m: usize = selectors.len();
                    let mut j: usize = 0;
                    proof {
                        assert(sels_view.skip(0) =~= sels_view);
                    }
                    while j < m
                        invariant
                            0 <= j <= m,
                            m == selectors@.len(),
                            selectors.deep_view() == sels_view,
                            sels_view.len() == m,
                            max_spec_from(sels_view, (0u32, 0u32, 0u32)) == max_spec_from(
                                sels_view.skip(j as int),
                                best,
                            ),
                        decreases m - j,
                    {
                        proof {
                            assert(sels_view.skip(j as int)[0] == sels_view[j as int]);
                            assert(sels_view.skip(j as int).drop_first() =~= sels_view.skip(j + 1));
                        }
                        let h = self.calculate_specificity(&selectors[j]);
                        let lt = if best.0 != h.0 {
                            best.0 < h.0
                        } else if best.1 != h.1 {
                            best.1 < h.1
                        } else {
                            best.2 < h.2
                        };
                        if lt {
                            best = h;
                        }
                        j = j + 1;
                    }
                    proof {
                        assert(sels_view.skip(m as int) =~= Seq::<GSelector>::empty());
                    }
                    let rule = Rule { selectors, declarations, specificity: best };
                    let ghost before = rules.deep_view();
                    rules.push(rule);
                    let nxt: usize = if dend < n {
                        dend + 1
                    } else {
                        n
                    };
                    proof {
                        assert(rules.deep_view() =~~= before + seq![rule@]);
                        let rspec = spec_parse_rules(s@, pos0);
                        let rnext = spec_parse_rules(s@, nxt as int);
                        assert(rspec == match rnext {
                            Result::Err(f) => Result::<Seq<GRule>, Seq<char>>::Err(f),
                            Result::Ok(rest) => Result::Ok(seq![rule@] + rest),
                        });
                        if let Result::Ok(rest) = rnext {
                            assert((before + (seq![rule@] + rest)) =~= (before + seq![rule@])
                                + rest);
                        }
                    }
                    pos = nxt;
                },
            }
        }
    }

    /// Parses the comma-separated selector list of one rule.
    pub fn parse_selector_list(&self, text: &Vec<char>) -> (r: Vec<Selector>)
        ensures
            r.deep_view() == spec_parse_selectors(text@),
    {
        let pieces = split_on_char(text, ',');
        let ghost pieces_view = pieces.deep_view();
        let mut out: Vec<Selector> = Vec::new();
        let n: usize = pieces.len();
        let mut k: usize = 0;
        proof {
            assert(out.deep_view() =~= spec_parse_selectors(text@).take(0));
        }
        while k < n
            invariant
                0 <= k <= n,
                n == pieces@.len(),
                pieces.deep_view() == pieces_view,
                pieces_view.len() == n,
                pieces_view == split_char(text@, ','),
                out@.len() == k,
                out.deep_view() == spec_parse_selectors(text@).take(k as int),
            decreases n - k,
        {
            let sel = self.parse_selector(&pieces[k]);
            let ghost sv = sel@;
            let ghost out0 = out@;
            out.push(sel);
            proof {
                assert(pieces_view[k as int] =~= pieces@[k as int]@);
                assert(spec_parse_selectors(text@).len() == n);
                assert(spec_parse_selectors(text@)[k as int] == spec_parse_selector(
                    pieces_view[k as int],
                ));
                assert(sv == spec_parse_selectors(text@)[k as int]);
                assert(out@ == out0.push(sel));
                assert(out@.len() == k + 1);
                assert(out.deep_view()[k as int] == out@[k as int].deep_view());
                assert(out@[k as int].deep_view() == sv);
                assert(out.deep_view() =~= spec_parse_selectors(text@).take(k + 1));
            }
            k = k + 1;
        }
        proof {
            assert(spec_parse_selectors(text@).take(n as int) =~= spec_parse_selectors(text@));
        }
        out
    }

    /// Parses one selector, as [`spec_parse_selector`] states.
    pub fn parse_selector(&self, piece: &Vec<char>) -> (r: Selector)
        ensures
            r@ == spec_parse_selector(piece@),
    {
        let n: usize = piece.len();
        let mut cur = Selector {
            tag: Option::None,
            id: Option::None,
            classes: Vec::new(),
            pseudo_classes: Vec::new(),
            combinator: Option::None,
        };
        let mut pos: usize = 0;
        proof {
            assert(cur@ =~~= empty_selector());
        }
        while pos < n
            invariant
                0 <= pos <= n,
                n == piece@.len(),
                sel_scan(piece@, pos as int, cur@) == spec_parse_selector(piece@),
            decreases n - pos,
        {
            let c = piece[pos];
            if c == '>' {
                cur.combinator = Option::Some(Combinator::Child);
                pos = pos + 1;
            } else if c == '+' {
                cur.combinator = Option::Some(Combinator::Adjacent);
                pos = pos + 1;
            } else if c == '~' {
                cur.combinator = Option::Some(Combinator::Sibling);
                pos = pos + 1;
            } else if c == '#' {
                proof {
                    lemma_ident_end(piece@, pos + 1);
                }
                let e = ident_end_exec(piece, pos + 1);
                cur.id = Option::Some(chars_to_string(&sub_chars(piece, pos + 1, e)));
                pos = e;
            } else if c == '.' {
                proof {
                    lemma_ident_end(piece@, pos + 1);
                }
                let e = ident_end_exec(piece, pos + 1);
                let ghost cls0 = cur.classes.deep_view();
                cur.classes.push(chars_to_string(&sub_chars(piece, pos + 1, e)));
                proof {
                    assert(cur.classes.deep_view() =~~= cls0.push(
                        piece@.subrange(pos + 1, e as int),
                    ));
                }
                pos = e;
            } else if c == ':' {
                proof {
                    lemma_ident_end(piece@, pos + 1);
                }
                let e = ident_end_exec(piece, pos + 1);
                let ghost ps0 = cur.pseudo_classes.deep_view();
                cur.pseudo_classes.push(chars_to_string(&sub_chars(piece, pos + 1, e)));
                proof {
                    assert(cur.pseudo_classes.deep_view() =~~= ps0.push(
                        piece@.subrange(pos + 1, e as int),
                    ));
                }
                pos = e;
            } else if is_ident_char(c) {
                let e = ident_end_exec(piece, pos);
                proof {
                    assert(ident_end(piece@, pos as int) == ident_end(piece@, pos + 1));
                    lemma_ident_end(piece@, pos + 1);
                }
                if cur.tag.is_none() {
                    cur.tag = Option::Some(chars_to_string(&sub_chars(piece, pos, e)));
                }
                pos = e;
            } else {
                pos = pos + 1;
            }
        }
        cur
    }

    /// Parses the `;`-separated declarations of one block, as
    /// [`spec_parse_decls`] states.
    pub fn parse_declarations(&self, text: &Vec<char>) -> (r: Vec<Declaration>)
        ensures
            r.deep_view() == spec_parse_decls(text@),
    {
        let frags = split_on_char(text, ';');
        let ghost frags_view = frags.deep_view();
        let impv = str_to_chars("!important");
        let mut out: Vec<Declaration> = Vec::new();
        let n: usize = frags.len();
        let mut k: usize = 0;
        proof {
            assert(frags_view.skip(0) =~= frags_view);
            assert(out.deep_view() + decls_of(frags_view.skip(0)) =~= decls_of(frags_view));
        }
        while k < n
            invariant
                0 <= k <= n,
                n == frags@.len(),
                frags.deep_view() == frags_view,
                frags_view.len() == n,
                frags_view == split_char(text@, ';'),
                impv@ == "!important"@,
                out.deep_view() + decls_of(frags_view.skip(k as int)) == decls_of(frags_view),
            decreases n - k,
        {
            proof {
                assert(frags_view.skip(k as int)[0] == frags_view[k as int]);
                assert(frags_view.skip(k as int).drop_first() =~= frags_view.skip(k + 1));
                assert(frags_view[k as int] =~= frags@[k as int]@);
                lemma_find_from(frags@[k as int]@, 0, ':');
            }
            let frag = &frags[k];
            let ghost before = out.deep_view();
            match find_char(frag, 0, ':') {
                Option::None => {},
                Option::Some(c) => {
                    let fn_len: usize = frag.len();
                    let prop = trim_chars(&sub_chars(frag, 0, c));
                    if prop.len() > 0 {
                        let raw = sub_chars(frag, c + 1, fn_len);
                        let v = normalize_value(&raw);
                        let pl: usize = impv.len();
                        let d = if v.len() >= pl && starts_with_chars(&v, v.len() - pl, &impv) {
                            let value = trim_chars(&sub_chars(&v, 0, v.len() - pl));
                            Declaration {
                                property: chars_to_string(&prop),
                                value: chars_to_string(&value),
                                important: true,
                            }
                        } else {
                            Declaration {
                                property: chars_to_string(&prop),
                                value: chars_to_string(&v),
                                important: false,
                            }
                        };
                        out.push(d);
                        proof {
                            assert(spec_parse_decl(frags_view[k as int]) == Option::Some(d@));
                            assert(out.deep_view() =~~= before + seq![d@]);
                            assert(before + (seq![d@] + decls_of(frags_view.skip(k + 1))) =~= (
                            before + seq![d@]) + decls_of(frags_view.skip(k + 1)));
                        }
                    }
                },
            }
            k = k + 1;
        }
        proof {
            assert(frags_view.skip(n as int) =~= Seq::<Seq<char>>::empty());
            assert(out.deep_view() + Seq::<GDeclaration>::empty() =~= out.deep_view());
        }
        out
    }
}


/// Whether an element matches one selector: the tag (if given) must equal
/// the element's name, the id (if given) must be an `id` attribute's value,
/// and every selector class must appear in the element's whitespace-split
/// `class` attribute. Pseudo-classes impose nothing (matching them is
/// defined to succeed). Non-element nodes match nothing.
pub open spec fn sel_matches(g: GNode, sel: GSelector) -> bool {
    match g {
        GNode::Element { name, attrs, children } => {
            &&& match sel.tag {
                Option::Some(t) => name == t,
                Option::None => true,
            }
            &&& match sel.id {
                Option::Some(i) => has_attr(attrs, "id"@, i),
                Option::None => true,
            }
            &&& forall|k: int| 0 <= k < sel.classes.len() ==> class_attr_match(attrs, sel.classes[k])
        },
        _ => false,
    }
}

/// Whether any selector of the rule matches the element.
pub open spec fn rule_matches(g: GNode, r: GRule) -> bool {
    exists|k: int| 0 <= k < r.selectors.len() && sel_matches(g, r.selectors[k])
}

/// Whether any rule of the sheet matches the element.
pub open spec fn any_rule_matches(rules: Seq<GRule>, g: GNode) -> bool {
    exists|k: int| 0 <= k < rules.len() && rule_matches(g, rules[k])
}

/// The elements of a tree in document order: the node itself first, then
/// its children's elements left to right.
pub open spec fn elems(g: GNode) -> Seq<GNode>
    decreases g,
{
    match g {
        GNode::Element { children, .. } => seq![g] + elems_seq(children),
        _ => Seq::empty(),
    }
}

pub open spec fn elems_seq(s: Seq<GNode>) -> Seq<GNode>
    decreases s,
{
    if s.len() == 0 {
        Seq::empty()
    } else {
        elems(s[0]) + elems_seq(s.drop_first())
    }
}

/// A resolved property while the cascade runs: name, value, and the
/// importance and specificity that put it there.
pub type GProp = (Seq<char>, Seq<char>, bool, (u32, u32, u32));

/// Index of the property `name` among the resolved properties, from `k` on.
pub open spec fn find_prop_from(props: Seq<GProp>, name: Seq<char>, k: int) -> Option<int>
    decreases props.len() - k,
{
    if k < 0 || k >= props.len() {
        Option::None
    } else if props[k].0 == name {
        Option::Some(k)
    } else {
        find_prop_from(props, name, k + 1)
    }
}

/// Whether the key (importance, specificity) of a new declaration wins
/// against a stored one; equal keys win, so later source order prevails.
pub open spec fn key_ge(imp1: bool, sp1: (u32, u32, u32), imp2: bool, sp2: (u32, u32, u32)) -> bool {
    if imp1 != imp2 {
        imp1
    } else {
        !spec_lt(sp1, sp2)
    }
}

/// Writes one declaration into the resolved properties: a new property is
/// appended; an existing one is overwritten exactly when the new key
/// (importance, specificity, later source order) is at least the stored one.
pub open spec fn upsert(props: Seq<GProp>, d: GDeclaration, sp: (u32, u32, u32)) -> Seq<GProp> {
    match find_prop_from(props, d.property, 0) {
        Option::None => props.push((d.property, d.value, d.important, sp)),
        Option::Some(k) => {
            if key_ge(d.important, sp, props[k].2, props[k].3) {
                props.update(k, (d.property, d.value, d.important, sp))
            } else {
                props
            }
        },
    }
}

/// Folds a rule's declarations, in order, into the resolved properties.
pub open spec fn apply_decls(props: Seq<GProp>, decls: Seq<GDeclaration>, sp: (u32, u32, u32)) -> Seq<
    GProp,
>
    decreases decls.len(),
{
    if decls.len() == 0 {
        props
    } else {
        apply_decls(upsert(props, decls[0], sp), decls.drop_first(), sp)
    }
}

/// Folds every matching rule, in source order, into the resolved
/// properties of one element.
pub open spec fn apply_rules(props: Seq<GProp>, rules: Seq<GRule>, g: GNode) -> Seq<GProp>
    decreases rules.len(),
{
    if rules.len() == 0 {
        props
    } else {
        apply_rules(
            if rule_matches(g, rules[0]) {
                apply_decls(props, rules[0].declarations, rules[0].specificity)
            } else {
                props
            },
            rules.drop_first(),
            g,
        )
    }
}

/// The effective `property -> value` pairs of one element.
pub open spec fn resolved_props(rules: Seq<GRule>, g: GNode) -> Seq<(Seq<char>, Seq<char>)> {
    apply_rules(Seq::empty(), rules, g).map_values(|p: GProp| (p.0, p.1))
}

/// The style map's entries from element index `i` on: one entry per element
/// that some rule matches, keyed by its document-order index.
pub open spec fn style_entries(rules: Seq<GRule>, es: Seq<GNode>, i: int) -> Seq<
    (int, Seq<(Seq<char>, Seq<char>)>),
>
    decreases es.len() - i,
{
    if i < 0 || i >= es.len() {
        Seq::empty()
    } else {
        (if any_rule_matches(rules, es[i]) {
            seq![(i, resolved_props(rules, es[i]))]
        } else {
            Seq::empty()
        }) + style_entries(rules, es, i + 1)
    }
}

/// A computed style map: per element (keyed by its index in the document
/// order that [`CSSParser::collect_elements`] yields) the effective
/// property-value pairs; elements no rule matches have no entry.
pub struct StyleMap {
    pub entries: Vec<(usize, Vec<(String, String)>)>,
}

impl View for StyleMap {
    type V = Seq<(int, Seq<(Seq<char>, Seq<char>)>)>;

    open spec fn view(&self) -> Seq<(int, Seq<(Seq<char>, Seq<char>)>)> {
        Seq::new(
            self.entries@.len(),
            |k: int| (self.entries@[k].0 as int, self.entries@[k].1.deep_view()),
        )
    }
}

/// First entry for element index `idx`, if any.
pub open spec fn map_lookup(
    entries: Seq<(int, Seq<(Seq<char>, Seq<char>)>)>,
    idx: int,
) -> Option<Seq<(Seq<char>, Seq<char>)>>
    decreases entries.len(),
{
    if entries.len() == 0 {
        Option::None
    } else if entries[0].0 == idx {
        Option::Some(entries[0].1)
    } else {
        map_lookup(entries.drop_first(), idx)
    }
}

impl StyleMap {
    /// The stored properties of the element with document-order index
    /// `index`, if any rule matched it.
    pub fn get(&self, index: usize) -> (r: Option<&Vec<(String, String)>>)
        ensures
            match r {
                Option::Some(props) => map_lookup(self@, index as int) == Option::Some(
                    props.deep_view(),
                ),
                Option::None => map_lookup(self@, index as int) is None,
            },
    {
        let n: usize = self.entries.len();
        let mut k: usize = 0;
        proof {
            assert(self@.skip(0) =~= self@);
        }
        while k < n
            invariant
                0 <= k <= n,
                n == self.entries@.len(),
                map_lookup(self@, index as int) == map_lookup(self@.skip(k as int), index as int),
        decreases n - k,
        {
            proof {
                assert(self@.skip(k as int)[0] == self@[k as int]);
                assert(self@.skip(k as int).drop_first() =~= self@.skip(k + 1));
            }
            if self.entries[k].0 == index {
                return Option::Some(&self.entries[k].1);
            }
            k = k + 1;
        }
        proof {
            assert(self@.skip(n as int) =~= Seq::<(int, Seq<(Seq<char>, Seq<char>)>)>::empty());
        }
        Option::None
    }
}

/// First value stored for the property `name`, if any.
pub open spec fn prop_lookup(props: Seq<(Seq<char>, Seq<char>)>, name: Seq<char>) -> Option<
    Seq<char>,
>
    decreases props.len(),
{
    if props.len() == 0 {
        Option::None
    } else if props[0].0 == name {
        Option::Some(props[0].1)
    } else {
        prop_lookup(props.drop_first(), name)
    }
}

/// Looks a property up in one element's resolved pairs.
pub fn prop_value<'a>(props: &'a Vec<(String, String)>, name: &str) -> (r: Option<&'a String>)
    ensures
        match r {
            Option::Some(v) => prop_lookup(props.deep_view(), name@) == Option::Some(v@),
            Option::None => prop_lookup(props.deep_view(), name@) is None,
        },
{
    let n: usize = props.len();
    let ghost pv = props.deep_view();
    let mut k: usize = 0;
    proof {
        assert(pv.skip(0) =~= pv);
    }
    while k < n
        invariant
            0 <= k <= n,
            n == props@.len(),
            pv == props.deep_view(),
            pv.len() == n,
            prop_lookup(pv, name@) == prop_lookup(pv.skip(k as int), name@),
        decreases n - k,
    {
        proof {
            assert(pv.skip(k as int)[0] == pv[k as int]);
            assert(pv.skip(k as int).drop_first() =~= pv.skip(k + 1));
        }
        if string_eq_str(&props[k].0, name) {
            return Option::Some(&props[k].1);
        }
        k = k + 1;
    }
    proof {
        assert(pv.skip(n as int) =~= Seq::<(Seq<char>, Seq<char>)>::empty());
    }
    Option::None
}

fn lt3(a: (u32, u32, u32), b: (u32, u32, u32)) -> (r: bool)
    ensures
        r == spec_lt(a, b),
{
    if a.0 != b.0 {
        a.0 < b.0
    } else if a.1 != b.1 {
        a.1 < b.1
    } else {
        a.2 < b.2
    }
}

/// Executable [`upsert`]: writes one declaration into the running resolved
/// properties.
fn upsert_exec(
    props: &mut Vec<(String, String, bool, (u32, u32, u32))>,
    d: &Declaration,
    sp: (u32, u32, u32),
)
    ensures
        final(props).deep_view() == upsert(old(props).deep_view(), d@, sp),
{
    let ghost pv = props.deep_view();
    let n: usize = props.len();
    let mut k: usize = 0;
    while k < n
        invariant
            0 <= k <= n,
            n == props@.len(),
            props.deep_view() == pv,
            pv.len() == n,
            *props == *old(props),
            find_prop_from(pv, d.property@, 0) == find_prop_from(pv, d.property@, k as int),
        decreases n - k,
    {
        if string_eq_str(&props[k].0, d.property.as_str()) {
            proof {
                assert(find_prop_from(pv, d.property@, k as int) == Option::Some(k as int));
            }
            let win = if d.important != props[k].2 {
                d.important
            } else {
                !lt3(sp, props[k].3)
            };
            if win {
                props[k] = (d.property.clone(), d.value.clone(), d.important, sp);
                proof {
                    assert(props.deep_view() =~~= pv.update(
                        k as int,
                        (d.property@, d.value@, d.important, sp),
                    ));
                }
            }
            return ;
        }
        k = k + 1;
    }
    proof {
        assert(find_prop_from(pv, d.property@, n as int) is None);
    }
    let ghost before = props.deep_view();
    props.push((d.property.clone(), d.value.clone(), d.important, sp));
    proof {
        assert(props.deep_view() =~~= before.push((d.property@, d.value@, d.important, sp)));
    }
}

impl CSSParser {
    /// Whether `element` matches `selector`, as [`sel_matches`] states.
    #[verifier::loop_isolation(false)]
    pub fn matches_selector(&self, element: &Node, selector: &Selector) -> (r: bool)
        ensures
            r == sel_matches(element@, selector@),
    {
        match element {
            Node::Element { name, attributes, children } => {
                proof {
                    assert(element@ == (GNode::Element {
                        name: name@,
                        attrs: attributes.deep_view(),
                        children: nodes_view(children@),
                    }));
                }
                match &selector.tag {
                    Option::Some(t) => {
                        if !string_eq_str(name, t.as_str()) {
                            return false;
                        }
                    },
                    Option::None => {},
                }
                match &selector.id {
                    Option::Some(idv) => {
                        if !crate::html::attrs_has(attributes, "id", idv.as_str()) {
                            return false;
                        }
                    },
                    Option::None => {},
                }
                let ghost cls = selector.classes.deep_view();
                let m: usize = selector.classes.len();
                let mut k: usize = 0;
                while k < m
                    invariant
                        0 <= k <= m,
                        m == selector.classes@.len(),
                        cls == selector.classes.deep_view(),
                        cls.len() == m,
                        forall|j: int|
                            0 <= j < k ==> class_attr_match(attributes.deep_view(), cls[j]),
                    decreases m - k,
                {
                    if !crate::html::attrs_class_match(
                        attributes,
                        selector.classes[k].as_str(),
                    ) {
                        proof {
                            assert(cls[k as int] == selector.classes@[k as int]@);
                            assert(!class_attr_match(attributes.deep_view(), cls[k as int]));
                            assert(selector@.classes == cls);
                            assert(!class_attr_match(
                                attributes.deep_view(),
                                selector@.classes[k as int],
                            ));
                            let ge = (GNode::Element {
                                name: name@,
                                attrs: attributes.deep_view(),
                                children: nodes_view(children@),
                            });
                            assert(!sel_matches(ge, selector@));
                            assert(!sel_matches(element@, selector@));
                        }
                        return false;
                    }
                    k = k + 1;
                }
                true
            },
            _ => false,
        }
    }

    /// Collects every element under `node`, in document order, appending to
    /// `elements`.
    #[verifier::loop_isolation(false)]
    pub fn collect_elements<'a>(&self, node: &'a Node, elements: &mut Vec<&'a Node>)
        ensures
            final(elements).deep_view() == old(elements).deep_view() + elems(node@),
        decreases *node,
    {
        match node {
            Node::Element { children, .. } => {
                let ghost before = elements.deep_view();
                elements.push(node);
                let ghost views = nodes_view(children@);
                proof {
                    lemma_nodes_view_len(children@);
                    assert(views.skip(0) =~= views);
                    assert(elements.deep_view() =~~= before + seq![node@]);
                    assert((before + seq![node@]) + elems_seq(views.skip(0)) =~= before + (
                    seq![node@] + elems_seq(views)));
                }
                let n: usize = children.len();
                let mut i: usize = 0;
                while i < n
                    invariant
                        0 <= i <= n,
                        elements.deep_view() + elems_seq(views.skip(i as int)) == before + elems(
                            node@,
                        ),
                    decreases n - i,
                {
                    proof {
                        lemma_nodes_view_index(children@, i as int);
                        assert(views.skip(i as int)[0] == views[i as int]);
                        assert(views.skip(i as int).drop_first() =~= views.skip(i + 1));
                        vstd::std_specs::vec::axiom_vec_index_decreases::<Node>(
                            *children,
                            i as int,
                        );
                    }
                    let ghost cur = elements.deep_view();
                    self.collect_elements(&children[i], elements);
                    proof {
                        assert(cur + (elems(views[i as int]) + elems_seq(views.skip(i + 1))) =~= (
                        cur + elems(views[i as int])) + elems_seq(views.skip(i + 1)));
                    }
                    i = i + 1;
                }
                proof {
                    assert(elems_seq(views.skip(n as int)) =~= Seq::<GNode>::empty());
                    assert(elements.deep_view() + Seq::<GNode>::empty() =~= elements.deep_view());
                }
            },
            _ => {
                proof {
                    assert(elements.deep_view() + Seq::<GNode>::empty() =~= elements.deep_view());
                    assert(elems(node@) =~= Seq::<GNode>::empty());
                }
            },
        }
    }

    /// Applies the rules to every element of the tree: per element and
    /// property, the winning declaration is the one maximal by
    /// (importance, specificity, source order), as [`style_entries`]
    /// states.
    pub fn apply_styles(&self, rules: &Vec<Rule>, dom: &Node) -> (r: StyleMap)
        ensures
            r@ == style_entries(rules.deep_view(), elems(dom@), 0),
    {
        let mut elements: Vec<&Node> = Vec::new();
        self.collect_elements(dom, &mut elements);
        let ghost es = elems(dom@);
        let ghost rv = rules.deep_view();
        proof {
            assert(Seq::<GNode>::empty() + es =~= es);
            assert(elements.deep_view() == es);
        }
        let mut map = StyleMap { entries: Vec::new() };
        let n: usize = elements.len();
        let mut i: usize = 0;
        proof {
            assert(map@ =~= Seq::<(int, Seq<(Seq<char>, Seq<char>)>)>::empty());
            assert(map@ + style_entries(rv, es, 0) =~= style_entries(rv, es, 0));
        }
        while i < n
            invariant
                0 <= i <= n,
                n == elements@.len(),
                elements.deep_view() == es,
                es.len() == n,
                rv == rules.deep_view(),
                rv.len() == rules@.len(),
                map@ + style_entries(rv, es, i as int) == style_entries(rv, es, 0),
            decreases n - i,
        {
            let element: &Node = elements[i];
            proof {
                assert(element@ == es[i as int]);
            }
            let mut matched = false;
            let mut props: Vec<(String, String, bool, (u32, u32, u32))> = Vec::new();
            let m: usize = rules.len();
            let mut j: usize = 0;
            proof {
                assert(rv.skip(0) =~= rv);
                assert(props.deep_view() =~= Seq::<GProp>::empty());
            }
            while j < m
                invariant
                    0 <= j <= m,
                    m == rules@.len(),
                    rv == rules.deep_view(),
                    rv.len() == m,
                    elements.deep_view() == es,
                    0 <= i < es.len(),
                    element@ == es[i as int],
                    apply_rules(props.deep_view(), rv.skip(j as int), es[i as int]) == apply_rules(
                        Seq::empty(),
                        rv,
                        es[i as int],
                    ),
                    matched ==> any_rule_matches(rv, es[i as int]),
                    !matched ==> forall|q: int| 0 <= q < j ==> !rule_matches(es[i as int], rv[q]),
                decreases m - j,
            {
                proof {
                    assert(rv.skip(j as int)[0] == rv[j as int]);
                    assert(rv.skip(j as int).drop_first() =~= rv.skip(j + 1));
                }
                let rule = &rules[j];
                let ghost sels = rule.selectors.deep_view();
                let sn: usize = rule.selectors.len();
                let mut sk: usize = 0;
                let mut rm = false;
                while sk < sn && !rm
                    invariant
                        0 <= sk <= sn,
                        sn == rule.selectors@.len(),
                        sels == rule.selectors.deep_view(),
                        sels.len() == sn,
                        element@ == es[i as int],
                        rm ==> rule_matches(es[i as int], rule@),
                        !rm ==> forall|q: int| 0 <= q < sk ==> !sel_matches(es[i as int], sels[q]),
                    decreases sn - sk + (if rm {
                        0int
                    } else {
                        1int
                    }),
                {
                    if self.matches_selector(element, &rule.selectors[sk]) {
                        proof {
                            assert(sel_matches(es[i as int], sels[sk as int]));
                            assert(rule@.selectors == sels);
                            assert(sel_matches(es[i as int], rule@.selectors[sk as int]));
                            assert(rule_matches(es[i as int], rule@));
                        }
                        rm = true;
                    }
                    sk = sk + 1;
                }
                proof {
                    assert(rv[j as int] == rule@);
                    if !rm {
                        assert(!rule_matches(es[i as int], rv[j as int]));
                    }
                }
                if rm {
                    matched = true;
                    let ghost dv = rule.declarations.deep_view();
                    let ghost props0 = props.deep_view();
                    let dn: usize = rule.declarations.len();
                    let mut dk: usize = 0;
                    proof {
                        assert(dv.skip(0) =~= dv);
                    }
                    while dk < dn
                        invariant
                            0 <= dk <= dn,
                            dn == rule.declarations@.len(),
                            dv == rule.declarations.deep_view(),
                            dv.len() == dn,
                            apply_decls(props.deep_view(), dv.skip(dk as int), rule@.specificity)
                                == apply_decls(props0, dv, rule@.specificity),
                        decreases dn - dk,
                    {
                        proof {
                            assert(dv.skip(dk as int)[0] == dv[dk as int]);
                            assert(dv.skip(dk as int).drop_first() =~= dv.skip(dk + 1));
                        }
                        upsert_exec(&mut props, &rule.declarations[dk], rule.specificity);
                        dk = dk + 1;
                    }
                    proof {
                        assert(dv.skip(dn as int) =~= Seq::<GDeclaration>::empty());
                    }
                }
                j = j + 1;
            }
            proof {
                assert(rv.skip(m as int) =~= Seq::<GRule>::empty());
                assert(props.deep_view() == apply_rules(Seq::empty(), rv, es[i as int]));
                if !matched {
                    assert(!any_rule_matches(rv, es[i as int]));
                }
                assert(style_entries(rv, es, i as int) == (if any_rule_matches(rv, es[i as int]) {
                    seq![(i as int, resolved_props(rv, es[i as int]))]
                } else {
                    Seq::<(int, Seq<(Seq<char>, Seq<char>)>)>::empty()
                }) + style_entries(rv, es, i + 1));
            }
            if matched {
                let ghost pv = props.deep_view();
                let mut pairs: Vec<(String, String)> = Vec::new();
                let pn: usize = props.len();
                let mut pk: usize = 0;
                while pk < pn
                    invariant
                        0 <= pk <= pn,
                        pn == props@.len(),
                        props.deep_view() == pv,
                        pv.len() == pn,
                        pairs@.len() == pk,
                        pairs.deep_view() == pv.map_values(|p: GProp| (p.0, p.1)).take(pk as int),
                    decreases pn - pk,
                {
                    let pair = (props[pk].0.clone(), props[pk].1.clone());
                    pairs.push(pair);
                    proof {
                        assert(pairs.deep_view() =~~= pv.map_values(|p: GProp| (p.0, p.1)).take(
                            pk + 1,
                        ));
                    }
                    pk = pk + 1;
                }
                proof {
                    assert(pv.map_values(|p: GProp| (p.0, p.1)).take(pn as int) =~= pv.map_values(
                        |p: GProp| (p.0, p.1),
                    ));
                }
                let ghost before_map = map@;
                map.entries.push((i, pairs));
                proof {
                    assert(map@ =~~= before_map + seq![
                        (i as int, resolved_props(rv, es[i as int])),
                    ]);
                    assert(before_map + (seq![(i as int, resolved_props(rv, es[i as int]))]
                        + style_entries(rv, es, i + 1)) =~= (before_map + seq![
                        (i as int, resolved_props(rv, es[i as int])),
                    ]) + style_entries(rv, es, i + 1));
                }
            }
            i = i + 1;
        }
        proof {
            assert(style_entries(rv, es, n as int) =~= Seq::<
                (int, Seq<(Seq<char>, Seq<char>)>),
            >::empty());
            assert(map@ + Seq::<(int, Seq<(Seq<char>, Seq<char>)>)>::empty() =~= map@);
        }
        map
    }
}

} // verus!
