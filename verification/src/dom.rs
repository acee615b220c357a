//! The document tree: an owned node model with element, text, comment and
//! doctype variants. Parents own their children; node identity for side
//! tables is the path of child indices from the root.

use vstd::prelude::*;
use vstd::string::StringExecFns;

verus! {

/// A node of the document tree.
#[derive(Debug, PartialEq)]
pub enum Node {
    Element { name: String, attributes: Vec<(String, String)>, children: Vec<Node> },
    Text { content: String },
    Comment { content: String },
    Doctype { name: String },
}

/// The mathematical model of a `Node`: the same shape over sequences of
/// characters.
#[verifier::ext_equal]
pub enum GNode {
    Element { name: Seq<char>, attrs: Seq<(Seq<char>, Seq<char>)>, children: Seq<GNode> },
    Text { content: Seq<char> },
    Comment { content: Seq<char> },
    Doctype { name: Seq<char> },
}

pub open spec fn node_view(n: Node) -> GNode
    decreases n,
{
    match n {
        Node::Element { name, attributes, children } => GNode::Element {
            name: name@,
            attrs: attributes.deep_view(),
            children: nodes_view(children@),
        },
        Node::Text { content } => GNode::Text { content: content@ },
        Node::Comment { content } => GNode::Comment { content: content@ },
        Node::Doctype { name } => GNode::Doctype { name: name@ },
    }
}

pub open spec fn nodes_view(s: Seq<Node>) -> Seq<GNode>
    decreases s,
{
    if s.len() == 0 {
        Seq::empty()
    } else {
        nodes_view(s.drop_last()).push(node_view(s.last()))
    }
}

impl View for Node {
    type V = GNode;

    open spec fn view(&self) -> GNode {
        node_view(*self)
    }
}

impl DeepView for Node {
    type V = GNode;

    open spec fn deep_view(&self) -> GNode {
        node_view(*self)
    }
}

pub proof fn lemma_nodes_view_len(s: Seq<Node>)
    ensures
        nodes_view(s).len() == s.len(),
    decreases s,
{
    if s.len() > 0 {
        lemma_nodes_view_len(s.drop_last());
    }
}

pub proof fn lemma_nodes_view_index(s: Seq<Node>, i: int)
    requires
        0 <= i < s.len(),
    ensures
        nodes_view(s)[i] == node_view(s[i]),
    decreases s,
{
    lemma_nodes_view_len(s);
    if i < s.len() - 1 {
        lemma_nodes_view_len(s.drop_last());
        lemma_nodes_view_index(s.drop_last(), i);
    }
}

pub proof fn lemma_nodes_view_push(s: Seq<Node>, n: Node)
    ensures
        nodes_view(s.push(n)) == nodes_view(s).push(node_view(n)),
{
    assert(s.push(n).drop_last() =~= s);
    assert(s.push(n).last() == n);
}


/// A simpler document node used by the standalone [`parse_html`]
/// demonstration parser: a node is an element (with a tag) or a text run.
#[derive(Debug, PartialEq)]
pub struct DomNode {
    pub tag: Option<String>,
    pub attributes: Vec<(String, String)>,
    pub children: Vec<DomNode>,
    pub text: Option<String>,
}

/// A tree of [`DomNode`]s.
#[derive(Debug, PartialEq)]
pub struct DomTree {
    pub root: DomNode,
}

impl DomTree {
    /// Wraps a root node into a tree.
    pub fn new(root: DomNode) -> (r: DomTree)
        ensures
            r.root == root,
    {
        DomTree { root }
    }
}

/// The mathematical model of a [`DomNode`].
#[verifier::ext_equal]
pub struct GDomNode {
    pub tag: Option<Seq<char>>,
    pub attrs: Seq<(Seq<char>, Seq<char>)>,
    pub children: Seq<GDomNode>,
    pub text: Option<Seq<char>>,
}

pub open spec fn opt_string_view(o: Option<String>) -> Option<Seq<char>> {
    match o {
        Option::Some(s) => Option::Some(s@),
        Option::None => Option::None,
    }
}

pub open spec fn dnode_view(n: DomNode) -> GDomNode
    decreases n,
{
    GDomNode {
        tag: opt_string_view(n.tag),
        attrs: n.attributes.deep_view(),
        children: dnodes_view(n.children@),
        text: opt_string_view(n.text),
    }
}

pub open spec fn dnodes_view(s: Seq<DomNode>) -> Seq<GDomNode>
    decreases s,
{
    if s.len() == 0 {
        Seq::empty()
    } else {
        dnodes_view(s.drop_last()).push(dnode_view(s.last()))
    }
}

impl View for DomNode {
    type V = GDomNode;

    open spec fn view(&self) -> GDomNode {
        dnode_view(*self)
    }
}

pub proof fn lemma_dnodes_view_push(s: Seq<DomNode>, n: DomNode)
    ensures
        dnodes_view(s.push(n)) == dnodes_view(s).push(dnode_view(n)),
{
    assert(s.push(n).drop_last() =~= s);
    assert(s.push(n).last() == n);
}

/// A text-only node of the demonstration parser.
pub open spec fn g_text_node(t: Seq<char>) -> GDomNode {
    GDomNode { tag: Option::None, attrs: Seq::empty(), children: Seq::empty(), text: Option::Some(t) }
}

/// The children the demonstration parser collects from position `i` on.
/// Text is buffered; an end tag flushes the trimmed buffer as a text node
/// when it is nonempty and a `body` start tag has been seen (and not yet
/// closed); a start tag whose trimmed inside begins with `body` opens the
/// body. Buffered text left at end of input is dropped.
pub open spec fn ph_children(s: Seq<char>, i: int, in_body: bool, buffer: Seq<char>) -> Seq<
    GDomNode,
>
    decreases s.len() - i,
    via ph_children_dec
{
    if i < 0 || i >= s.len() {
        Seq::empty()
    } else if s[i] == '<' {
        if i + 1 < s.len() && s[i + 1] == '/' {
            let flushed: Seq<GDomNode> = if crate::text::trim(buffer).len() > 0 && in_body {
                seq![g_text_node(crate::text::trim(buffer))]
            } else {
                Seq::empty()
            };
            let nxt = match crate::text::find_from(s, i + 1, '>') {
                Option::None => s.len() as int,
                Option::Some(j) => j + 1,
            };
            flushed + ph_children(s, nxt, false, Seq::empty())
        } else {
            let t_end = match crate::text::find_from(s, i + 1, '>') {
                Option::None => s.len() as int,
                Option::Some(j) => j,
            };
            let tag = s.subrange(i + 1, t_end);
            let body = crate::text::starts_with_at(crate::text::trim(tag), 0, "body"@);
            let nxt = if t_end < s.len() {
                t_end + 1
            } else {
                s.len() as int
            };
            ph_children(s, nxt, in_body || body, buffer)
        }
    } else {
        ph_children(s, i + 1, in_body, buffer.push(s[i]))
    }
}

#[via_fn]
proof fn ph_children_dec(s: Seq<char>, i: int, in_body: bool, buffer: Seq<char>) {
    if 0 <= i < s.len() {
        crate::text::lemma_find_from(s, i + 1, '>');
    }
}

/// The tree the demonstration parser builds: a root `html` element holding
/// the collected text nodes.
pub open spec fn spec_parse_html(s: Seq<char>) -> GDomNode {
    GDomNode {
        tag: Option::Some("html"@),
        attrs: Seq::empty(),
        children: ph_children(s, 0, false, Seq::empty()),
        text: Option::None,
    }
}

/// A deliberately small standalone parser: it collects the text runs inside
/// the document body under a root `html` node, as [`spec_parse_html`]
/// describes.
#[verifier::loop_isolation(false)]
pub fn parse_html(input: &str) -> (r: DomTree)
    ensures
        r.root@ == spec_parse_html(input@),
{
    let s = crate::text::str_to_chars(input);
    let n: usize = s.len();
    let mut children: Vec<DomNode> = Vec::new();
    let mut buffer: Vec<char> = Vec::new();
    let mut in_body = false;
    let mut i: usize = 0;
    let bodyv = crate::text::str_to_chars("body");
    while i < n
        invariant
            0 <= i <= n,
            dnodes_view(children@) + ph_children(s@, i as int, in_body, buffer@) == ph_children(
                s@,
                0,
                false,
                Seq::empty(),
            ),
        decreases n - i,
    {
        let ghost before = dnodes_view(children@);
        if s[i] == '<' {
            if i + 1 < n && s[i + 1] == '/' {
                proof {
                    crate::text::lemma_find_from(s@, i + 1, '>');
                }
                if in_body {
                    let trimmed = crate::text::trim_chars(&buffer);
                    if trimmed.len() > 0 {
                        let node = DomNode {
                            tag: Option::None,
                            attributes: Vec::new(),
                            children: Vec::new(),
                            text: Option::Some(crate::text::chars_to_string(&trimmed)),
                        };
                        let ghost cs = children@;
                        children.push(node);
                        proof {
                            lemma_dnodes_view_push(cs, node);
                            assert(dnode_view(node) =~~= g_text_node(crate::text::trim(buffer@)));
                            assert(dnodes_view(children@) =~= before + seq![g_text_node(
                                crate::text::trim(buffer@),
                            )]);
                        }
                    }
                }
                buffer = Vec::new();
                in_body = false;
                match crate::text::find_char(&s, i + 1, '>') {
                    Option::None => {
                        i = n;
                    },
                    Option::Some(j) => {
                        i = j + 1;
                    },
                }
            } else {
                proof {
                    crate::text::lemma_find_from(s@, i + 1, '>');
                }
                let t_end = match crate::text::find_char(&s, i + 1, '>') {
                    Option::None => n,
                    Option::Some(j) => j,
                };
                let tag_chars = crate::text::sub_chars(&s, i + 1, t_end);
                let trimmed_tag = crate::text::trim_chars(&tag_chars);
                if crate::text::starts_with_chars(&trimmed_tag, 0, &bodyv) {
                    in_body = true;
                }
                if t_end < n {
                    i = t_end + 1;
                } else {
                    i = n;
                }
            }
        } else {
            buffer.push(s[i]);
            i = i + 1;
        }
    }
    proof {
        assert(dnodes_view(children@) + Seq::<GDomNode>::empty() =~= dnodes_view(children@));
    }
    let root = DomNode {
        tag: Option::Some(String::from_str("html")),
        attributes: Vec::new(),
        children,
        text: Option::None,
    };
    proof {
        assert(root@ =~~= spec_parse_html(input@));
    }
    DomTree { root }
}

} // verus!
