//! Box-model layout engine.
//!
//! Sizing runs bottom-up: block boxes take the maximum child width and the
//! sum of child heights, inline boxes use a fixed-width text heuristic
//! (a fixed width unit per character, a fixed line height), and declared
//! `width`/`height` values override the computed content size. Edge values
//! are parsed from the style strings as leading decimal digits, defaulting
//! to 0 — layout never fails on bad style data. Positioning runs top-down:
//! children stack top to bottom whatever their display, this engine's only
//! layout mode. All arithmetic saturates at the integer type's bounds.

use vstd::prelude::*;

use crate::dom::{
    lemma_nodes_view_index, lemma_nodes_view_len, nodes_view, GNode, Node,
};
use crate::html::{text_of, HTMLParser};
use crate::text::string_eq_str;

verus! {

/// The display class a box was laid out as.
#[derive(Debug, PartialEq, Eq, Clone, Copy)]
pub enum BoxType {
    /// `display: block`.
    Block,
    /// `display: inline`.
    Inline,
    /// Any other or missing display value.
    Anonymous,
}

/// A style attached to one node, all values as strings; edge tuples are
/// ordered (left, right, top, bottom).
#[derive(Debug, PartialEq)]
pub struct Style {
    /// The display type (`block`, `inline`, or anything else).
    pub display: String,
    /// Declared width; overrides the computed content width when present.
    pub width: Option<String>,
    /// Declared height; overrides the computed content height when present.
    pub height: Option<String>,
    pub padding: (String, String, String, String),
    pub border: (String, String, String, String),
    pub margin: (String, String, String, String),
}

/// The mathematical model of a [`Style`].
#[verifier::ext_equal]
pub struct GStyle {
    pub display: Seq<char>,
    pub width: Option<Seq<char>>,
    pub height: Option<Seq<char>>,
    pub padding: (Seq<char>, Seq<char>, Seq<char>, Seq<char>),
    pub border: (Seq<char>, Seq<char>, Seq<char>, Seq<char>),
    pub margin: (Seq<char>, Seq<char>, Seq<char>, Seq<char>),
}

impl View for Style {
    type V = GStyle;

    open spec fn view(&self) -> GStyle {
        GStyle {
            display: self.display@,
            width: match self.width {
                Option::Some(w) => Option::Some(w@),
                Option::None => Option::None,
            },
            height: match self.height {
                Option::Some(h) => Option::Some(h@),
                Option::None => Option::None,
            },
            padding: (self.padding.0@, self.padding.1@, self.padding.2@, self.padding.3@),
            border: (self.border.0@, self.border.1@, self.border.2@, self.border.3@),
            margin: (self.margin.0@, self.margin.1@, self.margin.2@, self.margin.3@),
        }
    }
}

impl DeepView for Style {
    type V = GStyle;

    open spec fn deep_view(&self) -> GStyle {
        self.view()
    }
}

/// Edge sizes of one box side group, ordered (left, right, top, bottom).
#[derive(Debug, PartialEq, Eq, Clone, Copy)]
pub struct EdgeSizes {
    pub left: i64,
    pub right: i64,
    pub top: i64,
    pub bottom: i64,
}

/// A rectangle: a position and the content dimensions.
#[derive(Debug, PartialEq, Eq, Clone, Copy)]
pub struct Rect {
    pub x: i64,
    pub y: i64,
    pub width: i64,
    pub height: i64,
}

/// One positioned, sized box; children are owned, mirroring the node tree.
#[derive(Debug, PartialEq)]
pub struct LayoutBox {
    pub box_type: BoxType,
    pub content: Rect,
    pub padding: EdgeSizes,
    pub border: EdgeSizes,
    pub margin: EdgeSizes,
    /// Content width plus horizontal padding and border.
    pub width: i64,
    /// Content height plus vertical padding and border.
    pub height: i64,
    pub children: Vec<LayoutBox>,
}

/// The mathematical model of an [`EdgeSizes`].
#[verifier::ext_equal]
pub struct GEdges {
    pub left: int,
    pub right: int,
    pub top: int,
    pub bottom: int,
}

/// The mathematical model of a [`Rect`].
#[verifier::ext_equal]
pub struct GRect {
    pub x: int,
    pub y: int,
    pub width: int,
    pub height: int,
}

/// The mathematical model of a [`LayoutBox`].
#[verifier::ext_equal]
pub struct GBox {
    pub box_type: BoxType,
    pub content: GRect,
    pub padding: GEdges,
    pub border: GEdges,
    pub margin: GEdges,
    pub width: int,
    pub height: int,
    pub children: Seq<GBox>,
}

pub open spec fn edges_view(e: EdgeSizes) -> GEdges {
    GEdges { left: e.left as int, right: e.right as int, top: e.top as int, bottom: e.bottom as int }
}

pub open spec fn rect_view(r: Rect) -> GRect {
    GRect { x: r.x as int, y: r.y as int, width: r.width as int, height: r.height as int }
}

pub open spec fn box_view(b: LayoutBox) -> GBox
    decreases b,
{
    GBox {
        box_type: b.box_type,
        content: rect_view(b.content),
        padding: edges_view(b.padding),
        border: edges_view(b.border),
        margin: edges_view(b.margin),
        width: b.width as int,
        height: b.height as int,
        children: boxes_view(b.children@),
    }
}

pub open spec fn boxes_view(s: Seq<LayoutBox>) -> Seq<GBox>
    decreases s,
{
    if s.len() == 0 {
        Seq::empty()
    } else {
        boxes_view(s.drop_last()).push(box_view(s.last()))
    }
}

impl View for LayoutBox {
    type V = GBox;

    open spec fn view(&self) -> GBox {
        box_view(*self)
    }
}

pub proof fn lemma_boxes_view_len(s: Seq<LayoutBox>)
    ensures
        boxes_view(s).len() == s.len(),
    decreases s,
{
    if s.len() > 0 {
        lemma_boxes_view_len(s.drop_last());
    }
}

pub proof fn lemma_boxes_view_index(s: Seq<LayoutBox>, i: int)
    requires
        0 <= i < s.len(),
    ensures
        boxes_view(s)[i] == box_view(s[i]),
    decreases s,
{
    lemma_boxes_view_len(s);
    if i < s.len() - 1 {
        lemma_boxes_view_len(s.drop_last());
        lemma_boxes_view_index(s.drop_last(), i);
    }
}

pub proof fn lemma_boxes_view_push(s: Seq<LayoutBox>, b: LayoutBox)
    ensures
        boxes_view(s.push(b)) == boxes_view(s).push(box_view(b)),
{
    assert(s.push(b).drop_last() =~= s);
    assert(s.push(b).last() == b);
}

/// Saturation of a mathematical integer to the box arithmetic's range.
pub open spec fn sat64(v: int) -> int {
    if v > i64::MAX {
        i64::MAX as int
    } else if v < i64::MIN {
        i64::MIN as int
    } else {
        v
    }
}

/// Saturating addition on box values.
pub fn sat_add(a: i64, b: i64) -> (r: i64)
    ensures
        r as int == sat64(a + b),
{
    if b >= 0 {
        if a > i64::MAX - b {
            i64::MAX
        } else {
            a + b
        }
    } else {
        if a < i64::MIN - b {
            i64::MIN
        } else {
            a + b
        }
    }
}

/// Whether `c` is a decimal digit.
pub open spec fn is_digit(c: char) -> bool {
    '0' <= c && c <= '9'
}

/// The numeric cap a parsed style value saturates at.
pub open spec fn px_cap() -> int {
    u32::MAX as int
}

/// The value of the leading decimal digits of `s` from `i` on, accumulated
/// onto `acc` and saturating at the cap.
pub open spec fn digits_val(s: Seq<char>, i: int, acc: int) -> int
    decreases s.len() - i,
{
    if i < 0 || i >= s.len() || !is_digit(s[i]) {
        acc
    } else {
        let d = s[i] as int - '0' as int;
        let acc2 = if acc * 10 + d > px_cap() {
            px_cap()
        } else {
            acc * 10 + d
        };
        digits_val(s, i + 1, acc2)
    }
}

/// The number a style value string denotes: its leading decimal digits
/// (saturating at the cap), or 0 when it has none — a bad value never
/// fails the layout.
pub open spec fn parse_px(s: Seq<char>) -> int {
    digits_val(s, 0, 0)
}

/// Executable [`parse_px`].
pub fn parse_px_exec(s: &String) -> (r: i64)
    ensures
        r as int == parse_px(s@),
        0 <= r <= px_cap(),
{
    let v = crate::text::str_to_chars(s.as_str());
    let n: usize = v.len();
    let mut acc: u64 = 0;
    let mut i: usize = 0;
    let cap: u64 = 4294967295u64;
    proof {
        assert(cap as int == px_cap());
    }
    while i < n && v[i] >= '0' && v[i] <= '9'
        invariant
            0 <= i <= n,
            n == v@.len(),
            v@ == s@,
            cap == 4294967295u64,
            0 <= acc <= cap,
            digits_val(s@, 0, 0) == digits_val(s@, i as int, acc as int),
        decreases n - i,
    {
        let d: u64 = (v[i] as u32 as u64) - 48;
        proof {
            assert(d as int == v@[i as int] as int - '0' as int);
        }
        let t: u64 = acc * 10 + d;
        if t > cap {
            acc = cap;
        } else {
            acc = t;
        }
        i = i + 1;
    }
    proof {
        if i < n {
            assert(!is_digit(s@[i as int]));
        }
        assert(digits_val(s@, i as int, acc as int) == acc as int);
    }
    acc as i64
}

/// First style stored for `path`, if any.
pub open spec fn lookup_style(styles: Seq<(Seq<usize>, GStyle)>, path: Seq<usize>) -> Option<GStyle>
    decreases styles.len(),
{
    if styles.len() == 0 {
        Option::None
    } else if styles[0].0 == path {
        Option::Some(styles[0].1)
    } else {
        lookup_style(styles.drop_first(), path)
    }
}

/// The styles after one `set_style`: the first entry for the path is
/// replaced, or a new entry is appended.
pub open spec fn set_assoc(
    styles: Seq<(Seq<usize>, GStyle)>,
    path: Seq<usize>,
    st: GStyle,
    k: int,
) -> Seq<(Seq<usize>, GStyle)>
    decreases styles.len() - k,
{
    if k < 0 || k >= styles.len() {
        styles.push((path, st))
    } else if styles[k].0 == path {
        styles.update(k, (path, st))
    } else {
        set_assoc(styles, path, st, k + 1)
    }
}

/// The running maximum of child box widths from index `i` on.
pub open spec fn kids_max_width(kids: Seq<GBox>, i: int, cur: int) -> int
    decreases kids.len() - i,
{
    if i < 0 || i >= kids.len() {
        cur
    } else {
        kids_max_width(
            kids,
            i + 1,
            if kids[i].width > cur {
                kids[i].width
            } else {
                cur
            },
        )
    }
}

/// The running saturating sum of child box heights from index `i` on.
pub open spec fn kids_height_sum(kids: Seq<GBox>, i: int, cur: int) -> int
    decreases kids.len() - i,
{
    if i < 0 || i >= kids.len() {
        cur
    } else {
        kids_height_sum(kids, i + 1, sat64(cur + kids[i].height))
    }
}

/// The children sequence of a node (empty for leaves).
pub open spec fn g_children(n: GNode) -> Seq<GNode> {
    match n {
        GNode::Element { children, .. } => children,
        _ => Seq::empty(),
    }
}

/// Sizes one node bottom-up, as the module doc describes; positions are
/// left at zero for the positioning pass.
pub open spec fn size_node(n: GNode, styles: Seq<(Seq<usize>, GStyle)>, path: Seq<usize>) -> GBox
    decreases n, 0int, 0int,
{
    let kids = match n {
        GNode::Element { children, .. } => size_kids(children, styles, path, 0),
        _ => Seq::empty(),
    };
    match lookup_style(styles, path) {
        Option::None => GBox {
            box_type: BoxType::Anonymous,
            content: GRect { x: 0, y: 0, width: 0, height: 0 },
            padding: GEdges { left: 0, right: 0, top: 0, bottom: 0 },
            border: GEdges { left: 0, right: 0, top: 0, bottom: 0 },
            margin: GEdges { left: 0, right: 0, top: 0, bottom: 0 },
            width: 0,
            height: 0,
            children: kids,
        },
        Option::Some(st) => {
            let bt = if st.display == "block"@ {
                BoxType::Block
            } else if st.display == "inline"@ {
                BoxType::Inline
            } else {
                BoxType::Anonymous
            };
            let cw0: int = match bt {
                BoxType::Block => kids_max_width(kids, 0, 0),
                BoxType::Inline => sat64(8 * text_of(n).len() as int),
                BoxType::Anonymous => 0,
            };
            let ch0: int = match bt {
                BoxType::Block => kids_height_sum(kids, 0, 0),
                BoxType::Inline => 16,
                BoxType::Anonymous => 0,
            };
            let cw: int = match st.width {
                Option::Some(w) => parse_px(w),
                Option::None => cw0,
            };
            let ch: int = match st.height {
                Option::Some(h) => parse_px(h),
                Option::None => ch0,
            };
            let pad = GEdges {
                left: parse_px(st.padding.0),
                right: parse_px(st.padding.1),
                top: parse_px(st.padding.2),
                bottom: parse_px(st.padding.3),
            };
            let bor = GEdges {
                left: parse_px(st.border.0),
                right: parse_px(st.border.1),
                top: parse_px(st.border.2),
                bottom: parse_px(st.border.3),
            };
            let mar = GEdges {
                left: parse_px(st.margin.0),
                right: parse_px(st.margin.1),
                top: parse_px(st.margin.2),
                bottom: parse_px(st.margin.3),
            };
            GBox {
                box_type: bt,
                content: GRect { x: 0, y: 0, width: cw, height: ch },
                padding: pad,
                border: bor,
                margin: mar,
                width: sat64(sat64(sat64(cw + pad.left) + pad.right) + sat64(bor.left + bor.right)),
                height: sat64(
                    sat64(sat64(ch + pad.top) + pad.bottom) + sat64(bor.top + bor.bottom),
                ),
                children: kids,
            }
        },
    }
}

/// Sizes the children of a node from index `i` on; each child's path is the
/// parent's path extended by its index.
pub open spec fn size_kids(
    cs: Seq<GNode>,
    styles: Seq<(Seq<usize>, GStyle)>,
    path: Seq<usize>,
    i: int,
) -> Seq<GBox>
    decreases cs, cs.len() - i, 1int,
{
    if i < 0 || i >= cs.len() {
        Seq::empty()
    } else {
        seq![size_node(cs[i], styles, path.push(i as usize))] + size_kids(cs, styles, path, i + 1)
    }
}

/// Positions one sized box at `(x, y)` top-down; children stack top to
/// bottom, each placed at the parent's position offset by the parent's
/// left and top margins, the vertical cursor advancing by each child's
/// height plus its vertical margins.
pub open spec fn position_node(b: GBox, x: int, y: int) -> GBox
    decreases b, 0int,
{
    GBox {
        content: GRect { x: x, y: y, width: b.content.width, height: b.content.height },
        children: position_kids(b.children, sat64(x + b.margin.left), sat64(y + b.margin.top)),
        ..b
    }
}

pub open spec fn position_kids(kids: Seq<GBox>, x: int, cursor: int) -> Seq<GBox>
    decreases kids, 1int,
{
    if kids.len() == 0 {
        Seq::empty()
    } else {
        let cursor2 = sat64(
            cursor + sat64(kids[0].height + sat64(kids[0].margin.top + kids[0].margin.bottom)),
        );
        seq![position_node(kids[0], x, cursor)] + position_kids(kids.drop_first(), x, cursor2)
    }
}

/// The whole layout of a styled tree placed at a caller-supplied origin:
/// bottom-up sizing, then top-down positioning.
pub open spec fn spec_layout(
    n: GNode,
    styles: Seq<(Seq<usize>, GStyle)>,
    origin_x: int,
    origin_y: int,
) -> GBox {
    position_node(size_node(n, styles, Seq::empty()), origin_x, origin_y)
}


/// Whether two index paths are equal.
fn path_eq(a: &Vec<usize>, b: &Vec<usize>) -> (r: bool)
    ensures
        r == (a@ == b@),
{
    let n: usize = a.len();
    if n != b.len() {
        return false;
    }
    let mut k: usize = 0;
    while k < n
        invariant
            0 <= k <= n,
            n == a@.len() == b@.len(),
            forall|j: int| 0 <= j < k ==> a@[j] == b@[j],
        decreases n - k,
    {
        if a[k] != b[k] {
            return false;
        }
        k = k + 1;
    }
    proof {
        assert(a@ =~= b@);
    }
    true
}

/// Copy of `path` with `i` appended: the path of the `i`-th child.
fn path_child(path: &Vec<usize>, i: usize) -> (r: Vec<usize>)
    ensures
        r@ == path@.push(i),
{
    let n: usize = path.len();
    let mut out: Vec<usize> = Vec::new();
    let mut k: usize = 0;
    while k < n
        invariant
            0 <= k <= n,
            n == path@.len(),
            out@ == path@.take(k as int),
        decreases n - k,
    {
        out.push(path[k]);
        proof {
            assert(out@ =~= path@.take(k + 1));
        }
        k = k + 1;
    }
    proof {
        assert(out@ =~= path@);
    }
    out.push(i);
    out
}

/// Looks the style stored for `path` up, as [`lookup_style`] states.
fn lookup_style_exec<'a>(styles: &'a Vec<(Vec<usize>, Style)>, path: &Vec<usize>) -> (r: Option<
    &'a Style,
>)
    ensures
        match r {
            Option::Some(st) => lookup_style(styles.deep_view(), path@) == Option::Some(st@),
            Option::None => lookup_style(styles.deep_view(), path@) is None,
        },
{
    let ghost sv = styles.deep_view();
    let n: usize = styles.len();
    let mut k: usize = 0;
    proof {
        assert(sv.skip(0) =~= sv);
    }
    while k < n
        invariant
            0 <= k <= n,
            n == styles@.len(),
            sv == styles.deep_view(),
            sv.len() == n,
            lookup_style(sv, path@) == lookup_style(sv.skip(k as int), path@),
        decreases n - k,
    {
        proof {
            assert(sv.skip(k as int)[0] == sv[k as int]);
            assert(sv.skip(k as int).drop_first() =~= sv.skip(k + 1));
        }
        proof {
            assert(sv[k as int].0 =~= styles@[k as int].0@);
        }
        if path_eq(&styles[k].0, path) {
            return Option::Some(&styles[k].1);
        }
        k = k + 1;
    }
    proof {
        assert(sv.skip(n as int) =~= Seq::<(Seq<usize>, GStyle)>::empty());
    }
    Option::None
}

/// Sizes one node and its subtree, as [`size_node`] states.
#[verifier::loop_isolation(false)]
fn size_node_exec(node: &Node, styles: &Vec<(Vec<usize>, Style)>, path: &Vec<usize>) -> (r:
    LayoutBox)
    ensures
        r@ == size_node(node@, styles.deep_view(), path@),
    decreases *node,
{
    let ghost sv = styles.deep_view();
    let mut kids: Vec<LayoutBox> = Vec::new();
    match node {
        Node::Element { children, .. } => {
            let ghost views = nodes_view(children@);
            proof {
                lemma_nodes_view_len(children@);
            }
            let n: usize = children.len();
            let mut i: usize = 0;
            while i < n
                invariant
                    0 <= i <= n,
                    kids@.len() == i,
                    boxes_view(kids@) + size_kids(views, sv, path@, i as int) == size_kids(
                        views,
                        sv,
                        path@,
                        0,
                    ),
                decreases n - i,
            {
                proof {
                    lemma_nodes_view_index(children@, i as int);
                    vstd::std_specs::vec::axiom_vec_index_decreases::<Node>(*children, i as int);
                }
                let cpath = path_child(path, i);
                let kb = size_node_exec(&children[i], styles, &cpath);
                let ghost ks0 = kids@;
                let ghost before = boxes_view(kids@);
                let ghost kbv = kb@;
                kids.push(kb);
                proof {
                    assert(kids@ =~= ks0.push(kids@.last()));
                    lemma_boxes_view_push(ks0, kids@.last());
                    assert(boxes_view(kids@) == before.push(kbv));
                    assert(before + (seq![kbv] + size_kids(views, sv, path@, i + 1)) =~= (
                    before.push(kbv)) + size_kids(views, sv, path@, i + 1));
                }
                i = i + 1;
            }
            proof {
                assert(size_kids(views, sv, path@, n as int) =~= Seq::<GBox>::empty());
                assert(boxes_view(kids@) + Seq::<GBox>::empty() =~= boxes_view(kids@));
            }
        },
        _ => {
            proof {
                assert(boxes_view(kids@) =~= Seq::<GBox>::empty());
            }
        },
    }
    let ghost kids_view = boxes_view(kids@);
    proof {
        lemma_boxes_view_len(kids@);
    }
    let zero = EdgeSizes { left: 0, right: 0, top: 0, bottom: 0 };
    match lookup_style_exec(styles, path) {
        Option::None => {
            let r = LayoutBox {
                box_type: BoxType::Anonymous,
                content: Rect { x: 0, y: 0, width: 0, height: 0 },
                padding: zero,
                border: zero,
                margin: zero,
                width: 0,
                height: 0,
                children: kids,
            };
            proof {
                assert(r@ =~~= size_node(node@, sv, path@));
            }
            r
        },
        Option::Some(style) => {
            let bt = if string_eq_str(&style.display, "block") {
                BoxType::Block
            } else if string_eq_str(&style.display, "inline") {
                BoxType::Inline
            } else {
                BoxType::Anonymous
            };
            let cw0: i64 = match bt {
                BoxType::Block => {
                    let m: usize = kids.len();
                    let mut cur: i64 = 0;
                    let mut k: usize = 0;
                    while k < m
                        invariant
                            0 <= k <= m,
                            kids_max_width(kids_view, k as int, cur as int) == kids_max_width(
                                kids_view,
                                0,
                                0,
                            ),
                        decreases m - k,
                    {
                        proof {
                            lemma_boxes_view_index(kids@, k as int);
                        }
                        if kids[k].width > cur {
                            cur = kids[k].width;
                        }
                        k = k + 1;
                    }
                    cur
                },
                BoxType::Inline => {
                    let parser = HTMLParser::new();
                    let text = parser.extract_text(node);
                    let len: usize = text.as_str().unicode_len();
                    let len64: u64 = len as u64;
                    if len64 > 0x7fffffffffffffffu64 / 8 {
                        i64::MAX
                    } else {
                        (8 * len64) as i64
                    }
                },
                BoxType::Anonymous => 0,
            };
            let ch0: i64 = match bt {
                BoxType::Block => {
                    let m: usize = kids.len();
                    let mut cur: i64 = 0;
                    let mut k: usize = 0;
                    while k < m
                        invariant
                            0 <= k <= m,
                            kids_height_sum(kids_view, k as int, cur as int) == kids_height_sum(
                                kids_view,
                                0,
                                0,
                            ),
                        decreases m - k,
                    {
                        proof {
                            lemma_boxes_view_index(kids@, k as int);
                        }
                        cur = sat_add(cur, kids[k].height);
                        k = k + 1;
                    }
                    cur
                },
                BoxType::Inline => 16,
                BoxType::Anonymous => 0,
            };
            let cw: i64 = match &style.width {
                Option::Some(w) => parse_px_exec(w),
                Option::None => cw0,
            };
            let ch: i64 = match &style.height {
                Option::Some(h) => parse_px_exec(h),
                Option::None => ch0,
            };
            let pad = EdgeSizes {
                left: parse_px_exec(&style.padding.0),
                right: parse_px_exec(&style.padding.1),
                top: parse_px_exec(&style.padding.2),
                bottom: parse_px_exec(&style.padding.3),
            };
            let bor = EdgeSizes {
                left: parse_px_exec(&style.border.0),
                right: parse_px_exec(&style.border.1),
                top: parse_px_exec(&style.border.2),
                bottom: parse_px_exec(&style.border.3),
            };
            let mar = EdgeSizes {
                left: parse_px_exec(&style.margin.0),
                right: parse_px_exec(&style.margin.1),
                top: parse_px_exec(&style.margin.2),
                bottom: parse_px_exec(&style.margin.3),
            };
            let width = sat_add(sat_add(sat_add(cw, pad.left), pad.right), sat_add(
                bor.left,
                bor.right,
            ));
            let height = sat_add(sat_add(sat_add(ch, pad.top), pad.bottom), sat_add(
                bor.top,
                bor.bottom,
            ));
            let r = LayoutBox {
                box_type: bt,
                content: Rect { x: 0, y: 0, width: cw, height: ch },
                padding: pad,
                border: bor,
                margin: mar,
                width,
                height,
                children: kids,
            };
            proof {
                assert(r@ =~~= size_node(node@, sv, path@));
            }
            r
        },
    }
}

/// Positions one sized box and its subtree, as [`position_node`] states.
#[verifier::loop_isolation(false)]
fn position_box_exec(b: &LayoutBox, x: i64, y: i64) -> (r: LayoutBox)
    ensures
        r@ == position_node(b@, x as int, y as int),
    decreases *b,
{
    let child_x = sat_add(x, b.margin.left);
    let cursor0 = sat_add(y, b.margin.top);
    let ghost kv = boxes_view(b.children@);
    proof {
        lemma_boxes_view_len(b.children@);
        assert(kv.skip(0) =~= kv);
    }
    let mut newkids: Vec<LayoutBox> = Vec::new();
    let mut cursor: i64 = cursor0;
    let n: usize = b.children.len();
    let mut i: usize = 0;
    while i < n
        invariant
            0 <= i <= n,
            boxes_view(newkids@) + position_kids(kv.skip(i as int), child_x as int, cursor as int)
                == position_kids(kv, child_x as int, cursor0 as int),
        decreases n - i,
    {
        proof {
            lemma_boxes_view_index(b.children@, i as int);
            assert(kv.skip(i as int)[0] == kv[i as int]);
            assert(kv.skip(i as int).drop_first() =~= kv.skip(i + 1));
            vstd::std_specs::vec::axiom_vec_index_decreases::<LayoutBox>(b.children, i as int);
        }
        let child = &b.children[i];
        let pc = position_box_exec(child, child_x, cursor);
        let step = sat_add(child.height, sat_add(child.margin.top, child.margin.bottom));
        let next_cursor = sat_add(cursor, step);
        let ghost nk0 = newkids@;
        let ghost before = boxes_view(newkids@);
        let ghost pcv = pc@;
        newkids.push(pc);
        proof {
            assert(newkids@ =~= nk0.push(newkids@.last()));
            lemma_boxes_view_push(nk0, newkids@.last());
            assert(boxes_view(newkids@) == before.push(pcv));
            assert(before + (seq![pcv] + position_kids(
                kv.skip(i + 1),
                child_x as int,
                next_cursor as int,
            )) =~= (before.push(pcv)) + position_kids(
                kv.skip(i + 1),
                child_x as int,
                next_cursor as int,
            ));
        }
        cursor = next_cursor;
        i = i + 1;
    }
    proof {
        assert(kv.skip(n as int) =~= Seq::<GBox>::empty());
        assert(boxes_view(newkids@) + Seq::<GBox>::empty() =~= boxes_view(newkids@));
    }
    let r = LayoutBox {
        box_type: b.box_type,
        content: Rect { x, y, width: b.content.width, height: b.content.height },
        padding: b.padding,
        border: b.border,
        margin: b.margin,
        width: b.width,
        height: b.height,
        children: newkids,
    };
    proof {
        assert(r@ =~~= position_node(b@, x as int, y as int));
    }
    r
}

/// The layout engine: a document tree and the styles attached to its nodes,
/// each node addressed by its path of child indices from the root.
pub struct LayoutEngine {
    root: Node,
    styles: Vec<(Vec<usize>, Style)>,
}

impl LayoutEngine {
    /// The tree being laid out.
    pub closed spec fn root_view(&self) -> GNode {
        self.root@
    }

    /// The styles attached so far.
    pub closed spec fn styles_view(&self) -> Seq<(Seq<usize>, GStyle)> {
        self.styles.deep_view()
    }

    /// Creates an engine over a tree, with no styles attached.
    pub fn new(root: Node) -> (r: LayoutEngine)
        ensures
            r.root_view() == root@,
            r.styles_view() == Seq::<(Seq<usize>, GStyle)>::empty(),
    {
        let r = LayoutEngine { root, styles: Vec::new() };
        proof {
            assert(r.styles_view() =~= Seq::<(Seq<usize>, GStyle)>::empty());
        }
        r
    }

    /// Attaches a style to the node at `path` (the child-index path from
    /// the root), replacing any style already stored for it.
    pub fn set_style(&mut self, path: Vec<usize>, style: Style)
        ensures
            final(self).root_view() == old(self).root_view(),
            final(self).styles_view() == set_assoc(old(self).styles_view(), path@, style@, 0),
    {
        let ghost sv = self.styles.deep_view();
        let n: usize = self.styles.len();
        let mut k: usize = 0;
        while k < n
            invariant
                0 <= k <= n,
                n == self.styles@.len(),
                self.styles.deep_view() == sv,
                sv.len() == n,
                *self == *old(self),
                set_assoc(sv, path@, style@, 0) == set_assoc(sv, path@, style@, k as int),
            decreases n - k,
        {
            proof {
                assert(sv[k as int].0 =~= self.styles@[k as int].0@);
            }
            if path_eq(&self.styles[k].0, &path) {
                proof {
                    assert(sv[k as int].0 == path@);
                }
                self.styles[k] = (path, style);
                proof {
                    assert(self.styles.deep_view() =~~= sv.update(k as int, (path@, style@)));
                }
                return ;
            }
            proof {
                assert(sv[k as int].0 != path@);
            }
            k = k + 1;
        }
        let ghost before = self.styles.deep_view();
        self.styles.push((path, style));
        proof {
            assert(self.styles.deep_view() =~~= before.push((path@, style@)));
        }
    }

    /// Computes the whole layout, placing the root at the given origin:
    /// bottom-up sizing, then top-down positioning, as [`spec_layout`]
    /// states. The result is a pure function of the tree, the styles and
    /// the origin.
    pub fn layout(&self, origin_x: i64, origin_y: i64) -> (r: LayoutBox)
        ensures
            r@ == spec_layout(self.root_view(), self.styles_view(), origin_x as int, origin_y as int),
    {
        let empty_path: Vec<usize> = Vec::new();
        proof {
            assert(empty_path@ =~= Seq::<usize>::empty());
        }
        let sized = size_node_exec(&self.root, &self.styles, &empty_path);
        position_box_exec(&sized, origin_x, origin_y)
    }
}

} // verus!
