//! Library-wide laws, each proved against the contracts the modules state.

use vstd::prelude::*;

use crate::html::{
    build_frames, build_step, collapse_frames, gframe_elem, init_frames, spec_build, GFrame,
    GToken,
};
use crate::dom::GNode;
use crate::layout::{spec_layout, GBox, GStyle};

verus! {

/// Whether the stream holds no end tag at all — the token streams of
/// inputs missing all their closing tags.
pub open spec fn no_end_tags(ts: Seq<GToken>) -> bool {
    forall|i: int| 0 <= i < ts.len() ==> !(ts[i] is EndTag)
}

/// The tag name a start-tag token carries (empty for other tokens).
pub open spec fn tag_of(t: GToken) -> Seq<char> {
    match t {
        GToken::StartTag(n, _) => n,
        _ => Seq::empty(),
    }
}

/// The tag names of the stream's start tags, in order.
pub open spec fn start_tag_names(ts: Seq<GToken>) -> Seq<Seq<char>>
    decreases ts.len(),
{
    if ts.len() == 0 {
        Seq::empty()
    } else {
        (if ts[0] is StartTag {
            seq![tag_of(ts[0])]
        } else {
            Seq::empty()
        }) + start_tag_names(ts.drop_first())
    }
}

/// The element names along the chain of last children: the path along
/// which the tree builder nests elements that are never closed.
pub open spec fn chain_names(g: GNode) -> Seq<Seq<char>>
    decreases g,
{
    match g {
        GNode::Element { name, children, .. } => {
            if children.len() == 0 {
                seq![name]
            } else {
                seq![name] + chain_names(children.last())
            }
        },
        _ => Seq::empty(),
    }
}

/// The frame names of a builder stack, bottom first.
pub open spec fn frame_names(st: Seq<GFrame>) -> Seq<Seq<char>> {
    st.map_values(|f: GFrame| f.name)
}

/// Whether no frame of the stack ends its children with an element — true
/// of every stack a stream without end tags builds, since only an end tag
/// attaches a finished element.
pub open spec fn leafy(st: Seq<GFrame>) -> bool {
    forall|i: int, j: int|
        0 <= i < st.len() && 0 <= j < st[i].children.len() ==> !(#[trigger] st[i].children[j]
            is Element)
}

proof fn lemma_build_no_end(ts: Seq<GToken>, st: Seq<GFrame>)
    requires
        no_end_tags(ts),
        leafy(st),
        st.len() >= 1,
    ensures
        build_frames(ts, st).len() >= 1,
        frame_names(build_frames(ts, st)) == frame_names(st) + start_tag_names(ts),
        leafy(build_frames(ts, st)),
    decreases ts.len(),
{
    if ts.len() == 0 {
        assert(frame_names(st) + start_tag_names(ts) =~= frame_names(st));
    } else {
        let st2 = build_step(st, ts[0]);
        assert forall|i: int| 0 <= i < ts.drop_first().len() implies !(ts.drop_first()[i]
            is EndTag) by {
            assert(ts.drop_first()[i] == ts[i + 1]);
        }
        match ts[0] {
            GToken::StartTag(n, a) => {
                assert(st2 == st.push(GFrame { name: n, attrs: a, children: Seq::empty() }));
                assert(leafy(st2));
                lemma_build_no_end(ts.drop_first(), st2);
                assert(frame_names(st2) =~= frame_names(st).push(n));
                assert(frame_names(st).push(n) + start_tag_names(ts.drop_first()) =~= frame_names(
                    st,
                ) + start_tag_names(ts));
            },
            GToken::EndTag(_) => {
                assert(false);
            },
            GToken::Error(_) => {
                assert(st2 == st);
                lemma_build_no_end(ts.drop_first(), st2);
                assert(start_tag_names(ts) =~= start_tag_names(ts.drop_first()));
            },
            _ => {
                // A leaf token extends the innermost frame's children with a
                // non-element node; names and leafiness are kept.
                assert(st2.len() == st.len());
                assert(st2.last().children.len() > 0);
                assert(!(st2.last().children.last() is Element));
                assert(leafy(st2)) by {
                    assert forall|i: int, j: int|
                        0 <= i < st2.len() && 0 <= j < st2[i].children.len() implies !(
                    #[trigger] st2[i].children[j] is Element) by {
                        if i < st.len() - 1 {
                            assert(st2[i] == st[i]);
                        } else {
                            if j < st[i].children.len() {
                                assert(st2[i].children[j] == st[i].children[j]);
                            } else {
                                assert(st2[i].children[j] == st2.last().children.last());
                            }
                        }
                    }
                }
                lemma_build_no_end(ts.drop_first(), st2);
                assert(frame_names(st2) =~= frame_names(st));
                assert(start_tag_names(ts) =~= start_tag_names(ts.drop_first()));
            },
        }
    }
}

proof fn lemma_collapse_chain(st: Seq<GFrame>)
    requires
        st.len() >= 1,
    ensures
        chain_names(gframe_elem(collapse_frames(st))) == frame_names(st).take(st.len() - 1)
            + chain_names(gframe_elem(st.last())),
    decreases st.len(),
{
    if st.len() == 1 {
        assert(frame_names(st).take(0) =~= Seq::<Seq<char>>::empty());
        assert(Seq::<Seq<char>>::empty() + chain_names(gframe_elem(st.last())) =~= chain_names(
            gframe_elem(st.last()),
        ));
    } else {
        let k = st.len() - 2;
        let st2 = crate::html::push_child(st.drop_last(), gframe_elem(st.last()));
        assert(st2.len() == st.len() - 1);
        assert(st2.last() == GFrame {
            name: st[k].name,
            attrs: st[k].attrs,
            children: st[k].children.push(gframe_elem(st.last())),
        });
        lemma_collapse_chain(st2);
        // The chain through the updated frame continues through the newly
        // attached element.
        let f2 = st2.last();
        assert(f2.children.len() > 0);
        assert(f2.children.last() == gframe_elem(st.last()));
        assert(chain_names(gframe_elem(f2)) == seq![st[k].name] + chain_names(
            gframe_elem(st.last()),
        ));
        assert(frame_names(st2).take(st2.len() - 1) =~= frame_names(st).take(k));
        assert(frame_names(st).take(st.len() - 1) =~= frame_names(st).take(k).push(st[k].name));
        assert(frame_names(st).take(k) + (seq![st[k].name] + chain_names(gframe_elem(st.last())))
            =~= (frame_names(st).take(k).push(st[k].name)) + chain_names(gframe_elem(st.last())));
    }
}

/// LAW — recovery from missing closing tags. For any token stream without
/// a single end tag (an input missing all its closing tags), the tree
/// builder still returns a tree, and the open elements end up as the
/// deepest-nested children: the chain of last children of the built tree
/// carries the synthetic root's name and then exactly the start tags, in
/// order, whatever text, comments or doctypes lie between them. Building
/// is total, so it never fails and never loops.
pub proof fn lemma_unclosed_tags_nest(ts: Seq<GToken>)
    requires
        no_end_tags(ts),
    ensures
        chain_names(spec_build(ts)) == seq!["html"@] + start_tag_names(ts),
{
    assert(leafy(init_frames()));
    lemma_build_no_end(ts, init_frames());
    let frames = build_frames(ts, init_frames());
    lemma_collapse_chain(frames);
    assert(frame_names(frames) == frame_names(init_frames()) + start_tag_names(ts));
    assert(frame_names(init_frames()) =~= seq!["html"@]);
    // The innermost frame's chain is its own name alone: its children, if
    // any, are leaves, and a leaf contributes no chain entry.
    let lastf = frames.last();
    assert(lastf == frames[frames.len() - 1]);
    if lastf.children.len() > 0 {
        assert(!(lastf.children.last() is Element));
        assert(chain_names(lastf.children.last()) =~= Seq::<Seq<char>>::empty());
        assert(chain_names(gframe_elem(lastf)) =~= seq![lastf.name]);
    }
    assert(chain_names(gframe_elem(lastf)) == seq![lastf.name]);
    assert(frame_names(frames)[frames.len() - 1] == lastf.name);
    assert(chain_names(spec_build(ts)) =~= frame_names(frames).take(frames.len() - 1).push(
        lastf.name,
    ));
    assert(frame_names(frames).take(frames.len() - 1).push(lastf.name) =~= frame_names(frames));
    assert(chain_names(spec_build(ts)) =~= seq!["html"@] + start_tag_names(ts));
}

/// LAW — layout idempotence. The computed layout is a pure function of the
/// tree, the attached styles and the origin: any two box trees that each
/// satisfy `LayoutEngine::layout`'s contract for the same inputs are
/// identical, bit for bit; repeated layout runs cannot differ.
pub proof fn lemma_layout_deterministic(
    n: GNode,
    styles: Seq<(Seq<usize>, GStyle)>,
    x: int,
    y: int,
    b1: GBox,
    b2: GBox,
)
    requires
        b1 == spec_layout(n, styles, x, y),
        b2 == spec_layout(n, styles, x, y),
    ensures
        b1 == b2,
{
}

} // verus!
