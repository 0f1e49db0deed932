//! Pictures made of coloured rectangles, one over the other.
use vstd::prelude::*;
use crate::color::Color;
use crate::pixel::{in_block, rect, Framebuffer};

verus! {

/// A rectangle of one colour.
#[derive(Clone, Copy, Debug, PartialEq, Eq, Structural)]
pub struct Patch {
    pub x: i32,
    pub y: i32,
    pub w: i32,
    pub h: i32,
    pub color: Color,
}

/// Whether a patch covers a pixel.
pub open spec fn covers(p: Patch, x: int, y: int) -> bool {
    in_block(p.x as int, p.y as int, p.x + p.w, p.y + p.h, x, y)
}

/// The colour of a pixel: that of the last patch that covers it.
pub open spec fn top_color(patches: Seq<Patch>, x: int, y: int) -> Option<i32>
    decreases patches.len(),
{
    if patches.len() == 0 {
        None
    } else if covers(patches.last(), x, y) {
        Some(patches.last().color.0)
    } else {
        top_color(patches.drop_last(), x, y)
    }
}

/// Whether a buffer shows the patches, over what it showed before.
pub open spec fn shows(fb: Framebuffer, before: Framebuffer, patches: Seq<Patch>) -> bool {
    &&& fb.wf()
    &&& fb.w == before.w
    &&& fb.h == before.h
    &&& forall|x: int, y: int|
        fb.inside(x, y) ==> #[trigger] fb.at(x, y) == match top_color(patches, x, y) {
            Some(c) => c,
            None => before.at(x, y),
        }
}

/// Paints the patches, one over the other.
pub fn draw(fb: &mut Framebuffer, patches: &Vec<Patch>)
    requires
        old(fb).wf(),
    ensures
        shows(*final(fb), *old(fb), patches@),
{
    let ghost before = *fb;
    let mut i: usize = 0;
    assert(patches@.take(0) =~= Seq::empty());
    while i < patches.len()
        invariant
            i <= patches@.len(),
            shows(*fb, before, patches@.take(i as int)),
        decreases patches.len() - i,
    {
        let ghost now = *fb;
        let p = patches[i];
        rect(fb, p.x, p.y, p.w, p.h, p.color);
        proof {
            let more = patches@.take(i + 1);
            assert(more.drop_last() =~= patches@.take(i as int));
            assert(more.last() == p);
            assert forall|x: int, y: int| fb.inside(x, y) implies #[trigger] fb.at(x, y)
                == match top_color(more, x, y) {
                Some(c) => c,
                None => before.at(x, y),
            } by {
                assert(now.inside(x, y));
                assert(now.at(x, y) == match top_color(patches@.take(i as int), x, y) {
                    Some(c) => c,
                    None => before.at(x, y),
                });
            }
        }
        i += 1;
    }
    assert(patches@.take(i as int) =~= patches@);
}

/// What is painted later lies over what was painted earlier.
pub proof fn lemma_later_lies_over(a: Seq<Patch>, b: Seq<Patch>, x: int, y: int)
    ensures
        top_color(a + b, x, y) == match top_color(b, x, y) {
            Some(c) => Some(c),
            None => top_color(a, x, y),
        },
    decreases b.len(),
{
    if b.len() == 0 {
        assert(a + b =~= a);
    } else {
        assert((a + b).drop_last() =~= a + b.drop_last());
        lemma_later_lies_over(a, b.drop_last(), x, y);
    }
}

/// A pixel shows the last patch that covers it, and what was there before where none does.
pub proof fn lemma_last_patch_is_seen(
    fb: Framebuffer,
    before: Framebuffer,
    a: Seq<Patch>,
    p: Patch,
    b: Seq<Patch>,
    x: int,
    y: int,
)
    requires
        shows(fb, before, a + seq![p] + b),
        0 <= x < fb.w,
        0 <= y < fb.h,
        forall|i: int| 0 <= i < b.len() ==> !covers(#[trigger] b[i], x, y),
    ensures
        p.x <= x < p.x + p.w && p.y <= y < p.y + p.h ==> fb.at(x, y) == p.color.0,
        !(p.x <= x < p.x + p.w && p.y <= y < p.y + p.h) && (forall|i: int|
            0 <= i < a.len() ==> !covers(#[trigger] a[i], x, y)) ==> fb.at(x, y) == before.at(x, y),
{
    assert(fb.inside(x, y));
    lemma_none_covers(b, x, y);
    lemma_later_lies_over(a + seq![p], b, x, y);
    assert((a + seq![p]).drop_last() =~= a);
    assert((a + seq![p]).last() == p);
    if forall|i: int| 0 <= i < a.len() ==> !covers(#[trigger] a[i], x, y) {
        lemma_none_covers(a, x, y);
    }
}

proof fn lemma_none_covers(s: Seq<Patch>, x: int, y: int)
    requires
        forall|i: int| 0 <= i < s.len() ==> !covers(#[trigger] s[i], x, y),
    ensures
        top_color(s, x, y) is None,
    decreases s.len(),
{
    if s.len() > 0 {
        let d = s.drop_last();
        assert forall|i: int| 0 <= i < d.len() implies !covers(#[trigger] d[i], x, y) by {
            assert(d[i] == s[i]);
        }
        lemma_none_covers(d, x, y);
        assert(!covers(s[s.len() - 1], x, y));
    }
}

} // verus!
