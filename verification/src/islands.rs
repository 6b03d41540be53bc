use vstd::prelude::*;
use crate::ast::{Content, content_is_static};

verus! {

/// One planned emission group among the children of a node: either a
/// maximal run of consecutive static siblings, to be fused into one
/// literal, or a single dynamic sibling.  The group covers the children
/// with indexes `start <= k < end`.
pub struct Island {
    pub is_static: bool,
    pub start: usize,
    pub end: usize,
}

/// The islands tile `0..len` without gaps, overlaps or empty groups, in
/// order.
pub open spec fn islands_chain(r: Seq<Island>, len: int) -> bool {
    &&& (r.len() == 0 ==> len == 0)
    &&& (r.len() > 0 ==> r[0].start == 0 && r[r.len() - 1].end == len)
    &&& (forall|i: int| 0 <= i < r.len() - 1 ==> (#[trigger] r[i].end) == r[i + 1].start)
    &&& (forall|i: int| 0 <= i < r.len() ==> (#[trigger] r[i].start) < r[i].end <= len)
}

/// Static islands hold only static children; dynamic islands hold exactly
/// one dynamic child.
pub open spec fn island_flags_ok(r: Seq<Island>, cs: Seq<Content>) -> bool {
    &&& (forall|i: int|
        0 <= i < r.len() && (#[trigger] r[i].is_static) ==> (forall|k: int|
            r[i].start <= k < r[i].end ==> content_is_static(#[trigger] cs[k])))
    &&& (forall|i: int|
        0 <= i < r.len() && !(#[trigger] r[i].is_static) ==> r[i].end == r[i].start + 1
            && !content_is_static(cs[r[i].start as int]))
}

/// No two adjacent static islands: each static run is maximal.
pub open spec fn islands_maximal(r: Seq<Island>) -> bool {
    forall|i: int| 0 <= i < r.len() - 1 ==> !((#[trigger] r[i].is_static) && r[i + 1].is_static)
}

/// A correct plan for the children `cs`: a tiling into maximal static runs
/// and single dynamic nodes.  Grouping changes neither order nor content,
/// only how adjacent static text is later fused.
pub open spec fn islands_wf(r: Seq<Island>, cs: Seq<Content>) -> bool {
    islands_chain(r, cs.len() as int) && island_flags_ok(r, cs) && islands_maximal(r)
}

/// How many children the plan has covered so far.
pub open spec fn covered(r: Seq<Island>) -> int {
    if r.len() == 0 {
        0
    } else {
        r[r.len() - 1].end as int
    }
}

/// Group the children into islands: walk left to right, accumulate runs of
/// consecutive static children, and emit each dynamic child as a group of
/// its own.
#[verifier::loop_isolation(false)]
pub fn plan_islands(children: &Vec<Content>) -> (r: Vec<Island>)
    ensures
        islands_wf(r@, children@),
{
    let n = children.len();
    let mut r: Vec<Island> = Vec::new();
    let mut in_run = false;
    let mut start: usize = 0;
    for i in 0..n
        invariant
            n == children@.len(),
            in_run ==> start < i,
            in_run ==> (forall|k: int|
                start <= k < i ==> content_is_static(#[trigger] children@[k])),
            r@.len() > 0 ==> !r@[r@.len() - 1].is_static,
            covered(r@) == if in_run {
                start as int
            } else {
                i as int
            },
            islands_chain(r@, covered(r@)),
            island_flags_ok(r@, children@),
            islands_maximal(r@),
    {
        if children[i].is_static() {
            if !in_run {
                in_run = true;
                start = i;
            }
        } else {
            if in_run {
                r.push(Island { is_static: true, start, end: i });
                in_run = false;
            }
            r.push(Island { is_static: false, start: i, end: i + 1 });
        }
    }
    if in_run {
        r.push(Island { is_static: true, start, end: n });
    }
    r
}

} // verus!
