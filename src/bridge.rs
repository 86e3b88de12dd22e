use vstd::prelude::*;

use crate::ring::{
    all_wf, copied_into, lemma_locate_unique, lemma_prefix_mono, lemma_taken_step, prefix, taken,
    total, Ring, RingSet, Slot,
};

verus! {

/// The position in the flattened stream of `rs` of the slot `k` places
/// after `cur` in ring `i`.
pub open spec fn flat(rs: Seq<Ring>, i: int, k: int) -> int {
    prefix(rs, i) + k
}

/// `after` is `before` with its `cur` moved `n` slots on.
pub open spec fn advanced(before: Ring, after: Ring, n: int) -> bool {
    &&& after.slots@.len() == before.slots@.len()
    &&& after.tail == before.tail
    &&& after.cur == before.pos(n)
}

/// Every source slot fits in the destination slot that it is paired with:
/// the one at the same position of the flattened destination stream.
pub open spec fn fits(src: Seq<Ring>, dst: Seq<Ring>) -> bool {
    forall|a: int, x: int, b: int, y: int|
        0 <= a < src.len() && 0 <= x < src[a].avail() && 0 <= b < dst.len() && 0 <= y
            < dst[b].avail() && prefix(src, a) + x == prefix(dst, b) + y ==> (#[trigger] src[a].slot_at(
            x,
        )).len <= (#[trigger] dst[b].slot_at(y)).capacity()
}

/// The slots of `dst` from place `n` of its ring on are as in `d0`.
pub open spec fn untouched_from(d0: Seq<Ring>, dst: Seq<Ring>, c: int) -> bool {
    forall|b: int, y: int|
        0 <= b < d0.len() && taken(d0, b, c) <= y < d0[b].size() ==> #[trigger] dst[b].slots@[d0[b].pos(
            y,
        )] == d0[b].slot_at(y)
}

/// The first `c` slots of the flattened destination stream hold copies of
/// the first `c` slots of the flattened source stream.
pub open spec fn copied_prefix(s0: Seq<Ring>, d0: Seq<Ring>, dst: Seq<Ring>, c: int) -> bool {
    forall|a: int, x: int, b: int, y: int|
        0 <= a < s0.len() && 0 <= x < s0[a].avail() && 0 <= b < d0.len() && 0 <= y < d0[b].avail()
            && #[trigger] flat(s0, a, x) == #[trigger] flat(d0, b, y) && prefix(d0, b) + y < c
            ==> copied_into(d0[b].slot_at(y), dst[b].slots@[d0[b].pos(y)], s0[a].slot_at(x))
}

/// The outcome of one pass that moved `c` slots from the receive rings `s0`
/// to the transmit rings `d0`, leaving them as `s1` and `d1`.
pub open spec fn bridged(s0: Seq<Ring>, d0: Seq<Ring>, s1: Seq<Ring>, d1: Seq<Ring>, c: int) -> bool {
    &&& c == if total(s0) <= total(d0) { total(s0) } else { total(d0) }
    &&& s1.len() == s0.len()
    &&& d1.len() == d0.len()
    &&& forall|i: int|
        0 <= i < s0.len() ==> {
            &&& (#[trigger] s1[i]).slots@ == s0[i].slots@
            &&& advanced(s0[i], s1[i], taken(s0, i, c))
            &&& s1[i].head == s1[i].cur
        }
    &&& forall|i: int|
        0 <= i < d0.len() ==> {
            &&& advanced(d0[i], #[trigger] d1[i], taken(d0, i, c))
            &&& d1[i].head == d1[i].cur
        }
    &&& untouched_from(d0, d1, c)
    &&& copied_prefix(s0, d0, d1, c)
}

/// Moves frames from the receive rings `src` to the transmit rings `dst`.
///
/// The receive rings are read as one stream, ring after ring; the transmit
/// rings are filled ring after ring. The pass stops as soon as either side
/// runs out of slots. Each frame is copied into its transmit slot, whose
/// length becomes the frame's length. Afterwards every ring of both sides
/// hands its slots up to `cur` over to the I/O layer. Returns the number of
/// frames moved.
pub fn move_packets(src: &mut RingSet, dst: &mut RingSet) -> (copied: usize)
    requires
        all_wf(old(src).rings@),
        all_wf(old(dst).rings@),
        fits(old(src).rings@, old(dst).rings@),
        total(old(dst).rings@) <= usize::MAX,
    ensures
        bridged(old(src).rings@, old(dst).rings@, final(src).rings@, final(dst).rings@, copied as int),
        all_wf(final(src).rings@),
        all_wf(final(dst).rings@),
{
    let ghost s0 = src.rings@;
    let ghost d0 = dst.rings@;
    let ns = src.rings.len();
    let nd = dst.rings.len();
    let mut c: usize = 0;
    let mut si: usize = 0;
    let mut di: usize = 0;
    let mut done = false;
    proof {
        lemma_prefix_mono(s0, 0, ns as int);
        lemma_prefix_mono(d0, 0, nd as int);
        assert forall|i: int| 0 <= i < ns implies taken(s0, i, 0) == 0 by {
            lemma_prefix_mono(s0, 0, i);
        }
        assert forall|i: int| 0 <= i < nd implies taken(d0, i, 0) == 0 && #[trigger] prefix(d0, i)
            >= 0 by {
            lemma_prefix_mono(d0, 0, i);
        }
    }
    while di < nd && !done
        invariant
            ns == s0.len(),
            nd == d0.len(),
            src.rings@.len() == ns,
            dst.rings@.len() == nd,
            all_wf(s0),
            all_wf(d0),
            fits(s0, d0),
            total(d0) <= usize::MAX,
            all_wf(src.rings@),
            all_wf(dst.rings@),
            forall|i: int|
                0 <= i < ns ==> {
                    &&& (#[trigger] src.rings@[i]).slots@ == s0[i].slots@
                    &&& advanced(s0[i], src.rings@[i], taken(s0, i, c as int))
                },
            forall|i: int|
                0 <= i < nd ==> advanced(d0[i], #[trigger] dst.rings@[i], taken(d0, i, c as int)),
            si <= ns,
            di <= nd,
            prefix(s0, si as int) <= c,
            si < ns ==> c <= prefix(s0, si + 1),
            prefix(d0, di as int) <= c,
            di < nd ==> c <= prefix(d0, di + 1),
            c <= total(s0),
            c <= total(d0),
            done ==> c == total(s0),
            untouched_from(d0, dst.rings@, c as int),
            copied_prefix(s0, d0, dst.rings@, c as int),
        decreases nd - di, (if done { 0int } else { 1int }),
    {
        while !done && !dst.rings[di].is_exhausted()
            invariant
                ns == s0.len(),
                nd == d0.len(),
                src.rings@.len() == ns,
                dst.rings@.len() == nd,
                all_wf(s0),
                all_wf(d0),
                fits(s0, d0),
                total(d0) <= usize::MAX,
                all_wf(src.rings@),
                all_wf(dst.rings@),
                forall|i: int|
                    0 <= i < ns ==> {
                        &&& (#[trigger] src.rings@[i]).slots@ == s0[i].slots@
                        &&& advanced(s0[i], src.rings@[i], taken(s0, i, c as int))
                    },
                forall|i: int|
                    0 <= i < nd ==> advanced(d0[i], #[trigger] dst.rings@[i], taken(d0, i, c as int)),
                si <= ns,
                di < nd,
                prefix(s0, si as int) <= c,
                si < ns ==> c <= prefix(s0, si + 1),
                prefix(d0, di as int) <= c <= prefix(d0, di + 1),
                c <= total(s0),
                c <= total(d0),
                done ==> c == total(s0),
                untouched_from(d0, dst.rings@, c as int),
                copied_prefix(s0, d0, dst.rings@, c as int),
            decreases total(d0) - c, (if done { 0int } else { 1int }),
        {
            while si < ns && src.rings[si].is_exhausted()
                invariant
                    ns == s0.len(),
                    src.rings@.len() == ns,
                    all_wf(s0),
                    all_wf(src.rings@),
                    forall|i: int|
                        0 <= i < ns ==> {
                            &&& (#[trigger] src.rings@[i]).slots@ == s0[i].slots@
                            &&& advanced(s0[i], src.rings@[i], taken(s0, i, c as int))
                        },
                    si <= ns,
                    prefix(s0, si as int) <= c,
                    si < ns ==> c <= prefix(s0, si + 1),
                    c <= total(s0),
                decreases ns - si,
            {
                proof {
                    let k = si as int;
                    assert(src.rings@[k].wf());
                    assert(s0[k].wf());
                    if si + 1 < ns {
                        lemma_prefix_mono(s0, k + 1, k + 2);
                    }
                }
                si = si + 1;
            }
            if si == ns {
                proof {
                    lemma_prefix_mono(s0, si as int, ns as int);
                }
                done = true;
            } else {
                let ghost k = si as int;
                let ghost m = di as int;
                let ghost x = c - prefix(s0, k);
                let ghost y = c - prefix(d0, m);
                proof {
                    assert(s0[k].wf());
                    assert(d0[m].wf());
                    assert(src.rings@[k].wf());
                    assert(dst.rings@[m].wf());
                    lemma_prefix_mono(s0, k + 1, ns as int);
                    lemma_prefix_mono(d0, m + 1, nd as int);
                    lemma_taken_step(s0, k, c as int);
                    lemma_taken_step(d0, m, c as int);
                    assert(s0[k].slot_at(x).len <= d0[m].slot_at(y).capacity());
                    assert(dst.rings@[m].slots@[d0[m].pos(y)] == d0[m].slot_at(y));
                }
                let ghost before = dst.rings@;
                let scur = src.rings[si].cur;
                let dcur = dst.rings[di].cur;
                dst.rings[di].slots[dcur].copy_from(&src.rings[si].slots[scur]);
                let ns_cur = src.rings[si].next_index(scur);
                src.rings[si].cur = ns_cur;
                let nd_cur = dst.rings[di].next_index(dcur);
                dst.rings[di].cur = nd_cur;
                c = c + 1;
                proof {
                    assert forall|b: int, yy: int|
                        0 <= b < nd && taken(d0, b, c as int) <= yy < d0[b].size() implies #[trigger] dst.rings@[b].slots@[d0[b].pos(
                        yy,
                    )] == d0[b].slot_at(yy) by {
                        assert(before[b].slots@[d0[b].pos(yy)] == d0[b].slot_at(yy));
                    }
                    assert forall|a: int, xx: int, b: int, yy: int|
                        0 <= a < ns && 0 <= xx < s0[a].avail() && 0 <= b < nd && 0 <= yy < d0[b].avail()
                            && #[trigger] flat(s0, a, xx) == #[trigger] flat(d0, b, yy) && prefix(d0, b) + yy
                            < c implies copied_into(
                        d0[b].slot_at(yy),
                        dst.rings@[b].slots@[d0[b].pos(yy)],
                        s0[a].slot_at(xx),
                    ) by {
                        if prefix(d0, b) + yy == c - 1 {
                            lemma_locate_unique(s0, a, xx, k, x);
                            lemma_locate_unique(d0, b, yy, m, y);
                        } else {
                            assert(copied_into(
                                d0[b].slot_at(yy),
                                before[b].slots@[d0[b].pos(yy)],
                                s0[a].slot_at(xx),
                            ));
                        }
                    }
                    assert forall|i: int| 0 <= i < nd implies (#[trigger] dst.rings@[i]).wf() by {
                        assert(before[i].wf());
                        if i == m {
                            assert forall|j: int| 0 <= j < dst.rings@[i].size() implies (
                            #[trigger] dst.rings@[i].slots@[j]).wf() by {
                                assert(before[i].slots@[j].wf());
                            }
                        }
                    }
                    assert forall|i: int| 0 <= i < ns implies (#[trigger] src.rings@[i]).wf() by {
                        assert(s0[i].wf());
                    }
                }
            }
        }
        if !done {
            proof {
                assert(dst.rings@[di as int].wf());
                assert(d0[di as int].wf());
                if di + 1 < nd {
                    lemma_prefix_mono(d0, di + 1, di + 2);
                }
            }
            di = di + 1;
        }
    }
    proof {
        if !done {
            assert(c == total(d0));
        }
    }
    let ghost s_end = src.rings@;
    let ghost d_end = dst.rings@;
    let mut i: usize = 0;
    while i < ns
        invariant
            ns == s_end.len(),
            src.rings@.len() == ns,
            i <= ns,
            forall|j: int|
                0 <= j < ns ==> {
                    &&& (#[trigger] src.rings@[j]).slots == s_end[j].slots
                    &&& src.rings@[j].cur == s_end[j].cur
                    &&& src.rings@[j].tail == s_end[j].tail
                    &&& j < i ==> src.rings@[j].head == src.rings@[j].cur
                    &&& j >= i ==> src.rings@[j].head == s_end[j].head
                },
        decreases ns - i,
    {
        src.rings[i].head_from_cur();
        i = i + 1;
    }
    let mut i: usize = 0;
    while i < nd
        invariant
            nd == d_end.len(),
            dst.rings@.len() == nd,
            i <= nd,
            forall|j: int|
                0 <= j < nd ==> {
                    &&& (#[trigger] dst.rings@[j]).slots == d_end[j].slots
                    &&& dst.rings@[j].cur == d_end[j].cur
                    &&& dst.rings@[j].tail == d_end[j].tail
                    &&& j < i ==> dst.rings@[j].head == dst.rings@[j].cur
                    &&& j >= i ==> dst.rings@[j].head == d_end[j].head
                },
        decreases nd - i,
    {
        dst.rings[i].head_from_cur();
        i = i + 1;
    }
    proof {
        assert forall|b: int, y: int|
            0 <= b < d0.len() && taken(d0, b, c as int) <= y < d0[b].size() implies #[trigger] dst.rings@[b].slots@[d0[b].pos(
            y,
        )] == d0[b].slot_at(y) by {
            assert(d_end[b].slots@[d0[b].pos(y)] == d0[b].slot_at(y));
        }
        assert forall|a: int, x: int, b: int, y: int|
            0 <= a < s0.len() && 0 <= x < s0[a].avail() && 0 <= b < d0.len() && 0 <= y < d0[b].avail()
                && #[trigger] flat(s0, a, x) == #[trigger] flat(d0, b, y) && prefix(d0, b) + y < c
                implies copied_into(d0[b].slot_at(y), dst.rings@[b].slots@[d0[b].pos(y)], s0[a].slot_at(x)) by {
            assert(copied_into(d0[b].slot_at(y), d_end[b].slots@[d0[b].pos(y)], s0[a].slot_at(x)));
        }
        assert forall|j: int| 0 <= j < nd implies (#[trigger] dst.rings@[j]).wf() by {
            assert(d_end[j].wf());
            assert(dst.rings@[j].slots@ == d_end[j].slots@);
        }
        assert forall|j: int| 0 <= j < ns implies (#[trigger] src.rings@[j]).wf() by {
            assert(s_end[j].wf());
            assert(src.rings@[j].slots@ == s_end[j].slots@);
        }
        assert forall|j: int| 0 <= j < ns implies (#[trigger] src.rings@[j]).slots@ == s0[j].slots@ by {
            assert(s_end[j].slots@ == s0[j].slots@);
        }
    }
    c
}

/// Moving `cur` on by `n` available slots leaves `n` fewer available.
pub proof fn lemma_advanced_avail(before: Ring, after: Ring, n: int)
    requires
        before.wf(),
        0 <= n <= before.avail(),
        advanced(before, after, n),
    ensures
        after.avail() == before.avail() - n,
{
}

/// Ring by ring, a pass removes from the available slots of `rs` the first
/// `c` of its flattened stream.
proof fn lemma_prefix_after(rs: Seq<Ring>, after: Seq<Ring>, c: int, i: int)
    requires
        all_wf(rs),
        after.len() == rs.len(),
        0 <= c,
        0 <= i <= rs.len(),
        forall|j: int| 0 <= j < rs.len() ==> advanced(rs[j], #[trigger] after[j], taken(rs, j, c)),
    ensures
        prefix(after, i) == prefix(rs, i) - if c <= prefix(rs, i) { c } else { prefix(rs, i) },
    decreases i,
{
    if i > 0 {
        lemma_prefix_after(rs, after, c, i - 1);
        assert(rs[i - 1].wf());
        assert(advanced(rs[i - 1], after[i - 1], taken(rs, i - 1, c)));
        lemma_advanced_avail(rs[i - 1], after[i - 1], taken(rs, i - 1, c));
    }
}

/// After a pass that moved `c` frames, each side has `c` fewer slots
/// available than before.
pub proof fn lemma_pass_remaining(s0: Seq<Ring>, d0: Seq<Ring>, s1: Seq<Ring>, d1: Seq<Ring>, c: int)
    requires
        all_wf(s0),
        all_wf(d0),
        bridged(s0, d0, s1, d1, c),
    ensures
        total(s1) == total(s0) - c,
        total(d1) == total(d0) - c,
{
    lemma_prefix_mono(s0, 0, s0.len() as int);
    lemma_prefix_mono(d0, 0, d0.len() as int);
    assert forall|j: int| 0 <= j < s0.len() implies advanced(s0[j], #[trigger] s1[j], taken(s0, j, c)) by {
        assert(s1[j].slots@ == s0[j].slots@);
    }
    lemma_prefix_after(s0, s1, c, s0.len() as int);
    lemma_prefix_after(d0, d1, c, d0.len() as int);
}

/// The payload that a copy leaves in a slot is the source's payload, and
/// the slot keeps its capacity.
pub proof fn lemma_copied_payload(before: Slot, after: Slot, src: Slot)
    requires
        src.wf(),
        src.len as nat <= before.capacity(),
        copied_into(before, after, src),
    ensures
        after.len == src.len,
        after.payload() == src.payload(),
        after.capacity() == before.capacity(),
        after.wf(),
{
    assert(after.payload() =~= src.payload());
}

/// One pass moves as many frames as the smaller side has slots for, and the
/// destination slot paired with each moved frame ends with the frame's
/// length and exactly its bytes.
pub proof fn lemma_pass_delivers(
    s0: Seq<Ring>,
    d0: Seq<Ring>,
    s1: Seq<Ring>,
    d1: Seq<Ring>,
    c: int,
    a: int,
    x: int,
    b: int,
    y: int,
)
    requires
        all_wf(s0),
        all_wf(d0),
        fits(s0, d0),
        bridged(s0, d0, s1, d1, c),
        0 <= a < s0.len(),
        0 <= x < s0[a].avail(),
        0 <= b < d0.len(),
        0 <= y < d0[b].avail(),
        flat(s0, a, x) == flat(d0, b, y),
        flat(d0, b, y) < c,
    ensures
        c == if total(s0) <= total(d0) { total(s0) } else { total(d0) },
        d1[b].slots@[d0[b].pos(y)].len == s0[a].slot_at(x).len,
        d1[b].slots@[d0[b].pos(y)].payload() == s0[a].slot_at(x).payload(),
{
    assert(s0[a].wf());
    assert(d0[b].wf());
    assert(s0[a].slot_at(x).wf());
    assert(s0[a].slot_at(x).len <= d0[b].slot_at(y).capacity());
    lemma_copied_payload(d0[b].slot_at(y), d1[b].slots@[d0[b].pos(y)], s0[a].slot_at(x));
}

/// With nothing to receive, a pass moves nothing and changes no slot, yet
/// still hands every ring of both sides over up to its `cur`.
pub proof fn lemma_empty_source_pass(s0: Seq<Ring>, d0: Seq<Ring>, s1: Seq<Ring>, d1: Seq<Ring>, c: int)
    requires
        all_wf(s0),
        all_wf(d0),
        bridged(s0, d0, s1, d1, c),
        total(s0) == 0,
    ensures
        c == 0,
        forall|i: int|
            0 <= i < s0.len() ==> {
                &&& (#[trigger] s1[i]).slots@ == s0[i].slots@
                &&& s1[i].cur == s0[i].cur
                &&& s1[i].tail == s0[i].tail
                &&& s1[i].head == s1[i].cur
            },
        forall|i: int|
            0 <= i < d0.len() ==> {
                &&& (#[trigger] d1[i]).slots@ == d0[i].slots@
                &&& d1[i].cur == d0[i].cur
                &&& d1[i].tail == d0[i].tail
                &&& d1[i].head == d1[i].cur
            },
{
    lemma_prefix_mono(d0, 0, d0.len() as int);
    assert forall|i: int| 0 <= i < s0.len() implies taken(s0, i, 0) == 0 by {
        lemma_prefix_mono(s0, 0, i);
    }
    assert forall|i: int| 0 <= i < d0.len() implies (#[trigger] d1[i]).slots@ == d0[i].slots@ by {
        lemma_prefix_mono(d0, 0, i);
        assert(d0[i].wf());
        assert(taken(d0, i, 0) == 0);
        assert(d1[i].cur == d0[i].cur);
        assert forall|j: int| 0 <= j < d0[i].size() implies d1[i].slots@[j] == d0[i].slots@[j] by {
            let yy = if j >= d0[i].cur { j - d0[i].cur } else { j + d0[i].size() - d0[i].cur };
            assert(d0[i].pos(yy) == j);
            assert(d1[i].slots@[d0[i].pos(yy)] == d0[i].slot_at(yy));
        }
        assert(d1[i].slots@ =~= d0[i].slots@);
    }
    assert forall|i: int| 0 <= i < d0.len() implies (#[trigger] d1[i]).cur == d0[i].cur by {
        lemma_prefix_mono(d0, 0, i);
    }
}

/// Where more frames wait than the destination has slots for, a pass fills
/// every destination slot and leaves the rest of the frames waiting.
pub proof fn lemma_overfull_pass(s0: Seq<Ring>, d0: Seq<Ring>, s1: Seq<Ring>, d1: Seq<Ring>, c: int)
    requires
        all_wf(s0),
        all_wf(d0),
        bridged(s0, d0, s1, d1, c),
        total(s0) > total(d0),
    ensures
        c == total(d0),
        total(s1) == total(s0) - total(d0),
        total(d1) == 0,
{
    lemma_pass_remaining(s0, d0, s1, d1, c);
}

/// The frames that one pass leaves waiting are all moved by a second pass
/// into a destination with room for them.
pub proof fn lemma_second_pass_drains(
    s0: Seq<Ring>,
    d0: Seq<Ring>,
    s1: Seq<Ring>,
    d1: Seq<Ring>,
    c1: int,
    d2: Seq<Ring>,
    s2: Seq<Ring>,
    d3: Seq<Ring>,
    c2: int,
)
    requires
        all_wf(s0),
        all_wf(d0),
        all_wf(s1),
        all_wf(d2),
        bridged(s0, d0, s1, d1, c1),
        bridged(s1, d2, s2, d3, c2),
        total(d2) >= total(s1),
    ensures
        c2 == total(s0) - c1,
        c1 + c2 == total(s0),
        total(s2) == 0,
{
    lemma_pass_remaining(s0, d0, s1, d1, c1);
    lemma_pass_remaining(s1, d2, s2, d3, c2);
}

} // verus!
