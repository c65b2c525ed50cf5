use vstd::pervasive::unreached;
use vstd::prelude::*;
use vstd::seq_lib::group_to_multiset_ensures;

use crate::coords::{BlockKind, BlockPos, FinePos};
use crate::jump::{near_any, near_jump, two_by_two_to_block_pos, Jump, JumpBlock};
use crate::palette::{choice_ok, Palette};
use crate::port::{
    anchor_has_margin, candidate_ok, is_successor_anchor, succ_dx, succ_dy, succ_dz, Port,
};
use crate::rng::shuffle_jumps;
use crate::world::{chunk_coord, chunk_of, ChunkXZ, TerrainView};

verus! {

/// How many speculative platforms must be provably placeable beyond a
/// platform before one platform is committed and built.
pub const FORESIGHT: u32 = 2;

/// The candidate respects everything its predecessors demand: it does not
/// stand too close to known terrain; every placement of the elements 3
/// through 15 before the tip stays out of its bounding box inflated by 4
/// (the course must not loop back near itself); every placement of the two
/// elements just before the tip stays out of its box inflated by 2 (those are
/// expected to be near, only gross overlap is disallowed); and it does not
/// exceed the build-height ceiling. The tip itself is exempt: a candidate is
/// always adjacent to it.
pub open spec fn valid_candidate(jump: Jump, previous: Seq<Jump>, view: TerrainView) -> bool {
    let l = previous.len() as int;
    &&& !jump.spec_too_close(view)
    &&& !near_any(
        jump.blocks_seq(),
        previous,
        if l >= 16 {
            l - 16
        } else {
            0
        },
        if l >= 3 {
            l - 3
        } else {
            0
        },
        4,
    )
    &&& !near_any(
        jump.blocks_seq(),
        previous,
        if l >= 3 {
            l - 3
        } else {
            0
        },
        if l >= 1 {
            l - 1
        } else {
            0
        },
        2,
    )
    &&& !jump.spec_too_high()
}

/// Decides whether a candidate may be appended after `previous`.
pub fn valid_jump(jump: &Jump, previous: &Vec<Jump>, view: &TerrainView) -> (r: bool)
    requires
        jump.blocks_seq().len() >= 1,
    ensures
        r == valid_candidate(*jump, previous@, *view),
{
    let l = previous.len();
    let lo4: usize = if l >= 16 {
        l - 16
    } else {
        0
    };
    let hi4: usize = if l >= 3 {
        l - 3
    } else {
        0
    };
    let lo2: usize = if l >= 3 {
        l - 3
    } else {
        0
    };
    let hi2: usize = if l >= 1 {
        l - 1
    } else {
        0
    };
    !jump.too_close(view) && !jump.too_close_to_jumps(previous, lo4, hi4, 4)
        && !jump.too_close_to_jumps(previous, lo2, hi2, 2) && !jump.too_high()
}

/// What holds of every shuffled candidate option for extending a timeline
/// whose tip is a standard platform anchored at `tip`: a well-formed
/// in-memory standard platform at one of the candidate successor anchors,
/// decorated as the palette allows.
pub open spec fn option_fact(tip: BlockPos, view: TerrainView, palette: Palette, j: Jump) -> bool {
    &&& j.wf()
    &&& j.endpoint is TwoByTwo
    &&& is_successor_anchor(tip, j.endpoint.spec_anchor())
    &&& forall|m: int|
        0 <= m < j.blocks_seq().len() ==> choice_ok(
            palette,
            view.spec_biome_at(j.endpoint.spec_anchor()),
            (#[trigger] j.blocks_seq()[m]).state,
        )
}

/// Some option in the list is a well-formed standard platform at the k-th
/// candidate offset from `tip`.
pub open spec fn option_at_offset(options: Seq<Jump>, tip: BlockPos, k: int) -> bool {
    exists|m: int|
        0 <= m < options.len() && (#[trigger] options[m]).wf() && options[m].endpoint is TwoByTwo
            && options[m].endpoint.spec_anchor().x == tip.x + succ_dx(k)
            && options[m].endpoint.spec_anchor().y == tip.y + succ_dy(k)
            && options[m].endpoint.spec_anchor().z == tip.z + succ_dz(k)
}

/// A candidate successor anchor lies within five blocks of its origin along
/// every axis.
pub proof fn lemma_successor_close(a: BlockPos, b: BlockPos)
    requires
        is_successor_anchor(a, b),
    ensures
        a.x - 5 <= b.x <= a.x + 5,
        a.y - 1 <= b.y <= a.y + 1,
        a.z - 5 <= b.z <= a.z + 5,
{
    let k = choose|k: int|
        #![trigger succ_dx(k), succ_dz(k)]
        0 <= k < 12 && b.x == a.x + succ_dx(k) && b.y == a.y + succ_dy(k) && b.z == a.z + succ_dz(
            k,
        );
    assert(-5 <= succ_dx(k) <= 5);
    assert(-1 <= succ_dy(k) <= 1);
    assert(-5 <= succ_dz(k) <= 5);
}

/// The shuffled candidate options of the timeline's tip, in the random order
/// in which the search will try them.
fn shuffled_options(
    start: &Port,
    view: &TerrainView,
    palette: &Palette,
    rng: &mut rand::rngs::SmallRng,
) -> (r: Vec<Jump>)
    requires
        start is TwoByTwo ==> anchor_has_margin(start.spec_anchor(), 6),
    ensures
        start is TwoByTwoPortal ==> r@.len() == 0,
        start is TwoByTwo ==> r@.len() == 12,
        forall|k: int|
            0 <= k < r@.len() ==> option_fact(
                start.spec_anchor(),
                *view,
                *palette,
                #[trigger] r@[k],
            ),
        start is TwoByTwo ==> forall|k: int|
            0 <= k < 12 ==> #[trigger] option_at_offset(r@, start.spec_anchor(), k),
{
    let mut options = start.possible_next_jumps(view, palette, rng);
    let ghost pre = options@;
    proof {
        assert(forall|k: int|
            0 <= k < pre.len() ==> option_fact(start.spec_anchor(), *view, *palette, #[trigger] pre[k]));
    }
    shuffle_jumps(rng, &mut options);
    proof {
        broadcast use group_to_multiset_ensures;

        assert(options@.len() == options@.to_multiset().len());
        assert(pre.len() == pre.to_multiset().len());
        assert forall|k: int| 0 <= k < options@.len() implies option_fact(
            start.spec_anchor(),
            *view,
            *palette,
            #[trigger] options@[k],
        ) by {
            let x = options@[k];
            assert(options@.contains(x));
            assert(options@.to_multiset().count(x) > 0);
            assert(pre.to_multiset().count(x) > 0);
            assert(pre.contains(x));
            let m = choose|m: int| 0 <= m < pre.len() && pre[m] == x;
            assert(option_fact(start.spec_anchor(), *view, *palette, pre[m]));
        }
        if start is TwoByTwo {
            assert forall|k: int| 0 <= k < 12 implies #[trigger] option_at_offset(
                options@,
                start.spec_anchor(),
                k,
            ) by {
                let x = pre[k];
                assert(candidate_ok(start.spec_anchor(), *view, *palette, pre[k], k));
                assert(pre.contains(x));
                assert(pre.to_multiset().count(x) > 0);
                assert(options@.to_multiset().count(x) > 0);
                assert(options@.contains(x));
                let m = choose|m: int| 0 <= m < options@.len() && options@[m] == x;
                assert(0 <= m < options@.len() && options@[m].wf() && options@[m].endpoint
                    is TwoByTwo && options@[m].endpoint.spec_anchor().x == start.spec_anchor().x
                    + succ_dx(k) && options@[m].endpoint.spec_anchor().y == start.spec_anchor().y
                    + succ_dy(k) && options@[m].endpoint.spec_anchor().z == start.spec_anchor().z
                    + succ_dz(k));
            }
        }
    }
    options
}

/// What holds of every element the search appends at position `j` of the
/// timeline: a well-formed standard platform whose anchor was chosen from its
/// predecessor's candidate set and which was a valid candidate against the
/// timeline as it stood.
pub open spec fn appended_ok(jumps: Seq<Jump>, j: int, view: TerrainView, palette: Palette) -> bool {
    &&& jumps[j].wf()
    &&& jumps[j].endpoint is TwoByTwo
    &&& is_successor_anchor(
        jumps[j - 1].endpoint.spec_anchor(),
        jumps[j].endpoint.spec_anchor(),
    )
    &&& valid_candidate(jumps[j], jumps.take(j), view)
    &&& forall|m: int|
        0 <= m < jumps[j].blocks_seq().len() ==> choice_ok(
            palette,
            view.spec_biome_at(jumps[j].endpoint.spec_anchor()),
            (#[trigger] jumps[j].blocks_seq()[m]).state,
        )
}

/// The speculative backtracking search. Shuffles the tip's candidates into
/// random order and tries each in turn: a candidate that passes every
/// validity test is appended, and with `depth` zero that concludes the
/// search; otherwise the search recurses one level deeper atop the appended
/// candidate. A candidate whose continuation fails is popped back off and the
/// next one is tried; when all candidates are exhausted the call fails and
/// leaves the timeline exactly as it found it. The search is exhaustive, so
/// it succeeds exactly when a chain of `depth + 1` valid candidates exists
/// atop the timeline; on success those elements sit atop it, each one a valid
/// candidate chosen from its predecessor's successor set.
pub fn build_jump_tree(
    tree: &mut Vec<Jump>,
    view: &TerrainView,
    palette: &Palette,
    rng: &mut rand::rngs::SmallRng,
    depth: u32,
) -> (ok: bool)
    requires
        old(tree)@.len() >= 1,
        old(tree)@.last().endpoint is TwoByTwo ==> anchor_has_margin(
            old(tree)@.last().endpoint.spec_anchor(),
            6 * (depth + 1),
        ),
    ensures
        final(tree)@.len() >= old(tree)@.len(),
        final(tree)@.take(old(tree)@.len() as int) == old(tree)@,
        ok ==> final(tree)@.len() == old(tree)@.len() + depth + 1,
        !ok ==> final(tree)@ == old(tree)@,
        forall|j: int|
            old(tree)@.len() <= j < final(tree)@.len() ==> appended_ok(
                final(tree)@,
                j,
                *view,
                *palette,
            ),
        ok ==> chain_exists(old(tree)@, *view, (depth + 1) as nat),
        !ok ==> !chain_exists(old(tree)@, *view, (depth + 1) as nat),
    decreases depth,
{
    let ghost orig = tree@;
    let tip = {
        let t = &tree[tree.len() - 1];
        t.endpoint
    };
    let mut options = shuffled_options(&tip, view, palette, rng);
    let ghost full = options@;
    let ghost mut done_n: int = 0;
    proof {
        assert(options@ =~= full.skip(0));
    }
    while options.len() > 0
        invariant
            tree@ == orig,
            orig == old(tree)@,
            orig.len() >= 1,
            tip == orig.last().endpoint,
            tip is TwoByTwo ==> anchor_has_margin(tip.spec_anchor(), 6 * (depth + 1)),
            options@.len() > 0 ==> tip is TwoByTwo,
            full.len() > 0 ==> tip is TwoByTwo,
            0 <= done_n <= full.len(),
            options@ == full.skip(done_n),
            forall|k: int|
                0 <= k < options@.len() ==> option_fact(
                    tip.spec_anchor(),
                    *view,
                    *palette,
                    #[trigger] options@[k],
                ),
            forall|m: int|
                0 <= m < done_n ==> refuted_at(orig, #[trigger] full[m], *view, depth as nat),
            tip is TwoByTwo ==> forall|k: int|
                0 <= k < 12 ==> #[trigger] option_at_offset(full, tip.spec_anchor(), k),
        decreases options.len(),
    {
        let cand = options.remove(0);
        proof {
            assert(full.skip(done_n)[0] == full[done_n]);
            assert(cand == full[done_n]);
            assert(options@ =~= full.skip(done_n + 1));
        }
        assert(option_fact(tip.spec_anchor(), *view, *palette, cand));
        if !valid_jump(&cand, tree, view) {
            proof {
                assert(!valid_candidate(cand, orig, *view));
                assert(refuted_at(orig, full[done_n], *view, depth as nat));
                done_n = done_n + 1;
            }
            continue;
        }
        let ghost cand_g = cand;
        tree.push(cand);
        proof {
            assert(tree@.take(orig.len() as int) =~= orig);
            assert(tree@.take(tree@.len() - 1) =~= orig);
            assert(appended_ok(tree@, orig.len() as int, *view, *palette));
        }
        if depth == 0 {
            proof {
                assert(is_extension(orig, cand_g, *view));
                assert(chain_exists(orig.push(cand_g), *view, 0));
                assert(chain_exists(orig, *view, (depth + 1) as nat));
            }
            return true;
        }
        proof {
            lemma_successor_close(tip.spec_anchor(), cand_g.endpoint.spec_anchor());
            assert(anchor_has_margin(cand_g.endpoint.spec_anchor(), 6 * (depth - 1 + 1)));
        }
        let deeper = build_jump_tree(tree, view, palette, rng, depth - 1);
        if deeper {
            proof {
                assert(tree@.take(orig.len() as int) =~= orig);
                assert forall|j: int| orig.len() <= j < tree@.len() implies appended_ok(
                    tree@,
                    j,
                    *view,
                    *palette,
                ) by {
                    if j > orig.len() {
                        assert(appended_ok(tree@, j, *view, *palette));
                    } else {
                        assert(tree@.take(orig.len() as int + 1)[j] == tree@[j]);
                        assert(appended_ok(tree@.take(orig.len() as int + 1), j, *view, *palette));
                        assert(tree@.take(orig.len() as int + 1).take(j) =~= tree@.take(j));
                    }
                }
                assert(is_extension(orig, cand_g, *view));
                assert(chain_exists(orig.push(cand_g), *view, (depth - 1 + 1) as nat));
                assert(chain_exists(orig, *view, (depth + 1) as nat));
            }
            return true;
        }
        tree.pop();
        proof {
            assert(tree@ =~= orig);
            assert(!chain_exists(orig.push(cand_g), *view, (depth - 1 + 1) as nat));
            assert(refuted_at(orig, full[done_n], *view, depth as nat));
            done_n = done_n + 1;
        }
    }
    proof {
        assert(full.skip(done_n).len() == 0);
        assert(done_n == full.len());
        if tip is TwoByTwo {
            lemma_all_refuted(orig, *view, full, depth as nat);
        } else {
            assert(!chain_exists(orig, *view, (depth + 1) as nat)) by {
                if chain_exists(orig, *view, (depth + 1) as nat) {
                    let c = choose|c: Jump|
                        #![trigger is_extension(orig, c, *view)]
                        is_extension(orig, c, *view) && chain_exists(
                            orig.push(c),
                            *view,
                            ((depth + 1) - 1) as nat,
                        );
                    assert(false);
                }
            }
        }
    }
    false
}

/// The option cannot head a chain of one more than `depth` valid candidates
/// atop the timeline.
spec fn refuted_at(jumps: Seq<Jump>, o: Jump, view: TerrainView, depth: nat) -> bool {
    !(is_extension(jumps, o, view) && chain_exists(jumps.push(o), view, depth))
}

/// When every shuffled option has been refuted, no chain exists: any valid
/// extension stands at one of the twelve candidate offsets, where an option
/// that differs from it at most in its materials was already refuted.
proof fn lemma_all_refuted(jumps: Seq<Jump>, view: TerrainView, full: Seq<Jump>, depth: nat)
    requires
        jumps.len() >= 1,
        forall|k: int|
            0 <= k < 12 ==> #[trigger] option_at_offset(
                full,
                jumps.last().endpoint.spec_anchor(),
                k,
            ),
        forall|m: int| 0 <= m < full.len() ==> refuted_at(jumps, #[trigger] full[m], view, depth),
    ensures
        !chain_exists(jumps, view, (depth + 1) as nat),
{
    if chain_exists(jumps, view, (depth + 1) as nat) {
        let c = choose|c: Jump|
            #![trigger is_extension(jumps, c, view)]
            is_extension(jumps, c, view) && chain_exists(
                jumps.push(c),
                view,
                (((depth + 1) as nat) - 1) as nat,
            );
        let a = jumps.last().endpoint.spec_anchor();
        let ca = c.endpoint.spec_anchor();
        let k = choose|k: int|
            #![trigger succ_dx(k), succ_dz(k)]
            0 <= k < 12 && ca.x == a.x + succ_dx(k) && ca.y == a.y + succ_dy(k) && ca.z == a.z
                + succ_dz(k);
        assert(option_at_offset(full, a, k));
        let m = choose|m: int|
            0 <= m < full.len() && (#[trigger] full[m]).wf() && full[m].endpoint is TwoByTwo
                && full[m].endpoint.spec_anchor().x == a.x + succ_dx(k)
                && full[m].endpoint.spec_anchor().y == a.y + succ_dy(k)
                && full[m].endpoint.spec_anchor().z == a.z + succ_dz(k);
        let o = full[m];
        assert(o.endpoint.spec_anchor() == ca);
        assert(o.endpoint == c.endpoint);
        lemma_same_anchor_pos_equiv(c, o);
        lemma_jumps_pos_equiv_refl(jumps);
        lemma_valid_candidate_equiv(c, o, jumps, jumps, view);
        assert(is_extension(jumps, o, view));
        lemma_push_pos_equiv_two(jumps, c, o);
        lemma_chain_exists_equiv(jumps.push(c), jumps.push(o), view, depth);
        assert(chain_exists(jumps.push(o), view, depth));
        assert(!refuted_at(jumps, o, view, depth));
        assert(false);
    }
}

/// Pushing position-equivalent platforms keeps timelines position-equivalent.
proof fn lemma_push_pos_equiv_two(s: Seq<Jump>, c1: Jump, c2: Jump)
    requires
        jump_pos_equiv(c1, c2),
    ensures
        jumps_pos_equiv(s.push(c1), s.push(c2)),
{
    assert forall|i: int| 0 <= i < s.push(c1).len() implies jump_pos_equiv(
        #[trigger] s.push(c1)[i],
        s.push(c2)[i],
    ) by {
        if i < s.len() {
            assert(s.push(c1)[i] == s[i]);
            assert(s.push(c2)[i] == s[i]);
            lemma_jump_pos_equiv_refl(s[i]);
        } else {
            assert(s.push(c1)[i] == c1);
            assert(s.push(c2)[i] == c2);
        }
    }
}


/// `near_any` reads only the elements of the window, so two timelines that
/// agree there agree on it.
pub proof fn lemma_near_any_agree(
    blocks: Seq<JumpBlock>,
    s1: Seq<Jump>,
    s2: Seq<Jump>,
    lo: int,
    hi: int,
    r: int,
)
    requires
        0 <= lo,
        hi <= s1.len(),
        hi <= s2.len(),
        forall|i: int| lo <= i < hi ==> s1[i] == s2[i],
    ensures
        near_any(blocks, s1, lo, hi, r) == near_any(blocks, s2, lo, hi, r),
{
    if near_any(blocks, s1, lo, hi, r) {
        let i = choose|i: int| lo <= i < hi && near_jump(blocks, #[trigger] s1[i], r);
        assert(near_jump(blocks, s2[i], r));
    }
    if near_any(blocks, s2, lo, hi, r) {
        let i = choose|i: int| lo <= i < hi && near_jump(blocks, #[trigger] s2[i], r);
        assert(near_jump(blocks, s1[i], r));
    }
}

/// Splitting the last element off a `near_any` window.
pub proof fn lemma_near_any_split(blocks: Seq<JumpBlock>, s: Seq<Jump>, lo: int, hi: int, r: int)
    requires
        0 <= lo < hi <= s.len(),
    ensures
        near_any(blocks, s, lo, hi, r) == (near_any(blocks, s, lo, hi - 1, r) || near_jump(
            blocks,
            s[hi - 1],
            r,
        )),
{
    if near_any(blocks, s, lo, hi, r) {
        let i = choose|i: int| lo <= i < hi && near_jump(blocks, #[trigger] s[i], r);
        if i < hi - 1 {
            assert(near_any(blocks, s, lo, hi - 1, r));
        }
    }
    if near_any(blocks, s, lo, hi - 1, r) {
        let i = choose|i: int| lo <= i < hi - 1 && near_jump(blocks, #[trigger] s[i], r);
        assert(lo <= i < hi && near_jump(blocks, s[i], r));
    }
    if near_jump(blocks, s[hi - 1], r) {
        assert(lo <= hi - 1 < hi && near_jump(blocks, s[hi - 1], r));
    }
}

/// A standard platform and a standard platform at one of its candidate
/// successor anchors always clear each other at inflation radius 2: every
/// candidate offset moves at least 4 blocks along some horizontal axis, while
/// each 2x2 footprint extends only one block from its anchor.
pub proof fn lemma_adjacent_clearance(prev: Jump, cand: Jump)
    requires
        prev.wf(),
        cand.wf(),
        prev.endpoint is TwoByTwo,
        cand.endpoint is TwoByTwo,
        is_successor_anchor(prev.endpoint.spec_anchor(), cand.endpoint.spec_anchor()),
    ensures
        !near_jump(cand.blocks_seq(), prev, 2),
{
    let a = prev.endpoint.spec_anchor();
    let b = cand.endpoint.spec_anchor();
    let k = choose|k: int|
        #![trigger succ_dx(k), succ_dz(k)]
        0 <= k < 12 && b.x == a.x + succ_dx(k) && b.y == a.y + succ_dy(k) && b.z == a.z + succ_dz(
            k,
        );
    assert(succ_dx(k) >= 4 || succ_dx(k) <= -4 || succ_dz(k) >= 4 || succ_dz(k) <= -4);
    assert forall|m: int| 0 <= m < prev.blocks_seq().len() implies !crate::jump::within_inflated(
        cand.blocks_seq(),
        (#[trigger] prev.blocks_seq()[m]).pos,
        2,
    ) by {
        let p = prev.blocks_seq()[m].pos;
        assert(a.x <= p.x <= a.x + 1 && p.y == a.y && a.z <= p.z <= a.z + 1);
        if b.x >= a.x + 4 {
            assert forall|i: int| 0 <= i < cand.blocks_seq().len() implies !(p.x
                >= (#[trigger] cand.blocks_seq()[i]).pos.x - 2) by {
                assert(cand.blocks_seq()[i].pos.x >= b.x);
            }
        } else if b.x <= a.x - 4 {
            assert forall|i: int| 0 <= i < cand.blocks_seq().len() implies !(p.x
                <= (#[trigger] cand.blocks_seq()[i]).pos.x + 2) by {
                assert(cand.blocks_seq()[i].pos.x <= b.x + 1);
            }
        } else if b.z >= a.z + 4 {
            assert forall|i: int| 0 <= i < cand.blocks_seq().len() implies !(p.z
                >= (#[trigger] cand.blocks_seq()[i]).pos.z - 2) by {
                assert(cand.blocks_seq()[i].pos.z >= b.z);
            }
        } else {
            assert forall|i: int| 0 <= i < cand.blocks_seq().len() implies !(p.z
                <= (#[trigger] cand.blocks_seq()[i]).pos.z + 2) by {
                assert(cand.blocks_seq()[i].pos.z <= b.z + 1);
            }
        }
    }
}

/// The separation tiers element `j` of a committed timeline observes: every
/// placement of the elements 16 back through 4 back stays out of its box
/// inflated by 4, and every placement of the elements 3 back through the
/// immediate predecessor stays out of its box inflated by 2.
pub open spec fn sep_tiers_at(jumps: Seq<Jump>, j: int) -> bool {
    &&& !near_any(
        jumps[j].blocks_seq(),
        jumps,
        if j >= 16 {
            j - 16
        } else {
            0
        },
        if j >= 3 {
            j - 3
        } else {
            0
        },
        4,
    )
    &&& !near_any(
        jumps[j].blocks_seq(),
        jumps,
        if j >= 3 {
            j - 3
        } else {
            0
        },
        j,
        2,
    )
}

/// The separation invariant of the timeline: every standard element observes
/// its separation tiers. The terminal element is exempt once upgraded, since
/// the finishing structure enlarges its footprint.
pub open spec fn separated(jumps: Seq<Jump>) -> bool {
    forall|j: int|
        0 <= j < jumps.len() && (#[trigger] jumps[j]).endpoint is TwoByTwo ==> sep_tiers_at(
            jumps,
            j,
        )
}

/// A freshly appended valid candidate observes its separation tiers: the
/// radius-4 window and all but the nearest element of the radius-2 window
/// were checked by the search, and the immediate predecessor is cleared by
/// the candidate-offset geometry.
pub proof fn lemma_appended_sep(jumps: Seq<Jump>, j: int, view: TerrainView, palette: Palette)
    requires
        0 < j < jumps.len(),
        appended_ok(jumps, j, view, palette),
        jumps[j - 1].wf(),
        jumps[j - 1].endpoint is TwoByTwo,
    ensures
        sep_tiers_at(jumps, j),
{
    let blocks = jumps[j].blocks_seq();
    let pre = jumps.take(j);
    assert(pre.len() == j);
    let lo4: int = if j >= 16 { j - 16 } else { 0 };
    let hi4: int = if j >= 3 { j - 3 } else { 0 };
    let lo2: int = if j >= 3 { j - 3 } else { 0 };
    let hi2: int = if j >= 1 { j - 1 } else { 0 };
    assert(forall|i: int| 0 <= i < j ==> pre[i] == jumps[i]);
    lemma_near_any_agree(blocks, pre, jumps, lo4, hi4, 4);
    lemma_near_any_agree(blocks, pre, jumps, lo2, hi2, 2);
    lemma_near_any_split(blocks, jumps, lo2, j, 2);
    lemma_adjacent_clearance(jumps[j - 1], jumps[j]);
}

/// The placements of elements `lo..hi` of the timeline, newest element
/// first: the order in which the generator materializes a range.
pub open spec fn rev_blocks(jumps: Seq<Jump>, lo: int, hi: int) -> Seq<JumpBlock>
    decreases hi - lo,
{
    if hi <= lo {
        Seq::empty()
    } else {
        jumps[hi - 1].blocks_seq() + rev_blocks(jumps, lo, hi - 1)
    }
}

/// Peeling the oldest element off a materialization range.
pub proof fn lemma_rev_blocks_peel(jumps: Seq<Jump>, lo: int, hi: int)
    requires
        0 <= lo < hi <= jumps.len(),
    ensures
        rev_blocks(jumps, lo, hi) == rev_blocks(jumps, lo + 1, hi) + jumps[lo].blocks_seq(),
    decreases hi - lo,
{
    if lo + 1 == hi {
        assert(rev_blocks(jumps, lo, lo) =~= Seq::<JumpBlock>::empty());
        assert(rev_blocks(jumps, lo + 1, hi) =~= Seq::<JumpBlock>::empty());
        assert(rev_blocks(jumps, lo, hi) =~= rev_blocks(jumps, lo + 1, hi)
            + jumps[lo].blocks_seq());
    } else {
        lemma_rev_blocks_peel(jumps, lo, hi - 1);
        assert(rev_blocks(jumps, lo, hi) =~= rev_blocks(jumps, lo + 1, hi)
            + jumps[lo].blocks_seq());
    }
}

/// Appends to `placements` the writes that materialize elements `0..hi` of
/// the timeline, newest first.
fn build_reverse(jumps: &Vec<Jump>, hi: usize, placements: &mut Vec<JumpBlock>)
    requires
        hi <= jumps@.len(),
    ensures
        final(placements)@ == old(placements)@ + rev_blocks(jumps@, 0, hi as int),
{
    let mut i: usize = hi;
    proof {
        assert(placements@ =~= placements@ + rev_blocks(jumps@, hi as int, hi as int));
    }
    while i > 0
        invariant
            i <= hi <= jumps@.len(),
            placements@ == old(placements)@ + rev_blocks(jumps@, i as int, hi as int),
        decreases i,
    {
        i = i - 1;
        let mut blocks = {
            let j = &jumps[i];
            j.build()
        };
        placements.append(&mut blocks);
        proof {
            lemma_rev_blocks_peel(jumps@, i as int, hi as int);
            assert(placements@ =~= old(placements)@ + rev_blocks(jumps@, i as int, hi as int));
        }
    }
    proof {
        assert(rev_blocks(jumps@, 0, 0) =~= Seq::<JumpBlock>::empty());
        assert(placements@ =~= old(placements)@ + rev_blocks(jumps@, 0, hi as int));
    }
}

/// One successful generation request, as a relation between the timeline
/// before and after: exactly one element was committed atop the old content.
pub open spec fn commit_step(pre: Seq<Jump>, post: Seq<Jump>) -> bool {
    &&& post.len() == pre.len() + 1
    &&& post.take(pre.len() as int) == pre
}

/// The shared, ever-growing course: an append-only ordered timeline of
/// platforms plus the flag that records whether generation has terminated
/// with a finishing structure.
pub struct ParkourCourse {
    jumps: Vec<Jump>,
    generated_end: bool,
}

impl ParkourCourse {
    /// The timeline, as a mathematical sequence.
    pub closed spec fn jumps_seq(&self) -> Seq<Jump> {
        self.jumps@
    }

    /// Whether generation has terminated.
    pub closed spec fn spec_done(&self) -> bool {
        self.generated_end
    }

    /// The course invariant: the timeline is non-empty; every element is
    /// well-formed; every element's anchor was chosen from its predecessor's
    /// candidate-successor set; only the last element may carry the finishing
    /// port, and it does exactly when generation has terminated; and the
    /// separation invariant holds.
    pub open spec fn wf(&self) -> bool {
        let jumps = self.jumps_seq();
        &&& jumps.len() >= 1
        &&& forall|i: int| 0 <= i < jumps.len() ==> (#[trigger] jumps[i]).wf()
        &&& forall|i: int|
            1 <= i < jumps.len() ==> is_successor_anchor(
                jumps[i - 1].endpoint.spec_anchor(),
                (#[trigger] jumps[i]).endpoint.spec_anchor(),
            )
        &&& forall|i: int| 0 <= i < jumps.len() - 1 ==> (#[trigger] jumps[i]).endpoint is TwoByTwo
        &&& (self.spec_done() <==> jumps[jumps.len() - 1].endpoint is TwoByTwoPortal)
        &&& separated(jumps)
    }

    /// Starts a course with a single standard platform at `start`, of the
    /// given material; generation is not terminated.
    pub fn new(start: BlockPos, kind: BlockKind) -> (c: ParkourCourse)
        requires
            start.x + 1 <= i32::MAX,
            start.z + 1 <= i32::MAX,
        ensures
            c.wf(),
            !c.spec_done(),
            c.jumps_seq().len() == 1,
            c.jumps_seq()[0].endpoint == Port::TwoByTwo(start),
    {
        let mut jumps: Vec<Jump> = Vec::new();
        jumps.push(two_by_two_to_block_pos(start, kind));
        let c = ParkourCourse { jumps, generated_end: false };
        proof {
            assert(c.jumps_seq().len() == 1);
        }
        c
    }

    /// Whether generation has terminated with a finishing structure.
    pub fn done(&self) -> (r: bool)
        ensures
            r == self.spec_done(),
    {
        self.generated_end
    }

    /// The shared spawn anchor: the centroid of the first platform.
    pub fn get_start(&self) -> (r: FinePos)
        requires
            self.jumps_seq().len() >= 1,
        ensures
            r.x == (self.jumps_seq()[0].endpoint.spec_anchor().x as int) * 100 + 100,
            r.y == (self.jumps_seq()[0].endpoint.spec_anchor().y as int) * 100 + 100,
            r.z == (self.jumps_seq()[0].endpoint.spec_anchor().z as int) * 100 + 100,
    {
        let j = &self.jumps[0];
        j.endpoint.center()
    }

    /// The number of elements of the timeline.
    pub fn len(&self) -> (r: i32)
        requires
            self.jumps_seq().len() <= i32::MAX,
        ensures
            r == self.jumps_seq().len(),
    {
        self.jumps.len() as i32
    }

    /// The number of elements of the timeline, as a machine word.
    pub fn jump_count(&self) -> (n: usize)
        ensures
            n == self.jumps_seq().len(),
    {
        self.jumps.len()
    }

    /// One element of the timeline.
    pub fn jump_at(&self, i: usize) -> (j: &Jump)
        requires
            i < self.jumps_seq().len(),
        ensures
            *j == self.jumps_seq()[i as int],
    {
        &self.jumps[i]
    }

    /// The writes that re-materialize every committed element except the
    /// three nearest the frontier, newest first: invoked when previously
    /// unloaded terrain becomes available again, guarding against an
    /// authoritative terrain reset silently erasing course blocks.
    pub fn respawn_course(&self, placements: &mut Vec<JumpBlock>)
        ensures
            final(placements)@ == old(placements)@ + rev_blocks(
                self.jumps_seq(),
                0,
                if self.jumps_seq().len() >= 3 {
                    self.jumps_seq().len() - 3
                } else {
                    0
                },
            ),
    {
        let hi: usize = if self.jumps.len() >= 3 {
            self.jumps.len() - 3
        } else {
            0
        };
        build_reverse(&self.jumps, hi, placements);
    }
}


/// The chunk column at offset `(dx, dz)` from the one containing the
/// timeline tip's centroid.
pub open spec fn chunk_near_tip(tip: BlockPos, dx: int, dz: int) -> ChunkXZ {
    ChunkXZ {
        x: (chunk_coord(tip.x + 1) + dx) as i32,
        z: (chunk_coord(tip.z + 1) + dz) as i32,
    }
}

/// The terrain needed around the timeline tip is available: the snapshot
/// knows the 3x3 neighborhood of chunk columns around the tip's centroid to
/// be loaded.
pub open spec fn chunks_ready(view: TerrainView, tip: BlockPos) -> bool {
    &&& view.spec_chunk_loaded(chunk_near_tip(tip, -1, -1))
    &&& view.spec_chunk_loaded(chunk_near_tip(tip, -1, 0))
    &&& view.spec_chunk_loaded(chunk_near_tip(tip, -1, 1))
    &&& view.spec_chunk_loaded(chunk_near_tip(tip, 0, -1))
    &&& view.spec_chunk_loaded(chunk_near_tip(tip, 0, 0))
    &&& view.spec_chunk_loaded(chunk_near_tip(tip, 0, 1))
    &&& view.spec_chunk_loaded(chunk_near_tip(tip, 1, -1))
    &&& view.spec_chunk_loaded(chunk_near_tip(tip, 1, 0))
    &&& view.spec_chunk_loaded(chunk_near_tip(tip, 1, 1))
}


impl ParkourCourse {
    /// Handles one generation request. A terminated course is never mutated
    /// again. When the terrain around the tip is not yet available the
    /// request is deferred without mutation. Otherwise the lookahead search
    /// runs, and succeeds exactly when a chain of one more platform than the
    /// foresight buffer is provable from the tip: the speculative tail is
    /// then discarded, exactly one new element is committed atop the
    /// timeline, and the element one buffer-width behind the new tip (if any)
    /// is handed out to be built. When no such chain exists, one last attempt
    /// with one less foresight pushes the frontier as far as still provable,
    /// the final element is upgraded to the finishing structure, the course
    /// is marked terminated, and every element is handed out to be built,
    /// newest first.
    #[verifier::rlimit(100)]
    #[verifier::spinoff_prover]
    pub fn spawn_platform(
        &mut self,
        view: &TerrainView,
        palette: &Palette,
        rng: &mut rand::rngs::SmallRng,
        placements: &mut Vec<JumpBlock>,
    ) -> (r: bool)
        requires
            old(self).wf(),
            !old(self).spec_done() ==> anchor_has_margin(
                old(self).jumps_seq().last().endpoint.spec_anchor(),
                18,
            ),
        ensures
            final(self).wf(),
            old(self).spec_done() ==> !r && final(self).jumps_seq() == old(self).jumps_seq()
                && final(self).spec_done() && final(placements)@ == old(placements)@,
            !old(self).spec_done() && !chunks_ready(
                *view,
                old(self).jumps_seq().last().endpoint.spec_anchor(),
            ) ==> !r && final(self).jumps_seq() == old(self).jumps_seq()
                && !final(self).spec_done() && final(placements)@ == old(placements)@,
            r ==> !old(self).spec_done() && !final(self).spec_done() && commit_step(
                old(self).jumps_seq(),
                final(self).jumps_seq(),
            ) && appended_ok(
                final(self).jumps_seq(),
                old(self).jumps_seq().len() as int,
                *view,
                *palette,
            ),
            r && final(self).jumps_seq().len() > 2 ==> final(placements)@ == old(placements)@
                + final(self).jumps_seq()[final(self).jumps_seq().len() - 3].blocks_seq(),
            r && final(self).jumps_seq().len() <= 2 ==> final(placements)@ == old(placements)@,
            !r && !old(self).spec_done() && chunks_ready(
                *view,
                old(self).jumps_seq().last().endpoint.spec_anchor(),
            ) ==> {
                let pre = old(self).jumps_seq();
                let post = final(self).jumps_seq();
                &&& final(self).spec_done()
                &&& post.len() == pre.len() || post.len() == pre.len() + 2
                &&& post.len() == pre.len() + 2 ==> post.take(pre.len() as int) == pre
                &&& (post.len() == pre.len() + 2) == chain_exists(pre, *view, FORESIGHT as nat)
                &&& post.take(pre.len() as int - 1) == pre.take(pre.len() as int - 1)
                &&& post.last().endpoint is TwoByTwoPortal
                &&& final(placements)@ == old(placements)@ + rev_blocks(post, 0, post.len() as int)
            },
            r == (!old(self).spec_done() && chunks_ready(
                *view,
                old(self).jumps_seq().last().endpoint.spec_anchor(),
            ) && chain_exists(old(self).jumps_seq(), *view, (FORESIGHT + 1) as nat)),
    {
        if self.generated_end {
            return false;
        }
        let ghost jumps0 = self.jumps@;
        let tipa = {
            let t = &self.jumps[self.jumps.len() - 1];
            t.endpoint.anchor()
        };
        let ready = terrain_ready(view, tipa);
        if !ready {
            return false;
        }
        let ok = build_jump_tree(&mut self.jumps, view, palette, rng, FORESIGHT);
        proof {
            assert(ok == chain_exists(jumps0, *view, (FORESIGHT + 1) as nat));
        }
        if !ok {
            proof {
                assert(self.jumps@ == jumps0);
            }
            self.finish_course(view, palette, rng, placements);
            return false;
        }
        let ghost jumps1 = self.jumps@;
        self.jumps.pop();
        self.jumps.pop();
        let ghost jumps2 = self.jumps@;
        proof {
            assert(jumps2 =~= jumps1.take(jumps0.len() as int + 1));
            assert(jumps2.take(jumps0.len() as int) =~= jumps1.take(jumps0.len() as int));
            assert(forall|i: int| 0 <= i < jumps2.len() ==> jumps2[i] == jumps1[i]);
            assert(appended_ok(jumps1, jumps0.len() as int, *view, *palette));
            assert(jumps1.take(jumps0.len() as int) =~= jumps2.take(jumps0.len() as int));
            lemma_course_wf_after_commit(jumps0, jumps2, *view, *palette);
            assert(appended_ok(jumps2, jumps0.len() as int, *view, *palette)) by {
                assert(jumps2[jumps0.len() as int] == jumps1[jumps0.len() as int]);
                assert(jumps2[jumps0.len() as int - 1] == jumps1[jumps0.len() as int - 1]);
            }
        }
        if self.jumps.len() > 2 {
            let bi = self.jumps.len() - 3;
            let mut blocks = {
                let j = &self.jumps[bi];
                j.build()
            };
            placements.append(&mut blocks);
        }
        true
    }
}

/// Decides whether the 3x3 neighborhood of chunk columns around the tip's
/// centroid is available in the snapshot.
fn terrain_ready(view: &TerrainView, tipa: BlockPos) -> (r: bool)
    requires
        anchor_has_margin(tipa, 18),
    ensures
        r == chunks_ready(*view, tipa),
{
    let base = chunk_of(BlockPos { x: tipa.x + 1, y: 0, z: tipa.z + 1 });
    let ready = view.chunk_loaded(ChunkXZ { x: base.x - 1, z: base.z - 1 })
        && view.chunk_loaded(ChunkXZ { x: base.x - 1, z: base.z }) && view.chunk_loaded(
        ChunkXZ { x: base.x - 1, z: base.z + 1 },
    ) && view.chunk_loaded(ChunkXZ { x: base.x, z: base.z - 1 }) && view.chunk_loaded(
        ChunkXZ { x: base.x, z: base.z },
    ) && view.chunk_loaded(ChunkXZ { x: base.x, z: base.z + 1 }) && view.chunk_loaded(
        ChunkXZ { x: base.x + 1, z: base.z - 1 },
    ) && view.chunk_loaded(ChunkXZ { x: base.x + 1, z: base.z }) && view.chunk_loaded(
        ChunkXZ { x: base.x + 1, z: base.z + 1 },
    );
    ready
}

impl ParkourCourse {
    /// Terminates the course: one final shortened search pushes the frontier
    /// as far as still provable, the final element is upgraded in place to
    /// the finishing structure, the terminated flag is set, and every element
    /// of the timeline is handed out to be built, newest first.
    fn finish_course(
        &mut self,
        view: &TerrainView,
        palette: &Palette,
        rng: &mut rand::rngs::SmallRng,
        placements: &mut Vec<JumpBlock>,
    )
        requires
            old(self).wf(),
            !old(self).spec_done(),
            anchor_has_margin(old(self).jumps_seq().last().endpoint.spec_anchor(), 18),
        ensures
            final(self).wf(),
            final(self).spec_done(),
            final(self).jumps_seq().len() == old(self).jumps_seq().len()
                || final(self).jumps_seq().len() == old(self).jumps_seq().len() + 2,
            final(self).jumps_seq().len() == old(self).jumps_seq().len() + 2
                ==> final(self).jumps_seq().take(old(self).jumps_seq().len() as int)
                == old(self).jumps_seq(),
            final(self).jumps_seq().take(old(self).jumps_seq().len() as int - 1)
                == old(self).jumps_seq().take(old(self).jumps_seq().len() as int - 1),
            final(self).jumps_seq().last().endpoint is TwoByTwoPortal,
            (final(self).jumps_seq().len() == old(self).jumps_seq().len() + 2) == chain_exists(
                old(self).jumps_seq(),
                *view,
                FORESIGHT as nat,
            ),
            final(placements)@ == old(placements)@ + rev_blocks(
                final(self).jumps_seq(),
                0,
                final(self).jumps_seq().len() as int,
            ),
    {
        let ghost jumps0 = self.jumps@;
        let ok2 = build_jump_tree(&mut self.jumps, view, palette, rng, FORESIGHT - 1);
        proof {
            assert(ok2 == chain_exists(jumps0, *view, FORESIGHT as nat));
        }
        let ghost jumps1 = self.jumps@;
        proof {
            if ok2 {
                assert(jumps1.len() == jumps0.len() + 2);
                assert(appended_ok(jumps1, jumps0.len() as int, *view, *palette));
                assert(appended_ok(jumps1, jumps0.len() as int + 1, *view, *palette));
                lemma_successor_close(
                    jumps1[jumps0.len() - 1].endpoint.spec_anchor(),
                    jumps1[jumps0.len() as int].endpoint.spec_anchor(),
                );
                lemma_successor_close(
                    jumps1[jumps0.len() as int].endpoint.spec_anchor(),
                    jumps1[jumps0.len() as int + 1].endpoint.spec_anchor(),
                );
                assert(jumps1.take(jumps0.len() as int)[jumps0.len() - 1] == jumps1[jumps0.len()
                    - 1]);
            } else {
                assert(jumps1 == jumps0);
            }
        }
        let last_opt = self.jumps.pop();
        let mut last = match last_opt {
            Some(l) => l,
            None => unreached(),
        };
        last.set_finish_portal();
        self.jumps.push(last);
        self.generated_end = true;
        let ghost jumps2 = self.jumps@;
        proof {
            assert(jumps2.len() == jumps1.len());
            assert(forall|i: int| 0 <= i < jumps1.len() - 1 ==> jumps2[i] == jumps1[i]);
            lemma_course_wf_after_upgrade(jumps0, jumps1, jumps2, *view, *palette);
            assert(jumps2.take(jumps0.len() as int - 1) =~= jumps0.take(jumps0.len() as int - 1));
            if jumps2.len() == jumps0.len() + 2 {
                assert(jumps2.take(jumps0.len() as int) =~= jumps0);
            }
        }
        build_reverse(&self.jumps, self.jumps.len(), placements);
    }
}

/// Elements whose look-back windows are untouched keep their separation
/// tiers.
proof fn lemma_sep_tiers_transfer(s1: Seq<Jump>, s2: Seq<Jump>, j: int)
    requires
        0 <= j < s1.len(),
        j < s2.len(),
        s2[j] == s1[j],
        forall|i: int| 0 <= i < j ==> s2[i] == s1[i],
        sep_tiers_at(s1, j),
    ensures
        sep_tiers_at(s2, j),
{
    let blocks = s2[j].blocks_seq();
    let lo4: int = if j >= 16 { j - 16 } else { 0 };
    let hi4: int = if j >= 3 { j - 3 } else { 0 };
    let lo2: int = if j >= 3 { j - 3 } else { 0 };
    lemma_near_any_agree(blocks, s1, s2, lo4, hi4, 4);
    lemma_near_any_agree(blocks, s1, s2, lo2, j, 2);
}

/// An element appended by the search keeps everything the search established
/// when the timeline around it is unchanged.
proof fn lemma_appended_ok_transfer(
    s1: Seq<Jump>,
    s2: Seq<Jump>,
    j: int,
    view: TerrainView,
    palette: Palette,
)
    requires
        0 < j < s1.len(),
        j < s2.len(),
        s2[j] == s1[j],
        forall|i: int| 0 <= i < j ==> s2[i] == s1[i],
        appended_ok(s1, j, view, palette),
    ensures
        appended_ok(s2, j, view, palette),
{
    assert(s2.take(j) =~= s1.take(j));
}

/// After a successful commit the course invariant holds again: the old
/// elements keep their separation tiers (their windows are untouched) and the
/// one committed element earned its tiers as a valid candidate, with the
/// immediate predecessor cleared by the candidate-offset geometry.
proof fn lemma_course_wf_after_commit(
    jumps0: Seq<Jump>,
    jumps2: Seq<Jump>,
    view: TerrainView,
    palette: Palette,
)
    requires
        jumps0.len() >= 1,
        jumps2.len() == jumps0.len() + 1,
        jumps2.take(jumps0.len() as int) == jumps0,
        forall|i: int| 0 <= i < jumps0.len() ==> (#[trigger] jumps0[i]).wf(),
        forall|i: int|
            1 <= i < jumps0.len() ==> is_successor_anchor(
                jumps0[i - 1].endpoint.spec_anchor(),
                (#[trigger] jumps0[i]).endpoint.spec_anchor(),
            ),
        forall|i: int| 0 <= i < jumps0.len() ==> (#[trigger] jumps0[i]).endpoint is TwoByTwo,
        separated(jumps0),
        appended_ok(jumps2, jumps0.len() as int, view, palette),
    ensures
        forall|i: int| 0 <= i < jumps2.len() ==> (#[trigger] jumps2[i]).wf(),
        forall|i: int|
            1 <= i < jumps2.len() ==> is_successor_anchor(
                jumps2[i - 1].endpoint.spec_anchor(),
                (#[trigger] jumps2[i]).endpoint.spec_anchor(),
            ),
        forall|i: int| 0 <= i < jumps2.len() - 1 ==> (#[trigger] jumps2[i]).endpoint is TwoByTwo,
        jumps2[jumps2.len() - 1].endpoint is TwoByTwo,
        separated(jumps2),
{
    let l0 = jumps0.len() as int;
    assert(forall|i: int| 0 <= i < l0 ==> jumps2[i] == jumps0[i]) by {
        assert(forall|i: int|
            0 <= i < l0 ==> jumps2.take(l0)[i] == (#[trigger] jumps2[i]));
    }
    assert forall|j: int|
        0 <= j < jumps2.len() && (#[trigger] jumps2[j]).endpoint is TwoByTwo implies sep_tiers_at(
        jumps2,
        j,
    ) by {
        let blocks = jumps2[j].blocks_seq();
        let lo4: int = if j >= 16 { j - 16 } else { 0 };
        let hi4: int = if j >= 3 { j - 3 } else { 0 };
        let lo2: int = if j >= 3 { j - 3 } else { 0 };
        if j < l0 {
            assert(sep_tiers_at(jumps0, j));
            lemma_near_any_agree(blocks, jumps0, jumps2, lo4, hi4, 4);
            lemma_near_any_agree(blocks, jumps0, jumps2, lo2, j, 2);
        } else {
            lemma_appended_sep(jumps2, j, view, palette);
        }
    }
}

/// After the terminal upgrade the course invariant holds again: the upgraded
/// last element is exempt from the separation tiers, every other element and
/// every anchor is unchanged, and any elements the final shortened search
/// appended earned their tiers as valid candidates.
#[verifier::rlimit(100)]
proof fn lemma_course_wf_after_upgrade(
    jumps0: Seq<Jump>,
    jumps1: Seq<Jump>,
    jumps2: Seq<Jump>,
    view: TerrainView,
    palette: Palette,
)
    requires
        jumps0.len() >= 1,
        jumps1.len() == jumps0.len() || jumps1.len() == jumps0.len() + 2,
        jumps1.take(jumps0.len() as int) == jumps0,
        forall|i: int| 0 <= i < jumps0.len() ==> (#[trigger] jumps0[i]).wf(),
        forall|i: int|
            1 <= i < jumps0.len() ==> is_successor_anchor(
                jumps0[i - 1].endpoint.spec_anchor(),
                (#[trigger] jumps0[i]).endpoint.spec_anchor(),
            ),
        forall|i: int| 0 <= i < jumps0.len() ==> (#[trigger] jumps0[i]).endpoint is TwoByTwo,
        separated(jumps0),
        jumps1.len() == jumps0.len() + 2 ==> appended_ok(
            jumps1,
            jumps0.len() as int,
            view,
            palette,
        ) && appended_ok(jumps1, jumps0.len() as int + 1, view, palette),
        jumps2.len() == jumps1.len(),
        forall|i: int| 0 <= i < jumps1.len() - 1 ==> #[trigger] jumps2[i] == jumps1[i],
        jumps2[jumps2.len() - 1].wf(),
        jumps2[jumps2.len() - 1].endpoint == Port::TwoByTwoPortal(
            jumps1[jumps1.len() - 1].endpoint.spec_anchor(),
        ),
    ensures
        forall|i: int| 0 <= i < jumps2.len() ==> (#[trigger] jumps2[i]).wf(),
        forall|i: int|
            1 <= i < jumps2.len() ==> is_successor_anchor(
                jumps2[i - 1].endpoint.spec_anchor(),
                (#[trigger] jumps2[i]).endpoint.spec_anchor(),
            ),
        forall|i: int| 0 <= i < jumps2.len() - 1 ==> (#[trigger] jumps2[i]).endpoint is TwoByTwo,
        jumps2[jumps2.len() - 1].endpoint is TwoByTwoPortal,
        separated(jumps2),
{
    let l0 = jumps0.len() as int;
    let l1 = jumps1.len() as int;
    assert(forall|i: int| 0 <= i < l0 ==> jumps1[i] == jumps0[i]) by {
        assert(forall|i: int|
            0 <= i < l0 ==> jumps1.take(l0)[i] == (#[trigger] jumps1[i]));
    }
    assert(jumps2[l1 - 1].endpoint.spec_anchor() == jumps1[l1 - 1].endpoint.spec_anchor());
    assert forall|i: int| 1 <= i < l1 implies is_successor_anchor(
        jumps2[i - 1].endpoint.spec_anchor(),
        (#[trigger] jumps2[i]).endpoint.spec_anchor(),
    ) by {
        assert(is_successor_anchor(
            jumps1[i - 1].endpoint.spec_anchor(),
            jumps1[i].endpoint.spec_anchor(),
        ));
        if i < l1 - 1 {
            assert(jumps2[i] == jumps1[i]);
        }
        if i - 1 < l1 - 1 {
            assert(jumps2[i - 1] == jumps1[i - 1]);
        }
    }
    assert forall|j: int|
        0 <= j < jumps2.len() && (#[trigger] jumps2[j]).endpoint is TwoByTwo implies sep_tiers_at(
        jumps2,
        j,
    ) by {
        assert(j < l1 - 1);
        assert(jumps2[j] == jumps1[j]);
        if j < l0 {
            assert(jumps2[j] == jumps0[j]);
            assert(sep_tiers_at(jumps0, j));
            lemma_sep_tiers_transfer(jumps0, jumps2, j);
        } else {
            assert(appended_ok(jumps1, j, view, palette));
            lemma_appended_ok_transfer(jumps1, jumps2, j, view, palette);
            assert(jumps2[j - 1] == jumps1[j - 1]);
            assert(jumps2[j - 1].wf() && jumps2[j - 1].endpoint is TwoByTwo);
            lemma_appended_sep(jumps2, j, view, palette);
        }
    }
}


/// *Separation law.* In a well-formed course, any committed standard element
/// keeps every placement of the elements 4 through 16 before it out of its
/// bounding box inflated by 4, and every placement of the elements 1 through
/// 3 before it out of its box inflated by 2. Elements more than 16 apart in
/// timeline order are not constrained: the generator's look-back window ends
/// there, so a course may legitimately loop back near itself beyond it.
pub proof fn lemma_course_separation(c: &ParkourCourse, i: int, j: int)
    requires
        c.wf(),
        0 <= i < j < c.jumps_seq().len(),
        c.jumps_seq()[j].endpoint is TwoByTwo,
    ensures
        4 <= j - i <= 16 ==> !near_jump(c.jumps_seq()[j].blocks_seq(), c.jumps_seq()[i], 4),
        1 <= j - i <= 3 ==> !near_jump(c.jumps_seq()[j].blocks_seq(), c.jumps_seq()[i], 2),
{
    let jumps = c.jumps_seq();
    let blocks = jumps[j].blocks_seq();
    assert(sep_tiers_at(jumps, j));
    let lo4: int = if j >= 16 { j - 16 } else { 0 };
    let hi4: int = if j >= 3 { j - 3 } else { 0 };
    let lo2: int = if j >= 3 { j - 3 } else { 0 };
    if 4 <= j - i <= 16 && near_jump(blocks, jumps[i], 4) {
        assert(lo4 <= i < hi4 && near_jump(blocks, jumps[i], 4));
        assert(near_any(blocks, jumps, lo4, hi4, 4));
    }
    if 1 <= j - i <= 3 && near_jump(blocks, jumps[i], 2) {
        assert(lo2 <= i < j && near_jump(blocks, jumps[i], 2));
        assert(near_any(blocks, jumps, lo2, j, 2));
    }
}

/// *Monotonic commit law.* Along any run of successful generation requests
/// (no termination), the timeline ends with exactly one more element per
/// request, and everything committed at the start is still there, unchanged,
/// at the end.
pub proof fn lemma_monotonic_commit(trace: Seq<Seq<Jump>>)
    requires
        trace.len() >= 1,
        forall|n: int| 0 <= n < trace.len() - 1 ==> commit_step(#[trigger] trace[n], trace[n + 1]),
    ensures
        trace.last().len() == trace.first().len() + trace.len() - 1,
        trace.first() == trace.last().take(trace.first().len() as int),
    decreases trace.len(),
{
    if trace.len() == 1 {
        assert(trace.first() =~= trace.last().take(trace.first().len() as int));
    } else {
        let sub = trace.drop_last();
        assert(forall|n: int| 0 <= n < sub.len() - 1 ==> commit_step(#[trigger] sub[n], sub[n + 1]));
        lemma_monotonic_commit(sub);
        assert(commit_step(trace[trace.len() - 2], trace.last()));
        assert(sub.last() == trace[trace.len() - 2]);
        assert(trace.first() == trace[trace.len() - 2].take(trace.first().len() as int));
        assert(trace[trace.len() - 2] == trace.last().take(trace[trace.len() - 2].len() as int));
        assert(trace.first() =~= trace.last().take(trace.first().len() as int));
    }
}


/// A valid extension of the timeline: the tip is a standard platform, and the
/// candidate is a well-formed standard platform whose anchor is drawn from
/// the tip's candidate-successor set and which passes every validity test
/// against the timeline as it stands. (A terminal finishing port emits no
/// successors.)
pub open spec fn is_extension(jumps: Seq<Jump>, c: Jump, view: TerrainView) -> bool {
    &&& jumps.len() >= 1
    &&& jumps.last().endpoint is TwoByTwo
    &&& c.wf()
    &&& c.endpoint is TwoByTwo
    &&& is_successor_anchor(jumps.last().endpoint.spec_anchor(), c.endpoint.spec_anchor())
    &&& valid_candidate(c, jumps, view)
}

/// A chain of `n` valid candidates exists atop the timeline: each one a valid
/// extension of the timeline holding all its predecessors. The search
/// succeeds exactly when one does.
pub open spec fn chain_exists(jumps: Seq<Jump>, view: TerrainView, n: nat) -> bool
    decreases n,
{
    n == 0 || exists|c: Jump|
        #![trigger is_extension(jumps, c, view)]
        is_extension(jumps, c, view) && chain_exists(jumps.push(c), view, (n - 1) as nat)
}

/// Placement lists that agree in length and coordinates; the materials may
/// differ.
pub open spec fn blocks_pos_equiv(b1: Seq<JumpBlock>, b2: Seq<JumpBlock>) -> bool {
    b1.len() == b2.len() && forall|k: int| 0 <= k < b1.len() ==> (#[trigger] b1[k]).pos == b2[k].pos
}

/// Platforms that differ at most in their decorative materials: same port,
/// same placement coordinates.
pub open spec fn jump_pos_equiv(j1: Jump, j2: Jump) -> bool {
    j1.endpoint == j2.endpoint && blocks_pos_equiv(j1.blocks_seq(), j2.blocks_seq())
}

/// Timelines that differ at most in decorative materials, element by element.
pub open spec fn jumps_pos_equiv(s1: Seq<Jump>, s2: Seq<Jump>) -> bool {
    s1.len() == s2.len() && forall|i: int|
        0 <= i < s1.len() ==> jump_pos_equiv(#[trigger] s1[i], s2[i])
}

/// The proximity box reads only placement coordinates.
proof fn lemma_within_inflated_equiv(b1: Seq<JumpBlock>, b2: Seq<JumpBlock>, p: BlockPos, r: int)
    requires
        blocks_pos_equiv(b1, b2),
    ensures
        crate::jump::within_inflated(b1, p, r) == crate::jump::within_inflated(b2, p, r),
{
    assert(blocks_pos_equiv(b2, b1));
    if crate::jump::within_inflated(b1, p, r) {
        lemma_within_inflated_mono(b1, b2, p, r);
    }
    if crate::jump::within_inflated(b2, p, r) {
        lemma_within_inflated_mono(b2, b1, p, r);
    }
}

proof fn lemma_within_inflated_mono(b1: Seq<JumpBlock>, b2: Seq<JumpBlock>, p: BlockPos, r: int)
    requires
        blocks_pos_equiv(b1, b2),
        crate::jump::within_inflated(b1, p, r),
    ensures
        crate::jump::within_inflated(b2, p, r),
{
    let i1 = choose|i: int| 0 <= i < b1.len() && p.x >= (#[trigger] b1[i]).pos.x - r;
    assert(0 <= i1 < b2.len() && p.x >= b2[i1].pos.x - r);
    let i2 = choose|i: int| 0 <= i < b1.len() && p.x <= (#[trigger] b1[i]).pos.x + r;
    assert(0 <= i2 < b2.len() && p.x <= b2[i2].pos.x + r);
    let i3 = choose|i: int| 0 <= i < b1.len() && p.y >= (#[trigger] b1[i]).pos.y - r;
    assert(0 <= i3 < b2.len() && p.y >= b2[i3].pos.y - r);
    let i4 = choose|i: int| 0 <= i < b1.len() && p.y <= (#[trigger] b1[i]).pos.y + r;
    assert(0 <= i4 < b2.len() && p.y <= b2[i4].pos.y + r);
    let i5 = choose|i: int| 0 <= i < b1.len() && p.z >= (#[trigger] b1[i]).pos.z - r;
    assert(0 <= i5 < b2.len() && p.z >= b2[i5].pos.z - r);
    let i6 = choose|i: int| 0 <= i < b1.len() && p.z <= (#[trigger] b1[i]).pos.z + r;
    assert(0 <= i6 < b2.len() && p.z <= b2[i6].pos.z + r);
}

/// Proximity to a timeline window reads only placement coordinates.
proof fn lemma_near_any_equiv(
    b1: Seq<JumpBlock>,
    b2: Seq<JumpBlock>,
    s1: Seq<Jump>,
    s2: Seq<Jump>,
    lo: int,
    hi: int,
    r: int,
)
    requires
        blocks_pos_equiv(b1, b2),
        0 <= lo,
        hi <= s1.len(),
        hi <= s2.len(),
        forall|i: int| lo <= i < hi ==> jump_pos_equiv(#[trigger] s1[i], s2[i]),
    ensures
        near_any(b1, s1, lo, hi, r) == near_any(b2, s2, lo, hi, r),
{
    if near_any(b1, s1, lo, hi, r) {
        let i = choose|i: int| lo <= i < hi && near_jump(b1, #[trigger] s1[i], r);
        let k = choose|k: int|
            0 <= k < s1[i].blocks_seq().len() && crate::jump::within_inflated(
                b1,
                (#[trigger] s1[i].blocks_seq()[k]).pos,
                r,
            );
        assert(s2[i].blocks_seq()[k].pos == s1[i].blocks_seq()[k].pos);
        lemma_within_inflated_equiv(b1, b2, s1[i].blocks_seq()[k].pos, r);
        assert(near_jump(b2, s2[i], r));
        assert(near_any(b2, s2, lo, hi, r));
    }
    if near_any(b2, s2, lo, hi, r) {
        let i = choose|i: int| lo <= i < hi && near_jump(b2, #[trigger] s2[i], r);
        let k = choose|k: int|
            0 <= k < s2[i].blocks_seq().len() && crate::jump::within_inflated(
                b2,
                (#[trigger] s2[i].blocks_seq()[k]).pos,
                r,
            );
        assert(s1[i].blocks_seq()[k].pos == s2[i].blocks_seq()[k].pos);
        lemma_within_inflated_equiv(b1, b2, s1[i].blocks_seq()[k].pos, r);
        assert(near_jump(b1, s1[i], r));
        assert(near_any(b1, s1, lo, hi, r));
    }
}

/// Candidate validity reads only placement coordinates, of the candidate and
/// of the timeline's elements.
proof fn lemma_valid_candidate_equiv(
    c1: Jump,
    c2: Jump,
    s1: Seq<Jump>,
    s2: Seq<Jump>,
    view: TerrainView,
)
    requires
        jump_pos_equiv(c1, c2),
        jumps_pos_equiv(s1, s2),
    ensures
        valid_candidate(c1, s1, view) == valid_candidate(c2, s2, view),
{
    let b1 = c1.blocks_seq();
    let b2 = c2.blocks_seq();
    assert(c1.spec_too_close(view) == c2.spec_too_close(view)) by {
        if c1.spec_too_close(view) {
            let o = choose|o: int|
                0 <= o < view.occupied@.len() && crate::jump::within_scan_box(
                    b1,
                    #[trigger] view.occupied@[o],
                );
            lemma_within_inflated_equiv(b1, b2, view.occupied@[o], 4);
            assert(c2.spec_too_close(view));
        }
        if c2.spec_too_close(view) {
            let o = choose|o: int|
                0 <= o < view.occupied@.len() && crate::jump::within_scan_box(
                    b2,
                    #[trigger] view.occupied@[o],
                );
            lemma_within_inflated_equiv(b1, b2, view.occupied@[o], 4);
            assert(c1.spec_too_close(view));
        }
    }
    let l = s1.len() as int;
    let lo4: int = if l >= 16 { l - 16 } else { 0 };
    let hi4: int = if l >= 3 { l - 3 } else { 0 };
    let lo2: int = if l >= 3 { l - 3 } else { 0 };
    let hi2: int = if l >= 1 { l - 1 } else { 0 };
    lemma_near_any_equiv(b1, b2, s1, s2, lo4, hi4, 4);
    lemma_near_any_equiv(b1, b2, s1, s2, lo2, hi2, 2);
    assert(c1.spec_too_high() == c2.spec_too_high()) by {
        if c1.spec_too_high() {
            let k = choose|k: int| 0 <= k < b1.len() && b1[k].pos.y > 255;
            assert(b2[k].pos == b1[k].pos);
            assert(c2.spec_too_high());
        }
        if c2.spec_too_high() {
            let k = choose|k: int| 0 <= k < b2.len() && b2[k].pos.y > 255;
            assert(b1[k].pos == b2[k].pos);
            assert(c1.spec_too_high());
        }
    }
}

/// Two well-formed standard platforms at one anchor differ at most in their
/// materials.
proof fn lemma_same_anchor_pos_equiv(j1: Jump, j2: Jump)
    requires
        j1.wf(),
        j2.wf(),
        j1.endpoint is TwoByTwo,
        j1.endpoint == j2.endpoint,
    ensures
        jump_pos_equiv(j1, j2),
{
    assert forall|k: int| 0 <= k < j1.blocks_seq().len() implies (#[trigger] j1.blocks_seq()[k]).pos
        == j2.blocks_seq()[k].pos by {
        let a = j1.endpoint.spec_anchor();
        assert(j1.blocks_seq()[k].pos.x == a.x + crate::jump::std_dx(k));
        assert(j2.blocks_seq()[k].pos.x == a.x + crate::jump::std_dx(k));
    }
}

/// A timeline is position-equivalent to itself.
proof fn lemma_jumps_pos_equiv_refl(s: Seq<Jump>)
    ensures
        jumps_pos_equiv(s, s),
{
    assert forall|i: int| 0 <= i < s.len() implies jump_pos_equiv(#[trigger] s[i], s[i]) by {
        assert(blocks_pos_equiv(s[i].blocks_seq(), s[i].blocks_seq()));
    }
}

/// Chain existence reads only placement coordinates.
proof fn lemma_chain_exists_equiv(s1: Seq<Jump>, s2: Seq<Jump>, view: TerrainView, n: nat)
    requires
        jumps_pos_equiv(s1, s2),
    ensures
        chain_exists(s1, view, n) == chain_exists(s2, view, n),
    decreases n,
{
    if n > 0 {
        if chain_exists(s1, view, n) {
            let c = choose|c: Jump|
                #![trigger is_extension(s1, c, view)]
                is_extension(s1, c, view) && chain_exists(s1.push(c), view, (n - 1) as nat);
            assert(jump_pos_equiv(s1.last(), s2.last()));
            lemma_jump_pos_equiv_refl(c);
            lemma_valid_candidate_equiv(c, c, s1, s2, view);
            assert(is_extension(s2, c, view));
            lemma_push_pos_equiv(s1, s2, c);
            lemma_chain_exists_equiv(s1.push(c), s2.push(c), view, (n - 1) as nat);
            assert(chain_exists(s2, view, n));
        }
        if chain_exists(s2, view, n) {
            let c = choose|c: Jump|
                #![trigger is_extension(s2, c, view)]
                is_extension(s2, c, view) && chain_exists(s2.push(c), view, (n - 1) as nat);
            assert(jump_pos_equiv(s1.last(), s2.last()));
            lemma_jump_pos_equiv_refl(c);
            lemma_valid_candidate_equiv(c, c, s2, s1, view);
            assert(is_extension(s1, c, view)) by {
                assert(jumps_pos_equiv(s2, s1)) by {
                    lemma_jumps_pos_equiv_sym(s1, s2);
                }
                lemma_valid_candidate_equiv(c, c, s2, s1, view);
            }
            lemma_push_pos_equiv(s1, s2, c);
            lemma_chain_exists_equiv(s1.push(c), s2.push(c), view, (n - 1) as nat);
            assert(chain_exists(s1, view, n));
        }
    }
}

/// A platform is position-equivalent to itself.
proof fn lemma_jump_pos_equiv_refl(j: Jump)
    ensures
        jump_pos_equiv(j, j),
{
    assert(blocks_pos_equiv(j.blocks_seq(), j.blocks_seq()));
}

/// Position equivalence of timelines is symmetric.
proof fn lemma_jumps_pos_equiv_sym(s1: Seq<Jump>, s2: Seq<Jump>)
    requires
        jumps_pos_equiv(s1, s2),
    ensures
        jumps_pos_equiv(s2, s1),
{
    assert forall|i: int| 0 <= i < s2.len() implies jump_pos_equiv(#[trigger] s2[i], s1[i]) by {
        assert(jump_pos_equiv(s1[i], s2[i]));
        assert(blocks_pos_equiv(s2[i].blocks_seq(), s1[i].blocks_seq()));
    }
}

/// Pushing one platform keeps timelines position-equivalent.
proof fn lemma_push_pos_equiv(s1: Seq<Jump>, s2: Seq<Jump>, c: Jump)
    requires
        jumps_pos_equiv(s1, s2),
    ensures
        jumps_pos_equiv(s1.push(c), s2.push(c)),
{
    assert forall|i: int| 0 <= i < s1.push(c).len() implies jump_pos_equiv(
        #[trigger] s1.push(c)[i],
        s2.push(c)[i],
    ) by {
        if i < s1.len() {
            assert(s1.push(c)[i] == s1[i]);
            assert(s2.push(c)[i] == s2[i]);
        } else {
            assert(s1.push(c)[i] == c);
            assert(s2.push(c)[i] == c);
            lemma_jump_pos_equiv_refl(c);
        }
    }
}

} // verus!
