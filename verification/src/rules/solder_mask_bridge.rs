//! Checking the solder mask web between pad openings.
//!
//! The mask opening around a pad is the pad grown on every side by the pad's
//! own margin where it states one and by the board's expansion where it does
//! not. Where two openings on one face come closer than the rule, the fab
//! cannot hold a web of mask between them and the pads bridge with solder.
use vstd::prelude::*;

use crate::board::{board_ok, component_ok, pad_ok, Board, Component, PadSite};
use crate::geometry::{mid, midpoint};
use crate::presets::{rules_ok, DesignRules};
use crate::rules::openings::{
    board_openings, lemma_slot_range, lemma_thin_webs_complete, lemma_thin_webs_ok, lemma_thin_webs_sound,
    opening_ok, pad_openings, part_openings, shown_web, slot, sorted_by_x, sorted_openings, thin_webs,
    thin_webs_of, too_thin, web_between, Opening,
};
use crate::violation::{describes, two_lengths, DrcViolation, ViolationKind};

verus! {

/// Rule for the solder mask web between pad openings.
pub struct SolderMaskBridgeRule;

/// The board's mask openings in sweep order.
pub open spec fn mask_openings(board: Board, rules: DesignRules) -> Seq<Opening> {
    sorted_by_x(board_openings(board.components@, rules.solder_mask_expansion, false))
}

/// `r` reports the mask web between openings `a` and `b` as thinner than
/// `min`.
pub open spec fn reports_mask_bridge(r: DrcViolation, a: Opening, b: Opening, min: i64) -> bool {
    describes(
        r,
        ViolationKind::SolderMaskBridge,
        a.entity,
        Some(b.entity),
        Some(shown_web(a, b) as i64),
        Some(min),
        mid(a.center, b.center),
        two_lengths(
            "Solder mask bridge violation: "@,
            shown_web(a, b) as i64,
            "mm actual, "@,
            min,
            "mm required"@,
            2,
        ),
    )
}

impl SolderMaskBridgeRule {
    /// The rule's identifier in reports and filters.
    pub fn name(&self) -> (n: &'static str)
        ensures
            n@ == "solder-mask-bridge"@,
    {
        "solder-mask-bridge"
    }

    /// Every pair of mask openings on one face with less web between them
    /// than the rule, in the order the sweep by x finds them.
    pub fn check(&self, board: &Board, rules: &DesignRules) -> (out: Vec<DrcViolation>)
        requires
            board_ok(*board),
            rules_ok(*rules),
        ensures
            found_by_mask_bridge(*board, *rules, out@),
    {
        let min = rules.min_solder_mask_bridge;
        let openings = sorted_openings(board, rules.solder_mask_expansion, false);
        let pairs = thin_webs_of(&openings, min);
        proof {
            lemma_thin_webs_ok(openings@, min);
        }
        let mut out: Vec<DrcViolation> = Vec::new();
        let mut k: usize = 0;
        while k < pairs.len()
            invariant
                k <= pairs@.len(),
                pairs@ == thin_webs(openings@, min, 0, 1),
                openings@ == mask_openings(*board, *rules),
                min == rules.min_solder_mask_bridge,
                rules_ok(*rules),
                forall|t: int|
                    0 <= t < pairs@.len() ==> opening_ok(
                        (#[trigger] pairs@[t]).0,
                    ) && opening_ok(pairs@[t].1),
                out@.len() == k,
                forall|t: int|
                    0 <= t < k ==> reports_mask_bridge(
                        #[trigger] out@[t],
                        pairs@[t].0,
                        pairs@[t].1,
                        min,
                    ),
            decreases pairs@.len() - k,
        {
            let (a, b) = pairs[k];
            proof {
                assert(opening_ok(pairs@[k as int].0));
            }
            let web = web_between(&a, &b);
            let shown = if web > 0 {
                web
            } else {
                0
            };
            let location = midpoint(a.center, b.center);
            out.push(DrcViolation::solder_mask_bridge(a.entity, b.entity, shown, min, location));
            k = k + 1;
        }
        out
    }
}

/// What the rule finds on a board: the mask webs between neighbouring openings
/// thinner than the rule, in the order the check walks them.
pub open spec fn found_by_mask_bridge(board: Board, rules: DesignRules, out: Seq<DrcViolation>) -> bool {
    &&& out.len() == thin_webs(
        mask_openings(board, rules),
        rules.min_solder_mask_bridge,
        0,
        1,
    ).len()
    &&& forall|k: int|
        0 <= k < out.len() ==> reports_mask_bridge(
            #[trigger] out[k],
            thin_webs(mask_openings(board, rules), rules.min_solder_mask_bridge, 0, 1)[k].0,
            thin_webs(mask_openings(board, rules), rules.min_solder_mask_bridge, 0, 1)[k].1,
            rules.min_solder_mask_bridge,
        )
}


/// `b` is `a` with every opening grown or kept: the same openings, in the
/// same places, each at least as wide and as tall.
pub open spec fn grown(a: Seq<Opening>, b: Seq<Opening>) -> bool {
    &&& a.len() == b.len()
    &&& forall|k: int|
        0 <= k < a.len() ==> {
            &&& (#[trigger] b[k]).entity == a[k].entity
            &&& b[k].center == a[k].center
            &&& b[k].top_side == a[k].top_side
            &&& b[k].half_width >= a[k].half_width
            &&& b[k].half_height >= a[k].half_height
        }
}

proof fn lemma_pad_grown(c: Component, p: PadSite, e1: i64, e2: i64)
    requires
        component_ok(c),
        pad_ok(p),
        crate::presets::length_ok(e1 as int),
        crate::presets::length_ok(e2 as int),
        e1 <= e2,
    ensures
        grown(pad_openings(c, p, e1, false), pad_openings(c, p, e2, false)),
{
}

proof fn lemma_part_grown(c: Component, ps: Seq<PadSite>, e1: i64, e2: i64)
    requires
        component_ok(c),
        forall|k: int| 0 <= k < ps.len() ==> pad_ok(#[trigger] ps[k]),
        crate::presets::length_ok(e1 as int),
        crate::presets::length_ok(e2 as int),
        e1 <= e2,
    ensures
        grown(part_openings(c, ps, e1, false), part_openings(c, ps, e2, false)),
    decreases ps.len(),
{
    if ps.len() > 0 {
        lemma_part_grown(c, ps.drop_last(), e1, e2);
        lemma_pad_grown(c, ps.last(), e1, e2);
        lemma_concat_grown(
            part_openings(c, ps.drop_last(), e1, false),
            part_openings(c, ps.drop_last(), e2, false),
            pad_openings(c, ps.last(), e1, false),
            pad_openings(c, ps.last(), e2, false),
        );
    }
}

proof fn lemma_concat_grown(a: Seq<Opening>, b: Seq<Opening>, c: Seq<Opening>, d: Seq<Opening>)
    requires
        grown(a, b),
        grown(c, d),
    ensures
        grown(a + c, b + d),
{
    assert forall|k: int| 0 <= k < (a + c).len() implies {
        &&& (#[trigger] (b + d)[k]).entity == (a + c)[k].entity
        &&& (b + d)[k].center == (a + c)[k].center
        &&& (b + d)[k].top_side == (a + c)[k].top_side
        &&& (b + d)[k].half_width >= (a + c)[k].half_width
        &&& (b + d)[k].half_height >= (a + c)[k].half_height
    } by {
        if k < a.len() {
            assert((a + c)[k] == a[k] && (b + d)[k] == b[k]);
        } else {
            assert((a + c)[k] == c[k - a.len()] && (b + d)[k] == d[k - a.len()]);
        }
    }
}

proof fn lemma_board_grown(cs: Seq<Component>, e1: i64, e2: i64)
    requires
        forall|k: int| 0 <= k < cs.len() ==> component_ok(#[trigger] cs[k]),
        crate::presets::length_ok(e1 as int),
        crate::presets::length_ok(e2 as int),
        e1 <= e2,
    ensures
        grown(board_openings(cs, e1, false), board_openings(cs, e2, false)),
    decreases cs.len(),
{
    if cs.len() > 0 {
        lemma_board_grown(cs.drop_last(), e1, e2);
        let c = cs.last();
        assert(component_ok(c));
        lemma_part_grown(c, c.pads@, e1, e2);
        lemma_concat_grown(
            board_openings(cs.drop_last(), e1, false),
            board_openings(cs.drop_last(), e2, false),
            part_openings(c, c.pads@, e1, false),
            part_openings(c, c.pads@, e2, false),
        );
    }
}

proof fn lemma_slot_same(a: Seq<Opening>, b: Seq<Opening>, o: Opening, q: Opening)
    requires
        grown(a, b),
        o.center == q.center,
    ensures
        slot(a, o) == slot(b, q),
    decreases a.len(),
{
    if a.len() > 0 {
        assert(b.last() == b[b.len() - 1] && a.last() == a[a.len() - 1]);
        assert(grown(a.drop_last(), b.drop_last())) by {
            assert forall|k: int| 0 <= k < a.drop_last().len() implies {
                &&& (#[trigger] b.drop_last()[k]).entity == a.drop_last()[k].entity
                &&& b.drop_last()[k].center == a.drop_last()[k].center
                &&& b.drop_last()[k].top_side == a.drop_last()[k].top_side
                &&& b.drop_last()[k].half_width >= a.drop_last()[k].half_width
                &&& b.drop_last()[k].half_height >= a.drop_last()[k].half_height
            } by {
                assert(b.drop_last()[k] == b[k] && a.drop_last()[k] == a[k]);
            }
        }
        lemma_slot_same(a.drop_last(), b.drop_last(), o, q);
    }
}

proof fn lemma_sorted_grown(a: Seq<Opening>, b: Seq<Opening>)
    requires
        grown(a, b),
    ensures
        grown(sorted_by_x(a), sorted_by_x(b)),
    decreases a.len(),
{
    if a.len() > 0 {
        let (ia, ib) = (a.drop_last(), b.drop_last());
        assert(grown(ia, ib)) by {
            assert forall|k: int| 0 <= k < ia.len() implies {
                &&& (#[trigger] ib[k]).entity == ia[k].entity
                &&& ib[k].center == ia[k].center
                &&& ib[k].top_side == ia[k].top_side
                &&& ib[k].half_width >= ia[k].half_width
                &&& ib[k].half_height >= ia[k].half_height
            } by {
                assert(ib[k] == b[k] && ia[k] == a[k]);
            }
        }
        lemma_sorted_grown(ia, ib);
        let (ra, rb) = (sorted_by_x(ia), sorted_by_x(ib));
        let (oa, ob) = (a.last(), b.last());
        assert(oa == a[a.len() - 1] && ob == b[b.len() - 1]);
        lemma_slot_same(ra, rb, oa, ob);
        lemma_slot_range(ra, oa);
        let t = slot(ra, oa);
        let (sa, sb) = (ra.insert(t, oa), rb.insert(t, ob));
        assert forall|k: int| 0 <= k < sa.len() implies {
            &&& (#[trigger] sb[k]).entity == sa[k].entity
            &&& sb[k].center == sa[k].center
            &&& sb[k].top_side == sa[k].top_side
            &&& sb[k].half_width >= sa[k].half_width
            &&& sb[k].half_height >= sa[k].half_height
        } by {
            if k < t {
                assert(sa[k] == ra[k] && sb[k] == rb[k]);
            } else if k == t {
                assert(sa[k] == oa && sb[k] == ob);
            } else {
                assert(sa[k] == ra[k - 1] && sb[k] == rb[k - 1]);
            }
        }
    }
}

/// **A wider solder-mask expansion never removes a mask-bridge report**:
/// for every pair of openings reported with the board's expansion at
/// `rules`, the same two openings, in the same places, are reported when the
/// expansion is no less and the web the rule asks for is the same.
pub proof fn lemma_wider_expansion_keeps_reports(board: Board, narrow: DesignRules, wide: DesignRules, k: int)
    requires
        board_ok(board),
        rules_ok(narrow),
        rules_ok(wide),
        narrow.solder_mask_expansion <= wide.solder_mask_expansion,
        narrow.min_solder_mask_bridge == wide.min_solder_mask_bridge,
        0 <= k < thin_webs(mask_openings(board, narrow), narrow.min_solder_mask_bridge, 0, 1).len(),
    ensures
        exists|j: int|
            0 <= j < thin_webs(mask_openings(board, wide), wide.min_solder_mask_bridge, 0, 1).len() && {
                let (a, b) = (
                    thin_webs(mask_openings(board, narrow), narrow.min_solder_mask_bridge, 0, 1)[k],
                    #[trigger] thin_webs(mask_openings(board, wide), wide.min_solder_mask_bridge, 0, 1)[j],
                );
                &&& b.0.entity == a.0.entity && b.0.center == a.0.center && b.0.top_side == a.0.top_side
                &&& b.1.entity == a.1.entity && b.1.center == a.1.center && b.1.top_side == a.1.top_side
            },
{
    let min = narrow.min_solder_mask_bridge;
    let (os1, os2) = (mask_openings(board, narrow), mask_openings(board, wide));
    assert forall|i: int| 0 <= i < board.components@.len() implies component_ok(
        #[trigger] board.components@[i],
    ) by {}
    lemma_board_grown(board.components@, narrow.solder_mask_expansion, wide.solder_mask_expansion);
    lemma_sorted_grown(
        board_openings(board.components@, narrow.solder_mask_expansion, false),
        board_openings(board.components@, wide.solder_mask_expansion, false),
    );
    lemma_thin_webs_sound(os1, min, 0, 1);
    let pair = thin_webs(os1, min, 0, 1)[k];
    let (p, q) = choose|p: int, q: int| 0 <= p < q < os1.len() && pair.0 == os1[p] && pair.1 == os1[q];
    assert(too_thin(os1[p], os1[q], min));
    assert(os2[p].center == os1[p].center && os2[q].center == os1[q].center);
    assert(too_thin(os2[p], os2[q], min));
    lemma_thin_webs_complete(os2, min, p, q);
    let j = choose|j: int| 0 <= j < thin_webs(os2, min, 0, 1).len() && thin_webs(os2, min, 0, 1)[j] == (
        os2[p],
        os2[q],
    );
    assert(thin_webs(os2, wide.min_solder_mask_bridge, 0, 1)[j] == (os2[p], os2[q]));
}

} // verus!
