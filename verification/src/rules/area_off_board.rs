//! Checking that a declared area is on the board.
//!
//! A keepout, a flexible region or a named area that hangs off the board
//! points every reader at a part of the panel that is not there. Pours are
//! cut to the outline anyway and are not asked.
use vstd::prelude::*;

use crate::board::{board_ok, zone_ok, Board, Zone, ZoneKind};
use crate::rules::empty_area::{area_called, area_word};
use crate::text::{mm, mm_text};
use crate::violation::{describes, sentence, DrcViolation, ViolationKind};

verus! {

/// Rule for checking that a declared area is on the board.
pub struct AreaOffBoardRule;

/// How far an area hangs off each side of a `w` by `h` board: left, bottom,
/// right, top.
pub open spec fn overhangs(z: Zone, w: i64, h: i64) -> Seq<int> {
    seq![
        -(z.bounds.min.x as int),
        -(z.bounds.min.y as int),
        z.bounds.max.x - w,
        z.bounds.max.y - h,
    ]
}

/// The name of each side, in the order of `overhangs`.
pub open spec fn side_name(k: int) -> Seq<char> {
    if k == 0 {
        "left edge"@
    } else if k == 1 {
        "bottom edge"@
    } else if k == 2 {
        "right edge"@
    } else {
        "top edge"@
    }
}

/// The side an area hangs furthest off, among the first `n` sides, the last
/// where two tie; `None` where it hangs off none of them.
pub open spec fn worst_side(a: Seq<int>, n: int) -> Option<int>
    decreases n,
{
    if n <= 0 {
        None
    } else {
        let prev = worst_side(a, n - 1);
        if a[n - 1] > 0 && (prev is None || a[n - 1] >= a[prev.unwrap()]) {
            Some(n - 1)
        } else {
            prev
        }
    }
}

/// The area lies wholly off a `w` by `h` board.
pub open spec fn entirely_off(z: Zone, w: i64, h: i64) -> bool {
    z.bounds.min.x >= w || z.bounds.min.y >= h || z.bounds.max.x <= 0 || z.bounds.max.y <= 0
}

/// The areas that are not pours and hang off a `w` by `h` board, in board
/// order.
pub open spec fn areas_off(zs: Seq<Zone>, w: i64, h: i64) -> Seq<Zone>
    decreases zs.len(),
{
    if zs.len() == 0 {
        Seq::empty()
    } else {
        let rest = areas_off(zs.drop_last(), w, h);
        let z = zs.last();
        if z.kind != ZoneKind::CopperPour && worst_side(overhangs(z, w, h), 4) is Some {
            rest.push(z)
        } else {
            rest
        }
    }
}

/// What a report says of where an area is.
pub open spec fn placement_text(z: Zone, w: i64, h: i64) -> Seq<char> {
    let k = worst_side(overhangs(z, w, h), 4).unwrap();
    if entirely_off(z, w, h) {
        "sits entirely off a "@ + mm_text(w as int, 3) + "mm by "@ + mm_text(h as int, 3) + "mm board"@
    } else {
        "hangs "@ + mm_text(overhangs(z, w, h)[k], 3) + "mm off the "@ + side_name(k) + " of a "@
            + mm_text(w as int, 3) + "mm by "@ + mm_text(h as int, 3) + "mm board"@
    }
}

/// `r` reports area `z` as hanging off a `w` by `h` board.
pub open spec fn reports_area_off(r: DrcViolation, z: Zone, w: i64, h: i64) -> bool {
    describes(
        r,
        ViolationKind::AreaOffBoard,
        z.entity,
        None,
        None,
        None,
        z.bounds.min,
        "the "@ + area_word(z.kind) + " "@ + area_called(z) + " "@ + placement_text(z, w, h)
            + ": anything pointing at it - a `covers` clause in the stackup, the fabricator's document, the 3D view - is being sent to a part of the panel that is not there"@,
    )
}

impl AreaOffBoardRule {
    /// The rule's identifier in reports and filters.
    pub fn name(&self) -> (n: &'static str)
        ensures
            n@ == "area-off-board"@,
    {
        "area-off-board"
    }

    /// Every area that is not a pour and hangs off the board, in board
    /// order. Nothing where the design declares no board.
    pub fn check(&self, board: &Board) -> (out: Vec<DrcViolation>)
        requires
            board_ok(*board),
        ensures
            board.size is None ==> out@.len() == 0,
            board.size matches Some(s) ==> {
                &&& out@.len() == areas_off(board.zones@, s.0, s.1).len()
                &&& forall|k: int|
                    0 <= k < out@.len() ==> reports_area_off(
                        #[trigger] out@[k],
                        areas_off(board.zones@, s.0, s.1)[k],
                        s.0,
                        s.1,
                    )
            },
    {
        let (w, h) = match board.size {
            Some(s) => s,
            None => return Vec::new(),
        };
        let ghost zs = board.zones@;
        let mut out: Vec<DrcViolation> = Vec::new();
        let mut i: usize = 0;
        while i < board.zones.len()
            invariant
                i <= zs.len(),
                zs == board.zones@,
                board_ok(*board),
                board.size == Some((w, h)),
                out@.len() == areas_off(zs.take(i as int), w, h).len(),
                forall|k: int|
                    0 <= k < out@.len() ==> reports_area_off(#[trigger] out@[k], areas_off(zs.take(i as int), w, h)[k], w, h),
            decreases zs.len() - i,
        {
            let z = &board.zones[i];
            proof {
                assert(zone_ok(zs[i as int]));
                assert(zs.take(i + 1).drop_last() =~= zs.take(i as int));
                assert(zs.take(i + 1).last() == *z);
            }
            if !z.is_copper_pour() {
                let (min_x, min_y) = (z.bounds.min.x, z.bounds.min.y);
                let (max_x, max_y) = (z.bounds.max.x, z.bounds.max.y);
                let amounts: [i64; 4] = [-min_x, -min_y, max_x - w, max_y - h];
                let ghost a = overhangs(*z, w, h);
                let mut best: Option<usize> = None;
                let mut k: usize = 0;
                while k < 4
                    invariant
                        k <= 4,
                        a == overhangs(*z, w, h),
                        forall|t: int| 0 <= t < 4 ==> amounts[t] == a[t],
                        match best {
                            Some(b) => b < k && worst_side(a, k as int) == Some(b as int),
                            None => worst_side(a, k as int) is None,
                        },
                    decreases 4 - k,
                {
                    let here = amounts[k];
                    let take = here > 0 && match best {
                        None => true,
                        Some(b) => here >= amounts[b],
                    };
                    if take {
                        best = Some(k);
                    }
                    k = k + 1;
                }
                if let Some(side) = best {
                    let what = match z.kind {
                        ZoneKind::CopperPour => "pour",
                        ZoneKind::Keepout => "keepout",
                        ZoneKind::Flex => "flexible region",
                        ZoneKind::Region => "named area",
                    };
                    let called = match &z.name {
                        Some(n) => sentence("'", n.as_str(), "'", "", ""),
                        None => String::from_str("with no name"),
                    };
                    let off = min_x >= w || min_y >= h || max_x <= 0 || max_y <= 0;
                    let how = if off {
                        sentence("sits entirely off a ", mm(w, 3).as_str(), "mm by ", mm(h, 3).as_str(), "mm board")
                    } else {
                        let side_text = if side == 0 {
                            "left edge"
                        } else if side == 1 {
                            "bottom edge"
                        } else if side == 2 {
                            "right edge"
                        } else {
                            "top edge"
                        };
                        let first = sentence("hangs ", mm(amounts[side], 3).as_str(), "mm off the ", side_text, " of a ");
                        sentence(first.as_str(), mm(w, 3).as_str(), "mm by ", mm(h, 3).as_str(), "mm board")
                    };
                    let head = sentence("the ", what, " ", called.as_str(), " ");
                    let message = sentence(
                        head.as_str(),
                        how.as_str(),
                        ": anything pointing at it - a `covers` clause in the stackup, the fabricator's document, the 3D view - is being sent to a part of the panel that is not there",
                        "",
                        "",
                    );
                    proof {
                        reveal_strlit("");
                        reveal_strlit("with no name");
                        assert(called@ == area_called(*z));
                        assert(what@ == area_word(z.kind));
                        assert(how@ == placement_text(*z, w, h));
                    }
                    out.push(DrcViolation::area_off_board(z.entity, message, z.bounds.min));
                }
            }
            i = i + 1;
        }
        proof {
            assert(zs.take(i as int) =~= zs);
        }
        out
    }
}

} // verus!
