//! Checking two areas the stack points at over the same strip of board.
//!
//! A rigid-flex build is several stacks on one panel, each stated against
//! an area. Where two such areas overlap, both stacks describe the same
//! strip and the fabricator is told the board is two builds in one place.
//! Only areas the stackup names are asked, in the order it names them.
use vstd::prelude::*;

use crate::board::{board_ok, zone_ok, Board, StackArea, Zone};
use crate::geometry::Point;
use crate::text::{mm, mm_text};
use crate::violation::{describes, sentence, DrcViolation, ViolationKind};

verus! {

/// Rule for two stack-bearing areas that overlap.
pub struct AreaOverlapRule;

/// The first of `zs` called `name`.
pub open spec fn zone_named(zs: Seq<Zone>, name: Seq<char>) -> Option<Zone>
    decreases zs.len(),
{
    if zs.len() == 0 {
        None
    } else if zs[0].name matches Some(n) && n@ == name {
        Some(zs[0])
    } else {
        zone_named(zs.drop_first(), name)
    }
}

/// The areas the stack names that the board has, each with what the stack
/// says of it, in the order the stack names them.
pub open spec fn named_areas(zs: Seq<Zone>, names: Seq<StackArea>) -> Seq<(Zone, StackArea)>
    decreases names.len(),
{
    if names.len() == 0 {
        Seq::empty()
    } else {
        let rest = named_areas(zs, names.drop_last());
        match zone_named(zs, names.last().name@) {
            Some(z) => rest.push((z, names.last())),
            None => rest,
        }
    }
}

/// The strip two areas share: its lower corner and its width and height.
pub open spec fn shared(a: Zone, b: Zone) -> (int, int, int, int) {
    let min_x = if a.bounds.min.x >= b.bounds.min.x { a.bounds.min.x } else { b.bounds.min.x };
    let min_y = if a.bounds.min.y >= b.bounds.min.y { a.bounds.min.y } else { b.bounds.min.y };
    let max_x = if a.bounds.max.x <= b.bounds.max.x { a.bounds.max.x } else { b.bounds.max.x };
    let max_y = if a.bounds.max.y <= b.bounds.max.y { a.bounds.max.y } else { b.bounds.max.y };
    (min_x as int, min_y as int, max_x - min_x, max_y - min_y)
}

/// Two areas share a strip with some width and some height.
pub open spec fn overlapping(a: Zone, b: Zone) -> bool {
    shared(a, b).2 > 0 && shared(a, b).3 > 0
}

/// The pairs of named areas that overlap, scanning from pair `(i, j)`: each
/// area against every later one, in order.
pub open spec fn overlapping_areas(s: Seq<(Zone, StackArea)>, i: int, j: int) -> Seq<
    ((Zone, StackArea), (Zone, StackArea)),
>
    decreases s.len() - i, s.len() - j,
{
    if i < 0 || i >= s.len() {
        Seq::empty()
    } else if j >= s.len() || j <= i {
        overlapping_areas(s, i + 1, i + 2)
    } else {
        let rest = overlapping_areas(s, i, j + 1);
        if overlapping(s[i].0, s[j].0) {
            seq![(s[i], s[j])] + rest
        } else {
            rest
        }
    }
}

/// What a report adds when the two stacks state different thicknesses.
pub open spec fn thickness_note(a: StackArea, b: StackArea) -> Seq<char> {
    match (a.thickness, b.thickness) {
        (Some(one), Some(two)) => if one != two {
            ", where one stack is "@ + mm_text(one as int, 3) + "mm thick and the other "@
                + mm_text(two as int, 3) + "mm"@
        } else {
            Seq::empty()
        },
        _ => Seq::empty(),
    }
}

/// `r` reports the named areas `a` and `b` as covering the same strip.
pub open spec fn reports_area_overlap(r: DrcViolation, a: (Zone, StackArea), b: (Zone, StackArea)) -> bool {
    let (x, y, w, h) = shared(a.0, b.0);
    describes(
        r,
        ViolationKind::AreaOverlap,
        a.0.entity,
        Some(b.0.entity),
        None,
        None,
        Point { x: x as i64, y: y as i64 },
        "'"@ + a.1.name@ + "' and '"@ + b.1.name@ + "' both cover "@ + mm_text(w, 3) + "mm by "@
            + mm_text(h, 3) + "mm of board from ("@ + mm_text(x, 3) + "mm, "@ + mm_text(y, 3)
            + "mm)"@ + thickness_note(a.1, b.1)
            + ": the stack states one build per area and the handoff document writes a group for each, so this strip is described twice"@,
    )
}

/// Where the first zone called `name` is among the zones.
fn find_named(zones: &Vec<Zone>, name: &String) -> (r: Option<usize>)
    ensures
        match r {
            Some(k) => k < zones@.len() && zone_named(zones@, name@) == Some(zones@[k as int]),
            None => zone_named(zones@, name@) is None,
        },
{
    let mut k: usize = 0;
    proof {
        assert(zones@.skip(0) =~= zones@);
    }
    while k < zones.len()
        invariant
            k <= zones@.len(),
            zone_named(zones@, name@) == zone_named(zones@.skip(k as int), name@),
        decreases zones@.len() - k,
    {
        proof {
            assert(zones@.skip(k as int).drop_first() =~= zones@.skip(k + 1));
            assert(zones@.skip(k as int)[0] == zones@[k as int]);
        }
        let found = match &zones[k].name {
            Some(n) => *n == *name,
            None => false,
        };
        if found {
            return Some(k);
        }
        k = k + 1;
    }
    None
}

impl AreaOverlapRule {
    /// The rule's identifier in reports and filters.
    pub fn name(&self) -> (n: &'static str)
        ensures
            n@ == "area-overlap"@,
    {
        "area-overlap"
    }

    /// Every pair of areas the stackup names that overlap, in the order the
    /// stack names them. Nothing where the design declares no stackup or it
    /// names fewer than two areas.
    pub fn check(&self, board: &Board) -> (out: Vec<DrcViolation>)
        requires
            board_ok(*board),
        ensures
            match board.stack_areas {
                None => out@.len() == 0,
                Some(names) => if names@.len() < 2 {
                    out@.len() == 0
                } else {
                    &&& out@.len() == overlapping_areas(named_areas(board.zones@, names@), 0, 1).len()
                    &&& forall|k: int|
                        0 <= k < out@.len() ==> reports_area_overlap(
                            #[trigger] out@[k],
                            overlapping_areas(named_areas(board.zones@, names@), 0, 1)[k].0,
                            overlapping_areas(named_areas(board.zones@, names@), 0, 1)[k].1,
                        )
                },
            },
    {
        let names = match &board.stack_areas {
            Some(names) => names,
            None => return Vec::new(),
        };
        if names.len() < 2 {
            return Vec::new();
        }
        let ghost zs = board.zones@;
        let mut idx: Vec<(usize, usize)> = Vec::new();
        let mut n: usize = 0;
        while n < names.len()
            invariant
                n <= names@.len(),
                zs == board.zones@,
                idx@.len() == named_areas(zs, names@.take(n as int)).len(),
                forall|k: int|
                    0 <= k < idx@.len() ==> {
                        let (zi, ni) = #[trigger] idx@[k];
                        &&& zi < zs.len()
                        &&& ni < names@.len()
                        &&& named_areas(zs, names@.take(n as int))[k] == (zs[zi as int], names@[ni as int])
                    },
            decreases names@.len() - n,
        {
            proof {
                assert(names@.take(n + 1).drop_last() =~= names@.take(n as int));
                assert(names@.take(n + 1).last() == names@[n as int]);
            }
            let found = find_named(&board.zones, &names[n].name);
            let ghost before = idx@;
            match found {
                Some(z) => {
                    idx.push((z, n));
                },
                None => {},
            }
            n = n + 1;
        }
        proof {
            assert(names@.take(n as int) =~= names@);
        }
        let ghost s = named_areas(zs, names@);
        let ghost total = overlapping_areas(s, 0, 1);
        let mut out: Vec<DrcViolation> = Vec::new();
        let ghost mut done: Seq<((Zone, StackArea), (Zone, StackArea))> = Seq::empty();
        let count = idx.len();
        let mut i: usize = 0;
        while i < count
            invariant
                count == s.len(),
                count == idx@.len(),
                i <= count,
                zs == board.zones@,
                board_ok(*board),
                board.stack_areas == Some(*names),
                s == named_areas(zs, names@),
                forall|k: int|
                    0 <= k < idx@.len() ==> {
                        let (zi, ni) = #[trigger] idx@[k];
                        &&& zi < zs.len()
                        &&& ni < names@.len()
                        &&& s[k] == (zs[zi as int], names@[ni as int])
                    },
                done + overlapping_areas(s, i as int, i + 1) == total,
                out@.len() == done.len(),
                forall|k: int| 0 <= k < out@.len() ==> reports_area_overlap(#[trigger] out@[k], done[k].0, done[k].1),
            decreases count - i,
        {
            let mut j: usize = i + 1;
            while j < count
                invariant
                    count == s.len(),
                    count == idx@.len(),
                    i < count,
                    i + 1 <= j <= count,
                    zs == board.zones@,
                    board_ok(*board),
                    board.stack_areas == Some(*names),
                    forall|k: int|
                        0 <= k < idx@.len() ==> {
                            let (zi, ni) = #[trigger] idx@[k];
                            &&& zi < zs.len()
                            &&& ni < names@.len()
                            &&& s[k] == (zs[zi as int], names@[ni as int])
                        },
                    done + overlapping_areas(s, i as int, j as int) == total,
                    out@.len() == done.len(),
                    forall|k: int| 0 <= k < out@.len() ==> reports_area_overlap(#[trigger] out@[k], done[k].0, done[k].1),
                decreases count - j,
            {
                let (zi, ni) = idx[i];
                let (zj, nj) = idx[j];
                proof {
                    let _ = idx@[i as int];
                    let _ = idx@[j as int];
                }
                let a = &board.zones[zi];
                let b = &board.zones[zj];
                proof {
                    assert(zone_ok(zs[zi as int]) && zone_ok(zs[zj as int]));
                }
                let ghost rest = overlapping_areas(s, i as int, j + 1);
                let min_x = if a.bounds.min.x >= b.bounds.min.x { a.bounds.min.x } else { b.bounds.min.x };
                let min_y = if a.bounds.min.y >= b.bounds.min.y { a.bounds.min.y } else { b.bounds.min.y };
                let max_x = if a.bounds.max.x <= b.bounds.max.x { a.bounds.max.x } else { b.bounds.max.x };
                let max_y = if a.bounds.max.y <= b.bounds.max.y { a.bounds.max.y } else { b.bounds.max.y };
                let width = max_x - min_x;
                let height = max_y - min_y;
                if width > 0 && height > 0 {
                    let na = &names[ni];
                    let nb = &names[nj];
                    let note = match (na.thickness, nb.thickness) {
                        (Some(one), Some(two)) => if one != two {
                            sentence(", where one stack is ", mm(one, 3).as_str(), "mm thick and the other ", mm(two, 3).as_str(), "mm")
                        } else {
                            String::new()
                        },
                        _ => String::new(),
                    };
                    let first = sentence("'", na.name.as_str(), "' and '", nb.name.as_str(), "' both cover ");
                    let second = sentence(first.as_str(), mm(width, 3).as_str(), "mm by ", mm(height, 3).as_str(), "mm of board from (");
                    let third = sentence(second.as_str(), mm(min_x, 3).as_str(), "mm, ", mm(min_y, 3).as_str(), "mm)");
                    let message = sentence(
                        third.as_str(),
                        note.as_str(),
                        ": the stack states one build per area and the handoff document writes a group for each, so this strip is described twice",
                        "",
                        "",
                    );
                    proof {
                        reveal_strlit("");
                        assert(note@ == thickness_note(names@[ni as int], names@[nj as int]));
                        assert(overlapping(s[i as int].0, s[j as int].0));
                    }
                    out.push(DrcViolation::area_overlap(a.entity, b.entity, message, Point { x: min_x, y: min_y }));
                    proof {
                        assert(done.push((s[i as int], s[j as int])) + rest =~= done + overlapping_areas(s, i as int, j as int));
                        done = done.push((s[i as int], s[j as int]));
                    }
                } else {
                    proof {
                        assert(!overlapping(s[i as int].0, s[j as int].0));
                    }
                }
                j = j + 1;
            }
            i = i + 1;
        }
        proof {
            assert(done =~= total);
        }
        out
    }
}

} // verus!
