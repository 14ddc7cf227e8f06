//! Checking a declared stackup that contradicts the design.
//!
//! A stackup is the design telling a fabricator what to press together. Two
//! contradictions are answerable from the design alone: a stackup that
//! describes a different number of copper layers than the board says, and
//! two copper layers pressed against each other with no dielectric between
//! them, which is one thicker foil and a short by construction.
//!
//! The total thickness is not judged against anything; it goes in the
//! message, where a person who knows the fabricator's range can read it.
use vstd::prelude::*;

use crate::board::{board_ok, Board, StackLayer, Stackup};
use crate::geometry::Point;
use crate::text::{decimal_digits, digits, mm, mm_text, string_of_chars};
use crate::violation::{describes, sentence, DrcViolation, ViolationKind};

verus! {

/// Rule for a declared stackup that contradicts the design.
pub struct StackupRule;

/// The position of the first copper layer after position `first`, scanning
/// from position `k`; `first` itself where there is none.
pub open spec fn copper_from(layers: Seq<StackLayer>, k: int, first: int) -> int
    decreases layers.len() - k,
{
    if k < 0 || k >= layers.len() {
        first
    } else if layers[k].copper {
        k
    } else {
        copper_from(layers, k + 1, first)
    }
}

/// The copper layer that pairs with the one at position `first`: the next
/// copper layer below it, or `first` itself where there is none.
pub open spec fn next_copper(layers: Seq<StackLayer>, first: int) -> int {
    copper_from(layers, first + 1, first)
}

/// The kinds of the layers at positions `lo` up to `hi`, separated by
/// spaces.
pub open spec fn kinds_between(layers: Seq<StackLayer>, lo: int, hi: int) -> Seq<char>
    decreases hi - lo,
{
    if hi <= lo {
        Seq::empty()
    } else if hi == lo + 1 {
        layers[lo].kind@
    } else {
        kinds_between(layers, lo, hi - 1) + " "@ + layers[hi - 1].kind@
    }
}

/// What a report of two touching copper layers adds about what lies between
/// them, when something does: it is a surface finish, not a dielectric.
pub open spec fn surface_text(layers: Seq<StackLayer>, first: int) -> Seq<char> {
    let (lo, hi) = (first + 1, next_copper(layers, first));
    if hi <= lo {
        Seq::empty()
    } else {
        " - "@ + kinds_between(layers, lo, hi) + " is a surface finish, not a dielectric"@
    }
}

/// What a report of a wrong copper count adds about the stackup's
/// thickness, when it states one.
pub open spec fn thickness_text(total: Option<i64>) -> Seq<char> {
    match total {
        Some(t) => " ("@ + mm_text(t as int, 3) + "mm of material)"@,
        None => Seq::empty(),
    }
}

/// `r` reports a stackup describing `declared` copper layers on a board
/// that says `counted`.
pub open spec fn reports_count(r: DrcViolation, board: u32, counted: u8, declared: usize, total: Option<i64>) -> bool {
    describes(
        r,
        ViolationKind::Stackup,
        board,
        None,
        None,
        None,
        Point { x: 0, y: 0 },
        "board says "@ + digits(counted as nat) + " copper layers and the stackup describes "@ + digits(
            declared as nat,
        ) + thickness_text(total),
    )
}

/// `r` reports the copper layer at position `first` touching the next one.
pub open spec fn reports_touching(r: DrcViolation, board: u32, layers: Seq<StackLayer>, first: int) -> bool {
    describes(
        r,
        ViolationKind::Stackup,
        board,
        None,
        None,
        None,
        Point { x: 0, y: 0 },
        "copper layer "@ + digits((first + 1) as nat) + " and layer "@ + digits(
            (next_copper(layers, first) + 1) as nat,
        ) + " touch with no dielectric between them"@ + surface_text(layers, first),
    )
}

/// What the rule finds on a board: where the design declares a board and a
/// stackup, a report when the stackup's copper count differs from the
/// board's, then one for each pair of touching copper layers, top first.
pub open spec fn found_by_stackup(board: Board, out: Seq<DrcViolation>) -> bool {
    match (board.stackup, board.layer_count, board.board_entity) {
        (Some(s), Some(n), Some(e)) => {
            let m: int = if s.copper_count != n as usize {
                1
            } else {
                0
            };
            let touching = s.copper_touching_copper@;
            &&& out.len() == m + touching.len()
            &&& m == 1 ==> reports_count(out[0], e, n, s.copper_count, board.stackup_thickness)
            &&& forall|k: int|
                0 <= k < touching.len() ==> reports_touching(
                    #[trigger] out[m + k],
                    e,
                    s.layers@,
                    touching[k] as int,
                )
        },
        _ => out.len() == 0,
    }
}

/// The position of the copper layer that pairs with the one at `first`.
fn next_copper_after(stack: &Stackup, first: usize) -> (r: usize)
    requires
        first < stack.layers@.len(),
    ensures
        r == next_copper(stack.layers@, first as int),
        first < r < stack.layers@.len() || r == first,
{
    let ghost layers = stack.layers@;
    let n = stack.layers.len();
    let mut k = first + 1;
    while k < stack.layers.len()
        invariant
            layers == stack.layers@,
            first < k <= layers.len(),
            first < layers.len(),
            copper_from(layers, k as int, first as int) == next_copper(layers, first as int),
        decreases layers.len() - k,
    {
        if stack.layers[k].copper {
            return k;
        }
        k = k + 1;
    }
    first
}

/// The kinds of the layers between the copper layer at `first` and the one
/// that pairs with it, when there are any.
fn surface_note(stack: &Stackup, first: usize) -> (s: String)
    requires
        first < stack.layers@.len(),
    ensures
        s@ == surface_text(stack.layers@, first as int),
{
    let ghost layers = stack.layers@;
    let hi = next_copper_after(stack, first);
    let n = stack.layers.len();
    let lo = first + 1;
    if hi <= lo {
        return String::new();
    }
    let mut between = String::from_str(" - ");
    let ghost head = between@;
    proof {
        reveal_strlit(" - ");
    }
    between.append(stack.layers[lo].kind.as_str());
    let mut k = lo + 1;
    while k < hi
        invariant
            layers == stack.layers@,
            lo < k <= hi,
            hi < layers.len(),
            between@ == " - "@ + kinds_between(layers, lo as int, k as int),
        decreases hi - k,
    {
        between.append(" ");
        between.append(stack.layers[k].kind.as_str());
        proof {
            assert(kinds_between(layers, lo as int, k + 1) == kinds_between(layers, lo as int, k as int) + " "@
                + layers[k as int].kind@);
        }
        k = k + 1;
    }
    between.append(" is a surface finish, not a dielectric");
    between
}

/// A count written in decimal.
fn count_text(n: u64) -> (s: String)
    ensures
        s@ == digits(n as nat),
{
    let chars = decimal_digits(n);
    string_of_chars(&chars)
}

impl StackupRule {
    /// The rule's identifier in reports and filters.
    pub fn name(&self) -> (n: &'static str)
        ensures
            n@ == "stackup"@,
    {
        "stackup"
    }

    /// Where the design declares a board and a stackup: a report when the
    /// stackup describes a different number of copper layers than the board
    /// says, then one for each copper layer the next one touches with no
    /// dielectric between them. Nothing where the design declares no
    /// stackup or no board.
    pub fn check(&self, board: &Board) -> (out: Vec<DrcViolation>)
        requires
            board_ok(*board),
        ensures
            found_by_stackup(*board, out@),
    {
        let stack = match &board.stackup {
            Some(s) => s,
            None => return Vec::new(),
        };
        let counted = match board.layer_count {
            Some(n) => n,
            None => return Vec::new(),
        };
        let entity = match board.board_entity {
            Some(e) => e,
            None => return Vec::new(),
        };
        let at = Point { x: 0, y: 0 };
        let mut out: Vec<DrcViolation> = Vec::new();
        let declared = stack.copper_count;
        let m: usize = if declared != counted as usize {
            let note = match board.stackup_thickness {
                Some(t) => sentence(" (", mm(t, 3).as_str(), "mm of material)", "", ""),
                None => String::new(),
            };
            let message = sentence(
                "board says ",
                count_text(counted as u64).as_str(),
                " copper layers and the stackup describes ",
                count_text(declared as u64).as_str(),
                note.as_str(),
            );
            proof {
                reveal_strlit("");
                assert(note@ == thickness_text(board.stackup_thickness));
            }
            out.push(DrcViolation::stackup(entity, message, at));
            1
        } else {
            0
        };
        let ghost layers = stack.layers@;
        let ghost touching = stack.copper_touching_copper@;
        let mut i: usize = 0;
        while i < stack.copper_touching_copper.len()
            invariant
                board_ok(*board),
                board.stackup == Some(*stack),
                board.layer_count == Some(counted),
                board.board_entity == Some(entity),
                at == (Point { x: 0, y: 0 }),
                declared == stack.copper_count,
                layers == stack.layers@,
                touching == stack.copper_touching_copper@,
                m == (if declared != counted as usize {
                    1int
                } else {
                    0int
                }),
                i <= touching.len(),
                out@.len() == m + i,
                m == 1 ==> reports_count(out@[0], entity, counted, declared, board.stackup_thickness),
                forall|k: int| 0 <= k < i ==> reports_touching(#[trigger] out@[m + k], entity, layers, touching[k] as int),
            decreases touching.len() - i,
        {
            let first = stack.copper_touching_copper[i];
            let n = stack.layers.len();
            proof {
                assert(touching[i as int] < layers.len());
            }
            let pair = next_copper_after(stack, first);
            let note = surface_note(stack, first);
            let message = sentence(
                "copper layer ",
                count_text((first + 1) as u64).as_str(),
                " and layer ",
                count_text((pair + 1) as u64).as_str(),
                " touch with no dielectric between them",
            );
            let mut message = message;
            message.append(note.as_str());
            let ghost before = out@;
            out.push(DrcViolation::stackup(entity, message, at));
            proof {
                assert(reports_touching(out@[m + i], entity, layers, touching[i as int] as int));
                assert forall|k: int| 0 <= k < i + 1 implies reports_touching(
                    #[trigger] out@[m + k],
                    entity,
                    layers,
                    touching[k] as int,
                ) by {
                    if k < i {
                        assert(out@[m + k] == before[m + k]);
                    }
                }
            }
            i = i + 1;
        }
        out
    }
}

} // verus!
