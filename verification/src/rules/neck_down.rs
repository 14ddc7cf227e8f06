//! Checking declared necks that do not describe a neck.
//!
//! `neck 0.8mm for 4mm` says the copper may run thin on the way into a pad,
//! and how far it may do so. A claim nobody measures is no better than no
//! claim, so the rule measures the ways the statement can be wrong: a neck
//! no narrower than the trace, one under what the fabricator etches, one
//! allowed to run longer than the whole trace, and copper drawn thin for
//! longer in one stretch than the neck allows. A trace whose segments carry
//! no width of their own has no thin copper to measure, and the rule says so
//! rather than passing it quietly.
//!
//! A trace that states its own neck keeps it; one that states none takes
//! its net's. Whether a neck is thermally safe is not decided here: that
//! needs a current and a temperature rise the board does not carry.
use vstd::prelude::*;

use crate::board::{board_ok, trace_ok, Board, Neck, NetRule, Trace};
use crate::geometry::{mid, midpoint, Point};
use crate::presets::{rules_ok, DesignRules};
use crate::text::{short_mm, short_mm_text};
use crate::violation::{describes, sentence, DrcViolation, ViolationKind};

verus! {

/// Rule for declared necks that do not describe a neck.
pub struct NeckDownRule;

/// The neck a net's own block allows: that of the first block for the net
/// that states one.
pub open spec fn net_neck(rules: Seq<NetRule>, net: u32) -> Option<Neck>
    decreases rules.len(),
{
    if rules.len() == 0 {
        None
    } else if rules[0].net == net && rules[0].neck is Some {
        rules[0].neck
    } else {
        net_neck(rules.drop_first(), net)
    }
}

/// The neck that governs a trace: its own, or else its net's.
pub open spec fn neck_of(t: Trace, rules: Seq<NetRule>) -> Option<Neck> {
    match t.neck {
        Some(n) => Some(n),
        None => net_neck(rules, t.net),
    }
}

/// Where a neck report is placed: the middle of the trace's middle
/// segment; nowhere for a trace with no segments.
pub open spec fn neck_at(t: Trace) -> Option<Point> {
    let segs = t.segments@;
    if segs.len() == 0 {
        None
    } else {
        Some(mid(segs[(segs.len() / 2) as int].start, segs[(segs.len() / 2) as int].end))
    }
}

/// What is wrong with the neck `n` on the trace `t`, in the order the rule
/// says it: the neck's width (not narrower than the trace, or else under
/// what the fabricator etches), then its length against the trace's, then
/// the copper drawn thin against the length it allows.
pub open spec fn neck_messages(n: Neck, t: Trace, min_width: i64) -> Seq<Seq<char>> {
    let width = if n.width >= t.width {
        seq![
            "a neck of "@ + short_mm_text(n.width as int) + "mm is not narrower than the "@ + short_mm_text(
                t.width as int,
            ) + "mm trace it is on: a neck that does not narrow is a second width"@,
        ]
    } else if n.width < min_width {
        seq![
            "a neck of "@ + short_mm_text(n.width as int) + "mm is under the "@ + short_mm_text(
                min_width as int,
            ) + "mm this fabricator will etch: the board cannot be made whatever the neck is for"@,
        ]
    } else {
        Seq::empty()
    };
    let length = if n.length > t.length {
        seq![
            "a neck allowed to run "@ + short_mm_text(n.length as int) + "mm is on a trace "@
                + short_mm_text(t.length as int)
                + "mm long: the whole trace is the neck, so nothing is carrying the current"@,
        ]
    } else {
        Seq::empty()
    };
    let run = match t.thin_run {
        Some(r) => if r > n.length {
            seq![
                "the copper runs thin for "@ + short_mm_text(r as int) + "mm in one stretch where the neck allows "@
                    + short_mm_text(n.length as int) + "mm: the declaration is not what was drawn"@,
            ]
        } else {
            Seq::empty()
        },
        None => seq![
            "a neck allowed to run "@ + short_mm_text(n.length as int)
                + "mm is declared, but no segment of this trace carries a width of its own: how far the copper runs thin was not measured"@,
        ],
    };
    width + length + run
}

/// Each report for the first `n` traces, as the trace, where it is placed
/// and what it says, trace by trace.
pub open spec fn neck_findings_upto(b: Board, min_width: i64, n: int) -> Seq<(u32, Point, Seq<char>)>
    decreases n,
{
    if n <= 0 {
        Seq::empty()
    } else {
        let rest = neck_findings_upto(b, min_width, n - 1);
        let t = b.traces@[n - 1];
        match (neck_of(t, b.net_rules@), neck_at(t)) {
            (Some(k), Some(p)) => rest + neck_messages(k, t, min_width).map_values(
                |m: Seq<char>| (t.entity, p, m),
            ),
            _ => rest,
        }
    }
}

/// What the rule finds on a board: for each trace under a neck, its own or
/// its net's, what is wrong with the neck, trace by trace.
pub open spec fn found_by_neck_down(board: Board, rules: DesignRules, out: Seq<DrcViolation>) -> bool {
    let found = neck_findings_upto(board, rules.min_trace_width, board.traces@.len() as int);
    &&& out.len() == found.len()
    &&& forall|k: int|
        0 <= k < out.len() ==> describes(
            #[trigger] out[k],
            ViolationKind::NeckDown,
            found[k].0,
            None,
            None,
            None,
            found[k].1,
            found[k].2,
        )
}

/// The neck a net's own block allows.
fn find_net_neck(rules: &Vec<NetRule>, net: u32) -> (r: Option<Neck>)
    ensures
        r == net_neck(rules@, net),
{
    let mut k: usize = 0;
    proof {
        assert(rules@.skip(0) =~= rules@);
    }
    while k < rules.len()
        invariant
            k <= rules@.len(),
            net_neck(rules@, net) == net_neck(rules@.skip(k as int), net),
        decreases rules@.len() - k,
    {
        proof {
            assert(rules@.skip(k as int).drop_first() =~= rules@.skip(k + 1));
            assert(rules@.skip(k as int)[0] == rules@[k as int]);
        }
        if rules[k].net == net && rules[k].neck.is_some() {
            return rules[k].neck;
        }
        k = k + 1;
    }
    None
}

/// A report of a neck, placed at `at`, saying `message`.
fn neck_report(entity: u32, at: Point, message: String) -> (v: DrcViolation)
    ensures
        describes(v, ViolationKind::NeckDown, entity, None, None, None, at, message@),
{
    let mut v = DrcViolation::neck_down(entity, at);
    v.message = message;
    v
}

/// The reports for the neck `n` on the trace `t`, placed at `at`.
fn neck_reports(n: Neck, t: &Trace, min_width: i64, at: Point) -> (out: Vec<DrcViolation>)
    ensures
        out@.len() == neck_messages(n, *t, min_width).len(),
        forall|k: int|
            0 <= k < out@.len() ==> describes(
                #[trigger] out@[k],
                ViolationKind::NeckDown,
                t.entity,
                None,
                None,
                None,
                at,
                neck_messages(n, *t, min_width)[k],
            ),
{
    let mut out: Vec<DrcViolation> = Vec::new();
    if n.width >= t.width {
        let m = sentence("a neck of ", short_mm(n.width).as_str(), "mm is not narrower than the ", short_mm(t.width).as_str(), "mm trace it is on: a neck that does not narrow is a second width");
        out.push(neck_report(t.entity, at, m));
    } else if n.width < min_width {
        let m = sentence("a neck of ", short_mm(n.width).as_str(), "mm is under the ", short_mm(min_width).as_str(), "mm this fabricator will etch: the board cannot be made whatever the neck is for");
        out.push(neck_report(t.entity, at, m));
    }
    let ghost first = out@;
    if n.length > t.length {
        let m = sentence("a neck allowed to run ", short_mm(n.length).as_str(), "mm is on a trace ", short_mm(t.length).as_str(), "mm long: the whole trace is the neck, so nothing is carrying the current");
        out.push(neck_report(t.entity, at, m));
    }
    let ghost second = out@;
    match t.thin_run {
        Some(r) => if r > n.length {
            let m = sentence("the copper runs thin for ", short_mm(r).as_str(), "mm in one stretch where the neck allows ", short_mm(n.length).as_str(), "mm: the declaration is not what was drawn");
            out.push(neck_report(t.entity, at, m));
        },
        None => {
            let m = sentence("a neck allowed to run ", short_mm(n.length).as_str(), "mm is declared, but no segment of this trace carries a width of its own: how far the copper runs thin was not measured", "", "");
            proof {
                reveal_strlit("");
            }
            out.push(neck_report(t.entity, at, m));
        },
    }
    proof {
        let msgs = neck_messages(n, *t, min_width);
        assert forall|k: int| 0 <= k < out@.len() implies describes(
            #[trigger] out@[k],
            ViolationKind::NeckDown,
            t.entity,
            None,
            None,
            None,
            at,
            msgs[k],
        ) by {
            if k < first.len() {
                assert(out@[k] == first[k]);
            } else if k < second.len() {
                assert(out@[k] == second[k]);
            }
        }
    }
    out
}

impl NeckDownRule {
    /// The rule's identifier in reports and filters.
    pub fn name(&self) -> (n: &'static str)
        ensures
            n@ == "neck-down"@,
    {
        "neck-down"
    }

    /// For each trace under a neck, its own or else its net's, and with at
    /// least one segment: a report when the neck is no narrower than the
    /// trace, or else when it is under the fabricator's narrowest trace;
    /// when the neck may run further than the trace is long; and when the
    /// copper runs thin for longer in one stretch than the neck allows.
    /// Each is placed at the middle of the trace's middle segment.
    pub fn check(&self, board: &Board, rules: &DesignRules) -> (out: Vec<DrcViolation>)
        requires
            board_ok(*board),
            rules_ok(*rules),
        ensures
            found_by_neck_down(*board, *rules, out@),
    {
        let min_width = rules.min_trace_width;
        let mut out: Vec<DrcViolation> = Vec::new();
        let ghost mut done: Seq<(u32, Point, Seq<char>)> = Seq::empty();
        let mut i: usize = 0;
        while i < board.traces.len()
            invariant
                board_ok(*board),
                min_width == rules.min_trace_width,
                i <= board.traces@.len(),
                done == neck_findings_upto(*board, min_width, i as int),
                out@.len() == done.len(),
                forall|k: int|
                    0 <= k < out@.len() ==> describes(
                        #[trigger] out@[k],
                        ViolationKind::NeckDown,
                        done[k].0,
                        None,
                        None,
                        None,
                        done[k].1,
                        done[k].2,
                    ),
            decreases board.traces@.len() - i,
        {
            let t = &board.traces[i];
            proof {
                assert(trace_ok(board.traces@[i as int]));
            }
            let neck = match t.neck {
                Some(n) => Some(n),
                None => find_net_neck(&board.net_rules, t.net),
            };
            let n = t.segments.len();
            if n > 0 {
                match neck {
                    Some(k) => {
                        let s = &t.segments[n / 2];
                        proof {
                            assert(crate::geometry::point_ok(t.segments@[(n / 2) as int].start));
                            assert(crate::geometry::point_ok(t.segments@[(n / 2) as int].end));
                        }
                        let at = midpoint(s.start, s.end);
                        let mut found = neck_reports(k, t, min_width, at);
                        let ghost added = neck_messages(k, *t, min_width).map_values(
                            |m: Seq<char>| (t.entity, at, m),
                        );
                        let ghost before = out@;
                        let ghost got = found@;
                        out.append(&mut found);
                        proof {
                            assert forall|j: int| 0 <= j < out@.len() implies describes(
                                #[trigger] out@[j],
                                ViolationKind::NeckDown,
                                (done + added)[j].0,
                                None,
                                None,
                                None,
                                (done + added)[j].1,
                                (done + added)[j].2,
                            ) by {
                                if j >= before.len() {
                                    assert(out@[j] == got[j - before.len()]);
                                } else {
                                    assert(out@[j] == before[j]);
                                }
                            }
                            done = done + added;
                        }
                    },
                    None => {},
                }
            }
            i = i + 1;
        }
        out
    }
}

} // verus!
