//! Checking the two halves of a differential pair for equal length.
//!
//! A pair is two nets carrying one signal between them, and the receiver
//! reads the difference: copper one half runs and the other does not
//! arrives late. What is measured is copper length per net, summed over
//! every segment of every trace on it, each segment rounded to the nearest
//! nanometre. A pair naming a net the design does not have is reported too,
//! because a typo there means the check silently never runs.
use vstd::prelude::*;

use crate::board::{board_ok, trace_ok, Board, DiffPair, NetName, Segment, Trace};
use crate::geometry::{lemma_round_root_exists, point_ok, run_between, run_length, Point};
use crate::presets::{rules_ok, DesignRules};
use crate::text::{mm, mm_text};
use crate::violation::{describes, sentence, DrcViolation, ViolationKind};

verus! {

/// Rule for the skew between the halves of a differential pair.
pub struct DiffPairSkewRule;

/// The number of the first net called `name`.
pub open spec fn net_named(nets: Seq<NetName>, name: Seq<char>) -> Option<u32>
    decreases nets.len(),
{
    if nets.len() == 0 {
        None
    } else if nets[0].name@ == name {
        Some(nets[0].id)
    } else {
        net_named(nets.drop_first(), name)
    }
}

/// The copper in a run of segments: the sum of their lengths, each rounded
/// to the nearest nanometre.
pub open spec fn copper_of(segs: Seq<Segment>) -> int
    decreases segs.len(),
{
    if segs.len() == 0 {
        0
    } else {
        copper_of(segs.drop_last()) + run_length(segs.last().start, segs.last().end)
    }
}

/// The copper on a net: that of every trace on it.
pub open spec fn net_copper(traces: Seq<Trace>, net: u32) -> int
    decreases traces.len(),
{
    if traces.len() == 0 {
        0
    } else {
        net_copper(traces.drop_last(), net) + if traces.last().net == net {
            copper_of(traces.last().segments@)
        } else {
            0
        }
    }
}

/// The copper on a net as the rule carries it: the sum, up to the largest
/// length a report can hold.
pub open spec fn net_length(traces: Seq<Trace>, net: u32) -> int {
    let c = net_copper(traces, net);
    if c > i64::MAX {
        i64::MAX as int
    } else {
        c
    }
}

/// Where the first trace on a net with any copper starts.
pub open spec fn somewhere_on(traces: Seq<Trace>, net: u32) -> Option<Point>
    decreases traces.len(),
{
    if traces.len() == 0 {
        None
    } else if traces[0].net == net && traces[0].segments@.len() > 0 {
        Some(traces[0].segments@[0].start)
    } else {
        somewhere_on(traces.drop_first(), net)
    }
}

/// The halves of a pair that name no net of the design, joined by "or".
pub open spec fn missing_text(p: DiffPair, nets: Seq<NetName>) -> Seq<char> {
    match (net_named(nets, p.positive@), net_named(nets, p.negative@)) {
        (None, None) => p.positive@ + " or "@ + p.negative@,
        (None, Some(_)) => p.positive@,
        (Some(_), None) => p.negative@,
        (Some(_), Some(_)) => Seq::empty(),
    }
}

/// What a report of a pair says and carries: the skew measured, the skew
/// allowed, where it is placed and its message; nothing where the halves
/// match within the rule.
pub open spec fn pair_report(b: Board, max: i64, p: DiffPair) -> Option<(Option<i64>, Option<i64>, Point, Seq<char>)> {
    let origin = Point { x: 0, y: 0 };
    match (net_named(b.nets@, p.positive@), net_named(b.nets@, p.negative@)) {
        (Some(a), Some(c)) => {
            let pl = net_length(b.traces@, a);
            let nl = net_length(b.traces@, c);
            let skew = if pl >= nl {
                pl - nl
            } else {
                nl - pl
            };
            let at = match somewhere_on(b.traces@, a) {
                Some(q) => q,
                None => match somewhere_on(b.traces@, c) {
                    Some(q) => q,
                    None => origin,
                },
            };
            if skew <= max {
                None
            } else {
                Some(
                    (
                        Some(skew as i64),
                        Some(max),
                        at,
                        "diffpair '"@ + p.name@ + "': "@ + p.positive@ + " runs "@ + mm_text(pl, 3)
                            + "mm and "@ + p.negative@ + " runs "@ + mm_text(nl, 3) + "mm"@,
                    ),
                )
            }
        },
        _ => Some(
            (
                None,
                None,
                origin,
                "diffpair '"@ + p.name@ + "' names "@ + missing_text(p, b.nets@)
                    + " which is not a net on this board"@,
            ),
        ),
    }
}

/// The reports for the first `n` pairs, in the order the design declares
/// them.
pub open spec fn pair_reports_upto(b: Board, max: i64, n: int) -> Seq<(Option<i64>, Option<i64>, Point, Seq<char>)>
    decreases n,
{
    if n <= 0 {
        Seq::empty()
    } else {
        let rest = pair_reports_upto(b, max, n - 1);
        match pair_report(b, max, b.diff_pairs@[n - 1]) {
            Some(r) => rest.push(r),
            None => rest,
        }
    }
}

/// What the rule finds on a board: where the design declares a board, a
/// report for each pair naming a net the design lacks, and for each pair
/// whose halves differ in length by more than the rule allows, pair by pair.
pub open spec fn found_by_diff_pair(board: Board, rules: DesignRules, out: Seq<DrcViolation>) -> bool {
    match board.board_entity {
        None => out.len() == 0,
        Some(e) => {
            let found = pair_reports_upto(board, rules.max_diff_pair_skew, board.diff_pairs@.len() as int);
            &&& out.len() == found.len()
            &&& forall|k: int|
                0 <= k < out.len() ==> describes(
                    #[trigger] out[k],
                    ViolationKind::DiffPairSkew,
                    e,
                    None,
                    found[k].0,
                    found[k].1,
                    found[k].2,
                    found[k].3,
                )
        },
    }
}

/// The number of the first net called `name`.
fn find_net(nets: &Vec<NetName>, name: &String) -> (r: Option<u32>)
    ensures
        r == net_named(nets@, name@),
{
    let mut k: usize = 0;
    proof {
        assert(nets@.skip(0) =~= nets@);
    }
    while k < nets.len()
        invariant
            k <= nets@.len(),
            net_named(nets@, name@) == net_named(nets@.skip(k as int), name@),
        decreases nets@.len() - k,
    {
        proof {
            assert(nets@.skip(k as int).drop_first() =~= nets@.skip(k + 1));
            assert(nets@.skip(k as int)[0] == nets@[k as int]);
        }
        if nets[k].name == *name {
            return Some(nets[k].id);
        }
        k = k + 1;
    }
    None
}

/// `acc` plus `run`, held at the largest length a report can carry.
fn add_held(acc: i64, run: i64) -> (r: i64)
    requires
        0 <= acc,
        0 <= run,
    ensures
        r == (if acc + run > i64::MAX {
            i64::MAX as int
        } else {
            acc + run
        }),
{
    if acc > i64::MAX - run {
        i64::MAX
    } else {
        acc + run
    }
}

proof fn lemma_copper_nonneg(segs: Seq<Segment>)
    ensures
        copper_of(segs) >= 0,
    decreases segs.len(),
{
    if segs.len() > 0 {
        lemma_copper_nonneg(segs.drop_last());
        let (a, b) = (segs.last().start, segs.last().end);
        let (dx, dy) = (b.x - a.x, b.y - a.y);
        assert(dx * dx + dy * dy >= 0) by (nonlinear_arith);
        lemma_round_root_exists(dx * dx + dy * dy);
    }
}

proof fn lemma_net_copper_nonneg(traces: Seq<Trace>, net: u32)
    ensures
        net_copper(traces, net) >= 0,
    decreases traces.len(),
{
    if traces.len() > 0 {
        lemma_net_copper_nonneg(traces.drop_last(), net);
        lemma_copper_nonneg(traces.last().segments@);
    }
}

/// The copper on a net, held at the largest length a report can carry.
fn length_of_net(board: &Board, net: u32) -> (r: i64)
    requires
        board_ok(*board),
    ensures
        r == net_length(board.traces@, net),
{
    let ghost ts = board.traces@;
    let mut acc: i64 = 0;
    let mut i: usize = 0;
    while i < board.traces.len()
        invariant
            board_ok(*board),
            ts == board.traces@,
            i <= ts.len(),
            0 <= acc,
            acc == (if net_copper(ts.take(i as int), net) > i64::MAX {
                i64::MAX as int
            } else {
                net_copper(ts.take(i as int), net)
            }),
        decreases ts.len() - i,
    {
        let t = &board.traces[i];
        proof {
            assert(ts.take(i + 1).drop_last() =~= ts.take(i as int));
            assert(ts.take(i + 1).last() == ts[i as int]);
            assert(trace_ok(ts[i as int]));
            lemma_net_copper_nonneg(ts.take(i as int), net);
        }
        if t.net == net {
            let ghost segs = t.segments@;
            let ghost base = net_copper(ts.take(i as int), net);
            let mut k: usize = 0;
            while k < t.segments.len()
                invariant
                    trace_ok(*t),
                    segs == t.segments@,
                    k <= segs.len(),
                    0 <= acc,
                    base >= 0,
                    acc == (if base + copper_of(segs.take(k as int)) > i64::MAX {
                        i64::MAX as int
                    } else {
                        base + copper_of(segs.take(k as int))
                    }),
                decreases segs.len() - k,
            {
                let s = &t.segments[k];
                proof {
                    assert(segs.take(k + 1).drop_last() =~= segs.take(k as int));
                    assert(segs.take(k + 1).last() == segs[k as int]);
                    assert(point_ok(segs[k as int].start) && point_ok(segs[k as int].end));
                    lemma_copper_nonneg(segs.take(k as int));
                }
                let run = run_between(s.start, s.end);
                acc = add_held(acc, run);
                k = k + 1;
            }
            proof {
                assert(segs.take(k as int) =~= segs);
            }
        }
        i = i + 1;
    }
    proof {
        assert(ts.take(i as int) =~= ts);
    }
    acc
}

/// Where the first trace on a net with any copper starts.
fn find_somewhere(traces: &Vec<Trace>, net: u32) -> (r: Option<Point>)
    ensures
        r == somewhere_on(traces@, net),
{
    let mut k: usize = 0;
    proof {
        assert(traces@.skip(0) =~= traces@);
    }
    while k < traces.len()
        invariant
            k <= traces@.len(),
            somewhere_on(traces@, net) == somewhere_on(traces@.skip(k as int), net),
        decreases traces@.len() - k,
    {
        proof {
            assert(traces@.skip(k as int).drop_first() =~= traces@.skip(k + 1));
            assert(traces@.skip(k as int)[0] == traces@[k as int]);
        }
        if traces[k].net == net && traces[k].segments.len() > 0 {
            return Some(traces[k].segments[0].start);
        }
        k = k + 1;
    }
    None
}

/// The report of one pair, where there is one.
fn report_pair(board: &Board, max: i64, entity: u32, p: &DiffPair) -> (r: Option<DrcViolation>)
    requires
        board_ok(*board),
    ensures
        match pair_report(*board, max, *p) {
            None => r is None,
            Some(f) => r matches Some(v) && describes(
                v,
                ViolationKind::DiffPairSkew,
                entity,
                None,
                f.0,
                f.1,
                f.2,
                f.3,
            ),
        },
{
    let origin = Point { x: 0, y: 0 };
    let pos = find_net(&board.nets, &p.positive);
    let neg = find_net(&board.nets, &p.negative);
    match (pos, neg) {
        (Some(a), Some(c)) => {
            let pl = length_of_net(board, a);
            let nl = length_of_net(board, c);
            proof {
                lemma_net_copper_nonneg(board.traces@, a);
                lemma_net_copper_nonneg(board.traces@, c);
            }
            let skew = if pl >= nl {
                pl - nl
            } else {
                nl - pl
            };
            if skew <= max {
                return None;
            }
            let at = match find_somewhere(&board.traces, a) {
                Some(q) => q,
                None => match find_somewhere(&board.traces, c) {
                    Some(q) => q,
                    None => origin,
                },
            };
            let head = sentence("diffpair '", p.name.as_str(), "': ", p.positive.as_str(), " runs ");
            let middle = sentence(head.as_str(), mm(pl, 3).as_str(), "mm and ", p.negative.as_str(), " runs ");
            let message = sentence(middle.as_str(), mm(nl, 3).as_str(), "mm", "", "");
            proof {
                reveal_strlit("");
            }
            Some(DrcViolation::diff_pair_skew(entity, message, Some(skew), Some(max), at))
        },
        _ => {
            let missing = match (pos, neg) {
                (None, None) => sentence(p.positive.as_str(), " or ", p.negative.as_str(), "", ""),
                (None, Some(_)) => p.positive.clone(),
                _ => p.negative.clone(),
            };
            proof {
                reveal_strlit("");
                assert(missing@ == missing_text(*p, board.nets@));
            }
            let message = sentence(
                "diffpair '",
                p.name.as_str(),
                "' names ",
                missing.as_str(),
                " which is not a net on this board",
            );
            Some(DrcViolation::diff_pair_skew(entity, message, None, None, origin))
        },
    }
}

impl DiffPairSkewRule {
    /// The rule's identifier in reports and filters.
    pub fn name(&self) -> (n: &'static str)
        ensures
            n@ == "diff-pair-skew"@,
    {
        "diff-pair-skew"
    }

    /// Where the design declares a board: each pair naming a net the design
    /// lacks, and each pair whose halves carry lengths further apart than
    /// the rule allows, reported against the board in the order the pairs
    /// are declared. A skew report is placed where the positive half's
    /// first trace starts, or else the negative half's.
    pub fn check(&self, board: &Board, rules: &DesignRules) -> (out: Vec<DrcViolation>)
        requires
            board_ok(*board),
            rules_ok(*rules),
        ensures
            found_by_diff_pair(*board, *rules, out@),
    {
        let entity = match board.board_entity {
            Some(e) => e,
            None => return Vec::new(),
        };
        let max = rules.max_diff_pair_skew;
        let mut out: Vec<DrcViolation> = Vec::new();
        let mut i: usize = 0;
        while i < board.diff_pairs.len()
            invariant
                board_ok(*board),
                board.board_entity == Some(entity),
                max == rules.max_diff_pair_skew,
                i <= board.diff_pairs@.len(),
                out@.len() == pair_reports_upto(*board, max, i as int).len(),
                forall|k: int|
                    0 <= k < out@.len() ==> describes(
                        #[trigger] out@[k],
                        ViolationKind::DiffPairSkew,
                        entity,
                        None,
                        pair_reports_upto(*board, max, i as int)[k].0,
                        pair_reports_upto(*board, max, i as int)[k].1,
                        pair_reports_upto(*board, max, i as int)[k].2,
                        pair_reports_upto(*board, max, i as int)[k].3,
                    ),
            decreases board.diff_pairs@.len() - i,
        {
            match report_pair(board, max, entity, &board.diff_pairs[i]) {
                Some(v) => {
                    out.push(v);
                },
                None => {},
            }
            i = i + 1;
        }
        out
    }
}

} // verus!
