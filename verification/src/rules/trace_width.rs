//! Traces narrower than their rule.
use vstd::prelude::*;

use crate::board::{board_ok, trace_ok, Board, NetRule, Trace};
use crate::geometry::{mid, midpoint, point_ok, Point};
use crate::presets::{rules_ok, DesignRules};
use crate::violation::{describes, two_lengths, DrcViolation, ViolationKind};

verus! {

/// Rule for traces narrower than their rule.
///
/// The fab's floor applies to every trace; a net that states its own width
/// raises the floor for its traces, never lowers it.
pub struct MinTraceWidthRule;

/// The width a net's own block states: that of the first block for the net
/// that states one.
pub open spec fn stated_width(rules: Seq<NetRule>, net: u32) -> Option<i64>
    decreases rules.len(),
{
    if rules.len() == 0 {
        None
    } else if rules[0].net == net && rules[0].width is Some {
        rules[0].width
    } else {
        stated_width(rules.drop_first(), net)
    }
}

/// The width a trace on `net` must reach: the fab's floor, or the net's own
/// stated width where that is more.
pub open spec fn required_width(rules: Seq<NetRule>, net: u32, floor: i64) -> i64 {
    match stated_width(rules, net) {
        Some(w) => if w > floor {
            w
        } else {
            floor
        },
        None => floor,
    }
}

/// **A net's width is what its first block stating one says**: where block
/// `k` is the first for `net` that states a width, that is the net's width.
pub proof fn lemma_stated_width_is_first_block(rules: Seq<NetRule>, net: u32, k: int)
    requires
        0 <= k < rules.len(),
        rules[k].net == net,
        rules[k].width is Some,
        forall|j: int| 0 <= j < k ==> !((#[trigger] rules[j]).net == net && rules[j].width is Some),
    ensures
        stated_width(rules, net) == rules[k].width,
    decreases k,
{
    if k > 0 {
        let d = rules.drop_first();
        assert(!(rules[0].net == net && rules[0].width is Some));
        assert forall|j: int| 0 <= j < k - 1 implies !((#[trigger] d[j]).net == net && d[j].width is Some) by {
            assert(d[j] == rules[j + 1]);
        }
        assert(d[k - 1] == rules[k]);
        lemma_stated_width_is_first_block(d, net, k - 1);
    }
}

/// **A net no block states a width for has none of its own.**
pub proof fn lemma_unstated_width_is_none(rules: Seq<NetRule>, net: u32)
    requires
        forall|j: int| 0 <= j < rules.len() ==> !((#[trigger] rules[j]).net == net && rules[j].width is Some),
    ensures
        stated_width(rules, net) is None,
    decreases rules.len(),
{
    if rules.len() > 0 {
        let d = rules.drop_first();
        assert(!(rules[0].net == net && rules[0].width is Some));
        assert forall|j: int| 0 <= j < d.len() implies !((#[trigger] d[j]).net == net && d[j].width is Some) by {
            assert(d[j] == rules[j + 1]);
        }
        lemma_unstated_width_is_none(d, net);
    }
}

/// **A net's stated width raises the floor and never lowers it**: the width
/// a trace must reach is at least the fab's floor, at least what its net
/// states, and is one of the two - the floor where the net states nothing.
pub proof fn lemma_required_width_raises_floor(rules: Seq<NetRule>, net: u32, floor: i64)
    ensures
        required_width(rules, net, floor) >= floor,
        stated_width(rules, net) matches Some(w) ==> required_width(rules, net, floor) >= w,
        required_width(rules, net, floor) == floor || stated_width(rules, net) == Some(
            required_width(rules, net, floor),
        ),
        stated_width(rules, net) is None ==> required_width(rules, net, floor) == floor,
{
}

/// Where a trace violation is reported: halfway between where the trace
/// starts and where it ends, or the origin for a trace with no segments.
pub open spec fn trace_mid(t: Trace) -> Point {
    if t.segments@.len() == 0 {
        Point { x: 0, y: 0 }
    } else {
        mid(t.segments@[0].start, t.segments@.last().end)
    }
}

/// The traces narrower than they must be.
pub open spec fn too_narrow(rules: Seq<NetRule>, floor: i64) -> spec_fn(Trace) -> bool {
    |t: Trace| t.width < required_width(rules, t.net, floor)
}

/// The traces `keep` picks, in board order.
pub open spec fn picked_traces(ts: Seq<Trace>, keep: spec_fn(Trace) -> bool) -> Seq<Trace>
    decreases ts.len(),
{
    if ts.len() == 0 {
        Seq::empty()
    } else {
        let rest = picked_traces(ts.drop_last(), keep);
        if keep(ts.last()) {
            rest.push(ts.last())
        } else {
            rest
        }
    }
}

/// `r` reports trace `t` as narrower than `required`.
pub open spec fn reports_trace_width(r: DrcViolation, t: Trace, required: i64) -> bool {
    describes(
        r,
        ViolationKind::TraceWidth,
        t.entity,
        None,
        Some(t.width),
        Some(required),
        trace_mid(t),
        two_lengths("Trace width violation: "@, t.width, "mm actual, "@, required, "mm minimum"@, 3),
    )
}

/// Where a trace's report goes.
pub fn trace_midpoint(trace: &Trace) -> (p: Point)
    requires
        trace_ok(*trace),
    ensures
        p == trace_mid(*trace),
{
    let n = trace.segments.len();
    if n == 0 {
        return Point::origin();
    }
    proof {
        assert(trace.segments@[n - 1] == trace.segments@.last());
        assert(point_ok(trace.segments@[n - 1].end));
    }
    midpoint(trace.segments[0].start, trace.segments[n - 1].end)
}

/// The width the net's own block states, where it states one.
pub fn net_width(rules: &Vec<NetRule>, net: u32) -> (w: Option<i64>)
    ensures
        w == stated_width(rules@, net),
{
    let mut i: usize = 0;
    assert(rules@.skip(0) =~= rules@);
    while i < rules.len()
        invariant
            i <= rules@.len(),
            stated_width(rules@, net) == stated_width(rules@.skip(i as int), net),
        decreases rules@.len() - i,
    {
        let r = rules[i];
        assert(rules@.skip(i as int)[0] == r);
        assert(rules@.skip(i as int).drop_first() =~= rules@.skip(i + 1));
        if r.net == net && r.width.is_some() {
            return r.width;
        }
        i = i + 1;
    }
    assert(rules@.skip(i as int) =~= Seq::<NetRule>::empty());
    None
}

impl MinTraceWidthRule {
    /// The rule's identifier in reports and filters.
    pub fn name(&self) -> (n: &'static str)
        ensures
            n@ == "min-trace-width"@,
    {
        "min-trace-width"
    }

    /// Every trace narrower than its rule, in board order.
    pub fn check(&self, board: &Board, rules: &DesignRules) -> (out: Vec<DrcViolation>)
        requires
            board_ok(*board),
            rules_ok(*rules),
        ensures
            found_by_trace_width(*board, *rules, out@),
    {
        let floor = rules.min_trace_width;
        let ghost keep = too_narrow(board.net_rules@, floor);
        let ghost ts = board.traces@;
        let mut out: Vec<DrcViolation> = Vec::new();
        let mut i: usize = 0;
        while i < board.traces.len()
            invariant
                i <= ts.len(),
                ts == board.traces@,
                board_ok(*board),
                rules_ok(*rules),
                floor == rules.min_trace_width,
                keep == too_narrow(board.net_rules@, floor),
                out@.len() == picked_traces(ts.take(i as int), keep).len(),
                forall|k: int|
                    0 <= k < out@.len() ==> #[trigger] reports_trace_width(
                        out@[k],
                        picked_traces(ts.take(i as int), keep)[k],
                        required_width(board.net_rules@, picked_traces(ts.take(i as int), keep)[k].net, floor),
                    ),
            decreases ts.len() - i,
        {
            let t = &board.traces[i];
            proof {
                assert(ts.take(i + 1).drop_last() =~= ts.take(i as int));
                assert(ts.take(i + 1).last() == *t);
                assert(trace_ok(ts[i as int]));
            }
            let required = match net_width(&board.net_rules, t.net) {
                Some(stated) => if stated > floor {
                    stated
                } else {
                    floor
                },
                None => floor,
            };
            if t.width < required {
                let at = trace_midpoint(t);
                out.push(DrcViolation::trace_width(t.entity, t.width, required, at));
            }
            i = i + 1;
        }
        assert(ts.take(i as int) =~= ts);
        out
    }
}

/// What the rule finds on a board: the traces narrower than their net, or the
/// board, asks, each reported with the width asked, in the order the check
/// walks them.
pub open spec fn found_by_trace_width(board: Board, rules: DesignRules, out: Seq<DrcViolation>) -> bool {
    &&& out.len() == picked_traces(
        board.traces@,
        too_narrow(board.net_rules@, rules.min_trace_width),
    ).len()
    &&& forall|k: int|
        0 <= k < out.len() ==> #[trigger] reports_trace_width(
            out[k],
            picked_traces(board.traces@, too_narrow(board.net_rules@, rules.min_trace_width))[k],
            required_width(
                board.net_rules@,
                picked_traces(
                    board.traces@,
                    too_narrow(board.net_rules@, rules.min_trace_width),
                )[k].net,
                rules.min_trace_width,
            ),
        )
}

} // verus!
