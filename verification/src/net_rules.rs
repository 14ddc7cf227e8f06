//! Turning a design's own net constraints into the rules a router obeys.
//!
//! A net can state its own trace width and clearance. The fab's numbers are
//! a floor, not a target: a stated width or clearance can only raise what
//! the router uses on that net, never lower it. Nets that state neither route
//! on the fab's numbers. A stated current is not read: the width it needs
//! depends on the layer the router picks.
use vstd::prelude::*;

use crate::board::{Board, NetName, NetRule};
use crate::presets::DesignConstraints;
use crate::rules::clearance::{net_clearance, stated_clearance};
use crate::rules::trace_width::{net_width, stated_width};

verus! {

/// The fab's numbers, and those of each net that states its own.
#[derive(Debug, Clone)]
pub struct NetRuleSet {
    /// What every net the design says nothing about routes on.
    pub base: DesignConstraints,
    /// Each net that states a width or a clearance, with what it routes on.
    pub overrides: Vec<(u32, DesignConstraints)>,
}

/// The larger of the floor and what was asked.
pub open spec fn wider_of(floor: i64, asked: i64) -> i64 {
    if asked > floor {
        asked
    } else {
        floor
    }
}

/// The larger of the floor and what was asked.
fn wider(floor: i64, asked: i64) -> (r: i64)
    ensures
        r == wider_of(floor, asked),
{
    if asked > floor {
        asked
    } else {
        floor
    }
}

/// The fab's numbers with the width and clearance a net states raised to,
/// where it states them and asks for more.
pub open spec fn raised(base: DesignConstraints, width: Option<i64>, clearance: Option<i64>) -> DesignConstraints {
    DesignConstraints {
        min_trace_width: match width {
            Some(w) => wider_of(base.min_trace_width, w),
            None => base.min_trace_width,
        },
        min_clearance: match clearance {
            Some(c) => wider_of(base.min_clearance, c),
            None => base.min_clearance,
        },
        ..base
    }
}

/// The overrides for the first `n` nets, in the order the design lists them:
/// each net that states a width or a clearance, with the fab's numbers
/// raised to them.
pub open spec fn overrides_upto(base: DesignConstraints, nets: Seq<NetName>, rules: Seq<NetRule>, n: int) -> Seq<
    (u32, DesignConstraints),
>
    decreases n,
{
    if n <= 0 {
        Seq::empty()
    } else {
        let rest = overrides_upto(base, nets, rules, n - 1);
        let id = nets[n - 1].id;
        let (w, c) = (stated_width(rules, id), stated_clearance(rules, id));
        if w is None && c is None {
            rest
        } else {
            rest.push((id, raised(base, w, c)))
        }
    }
}

/// What a net routes on: its own override, the first listed for it, or else
/// the fab's numbers.
pub open spec fn constraints_of(base: DesignConstraints, overrides: Seq<(u32, DesignConstraints)>, net: u32) -> DesignConstraints
    decreases overrides.len(),
{
    if overrides.len() == 0 {
        base
    } else if overrides[0].0 == net {
        overrides[0].1
    } else {
        constraints_of(base, overrides.drop_first(), net)
    }
}

/// Builds the rules a router routes the board on: the fab's numbers, and for
/// each net that states a width or a clearance, the fab's numbers with those
/// raised to what the net asks for.
pub fn ruleset_for_world(base: &DesignConstraints, board: &Board) -> (set: NetRuleSet)
    ensures
        set.base == *base,
        set.overrides@ == overrides_upto(*base, board.nets@, board.net_rules@, board.nets@.len() as int),
{
    let mut overrides: Vec<(u32, DesignConstraints)> = Vec::new();
    let mut i: usize = 0;
    while i < board.nets.len()
        invariant
            i <= board.nets@.len(),
            overrides@ == overrides_upto(*base, board.nets@, board.net_rules@, i as int),
        decreases board.nets@.len() - i,
    {
        let id = board.nets[i].id;
        let w = net_width(&board.net_rules, id);
        let c = net_clearance(&board.net_rules, id);
        if w.is_some() || c.is_some() {
            let mut wanted = *base;
            match w {
                Some(x) => {
                    wanted.min_trace_width = wider(base.min_trace_width, x);
                },
                None => {},
            }
            match c {
                Some(x) => {
                    wanted.min_clearance = wider(base.min_clearance, x);
                },
                None => {},
            }
            overrides.push((id, wanted));
        }
        i = i + 1;
    }
    NetRuleSet { base: *base, overrides }
}

impl NetRuleSet {
    /// What a net routes on: its own override, or else the fab's numbers.
    pub fn constraints_for_net(&self, net: u32) -> (c: DesignConstraints)
        ensures
            c == constraints_of(self.base, self.overrides@, net),
    {
        let mut k: usize = 0;
        proof {
            assert(self.overrides@.skip(0) =~= self.overrides@);
        }
        while k < self.overrides.len()
            invariant
                k <= self.overrides@.len(),
                constraints_of(self.base, self.overrides@, net) == constraints_of(
                    self.base,
                    self.overrides@.skip(k as int),
                    net,
                ),
            decreases self.overrides@.len() - k,
        {
            proof {
                assert(self.overrides@.skip(k as int).drop_first() =~= self.overrides@.skip(k + 1));
                assert(self.overrides@.skip(k as int)[0] == self.overrides@[k as int]);
            }
            if self.overrides[k].0 == net {
                return self.overrides[k].1;
            }
            k = k + 1;
        }
        self.base
    }
}


/// Whether a net is among the first `n` nets of the design.
pub open spec fn among(nets: Seq<NetName>, n: int, net: u32) -> bool {
    exists|k: int| 0 <= k < n && #[trigger] nets[k].id == net
}

/// Whether an override is listed for a net.
pub open spec fn listed(overrides: Seq<(u32, DesignConstraints)>, net: u32) -> bool {
    exists|k: int| 0 <= k < overrides.len() && #[trigger] overrides[k].0 == net
}

proof fn lemma_constraints_push(
    base: DesignConstraints,
    s: Seq<(u32, DesignConstraints)>,
    e: (u32, DesignConstraints),
    net: u32,
)
    ensures
        constraints_of(base, s.push(e), net) == (if listed(s, net) {
            constraints_of(base, s, net)
        } else if e.0 == net {
            e.1
        } else {
            base
        }),
    decreases s.len(),
{
    if s.len() > 0 {
        assert(s.push(e)[0] == s[0]);
        assert(s.push(e).drop_first() =~= s.drop_first().push(e));
        lemma_constraints_push(base, s.drop_first(), e, net);
        if s[0].0 != net {
            if listed(s.drop_first(), net) {
                let k = choose|k: int| 0 <= k < s.drop_first().len() && #[trigger] s.drop_first()[k].0 == net;
                assert(s[k + 1].0 == net);
            }
            if listed(s, net) {
                let k = choose|k: int| 0 <= k < s.len() && #[trigger] s[k].0 == net;
                assert(s.drop_first()[k - 1].0 == net);
            }
        } else {
            assert(listed(s, net)) by {
                assert(s[0].0 == net);
            }
        }
    } else {
        assert(s.push(e)[0] == e);
        assert(s.push(e).drop_first() =~= Seq::<(u32, DesignConstraints)>::empty());
        assert(constraints_of(base, Seq::<(u32, DesignConstraints)>::empty(), net) == base);
        assert(!listed(s, net));
    }
}

proof fn lemma_overrides_upto(base: DesignConstraints, nets: Seq<NetName>, rules: Seq<NetRule>, n: int, net: u32)
    requires
        0 <= n <= nets.len(),
    ensures
        listed(overrides_upto(base, nets, rules, n), net) == (among(nets, n, net) && !(stated_width(
            rules,
            net,
        ) is None && stated_clearance(rules, net) is None)),
        constraints_of(base, overrides_upto(base, nets, rules, n), net) == (if among(nets, n, net) {
            raised(base, stated_width(rules, net), stated_clearance(rules, net))
        } else {
            base
        }),
    decreases n,
{
    let states = !(stated_width(rules, net) is None && stated_clearance(rules, net) is None);
    assert(raised(base, None, None) == base);
    if n > 0 {
        lemma_overrides_upto(base, nets, rules, n - 1, net);
        let rest = overrides_upto(base, nets, rules, n - 1);
        let id = nets[n - 1].id;
        let (w, c) = (stated_width(rules, id), stated_clearance(rules, id));
        assert(among(nets, n, net) == (among(nets, n - 1, net) || id == net)) by {
            if among(nets, n, net) && id != net {
                let k = choose|k: int| 0 <= k < n && #[trigger] nets[k].id == net;
                assert(0 <= k < n - 1 && nets[k].id == net);
            }
            if among(nets, n - 1, net) {
                let k = choose|k: int| 0 <= k < n - 1 && #[trigger] nets[k].id == net;
                assert(0 <= k < n && nets[k].id == net);
            }
            if id == net {
                assert(nets[n - 1].id == net);
            }
        }
        if !(w is None && c is None) {
            let e = (id, raised(base, w, c));
            lemma_constraints_push(base, rest, e, net);
            assert(listed(rest.push(e), net) == (listed(rest, net) || id == net)) by {
                if listed(rest.push(e), net) && id != net {
                    let k = choose|k: int| 0 <= k < rest.push(e).len() && #[trigger] rest.push(e)[k].0 == net;
                    assert(rest[k].0 == net);
                }
                if listed(rest, net) {
                    let k = choose|k: int| 0 <= k < rest.len() && #[trigger] rest[k].0 == net;
                    assert(rest.push(e)[k].0 == net);
                }
                if id == net {
                    assert(rest.push(e)[rest.len() as int].0 == net);
                }
            }
        }
    } else {
        assert(!among(nets, 0, net));
        assert(!listed(Seq::<(u32, DesignConstraints)>::empty(), net));
    }
}

/// A net routes on the fab's numbers with its own stated width and
/// clearance raised to, where it asks for more: a net's statement can only
/// raise what the router uses on it, never lower it, and a net the design
/// lists but that states neither, or one the design does not list, routes
/// on the fab's numbers.
pub proof fn lemma_stated_rules_only_raise(base: DesignConstraints, board: Board, net: u32)
    ensures
        ({
            let set = overrides_upto(base, board.nets@, board.net_rules@, board.nets@.len() as int);
            let got = constraints_of(base, set, net);
            &&& among(board.nets@, board.nets@.len() as int, net) ==> got == raised(
                base,
                stated_width(board.net_rules@, net),
                stated_clearance(board.net_rules@, net),
            )
            &&& !among(board.nets@, board.nets@.len() as int, net) ==> got == base
            &&& got.min_trace_width >= base.min_trace_width
            &&& got.min_clearance >= base.min_clearance
            &&& stated_width(board.net_rules@, net) is None && stated_clearance(board.net_rules@, net) is None
                ==> got == base
        }),
{
    lemma_overrides_upto(base, board.nets@, board.net_rules@, board.nets@.len() as int, net);
    assert(raised(base, None, None) == base);
}

} // verus!
