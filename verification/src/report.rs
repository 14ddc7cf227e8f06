//! The report the checker hands back: every rule's violations in one
//! canonical order, each message naming the things it is about.
use vstd::prelude::*;

use crate::violation::{sentence, DrcViolation};

verus! {

broadcast use vstd::seq_lib::group_to_multiset_ensures;

/// Where a violation sorts in the report, as a tuple compared field by field:
/// its kind, then where it is, then the entities it names, a violation with
/// no second entity after every one that has one.
pub open spec fn sort_key(v: DrcViolation) -> (int, int, int, int, int) {
    (
        v.kind.rank(),
        v.location.x as int,
        v.location.y as int,
        v.entity as int,
        match v.other_entity {
            Some(e) => e as int,
            None => u32::MAX as int,
        },
    )
}

/// One key sorts strictly before another, field by field.
pub open spec fn key_before(a: (int, int, int, int, int), b: (int, int, int, int, int)) -> bool {
    ||| a.0 < b.0
    ||| a.0 == b.0 && a.1 < b.1
    ||| a.0 == b.0 && a.1 == b.1 && a.2 < b.2
    ||| a.0 == b.0 && a.1 == b.1 && a.2 == b.2 && a.3 < b.3
    ||| a.0 == b.0 && a.1 == b.1 && a.2 == b.2 && a.3 == b.3 && a.4 < b.4
}

/// Violation `a` sorts strictly before `b`.
pub open spec fn sorts_before(a: DrcViolation, b: DrcViolation) -> bool {
    key_before(sort_key(a), sort_key(b))
}

/// Where `v` goes among violations already in order, keeping equal keys in
/// the order they came: ahead of the first that does not sort before it.
pub open spec fn place_of(s: Seq<DrcViolation>, v: DrcViolation) -> int
    decreases s.len(),
{
    if s.len() == 0 {
        0
    } else if sorts_before(s[0], v) {
        1 + place_of(s.drop_first(), v)
    } else {
        0
    }
}

/// The violations in canonical report order; equal keys keep the order they
/// came in.
pub open spec fn canonical(s: Seq<DrcViolation>) -> Seq<DrcViolation>
    decreases s.len(),
{
    if s.len() == 0 {
        s
    } else {
        let r = canonical(s.drop_first());
        r.insert(place_of(r, s[0]), s[0])
    }
}

/// No violation sorts before one that comes ahead of it.
pub open spec fn in_report_order(s: Seq<DrcViolation>) -> bool {
    forall|i: int, j: int| 0 <= i <= j < s.len() ==> !sorts_before(s[j], s[i])
}

/// A place is a place among the violations.
pub proof fn lemma_place_range(s: Seq<DrcViolation>, v: DrcViolation)
    ensures
        0 <= place_of(s, v) <= s.len(),
    decreases s.len(),
{
    if s.len() > 0 && sorts_before(s[0], v) {
        lemma_place_range(s.drop_first(), v);
    }
}

/// Among violations in report order, a place parts those that sort before
/// `v` from those that do not.
pub proof fn lemma_place_splits(s: Seq<DrcViolation>, v: DrcViolation)
    requires
        in_report_order(s),
    ensures
        forall|t: int| 0 <= t < place_of(s, v) ==> sorts_before(s[t], v),
        forall|t: int| place_of(s, v) <= t < s.len() ==> !sorts_before(s[t], v),
    decreases s.len(),
{
    lemma_place_range(s, v);
    if s.len() > 0 {
        let tail = s.drop_first();
        assert(in_report_order(tail)) by {
            assert forall|i: int, j: int| 0 <= i <= j < tail.len() implies !sorts_before(
                tail[j],
                tail[i],
            ) by {
                assert(tail[i] == s[i + 1] && tail[j] == s[j + 1]);
            }
        }
        if sorts_before(s[0], v) {
            lemma_place_splits(tail, v);
            lemma_place_range(tail, v);
            assert forall|t: int| 0 <= t < place_of(s, v) implies sorts_before(s[t], v) by {
                if t > 0 {
                    assert(s[t] == tail[t - 1]);
                }
            }
            assert forall|t: int| place_of(s, v) <= t < s.len() implies !sorts_before(s[t], v) by {
                assert(s[t] == tail[t - 1]);
            }
        } else {
            assert forall|t: int| 0 <= t < s.len() implies !sorts_before(s[t], v) by {
                assert(!sorts_before(s[t], s[0]));
            }
        }
    }
}

/// Putting violations in report order keeps every one and adds none.
pub proof fn lemma_canonical_len(s: Seq<DrcViolation>)
    ensures
        canonical(s).len() == s.len(),
    decreases s.len(),
{
    if s.len() > 0 {
        lemma_canonical_len(s.drop_first());
        lemma_place_range(canonical(s.drop_first()), s[0]);
    }
}

/// The report is in order: no violation sorts before one ahead of it.
pub proof fn lemma_canonical_ordered(s: Seq<DrcViolation>)
    ensures
        in_report_order(canonical(s)),
    decreases s.len(),
{
    if s.len() > 0 {
        let r = canonical(s.drop_first());
        let v = s[0];
        lemma_canonical_ordered(s.drop_first());
        lemma_place_splits(r, v);
        lemma_place_range(r, v);
        let k = place_of(r, v);
        let out = r.insert(k, v);
        r.insert_ensures(k, v);
        assert(out == canonical(s));
        assert forall|i: int, j: int| 0 <= i <= j < out.len() implies !sorts_before(
            out[j],
            out[i],
        ) by {
            if i < k {
                if j > k {
                    assert(out[j] == r[j - 1]);
                }
            } else if i > k {
                assert(out[i] == r[i - 1]);
                assert(out[j] == r[j - 1]);
            } else if j > k {
                assert(out[j] == r[j - 1]);
            }
        }
    }
}

/// The report holds each violation exactly as often as the rules found it.
pub proof fn lemma_canonical_permutes(s: Seq<DrcViolation>)
    ensures
        canonical(s).to_multiset() == s.to_multiset(),
    decreases s.len(),
{
    broadcast use vstd::seq_lib::to_multiset_insert;

    if s.len() > 0 {
        let r = canonical(s.drop_first());
        lemma_canonical_permutes(s.drop_first());
        lemma_canonical_len(s.drop_first());
        lemma_place_range(r, s[0]);
        assert(s.drop_first().insert(0, s[0]) =~= s);
        assert(s.drop_first().insert(0, s[0]).to_multiset() == s.drop_first().to_multiset().insert(
            s[0],
        ));
    }
}

/// Whether violation `a` sorts strictly before `b`.
pub fn sorts_ahead(a: &DrcViolation, b: &DrcViolation) -> (r: bool)
    ensures
        r == sorts_before(*a, *b),
{
    let ka = a.kind.code();
    let kb = b.kind.code();
    let oa: u32 = match a.other_entity {
        Some(e) => e,
        None => u32::MAX,
    };
    let ob: u32 = match b.other_entity {
        Some(e) => e,
        None => u32::MAX,
    };
    if ka != kb {
        return ka < kb;
    }
    if a.location.x != b.location.x {
        return a.location.x < b.location.x;
    }
    if a.location.y != b.location.y {
        return a.location.y < b.location.y;
    }
    if a.entity != b.entity {
        return a.entity < b.entity;
    }
    oa < ob
}

/// The violations in canonical report order: by kind, then where they are,
/// then the entities they name, a violation with no second entity after
/// every one with the same first; equal keys keep the order they came in.
pub fn canonical_order(violations: Vec<DrcViolation>) -> (out: Vec<DrcViolation>)
    ensures
        out@ == canonical(violations@),
{
    let ghost all = violations@;
    let mut rest = violations;
    let mut out: Vec<DrcViolation> = Vec::new();
    while rest.len() > 0
        invariant
            rest@ == all.take(rest@.len() as int),
            rest@.len() <= all.len(),
            out@ == canonical(all.skip(rest@.len() as int)),
        decreases rest@.len(),
    {
        let ghost n = rest@.len() as int;
        let v = rest.pop().unwrap();
        proof {
            assert(v == all[n - 1]);
            assert(all.skip(n - 1).drop_first() =~= all.skip(n));
            assert(all.skip(n - 1)[0] == v);
            assert(rest@ =~= all.take(n - 1));
        }
        let mut k: usize = 0;
        proof {
            assert(out@.skip(0) =~= out@);
        }
        while k < out.len() && sorts_ahead(&out[k], &v)
            invariant
                k <= out@.len(),
                k + place_of(out@.skip(k as int), v) == place_of(out@, v),
            decreases out@.len() - k,
        {
            proof {
                assert(out@.skip(k as int).drop_first() =~= out@.skip(k + 1));
                assert(out@.skip(k as int)[0] == out@[k as int]);
            }
            k = k + 1;
        }
        proof {
            if k < out@.len() {
                assert(out@.skip(k as int)[0] == out@[k as int]);
            }
        }
        out.insert(k, v);
    }
    proof {
        assert(all.skip(0) =~= all);
    }
    out
}

/// What one entity is called in a report, where the board names it.
#[derive(Debug, Clone)]
pub struct EntityName {
    /// The entity.
    pub entity: u32,
    /// Its name.
    pub name: String,
}

/// What a pad entity belongs to.
#[derive(Debug, Clone, Copy, PartialEq, Eq, Structural)]
pub struct PadParent {
    /// The pad entity.
    pub pad: u32,
    /// The part it belongs to.
    pub parent: u32,
}

/// A trace or a via, with the name of its net where the net has one.
#[derive(Debug, Clone)]
pub struct NetMember {
    /// The trace or via.
    pub entity: u32,
    /// Its net's name.
    pub net: Option<String>,
}

/// What the board calls its entities: parts by reference designator, pads
/// by the part they are on, traces and vias by their net.
#[derive(Debug, Clone)]
pub struct EntityNames {
    /// Every part's reference designator.
    pub refdes: Vec<EntityName>,
    /// Every pad instance and its part.
    pub pads: Vec<PadParent>,
    /// Every trace.
    pub traces: Vec<NetMember>,
    /// Every via.
    pub vias: Vec<NetMember>,
}

/// The name `names` gives `entity`, the last one listed where there are
/// several.
pub open spec fn name_in(names: Seq<EntityName>, entity: u32) -> Option<Seq<char>>
    decreases names.len(),
{
    if names.len() == 0 {
        None
    } else if names.last().entity == entity {
        Some(names.last().name@)
    } else {
        name_in(names.drop_last(), entity)
    }
}

/// The part a pad is on, the last one listed where there are several.
pub open spec fn parent_in(pads: Seq<PadParent>, pad: u32) -> Option<u32>
    decreases pads.len(),
{
    if pads.len() == 0 {
        None
    } else if pads.last().pad == pad {
        Some(pads.last().parent)
    } else {
        parent_in(pads.drop_last(), pad)
    }
}

/// The net of a trace or via, as the report writes it: its name, or `?`
/// where it has none; `None` where `entity` is not listed.
pub open spec fn net_in(members: Seq<NetMember>, entity: u32) -> Option<Seq<char>>
    decreases members.len(),
{
    if members.len() == 0 {
        None
    } else if members.last().entity == entity {
        Some(
            match members.last().net {
                Some(n) => n@,
                None => "?"@,
            },
        )
    } else {
        net_in(members.drop_last(), entity)
    }
}

/// What the report calls `entity`: its reference designator; a pad as the
/// pad on its part; a trace or via by its net; nothing where the board does
/// not name it. A pad whose part has no reference designator is not named
/// as a pad.
pub open spec fn label(names: EntityNames, entity: u32) -> Seq<char> {
    if name_in(names.refdes@, entity) is Some {
        name_in(names.refdes@, entity).unwrap()
    } else if parent_in(names.pads@, entity) is Some && name_in(
        names.refdes@,
        parent_in(names.pads@, entity).unwrap(),
    ) is Some {
        "pad on "@ + name_in(names.refdes@, parent_in(names.pads@, entity).unwrap()).unwrap()
    } else if net_in(names.traces@, entity) is Some {
        "trace '"@ + net_in(names.traces@, entity).unwrap() + "'"@
    } else if net_in(names.vias@, entity) is Some {
        "via '"@ + net_in(names.vias@, entity).unwrap() + "'"@
    } else {
        Seq::empty()
    }
}

/// `needle` occurs somewhere in `hay`.
pub open spec fn occurs_in(hay: Seq<char>, needle: Seq<char>) -> bool {
    exists|i: int| 0 <= i <= hay.len() - needle.len() && #[trigger] hay.subrange(i, i + needle.len()) == needle
}

/// The message a violation carries once the report names what it is about:
/// `primary ↔ secondary: ` or `primary: ` in front, unless the board names
/// nothing for the first entity or the message already holds its name.
pub open spec fn named_message(v: DrcViolation, names: EntityNames) -> Seq<char> {
    let primary = label(names, v.entity);
    let between = if primary.len() == 0 {
        Seq::empty()
    } else if v.other_entity is Some && label(names, v.other_entity.unwrap()).len() > 0 {
        primary + " ↔ "@ + label(names, v.other_entity.unwrap()) + ": "@
    } else {
        primary + ": "@
    };
    if between.len() > 0 && !occurs_in(v.message@, primary) {
        between + v.message@
    } else {
        v.message@
    }
}

/// Whether `needle` occurs in `hay`.
pub fn holds_text(hay: &str, needle: &str) -> (b: bool)
    ensures
        b == occurs_in(hay@, needle@),
{
    let h = hay.unicode_len();
    let n = needle.unicode_len();
    if n > h {
        proof {
            assert forall|i: int| 0 <= i <= hay@.len() - needle@.len() implies #[trigger] hay@.subrange(
                i,
                i + needle@.len(),
            ) != needle@ by {}
        }
        return false;
    }
    let mut i: usize = 0;
    while i <= h - n
        invariant
            h == hay@.len(),
            n == needle@.len(),
            n <= h,
            i <= h - n + 1,
            forall|s: int| 0 <= s < i ==> #[trigger] hay@.subrange(s, s + n) != needle@,
        decreases h - n + 1 - i,
    {
        let mut j: usize = 0;
        let mut same = true;
        while j < n
            invariant
                h == hay@.len(),
                n == needle@.len(),
                i + n <= h,
                j <= n,
                same == (forall|t: int| 0 <= t < j ==> hay@[i + t] == needle@[t]),
            decreases n - j,
        {
            if hay.get_char(i + j) != needle.get_char(j) {
                same = false;
            }
            j = j + 1;
        }
        if same {
            proof {
                assert(hay@.subrange(i as int, i + n) =~= needle@);
            }
            return true;
        }
        proof {
            let t = choose|t: int| 0 <= t < n && hay@[i + t] != needle@[t];
            assert(hay@.subrange(i as int, i + n)[t] != needle@[t]);
        }
        i = i + 1;
    }
    false
}

/// The name `names` gives `entity`, the last one listed where there are
/// several.
fn find_name(names: &Vec<EntityName>, entity: u32) -> (r: Option<&String>)
    ensures
        match r {
            Some(s) => name_in(names@, entity) == Some(s@),
            None => name_in(names@, entity) is None,
        },
{
    let mut k = names.len();
    proof {
        assert(names@.take(k as int) =~= names@);
    }
    while k > 0
        invariant
            k <= names@.len(),
            name_in(names@, entity) == name_in(names@.take(k as int), entity),
        decreases k,
    {
        proof {
            assert(names@.take(k as int).drop_last() =~= names@.take(k - 1));
            assert(names@.take(k as int).last() == names@[k - 1]);
        }
        if names[k - 1].entity == entity {
            return Some(&names[k - 1].name);
        }
        k = k - 1;
    }
    None
}

/// The part a pad is on, the last one listed where there are several.
fn find_parent(pads: &Vec<PadParent>, pad: u32) -> (r: Option<u32>)
    ensures
        r == parent_in(pads@, pad),
{
    let mut k = pads.len();
    proof {
        assert(pads@.take(k as int) =~= pads@);
    }
    while k > 0
        invariant
            k <= pads@.len(),
            parent_in(pads@, pad) == parent_in(pads@.take(k as int), pad),
        decreases k,
    {
        proof {
            assert(pads@.take(k as int).drop_last() =~= pads@.take(k - 1));
            assert(pads@.take(k as int).last() == pads@[k - 1]);
        }
        if pads[k - 1].pad == pad {
            return Some(pads[k - 1].parent);
        }
        k = k - 1;
    }
    None
}

/// The net of a trace or via as the report writes it.
fn find_net(members: &Vec<NetMember>, entity: u32) -> (r: Option<String>)
    ensures
        match r {
            Some(s) => net_in(members@, entity) == Some(s@),
            None => net_in(members@, entity) is None,
        },
{
    let mut k = members.len();
    proof {
        assert(members@.take(k as int) =~= members@);
    }
    while k > 0
        invariant
            k <= members@.len(),
            net_in(members@, entity) == net_in(members@.take(k as int), entity),
        decreases k,
    {
        proof {
            assert(members@.take(k as int).drop_last() =~= members@.take(k - 1));
            assert(members@.take(k as int).last() == members@[k - 1]);
        }
        if members[k - 1].entity == entity {
            return match &members[k - 1].net {
                Some(n) => Some(n.clone()),
                None => Some(String::from_str("?")),
            };
        }
        k = k - 1;
    }
    None
}

/// What the report calls `entity`.
pub fn label_of(names: &EntityNames, entity: u32) -> (s: String)
    ensures
        s@ == label(*names, entity),
{
    if let Some(r) = find_name(&names.refdes, entity) {
        return r.clone();
    }
    if let Some(parent) = find_parent(&names.pads, entity) {
        if let Some(r) = find_name(&names.refdes, parent) {
            proof {
                reveal_strlit("");
            }
            return sentence("pad on ", r.as_str(), "", "", "");
        }
    }
    if let Some(net) = find_net(&names.traces, entity) {
        proof {
            reveal_strlit("");
        }
        return sentence("trace '", net.as_str(), "'", "", "");
    }
    if let Some(net) = find_net(&names.vias, entity) {
        proof {
            reveal_strlit("");
        }
        return sentence("via '", net.as_str(), "'", "", "");
    }
    String::new()
}

/// Every violation's message prefixed with what the board calls the
/// entities it is about, `primary ↔ secondary: ` or `primary: `; left as it
/// is where the board names nothing for the first entity or the message
/// already holds its name. Nothing else about a violation changes.
pub fn enrich_violation_messages(violations: &mut Vec<DrcViolation>, names: &EntityNames)
    ensures
        final(violations)@.len() == old(violations)@.len(),
        forall|k: int|
            0 <= k < final(violations)@.len() ==> {
                let (was, now) = (old(violations)@[k], #[trigger] final(violations)@[k]);
                &&& now.kind == was.kind
                &&& now.location == was.location
                &&& now.entity == was.entity
                &&& now.other_entity == was.other_entity
                &&& now.source_span == was.source_span
                &&& now.actual == was.actual
                &&& now.required == was.required
                &&& now.area == was.area
                &&& now.message@ == named_message(was, *names)
            },
{
    let ghost before = violations@;
    let mut k: usize = 0;
    while k < violations.len()
        invariant
            k <= violations@.len(),
            violations@.len() == before.len(),
            forall|t: int| k <= t < before.len() ==> #[trigger] violations@[t] == before[t],
            forall|t: int|
                0 <= t < k ==> {
                    let (was, now) = (before[t], #[trigger] violations@[t]);
                    &&& now.kind == was.kind
                    &&& now.location == was.location
                    &&& now.entity == was.entity
                    &&& now.other_entity == was.other_entity
                    &&& now.source_span == was.source_span
                    &&& now.actual == was.actual
                    &&& now.required == was.required
                    &&& now.area == was.area
                    &&& now.message@ == named_message(was, *names)
                },
        decreases before.len() - k,
    {
        let v = &violations[k];
        let primary = label_of(names, v.entity);
        let between: String = if primary.unicode_len() == 0 {
            String::new()
        } else {
            match v.other_entity {
                Some(other) => {
                    let secondary = label_of(names, other);
                    if secondary.unicode_len() > 0 {
                        sentence(primary.as_str(), " ↔ ", secondary.as_str(), ": ", "")
                    } else {
                        sentence(primary.as_str(), ": ", "", "", "")
                    }
                },
                None => sentence(primary.as_str(), ": ", "", "", ""),
            }
        };
        let message = if between.unicode_len() > 0 && !holds_text(v.message.as_str(), primary.as_str()) {
            sentence(between.as_str(), v.message.as_str(), "", "", "")
        } else {
            v.message.clone()
        };
        proof {
            reveal_strlit("");
            assert(message@ == named_message(before[k as int], *names));
        }
        let updated = DrcViolation {
            kind: v.kind,
            location: v.location,
            entity: v.entity,
            other_entity: v.other_entity,
            source_span: v.source_span,
            message,
            actual: v.actual,
            required: v.required,
            area: v.area,
        };
        violations.set(k, updated);
        k = k + 1;
    }
}

/// A report already in canonical order comes out of the sort as it went
/// in.
pub proof fn lemma_canonical_keeps_ordered(s: Seq<DrcViolation>)
    requires
        in_report_order(s),
    ensures
        canonical(s) == s,
    decreases s.len(),
{
    if s.len() > 0 {
        let tail = s.drop_first();
        assert(in_report_order(tail)) by {
            assert forall|i: int, j: int| 0 <= i <= j < tail.len() implies !sorts_before(
                tail[j],
                tail[i],
            ) by {
                assert(tail[i] == s[i + 1] && tail[j] == s[j + 1]);
            }
        }
        lemma_canonical_keeps_ordered(tail);
        assert(place_of(tail, s[0]) == 0) by {
            if tail.len() > 0 {
                assert(tail[0] == s[1]);
                assert(!sorts_before(s[1], s[0]));
            }
        }
        assert(tail.insert(0, s[0]) =~= s);
    }
}

/// **Putting a report in canonical order twice is putting it in order
/// once.**
pub proof fn lemma_canonical_idempotent(s: Seq<DrcViolation>)
    ensures
        canonical(canonical(s)) == canonical(s),
{
    lemma_canonical_ordered(s);
    lemma_canonical_keeps_ordered(canonical(s));
}

/// **Naming what a message is about twice names it once**: a message that
/// already leads with the first entity's name is left as it is.
pub proof fn lemma_naming_is_idempotent(v: DrcViolation, names: EntityNames, w: DrcViolation)
    requires
        w.entity == v.entity,
        w.other_entity == v.other_entity,
        w.message@ == named_message(v, names),
    ensures
        named_message(w, names) == named_message(v, names),
{
    let primary = label(names, v.entity);
    let once = named_message(v, names);
    if primary.len() > 0 && !occurs_in(v.message@, primary) {
        let between = if v.other_entity is Some && label(names, v.other_entity.unwrap()).len() > 0 {
            primary + " ↔ "@ + label(names, v.other_entity.unwrap()) + ": "@
        } else {
            primary + ": "@
        };
        assert(once == between + v.message@);
        let i: int = 0;
        assert(once.subrange(i, i + primary.len()) =~= primary);
        assert(0 <= i <= once.len() - primary.len());
        assert(occurs_in(once, primary));
    }
}

/// The finished report: what the rules found, in canonical order, each
/// message naming what it is about, with how long the check took.
pub fn finish_report(found: Vec<DrcViolation>, names: &EntityNames, duration_ms: u64) -> (r: crate::DrcResult)
    ensures
        r.duration_ms == duration_ms,
        r.violations@.len() == found@.len(),
        forall|k: int|
            0 <= k < r.violations@.len() ==> {
                let (was, now) = (canonical(found@)[k], #[trigger] r.violations@[k]);
                &&& now.kind == was.kind
                &&& now.location == was.location
                &&& now.entity == was.entity
                &&& now.other_entity == was.other_entity
                &&& now.source_span == was.source_span
                &&& now.actual == was.actual
                &&& now.required == was.required
                &&& now.area == was.area
                &&& now.message@ == named_message(was, *names)
            },
{
    let mut violations = canonical_order(found);
    proof {
        lemma_canonical_len(found@);
    }
    enrich_violation_messages(&mut violations, names);
    crate::DrcResult { violations, duration_ms }
}

} // verus!
