//! Counting clearance contacts into places.
//!
//! The clearance rule measures every pair of copper that comes too close and
//! finds one contact per measurement: the point, the gap, and the stretch of
//! copper that is too close. Contacts between the same two sides are one
//! place when their stretches come no further apart than the trace copper
//! that makes them is wide, taken transitively. A place is reported once, at
//! its worst contact.
use vstd::prelude::*;

use crate::geometry::{floor_seg, lemma_floor_seg_unique, pt_ok, Point};
use crate::rules::clearance::{segment_distance, Side};
use crate::violation::{describes, printable, two_lengths, DrcViolation, ViolationKind};

verus! {

/// A piece of a centreline, from one end to the other.
pub type Stretch = ([i64; 2], [i64; 2]);

/// A point where two sides come closer than their rule allows.
#[derive(Debug, Clone, Copy, PartialEq, Eq)]
pub struct Contact {
    /// The two sides, the lower first.
    pub sides: (Side, Side),
    /// The entities that met there, the same way round as `sides`.
    pub entities: (u32, u32),
    /// Where the gap is.
    pub at: Point,
    /// How wide the gap is.
    pub distance: i64,
    /// What the pair's rule asks for.
    pub required: i64,
    /// How far apart two contacts of these sides can be and still be one
    /// place: the width of the trace copper that makes them.
    pub reach: i64,
    /// On each side, the copper that is too close.
    pub stretch: [Stretch; 2],
}

/// A contact whose numbers the counting can add up without leaving the
/// carried range.
pub open spec fn contact_ok(c: Contact) -> bool {
    &&& pt_ok(c.stretch[0].0) && pt_ok(c.stretch[0].1)
    &&& pt_ok(c.stretch[1].0) && pt_ok(c.stretch[1].1)
    &&& printable(c.distance)
    &&& printable(c.required)
}

/// How a side sorts: by kind - a trace, then a piece, then a pad - and then
/// by its fields in order.
pub open spec fn side_key(s: Side) -> Seq<int> {
    match s {
        Side::Trace { net, layers } => seq![0int, net as int, layers as int, 0int],
        Side::Piece(i) => seq![1int, i as int, 0int, 0int],
        Side::Pad { part, at } => seq![2int, part as int, at[0] as int, at[1] as int],
    }
}

/// How a contact sorts: by its sides, then where it is, then how close.
pub open spec fn contact_key(c: Contact) -> Seq<int> {
    side_key(c.sides.0) + side_key(c.sides.1) + seq![c.at.x as int, c.at.y as int, c.distance as int]
}

/// How a place sorts in the report: where it is.
pub open spec fn place_key(c: Contact) -> Seq<int> {
    seq![c.at.x as int, c.at.y as int]
}

/// How a contact is judged the worst of its place: the smallest gap, then
/// the lowest point.
pub open spec fn worst_key(c: Contact) -> Seq<int> {
    seq![c.distance as int, c.at.x as int, c.at.y as int]
}

/// The key of `c` a sort goes by: the whole contact, or its place.
pub open spec fn key_by(c: Contact, by_place: bool) -> Seq<int> {
    if by_place {
        place_key(c)
    } else {
        contact_key(c)
    }
}

/// `a` sorts strictly before `b`, comparing from position `i` on.
pub open spec fn lex_lt_from(a: Seq<int>, b: Seq<int>, i: int) -> bool
    decreases a.len() - i,
{
    if i < 0 || i >= a.len() || i >= b.len() {
        false
    } else if a[i] != b[i] {
        a[i] < b[i]
    } else {
        lex_lt_from(a, b, i + 1)
    }
}

/// `a` sorts strictly before `b`, element by element.
pub open spec fn lex_lt(a: Seq<int>, b: Seq<int>) -> bool {
    lex_lt_from(a, b, 0)
}

/// Strictly-before is transitive between keys of one length.
pub proof fn lemma_lex_lt_transitive(a: Seq<int>, b: Seq<int>, c: Seq<int>, i: int)
    requires
        a.len() == b.len() == c.len(),
        0 <= i,
        lex_lt_from(a, b, i),
        lex_lt_from(b, c, i),
    ensures
        lex_lt_from(a, c, i),
    decreases a.len() - i,
{
    if i < a.len() && a[i] == b[i] && b[i] == c[i] {
        lemma_lex_lt_transitive(a, b, c, i + 1);
    }
}

/// Of two keys of one length, one sorts before the other or they are equal.
pub proof fn lemma_lex_total(a: Seq<int>, b: Seq<int>, i: int)
    requires
        a.len() == b.len(),
        0 <= i <= a.len(),
    ensures
        lex_lt_from(a, b, i) || lex_lt_from(b, a, i) || a.subrange(i, a.len() as int)
            =~= b.subrange(i, b.len() as int),
    decreases a.len() - i,
{
    if i < a.len() && a[i] == b[i] {
        lemma_lex_total(a, b, i + 1);
        if a.subrange(i + 1, a.len() as int) =~= b.subrange(i + 1, b.len() as int) {
            assert(a.subrange(i, a.len() as int) =~= b.subrange(i, b.len() as int)) by {
                assert forall|t: int| 0 <= t < a.len() - i implies a.subrange(i, a.len() as int)[t]
                    == b.subrange(i, b.len() as int)[t] by {
                    if t > 0 {
                        assert(a.subrange(i, a.len() as int)[t] == a.subrange(
                            i + 1,
                            a.len() as int,
                        )[t - 1]);
                        assert(b.subrange(i, b.len() as int)[t] == b.subrange(
                            i + 1,
                            b.len() as int,
                        )[t - 1]);
                    }
                }
            }
        }
    }
}

/// A key never sorts strictly before itself, nor both ways round.
pub proof fn lemma_lex_asymmetric(a: Seq<int>, b: Seq<int>, i: int)
    requires
        0 <= i,
        lex_lt_from(a, b, i),
    ensures
        !lex_lt_from(b, a, i),
    decreases a.len() - i,
{
    if i < a.len() && i < b.len() && a[i] == b[i] {
        lemma_lex_asymmetric(a, b, i + 1);
    }
}

/// Whether key `a` sorts strictly before key `b`.
fn keys_before(a: &Vec<i64>, b: &Vec<i64>) -> (r: bool)
    ensures
        r == lex_lt(a@.map_values(|v: i64| v as int), b@.map_values(|v: i64| v as int)),
{
    let ghost sa = a@.map_values(|v: i64| v as int);
    let ghost sb = b@.map_values(|v: i64| v as int);
    let mut i: usize = 0;
    while i < a.len() && i < b.len() && a[i] == b[i]
        invariant
            i <= a@.len(),
            i <= b@.len(),
            sa == a@.map_values(|v: i64| v as int),
            sb == b@.map_values(|v: i64| v as int),
            lex_lt_from(sa, sb, 0) == lex_lt_from(sa, sb, i as int),
        decreases a@.len() - i,
    {
        i = i + 1;
    }
    if i < a.len() && i < b.len() {
        a[i] < b[i]
    } else {
        false
    }
}

/// The key of a side, as numbers.
fn push_side_key(key: &mut Vec<i64>, s: &Side)
    ensures
        final(key)@.map_values(|v: i64| v as int) =~= old(key)@.map_values(|v: i64| v as int)
            + side_key(*s),
{
    match s {
        Side::Trace { net, layers } => {
            key.push(0);
            key.push(*net as i64);
            key.push(*layers as i64);
            key.push(0);
        },
        Side::Piece(i) => {
            key.push(1);
            key.push(*i as i64);
            key.push(0);
            key.push(0);
        },
        Side::Pad { part, at } => {
            key.push(2);
            key.push(*part as i64);
            key.push(at[0]);
            key.push(at[1]);
        },
    }
}

/// The key a sort goes by, as numbers.
fn key_of(c: &Contact, by_place: bool) -> (key: Vec<i64>)
    ensures
        key@.map_values(|v: i64| v as int) =~= key_by(*c, by_place),
{
    let mut key: Vec<i64> = Vec::new();
    if !by_place {
        push_side_key(&mut key, &c.sides.0);
        push_side_key(&mut key, &c.sides.1);
    }
    key.push(c.at.x);
    key.push(c.at.y);
    if !by_place {
        key.push(c.distance);
    }
    key
}

/// Whether `a` sorts strictly before `b` by the chosen key.
pub fn sorts_before(a: &Contact, b: &Contact, by_place: bool) -> (r: bool)
    ensures
        r == lex_lt(key_by(*a, by_place), key_by(*b, by_place)),
{
    let ka = key_of(a, by_place);
    let kb = key_of(b, by_place);
    keys_before(&ka, &kb)
}

/// Where `c` goes among contacts already sorted, keeping equal keys in the
/// order they came: after the last that does not sort after it.
pub open spec fn slot(s: Seq<Contact>, c: Contact, by_place: bool) -> int
    decreases s.len(),
{
    if s.len() == 0 {
        0
    } else if !lex_lt(key_by(c, by_place), key_by(s.last(), by_place)) {
        s.len() as int
    } else {
        slot(s.drop_last(), c, by_place)
    }
}

/// The contacts sorted by the chosen key, equal keys in the order they came.
pub open spec fn sorted(s: Seq<Contact>, by_place: bool) -> Seq<Contact>
    decreases s.len(),
{
    if s.len() == 0 {
        s
    } else {
        let r = sorted(s.drop_last(), by_place);
        r.insert(slot(r, s.last(), by_place), s.last())
    }
}

/// A slot is a place among the contacts.
pub proof fn lemma_slot_range(s: Seq<Contact>, c: Contact, by_place: bool)
    ensures
        0 <= slot(s, c, by_place) <= s.len(),
    decreases s.len(),
{
    if s.len() > 0 && lex_lt(key_by(c, by_place), key_by(s.last(), by_place)) {
        lemma_slot_range(s.drop_last(), c, by_place);
    }
}

/// Sorting keeps every contact and adds none.
pub proof fn lemma_sorted_len(s: Seq<Contact>, by_place: bool)
    ensures
        sorted(s, by_place).len() == s.len(),
    decreases s.len(),
{
    if s.len() > 0 {
        lemma_sorted_len(s.drop_last(), by_place);
        lemma_slot_range(sorted(s.drop_last(), by_place), s.last(), by_place);
    }
}

/// Sorting keeps each contact as often as it came: whatever holds of every
/// contact that went in holds of every one that comes out.
pub proof fn lemma_sorted_keeps(s: Seq<Contact>, by_place: bool, k: int)
    requires
        0 <= k < sorted(s, by_place).len(),
    ensures
        exists|j: int| 0 <= j < s.len() && s[j] == sorted(s, by_place)[k],
    decreases s.len(),
{
    lemma_sorted_len(s, by_place);
    let r = sorted(s.drop_last(), by_place);
    lemma_sorted_len(s.drop_last(), by_place);
    lemma_slot_range(r, s.last(), by_place);
    let p = slot(r, s.last(), by_place);
    r.insert_ensures(p, s.last());
    if k == p {
        assert(s[s.len() - 1] == sorted(s, by_place)[k]);
    } else {
        let t = if k < p {
            k
        } else {
            k - 1
        };
        assert(sorted(s, by_place)[k] == r[t]);
        lemma_sorted_keeps(s.drop_last(), by_place, t);
        let j = choose|j: int| 0 <= j < s.drop_last().len() && s.drop_last()[j] == r[t];
        assert(s[j] == sorted(s, by_place)[k]);
    }
}

/// Where `c` goes among the contacts already sorted.
fn slot_of(v: &Vec<Contact>, c: &Contact, by_place: bool) -> (k: usize)
    ensures
        k == slot(v@, *c, by_place),
{
    let mut k = v.len();
    proof {
        assert(v@.take(k as int) =~= v@);
    }
    while k > 0 && sorts_before(c, &v[k - 1], by_place)
        invariant
            k <= v.len(),
            slot(v@.take(k as int), *c, by_place) == slot(v@, *c, by_place),
        decreases k,
    {
        proof {
            assert(v@.take(k as int).drop_last() =~= v@.take(k - 1));
            assert(v@.take(k as int).last() == v@[k - 1]);
        }
        k = k - 1;
    }
    proof {
        if k > 0 {
            assert(v@.take(k as int).last() == v@[k - 1]);
        }
    }
    k
}

/// The contacts sorted by the chosen key, equal keys kept in the order they
/// came.
pub fn sort_contacts(v: &Vec<Contact>, by_place: bool) -> (out: Vec<Contact>)
    ensures
        out@ == sorted(v@, by_place),
{
    let mut out: Vec<Contact> = Vec::new();
    let mut i: usize = 0;
    while i < v.len()
        invariant
            i <= v.len(),
            out@ == sorted(v@.take(i as int), by_place),
        decreases v.len() - i,
    {
        let c = v[i];
        let k = slot_of(&out, &c, by_place);
        proof {
            lemma_slot_range(out@, c, by_place);
            assert(v@.take(i + 1).drop_last() =~= v@.take(i as int));
        }
        out.insert(k, c);
        i = i + 1;
    }
    proof {
        assert(v@.take(v.len() as int) =~= v@);
    }
    out
}

/// The distance between two stretches, rounded down.
pub open spec fn stretch_gap(p: Stretch, q: Stretch) -> int {
    floor_seg(p.0, p.1, q.0, q.1)
}

/// The smaller of two numbers.
pub open spec fn min2(a: int, b: int) -> int {
    if a <= b {
        a
    } else {
        b
    }
}

/// How far apart two contacts' stretches come: the least distance from a
/// stretch of one to a stretch of the other.
pub open spec fn apart(a: Contact, b: Contact) -> int {
    min2(
        min2(stretch_gap(a.stretch[0], b.stretch[0]), stretch_gap(a.stretch[0], b.stretch[1])),
        min2(stretch_gap(a.stretch[1], b.stretch[0]), stretch_gap(a.stretch[1], b.stretch[1])),
    )
}

/// Two contacts are one place: their stretches come no further apart than
/// the wider of the two reaches.
pub open spec fn near(a: Contact, b: Contact) -> bool {
    apart(a, b) <= (if a.reach >= b.reach {
        a.reach
    } else {
        b.reach
    })
}

/// Whether two stretches are one place with each other is the same question
/// either way round.
pub proof fn lemma_near_symmetric(a: Contact, b: Contact)
    requires
        contact_ok(a),
        contact_ok(b),
    ensures
        near(a, b) == near(b, a),
{
    assert forall|p: Stretch, q: Stretch|
        pt_ok(p.0) && pt_ok(p.1) && pt_ok(q.0) && pt_ok(q.1) implies #[trigger] stretch_gap(p, q)
        == stretch_gap(q, p) by {
        let r = floor_seg(p.0, p.1, q.0, q.1);
        crate::geometry::lemma_floor_seg_exists(p.0, p.1, q.0, q.1);
        crate::geometry::lemma_floor_seg_distance_symmetric(r, p.0, p.1, q.0, q.1);
        lemma_floor_seg_unique(r, q.0, q.1, p.0, p.1);
    }
    assert(stretch_gap(a.stretch[0], b.stretch[0]) == stretch_gap(b.stretch[0], a.stretch[0]));
    assert(stretch_gap(a.stretch[0], b.stretch[1]) == stretch_gap(b.stretch[1], a.stretch[0]));
    assert(stretch_gap(a.stretch[1], b.stretch[0]) == stretch_gap(b.stretch[0], a.stretch[1]));
    assert(stretch_gap(a.stretch[1], b.stretch[1]) == stretch_gap(b.stretch[1], a.stretch[1]));
}

/// Whether two contacts are one place.
fn near_each_other(a: &Contact, b: &Contact) -> (r: bool)
    requires
        contact_ok(*a),
        contact_ok(*b),
    ensures
        r == near(*a, *b),
{
    let d00 = segment_distance(a.stretch[0].0, a.stretch[0].1, b.stretch[0].0, b.stretch[0].1);
    let d01 = segment_distance(a.stretch[0].0, a.stretch[0].1, b.stretch[1].0, b.stretch[1].1);
    let d10 = segment_distance(a.stretch[1].0, a.stretch[1].1, b.stretch[0].0, b.stretch[0].1);
    let d11 = segment_distance(a.stretch[1].0, a.stretch[1].1, b.stretch[1].0, b.stretch[1].1);
    proof {
        lemma_floor_seg_unique(d00 as int, a.stretch[0].0, a.stretch[0].1, b.stretch[0].0, b.stretch[0].1);
        lemma_floor_seg_unique(d01 as int, a.stretch[0].0, a.stretch[0].1, b.stretch[1].0, b.stretch[1].1);
        lemma_floor_seg_unique(d10 as int, a.stretch[1].0, a.stretch[1].1, b.stretch[0].0, b.stretch[0].1);
        lemma_floor_seg_unique(d11 as int, a.stretch[1].0, a.stretch[1].1, b.stretch[1].0, b.stretch[1].1);
    }
    let m0 = if d00 <= d01 { d00 } else { d01 };
    let m1 = if d10 <= d11 { d10 } else { d11 };
    let m = if m0 <= m1 { m0 } else { m1 };
    let reach = if a.reach >= b.reach { a.reach } else { b.reach };
    m <= reach
}

/// One step of a walk: the contact at position `k` and the next are one
/// place.
pub open spec fn step(g: Seq<Contact>, p: Seq<int>, k: int) -> bool {
    near(g[p[k]], g[p[k + 1]])
}

/// `p` is a walk through the contacts of `g`, each one place with the next.
pub open spec fn is_walk(g: Seq<Contact>, p: Seq<int>) -> bool {
    &&& p.len() >= 1
    &&& forall|k: int| 0 <= k < p.len() ==> 0 <= #[trigger] p[k] < g.len()
    &&& forall|k: int| 0 <= k < p.len() - 1 ==> #[trigger] step(g, p, k)
}

/// Contacts `i` and `j` of `g` are one place: a walk leads from one to the
/// other.
pub open spec fn connected(g: Seq<Contact>, i: int, j: int) -> bool {
    exists|p: Seq<int>| #[trigger] is_walk(g, p) && p[0] == i && p.last() == j
}

/// Every contact of the group can be counted.
pub open spec fn group_ok(g: Seq<Contact>) -> bool {
    forall|k: int| 0 <= k < g.len() ==> contact_ok(#[trigger] g[k])
}

/// A contact is one place with itself.
pub proof fn lemma_connected_self(g: Seq<Contact>, i: int)
    requires
        0 <= i < g.len(),
    ensures
        connected(g, i, i),
{
    let p = seq![i];
    assert(is_walk(g, p));
}

/// A contact one place with the start of a walk is one place with its end.
pub proof fn lemma_connected_prepend(g: Seq<Contact>, i: int, j: int, t: int)
    requires
        0 <= i < g.len(),
        near(g[i], g[j]),
        connected(g, j, t),
    ensures
        connected(g, i, t),
{
    let p = choose|p: Seq<int>| #[trigger] is_walk(g, p) && p[0] == j && p.last() == t;
    let q = seq![i] + p;
    assert(q[0] == i);
    assert(q.last() == t);
    assert forall|k: int| 0 <= k < q.len() implies 0 <= #[trigger] q[k] < g.len() by {
        if k > 0 {
            assert(q[k] == p[k - 1]);
        }
    }
    assert forall|k: int| 0 <= k < q.len() - 1 implies #[trigger] step(g, q, k) by {
        if k == 0 {
            assert(q[1] == p[0]);
        } else {
            assert(q[k] == p[k - 1] && q[k + 1] == p[k]);
            assert(step(g, p, k - 1));
        }
    }
    assert(is_walk(g, q));
}

/// Being one place is symmetric.
pub proof fn lemma_connected_symmetric(g: Seq<Contact>, i: int, j: int)
    requires
        group_ok(g),
        connected(g, i, j),
    ensures
        connected(g, j, i),
{
    let p = choose|p: Seq<int>| #[trigger] is_walk(g, p) && p[0] == i && p.last() == j;
    let q = p.reverse();
    assert(q[0] == j);
    assert(q.last() == i);
    assert forall|k: int| 0 <= k < q.len() implies 0 <= #[trigger] q[k] < g.len() by {
        assert(q[k] == p[p.len() - 1 - k]);
    }
    assert forall|k: int| 0 <= k < q.len() - 1 implies #[trigger] step(g, q, k) by {
        let m = p.len() - 2 - k;
        assert(q[k] == p[m + 1] && q[k + 1] == p[m]);
        assert(step(g, p, m));
        assert(0 <= p[m] < g.len() && 0 <= p[m + 1] < g.len());
        lemma_near_symmetric(g[p[m]], g[p[m + 1]]);
    }
    assert(is_walk(g, q));
}

/// The sum of a sequence of counts.
pub open spec fn total(s: Seq<usize>) -> int
    decreases s.len(),
{
    if s.len() == 0 {
        0
    } else {
        total(s.drop_last()) + s.last()
    }
}

/// Changing one count changes the sum by the difference.
proof fn lemma_total_update(s: Seq<usize>, k: int, v: usize)
    requires
        0 <= k < s.len(),
    ensures
        total(s.update(k, v)) == total(s) - s[k] + v,
    decreases s.len(),
{
    if k < s.len() - 1 {
        lemma_total_update(s.drop_last(), k, v);
        assert(s.update(k, v).drop_last() =~= s.drop_last().update(k, v));
    } else {
        assert(s.update(k, v).drop_last() =~= s.drop_last());
    }
}

/// A sum of counts is no less than nothing.
proof fn lemma_total_nonneg(s: Seq<usize>)
    ensures
        total(s) >= 0,
    decreases s.len(),
{
    if s.len() > 0 {
        lemma_total_nonneg(s.drop_last());
    }
}

/// What a labelling of the group's contacts keeps: each label is a contact
/// no later than the one it labels and one place with it.
pub open spec fn labels_sound(g: Seq<Contact>, label: Seq<usize>) -> bool {
    &&& label.len() == g.len()
    &&& forall|x: int| 0 <= x < g.len() ==> #[trigger] label[x] <= x
    &&& forall|x: int| 0 <= x < g.len() ==> connected(g, x, #[trigger] label[x] as int)
}

/// Two contacts that are one place with each other carry the same label.
pub open spec fn labels_settled(g: Seq<Contact>, label: Seq<usize>) -> bool {
    forall|a: int, b: int| 0 <= a < b < g.len() && near(g[a], g[b]) ==> #[trigger] label[a] == #[trigger] label[b]
}

/// Labels each contact of the group with the first contact it is one place
/// with.
fn place_labels(g: &Vec<Contact>) -> (label: Vec<usize>)
    requires
        group_ok(g@),
    ensures
        labels_sound(g@, label@),
        labels_settled(g@, label@),
{
    let n = g.len();
    let mut label: Vec<usize> = Vec::new();
    while label.len() < n
        invariant
            n == g@.len(),
            label@.len() <= n,
            forall|x: int| 0 <= x < label@.len() ==> #[trigger] label@[x] == x,
        decreases n - label@.len(),
    {
        label.push(label.len());
    }
    proof {
        assert forall|x: int| 0 <= x < g@.len() implies connected(g@, x, #[trigger] label@[x] as int) by {
            lemma_connected_self(g@, x);
        }
    }
    let mut changed = true;
    while changed
        invariant
            n == g@.len(),
            group_ok(g@),
            labels_sound(g@, label@),
            !changed ==> labels_settled(g@, label@),
        decreases total(label@) + (if changed {
            1int
        } else {
            0int
        }),
    {
        let ghost start = label@;
        changed = false;
        let mut i: usize = 0;
        while i < n
            invariant
                n == g@.len(),
                group_ok(g@),
                labels_sound(g@, label@),
                i <= n,
                changed ==> total(label@) < total(start),
                !changed ==> label@ == start,
                !changed ==> forall|a: int, b: int|
                    0 <= a < i && a < b < n && near(g@[a], g@[b]) ==> #[trigger] label@[a]
                        == #[trigger] label@[b],
            decreases n - i,
        {
            let mut j: usize = i + 1;
            while j < n
                invariant
                    n == g@.len(),
                    group_ok(g@),
                    labels_sound(g@, label@),
                    i < n,
                    i + 1 <= j <= n,
                    changed ==> total(label@) < total(start),
                    !changed ==> label@ == start,
                    !changed ==> forall|a: int, b: int|
                        0 <= a < i && a < b < n && near(g@[a], g@[b]) ==> #[trigger] label@[a]
                            == #[trigger] label@[b],
                    !changed ==> forall|b: int|
                        i < b < j && near(g@[i as int], g@[b]) ==> label@[i as int] == #[trigger] label@[b],
                decreases n - j,
            {
                proof {
                    assert(contact_ok(g@[i as int]) && contact_ok(g@[j as int]));
                }
                if near_each_other(&g[i], &g[j]) && label[i] != label[j] {
                    let li = label[i];
                    let lj = label[j];
                    let ghost before = label@;
                    proof {
                        lemma_total_nonneg(before);
                    }
                    if lj < li {
                        proof {
                            lemma_connected_prepend(g@, i as int, j as int, lj as int);
                            lemma_total_update(before, i as int, lj);
                        }
                        label.set(i, lj);
                    } else {
                        proof {
                            lemma_near_symmetric(g@[i as int], g@[j as int]);
                            lemma_connected_prepend(g@, j as int, i as int, li as int);
                            lemma_total_update(before, j as int, li);
                        }
                        label.set(j, li);
                    }
                    changed = true;
                }
                j = j + 1;
            }
            i = i + 1;
        }
        proof {
            lemma_total_nonneg(label@);
        }
    }
    label
}

/// One place with a second that is one place with a third is one place with
/// the third.
pub proof fn lemma_connected_transitive(g: Seq<Contact>, i: int, m: int, j: int)
    requires
        connected(g, i, m),
        connected(g, m, j),
    ensures
        connected(g, i, j),
{
    let p = choose|p: Seq<int>| #[trigger] is_walk(g, p) && p[0] == i && p.last() == m;
    let r = choose|r: Seq<int>| #[trigger] is_walk(g, r) && r[0] == m && r.last() == j;
    let q = p + r.drop_first();
    let n = p.len();
    assert(q[0] == i);
    assert(q.last() == j) by {
        if r.len() > 1 {
            assert(q.last() == r.drop_first().last());
        }
    }
    assert forall|k: int| 0 <= k < q.len() implies 0 <= #[trigger] q[k] < g.len() by {
        if k >= n {
            assert(q[k] == r[k - n + 1]);
        }
    }
    assert forall|k: int| 0 <= k < q.len() - 1 implies #[trigger] step(g, q, k) by {
        if k < n - 1 {
            assert(q[k] == p[k] && q[k + 1] == p[k + 1]);
            assert(step(g, p, k));
        } else if k == n - 1 {
            assert(q[k] == r[0] && q[k + 1] == r[1]);
            assert(step(g, r, 0));
        } else {
            assert(q[k] == r[k - n + 1] && q[k + 1] == r[k - n + 2]);
            assert(step(g, r, k - n + 1));
        }
    }
    assert(is_walk(g, q));
}

/// Along a walk, settled labels do not change.
proof fn lemma_walk_keeps_label(g: Seq<Contact>, label: Seq<usize>, p: Seq<int>)
    requires
        group_ok(g),
        labels_sound(g, label),
        labels_settled(g, label),
        is_walk(g, p),
    ensures
        label[p[0]] == label[p.last()],
    decreases p.len(),
{
    if p.len() > 1 {
        let q = p.drop_last();
        assert forall|k: int| 0 <= k < q.len() - 1 implies #[trigger] step(g, q, k) by {
            assert(step(g, p, k));
        }
        assert(is_walk(g, q));
        lemma_walk_keeps_label(g, label, q);
        let (a, b) = (p[p.len() - 2], p[p.len() - 1]);
        assert(step(g, p, p.len() - 2));
        assert(near(g[a], g[b]));
        if a < b {
            assert(label[a] == label[b]);
        } else if b < a {
            lemma_near_symmetric(g[a], g[b]);
            assert(label[b] == label[a]);
        }
    }
}

/// With settled labels, two contacts are one place exactly when they carry
/// the same label.
pub proof fn lemma_connected_iff_label(g: Seq<Contact>, label: Seq<usize>, i: int, j: int)
    requires
        group_ok(g),
        labels_sound(g, label),
        labels_settled(g, label),
        0 <= i < g.len(),
        0 <= j < g.len(),
    ensures
        connected(g, i, j) == (label[i] == label[j]),
{
    if connected(g, i, j) {
        let p = choose|p: Seq<int>| #[trigger] is_walk(g, p) && p[0] == i && p.last() == j;
        lemma_walk_keeps_label(g, label, p);
    }
    if label[i] == label[j] {
        let l = label[i] as int;
        assert(connected(g, i, l));
        assert(connected(g, j, label[j] as int));
        lemma_connected_symmetric(g, j, l);
        lemma_connected_transitive(g, i, l, j);
    }
}

/// Contact `r` is the first of its place: no earlier contact is one place
/// with it.
pub open spec fn is_root(g: Seq<Contact>, r: int) -> bool {
    0 <= r < g.len() && forall|j: int| 0 <= j < r ==> !#[trigger] connected(g, j, r)
}

/// With settled labels, a contact is the first of its place exactly when it
/// labels itself.
pub proof fn lemma_root_iff_own_label(g: Seq<Contact>, label: Seq<usize>, r: int)
    requires
        group_ok(g),
        labels_sound(g, label),
        labels_settled(g, label),
        0 <= r < g.len(),
    ensures
        is_root(g, r) == (label[r] == r),
{
    let l = label[r] as int;
    assert(connected(g, r, l));
    assert(l <= r);
    if label[r] == r {
        assert forall|j: int| 0 <= j < r implies !#[trigger] connected(g, j, r) by {
            if connected(g, j, r) {
                lemma_connected_iff_label(g, label, j, r);
                assert(label[j] <= j);
            }
        }
    } else {
        lemma_connected_symmetric(g, r, l);
        assert(connected(g, l, r));
    }
}

/// The worst contact of the place of contact `r` among the first `n`: the
/// smallest gap, then the lowest point, the earliest where two tie.
pub open spec fn worst_upto(g: Seq<Contact>, r: int, n: int) -> Option<int>
    decreases n,
{
    if n <= 0 {
        None
    } else {
        let prev = worst_upto(g, r, n - 1);
        if connected(g, r, n - 1) {
            match prev {
                None => Some(n - 1),
                Some(b) => if lex_lt(worst_key(g[n - 1]), worst_key(g[b])) {
                    Some(n - 1)
                } else {
                    Some(b)
                },
            }
        } else {
            prev
        }
    }
}

/// The worst contact of each place of the group, the places in the order of
/// their first contact, looking at the first `n` contacts for places.
pub open spec fn group_worsts(g: Seq<Contact>, n: int) -> Seq<Contact>
    decreases n,
{
    if n <= 0 {
        Seq::empty()
    } else {
        let rest = group_worsts(g, n - 1);
        if is_root(g, n - 1) {
            rest.push(g[worst_upto(g, n - 1, g.len() as int).unwrap()])
        } else {
            rest
        }
    }
}

/// One row per place of a group of contacts between the same two sides:
/// each place at its worst contact, the places in order of where they are.
pub open spec fn group_places(g: Seq<Contact>) -> Seq<Contact> {
    sorted(group_worsts(g, g.len() as int), true)
}

/// Whether contact `a` is worse than `b`.
fn worse_than(a: &Contact, b: &Contact) -> (r: bool)
    ensures
        r == lex_lt(worst_key(*a), worst_key(*b)),
{
    let mut ka: Vec<i64> = Vec::new();
    ka.push(a.distance);
    ka.push(a.at.x);
    ka.push(a.at.y);
    let mut kb: Vec<i64> = Vec::new();
    kb.push(b.distance);
    kb.push(b.at.x);
    kb.push(b.at.y);
    proof {
        assert(ka@.map_values(|v: i64| v as int) =~= worst_key(*a));
        assert(kb@.map_values(|v: i64| v as int) =~= worst_key(*b));
    }
    keys_before(&ka, &kb)
}

/// The worst contact of each place of the group, in order of where the
/// places are.
fn places_of_group(g: &Vec<Contact>) -> (out: Vec<Contact>)
    requires
        group_ok(g@),
    ensures
        out@ == group_places(g@),
{
    let n = g.len();
    let label = place_labels(g);
    let mut worsts: Vec<Contact> = Vec::new();
    let mut r: usize = 0;
    while r < n
        invariant
            n == g@.len(),
            group_ok(g@),
            labels_sound(g@, label@),
            labels_settled(g@, label@),
            r <= n,
            worsts@ == group_worsts(g@, r as int),
        decreases n - r,
    {
        proof {
            lemma_root_iff_own_label(g@, label@, r as int);
        }
        if label[r] == r {
            let mut best: Option<usize> = None;
            let mut i: usize = 0;
            while i < n
                invariant
                    n == g@.len(),
                    group_ok(g@),
                    labels_sound(g@, label@),
                    labels_settled(g@, label@),
                    r < n,
                    label@[r as int] == r,
                    i <= n,
                    match best {
                        Some(b) => b < i && worst_upto(g@, r as int, i as int) == Some(b as int),
                        None => worst_upto(g@, r as int, i as int) is None,
                    },
                decreases n - i,
            {
                proof {
                    lemma_connected_iff_label(g@, label@, r as int, i as int);
                }
                if label[i] == r {
                    best = match best {
                        None => Some(i),
                        Some(b) => if worse_than(&g[i], &g[b]) {
                            Some(i)
                        } else {
                            Some(b)
                        },
                    };
                }
                i = i + 1;
            }
            proof {
                lemma_connected_self(g@, r as int);
                if best is None {
                    lemma_worst_found(g@, r as int, n as int);
                }
            }
            let b = best.unwrap();
            worsts.push(g[b]);
        }
        r = r + 1;
    }
    sort_contacts(&worsts, true)
}

/// Where contact `r` is one place with itself, its place has a worst
/// contact among any first `n` that hold it.
proof fn lemma_worst_found(g: Seq<Contact>, r: int, n: int)
    requires
        0 <= r < n,
        connected(g, r, r),
    ensures
        worst_upto(g, r, n) is Some,
    decreases n,
{
    if n - 1 > r {
        lemma_worst_found(g, r, n - 1);
    }
}

/// Two contacts are between the same two sides.
pub open spec fn same_sides(a: Contact, b: Contact) -> bool {
    side_key(a.sides.0) == side_key(b.sides.0) && side_key(a.sides.1) == side_key(b.sides.1)
}

/// Where the run of contacts between the same sides as contact `start`
/// ends, looking from `e` on.
pub open spec fn run_end(s: Seq<Contact>, start: int, e: int) -> int
    decreases s.len() - e,
{
    if e < 0 || e >= s.len() || !same_sides(s[e], s[start]) {
        e
    } else {
        run_end(s, start, e + 1)
    }
}

/// The rows of the sorted contacts from `start` on: each run of contacts
/// between the same two sides counted into its places.
pub open spec fn places_from(s: Seq<Contact>, start: int) -> Seq<Contact>
    decreases s.len() - start,
{
    if start < 0 || start >= s.len() {
        Seq::empty()
    } else {
        let e = run_end(s, start, start + 1);
        if e <= start || e > s.len() {
            Seq::empty()
        } else {
            group_places(s.subrange(start, e)) + places_from(s, e)
        }
    }
}

/// Every contact the board has, one per place: the contacts sorted by their
/// sides, where they are and how close, each run between the same two sides
/// counted into its places.
pub open spec fn places(found: Seq<Contact>) -> Seq<Contact> {
    places_from(sorted(found, false), 0)
}

/// `r` reports the place whose worst contact is `c`.
pub open spec fn reports_place(r: DrcViolation, c: Contact) -> bool {
    describes(
        r,
        ViolationKind::Clearance,
        c.entities.0,
        Some(c.entities.1),
        Some(c.distance),
        Some(c.required),
        c.at,
        two_lengths("Clearance violation: "@, c.distance, "mm actual, "@, c.required, "mm required"@, 2),
    )
}

/// A run that starts at `e` ends no earlier than `e` and no later than the
/// contacts do.
proof fn lemma_run_end_range(s: Seq<Contact>, start: int, e: int)
    requires
        0 <= e <= s.len(),
    ensures
        e <= run_end(s, start, e) <= s.len(),
    decreases s.len() - e,
{
    if e < s.len() && same_sides(s[e], s[start]) {
        lemma_run_end_range(s, start, e + 1);
    }
}

/// Whether two contacts are between the same two sides.
fn between_same_sides(a: &Contact, b: &Contact) -> (r: bool)
    ensures
        r == same_sides(*a, *b),
{
    let mut ka: Vec<i64> = Vec::new();
    push_side_key(&mut ka, &a.sides.0);
    push_side_key(&mut ka, &a.sides.1);
    let mut kb: Vec<i64> = Vec::new();
    push_side_key(&mut kb, &b.sides.0);
    push_side_key(&mut kb, &b.sides.1);
    let ghost sa = ka@.map_values(|v: i64| v as int);
    let ghost sb = kb@.map_values(|v: i64| v as int);
    proof {
        assert(sa =~= side_key(a.sides.0) + side_key(a.sides.1));
        assert(sb =~= side_key(b.sides.0) + side_key(b.sides.1));
        assert(ka@.len() == sa.len() && kb@.len() == sb.len());
    }
    let mut i: usize = 0;
    while i < 8
        invariant
            sa == side_key(a.sides.0) + side_key(a.sides.1),
            sb == side_key(b.sides.0) + side_key(b.sides.1),
            ka@.len() == 8,
            kb@.len() == 8,
            sa == ka@.map_values(|v: i64| v as int),
            sb == kb@.map_values(|v: i64| v as int),
            i <= 8,
            forall|t: int| 0 <= t < i ==> sa[t] == sb[t],
        decreases 8 - i,
    {
        if ka[i] != kb[i] {
            proof {
                assert(sa[i as int] != sb[i as int]);
                if same_sides(*a, *b) {
                    assert(sa =~= sb);
                }
            }
            return false;
        }
        i = i + 1;
    }
    proof {
        assert(sa =~= sb);
        assert(side_key(a.sides.0) =~= sa.subrange(0, 4));
        assert(side_key(b.sides.0) =~= sb.subrange(0, 4));
        assert(side_key(a.sides.1) =~= sa.subrange(4, 8));
        assert(side_key(b.sides.1) =~= sb.subrange(4, 8));
    }
    true
}

/// Every contact the board has, one row per place.
///
/// A place is the stretch of copper that is too close: two contacts between
/// the same two sides are one place when their stretches come no further
/// apart than the trace copper that makes them is wide, taken transitively.
/// A place is reported at its worst contact, at the lowest point when two
/// are equally bad; the places of one pair of sides in order of where they
/// are.
pub fn one_row_per_place(found: Vec<Contact>) -> (rows: Vec<DrcViolation>)
    requires
        forall|k: int| 0 <= k < found@.len() ==> contact_ok(#[trigger] found@[k]),
    ensures
        rows@.len() == places(found@).len(),
        forall|k: int| 0 <= k < rows@.len() ==> reports_place(#[trigger] rows@[k], places(found@)[k]),
{
    let s = sort_contacts(&found, false);
    proof {
        lemma_sorted_len(found@, false);
        assert forall|k: int| 0 <= k < s@.len() implies contact_ok(#[trigger] s@[k]) by {
            lemma_sorted_keeps(found@, false, k);
        }
    }
    let n = s.len();
    let mut chosen: Vec<Contact> = Vec::new();
    let mut start: usize = 0;
    while start < n
        invariant
            n == s@.len(),
            start <= n,
            forall|k: int| 0 <= k < s@.len() ==> contact_ok(#[trigger] s@[k]),
            chosen@ + places_from(s@, start as int) == places_from(s@, 0),
        decreases n - start,
    {
        let mut end = start + 1;
        while end < n && between_same_sides(&s[end], &s[start])
            invariant
                n == s@.len(),
                start < end <= n,
                run_end(s@, start as int, start + 1) == run_end(s@, start as int, end as int),
            decreases n - end,
        {
            end = end + 1;
        }
        proof {
            lemma_run_end_range(s@, start as int, start + 1);
        }
        let mut group: Vec<Contact> = Vec::new();
        let mut k = start;
        while k < end
            invariant
                start <= k <= end <= n,
                n == s@.len(),
                group@ == s@.subrange(start as int, k as int),
            decreases end - k,
        {
            group.push(s[k]);
            proof {
                assert(s@.subrange(start as int, k + 1) =~= s@.subrange(start as int, k as int).push(s@[k as int]));
            }
            k = k + 1;
        }
        proof {
            assert forall|t: int| 0 <= t < group@.len() implies contact_ok(#[trigger] group@[t]) by {
                assert(group@[t] == s@[start + t]);
            }
        }
        let here = places_of_group(&group);
        let ghost before = chosen@;
        let mut t: usize = 0;
        while t < here.len()
            invariant
                t <= here@.len(),
                chosen@ == before + here@.take(t as int),
            decreases here@.len() - t,
        {
            chosen.push(here[t]);
            proof {
                assert(here@.take(t + 1) =~= here@.take(t as int).push(here@[t as int]));
            }
            t = t + 1;
        }
        proof {
            assert(here@.take(t as int) =~= here@);
            assert(places_from(s@, start as int) == group_places(s@.subrange(start as int, end as int))
                + places_from(s@, end as int));
            assert(chosen@ + places_from(s@, end as int) =~= before + places_from(s@, start as int));
        }
        start = end;
    }
    proof {
        assert(chosen@ =~= places_from(s@, 0));
        lemma_places_ok(s@, 0);
    }
    let mut rows: Vec<DrcViolation> = Vec::new();
    let mut k: usize = 0;
    while k < chosen.len()
        invariant
            k <= chosen@.len(),
            chosen@ == places(found@),
            forall|t: int| 0 <= t < chosen@.len() ==> contact_ok(#[trigger] chosen@[t]),
            rows@.len() == k,
            forall|t: int| 0 <= t < k ==> reports_place(#[trigger] rows@[t], chosen@[t]),
        decreases chosen@.len() - k,
    {
        let c = chosen[k];
        proof {
            assert(contact_ok(chosen@[k as int]));
        }
        rows.push(DrcViolation::clearance(c.entities.0, c.entities.1, c.distance, c.required, c.at));
        k = k + 1;
    }
    rows
}

/// The worst contact found is one of those looked at.
proof fn lemma_worst_in_range(g: Seq<Contact>, r: int, n: int)
    ensures
        worst_upto(g, r, n) matches Some(b) ==> 0 <= b < n,
    decreases n,
{
    if n > 0 {
        lemma_worst_in_range(g, r, n - 1);
    }
}

/// The worst contacts of a group's places are contacts of the group.
proof fn lemma_group_worsts_ok(g: Seq<Contact>, n: int)
    requires
        group_ok(g),
        n <= g.len(),
    ensures
        forall|k: int| 0 <= k < group_worsts(g, n).len() ==> contact_ok(#[trigger] group_worsts(g, n)[k]),
    decreases n,
{
    if n > 0 {
        lemma_group_worsts_ok(g, n - 1);
        lemma_worst_in_range(g, n - 1, g.len() as int);
        if is_root(g, n - 1) {
            lemma_connected_self(g, n - 1);
            lemma_worst_found(g, n - 1, g.len() as int);
            let rest = group_worsts(g, n - 1);
            let b = worst_upto(g, n - 1, g.len() as int).unwrap();
            assert(contact_ok(g[b]));
            assert forall|k: int| 0 <= k < rest.push(g[b]).len() implies contact_ok(#[trigger] rest.push(g[b])[k]) by {
                if k < rest.len() {
                    assert(rest.push(g[b])[k] == rest[k]);
                }
            }
            assert(group_worsts(g, n) == rest.push(g[b]));
        } else {
            assert(group_worsts(g, n) == group_worsts(g, n - 1));
        }
    }
}

/// Every row the contacts are counted into is one of the contacts.
proof fn lemma_places_ok(s: Seq<Contact>, start: int)
    requires
        forall|k: int| 0 <= k < s.len() ==> contact_ok(#[trigger] s[k]),
    ensures
        forall|k: int| 0 <= k < places_from(s, start).len() ==> contact_ok(#[trigger] places_from(s, start)[k]),
    decreases s.len() - start,
{
    if 0 <= start < s.len() {
        let e = run_end(s, start, start + 1);
        if start < e <= s.len() {
            lemma_places_ok(s, e);
            let g = s.subrange(start, e);
            assert forall|k: int| 0 <= k < g.len() implies contact_ok(#[trigger] g[k]) by {
                assert(g[k] == s[start + k]);
            }
            lemma_group_worsts_ok(g, g.len() as int);
            let w = group_worsts(g, g.len() as int);
            let here = group_places(g);
            lemma_sorted_len(w, true);
            assert forall|k: int| 0 <= k < here.len() implies contact_ok(#[trigger] here[k]) by {
                lemma_sorted_keeps(w, true, k);
                let j = choose|j: int| 0 <= j < w.len() && w[j] == here[k];
                assert(contact_ok(w[j]));
            }
            let all = places_from(s, start);
            let rest = places_from(s, e);
            assert(all == here + rest);
            assert forall|k: int| 0 <= k < all.len() implies contact_ok(#[trigger] all[k]) by {
                if k < here.len() {
                    assert(all[k] == here[k]);
                } else {
                    assert(all[k] == rest[k - here.len()]);
                }
            }
        }
    }
}

/// The worst contacts of a group's places are contacts of the group.
proof fn lemma_group_worsts_within(g: Seq<Contact>, n: int)
    requires
        n <= g.len(),
    ensures
        forall|k: int| 0 <= k < group_worsts(g, n).len() ==> g.contains(#[trigger] group_worsts(g, n)[k]),
    decreases n,
{
    if n > 0 {
        lemma_group_worsts_within(g, n - 1);
        lemma_worst_in_range(g, n - 1, g.len() as int);
        if is_root(g, n - 1) {
            lemma_connected_self(g, n - 1);
            lemma_worst_found(g, n - 1, g.len() as int);
            let rest = group_worsts(g, n - 1);
            let b = worst_upto(g, n - 1, g.len() as int).unwrap();
            assert(g.contains(g[b]));
            assert forall|k: int| 0 <= k < rest.push(g[b]).len() implies g.contains(#[trigger] rest.push(g[b])[k]) by {
                if k < rest.len() {
                    assert(rest.push(g[b])[k] == rest[k]);
                }
            }
            assert(group_worsts(g, n) == rest.push(g[b]));
        } else {
            assert(group_worsts(g, n) == group_worsts(g, n - 1));
        }
    }
}

/// Every row the sorted contacts are counted into is one of them.
proof fn lemma_places_from_within(s: Seq<Contact>, start: int)
    ensures
        forall|k: int| 0 <= k < places_from(s, start).len() ==> s.contains(#[trigger] places_from(s, start)[k]),
    decreases s.len() - start,
{
    if 0 <= start < s.len() {
        let e = run_end(s, start, start + 1);
        if start < e <= s.len() {
            lemma_places_from_within(s, e);
            let g = s.subrange(start, e);
            lemma_group_worsts_within(g, g.len() as int);
            let w = group_worsts(g, g.len() as int);
            let here = group_places(g);
            lemma_sorted_len(w, true);
            assert forall|k: int| 0 <= k < here.len() implies s.contains(#[trigger] here[k]) by {
                lemma_sorted_keeps(w, true, k);
                let j = choose|j: int| 0 <= j < w.len() && w[j] == here[k];
                assert(g.contains(w[j]));
                let i = choose|i: int| 0 <= i < g.len() && g[i] == w[j];
                assert(s[start + i] == g[i]);
            }
            let all = places_from(s, start);
            let rest = places_from(s, e);
            assert(all == here + rest);
            assert forall|k: int| 0 <= k < all.len() implies s.contains(#[trigger] all[k]) by {
                if k < here.len() {
                    assert(all[k] == here[k]);
                } else {
                    assert(all[k] == rest[k - here.len()]);
                }
            }
        }
    }
}

/// Every place is one of the contacts found: counting contacts into places
/// picks among them and makes up none.
pub proof fn lemma_places_are_contacts(found: Seq<Contact>)
    ensures
        forall|k: int| 0 <= k < places(found).len() ==> found.contains(#[trigger] places(found)[k]),
{
    let s = sorted(found, false);
    lemma_places_from_within(s, 0);
    assert forall|k: int| 0 <= k < places(found).len() implies found.contains(#[trigger] places(found)[k]) by {
        let c = places(found)[k];
        assert(s.contains(c));
        let i = choose|i: int| 0 <= i < s.len() && s[i] == c;
        lemma_sorted_keeps(found, false, i);
    }
}

/// Two contacts that differ at most in which entities they name.
pub open spec fn same_but_entities(a: Contact, b: Contact) -> bool {
    &&& a.sides == b.sides
    &&& a.at == b.at
    &&& a.distance == b.distance
    &&& a.required == b.required
    &&& a.reach == b.reach
    &&& a.stretch == b.stretch
}

/// Two lists of contacts that differ at most in which entities they name.
pub open spec fn alike(s: Seq<Contact>, t: Seq<Contact>) -> bool {
    s.len() == t.len() && forall|k: int| 0 <= k < s.len() ==> same_but_entities(#[trigger] s[k], t[k])
}

proof fn lemma_alike_drop_last(s: Seq<Contact>, t: Seq<Contact>)
    requires
        alike(s, t),
        s.len() > 0,
    ensures
        alike(s.drop_last(), t.drop_last()),
{
    assert forall|k: int| 0 <= k < s.drop_last().len() implies same_but_entities(#[trigger] s.drop_last()[k], t.drop_last()[k]) by {
        assert(s.drop_last()[k] == s[k] && t.drop_last()[k] == t[k]);
    }
}

proof fn lemma_alike_slot(s: Seq<Contact>, t: Seq<Contact>, c: Contact, d: Contact, by_place: bool)
    requires
        alike(s, t),
        same_but_entities(c, d),
    ensures
        slot(s, c, by_place) == slot(t, d, by_place),
    decreases s.len(),
{
    if s.len() > 0 {
        assert(same_but_entities(s[s.len() - 1], t[t.len() - 1]));
        lemma_alike_drop_last(s, t);
        lemma_alike_slot(s.drop_last(), t.drop_last(), c, d, by_place);
    }
}

proof fn lemma_alike_sorted(s: Seq<Contact>, t: Seq<Contact>, by_place: bool)
    requires
        alike(s, t),
    ensures
        alike(sorted(s, by_place), sorted(t, by_place)),
    decreases s.len(),
{
    if s.len() > 0 {
        lemma_alike_drop_last(s, t);
        lemma_alike_sorted(s.drop_last(), t.drop_last(), by_place);
        let (rs, rt) = (sorted(s.drop_last(), by_place), sorted(t.drop_last(), by_place));
        assert(same_but_entities(s.last(), t.last())) by {
            assert(same_but_entities(s[s.len() - 1], t[t.len() - 1]));
        }
        lemma_alike_slot(rs, rt, s.last(), t.last(), by_place);
        lemma_slot_range(rs, s.last(), by_place);
        let k = slot(rs, s.last(), by_place);
        rs.insert_ensures(k, s.last());
        rt.insert_ensures(k, t.last());
        let (a, b) = (rs.insert(k, s.last()), rt.insert(k, t.last()));
        assert forall|i: int| 0 <= i < a.len() implies same_but_entities(#[trigger] a[i], b[i]) by {
            if i < k {
                assert(same_but_entities(rs[i], rt[i]));
            } else if i > k {
                assert(same_but_entities(rs[i - 1], rt[i - 1]));
            }
        }
    }
}

proof fn lemma_alike_connected(g: Seq<Contact>, h: Seq<Contact>, i: int, j: int)
    requires
        alike(g, h),
        connected(g, i, j),
    ensures
        connected(h, i, j),
{
    let p = choose|p: Seq<int>| #[trigger] is_walk(g, p) && p[0] == i && p.last() == j;
    assert forall|k: int| 0 <= k < p.len() - 1 implies #[trigger] step(h, p, k) by {
        assert(step(g, p, k));
        assert(0 <= p[k] < g.len() && 0 <= p[k + 1] < g.len());
        assert(same_but_entities(g[p[k]], h[p[k]]));
        assert(same_but_entities(g[p[k + 1]], h[p[k + 1]]));
    }
    assert(is_walk(h, p));
}

proof fn lemma_alike_symmetric(s: Seq<Contact>, t: Seq<Contact>)
    requires
        alike(s, t),
    ensures
        alike(t, s),
{
    assert forall|k: int| 0 <= k < t.len() implies same_but_entities(#[trigger] t[k], s[k]) by {
        assert(same_but_entities(s[k], t[k]));
    }
}

proof fn lemma_alike_worst(g: Seq<Contact>, h: Seq<Contact>, r: int, n: int)
    requires
        alike(g, h),
        n <= g.len(),
    ensures
        worst_upto(g, r, n) == worst_upto(h, r, n),
    decreases n,
{
    if n > 0 {
        lemma_alike_worst(g, h, r, n - 1);
        lemma_alike_symmetric(g, h);
        if connected(g, r, n - 1) {
            lemma_alike_connected(g, h, r, n - 1);
        }
        if connected(h, r, n - 1) {
            lemma_alike_connected(h, g, r, n - 1);
        }
        lemma_worst_in_range(g, r, n - 1);
        assert(same_but_entities(g[n - 1], h[n - 1]));
        if let Some(b) = worst_upto(g, r, n - 1) {
            assert(same_but_entities(g[b], h[b]));
        }
    }
}

proof fn lemma_alike_group_worsts(g: Seq<Contact>, h: Seq<Contact>, n: int)
    requires
        alike(g, h),
        n <= g.len(),
    ensures
        alike(group_worsts(g, n), group_worsts(h, n)),
    decreases n,
{
    if n > 0 {
        lemma_alike_group_worsts(g, h, n - 1);
        lemma_alike_symmetric(g, h);
        assert(is_root(g, n - 1) == is_root(h, n - 1)) by {
            assert forall|j: int| 0 <= j < n - 1 && #[trigger] connected(g, j, n - 1) implies connected(h, j, n - 1) by {
                lemma_alike_connected(g, h, j, n - 1);
            }
            assert forall|j: int| 0 <= j < n - 1 && #[trigger] connected(h, j, n - 1) implies connected(g, j, n - 1) by {
                lemma_alike_connected(h, g, j, n - 1);
            }
        }
        if is_root(g, n - 1) {
            lemma_alike_worst(g, h, n - 1, g.len() as int);
            lemma_connected_self(g, n - 1);
            lemma_worst_found(g, n - 1, g.len() as int);
            lemma_worst_in_range(g, n - 1, g.len() as int);
            let b = worst_upto(g, n - 1, g.len() as int).unwrap();
            assert(same_but_entities(g[b], h[b]));
            let (rg, rh) = (group_worsts(g, n - 1), group_worsts(h, n - 1));
            assert forall|k: int| 0 <= k < rg.push(g[b]).len() implies same_but_entities(#[trigger] rg.push(g[b])[k], rh.push(h[b])[k]) by {
                if k < rg.len() {
                    assert(same_but_entities(rg[k], rh[k]));
                }
            }
        }
    }
}

proof fn lemma_alike_run_end(s: Seq<Contact>, t: Seq<Contact>, start: int, e: int)
    requires
        alike(s, t),
        0 <= start < s.len(),
    ensures
        run_end(s, start, e) == run_end(t, start, e),
    decreases s.len() - e,
{
    if 0 <= e < s.len() {
        assert(same_but_entities(s[e], t[e]));
        assert(same_but_entities(s[start], t[start]));
        lemma_alike_run_end(s, t, start, e + 1);
    }
}

proof fn lemma_alike_places_from(s: Seq<Contact>, t: Seq<Contact>, start: int)
    requires
        alike(s, t),
    ensures
        alike(places_from(s, start), places_from(t, start)),
    decreases s.len() - start,
{
    if 0 <= start < s.len() {
        lemma_alike_run_end(s, t, start, start + 1);
        let e = run_end(s, start, start + 1);
        if start < e <= s.len() {
            lemma_alike_places_from(s, t, e);
            let (gs, gt) = (s.subrange(start, e), t.subrange(start, e));
            assert forall|k: int| 0 <= k < gs.len() implies same_but_entities(#[trigger] gs[k], gt[k]) by {
                assert(same_but_entities(s[start + k], t[start + k]));
            }
            lemma_alike_group_worsts(gs, gt, gs.len() as int);
            lemma_alike_sorted(group_worsts(gs, gs.len() as int), group_worsts(gt, gt.len() as int), true);
            let (hs, ht) = (group_places(gs), group_places(gt));
            let (rs, rt) = (places_from(s, e), places_from(t, e));
            assert forall|k: int| 0 <= k < (hs + rs).len() implies same_but_entities(#[trigger] (hs + rs)[k], (ht + rt)[k]) by {
                if k < hs.len() {
                    assert(same_but_entities(hs[k], ht[k]));
                } else {
                    assert(same_but_entities(rs[k - hs.len()], rt[k - hs.len()]));
                }
            }
        }
    }
}

/// **Nothing in the counting reads an entity**: two lists of contacts that
/// differ only in which entities they name - the same copper cut into
/// entities another way - count into the same places, at the same points,
/// with the same gaps.
pub proof fn lemma_places_ignore_entities(f: Seq<Contact>, g: Seq<Contact>)
    requires
        alike(f, g),
    ensures
        alike(places(f), places(g)),
{
    lemma_alike_sorted(f, g, false);
    lemma_alike_places_from(sorted(f, false), sorted(g, false), 0);
}

} // verus!
