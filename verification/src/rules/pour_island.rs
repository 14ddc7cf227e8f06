//! Checking pour copper that reaches no pad of its own net.
//!
//! A pour is its outline less every obstacle, so a plane crossed by traces
//! comes out in pieces. Pieces that touch, edges included, are one sheet of
//! copper; a sheet that no thermal spoke touches is connected to nothing.
use vstd::prelude::*;

use crate::board::{board_ok, fill_ok, Board, PourFill, Zone, ZoneKind};
use crate::geometry::{mid, point_ok, Rect};
use crate::violation::{DrcViolation, ViolationKind};

verus! {

/// Rule for pour copper that reaches no pad of its own net.
pub struct PourIslandRule;

impl PourIslandRule {
    /// The rule's identifier in reports and filters.
    pub fn name(&self) -> (n: &'static str)
        ensures
            n@ == "pour-island"@,
    {
        "pour-island"
    }
}

/// Two rectangles share copper, their edges included.
pub open spec fn touching(a: Rect, b: Rect) -> bool {
    a.min.x <= b.max.x && b.min.x <= a.max.x && a.min.y <= b.max.y && b.min.y <= a.max.y
}

/// Whether two rectangles share copper, their edges included.
pub fn touches(a: &Rect, b: &Rect) -> (r: bool)
    ensures
        r == touching(*a, *b),
{
    a.min.x <= b.max.x && b.min.x <= a.max.x && a.min.y <= b.max.y && b.min.y <= a.max.y
}

/// One step of a walk across pieces: the piece at position `k` touches the
/// next.
pub open spec fn piece_step(ps: Seq<Rect>, w: Seq<int>, k: int) -> bool {
    touching(ps[w[k]], ps[w[k + 1]])
}

/// `w` is a walk across the pieces `ps`, each touching the next.
pub open spec fn is_piece_walk(ps: Seq<Rect>, w: Seq<int>) -> bool {
    &&& w.len() >= 1
    &&& forall|k: int| 0 <= k < w.len() ==> 0 <= #[trigger] w[k] < ps.len()
    &&& forall|k: int| 0 <= k < w.len() - 1 ==> #[trigger] piece_step(ps, w, k)
}

/// Pieces `i` and `j` are one sheet: a walk of touching pieces leads from
/// one to the other.
pub open spec fn one_sheet(ps: Seq<Rect>, i: int, j: int) -> bool {
    exists|w: Seq<int>| #[trigger] is_piece_walk(ps, w) && w[0] == i && w.last() == j
}

proof fn lemma_sheet_self(ps: Seq<Rect>, i: int)
    requires
        0 <= i < ps.len(),
    ensures
        one_sheet(ps, i, i),
{
    assert(is_piece_walk(ps, seq![i]));
}

proof fn lemma_sheet_prepend(ps: Seq<Rect>, i: int, j: int, t: int)
    requires
        0 <= i < ps.len(),
        touching(ps[i], ps[j]),
        one_sheet(ps, j, t),
    ensures
        one_sheet(ps, i, t),
{
    let w = choose|w: Seq<int>| #[trigger] is_piece_walk(ps, w) && w[0] == j && w.last() == t;
    let q = seq![i] + w;
    assert forall|k: int| 0 <= k < q.len() implies 0 <= #[trigger] q[k] < ps.len() by {
        if k > 0 {
            assert(q[k] == w[k - 1]);
        }
    }
    assert forall|k: int| 0 <= k < q.len() - 1 implies #[trigger] piece_step(ps, q, k) by {
        if k == 0 {
            assert(q[1] == w[0]);
        } else {
            assert(q[k] == w[k - 1] && q[k + 1] == w[k]);
            assert(piece_step(ps, w, k - 1));
        }
    }
    assert(is_piece_walk(ps, q));
    assert(q.last() == t);
}

proof fn lemma_sheet_symmetric(ps: Seq<Rect>, i: int, j: int)
    requires
        one_sheet(ps, i, j),
    ensures
        one_sheet(ps, j, i),
{
    let w = choose|w: Seq<int>| #[trigger] is_piece_walk(ps, w) && w[0] == i && w.last() == j;
    let q = w.reverse();
    assert forall|k: int| 0 <= k < q.len() implies 0 <= #[trigger] q[k] < ps.len() by {
        assert(q[k] == w[w.len() - 1 - k]);
    }
    assert forall|k: int| 0 <= k < q.len() - 1 implies #[trigger] piece_step(ps, q, k) by {
        let m = w.len() - 2 - k;
        assert(q[k] == w[m + 1] && q[k + 1] == w[m]);
        assert(piece_step(ps, w, m));
    }
    assert(is_piece_walk(ps, q));
}

proof fn lemma_sheet_transitive(ps: Seq<Rect>, i: int, m: int, j: int)
    requires
        one_sheet(ps, i, m),
        one_sheet(ps, m, j),
    ensures
        one_sheet(ps, i, j),
{
    let p = choose|w: Seq<int>| #[trigger] is_piece_walk(ps, w) && w[0] == i && w.last() == m;
    let r = choose|w: Seq<int>| #[trigger] is_piece_walk(ps, w) && w[0] == m && w.last() == j;
    let q = p + r.drop_first();
    let n = p.len();
    assert(q.last() == j) by {
        if r.len() > 1 {
            assert(q.last() == r.drop_first().last());
        }
    }
    assert forall|k: int| 0 <= k < q.len() implies 0 <= #[trigger] q[k] < ps.len() by {
        if k >= n {
            assert(q[k] == r[k - n + 1]);
        }
    }
    assert forall|k: int| 0 <= k < q.len() - 1 implies #[trigger] piece_step(ps, q, k) by {
        if k < n - 1 {
            assert(q[k] == p[k] && q[k + 1] == p[k + 1]);
            assert(piece_step(ps, p, k));
        } else if k == n - 1 {
            assert(q[k] == r[0] && q[k + 1] == r[1]);
            assert(piece_step(ps, r, 0));
        } else {
            assert(q[k] == r[k - n + 1] && q[k + 1] == r[k - n + 2]);
            assert(piece_step(ps, r, k - n + 1));
        }
    }
    assert(is_piece_walk(ps, q));
}

/// Each piece labelled with a piece no later than it, of its own sheet.
pub open spec fn sheet_labels_sound(ps: Seq<Rect>, label: Seq<usize>) -> bool {
    &&& label.len() == ps.len()
    &&& forall|x: int| 0 <= x < ps.len() ==> #[trigger] label[x] <= x
    &&& forall|x: int| 0 <= x < ps.len() ==> one_sheet(ps, x, #[trigger] label[x] as int)
}

/// Touching pieces carry the same label.
pub open spec fn sheet_labels_settled(ps: Seq<Rect>, label: Seq<usize>) -> bool {
    forall|a: int, b: int|
        0 <= a < b < ps.len() && touching(ps[a], ps[b]) ==> #[trigger] label[a] == #[trigger] label[b]
}

/// The sum of a sequence of counts.
pub open spec fn label_total(s: Seq<usize>) -> int
    decreases s.len(),
{
    if s.len() == 0 {
        0
    } else {
        label_total(s.drop_last()) + s.last()
    }
}

proof fn lemma_label_total_update(s: Seq<usize>, k: int, v: usize)
    requires
        0 <= k < s.len(),
    ensures
        label_total(s.update(k, v)) == label_total(s) - s[k] + v,
    decreases s.len(),
{
    if k < s.len() - 1 {
        lemma_label_total_update(s.drop_last(), k, v);
        assert(s.update(k, v).drop_last() =~= s.drop_last().update(k, v));
    } else {
        assert(s.update(k, v).drop_last() =~= s.drop_last());
    }
}

proof fn lemma_label_total_nonneg(s: Seq<usize>)
    ensures
        label_total(s) >= 0,
    decreases s.len(),
{
    if s.len() > 0 {
        lemma_label_total_nonneg(s.drop_last());
    }
}

/// Labels each piece with the first piece of its sheet.
fn sheet_labels(ps: &Vec<Rect>) -> (label: Vec<usize>)
    ensures
        sheet_labels_sound(ps@, label@),
        sheet_labels_settled(ps@, label@),
{
    let n = ps.len();
    let mut label: Vec<usize> = Vec::new();
    while label.len() < n
        invariant
            n == ps@.len(),
            label@.len() <= n,
            forall|x: int| 0 <= x < label@.len() ==> #[trigger] label@[x] == x,
        decreases n - label@.len(),
    {
        label.push(label.len());
    }
    proof {
        assert forall|x: int| 0 <= x < ps@.len() implies one_sheet(ps@, x, #[trigger] label@[x] as int) by {
            lemma_sheet_self(ps@, x);
        }
    }
    let mut changed = true;
    while changed
        invariant
            n == ps@.len(),
            sheet_labels_sound(ps@, label@),
            !changed ==> sheet_labels_settled(ps@, label@),
        decreases label_total(label@) + (if changed {
            1int
        } else {
            0int
        }),
    {
        let ghost start = label@;
        changed = false;
        let mut i: usize = 0;
        while i < n
            invariant
                n == ps@.len(),
                sheet_labels_sound(ps@, label@),
                i <= n,
                changed ==> label_total(label@) < label_total(start),
                !changed ==> label@ == start,
                !changed ==> forall|a: int, b: int|
                    0 <= a < i && a < b < n && touching(ps@[a], ps@[b]) ==> #[trigger] label@[a]
                        == #[trigger] label@[b],
            decreases n - i,
        {
            let mut j: usize = i + 1;
            while j < n
                invariant
                    n == ps@.len(),
                    sheet_labels_sound(ps@, label@),
                    i < n,
                    i + 1 <= j <= n,
                    changed ==> label_total(label@) < label_total(start),
                    !changed ==> label@ == start,
                    !changed ==> forall|a: int, b: int|
                        0 <= a < i && a < b < n && touching(ps@[a], ps@[b]) ==> #[trigger] label@[a]
                            == #[trigger] label@[b],
                    !changed ==> forall|b: int|
                        i < b < j && touching(ps@[i as int], ps@[b]) ==> label@[i as int] == #[trigger] label@[b],
                decreases n - j,
            {
                if touches(&ps[i], &ps[j]) && label[i] != label[j] {
                    let li = label[i];
                    let lj = label[j];
                    let ghost before = label@;
                    proof {
                        lemma_label_total_nonneg(before);
                    }
                    if lj < li {
                        proof {
                            lemma_sheet_prepend(ps@, i as int, j as int, lj as int);
                            lemma_label_total_update(before, i as int, lj);
                        }
                        label.set(i, lj);
                    } else {
                        proof {
                            lemma_sheet_prepend(ps@, j as int, i as int, li as int);
                            lemma_label_total_update(before, j as int, li);
                        }
                        label.set(j, li);
                    }
                    changed = true;
                }
                j = j + 1;
            }
            i = i + 1;
        }
        proof {
            lemma_label_total_nonneg(label@);
        }
    }
    label
}

proof fn lemma_sheet_walk_keeps_label(ps: Seq<Rect>, label: Seq<usize>, w: Seq<int>)
    requires
        sheet_labels_sound(ps, label),
        sheet_labels_settled(ps, label),
        is_piece_walk(ps, w),
    ensures
        label[w[0]] == label[w.last()],
    decreases w.len(),
{
    if w.len() > 1 {
        let q = w.drop_last();
        assert forall|k: int| 0 <= k < q.len() - 1 implies #[trigger] piece_step(ps, q, k) by {
            assert(piece_step(ps, w, k));
        }
        assert(is_piece_walk(ps, q));
        lemma_sheet_walk_keeps_label(ps, label, q);
        let (a, b) = (w[w.len() - 2], w[w.len() - 1]);
        assert(piece_step(ps, w, w.len() - 2));
        if a < b {
            assert(label[a] == label[b]);
        } else if b < a {
            assert(touching(ps[b], ps[a]));
            assert(label[b] == label[a]);
        }
    }
}

/// With settled labels, two pieces are one sheet exactly when they carry the
/// same label.
proof fn lemma_sheet_iff_label(ps: Seq<Rect>, label: Seq<usize>, i: int, j: int)
    requires
        sheet_labels_sound(ps, label),
        sheet_labels_settled(ps, label),
        0 <= i < ps.len(),
        0 <= j < ps.len(),
    ensures
        one_sheet(ps, i, j) == (label[i] == label[j]),
{
    if one_sheet(ps, i, j) {
        let w = choose|w: Seq<int>| #[trigger] is_piece_walk(ps, w) && w[0] == i && w.last() == j;
        lemma_sheet_walk_keeps_label(ps, label, w);
    }
    if label[i] == label[j] {
        let l = label[i] as int;
        assert(one_sheet(ps, i, l));
        assert(one_sheet(ps, j, label[j] as int));
        lemma_sheet_symmetric(ps, j, l);
        lemma_sheet_transitive(ps, i, l, j);
    }
}

/// Some spoke touches a piece of the sheet of piece `i`.
pub open spec fn sheet_reached(ps: Seq<Rect>, spokes: Seq<Rect>, i: int) -> bool {
    exists|k: int, s: int|
        0 <= k < ps.len() && 0 <= s < spokes.len() && #[trigger] one_sheet(ps, i, k) && touching(
            #[trigger] spokes[s],
            ps[k],
        )
}

/// Piece `i` is the first of a sheet no spoke reaches.
pub open spec fn first_of_island(ps: Seq<Rect>, spokes: Seq<Rect>, i: int) -> bool {
    &&& 0 <= i < ps.len()
    &&& forall|j: int| 0 <= j < i ==> !#[trigger] one_sheet(ps, j, i)
    &&& !sheet_reached(ps, spokes, i)
}

/// The first piece of every sheet no spoke reaches, among the first `n`
/// pieces, in order.
pub open spec fn islands_upto(ps: Seq<Rect>, spokes: Seq<Rect>, n: int) -> Seq<Rect>
    decreases n,
{
    if n <= 0 {
        Seq::empty()
    } else {
        let rest = islands_upto(ps, spokes, n - 1);
        if first_of_island(ps, spokes, n - 1) {
            rest.push(ps[n - 1])
        } else {
            rest
        }
    }
}

/// Groups the pieces of a pour into sheets of touching copper and returns
/// the sheets no spoke reaches, each as its first piece, in the order of the
/// pieces.
pub fn unconnected_islands(pieces: &Vec<Rect>, spokes: &Vec<Rect>) -> (islands: Vec<Rect>)
    ensures
        islands@ == islands_upto(pieces@, spokes@, pieces@.len() as int),
{
    let n = pieces.len();
    let label = sheet_labels(pieces);
    let mut reached: Vec<bool> = Vec::new();
    while reached.len() < n
        invariant
            n == pieces@.len(),
            reached@.len() <= n,
            forall|r: int| 0 <= r < reached@.len() ==> !#[trigger] reached@[r],
        decreases n - reached@.len(),
    {
        reached.push(false);
    }
    let mut s: usize = 0;
    while s < spokes.len()
        invariant
            n == pieces@.len(),
            reached@.len() == n,
            sheet_labels_sound(pieces@, label@),
            sheet_labels_settled(pieces@, label@),
            s <= spokes@.len(),
            forall|r: int|
                0 <= r < n ==> (#[trigger] reached@[r] <==> exists|k: int, t: int|
                    0 <= k < n && 0 <= t < s && label@[k] == r && touching(spokes@[t], pieces@[k])),
        decreases spokes@.len() - s,
    {
        let mut k: usize = 0;
        while k < n
            invariant
                n == pieces@.len(),
                reached@.len() == n,
                sheet_labels_sound(pieces@, label@),
                s < spokes@.len(),
                k <= n,
                forall|r: int|
                    0 <= r < n ==> (#[trigger] reached@[r] <==> (exists|q: int, t: int|
                        0 <= q < n && 0 <= t < s && label@[q] == r && touching(spokes@[t], pieces@[q]))
                        || exists|q: int| 0 <= q < k && label@[q] == r && touching(spokes@[s as int], pieces@[q])),
            decreases n - k,
        {
            if touches(&spokes[s], &pieces[k]) {
                let r = label[k];
                proof {
                    assert(label@[k as int] < n);
                }
                reached.set(r, true);
            }
            k = k + 1;
        }
        proof {
            assert forall|r: int| 0 <= r < n implies (#[trigger] reached@[r] <==> exists|q: int, t: int|
                0 <= q < n && 0 <= t < s + 1 && label@[q] == r && touching(spokes@[t], pieces@[q])) by {
                if reached@[r] {
                    if exists|q: int| 0 <= q < n && label@[q] == r && touching(spokes@[s as int], pieces@[q]) {
                        let q = choose|q: int| 0 <= q < n && label@[q] == r && touching(spokes@[s as int], pieces@[q]);
                        assert(0 <= q < n && 0 <= s < s + 1 && label@[q] == r && touching(spokes@[s as int], pieces@[q]));
                    }
                }
            }
        }
        s = s + 1;
    }
    let mut islands: Vec<Rect> = Vec::new();
    let mut i: usize = 0;
    while i < n
        invariant
            n == pieces@.len(),
            reached@.len() == n,
            sheet_labels_sound(pieces@, label@),
            sheet_labels_settled(pieces@, label@),
            forall|r: int|
                0 <= r < n ==> (#[trigger] reached@[r] <==> exists|k: int, t: int|
                    0 <= k < n && 0 <= t < spokes@.len() && label@[k] == r && touching(spokes@[t], pieces@[k])),
            i <= n,
            islands@ == islands_upto(pieces@, spokes@, i as int),
        decreases n - i,
    {
        proof {
            lemma_first_iff(pieces@, spokes@, label@, reached@, i as int);
        }
        if label[i] == i && !reached[i] {
            islands.push(pieces[i]);
        }
        i = i + 1;
    }
    islands
}

/// With settled labels and the sheets the spokes reach marked on their
/// labels, a piece is the first of an island exactly when it labels itself
/// and its label is unmarked.
proof fn lemma_first_iff(ps: Seq<Rect>, spokes: Seq<Rect>, label: Seq<usize>, reached: Seq<bool>, i: int)
    requires
        sheet_labels_sound(ps, label),
        sheet_labels_settled(ps, label),
        reached.len() == ps.len(),
        forall|r: int|
            0 <= r < ps.len() ==> (#[trigger] reached[r] <==> exists|k: int, t: int|
                0 <= k < ps.len() && 0 <= t < spokes.len() && label[k] == r && touching(spokes[t], ps[k])),
        0 <= i < ps.len(),
    ensures
        first_of_island(ps, spokes, i) == (label[i] == i && !reached[i]),
{
    let l = label[i] as int;
    assert(one_sheet(ps, i, l));
    if label[i] == i {
        assert forall|j: int| 0 <= j < i implies !#[trigger] one_sheet(ps, j, i) by {
            if one_sheet(ps, j, i) {
                lemma_sheet_iff_label(ps, label, j, i);
                assert(label[j] <= j);
            }
        }
        if reached[i] {
            let (k, t) = choose|k: int, t: int|
                0 <= k < ps.len() && 0 <= t < spokes.len() && label[k] == i && touching(spokes[t], ps[k]);
            lemma_sheet_iff_label(ps, label, i, k);
            assert(one_sheet(ps, i, k) && touching(spokes[t], ps[k]));
            assert(sheet_reached(ps, spokes, i));
        } else {
            if sheet_reached(ps, spokes, i) {
                let (k, t) = choose|k: int, t: int|
                    0 <= k < ps.len() && 0 <= t < spokes.len() && #[trigger] one_sheet(ps, i, k)
                        && touching(#[trigger] spokes[t], ps[k]);
                lemma_sheet_iff_label(ps, label, i, k);
                assert(label[k] == i);
                assert(reached[i]);
            }
        }
    } else {
        lemma_sheet_symmetric(ps, i, l);
        assert(one_sheet(ps, l, i));
        assert(l < i);
    }
}


/// The islands of the first `n` fills that belong to the zone, on layers its
/// mask names and where the fill leaves any copper, each with the zone.
pub open spec fn zone_islands_upto(z: Zone, fs: Seq<PourFill>, n: int) -> Seq<(u32, Rect)>
    decreases n,
{
    if n <= 0 {
        Seq::empty()
    } else {
        let rest = zone_islands_upto(z, fs, n - 1);
        let f = fs[n - 1];
        if f.zone != z.entity || z.layer_mask & f.layer_mask == 0 || f.pieces@.len() == 0 {
            rest
        } else {
            rest + islands_upto(f.pieces@, f.spokes@, f.pieces@.len() as int).map_values(
                |r: Rect| (z.entity, r),
            )
        }
    }
}

/// The islands of the first `n` zones that are copper pours, zone by zone.
pub open spec fn pour_islands_upto(b: Board, n: int) -> Seq<(u32, Rect)>
    decreases n,
{
    if n <= 0 {
        Seq::empty()
    } else {
        let rest = pour_islands_upto(b, n - 1);
        let z = b.zones@[n - 1];
        if z.kind == ZoneKind::CopperPour {
            rest + zone_islands_upto(z, b.pour_fills@, b.pour_fills@.len() as int)
        } else {
            rest
        }
    }
}

/// `r` reports the copper `area` of the pour `zone` as reaching nothing.
pub open spec fn reports_island(r: DrcViolation, zone: u32, area: Rect) -> bool {
    &&& r.kind == ViolationKind::PourIsland
    &&& r.entity == zone
    &&& r.other_entity.is_none()
    &&& r.actual.is_none()
    &&& r.required.is_none()
    &&& r.area == Some(area)
    &&& r.location == mid(area.min, area.max)
    &&& r.source_span.is_none()
    &&& r.message@ == "Pour island: this copper reaches no pad of its own net"@
}

/// What the rule finds on a board: for each copper pour, on each layer it is
/// filled on that its mask names, one report per sheet of its copper no
/// spoke reaches, placed on the sheet's first piece.
pub open spec fn found_by_pour_island(board: Board, out: Seq<DrcViolation>) -> bool {
    let found = pour_islands_upto(board, board.zones@.len() as int);
    &&& out.len() == found.len()
    &&& forall|k: int| 0 <= k < out.len() ==> reports_island(#[trigger] out[k], found[k].0, found[k].1)
}

/// Islands of `islands_upto` are pieces of the fill.
proof fn lemma_islands_are_pieces(ps: Seq<Rect>, spokes: Seq<Rect>, n: int)
    requires
        n <= ps.len(),
    ensures
        forall|k: int|
            0 <= k < islands_upto(ps, spokes, n).len() ==> ps.contains(#[trigger] islands_upto(ps, spokes, n)[k]),
    decreases n,
{
    if n > 0 {
        lemma_islands_are_pieces(ps, spokes, n - 1);
        let rest = islands_upto(ps, spokes, n - 1);
        if first_of_island(ps, spokes, n - 1) {
            assert forall|k: int| 0 <= k < rest.push(ps[n - 1]).len() implies ps.contains(
                #[trigger] rest.push(ps[n - 1])[k],
            ) by {
                if k < rest.len() {
                    assert(rest.push(ps[n - 1])[k] == rest[k]);
                } else {
                    assert(rest.push(ps[n - 1])[k] == ps[n - 1]);
                }
            }
        }
    }
}

/// The reports of the islands of one fill of a pour.
fn report_islands(zone: u32, f: &PourFill) -> (out: Vec<DrcViolation>)
    requires
        fill_ok(*f),
    ensures
        out@.len() == islands_upto(f.pieces@, f.spokes@, f.pieces@.len() as int).len(),
        forall|k: int|
            0 <= k < out@.len() ==> reports_island(
                #[trigger] out@[k],
                zone,
                islands_upto(f.pieces@, f.spokes@, f.pieces@.len() as int)[k],
            ),
{
    let islands = unconnected_islands(&f.pieces, &f.spokes);
    let ghost all = islands@;
    proof {
        lemma_islands_are_pieces(f.pieces@, f.spokes@, f.pieces@.len() as int);
    }
    let mut out: Vec<DrcViolation> = Vec::new();
    let mut k: usize = 0;
    while k < islands.len()
        invariant
            fill_ok(*f),
            all == islands@,
            all == islands_upto(f.pieces@, f.spokes@, f.pieces@.len() as int),
            forall|j: int| 0 <= j < all.len() ==> f.pieces@.contains(#[trigger] all[j]),
            k <= all.len(),
            out@.len() == k,
            forall|j: int| 0 <= j < k ==> reports_island(#[trigger] out@[j], zone, all[j]),
        decreases all.len() - k,
    {
        let area = islands[k];
        proof {
            assert(f.pieces@.contains(all[k as int]));
            let p = choose|p: int| 0 <= p < f.pieces@.len() && f.pieces@[p] == all[k as int];
            assert(point_ok(f.pieces@[p].min) && point_ok(f.pieces@[p].max));
        }
        out.push(DrcViolation::pour_island(zone, area));
        k = k + 1;
    }
    out
}

impl PourIslandRule {
    /// For each copper pour, zone by zone, and each fill of it on a layer
    /// its mask names that leaves any copper: one report per sheet of that
    /// copper no thermal spoke reaches, placed on the sheet's first piece.
    pub fn check(&self, board: &Board) -> (out: Vec<DrcViolation>)
        requires
            board_ok(*board),
        ensures
            found_by_pour_island(*board, out@),
    {
        let ghost fs = board.pour_fills@;
        let mut out: Vec<DrcViolation> = Vec::new();
        let mut i: usize = 0;
        while i < board.zones.len()
            invariant
                board_ok(*board),
                fs == board.pour_fills@,
                i <= board.zones@.len(),
                out@.len() == pour_islands_upto(*board, i as int).len(),
                forall|k: int|
                    0 <= k < out@.len() ==> reports_island(
                        #[trigger] out@[k],
                        pour_islands_upto(*board, i as int)[k].0,
                        pour_islands_upto(*board, i as int)[k].1,
                    ),
            decreases board.zones@.len() - i,
        {
            let z = &board.zones[i];
            if z.is_copper_pour() {
                let ghost before = pour_islands_upto(*board, i as int);
                let mut j: usize = 0;
                while j < board.pour_fills.len()
                    invariant
                        board_ok(*board),
                        fs == board.pour_fills@,
                        *z == board.zones@[i as int],
                        j <= fs.len(),
                        out@.len() == (before + zone_islands_upto(*z, fs, j as int)).len(),
                        forall|k: int|
                            0 <= k < out@.len() ==> reports_island(
                                #[trigger] out@[k],
                                (before + zone_islands_upto(*z, fs, j as int))[k].0,
                                (before + zone_islands_upto(*z, fs, j as int))[k].1,
                            ),
                    decreases fs.len() - j,
                {
                    let f = &board.pour_fills[j];
                    proof {
                        assert(fill_ok(fs[j as int]));
                    }
                    if f.zone == z.entity && z.layer_mask & f.layer_mask != 0 && f.pieces.len() > 0 {
                        let mut found = report_islands(z.entity, f);
                        let ghost got = found@;
                        let ghost prior = out@;
                        let ghost added = islands_upto(f.pieces@, f.spokes@, f.pieces@.len() as int).map_values(
                            |r: Rect| (z.entity, r),
                        );
                        out.append(&mut found);
                        proof {
                            let whole = before + zone_islands_upto(*z, fs, j + 1);
                            assert(whole =~= (before + zone_islands_upto(*z, fs, j as int)) + added);
                            assert forall|k: int| 0 <= k < out@.len() implies reports_island(
                                #[trigger] out@[k],
                                whole[k].0,
                                whole[k].1,
                            ) by {
                                if k < prior.len() {
                                    assert(out@[k] == prior[k]);
                                } else {
                                    assert(out@[k] == got[k - prior.len()]);
                                }
                            }
                        }
                    }
                    j = j + 1;
                }
            }
            i = i + 1;
        }
        out
    }
}

/// The positions of the first piece of every sheet no spoke reaches, among
/// the first `n` pieces, in order.
pub open spec fn island_firsts(ps: Seq<Rect>, spokes: Seq<Rect>, n: int) -> Seq<int>
    decreases n,
{
    if n <= 0 {
        Seq::empty()
    } else {
        let rest = island_firsts(ps, spokes, n - 1);
        if first_of_island(ps, spokes, n - 1) {
            rest.push(n - 1)
        } else {
            rest
        }
    }
}

proof fn lemma_island_firsts(ps: Seq<Rect>, spokes: Seq<Rect>, n: int)
    requires
        0 <= n <= ps.len(),
    ensures
        islands_upto(ps, spokes, n) == island_firsts(ps, spokes, n).map_values(|j: int| ps[j]),
        forall|k: int|
            0 <= k < island_firsts(ps, spokes, n).len() ==> 0 <= #[trigger] island_firsts(ps, spokes, n)[k] < n
                && first_of_island(ps, spokes, island_firsts(ps, spokes, n)[k]),
        forall|a: int, b: int|
            0 <= a < b < island_firsts(ps, spokes, n).len() ==> #[trigger] island_firsts(ps, spokes, n)[a]
                < #[trigger] island_firsts(ps, spokes, n)[b],
        forall|j: int| 0 <= j < n && first_of_island(ps, spokes, j) ==> island_firsts(ps, spokes, n).contains(j),
    decreases n,
{
    if n > 0 {
        lemma_island_firsts(ps, spokes, n - 1);
        let rest = island_firsts(ps, spokes, n - 1);
        if first_of_island(ps, spokes, n - 1) {
            let f = rest.push(n - 1);
            assert(islands_upto(ps, spokes, n) =~= f.map_values(|j: int| ps[j]));
            assert forall|j: int| 0 <= j < n && first_of_island(ps, spokes, j) implies f.contains(j) by {
                if j < n - 1 {
                    let k = choose|k: int| 0 <= k < rest.len() && rest[k] == j;
                    assert(f[k] == j);
                } else {
                    assert(f[rest.len() as int] == j);
                }
            }
        } else {
            assert forall|j: int| 0 <= j < n && first_of_island(ps, spokes, j) implies rest.contains(j) by {
                if j == n - 1 {
                    assert(false);
                }
            }
        }
    }
}

/// A sheet a spoke reaches is reached from every piece of it.
proof fn lemma_reach_carries(ps: Seq<Rect>, spokes: Seq<Rect>, a: int, b: int)
    requires
        one_sheet(ps, a, b),
        sheet_reached(ps, spokes, b),
    ensures
        sheet_reached(ps, spokes, a),
{
    let (k, t) = choose|k: int, t: int|
        0 <= k < ps.len() && 0 <= t < spokes.len() && #[trigger] one_sheet(ps, b, k) && touching(
            #[trigger] spokes[t],
            ps[k],
        );
    lemma_sheet_transitive(ps, a, b, k);
    assert(one_sheet(ps, a, k) && touching(spokes[t], ps[k]));
}

/// The first piece, from position `j` on, of the sheet of piece `i`, given
/// that none before `j` is of it.
proof fn lemma_least_of_sheet(ps: Seq<Rect>, i: int, j: int) -> (m: int)
    requires
        0 <= j <= i < ps.len(),
        forall|q: int| 0 <= q < j ==> !#[trigger] one_sheet(ps, q, i),
    ensures
        0 <= m <= i,
        one_sheet(ps, m, i),
        forall|q: int| 0 <= q < m ==> !#[trigger] one_sheet(ps, q, i),
    decreases i - j,
{
    if one_sheet(ps, j, i) {
        j
    } else {
        if j == i {
            lemma_sheet_self(ps, i);
        }
        lemma_least_of_sheet(ps, i, j + 1)
    }
}

/// Each sheet of a pour's copper that no thermal spoke reaches is reported
/// exactly once, at its first piece, and no sheet a spoke reaches is
/// reported at all: the reports are the first pieces of the unreached
/// sheets, in order.
pub proof fn lemma_each_island_reported_once(ps: Seq<Rect>, spokes: Seq<Rect>, i: int)
    requires
        0 <= i < ps.len(),
    ensures
        islands_upto(ps, spokes, ps.len() as int) == island_firsts(ps, spokes, ps.len() as int).map_values(
            |j: int| ps[j],
        ),
        !sheet_reached(ps, spokes, i) ==> exists|k: int|
            #![trigger island_firsts(ps, spokes, ps.len() as int)[k]]
            0 <= k < island_firsts(ps, spokes, ps.len() as int).len() && one_sheet(
                ps,
                island_firsts(ps, spokes, ps.len() as int)[k],
                i,
            ) && forall|k2: int|
                0 <= k2 < island_firsts(ps, spokes, ps.len() as int).len() && one_sheet(
                    ps,
                    #[trigger] island_firsts(ps, spokes, ps.len() as int)[k2],
                    i,
                ) ==> k2 == k,
        sheet_reached(ps, spokes, i) ==> forall|k: int|
            0 <= k < island_firsts(ps, spokes, ps.len() as int).len() ==> !one_sheet(
                ps,
                #[trigger] island_firsts(ps, spokes, ps.len() as int)[k],
                i,
            ),
{
    let n = ps.len() as int;
    lemma_island_firsts(ps, spokes, n);
    let f = island_firsts(ps, spokes, n);
    if sheet_reached(ps, spokes, i) {
        assert forall|k: int| 0 <= k < f.len() implies !one_sheet(ps, #[trigger] f[k], i) by {
            if one_sheet(ps, f[k], i) {
                lemma_reach_carries(ps, spokes, f[k], i);
            }
        }
    } else {
        let m = lemma_least_of_sheet(ps, i, 0);
        assert(first_of_island(ps, spokes, m)) by {
            assert forall|q: int| 0 <= q < m implies !#[trigger] one_sheet(ps, q, m) by {
                if one_sheet(ps, q, m) {
                    lemma_sheet_transitive(ps, q, m, i);
                }
            }
            if sheet_reached(ps, spokes, m) {
                lemma_sheet_symmetric(ps, m, i);
                lemma_reach_carries(ps, spokes, i, m);
            }
        }
        assert(f.contains(m));
        let k = choose|k: int| 0 <= k < f.len() && f[k] == m;
        assert forall|k2: int| 0 <= k2 < f.len() && one_sheet(ps, #[trigger] f[k2], i) implies k2 == k by {
            let j2 = f[k2];
            assert(first_of_island(ps, spokes, j2));
            if j2 < m {
                assert(!one_sheet(ps, j2, i));
            } else if j2 > m {
                lemma_sheet_symmetric(ps, j2, i);
                lemma_sheet_transitive(ps, m, i, j2);
                assert(!one_sheet(ps, m, j2));
            }
            if k2 < k {
                assert(f[k2] < f[k]);
            } else if k2 > k {
                assert(f[k] < f[k2]);
            }
        }
        assert(0 <= k < f.len() && one_sheet(ps, f[k], i));
    }
}

} // verus!
