//! Openings in the solder mask and the paste stencil, and the web of
//! material the fab has to leave between two of them.
//!
//! Each pad gets a rectangular opening on each face it has copper on. The
//! openings are swept in order of their centre's x, and every opening is
//! measured against every later one: every pair on one face whose web is
//! too thin is reported.
use vstd::prelude::*;

use crate::board::{board_ok, component_ok, pad_centre, pad_ok, Board, Component, PadSite};
use crate::geometry::{half, point_ok, Point};
use crate::presets::length_ok;

verus! {

broadcast use vstd::seq_lib::group_to_multiset_ensures;

/// One pad's opening, as an axis-aligned rectangle.
#[derive(Debug, Clone, Copy, PartialEq, Eq, Structural)]
pub struct Opening {
    /// The part the pad belongs to.
    pub entity: u32,
    /// The centre of the opening on the board.
    pub center: Point,
    /// Half its width along the board's x axis.
    pub half_width: i64,
    /// Half its height along the board's y axis.
    pub half_height: i64,
    /// Whether the opening is on the top face rather than the bottom.
    pub top_side: bool,
}

/// An opening whose numbers the sweep can add up without leaving the
/// carried range.
pub open spec fn opening_ok(o: Opening) -> bool {
    &&& point_ok(o.center)
    &&& -2_000_000_000_000 <= o.half_width <= 2_000_000_000_000
    &&& -2_000_000_000_000 <= o.half_height <= 2_000_000_000_000
}

/// The distance of `v` from zero.
pub open spec fn abs(v: int) -> int {
    if v < 0 {
        -v
    } else {
        v
    }
}

/// The gap between two openings along x: negative where they overlap.
pub open spec fn gap_x(a: Opening, b: Opening) -> int {
    abs(b.center.x - a.center.x) - a.half_width - b.half_width
}

/// The gap between two openings along y: negative where they overlap.
pub open spec fn gap_y(a: Opening, b: Opening) -> int {
    abs(b.center.y - a.center.y) - a.half_height - b.half_height
}

/// The web of material between two openings: two rectangles clear each
/// other along whichever axis separates them, so the wider of the two gaps.
pub open spec fn web(a: Opening, b: Opening) -> int {
    if gap_x(a, b) >= gap_y(a, b) {
        gap_x(a, b)
    } else {
        gap_y(a, b)
    }
}

/// The web as a report prints it: no less than nothing.
pub open spec fn shown_web(a: Opening, b: Opening) -> int {
    if web(a, b) > 0 {
        web(a, b)
    } else {
        0
    }
}

/// Two openings on the same face with less web between them than `min`.
pub open spec fn too_thin(a: Opening, b: Opening, min: i64) -> bool {
    a.top_side == b.top_side && web(a, b) < min
}

/// The pairs the sweep reports, from pair `(i, j)` on: for each opening,
/// every later opening with too thin a web between them.
pub open spec fn thin_webs(os: Seq<Opening>, min: i64, i: int, j: int) -> Seq<(Opening, Opening)>
    decreases os.len() - i, os.len() - j,
{
    if i < 0 || i >= os.len() {
        Seq::empty()
    } else if j >= os.len() || j <= i {
        thin_webs(os, min, i + 1, i + 2)
    } else {
        let rest = thin_webs(os, min, i, j + 1);
        if too_thin(os[i], os[j], min) {
            seq![(os[i], os[j])] + rest
        } else {
            rest
        }
    }
}

/// Every pair the sweep reports is two of the openings, the earlier one
/// first, on the same face with less web between them than `min`.
pub proof fn lemma_thin_webs_sound(os: Seq<Opening>, min: i64, i: int, j: int)
    ensures
        forall|k: int|
            0 <= k < thin_webs(os, min, i, j).len() ==> {
                let pair = #[trigger] thin_webs(os, min, i, j)[k];
                &&& too_thin(pair.0, pair.1, min)
                &&& exists|p: int, q: int|
                    0 <= p < q < os.len() && pair.0 == os[p] && pair.1 == os[q]
            },
    decreases os.len() - i, os.len() - j,
{
    if i < 0 || i >= os.len() {
    } else if j >= os.len() || j <= i {
        lemma_thin_webs_sound(os, min, i + 1, i + 2);
        assert(thin_webs(os, min, i, j) == thin_webs(os, min, i + 1, i + 2));
    } else {
        lemma_thin_webs_sound(os, min, i, j + 1);
        let rest = thin_webs(os, min, i, j + 1);
        let all = thin_webs(os, min, i, j);
        if !too_thin(os[i], os[j], min) {
            assert(all == rest);
        } else {
            assert(all == seq![(os[i], os[j])] + rest);
            assert forall|k: int| 0 <= k < all.len() implies {
                let pair = #[trigger] all[k];
                &&& too_thin(pair.0, pair.1, min)
                &&& exists|p: int, q: int|
                    0 <= p < q < os.len() && pair.0 == os[p] && pair.1 == os[q]
            } by {
                if k == 0 {
                    assert(all[0] == (os[i], os[j]));
                    assert(0 <= i < j < os.len() && all[0].0 == os[i] && all[0].1 == os[j]);
                } else {
                    assert(all[k] == rest[k - 1]);
                }
            }
        }
    }
}

/// From the start of the scan of any earlier opening, the sweep goes on to
/// report everything it reports for opening `p`.
proof fn lemma_thin_webs_reaches(os: Seq<Opening>, min: i64, i: int, j: int, p: int, x: (Opening, Opening))
    requires
        0 <= i < p,
        i < j,
        thin_webs(os, min, p, p + 1).contains(x),
    ensures
        thin_webs(os, min, i, j).contains(x),
    decreases os.len() - i, os.len() - j,
{
    if i >= os.len() {
    } else if j >= os.len() {
        if i + 1 < p {
            lemma_thin_webs_reaches(os, min, i + 1, i + 2, p, x);
        }
    } else {
        lemma_thin_webs_reaches(os, min, i, j + 1, p, x);
        let rest = thin_webs(os, min, i, j + 1);
        if too_thin(os[i], os[j], min) {
            let idx = choose|idx: int| 0 <= idx < rest.len() && rest[idx] == x;
            assert((seq![(os[i], os[j])] + rest)[idx + 1] == x);
        }
    }
}

/// Scanning from opening `j` on for opening `p`, the sweep reports the
/// thin pair `(p, q)`.
proof fn lemma_thin_webs_finds(os: Seq<Opening>, min: i64, p: int, j: int, q: int)
    requires
        0 <= p < j <= q < os.len(),
        too_thin(os[p], os[q], min),
    ensures
        thin_webs(os, min, p, j).contains((os[p], os[q])),
    decreases q - j,
{
    let rest = thin_webs(os, min, p, j + 1);
    if j == q {
        assert((seq![(os[p], os[q])] + rest)[0] == (os[p], os[q]));
    } else {
        lemma_thin_webs_finds(os, min, p, j + 1, q);
        if too_thin(os[p], os[j], min) {
            let idx = choose|idx: int| 0 <= idx < rest.len() && rest[idx] == (os[p], os[q]);
            assert((seq![(os[p], os[j])] + rest)[idx + 1] == (os[p], os[q]));
        }
    }
}

/// **The sweep reports every pair of openings on one face with less web
/// between them than `min`**, the earlier one in sweep order first.
pub proof fn lemma_thin_webs_complete(os: Seq<Opening>, min: i64, p: int, q: int)
    requires
        0 <= p < q < os.len(),
        too_thin(os[p], os[q], min),
    ensures
        thin_webs(os, min, 0, 1).contains((os[p], os[q])),
{
    lemma_thin_webs_finds(os, min, p, p + 1, q);
    if p > 0 {
        lemma_thin_webs_reaches(os, min, 0, 1, p, (os[p], os[q]));
    }
}

/// Sorting keeps every opening the sweep can add up.
pub proof fn lemma_sorted_by_x_ok(s: Seq<Opening>)
    requires
        forall|k: int| 0 <= k < s.len() ==> opening_ok(#[trigger] s[k]),
    ensures
        forall|k: int| 0 <= k < sorted_by_x(s).len() ==> opening_ok(#[trigger] sorted_by_x(s)[k]),
    decreases s.len(),
{
    if s.len() > 0 {
        let r = sorted_by_x(s.drop_last());
        lemma_sorted_by_x_ok(s.drop_last());
        lemma_slot_range(r, s.last());
        let k = slot(r, s.last());
        r.insert_ensures(k, s.last());
        assert forall|t: int| 0 <= t < sorted_by_x(s).len() implies opening_ok(
            #[trigger] sorted_by_x(s)[t],
        ) by {
            if t > k {
                assert(sorted_by_x(s)[t] == r[t - 1]);
            }
        }
    }
}

/// Where `o` goes among `s` in a sort by x that keeps equal keys in the
/// order they came: after the last opening whose x is no greater.
pub open spec fn slot(s: Seq<Opening>, o: Opening) -> int
    decreases s.len(),
{
    if s.len() == 0 {
        0
    } else if s.last().center.x <= o.center.x {
        s.len() as int
    } else {
        slot(s.drop_last(), o)
    }
}

/// `s` sorted by the x of each centre, equal keys kept in the order they
/// came.
pub open spec fn sorted_by_x(s: Seq<Opening>) -> Seq<Opening>
    decreases s.len(),
{
    if s.len() == 0 {
        s
    } else {
        let r = sorted_by_x(s.drop_last());
        r.insert(slot(r, s.last()), s.last())
    }
}

/// The openings are in order of their centre's x.
pub open spec fn ordered_by_x(s: Seq<Opening>) -> bool {
    forall|i: int, j: int| 0 <= i <= j < s.len() ==> s[i].center.x <= s[j].center.x
}

/// A slot is a place among the openings.
pub proof fn lemma_slot_range(s: Seq<Opening>, o: Opening)
    ensures
        0 <= slot(s, o) <= s.len(),
    decreases s.len(),
{
    if s.len() > 0 && s.last().center.x > o.center.x {
        lemma_slot_range(s.drop_last(), o);
    }
}

/// Among openings in x order, the slot parts those no further right than
/// `o` from those further right.
pub proof fn lemma_slot_splits(s: Seq<Opening>, o: Opening)
    requires
        ordered_by_x(s),
    ensures
        forall|t: int| 0 <= t < slot(s, o) ==> s[t].center.x <= o.center.x,
        forall|t: int| slot(s, o) <= t < s.len() ==> s[t].center.x > o.center.x,
    decreases s.len(),
{
    lemma_slot_range(s, o);
    if s.len() > 0 {
        let n = s.len() - 1;
        if s.last().center.x > o.center.x {
            let init = s.drop_last();
            lemma_slot_splits(init, o);
            lemma_slot_range(init, o);
            assert forall|t: int| 0 <= t < slot(s, o) implies s[t].center.x <= o.center.x by {
                assert(s[t] == init[t]);
            }
            assert forall|t: int| slot(s, o) <= t < s.len() implies s[t].center.x
                > o.center.x by {
                if t < n {
                    assert(s[t] == init[t]);
                }
            }
        } else {
            assert forall|t: int| 0 <= t < slot(s, o) implies s[t].center.x <= o.center.x by {
                assert(s[t].center.x <= s[n].center.x);
            }
        }
    }
}

/// Sorting keeps every opening and adds none.
pub proof fn lemma_sorted_by_x_len(s: Seq<Opening>)
    ensures
        sorted_by_x(s).len() == s.len(),
    decreases s.len(),
{
    if s.len() > 0 {
        lemma_sorted_by_x_len(s.drop_last());
        lemma_slot_range(sorted_by_x(s.drop_last()), s.last());
    }
}

/// The sort puts the openings in order of their centre's x.
pub proof fn lemma_sorted_by_x_ordered(s: Seq<Opening>)
    ensures
        ordered_by_x(sorted_by_x(s)),
    decreases s.len(),
{
    if s.len() > 0 {
        let r = sorted_by_x(s.drop_last());
        let o = s.last();
        lemma_sorted_by_x_ordered(s.drop_last());
        lemma_slot_splits(r, o);
        lemma_slot_range(r, o);
        let k = slot(r, o);
        let out = r.insert(k, o);
        r.insert_ensures(k, o);
        assert(out == sorted_by_x(s));
        assert forall|i: int, j: int| 0 <= i <= j < out.len() implies out[i].center.x
            <= out[j].center.x by {
            if i < k {
                if j > k {
                    assert(out[j] == r[j - 1]);
                }
            } else if i > k {
                assert(out[i] == r[i - 1]);
                assert(out[j] == r[j - 1]);
            } else if j > k {
                assert(out[j] == r[j - 1]);
            }
        }
    }
}

/// The sort is a permutation: each opening comes out as often as it went
/// in.
pub proof fn lemma_sorted_by_x_permutes(s: Seq<Opening>)
    ensures
        sorted_by_x(s).to_multiset() == s.to_multiset(),
    decreases s.len(),
{
    broadcast use vstd::seq_lib::to_multiset_insert, vstd::seq_lib::to_multiset_build;

    if s.len() > 0 {
        let r = sorted_by_x(s.drop_last());
        lemma_sorted_by_x_permutes(s.drop_last());
        lemma_sorted_by_x_len(s.drop_last());
        lemma_slot_range(r, s.last());
        assert(s.drop_last().push(s.last()) =~= s);
    }
}

/// A sequence already in x order comes out of the sort as it went in.
pub proof fn lemma_sorted_by_x_keeps_ordered(s: Seq<Opening>)
    requires
        ordered_by_x(s),
    ensures
        sorted_by_x(s) == s,
    decreases s.len(),
{
    if s.len() > 0 {
        let init = s.drop_last();
        assert(ordered_by_x(init));
        lemma_sorted_by_x_keeps_ordered(init);
        assert(slot(init, s.last()) == init.len()) by {
            if init.len() > 0 {
                assert(init.last().center.x <= s.last().center.x);
            }
        }
        assert(init.insert(init.len() as int, s.last()) =~= s);
    }
}

/// Where `o` goes among the openings already sorted.
fn slot_of(v: &Vec<Opening>, o: &Opening) -> (k: usize)
    ensures
        k == slot(v@, *o),
{
    let mut k = v.len();
    proof {
        assert(v@.take(k as int) =~= v@);
    }
    while k > 0 && v[k - 1].center.x > o.center.x
        invariant
            k <= v.len(),
            slot(v@.take(k as int), *o) == slot(v@, *o),
        decreases k,
    {
        proof {
            assert(v@.take(k as int).drop_last() =~= v@.take(k - 1));
        }
        k = k - 1;
    }
    proof {
        if k > 0 {
            assert(v@.take(k as int).last() == v@[k - 1]);
        }
    }
    k
}

/// The openings sorted by the x of their centres, equal keys kept in the
/// order they came.
pub fn sort_by_x(v: &Vec<Opening>) -> (out: Vec<Opening>)
    ensures
        out@ == sorted_by_x(v@),
{
    let mut out: Vec<Opening> = Vec::new();
    let mut i: usize = 0;
    while i < v.len()
        invariant
            i <= v.len(),
            out@ == sorted_by_x(v@.take(i as int)),
        decreases v.len() - i,
    {
        let o = v[i];
        let k = slot_of(&out, &o);
        proof {
            lemma_slot_range(out@, o);
            assert(v@.take(i + 1).drop_last() =~= v@.take(i as int));
        }
        out.insert(k, o);
        i = i + 1;
    }
    proof {
        assert(v@.take(v.len() as int) =~= v@);
    }
    out
}

/// How far an opening grows past its pad on every side: a stencil aperture
/// is the pad itself; a mask opening grows by the pad's own margin where it
/// states one and by the board's where it does not.
pub open spec fn growth(p: PadSite, board_growth: i64, paste: bool) -> int {
    if paste {
        0
    } else {
        match p.mask_margin {
            Some(m) => m as int,
            None => board_growth as int,
        }
    }
}

/// The openings one pad gets: one on each face it has copper on, top first.
/// A stencil has no aperture for a pad with a hole.
pub open spec fn pad_openings(c: Component, p: PadSite, board_growth: i64, paste: bool) -> Seq<
    Opening,
> {
    let (w, h) = if c.quarter_turn {
        (p.height as int, p.width as int)
    } else {
        (p.width as int, p.height as int)
    };
    let g = growth(p, board_growth, paste);
    let face = |top: bool|
        Opening {
            entity: c.entity,
            center: pad_centre(c, p),
            half_width: (half(w) + g) as i64,
            half_height: (half(h) + g) as i64,
            top_side: top,
        };
    if paste && !p.smd {
        Seq::empty()
    } else {
        (if p.top {
            seq![face(true)]
        } else {
            Seq::empty()
        }) + (if p.bottom {
            seq![face(false)]
        } else {
            Seq::empty()
        })
    }
}

/// The openings of a part's pads, pad by pad.
pub open spec fn part_openings(c: Component, ps: Seq<PadSite>, board_growth: i64, paste: bool) -> Seq<
    Opening,
>
    decreases ps.len(),
{
    if ps.len() == 0 {
        Seq::empty()
    } else {
        part_openings(c, ps.drop_last(), board_growth, paste) + pad_openings(
            c,
            ps.last(),
            board_growth,
            paste,
        )
    }
}

/// The openings of every part's pads, part by part in board order.
pub open spec fn board_openings(cs: Seq<Component>, board_growth: i64, paste: bool) -> Seq<Opening>
    decreases cs.len(),
{
    if cs.len() == 0 {
        Seq::empty()
    } else {
        board_openings(cs.drop_last(), board_growth, paste) + part_openings(
            cs.last(),
            cs.last().pads@,
            board_growth,
            paste,
        )
    }
}

/// The openings of one pad, top face first.
fn push_pad_openings(out: &mut Vec<Opening>, c: &Component, p: &PadSite, board_growth: i64, paste: bool)
    requires
        component_ok(*c),
        pad_ok(*p),
        length_ok(board_growth as int),
        forall|k: int| 0 <= k < old(out)@.len() ==> opening_ok(#[trigger] old(out)@[k]),
    ensures
        final(out)@ == old(out)@ + pad_openings(*c, *p, board_growth, paste),
        forall|k: int| 0 <= k < final(out)@.len() ==> opening_ok(#[trigger] final(out)@[k]),
{
    let ghost start = out@;
    if paste && !p.smd {
        proof {
            assert(out@ =~= start + pad_openings(*c, *p, board_growth, paste));
        }
        return;
    }
    let (w, h) = if c.quarter_turn {
        (p.height, p.width)
    } else {
        (p.width, p.height)
    };
    let g: i64 = if paste {
        0
    } else {
        match p.mask_margin {
            Some(m) => m,
            None => board_growth,
        }
    };
    let center = Point { x: c.position.x + p.turned.x, y: c.position.y + p.turned.y };
    let face = Opening {
        entity: c.entity,
        center,
        half_width: w / 2 + g,
        half_height: h / 2 + g,
        top_side: true,
    };
    if p.top {
        out.push(face);
    }
    if p.bottom {
        out.push(
            Opening {
                entity: c.entity,
                center,
                half_width: w / 2 + g,
                half_height: h / 2 + g,
                top_side: false,
            },
        );
    }
    proof {
        assert(out@ =~= start + pad_openings(*c, *p, board_growth, paste));
    }
}

/// Every opening the board's pads get, part by part and pad by pad, top
/// face before bottom.
pub fn openings_of(board: &Board, board_growth: i64, paste: bool) -> (out: Vec<Opening>)
    requires
        board_ok(*board),
        length_ok(board_growth as int),
    ensures
        out@ == board_openings(board.components@, board_growth, paste),
        forall|k: int| 0 <= k < out@.len() ==> opening_ok(#[trigger] out@[k]),
{
    let ghost cs = board.components@;
    let mut out: Vec<Opening> = Vec::new();
    let mut i: usize = 0;
    while i < board.components.len()
        invariant
            i <= cs.len(),
            cs == board.components@,
            board_ok(*board),
            length_ok(board_growth as int),
            out@ == board_openings(cs.take(i as int), board_growth, paste),
            forall|k: int| 0 <= k < out@.len() ==> opening_ok(#[trigger] out@[k]),
        decreases cs.len() - i,
    {
        let c = &board.components[i];
        let ghost done = out@;
        proof {
            assert(component_ok(cs[i as int]));
        }
        let mut j: usize = 0;
        while j < c.pads.len()
            invariant
                j <= c.pads@.len(),
                *c == cs[i as int],
                component_ok(*c),
                length_ok(board_growth as int),
                out@ == done + part_openings(*c, c.pads@.take(j as int), board_growth, paste),
                forall|k: int| 0 <= k < out@.len() ==> opening_ok(#[trigger] out@[k]),
            decreases c.pads@.len() - j,
        {
            proof {
                assert(pad_ok(c.pads@[j as int]));
                assert(c.pads@.take(j + 1).drop_last() =~= c.pads@.take(j as int));
            }
            push_pad_openings(&mut out, c, &c.pads[j], board_growth, paste);
            proof {
                assert(out@ =~= done + part_openings(*c, c.pads@.take(j + 1), board_growth, paste));
            }
            j = j + 1;
        }
        proof {
            assert(c.pads@.take(j as int) =~= c.pads@);
            assert(cs.take(i + 1).drop_last() =~= cs.take(i as int));
        }
        i = i + 1;
    }
    proof {
        assert(cs.take(i as int) =~= cs);
    }
    out
}

/// The web between two openings.
pub fn web_between(a: &Opening, b: &Opening) -> (w: i64)
    requires
        opening_ok(*a),
        opening_ok(*b),
    ensures
        w == web(*a, *b),
{
    let dx = b.center.x - a.center.x;
    let dy = b.center.y - a.center.y;
    let gap_x = (if dx < 0 { -dx } else { dx }) - a.half_width - b.half_width;
    let gap_y = (if dy < 0 { -dy } else { dy }) - a.half_height - b.half_height;
    if gap_x >= gap_y {
        gap_x
    } else {
        gap_y
    }
}

/// Every pair of openings on one face with less web between them than
/// `min`, swept in the order given: each opening against every later one.
pub fn thin_webs_of(os: &Vec<Opening>, min: i64) -> (out: Vec<(Opening, Opening)>)
    requires
        forall|k: int| 0 <= k < os@.len() ==> opening_ok(#[trigger] os@[k]),
        length_ok(min as int),
    ensures
        out@ == thin_webs(os@, min, 0, 1),
{
    let ghost s = os@;
    let ghost total = thin_webs(s, min, 0, 1);
    let mut out: Vec<(Opening, Opening)> = Vec::new();
    let n = os.len();
    let mut i: usize = 0;
    while i < n
        invariant
            n == s.len(),
            s == os@,
            i <= n,
            length_ok(min as int),
            forall|k: int| 0 <= k < s.len() ==> opening_ok(#[trigger] s[k]),
            out@ + thin_webs(s, min, i as int, i + 1) == total,
        decreases n - i,
    {
        let mut j: usize = i + 1;
        while j < n
            invariant
                n == s.len(),
                s == os@,
                i < n,
                i + 1 <= j <= n,
                length_ok(min as int),
                forall|k: int| 0 <= k < s.len() ==> opening_ok(#[trigger] s[k]),
                out@ + thin_webs(s, min, i as int, j as int) == total,
            decreases n - j,
        {
            let a = os[i];
            let b = os[j];
            proof {
                assert(opening_ok(s[i as int]) && opening_ok(s[j as int]));
            }
            let ghost rest = thin_webs(s, min, i as int, j + 1);
            if a.top_side == b.top_side && web_between(&a, &b) < min {
                proof {
                    assert(out@.push((a, b)) + rest =~= out@ + (seq![(a, b)] + rest));
                }
                out.push((a, b));
            }
            j = j + 1;
        }
        i = i + 1;
    }
    out
}

/// The board's openings in sweep order: sorted by the x of their centres,
/// equal keys in board order.
pub fn sorted_openings(board: &Board, board_growth: i64, paste: bool) -> (out: Vec<Opening>)
    requires
        board_ok(*board),
        length_ok(board_growth as int),
    ensures
        out@ == sorted_by_x(board_openings(board.components@, board_growth, paste)),
        forall|k: int| 0 <= k < out@.len() ==> opening_ok(#[trigger] out@[k]),
{
    let openings = openings_of(board, board_growth, paste);
    let sorted = sort_by_x(&openings);
    proof {
        lemma_sorted_by_x_ok(openings@);
    }
    sorted
}

/// The pairs the sweep reports are pairs of openings the sweep can add up.
pub proof fn lemma_thin_webs_ok(os: Seq<Opening>, min: i64)
    requires
        forall|k: int| 0 <= k < os.len() ==> opening_ok(#[trigger] os[k]),
    ensures
        forall|k: int|
            0 <= k < thin_webs(os, min, 0, 1).len() ==> opening_ok(
                (#[trigger] thin_webs(os, min, 0, 1)[k]).0,
            ) && opening_ok(thin_webs(os, min, 0, 1)[k].1),
{
    lemma_thin_webs_sound(os, min, 0, 1);
    assert forall|k: int| 0 <= k < thin_webs(os, min, 0, 1).len() implies opening_ok(
        (#[trigger] thin_webs(os, min, 0, 1)[k]).0,
    ) && opening_ok(thin_webs(os, min, 0, 1)[k].1) by {
        let pair = thin_webs(os, min, 0, 1)[k];
        let (p, q) = choose|p: int, q: int|
            0 <= p < q < os.len() && pair.0 == os[p] && pair.1 == os[q];
        assert(opening_ok(os[p]) && opening_ok(os[q]));
    }
}

} // verus!
