//! What a design rule check finds, and how it says so.
use vstd::prelude::*;
use vstd::string::StrSliceExecFns;

use crate::geometry::{mid, midpoint, point_ok, Point, Rect};
use crate::text::{decimal, decimal_text, mm, mm_text};

verus! {

/// Categories of design rule violations.
#[derive(Debug, Clone, Copy, PartialEq, Eq, Structural)]
pub enum ViolationKind {
    /// Clearance between two copper features is too small.
    Clearance,
    /// Trace width is below minimum.
    TraceWidth,
    /// Drill hole size is below minimum.
    DrillSize,
    /// Pin has no net connection.
    UnconnectedPin,
    /// Via drill is below minimum.
    ViaDrill,
    /// Via outer diameter is below minimum.
    ViaDiameter,
    /// Annular ring is below minimum.
    AnnularRing,
    /// Component placed in a keepout zone.
    KeepoutViolation,
    /// Copper feature too close to board edge.
    EdgeClearance,
    /// Drill holes too close together (edge-to-edge).
    HoleToHole,
    /// Solder mask bridge between pads too narrow.
    SolderMaskBridge,
    /// Silkscreen overlaps copper pad.
    SilkClearance,
    /// Trace is too narrow for the current its net declares.
    TraceCurrent,
    /// A net stated an impedance the stack does not deliver, or one this stack cannot be asked about at all.
    Impedance,
    /// A declared neck that does not describe a neck.
    NeckDown,
    /// Copper in a pour that reaches no pad of its own net.
    PourIsland,
    /// A pin the design connects to a net that no copper reaches.
    UnroutedPin,
    /// A claim the design makes about itself does not hold.
    Assertion,
    /// Component courtyards overlap.
    CourtyardClearance,
    /// The two halves of a differential pair are not the same length.
    DiffPairSkew,
    /// A declared stackup contradicts the rest of the design.
    Stackup,
    /// Two paste stencil openings leave a web too thin to hold.
    PasteClearance,
    /// A drilled hole sits too close to the routed board edge.
    HoleToEdge,
    /// A hole too deep for its width for the plating to reach the middle.
    DrillAspectRatio,
    /// Another net's copper too close to a milled slot.
    SlotClearance,
    /// The land around a drilled hole is smaller than the fab will image.
    PadLand,
    /// A via joins two layers by a route the build does not make.
    ViaSpan,
    /// A drilled hole sits where the board bends.
    FlexHole,
    /// A declared area has no width, no height, or neither.
    EmptyArea,
    /// A declared area hangs off the board, or sits nowhere near it.
    AreaOffBoard,
    /// Two areas the stack states a build for cover the same strip of board.
    AreaOverlap,
    /// A flexible region is folded tighter than its own thickness takes.
    BendRadius,
    /// Copper in a bend runs along the fold rather than across it.
    FlexTraceAngle,
}

impl ViolationKind {
    /// The kind as the report writes it.
    pub open spec fn text(self) -> Seq<char> {
        match self {
            ViolationKind::Clearance => "clearance"@,
            ViolationKind::TraceWidth => "trace-width"@,
            ViolationKind::DrillSize => "drill-size"@,
            ViolationKind::UnconnectedPin => "unconnected-pin"@,
            ViolationKind::ViaDrill => "via-drill"@,
            ViolationKind::ViaDiameter => "via-diameter"@,
            ViolationKind::AnnularRing => "annular-ring"@,
            ViolationKind::KeepoutViolation => "keepout-violation"@,
            ViolationKind::EdgeClearance => "edge-clearance"@,
            ViolationKind::HoleToHole => "hole-to-hole"@,
            ViolationKind::SolderMaskBridge => "solder-mask-bridge"@,
            ViolationKind::SilkClearance => "silk-clearance"@,
            ViolationKind::TraceCurrent => "trace-current"@,
            ViolationKind::Impedance => "impedance"@,
            ViolationKind::NeckDown => "neck-down"@,
            ViolationKind::PourIsland => "pour-island"@,
            ViolationKind::UnroutedPin => "unrouted-pin"@,
            ViolationKind::Assertion => "assertion"@,
            ViolationKind::CourtyardClearance => "courtyard-clearance"@,
            ViolationKind::DiffPairSkew => "diff-pair-skew"@,
            ViolationKind::Stackup => "stackup"@,
            ViolationKind::PasteClearance => "paste-clearance"@,
            ViolationKind::HoleToEdge => "hole-to-edge"@,
            ViolationKind::DrillAspectRatio => "drill-aspect-ratio"@,
            ViolationKind::SlotClearance => "slot-clearance"@,
            ViolationKind::PadLand => "pad-land"@,
            ViolationKind::ViaSpan => "via-span"@,
            ViolationKind::FlexHole => "flex-hole"@,
            ViolationKind::EmptyArea => "empty-area"@,
            ViolationKind::AreaOffBoard => "area-off-board"@,
            ViolationKind::AreaOverlap => "area-overlap"@,
            ViolationKind::BendRadius => "bend-radius"@,
            ViolationKind::FlexTraceAngle => "flex-trace-angle"@,
        }
    }

    /// Where the kind sorts in a report: the order the kinds are declared in.
    pub open spec fn rank(self) -> int {
        match self {
            ViolationKind::Clearance => 0,
            ViolationKind::TraceWidth => 1,
            ViolationKind::DrillSize => 2,
            ViolationKind::UnconnectedPin => 3,
            ViolationKind::ViaDrill => 4,
            ViolationKind::ViaDiameter => 5,
            ViolationKind::AnnularRing => 6,
            ViolationKind::KeepoutViolation => 7,
            ViolationKind::EdgeClearance => 8,
            ViolationKind::HoleToHole => 9,
            ViolationKind::SolderMaskBridge => 10,
            ViolationKind::SilkClearance => 11,
            ViolationKind::TraceCurrent => 12,
            ViolationKind::Impedance => 13,
            ViolationKind::NeckDown => 14,
            ViolationKind::PourIsland => 15,
            ViolationKind::UnroutedPin => 16,
            ViolationKind::Assertion => 17,
            ViolationKind::CourtyardClearance => 18,
            ViolationKind::DiffPairSkew => 19,
            ViolationKind::Stackup => 20,
            ViolationKind::PasteClearance => 21,
            ViolationKind::HoleToEdge => 22,
            ViolationKind::DrillAspectRatio => 23,
            ViolationKind::SlotClearance => 24,
            ViolationKind::PadLand => 25,
            ViolationKind::ViaSpan => 26,
            ViolationKind::FlexHole => 27,
            ViolationKind::EmptyArea => 28,
            ViolationKind::AreaOffBoard => 29,
            ViolationKind::AreaOverlap => 30,
            ViolationKind::BendRadius => 31,
            ViolationKind::FlexTraceAngle => 32,
        }
    }

    /// The kind as the report writes it, such as `clearance`.
    pub fn to_string(&self) -> (s: String)
        ensures
            s@ == self.text(),
    {
        match self {
            ViolationKind::Clearance => String::from_str("clearance"),
            ViolationKind::TraceWidth => String::from_str("trace-width"),
            ViolationKind::DrillSize => String::from_str("drill-size"),
            ViolationKind::UnconnectedPin => String::from_str("unconnected-pin"),
            ViolationKind::ViaDrill => String::from_str("via-drill"),
            ViolationKind::ViaDiameter => String::from_str("via-diameter"),
            ViolationKind::AnnularRing => String::from_str("annular-ring"),
            ViolationKind::KeepoutViolation => String::from_str("keepout-violation"),
            ViolationKind::EdgeClearance => String::from_str("edge-clearance"),
            ViolationKind::HoleToHole => String::from_str("hole-to-hole"),
            ViolationKind::SolderMaskBridge => String::from_str("solder-mask-bridge"),
            ViolationKind::SilkClearance => String::from_str("silk-clearance"),
            ViolationKind::TraceCurrent => String::from_str("trace-current"),
            ViolationKind::Impedance => String::from_str("impedance"),
            ViolationKind::NeckDown => String::from_str("neck-down"),
            ViolationKind::PourIsland => String::from_str("pour-island"),
            ViolationKind::UnroutedPin => String::from_str("unrouted-pin"),
            ViolationKind::Assertion => String::from_str("assertion"),
            ViolationKind::CourtyardClearance => String::from_str("courtyard-clearance"),
            ViolationKind::DiffPairSkew => String::from_str("diff-pair-skew"),
            ViolationKind::Stackup => String::from_str("stackup"),
            ViolationKind::PasteClearance => String::from_str("paste-clearance"),
            ViolationKind::HoleToEdge => String::from_str("hole-to-edge"),
            ViolationKind::DrillAspectRatio => String::from_str("drill-aspect-ratio"),
            ViolationKind::SlotClearance => String::from_str("slot-clearance"),
            ViolationKind::PadLand => String::from_str("pad-land"),
            ViolationKind::ViaSpan => String::from_str("via-span"),
            ViolationKind::FlexHole => String::from_str("flex-hole"),
            ViolationKind::EmptyArea => String::from_str("empty-area"),
            ViolationKind::AreaOffBoard => String::from_str("area-off-board"),
            ViolationKind::AreaOverlap => String::from_str("area-overlap"),
            ViolationKind::BendRadius => String::from_str("bend-radius"),
            ViolationKind::FlexTraceAngle => String::from_str("flex-trace-angle"),
        }
    }

    /// Where the kind sorts in a report.
    pub fn code(&self) -> (c: u8)
        ensures
            c as int == self.rank(),
    {
        match self {
            ViolationKind::Clearance => 0,
            ViolationKind::TraceWidth => 1,
            ViolationKind::DrillSize => 2,
            ViolationKind::UnconnectedPin => 3,
            ViolationKind::ViaDrill => 4,
            ViolationKind::ViaDiameter => 5,
            ViolationKind::AnnularRing => 6,
            ViolationKind::KeepoutViolation => 7,
            ViolationKind::EdgeClearance => 8,
            ViolationKind::HoleToHole => 9,
            ViolationKind::SolderMaskBridge => 10,
            ViolationKind::SilkClearance => 11,
            ViolationKind::TraceCurrent => 12,
            ViolationKind::Impedance => 13,
            ViolationKind::NeckDown => 14,
            ViolationKind::PourIsland => 15,
            ViolationKind::UnroutedPin => 16,
            ViolationKind::Assertion => 17,
            ViolationKind::CourtyardClearance => 18,
            ViolationKind::DiffPairSkew => 19,
            ViolationKind::Stackup => 20,
            ViolationKind::PasteClearance => 21,
            ViolationKind::HoleToEdge => 22,
            ViolationKind::DrillAspectRatio => 23,
            ViolationKind::SlotClearance => 24,
            ViolationKind::PadLand => 25,
            ViolationKind::ViaSpan => 26,
            ViolationKind::FlexHole => 27,
            ViolationKind::EmptyArea => 28,
            ViolationKind::AreaOffBoard => 29,
            ViolationKind::AreaOverlap => 30,
            ViolationKind::BendRadius => 31,
            ViolationKind::FlexTraceAngle => 32,
        }
    }
}

/// Where in the design source a violation comes from: a byte range.
#[derive(Debug, Clone, Copy, PartialEq, Eq, Structural)]
pub struct SourceSpan {
    /// First byte.
    pub start: usize,
    /// One past the last byte.
    pub end: usize,
}

/// `c` is white space, as `char::is_whitespace` documents it: the
/// characters Unicode gives the `White_Space` property.
pub open spec fn is_ws(c: char) -> bool {
    let u = c as u32;
    (9 <= u <= 13) || u == 32 || u == 0x85 || u == 0xA0 || u == 0x1680 || (0x2000 <= u <= 0x200A)
        || u == 0x2028 || u == 0x2029 || u == 0x202F || u == 0x205F || u == 0x3000
}

/// Whether `c` is white space.
pub fn is_whitespace(c: char) -> (b: bool)
    ensures
        b == is_ws(c),
{
    let u = c as u32;
    (9 <= u && u <= 13) || u == 32 || u == 0x85 || u == 0xA0 || u == 0x1680 || (0x2000 <= u && u
        <= 0x200A) || u == 0x2028 || u == 0x2029 || u == 0x202F || u == 0x205F || u == 0x3000
}

/// Where the first colon of `s` is, or the length of `s` when it has none.
pub open spec fn first_colon(s: Seq<char>) -> int
    decreases s.len(),
{
    if s.len() == 0 {
        0
    } else if s[0] == ':' {
        0
    } else {
        1 + first_colon(s.drop_first())
    }
}

/// How many white space characters `s` starts with.
pub open spec fn leading_ws(s: Seq<char>) -> int
    decreases s.len(),
{
    if s.len() == 0 {
        0
    } else if is_ws(s[0]) {
        1 + leading_ws(s.drop_first())
    } else {
        0
    }
}

/// How many white space characters `s` ends with.
pub open spec fn trailing_ws(s: Seq<char>) -> int
    decreases s.len(),
{
    if s.len() == 0 {
        0
    } else if is_ws(s.last()) {
        1 + trailing_ws(s.drop_last())
    } else {
        0
    }
}

/// `s` with the white space at both ends taken off.
pub open spec fn trimmed(s: Seq<char>) -> Seq<char> {
    let lo = leading_ws(s);
    if lo == s.len() {
        Seq::empty()
    } else {
        s.subrange(lo, s.len() - trailing_ws(s))
    }
}

/// The pair of features a message names: the message up to its first
/// colon, trimmed, or the whole message where it has no colon.
pub open spec fn pair_text(s: Seq<char>) -> Seq<char> {
    let i = first_colon(s);
    if i == s.len() {
        s
    } else {
        trimmed(s.subrange(0, i))
    }
}

proof fn lemma_first_colon(s: Seq<char>, i: int)
    requires
        0 <= i <= s.len(),
        forall|j: int| 0 <= j < i ==> s[j] != ':',
        i < s.len() ==> s[i] == ':',
    ensures
        first_colon(s) == i,
    decreases i,
{
    if i > 0 {
        let rest = s.drop_first();
        assert forall|j: int| 0 <= j < i - 1 implies rest[j] != ':' by {
            assert(rest[j] == s[j + 1]);
        }
        lemma_first_colon(rest, i - 1);
    }
}

proof fn lemma_leading_ws(s: Seq<char>, lo: int)
    requires
        0 <= lo <= s.len(),
        forall|k: int| 0 <= k < lo ==> is_ws(s[k]),
        lo < s.len() ==> !is_ws(s[lo]),
    ensures
        leading_ws(s) == lo,
    decreases lo,
{
    if lo > 0 {
        let rest = s.drop_first();
        assert forall|k: int| 0 <= k < lo - 1 implies is_ws(rest[k]) by {
            assert(rest[k] == s[k + 1]);
        }
        lemma_leading_ws(rest, lo - 1);
    }
}

proof fn lemma_trailing_ws(s: Seq<char>, hi: int)
    requires
        0 <= hi <= s.len(),
        forall|k: int| hi <= k < s.len() ==> is_ws(s[k]),
        hi > 0 ==> !is_ws(s[hi - 1]),
    ensures
        trailing_ws(s) == s.len() - hi,
    decreases s.len() - hi,
{
    if hi < s.len() {
        let rest = s.drop_last();
        lemma_trailing_ws(rest, hi);
    }
}

/// The two features a clearance message is about.
///
/// `U1 <-> trace 'GND': Clearance violation: ...` - everything before the
/// first colon names the pair, and it is the same string however many
/// segments of the same two features report it.
pub fn pair_of(message: &str) -> (pair: &str)
    ensures
        pair@ == pair_text(message@),
{
    let n = message.unicode_len();
    let mut i: usize = 0;
    let mut found = false;
    while i < n && !found
        invariant
            n == message@.len(),
            i <= n,
            found ==> i < n && message@[i as int] == ':',
            forall|j: int| 0 <= j < i ==> message@[j] != ':',
        decreases n - i + (if found {
            0int
        } else {
            1int
        }),
    {
        if message.get_char(i) == ':' {
            found = true;
        } else {
            i = i + 1;
        }
    }
    proof {
        lemma_first_colon(message@, i as int);
    }
    if !found {
        return message;
    }
    let ghost head = message@.subrange(0, i as int);
    let mut lo: usize = 0;
    while lo < i && is_whitespace(message.get_char(lo))
        invariant
            n == message@.len(),
            lo <= i < n,
            head == message@.subrange(0, i as int),
            forall|k: int| 0 <= k < lo ==> is_ws(#[trigger] head[k]),
        decreases i - lo,
    {
        lo = lo + 1;
    }
    proof {
        lemma_leading_ws(head, lo as int);
    }
    let mut hi: usize = i;
    while hi > lo && is_whitespace(message.get_char(hi - 1))
        invariant
            n == message@.len(),
            lo <= hi <= i < n,
            head == message@.subrange(0, i as int),
            forall|k: int| hi <= k < i ==> is_ws(#[trigger] head[k]),
        decreases hi - lo,
    {
        hi = hi - 1;
    }
    let pair = message.substring_char(lo, hi);
    proof {
        if lo < i {
            assert(!is_ws(head[lo as int]));
            assert(hi > lo);
            lemma_trailing_ws(head, hi as int);
            assert(pair@ =~= head.subrange(lo as int, hi as int));
        } else {
            assert(pair@ =~= Seq::<char>::empty());
        }
    }
    pair
}

/// The rest of `s` after `prefix`, when `s` starts with it.
pub(crate) fn strip_prefix<'a>(s: &'a str, prefix: &str) -> (rest: Option<&'a str>)
    ensures
        match rest {
            Some(r) => s@ == prefix@ + r@,
            None => !prefix@.is_prefix_of(s@),
        },
{
    let n = s.unicode_len();
    let m = prefix.unicode_len();
    if m > n {
        return None;
    }
    let mut i: usize = 0;
    while i < m
        invariant
            i <= m <= n,
            m == prefix@.len(),
            n == s@.len(),
            forall|j: int| 0 <= j < i ==> prefix@[j] == s@[j],
        decreases m - i,
    {
        if s.get_char(i) != prefix.get_char(i) {
            proof {
                assert(prefix@[i as int] != s@.subrange(0, m as int)[i as int]);
            }
            return None;
        }
        i = i + 1;
    }
    let r = s.substring_char(m, n);
    proof {
        assert(s@ =~= prefix@ + r@);
    }
    Some(r)
}

/// A design rule violation.
///
/// Captures all information needed to display the violation to the user
/// and allow click-to-zoom functionality in the viewer. Entities are known
/// by their index in the board model.
#[derive(Debug, Clone)]
pub struct DrcViolation {
    /// Type of violation.
    pub kind: ViolationKind,
    /// Location on the board (for click-to-zoom).
    pub location: Point,
    /// Primary entity involved.
    pub entity: u32,
    /// Secondary entity (for clearance violations).
    pub other_entity: Option<u32>,
    /// Source span in the design file, where known.
    pub source_span: Option<SourceSpan>,
    /// Human-readable description.
    pub message: String,
    /// The distance measured, where the rule measures one.
    pub actual: Option<i64>,
    /// What the rule demanded, where it demands a distance.
    pub required: Option<i64>,
    /// The copper the violation is about, where it is an area rather than a
    /// point.
    pub area: Option<Rect>,
}

/// `v` is the violation with these fields and this message, with no area
/// and no source span.
pub open spec fn describes(
    v: DrcViolation,
    kind: ViolationKind,
    entity: u32,
    other: Option<u32>,
    actual: Option<i64>,
    required: Option<i64>,
    location: Point,
    message: Seq<char>,
) -> bool {
    &&& v.kind == kind
    &&& v.entity == entity
    &&& v.other_entity == other
    &&& v.actual == actual
    &&& v.required == required
    &&& v.location == location
    &&& v.area.is_none()
    &&& v.source_span.is_none()
    &&& v.message@ == message
}

/// A length the reports can print: every length but the one with no
/// positive counterpart.
pub open spec fn printable(nm: i64) -> bool {
    nm > i64::MIN
}

/// A sentence with two lengths in it: `head`, the first length, `middle`,
/// the second, `tail`.
pub open spec fn two_lengths(
    head: Seq<char>,
    first: i64,
    middle: Seq<char>,
    second: i64,
    tail: Seq<char>,
    places: nat,
) -> Seq<char> {
    head + mm_text(first as int, places) + middle + mm_text(second as int, places) + tail
}

/// Five pieces of text, one after another.
pub fn sentence(a: &str, x: &str, b: &str, y: &str, c: &str) -> (s: String)
    ensures
        s@ == a@ + x@ + b@ + y@ + c@,
{
    let mut s = String::from_str(a);
    s.append(x);
    s.append(b);
    s.append(y);
    s.append(c);
    s
}

/// A sentence with two lengths in it, printed with `places` decimals.
fn with_two_lengths(head: &str, first: i64, middle: &str, second: i64, tail: &str, places: u32) -> (s:
    String)
    requires
        printable(first),
        printable(second),
        places <= 6,
    ensures
        s@ == two_lengths(head@, first, middle@, second, tail@, places as nat),
{
    let a = mm(first, places);
    let b = mm(second, places);
    sentence(head, a.as_str(), middle, b.as_str(), tail)
}

/// The smallest hole a fab plates through a board of this thickness, with
/// the published ratio in hundredths: the thickness over the ratio, rounded
/// up, or zero where no ratio is published.
pub open spec fn platable_drill(thickness: int, max_ratio_x100: int) -> int {
    if max_ratio_x100 == 0 {
        0
    } else {
        (thickness * 100 + max_ratio_x100 - 1) / max_ratio_x100
    }
}

/// The smallest hole a fab plates through a board of this thickness.
///
/// Aspect ratio is depth over width, so the smallest drill that still reaches
/// the published ratio is the thickness divided by it, rounded up. Zero when
/// the fab published no ratio, which reads as "no limit".
pub fn smallest_platable_drill(thickness: i64, max_ratio_x100: u32) -> (r: i64)
    requires
        0 <= thickness,
        thickness * 100 + max_ratio_x100 <= i64::MAX,
    ensures
        r == platable_drill(thickness as int, max_ratio_x100 as int),
        max_ratio_x100 > 0 ==> r * (max_ratio_x100 as int) >= thickness * 100,
        max_ratio_x100 > 0 ==> (r - 1) * (max_ratio_x100 as int) < thickness * 100,
{
    if max_ratio_x100 == 0 {
        return 0;
    }
    let ratio = max_ratio_x100 as i64;
    let r = (thickness * 100 + ratio - 1) / ratio;
    proof {
        let n: int = thickness * 100 + ratio - 1;
        let k: int = ratio as int;
        vstd::arithmetic::div_mod::lemma_fundamental_div_mod(n, k);
        let m: int = n % k;
        assert(r * k >= thickness * 100) by (nonlinear_arith)
            requires
                n == k * r + m,
                m < k,
                n == thickness * 100 + k - 1,
        ;
        assert((r - 1) * k < thickness * 100) by (nonlinear_arith)
            requires
                n == k * r + m,
                m >= 0,
                n == thickness * 100 + k - 1,
        ;
    }
    r
}

/// What a report of a hole too deep for its width says: the hole, the
/// board, the ratio between them, the ratio the fab plates, and the smallest
/// hole that reaches.
pub open spec fn aspect_text(drill: i64, thickness: i64, max_ratio_x100: u32) -> Seq<char> {
    "A "@ + mm_text(drill as int, 3) + "mm hole through a "@ + mm_text(thickness as int, 2)
        + "mm board is "@ + decimal_text(
        thickness as nat,
        (if drill >= 1 {
            drill as int
        } else {
            1
        }) as nat,
        1,
    ) + ":1, more than the "@ + decimal_text(max_ratio_x100 as nat, 100, 1)
        + ":1 this fab plates - "@ + mm_text(platable_drill(thickness as int, max_ratio_x100 as int), 3)
        + "mm is the smallest that reaches"@
}

impl DrcViolation {
    /// A violation for a pin no copper reaches: the design says the pin is
    /// on a net, the board says nothing is joined to it.
    pub fn unrouted_pin(component: u32, pin: &str, refdes: &str, location: Point) -> (v: Self)
        ensures
            v.kind == ViolationKind::UnroutedPin,
            v.actual.is_none(),
            v.required.is_none(),
            v.area.is_none(),
            v.location == location,
            v.entity == component,
            v.other_entity.is_none(),
            v.source_span.is_none(),
            v.message@ == refdes@ + "."@ + pin@ + " is on a net that no copper reaches"@ + ""@,
    {
        DrcViolation {
            kind: ViolationKind::UnroutedPin,
            actual: None,
            required: None,
            area: None,
            location,
            entity: component,
            other_entity: None,
            source_span: None,
            message: sentence(refdes, ".", pin, " is on a net that no copper reaches", ""),
        }
    }

    /// A violation for pour copper that connects to nothing, reported at the
    /// middle of the copper and carrying its extent.
    pub fn pour_island(zone: u32, area: Rect) -> (v: Self)
        requires
            point_ok(area.min),
            point_ok(area.max),
        ensures
            v.kind == ViolationKind::PourIsland,
            v.actual.is_none(),
            v.required.is_none(),
            v.area == Some(area),
            v.location == mid(area.min, area.max),
            v.entity == zone,
            v.other_entity.is_none(),
            v.source_span.is_none(),
            v.message@ == "Pour island: this copper reaches no pad of its own net"@,
    {
        let location = midpoint(area.min, area.max);
        DrcViolation {
            kind: ViolationKind::PourIsland,
            actual: None,
            required: None,
            area: Some(area),
            location,
            entity: zone,
            other_entity: None,
            source_span: None,
            message: String::from_str("Pour island: this copper reaches no pad of its own net"),
        }
    }

    /// A clearance violation: two copper features closer than the rule allows.
    pub fn clearance(entity: u32, other: u32, actual: i64, required: i64, location: Point) -> (v: Self)
        requires
            printable(actual),
            printable(required),
        ensures
            v.kind == ViolationKind::Clearance,
            v.actual == Some(actual),
            v.required == Some(required),
            v.area.is_none(),
            v.location == location,
            v.entity == entity,
            v.other_entity == Some(other),
            v.source_span.is_none(),
            v.message@ == two_lengths("Clearance violation: "@, actual, "mm actual, "@, required, "mm required"@, 2),
    {
        DrcViolation {
            kind: ViolationKind::Clearance,
            actual: Some(actual),
            required: Some(required),
            area: None,
            location,
            entity,
            other_entity: Some(other),
            source_span: None,
            message: with_two_lengths("Clearance violation: ", actual, "mm actual, ", required, "mm required", 2),
        }
    }

    /// A drill hole smaller than the fab drills.
    pub fn drill_size(entity: u32, actual: i64, required: i64, location: Point) -> (v: Self)
        requires
            printable(actual),
            printable(required),
        ensures
            v.kind == ViolationKind::DrillSize,
            v.actual == Some(actual),
            v.required == Some(required),
            v.area.is_none(),
            v.location == location,
            v.entity == entity,
            v.other_entity.is_none(),
            v.source_span.is_none(),
            v.message@ == two_lengths("Drill size violation: "@, actual, "mm actual, "@, required, "mm minimum"@, 2),
    {
        DrcViolation {
            kind: ViolationKind::DrillSize,
            actual: Some(actual),
            required: Some(required),
            area: None,
            location,
            entity,
            other_entity: None,
            source_span: None,
            message: with_two_lengths("Drill size violation: ", actual, "mm actual, ", required, "mm minimum", 2),
        }
    }

    /// A trace narrower than its rule.
    pub fn trace_width(entity: u32, actual: i64, required: i64, location: Point) -> (v: Self)
        requires
            printable(actual),
            printable(required),
        ensures
            v.kind == ViolationKind::TraceWidth,
            v.actual == Some(actual),
            v.required == Some(required),
            v.area.is_none(),
            v.location == location,
            v.entity == entity,
            v.other_entity.is_none(),
            v.source_span.is_none(),
            v.message@ == two_lengths("Trace width violation: "@, actual, "mm actual, "@, required, "mm minimum"@, 3),
    {
        DrcViolation {
            kind: ViolationKind::TraceWidth,
            actual: Some(actual),
            required: Some(required),
            area: None,
            location,
            entity,
            other_entity: None,
            source_span: None,
            message: with_two_lengths("Trace width violation: ", actual, "mm actual, ", required, "mm minimum", 3),
        }
    }

    /// A pin with no net connection.
    pub fn unconnected_pin(entity: u32, pin: &str, refdes: &str, location: Point) -> (v: Self)
        ensures
            v.kind == ViolationKind::UnconnectedPin,
            v.actual.is_none(),
            v.required.is_none(),
            v.area.is_none(),
            v.location == location,
            v.entity == entity,
            v.other_entity.is_none(),
            v.source_span.is_none(),
            v.message@ == "Unconnected pin: "@ + refdes@ + "."@ + pin@ + ""@,
    {
        DrcViolation {
            kind: ViolationKind::UnconnectedPin,
            actual: None,
            required: None,
            area: None,
            location,
            entity,
            other_entity: None,
            source_span: None,
            message: sentence("Unconnected pin: ", refdes, ".", pin, ""),
        }
    }

    /// A component placed in a keepout zone, naming the zone where it has a
    /// name.
    pub fn keepout(
        entity: u32,
        zone_entity: u32,
        refdes: &str,
        zone_name: Option<&str>,
        location: Point,
    ) -> (v: Self)
        ensures
            v.kind == ViolationKind::KeepoutViolation,
            v.actual.is_none(),
            v.required.is_none(),
            v.area.is_none(),
            v.location == location,
            v.entity == entity,
            v.other_entity == Some(zone_entity),
            v.source_span.is_none(),
            v.message@ == "Component "@ + refdes@ + " placed in "@ + (match zone_name {
                Some(n) => "keepout zone '"@ + n@ + "'"@,
                None => "keepout zone"@,
            }) + ""@,
    {
        let zone_desc = match zone_name {
            Some(n) => sentence("keepout zone '", n, "'", "", ""),
            None => String::from_str("keepout zone"),
        };
        proof {
            reveal_strlit("");
            if let Some(n) = zone_name {
                assert(zone_desc@ =~= "keepout zone '"@ + n@ + "'"@);
            }
        }
        DrcViolation {
            kind: ViolationKind::KeepoutViolation,
            actual: None,
            required: None,
            area: None,
            location,
            entity,
            other_entity: Some(zone_entity),
            source_span: None,
            message: sentence("Component ", refdes, " placed in ", zone_desc.as_str(), ""),
        }
    }

    /// Copper too close to the board edge.
    pub fn edge_clearance(entity: u32, actual: i64, required: i64, location: Point) -> (v: Self)
        requires
            printable(actual),
            printable(required),
        ensures
            v.kind == ViolationKind::EdgeClearance,
            v.actual == Some(actual),
            v.required == Some(required),
            v.area.is_none(),
            v.location == location,
            v.entity == entity,
            v.other_entity.is_none(),
            v.source_span.is_none(),
            v.message@ == two_lengths("Edge clearance violation: "@, actual, "mm actual, "@, required, "mm required"@, 2),
    {
        DrcViolation {
            kind: ViolationKind::EdgeClearance,
            actual: Some(actual),
            required: Some(required),
            area: None,
            location,
            entity,
            other_entity: None,
            source_span: None,
            message: with_two_lengths("Edge clearance violation: ", actual, "mm actual, ", required, "mm required", 2),
        }
    }

    /// A ring of copper round a hole narrower than the rule.
    pub fn annular_ring(entity: u32, actual: i64, required: i64, location: Point) -> (v: Self)
        requires
            printable(actual),
            printable(required),
        ensures
            v.kind == ViolationKind::AnnularRing,
            v.actual == Some(actual),
            v.required == Some(required),
            v.area.is_none(),
            v.location == location,
            v.entity == entity,
            v.other_entity.is_none(),
            v.source_span.is_none(),
            v.message@ == two_lengths("Annular ring violation: "@, actual, "mm actual, "@, required, "mm required"@, 3),
    {
        DrcViolation {
            kind: ViolationKind::AnnularRing,
            actual: Some(actual),
            required: Some(required),
            area: None,
            location,
            entity,
            other_entity: None,
            source_span: None,
            message: with_two_lengths("Annular ring violation: ", actual, "mm actual, ", required, "mm required", 3),
        }
    }

    /// Two holes closer than the rule, edge to edge, with the gap and the rule.
    pub fn hole_to_hole(entity: u32, other: u32, actual: i64, required: i64, location: Point) -> (v: Self)
        requires
            printable(actual),
            printable(required),
        ensures
            v.kind == ViolationKind::HoleToHole,
            v.actual == Some(actual),
            v.required == Some(required),
            v.area.is_none(),
            v.location == location,
            v.entity == entity,
            v.other_entity == Some(other),
            v.source_span.is_none(),
            v.message@ == two_lengths("Hole-to-hole violation: "@, actual, "mm actual, "@, required, "mm required"@, 2),
    {
        DrcViolation {
            kind: ViolationKind::HoleToHole,
            actual: Some(actual),
            required: Some(required),
            area: None,
            location,
            entity,
            other_entity: Some(other),
            source_span: None,
            message: with_two_lengths("Hole-to-hole violation: ", actual, "mm actual, ", required, "mm required", 2),
        }
    }

    /// A via narrower than the rule.
    pub fn via_diameter(entity: u32, actual: i64, required: i64, location: Point) -> (v: Self)
        requires
            printable(actual),
            printable(required),
        ensures
            v.kind == ViolationKind::ViaDiameter,
            v.actual == Some(actual),
            v.required == Some(required),
            v.area.is_none(),
            v.location == location,
            v.entity == entity,
            v.other_entity.is_none(),
            v.source_span.is_none(),
            v.message@ == two_lengths("Via diameter violation: "@, actual, "mm actual, "@, required, "mm required"@, 2),
    {
        DrcViolation {
            kind: ViolationKind::ViaDiameter,
            actual: Some(actual),
            required: Some(required),
            area: None,
            location,
            entity,
            other_entity: None,
            source_span: None,
            message: with_two_lengths("Via diameter violation: ", actual, "mm actual, ", required, "mm required", 2),
        }
    }

    /// A via drilled smaller than the rule.
    pub fn via_drill(entity: u32, actual: i64, required: i64, location: Point) -> (v: Self)
        requires
            printable(actual),
            printable(required),
        ensures
            v.kind == ViolationKind::ViaDrill,
            v.actual == Some(actual),
            v.required == Some(required),
            v.area.is_none(),
            v.location == location,
            v.entity == entity,
            v.other_entity.is_none(),
            v.source_span.is_none(),
            v.message@ == two_lengths("Via drill violation: "@, actual, "mm actual, "@, required, "mm required"@, 2),
    {
        DrcViolation {
            kind: ViolationKind::ViaDrill,
            actual: Some(actual),
            required: Some(required),
            area: None,
            location,
            entity,
            other_entity: None,
            source_span: None,
            message: with_two_lengths("Via drill violation: ", actual, "mm actual, ", required, "mm required", 2),
        }
    }

    /// A mask web between two openings thinner than the rule, with its width
    /// and the rule.
    pub fn solder_mask_bridge(entity: u32, other: u32, actual: i64, required: i64, location: Point) -> (v: Self)
        requires
            printable(actual),
            printable(required),
        ensures
            v.kind == ViolationKind::SolderMaskBridge,
            v.actual == Some(actual),
            v.required == Some(required),
            v.area.is_none(),
            v.location == location,
            v.entity == entity,
            v.other_entity == Some(other),
            v.source_span.is_none(),
            v.message@ == two_lengths("Solder mask bridge violation: "@, actual, "mm actual, "@, required, "mm required"@, 2),
    {
        DrcViolation {
            kind: ViolationKind::SolderMaskBridge,
            actual: Some(actual),
            required: Some(required),
            area: None,
            location,
            entity,
            other_entity: Some(other),
            source_span: None,
            message: with_two_lengths("Solder mask bridge violation: ", actual, "mm actual, ", required, "mm required", 2),
        }
    }

    /// A stencil web between two paste openings thinner than the rule.
    pub fn paste_clearance(entity: u32, other: u32, actual: i64, required: i64, location: Point) -> (v: Self)
        requires
            printable(actual),
            printable(required),
        ensures
            v.kind == ViolationKind::PasteClearance,
            v.actual == Some(actual),
            v.required == Some(required),
            v.area.is_none(),
            v.location == location,
            v.entity == entity,
            v.other_entity == Some(other),
            v.source_span.is_none(),
            v.message@ == two_lengths("Paste stencil web is "@, actual, "mm, "@, required, "mm required"@, 3),
    {
        DrcViolation {
            kind: ViolationKind::PasteClearance,
            actual: Some(actual),
            required: Some(required),
            area: None,
            location,
            entity,
            other_entity: Some(other),
            source_span: None,
            message: with_two_lengths("Paste stencil web is ", actual, "mm, ", required, "mm required", 3),
        }
    }

    /// A drilled hole too close to the routed board edge.
    pub fn hole_to_edge(entity: u32, actual: i64, required: i64, location: Point) -> (v: Self)
        requires
            printable(actual),
            printable(required),
        ensures
            v.kind == ViolationKind::HoleToEdge,
            v.actual == Some(actual),
            v.required == Some(required),
            v.area.is_none(),
            v.location == location,
            v.entity == entity,
            v.other_entity.is_none(),
            v.source_span.is_none(),
            v.message@ == two_lengths("Hole is "@, actual, "mm from the board edge, "@, required, "mm required"@, 3),
    {
        DrcViolation {
            kind: ViolationKind::HoleToEdge,
            actual: Some(actual),
            required: Some(required),
            area: None,
            location,
            entity,
            other_entity: None,
            source_span: None,
            message: with_two_lengths("Hole is ", actual, "mm from the board edge, ", required, "mm required", 3),
        }
    }

    /// The land round a drilled hole smaller than the fab images.
    pub fn pad_land(entity: u32, pin: String, actual: i64, drill: i64, required: i64, location: Point) -> (v:
        Self)
        requires
            printable(actual),
            printable(drill),
            printable(required),
        ensures
            v.kind == ViolationKind::PadLand,
            v.actual == Some(actual),
            v.required == Some(required),
            v.area.is_none(),
            v.location == location,
            v.entity == entity,
            v.other_entity.is_none(),
            v.source_span.is_none(),
            v.message@ == pin@ + ": land is "@ + mm_text(actual as int, 3) + two_lengths(
                "mm around a "@,
                drill,
                "mm hole, "@,
                required,
                "mm required"@,
                3,
            ),
    {
        let land = mm(actual, 3);
        let rest = with_two_lengths("mm around a ", drill, "mm hole, ", required, "mm required", 3);
        let message = sentence(pin.as_str(), ": land is ", land.as_str(), rest.as_str(), "");
        proof {
            reveal_strlit("");
            assert(message@ =~= pin@ + ": land is "@ + land@ + rest@);
        }
        DrcViolation {
            kind: ViolationKind::PadLand,
            actual: Some(actual),
            required: Some(required),
            area: None,
            location,
            entity,
            other_entity: None,
            source_span: None,
            message,
        }
    }

    /// Another net's copper too close to a milled slot.
    pub fn slot_clearance(entity: u32, slot_owner: u32, actual: i64, required: i64, location: Point) -> (v:
        Self)
        requires
            printable(actual),
            printable(required),
        ensures
            v.kind == ViolationKind::SlotClearance,
            v.actual == Some(actual),
            v.required == Some(required),
            v.area.is_none(),
            v.location == location,
            v.entity == entity,
            v.other_entity == Some(slot_owner),
            v.source_span.is_none(),
            v.message@ == two_lengths(
                "Copper is "@,
                actual,
                "mm from a milled slot, "@,
                required,
                "mm required"@,
                3,
            ),
    {
        DrcViolation {
            kind: ViolationKind::SlotClearance,
            actual: Some(actual),
            required: Some(required),
            area: None,
            location,
            entity,
            other_entity: Some(slot_owner),
            source_span: None,
            message: with_two_lengths("Copper is ", actual, "mm from a milled slot, ", required, "mm required", 3),
        }
    }

    /// The halves of a differential pair that end up different lengths.
    pub fn diff_pair_skew(
        entity: u32,
        message: String,
        actual: Option<i64>,
        required: Option<i64>,
        location: Point,
    ) -> (v: Self)
        ensures
            v.kind == ViolationKind::DiffPairSkew,
            v.actual == actual,
            v.required == required,
            v.area.is_none(),
            v.location == location,
            v.entity == entity,
            v.other_entity.is_none(),
            v.source_span.is_none(),
            v.message == message,
    {
        DrcViolation {
            kind: ViolationKind::DiffPairSkew,
            actual,
            required,
            area: None,
            location,
            entity,
            other_entity: None,
            source_span: None,
            message,
        }
    }

    /// A flexible region folded tighter than its thickness takes.
    pub fn bend_radius(entity: u32, radius: i64, least: i64, message: String, location: Point) -> (v: Self)
        ensures
            v.kind == ViolationKind::BendRadius,
            v.actual == Some(radius),
            v.required == Some(least),
            v.area.is_none(),
            v.location == location,
            v.entity == entity,
            v.other_entity.is_none(),
            v.source_span.is_none(),
            v.message == message,
    {
        DrcViolation {
            kind: ViolationKind::BendRadius,
            actual: Some(radius),
            required: Some(least),
            area: None,
            location,
            entity,
            other_entity: None,
            source_span: None,
            message,
        }
    }

    /// Two areas with a stated build covering the same strip of board.
    pub fn area_overlap(entity: u32, other: u32, message: String, location: Point) -> (v: Self)
        ensures
            v.kind == ViolationKind::AreaOverlap,
            v.actual.is_none(),
            v.required.is_none(),
            v.area.is_none(),
            v.location == location,
            v.entity == entity,
            v.other_entity == Some(other),
            v.source_span.is_none(),
            v.message == message,
    {
        DrcViolation {
            kind: ViolationKind::AreaOverlap,
            actual: None,
            required: None,
            area: None,
            location,
            entity,
            other_entity: Some(other),
            source_span: None,
            message,
        }
    }

    /// Copper in a bend running along the fold rather than across it.
    pub fn flex_trace_angle(entity: u32, message: String, location: Point) -> (v: Self)
        ensures
            v.kind == ViolationKind::FlexTraceAngle,
            v.actual.is_none(),
            v.required.is_none(),
            v.area.is_none(),
            v.location == location,
            v.entity == entity,
            v.other_entity.is_none(),
            v.source_span.is_none(),
            v.message == message,
    {
        DrcViolation {
            kind: ViolationKind::FlexTraceAngle,
            actual: None,
            required: None,
            area: None,
            location,
            entity,
            other_entity: None,
            source_span: None,
            message,
        }
    }

    /// A declared area hanging off the board.
    pub fn area_off_board(entity: u32, message: String, location: Point) -> (v: Self)
        ensures
            v.kind == ViolationKind::AreaOffBoard,
            v.actual.is_none(),
            v.required.is_none(),
            v.area.is_none(),
            v.location == location,
            v.entity == entity,
            v.other_entity.is_none(),
            v.source_span.is_none(),
            v.message == message,
    {
        DrcViolation {
            kind: ViolationKind::AreaOffBoard,
            actual: None,
            required: None,
            area: None,
            location,
            entity,
            other_entity: None,
            source_span: None,
            message,
        }
    }

    /// A declared area with no width or no height.
    pub fn empty_area(entity: u32, message: String, location: Point) -> (v: Self)
        ensures
            v.kind == ViolationKind::EmptyArea,
            v.actual.is_none(),
            v.required.is_none(),
            v.area.is_none(),
            v.location == location,
            v.entity == entity,
            v.other_entity.is_none(),
            v.source_span.is_none(),
            v.message == message,
    {
        DrcViolation {
            kind: ViolationKind::EmptyArea,
            actual: None,
            required: None,
            area: None,
            location,
            entity,
            other_entity: None,
            source_span: None,
            message,
        }
    }

    /// A drilled hole where the board bends.
    pub fn flex_hole(entity: u32, message: String, location: Point) -> (v: Self)
        ensures
            v.kind == ViolationKind::FlexHole,
            v.actual.is_none(),
            v.required.is_none(),
            v.area.is_none(),
            v.location == location,
            v.entity == entity,
            v.other_entity.is_none(),
            v.source_span.is_none(),
            v.message == message,
    {
        DrcViolation {
            kind: ViolationKind::FlexHole,
            actual: None,
            required: None,
            area: None,
            location,
            entity,
            other_entity: None,
            source_span: None,
            message,
        }
    }

    /// A via joining two layers by a route the build does not make.
    pub fn via_span(entity: u32, message: String, location: Point) -> (v: Self)
        ensures
            v.kind == ViolationKind::ViaSpan,
            v.actual.is_none(),
            v.required.is_none(),
            v.area.is_none(),
            v.location == location,
            v.entity == entity,
            v.other_entity.is_none(),
            v.source_span.is_none(),
            v.message == message,
    {
        DrcViolation {
            kind: ViolationKind::ViaSpan,
            actual: None,
            required: None,
            area: None,
            location,
            entity,
            other_entity: None,
            source_span: None,
            message,
        }
    }

    /// A declared stackup contradicting the rest of the design.
    pub fn stackup(entity: u32, message: String, location: Point) -> (v: Self)
        ensures
            v.kind == ViolationKind::Stackup,
            v.actual.is_none(),
            v.required.is_none(),
            v.area.is_none(),
            v.location == location,
            v.entity == entity,
            v.other_entity.is_none(),
            v.source_span.is_none(),
            v.message == message,
    {
        DrcViolation {
            kind: ViolationKind::Stackup,
            actual: None,
            required: None,
            area: None,
            location,
            entity,
            other_entity: None,
            source_span: None,
            message,
        }
    }

    /// A claim the design makes about itself that does not hold; the rule writes the message.
    pub fn assertion(entity: u32, location: Point) -> (v: Self)
        ensures
            v.kind == ViolationKind::Assertion,
            v.actual.is_none(),
            v.required.is_none(),
            v.area.is_none(),
            v.location == location,
            v.entity == entity,
            v.other_entity.is_none(),
            v.source_span.is_none(),
            v.message@ == Seq::<char>::empty(),
    {
        DrcViolation {
            kind: ViolationKind::Assertion,
            actual: None,
            required: None,
            area: None,
            location,
            entity,
            other_entity: None,
            source_span: None,
            message: String::new(),
        }
    }

    /// A trace too narrow for the current its net declares.
    pub fn trace_current(entity: u32, actual: i64, required: i64, location: Point) -> (v: Self)
        requires
            printable(actual),
            printable(required),
        ensures
            v.kind == ViolationKind::TraceCurrent,
            v.actual == Some(actual),
            v.required == Some(required),
            v.area.is_none(),
            v.location == location,
            v.entity == entity,
            v.other_entity.is_none(),
            v.source_span.is_none(),
            v.message@ == two_lengths("Trace current violation: "@, actual, "mm actual, "@, required, "mm required"@, 3),
    {
        DrcViolation {
            kind: ViolationKind::TraceCurrent,
            actual: Some(actual),
            required: Some(required),
            area: None,
            location,
            entity,
            other_entity: None,
            source_span: None,
            message: with_two_lengths("Trace current violation: ", actual, "mm actual, ", required, "mm required", 3),
        }
    }

    /// A stated impedance the stack does not deliver; the rule writes the message.
    pub fn impedance(entity: u32, location: Point) -> (v: Self)
        ensures
            v.kind == ViolationKind::Impedance,
            v.actual.is_none(),
            v.required.is_none(),
            v.area.is_none(),
            v.location == location,
            v.entity == entity,
            v.other_entity.is_none(),
            v.source_span.is_none(),
            v.message@ == Seq::<char>::empty(),
    {
        DrcViolation {
            kind: ViolationKind::Impedance,
            actual: None,
            required: None,
            area: None,
            location,
            entity,
            other_entity: None,
            source_span: None,
            message: String::new(),
        }
    }

    /// A declared neck that is not one; the rule writes the message.
    pub fn neck_down(entity: u32, location: Point) -> (v: Self)
        ensures
            v.kind == ViolationKind::NeckDown,
            v.actual.is_none(),
            v.required.is_none(),
            v.area.is_none(),
            v.location == location,
            v.entity == entity,
            v.other_entity.is_none(),
            v.source_span.is_none(),
            v.message@ == Seq::<char>::empty(),
    {
        DrcViolation {
            kind: ViolationKind::NeckDown,
            actual: None,
            required: None,
            area: None,
            location,
            entity,
            other_entity: None,
            source_span: None,
            message: String::new(),
        }
    }

    /// Silkscreen too close to a copper pad.
    pub fn silk_clearance(entity: u32, actual: i64, required: i64, location: Point) -> (v: Self)
        requires
            printable(actual),
            printable(required),
        ensures
            v.kind == ViolationKind::SilkClearance,
            v.actual == Some(actual),
            v.required == Some(required),
            v.area.is_none(),
            v.location == location,
            v.entity == entity,
            v.other_entity.is_none(),
            v.source_span.is_none(),
            v.message@ == two_lengths("Silk-to-pad clearance violation: "@, actual, "mm actual, "@, required, "mm required"@, 2),
    {
        DrcViolation {
            kind: ViolationKind::SilkClearance,
            actual: Some(actual),
            required: Some(required),
            area: None,
            location,
            entity,
            other_entity: None,
            source_span: None,
            message: with_two_lengths("Silk-to-pad clearance violation: ", actual, "mm actual, ", required, "mm required", 2),
        }
    }

    /// Two component courtyards closer than the rule.
    pub fn courtyard_clearance(entity: u32, other: u32, actual: i64, required: i64, location: Point) -> (v: Self)
        requires
            printable(actual),
            printable(required),
        ensures
            v.kind == ViolationKind::CourtyardClearance,
            v.actual == Some(actual),
            v.required == Some(required),
            v.area.is_none(),
            v.location == location,
            v.entity == entity,
            v.other_entity == Some(other),
            v.source_span.is_none(),
            v.message@ == two_lengths("Courtyard overlap: "@, actual, "mm actual, "@, required, "mm required"@, 2),
    {
        DrcViolation {
            kind: ViolationKind::CourtyardClearance,
            actual: Some(actual),
            required: Some(required),
            area: None,
            location,
            entity,
            other_entity: Some(other),
            source_span: None,
            message: with_two_lengths("Courtyard overlap: ", actual, "mm actual, ", required, "mm required", 2),
        }
    }

    /// The same violation, pointing at where the design source states it.
    pub fn with_source_span(self, span: SourceSpan) -> (v: Self)
        ensures
            v.source_span == Some(span),
            v.kind == self.kind,
            v.location == self.location,
            v.entity == self.entity,
            v.other_entity == self.other_entity,
            v.message == self.message,
            v.actual == self.actual,
            v.required == self.required,
            v.area == self.area,
    {
        let mut v = self;
        v.source_span = Some(span);
        v
    }

    /// A hole too deep for its width for the plating to reach the middle,
    /// saying how deep, how wide, and the smallest hole that reaches.
    pub fn drill_aspect_ratio(
        entity: u32,
        drill: i64,
        thickness: i64,
        max_ratio_x100: u32,
        location: Point,
    ) -> (v: Self)
        requires
            printable(drill),
            0 <= thickness <= 1_000_000_000_000,
        ensures
            v.kind == ViolationKind::DrillAspectRatio,
            v.actual == Some(drill),
            v.required == Some(platable_drill(thickness as int, max_ratio_x100 as int) as i64),
            v.area.is_none(),
            v.location == location,
            v.entity == entity,
            v.other_entity.is_none(),
            v.source_span.is_none(),
            v.message@ == aspect_text(drill, thickness, max_ratio_x100),
    {
        let smallest = smallest_platable_drill(thickness, max_ratio_x100);
        let width = if drill >= 1 {
            drill as u64
        } else {
            1
        };
        let first = sentence("A ", mm(drill, 3).as_str(), "mm hole through a ", mm(thickness, 2).as_str(), "mm board is ");
        let depth = decimal(thickness as u64, width, 1);
        let ratio = decimal(max_ratio_x100 as u64, 100, 1);
        let second = sentence(first.as_str(), depth.as_str(), ":1, more than the ", ratio.as_str(), ":1 this fab plates - ");
        let message = sentence(second.as_str(), mm(smallest, 3).as_str(), "mm is the smallest that reaches", "", "");
        proof {
            reveal_strlit("");
            assert(message@ =~= "A "@ + mm_text(drill as int, 3) + "mm hole through a "@ + mm_text(
                thickness as int,
                2,
            ) + "mm board is "@ + depth@ + ":1, more than the "@ + ratio@ + ":1 this fab plates - "@
                + mm_text(smallest as int, 3) + "mm is the smallest that reaches"@);
        }
        DrcViolation {
            kind: ViolationKind::DrillAspectRatio,
            actual: Some(drill),
            required: Some(smallest),
            area: None,
            location,
            entity,
            other_entity: None,
            source_span: None,
            message,
        }
    }

    /// The same violation with the pad it is about named in its message: a
    /// drill-size or annular-ring message gains `at <refdes>.<pad>` after its
    /// heading. Any other message is left as it is.
    pub fn with_pad_info(self, refdes: &str, pad_number: &str) -> (v: Self)
        ensures
            v.kind == self.kind,
            v.location == self.location,
            v.entity == self.entity,
            v.other_entity == self.other_entity,
            v.source_span == self.source_span,
            v.actual == self.actual,
            v.required == self.required,
            v.area == self.area,
            v.message@ == pad_info_text(self.kind, self.message@, refdes@, pad_number@),
    {
        let mut v = self;
        match v.kind {
            ViolationKind::DrillSize => {
                if let Some(rest) = strip_prefix(v.message.as_str(), "Drill size violation: ") {
                    let head = sentence("Drill size violation at ", refdes, ".", pad_number, ": ");
                    let message = sentence(head.as_str(), rest, "", "", "");
                    proof {
                        reveal_strlit("");
                        assert(message@ =~= "Drill size violation at "@ + refdes@ + "."@ + pad_number@ + ": "@
                            + rest@);
                        assert(v.message@.subrange("Drill size violation: "@.len() as int, v.message@.len() as int)
                            =~= rest@);
                    }
                    v.message = message;
                }
            },
            ViolationKind::AnnularRing => {
                if let Some(rest) = strip_prefix(v.message.as_str(), "Annular ring violation: ") {
                    let head = sentence("Annular ring violation at ", refdes, ".", pad_number, ": ");
                    let message = sentence(head.as_str(), rest, "", "", "");
                    proof {
                        reveal_strlit("");
                        assert(message@ =~= "Annular ring violation at "@ + refdes@ + "."@ + pad_number@
                            + ": "@ + rest@);
                        assert(v.message@.subrange("Annular ring violation: "@.len() as int, v.message@.len() as int)
                            =~= rest@);
                    }
                    v.message = message;
                }
            },
            _ => {},
        }
        v
    }
}

/// The message a violation carries once the pad it is about is named.
pub open spec fn pad_info_text(
    kind: ViolationKind,
    message: Seq<char>,
    refdes: Seq<char>,
    pad: Seq<char>,
) -> Seq<char> {
    let (heading, named) = match kind {
        ViolationKind::DrillSize => ("Drill size violation: "@, "Drill size violation at "@),
        _ => ("Annular ring violation: "@, "Annular ring violation at "@),
    };
    if (kind == ViolationKind::DrillSize || kind == ViolationKind::AnnularRing)
        && heading.is_prefix_of(message) {
        named + refdes + "."@ + pad + ": "@ + message.subrange(heading.len() as int, message.len() as int)
    } else {
        message
    }
}

/// Copper touching copper: a clearance violation that measured nothing.
pub open spec fn is_short(v: DrcViolation) -> bool {
    v.kind == ViolationKind::Clearance && v.actual == Some(0i64)
}

/// How many of the violations are copper touching copper.
pub open spec fn count_shorts(s: Seq<DrcViolation>) -> nat
    decreases s.len(),
{
    if s.len() == 0 {
        0
    } else {
        count_shorts(s.drop_last()) + if is_short(s.last()) {
            1nat
        } else {
            0nat
        }
    }
}

/// Copper touching copper, counted: the clearance violations whose measured
/// distance is zero. The kind is the guard: a paste web of no width is a
/// torn stencil, not a short.
pub fn shorts(violations: &[DrcViolation]) -> (n: usize)
    ensures
        n == count_shorts(violations@),
{
    let mut n: usize = 0;
    let mut i: usize = 0;
    while i < violations.len()
        invariant
            i <= violations@.len(),
            n == count_shorts(violations@.take(i as int)),
            n <= i,
        decreases violations@.len() - i,
    {
        let v = &violations[i];
        proof {
            assert(violations@.take(i + 1).drop_last() =~= violations@.take(i as int));
        }
        if v.kind == ViolationKind::Clearance && v.actual == Some(0i64) {
            n = n + 1;
        }
        i = i + 1;
    }
    assert(violations@.take(i as int) =~= violations@);
    n
}

/// The pairs of features the clearance violations describe.
pub open spec fn contact_pairs(s: Seq<DrcViolation>) -> Set<Seq<char>> {
    Set::new(
        |t: Seq<char>|
            exists|i: int|
                0 <= i < s.len() && s[i].kind == ViolationKind::Clearance && t == pair_text(
                    #[trigger] s[i].message@,
                ),
    )
}

/// How many pairs of features the clearance violations describe.
///
/// The clearance rule reports per pair of segments, and a trace is a chain
/// of them: two features touching along a run report once per segment.
/// This is the second count beside that one: each pair of features once.
pub fn clearance_contacts(violations: &[DrcViolation]) -> (n: usize)
    ensures
        n == contact_pairs(violations@).len(),
{
    let mut seen: Vec<String> = Vec::new();
    let ghost mut views: Seq<Seq<char>> = Seq::empty();
    let mut i: usize = 0;
    while i < violations.len()
        invariant
            i <= violations@.len(),
            views.len() == seen@.len(),
            forall|k: int| 0 <= k < views.len() ==> #[trigger] views[k] == seen@[k]@,
            views.no_duplicates(),
            views.to_set() == contact_pairs(violations@.take(i as int)),
            seen@.len() <= i,
        decreases violations@.len() - i,
    {
        let v = &violations[i];
        let ghost before = violations@.take(i as int);
        let ghost after = violations@.take(i + 1);
        let ghost old_views = views;
        proof {
            assert forall|j: int| 0 <= j < i implies after[j] == before[j] by {}
            assert(after[i as int] == *v);
        }
        if v.kind == ViolationKind::Clearance {
            let pair = String::from_str(pair_of(v.message.as_str()));
            let mut known = false;
            let mut k: usize = 0;
            while k < seen.len()
                invariant
                    k <= seen@.len(),
                    views.len() == seen@.len(),
                    forall|m: int| 0 <= m < views.len() ==> #[trigger] views[m] == seen@[m]@,
                    known ==> views.contains(pair@),
                    !known ==> forall|m: int| 0 <= m < k ==> #[trigger] views[m] != pair@,
                decreases seen@.len() - k,
            {
                let same = seen[k] == pair;
                proof {
                    assert(views[k as int] == seen@[k as int]@);
                }
                if same {
                    known = true;
                }
                k = k + 1;
            }
            if !known {
                seen.push(pair);
                proof {
                    views = views.push(pair@);
                    assert forall|a: int, b: int| 0 <= a < b < views.len() implies views[a] != views[b] by {
                        if b == views.len() - 1 {
                            assert(views[a] == old_views[a]);
                        } else {
                            assert(views[a] == old_views[a] && views[b] == old_views[b]);
                        }
                    }
                    assert forall|m: int| 0 <= m < views.len() implies #[trigger] views[m] == seen@[m]@ by {
                        if m < old_views.len() {
                            assert(views[m] == old_views[m]);
                        }
                    }
                }
            }
            proof {
                assert(views.contains(pair@)) by {
                    if !known {
                        assert(views[views.len() - 1] == pair@);
                    }
                }
                assert forall|t: Seq<char>| #[trigger] views.contains(t) implies old_views.contains(t) || t == pair@ by {
                    let m = choose|m: int| 0 <= m < views.len() && views[m] == t;
                    if m < old_views.len() {
                        assert(old_views[m] == t);
                    }
                }
                assert forall|t: Seq<char>| #[trigger] old_views.contains(t) implies views.contains(t) by {
                    let m = choose|m: int| 0 <= m < old_views.len() && old_views[m] == t;
                    assert(views[m] == t);
                }
                assert forall|t: Seq<char>| #[trigger] views.to_set().contains(t) == contact_pairs(after).contains(t) by {
                    if contact_pairs(after).contains(t) {
                        let j = choose|j: int|
                            0 <= j < after.len() && after[j].kind == ViolationKind::Clearance && t == pair_text(
                                #[trigger] after[j].message@,
                            );
                        if j < i {
                            assert(contact_pairs(before).contains(t));
                            assert(old_views.to_set().contains(t));
                        }
                    }
                    if views.contains(t) {
                        if t == pair@ {
                            assert(contact_pairs(after).contains(t));
                        } else {
                            assert(old_views.to_set().contains(t));
                            let j = choose|j: int|
                                0 <= j < before.len() && before[j].kind == ViolationKind::Clearance && t == pair_text(
                                    #[trigger] before[j].message@,
                                );
                            assert(after[j] == before[j]);
                        }
                    }
                }
                assert(views.to_set() =~= contact_pairs(after));
            }
        } else {
            proof {
                assert forall|t: Seq<char>| #[trigger] contact_pairs(after).contains(t) == contact_pairs(before).contains(t) by {
                    if contact_pairs(after).contains(t) {
                        let j = choose|j: int|
                            0 <= j < after.len() && after[j].kind == ViolationKind::Clearance && t == pair_text(
                                #[trigger] after[j].message@,
                            );
                        assert(j < i);
                    }
                    if contact_pairs(before).contains(t) {
                        let j = choose|j: int|
                            0 <= j < before.len() && before[j].kind == ViolationKind::Clearance && t == pair_text(
                                #[trigger] before[j].message@,
                            );
                        assert(after[j] == before[j]);
                    }
                }
                assert(contact_pairs(after) =~= contact_pairs(before));
            }
        }
        i = i + 1;
    }
    proof {
        assert(violations@.take(i as int) =~= violations@);
        views.unique_seq_to_set();
    }
    seen.len()
}

} // verus!
