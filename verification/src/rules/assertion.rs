//! Claims the design makes about itself.
//!
//! `assert board.width <= 100mm` is a rule the designer wrote, not one the
//! fabricator imposed. A claim the checker cannot evaluate is reported as not
//! checked rather than skipped: a statement that quietly does nothing leaves
//! the board looking checked.
//!
//! Each side of a claim is read here - a number, a length, a quantity, a
//! part's value, what a net's block states, or the board's size and layers -
//! or refused with the reason. Two lengths are weighed here, exactly. Any
//! other number a claim weighs is floating point and is weighed by the
//! caller, which hands back how each claim came out; every claim that did
//! not hold is then reported against the board.
use vstd::prelude::*;
use vstd::string::StrSliceExecFns;

use crate::board::Board;

verus! {

/// The rule for the design's own `assert` statements.
pub struct AssertionRule;

impl AssertionRule {
    /// The rule's identifier in reports and filters.
    pub fn name(&self) -> (n: &'static str)
        ensures
            n@ == "assertion"@,
    {
        "assertion"
    }
}

/// A number with the kind of thing it measures, so that a length is never
/// compared against a resistance.
#[derive(Debug, Clone, Copy, PartialEq, Eq, Structural)]
pub enum Quantity {
    /// A length.
    Length,
    /// A resistance.
    Resistance,
    /// A capacitance.
    Capacitance,
    /// An inductance.
    Inductance,
    /// A voltage.
    Voltage,
    /// A current.
    Current,
    /// A frequency.
    Frequency,
    /// A power.
    Power,
    /// A plain number.
    Count,
}

impl Quantity {
    /// The kind as a reader is told it, with its article.
    pub open spec fn words(self) -> Seq<char> {
        match self {
            Quantity::Length => "a length"@,
            Quantity::Resistance => "a resistance"@,
            Quantity::Capacitance => "a capacitance"@,
            Quantity::Inductance => "an inductance"@,
            Quantity::Voltage => "a voltage"@,
            Quantity::Current => "a current"@,
            Quantity::Frequency => "a frequency"@,
            Quantity::Power => "a power"@,
            Quantity::Count => "a plain number"@,
        }
    }

    /// The kind as a reader is told it, such as `a resistance`.
    pub fn name(&self) -> (s: &'static str)
        ensures
            s@ == self.words(),
    {
        match self {
            Quantity::Length => "a length",
            Quantity::Resistance => "a resistance",
            Quantity::Capacitance => "a capacitance",
            Quantity::Inductance => "an inductance",
            Quantity::Voltage => "a voltage",
            Quantity::Current => "a current",
            Quantity::Frequency => "a frequency",
            Quantity::Power => "a power",
            Quantity::Count => "a plain number",
        }
    }
}

/// The units a design writes a quantity in.
#[derive(Debug, Clone, Copy, PartialEq, Eq, Structural)]
pub enum PhysicalUnit {
    /// A unit of resistance.
    Ohm,
    /// A unit of resistance.
    KiloOhm,
    /// A unit of resistance.
    MegaOhm,
    /// A unit of capacitance.
    PicoFarad,
    /// A unit of capacitance.
    NanoFarad,
    /// A unit of capacitance.
    MicroFarad,
    /// A unit of capacitance.
    MilliFarad,
    /// A unit of inductance.
    NanoHenry,
    /// A unit of inductance.
    MicroHenry,
    /// A unit of inductance.
    MilliHenry,
    /// A unit of inductance.
    Henry,
    /// A unit of voltage.
    MilliVolt,
    /// A unit of voltage.
    Volt,
    /// A unit of voltage.
    KiloVolt,
    /// A unit of current.
    MicroAmp,
    /// A unit of current.
    MilliAmp,
    /// A unit of current.
    Amp,
    /// A unit of frequency.
    Hertz,
    /// A unit of frequency.
    KiloHertz,
    /// A unit of frequency.
    MegaHertz,
    /// A unit of frequency.
    GigaHertz,
    /// A unit of power.
    MilliWatt,
    /// A unit of power.
    Watt,
}

/// What a unit measures.
pub open spec fn measures(unit: PhysicalUnit) -> Quantity {
    match unit {
        PhysicalUnit::Ohm | PhysicalUnit::KiloOhm | PhysicalUnit::MegaOhm => Quantity::Resistance,
        PhysicalUnit::PicoFarad | PhysicalUnit::NanoFarad | PhysicalUnit::MicroFarad | PhysicalUnit::MilliFarad => Quantity::Capacitance,
        PhysicalUnit::NanoHenry | PhysicalUnit::MicroHenry | PhysicalUnit::MilliHenry | PhysicalUnit::Henry => Quantity::Inductance,
        PhysicalUnit::MilliVolt | PhysicalUnit::Volt | PhysicalUnit::KiloVolt => Quantity::Voltage,
        PhysicalUnit::MicroAmp | PhysicalUnit::MilliAmp | PhysicalUnit::Amp => Quantity::Current,
        PhysicalUnit::Hertz | PhysicalUnit::KiloHertz | PhysicalUnit::MegaHertz | PhysicalUnit::GigaHertz => Quantity::Frequency,
        PhysicalUnit::MilliWatt | PhysicalUnit::Watt => Quantity::Power,
    }
}

/// What a unit measures.
pub fn quantity_of(unit: PhysicalUnit) -> (q: Quantity)
    ensures
        q == measures(unit),
{
    match unit {
        PhysicalUnit::Ohm | PhysicalUnit::KiloOhm | PhysicalUnit::MegaOhm => Quantity::Resistance,
        PhysicalUnit::PicoFarad | PhysicalUnit::NanoFarad | PhysicalUnit::MicroFarad | PhysicalUnit::MilliFarad => Quantity::Capacitance,
        PhysicalUnit::NanoHenry | PhysicalUnit::MicroHenry | PhysicalUnit::MilliHenry | PhysicalUnit::Henry => Quantity::Inductance,
        PhysicalUnit::MilliVolt | PhysicalUnit::Volt | PhysicalUnit::KiloVolt => Quantity::Voltage,
        PhysicalUnit::MicroAmp | PhysicalUnit::MilliAmp | PhysicalUnit::Amp => Quantity::Current,
        PhysicalUnit::Hertz | PhysicalUnit::KiloHertz | PhysicalUnit::MegaHertz | PhysicalUnit::GigaHertz => Quantity::Frequency,
        PhysicalUnit::MilliWatt | PhysicalUnit::Watt => Quantity::Power,
    }
}

/// How an assertion compares its two sides.
#[derive(Debug, Clone, Copy, PartialEq, Eq, Structural)]
pub enum ComparisonOp {
    /// `==`
    Eq,
    /// `!=`
    Ne,
    /// `>=`
    Ge,
    /// `<=`
    Le,
    /// `>`
    Gt,
    /// `<`
    Lt,
}

/// How a comparison is written.
pub open spec fn op_text(op: ComparisonOp) -> Seq<char> {
    match op {
        ComparisonOp::Eq => "=="@,
        ComparisonOp::Ne => "!="@,
        ComparisonOp::Ge => ">="@,
        ComparisonOp::Le => "<="@,
        ComparisonOp::Gt => ">"@,
        ComparisonOp::Lt => "<"@,
    }
}

/// How a comparison is written, such as `<=`.
pub fn symbol(op: ComparisonOp) -> (s: &'static str)
    ensures
        s@ == op_text(op),
{
    match op {
        ComparisonOp::Eq => "==",
        ComparisonOp::Ne => "!=",
        ComparisonOp::Ge => ">=",
        ComparisonOp::Le => "<=",
        ComparisonOp::Gt => ">",
        ComparisonOp::Lt => "<",
    }
}


/// One side of a claim as the design wrote it, less any number written with
/// it, which the caller weighs.
#[derive(Debug, Clone)]
pub enum Operand {
    /// A bare number: a plain count.
    Number,
    /// A length, in nanometres.
    Dimension(i64),
    /// A quantity written with a unit.
    Physical(PhysicalUnit),
    /// A dotted name, such as `board.width` or `R1.value`, part by part.
    Name(Vec<String>),
}

/// The band a `within` claim gives around its target, less its numbers.
#[derive(Debug, Clone, Copy, PartialEq, Eq, Structural)]
pub enum Band {
    /// A percentage either side.
    Percent,
    /// A quantity either side, written in this unit.
    Spread(PhysicalUnit),
    /// From the target up to a quantity written in this unit.
    UpTo(PhysicalUnit),
}

/// A claim the design makes about itself.
#[derive(Debug, Clone)]
pub enum Claim {
    /// `left op right`.
    Compare(Operand, ComparisonOp, Operand),
    /// `left within target` and a band, where the claim gives one; the
    /// target is written in this unit.
    Within(Operand, PhysicalUnit, Option<Band>),
}

/// Where the number an operand reads comes from.
#[derive(Debug, Clone, Copy, PartialEq, Eq, Structural)]
pub enum Source {
    /// The number written in the claim itself.
    Written,
    /// A length of the board or a net, in nanometres.
    Nanometres(i64),
    /// The board's layer count.
    Layers(u8),
    /// A current a net states, in microamps.
    Microamps(i64),
    /// The value a part was given as a quantity: the part at this position
    /// of the valued parts.
    PartValue(usize),
}

/// What an operand reads: what it measures, and where its number is.
#[derive(Debug, Clone, Copy, PartialEq, Eq, Structural)]
pub struct Reading {
    /// What the number measures.
    pub quantity: Quantity,
    /// Where the number comes from.
    pub source: Source,
}

/// A part whose value the design wrote as a quantity.
#[derive(Debug, Clone)]
pub struct PartValue {
    /// The part's reference designator.
    pub refdes: String,
    /// The unit the value is written in.
    pub unit: PhysicalUnit,
}

/// Whether two pieces of text are the same.
pub fn text_is(a: &str, b: &str) -> (r: bool)
    ensures
        r == (a@ == b@),
{
    let n = a.unicode_len();
    if n != b.unicode_len() {
        return false;
    }
    let mut i: usize = 0;
    while i < n
        invariant
            i <= n,
            n == a@.len(),
            n == b@.len(),
            forall|j: int| 0 <= j < i ==> a@[j] == b@[j],
        decreases n - i,
    {
        if a.get_char(i) != b.get_char(i) {
            return false;
        }
        i = i + 1;
    }
    proof {
        assert(a@ =~= b@);
    }
    true
}

/// The parts of a name joined by dots.
pub open spec fn joined(parts: Seq<String>) -> Seq<char>
    decreases parts.len(),
{
    if parts.len() == 0 {
        Seq::empty()
    } else if parts.len() == 1 {
        parts[0]@
    } else {
        joined(parts.drop_last()) + "."@ + parts.last()@
    }
}

/// The parts of a name joined by dots, as the claim writes it.
pub fn join_path(parts: &Vec<String>) -> (s: String)
    ensures
        s@ == joined(parts@),
{
    let mut s = String::from_str("");
    proof {
        reveal_strlit("");
        assert(parts@.take(0) =~= Seq::<String>::empty());
    }
    let mut k: usize = 0;
    while k < parts.len()
        invariant
            k <= parts@.len(),
            s@ == joined(parts@.take(k as int)),
        decreases parts@.len() - k,
    {
        proof {
            assert(parts@.take(k + 1).drop_last() =~= parts@.take(k as int));
            assert(parts@.take(k + 1).last() == parts@[k as int]);
        }
        if k > 0 {
            s.append(".");
        } else {
            proof {
                assert(s@ =~= Seq::<char>::empty());
            }
        }
        s.append(parts[k].as_str());
        proof {
            if k == 0 {
                assert(joined(parts@.take(1)) == parts@[0]@);
            }
        }
        k = k + 1;
    }
    proof {
        assert(parts@.take(k as int) =~= parts@);
    }
    s
}

/// The first valued part named `refdes`.
pub open spec fn valued_at(valued: Seq<PartValue>, refdes: Seq<char>, k: int) -> Option<int>
    decreases valued.len() - k,
{
    if k < 0 || k >= valued.len() {
        None
    } else if valued[k].refdes@ == refdes {
        Some(k)
    } else {
        valued_at(valued, refdes, k + 1)
    }
}

/// The first net named `name`.
pub open spec fn net_named(nets: Seq<crate::board::NetName>, name: Seq<char>, k: int) -> Option<u32>
    decreases nets.len() - k,
{
    if k < 0 || k >= nets.len() {
        None
    } else if nets[k].name@ == name {
        Some(nets[k].id)
    } else {
        net_named(nets, name, k + 1)
    }
}

/// A net has a block of its own that states something.
pub open spec fn states_anything(rules: Seq<crate::board::NetRule>, net: u32) -> bool {
    exists|k: int| 0 <= k < rules.len() && (#[trigger] rules[k]).net == net
}

/// The width a net's own block states: that of the first block for the net
/// that states one.
pub open spec fn stated_width(rules: Seq<crate::board::NetRule>, net: u32) -> Option<i64>
    decreases rules.len(),
{
    if rules.len() == 0 {
        None
    } else if rules[0].net == net && rules[0].width is Some {
        rules[0].width
    } else {
        stated_width(rules.drop_first(), net)
    }
}

/// The current a net's own block states, in microamps.
pub open spec fn stated_current(rules: Seq<crate::board::NetRule>, net: u32) -> Option<i64>
    decreases rules.len(),
{
    if rules.len() == 0 {
        None
    } else if rules[0].net == net && rules[0].current_ua is Some {
        rules[0].current_ua
    } else {
        stated_current(rules.drop_first(), net)
    }
}

/// A field a net's block can state.
pub open spec fn is_net_field(f: Seq<char>) -> bool {
    f == "current"@ || f == "width"@ || f == "clearance"@
}

/// What a named net's field reads.
pub open spec fn net_field_reading(b: Board, name: Seq<char>, field: Seq<char>, path: Seq<char>) -> Result<Reading, Seq<char>> {
    match net_named(b.nets@, name, 0) {
        Some(id) if states_anything(b.net_rules@, id) => if field == "current"@ {
            match stated_current(b.net_rules@, id) {
                Some(ua) => Ok(Reading { quantity: Quantity::Current, source: Source::Microamps(ua) }),
                None => Err("net '"@ + name + "' does not state a current"@),
            }
        } else if field == "width"@ {
            match stated_width(b.net_rules@, id) {
                Some(w) => Ok(Reading { quantity: Quantity::Length, source: Source::Nanometres(w) }),
                None => Err("net '"@ + name + "' does not state a width"@),
            }
        } else {
            match crate::rules::clearance::stated_clearance(b.net_rules@, id) {
                Some(c) => Ok(Reading { quantity: Quantity::Length, source: Source::Nanometres(c) }),
                None => Err("net '"@ + name + "' does not state a clearance"@),
            }
        },
        _ => Err(
            "'"@ + path + "' is not a net that states anything: give it a block like `net "@ + name + " ["@ + field
                + " ...]`"@,
        ),
    }
}

/// What a board path reads.
pub open spec fn board_reading(b: Board, path: Seq<char>) -> Result<Reading, Seq<char>> {
    if b.size is None || b.layer_count is None {
        Err("'"@ + path + "' needs a board, and none is defined"@)
    } else if path == "board.width"@ {
        Ok(Reading { quantity: Quantity::Length, source: Source::Nanometres(b.size.unwrap().0) })
    } else if path == "board.height"@ {
        Ok(Reading { quantity: Quantity::Length, source: Source::Nanometres(b.size.unwrap().1) })
    } else if path == "board.layers"@ {
        Ok(Reading { quantity: Quantity::Count, source: Source::Layers(b.layer_count.unwrap()) })
    } else {
        Err(
            "'"@ + path
                + "' is not something the checker can read yet; it knows board.width, board.height, board.layers, <part>.value and <net>.current/width/clearance"@,
        )
    }
}

/// What an operand reads, or why the checker cannot read it.
///
/// A number and a quantity read what the claim writes. A name reads a
/// part's value where it is `<part>.value`, what a net's block states where
/// it is `<net>.current`, `.width` or `.clearance` for a net other than
/// `board`, and the board's width, height or layer count otherwise.
pub open spec fn reading_of(op: Operand, b: Board, valued: Seq<PartValue>) -> Result<Reading, Seq<char>> {
    match op {
        Operand::Number => Ok(Reading { quantity: Quantity::Count, source: Source::Written }),
        Operand::Dimension(nm) => Ok(Reading { quantity: Quantity::Length, source: Source::Nanometres(nm) }),
        Operand::Physical(unit) => Ok(Reading { quantity: measures(unit), source: Source::Written }),
        Operand::Name(parts) => {
            let ps = parts@;
            let path = joined(ps);
            if ps.len() == 2 && ps[1]@ == "value"@ {
                match valued_at(valued, ps[0]@, 0) {
                    Some(k) => Ok(
                        Reading { quantity: measures(valued[k].unit), source: Source::PartValue(k as usize) },
                    ),
                    None => Err(
                        "'"@ + path
                            + "' is not a quantity: write `value 10kohm` rather than `value \"10k\"`, or the checker has only a label to go on"@,
                    ),
                }
            } else if ps.len() == 2 && is_net_field(ps[1]@) && ps[0]@ != "board"@ {
                net_field_reading(b, ps[0]@, ps[1]@, path)
            } else {
                board_reading(b, path)
            }
        },
    }
}

/// A `Result` with its message as text.
pub open spec fn read_view(r: Result<Reading, String>) -> Result<Reading, Seq<char>> {
    match r {
        Ok(x) => Ok(x),
        Err(s) => Err(s@),
    }
}


/// The first valued part named `refdes`.
fn find_valued(valued: &Vec<PartValue>, refdes: &str) -> (r: Option<usize>)
    ensures
        match r {
            Some(k) => valued_at(valued@, refdes@, 0) == Some(k as int) && k < valued@.len(),
            None => valued_at(valued@, refdes@, 0) is None,
        },
{
    let mut k: usize = 0;
    while k < valued.len()
        invariant
            k <= valued@.len(),
            valued_at(valued@, refdes@, 0) == valued_at(valued@, refdes@, k as int),
        decreases valued@.len() - k,
    {
        if text_is(valued[k].refdes.as_str(), refdes) {
            return Some(k);
        }
        k = k + 1;
    }
    None
}

/// The first net named `name`.
fn find_net(nets: &Vec<crate::board::NetName>, name: &str) -> (r: Option<u32>)
    ensures
        r == net_named(nets@, name@, 0),
{
    let mut k: usize = 0;
    while k < nets.len()
        invariant
            k <= nets@.len(),
            net_named(nets@, name@, 0) == net_named(nets@, name@, k as int),
        decreases nets@.len() - k,
    {
        if text_is(nets[k].name.as_str(), name) {
            return Some(nets[k].id);
        }
        k = k + 1;
    }
    None
}

/// Whether a net has a block of its own.
fn has_block(rules: &Vec<crate::board::NetRule>, net: u32) -> (r: bool)
    ensures
        r == states_anything(rules@, net),
{
    let mut k: usize = 0;
    while k < rules.len()
        invariant
            k <= rules@.len(),
            forall|j: int| 0 <= j < k ==> (#[trigger] rules@[j]).net != net,
        decreases rules@.len() - k,
    {
        if rules[k].net == net {
            return true;
        }
        k = k + 1;
    }
    false
}

/// The width a net's own block states.
fn width_stated(rules: &Vec<crate::board::NetRule>, net: u32) -> (c: Option<i64>)
    ensures
        c == stated_width(rules@, net),
{
    proof {
        assert(rules@.skip(0) =~= rules@);
    }
    let mut k: usize = 0;
    while k < rules.len()
        invariant
            k <= rules@.len(),
            stated_width(rules@, net) == stated_width(rules@.skip(k as int), net),
        decreases rules@.len() - k,
    {
        proof {
            assert(rules@.skip(k as int).drop_first() =~= rules@.skip(k + 1));
            assert(rules@.skip(k as int)[0] == rules@[k as int]);
        }
        if rules[k].net == net && rules[k].width.is_some() {
            return rules[k].width;
        }
        k = k + 1;
    }
    None
}

/// The current a net's own block states.
fn current_stated(rules: &Vec<crate::board::NetRule>, net: u32) -> (c: Option<i64>)
    ensures
        c == stated_current(rules@, net),
{
    proof {
        assert(rules@.skip(0) =~= rules@);
    }
    let mut k: usize = 0;
    while k < rules.len()
        invariant
            k <= rules@.len(),
            stated_current(rules@, net) == stated_current(rules@.skip(k as int), net),
        decreases rules@.len() - k,
    {
        proof {
            assert(rules@.skip(k as int).drop_first() =~= rules@.skip(k + 1));
            assert(rules@.skip(k as int)[0] == rules@[k as int]);
        }
        if rules[k].net == net && rules[k].current_ua.is_some() {
            return rules[k].current_ua;
        }
        k = k + 1;
    }
    None
}

/// Three pieces of text, one after another.
fn three(a: &str, b: &str, c: &str) -> (s: String)
    ensures
        s@ == a@ + b@ + c@,
{
    let mut s = String::from_str(a);
    s.append(b);
    s.append(c);
    s
}

/// What a named net's field reads.
fn net_field(b: &Board, name: &str, field: &str, path: &str) -> (r: Result<Reading, String>)
    requires
        is_net_field(field@),
    ensures
        read_view(r) == net_field_reading(*b, name@, field@, path@),
{
    match find_net(&b.nets, name) {
        Some(id) => {
            if has_block(&b.net_rules, id) {
                if text_is(field, "current") {
                    match current_stated(&b.net_rules, id) {
                        Some(ua) => Ok(Reading { quantity: Quantity::Current, source: Source::Microamps(ua) }),
                        None => Err(three("net '", name, "' does not state a current")),
                    }
                } else if text_is(field, "width") {
                    match width_stated(&b.net_rules, id) {
                        Some(w) => Ok(Reading { quantity: Quantity::Length, source: Source::Nanometres(w) }),
                        None => Err(three("net '", name, "' does not state a width")),
                    }
                } else {
                    match crate::rules::clearance::net_clearance(&b.net_rules, id) {
                        Some(c) => Ok(Reading { quantity: Quantity::Length, source: Source::Nanometres(c) }),
                        None => Err(three("net '", name, "' does not state a clearance")),
                    }
                }
            } else {
                Err(not_a_net(path, name, field))
            }
        },
        None => Err(not_a_net(path, name, field)),
    }
}

/// Why a name is not a net that states anything.
fn not_a_net(path: &str, name: &str, field: &str) -> (s: String)
    ensures
        s@ == "'"@ + path@ + "' is not a net that states anything: give it a block like `net "@ + name@ + " ["@
            + field@ + " ...]`"@,
{
    let mut s = three("'", path, "' is not a net that states anything: give it a block like `net ");
    s.append(name);
    s.append(" [");
    s.append(field);
    s.append(" ...]`");
    s
}

/// What a board path reads.
fn board_path(b: &Board, path: &str) -> (r: Result<Reading, String>)
    ensures
        read_view(r) == board_reading(*b, path@),
{
    match (b.size, b.layer_count) {
        (Some((w, h)), Some(layers)) => {
            if text_is(path, "board.width") {
                Ok(Reading { quantity: Quantity::Length, source: Source::Nanometres(w) })
            } else if text_is(path, "board.height") {
                Ok(Reading { quantity: Quantity::Length, source: Source::Nanometres(h) })
            } else if text_is(path, "board.layers") {
                Ok(Reading { quantity: Quantity::Count, source: Source::Layers(layers) })
            } else {
                Err(
                    three(
                        "'",
                        path,
                        "' is not something the checker can read yet; it knows board.width, board.height, board.layers, <part>.value and <net>.current/width/clearance",
                    ),
                )
            }
        },
        _ => Err(three("'", path, "' needs a board, and none is defined")),
    }
}

/// What an operand reads, or why the checker cannot read it.
pub fn resolve(operand: &Operand, board: &Board, valued: &Vec<PartValue>) -> (r: Result<Reading, String>)
    ensures
        read_view(r) == reading_of(*operand, *board, valued@),
{
    match operand {
        Operand::Number => Ok(Reading { quantity: Quantity::Count, source: Source::Written }),
        Operand::Dimension(nm) => Ok(Reading { quantity: Quantity::Length, source: Source::Nanometres(*nm) }),
        Operand::Physical(unit) => Ok(Reading { quantity: quantity_of(*unit), source: Source::Written }),
        Operand::Name(parts) => {
            let path = join_path(parts);
            if parts.len() == 2 && text_is(parts[1].as_str(), "value") {
                match find_valued(valued, parts[0].as_str()) {
                    Some(k) => Ok(
                        Reading { quantity: quantity_of(valued[k].unit), source: Source::PartValue(k) },
                    ),
                    None => Err(
                        three(
                            "'",
                            path.as_str(),
                            "' is not a quantity: write `value 10kohm` rather than `value \"10k\"`, or the checker has only a label to go on",
                        ),
                    ),
                }
            } else if parts.len() == 2 && (text_is(parts[1].as_str(), "current") || text_is(
                parts[1].as_str(),
                "width",
            ) || text_is(parts[1].as_str(), "clearance")) && !text_is(parts[0].as_str(), "board") {
                net_field(board, parts[0].as_str(), parts[1].as_str(), path.as_str())
            } else {
                board_path(board, path.as_str())
            }
        },
    }
}


/// What the checker makes of a claim, as text.
pub enum Judged {
    /// The board meets it.
    Held,
    /// The board breaks it; the message says how.
    Failed(Seq<char>),
    /// It cannot be checked; the message says why.
    NotChecked(Seq<char>),
    /// Both sides are read and measure the same thing; their numbers are
    /// left to weigh.
    Weigh(Reading, ComparisonOp, Reading),
    /// The side is read and measures what the band does; the number and the
    /// band are left to weigh.
    WeighBand(Reading),
}

/// What the checker makes of a claim.
#[derive(Debug, Clone)]
pub enum Verdict {
    /// The board meets it.
    Held,
    /// The board breaks it; the message says how.
    Failed(String),
    /// It cannot be checked; the message says why.
    NotChecked(String),
    /// Both sides are read and measure the same thing; their numbers are
    /// left to weigh.
    Weigh(Reading, ComparisonOp, Reading),
    /// The side is read and measures what the band does; the number and the
    /// band are left to weigh.
    WeighBand(Reading),
}

/// A verdict with its messages as text.
pub open spec fn verdict_view(v: Verdict) -> Judged {
    match v {
        Verdict::Held => Judged::Held,
        Verdict::Failed(s) => Judged::Failed(s@),
        Verdict::NotChecked(s) => Judged::NotChecked(s@),
        Verdict::Weigh(a, op, c) => Judged::Weigh(a, op, c),
        Verdict::WeighBand(a) => Judged::WeighBand(a),
    }
}

/// Two lengths equal as a claim means it: the same, or apart by less than a
/// billionth of the second.
pub open spec fn near(x: int, y: int) -> bool {
    let d = if x >= y { x - y } else { y - x };
    let m = if y >= 0 { y } else { -y };
    x == y || d * 1_000_000_000 < m
}

/// Whether `x op y` holds of two lengths.
pub open spec fn holds_exact(x: int, op: ComparisonOp, y: int) -> bool {
    match op {
        ComparisonOp::Eq => near(x, y),
        ComparisonOp::Ne => !near(x, y),
        ComparisonOp::Ge => x >= y,
        ComparisonOp::Le => x <= y,
        ComparisonOp::Gt => x > y,
        ComparisonOp::Lt => x < y,
    }
}

/// How a side of a claim that reads a length is written back to the reader:
/// a name as its path, a length in millimetres with three decimals.
pub open spec fn describe(op: Operand) -> Seq<char> {
    match op {
        Operand::Name(parts) => joined(parts@),
        Operand::Dimension(nm) => crate::text::mm_text(nm as int, 3) + "mm"@,
        _ => Seq::empty(),
    }
}

/// Why two quantities cannot be compared.
pub open spec fn mismatch(a: Quantity, c: Quantity) -> Seq<char> {
    "assertion not checked: "@ + a.words() + " cannot be compared with "@ + c.words()
}

/// What the checker makes of a claim on a board.
///
/// A side that cannot be read makes the claim not checked, with the reason,
/// the left side's first; so do two sides that measure different things.
/// Two lengths - written, or a board's or a net's - are weighed here,
/// exactly, and a broken claim says what was claimed and what the board
/// has. Anything else read is left to weigh. A `within` claim is not checked
/// where its side does not measure what the target does, where it gives no
/// band, or where its band is written in another kind of unit.
pub open spec fn judged(claim: Claim, b: Board, valued: Seq<PartValue>) -> Judged {
    match claim {
        Claim::Compare(l, op, r) => match (reading_of(l, b, valued), reading_of(r, b, valued)) {
            (Err(w), _) => Judged::NotChecked("assertion not checked: "@ + w),
            (Ok(_), Err(w)) => Judged::NotChecked("assertion not checked: "@ + w),
            (Ok(a), Ok(c)) => if a.quantity != c.quantity {
                Judged::NotChecked(mismatch(a.quantity, c.quantity))
            } else {
                match (a.source, c.source) {
                    (Source::Nanometres(x), Source::Nanometres(y)) => if x > i64::MIN && y > i64::MIN {
                        if holds_exact(x as int, op, y as int) {
                            Judged::Held
                        } else {
                            Judged::Failed(
                                "assertion failed: "@ + describe(l) + " "@ + op_text(op) + " "@ + describe(r)
                                    + ", but the board has "@ + crate::text::mm_text(x as int, 3) + "mm"@,
                            )
                        }
                    } else {
                        Judged::Weigh(a, op, c)
                    },
                    _ => Judged::Weigh(a, op, c),
                }
            },
        },
        Claim::Within(l, unit, band) => match reading_of(l, b, valued) {
            Err(w) => Judged::NotChecked("assertion not checked: "@ + w),
            Ok(a) => {
                let q = measures(unit);
                if a.quantity != q {
                    Judged::NotChecked(mismatch(a.quantity, q))
                } else {
                    match band {
                        None => Judged::NotChecked(
                            "assertion not checked: `within` needs a band, as in `within 10kohm +/- 5%` or `within 100nF to 220nF`"@,
                        ),
                        Some(Band::Spread(u)) => if measures(u) != q {
                            Judged::NotChecked(
                                "assertion not checked: a band of "@ + measures(u).words() + " does not fit "@ + q.words(),
                            )
                        } else {
                            Judged::WeighBand(a)
                        },
                        Some(Band::UpTo(u)) => if measures(u) != q {
                            Judged::NotChecked(
                                "assertion not checked: a range ending in "@ + measures(u).words() + " does not fit "@
                                    + q.words(),
                            )
                        } else {
                            Judged::WeighBand(a)
                        },
                        Some(Band::Percent) => Judged::WeighBand(a),
                    }
                }
            },
        },
    }
}

/// Whether two lengths are equal as a claim means it.
fn near_exec(x: i64, y: i64) -> (r: bool)
    ensures
        r == near(x as int, y as int),
{
    if x == y {
        return true;
    }
    let d: i128 = if x >= y {
        x as i128 - y as i128
    } else {
        y as i128 - x as i128
    };
    let m: i128 = if y >= 0 {
        y as i128
    } else {
        -(y as i128)
    };
    proof {
        assert(d * 1_000_000_000 <= 18_446_744_073_709_551_616 * 1_000_000_000) by (nonlinear_arith)
            requires
                0 <= d <= 18_446_744_073_709_551_616,
        ;
    }
    d * 1_000_000_000 < m
}

/// Whether `x op y` holds of two lengths.
fn holds_lengths(x: i64, op: ComparisonOp, y: i64) -> (r: bool)
    ensures
        r == holds_exact(x as int, op, y as int),
{
    match op {
        ComparisonOp::Eq => near_exec(x, y),
        ComparisonOp::Ne => !near_exec(x, y),
        ComparisonOp::Ge => x >= y,
        ComparisonOp::Le => x <= y,
        ComparisonOp::Gt => x > y,
        ComparisonOp::Lt => x < y,
    }
}

/// How a side that reads a length is written back to the reader.
fn describe_exec(op: &Operand) -> (s: String)
    requires
        op matches Operand::Dimension(nm) ==> nm > i64::MIN,
    ensures
        s@ == describe(*op),
{
    match op {
        Operand::Name(parts) => join_path(parts),
        Operand::Dimension(nm) => {
            let mut s = crate::text::mm(*nm, 3);
            s.append("mm");
            s
        },
        _ => {
            let s = String::from_str("");
            proof {
                reveal_strlit("");
            }
            s
        },
    }
}

/// Why two quantities cannot be compared.
fn mismatch_text(a: Quantity, c: Quantity) -> (s: String)
    ensures
        s@ == mismatch(a, c),
{
    let mut s = three("assertion not checked: ", a.name(), " cannot be compared with ");
    s.append(c.name());
    s
}

/// A reason prefixed as a claim not checked.
fn not_checked(why: String) -> (s: String)
    ensures
        s@ == "assertion not checked: "@ + why@,
{
    let mut s = String::from_str("assertion not checked: ");
    s.append(why.as_str());
    s
}

/// What the checker makes of a claim on a board.
pub fn judge(claim: &Claim, board: &Board, valued: &Vec<PartValue>) -> (v: Verdict)
    ensures
        verdict_view(v) == judged(*claim, *board, valued@),
{
    match claim {
        Claim::Compare(l, op, r) => {
            let left = resolve(l, board, valued);
            let right = resolve(r, board, valued);
            match (left, right) {
                (Err(w), _) => Verdict::NotChecked(not_checked(w)),
                (Ok(_), Err(w)) => Verdict::NotChecked(not_checked(w)),
                (Ok(a), Ok(c)) => {
                    if a.quantity != c.quantity {
                        return Verdict::NotChecked(mismatch_text(a.quantity, c.quantity));
                    }
                    match (a.source, c.source) {
                        (Source::Nanometres(x), Source::Nanometres(y)) => {
                            if x > i64::MIN && y > i64::MIN {
                                if holds_lengths(x, *op, y) {
                                    Verdict::Held
                                } else {
                                    let mut m = String::from_str("assertion failed: ");
                                    m.append(describe_exec(l).as_str());
                                    m.append(" ");
                                    m.append(symbol(*op));
                                    m.append(" ");
                                    m.append(describe_exec(r).as_str());
                                    m.append(", but the board has ");
                                    m.append(crate::text::mm(x, 3).as_str());
                                    m.append("mm");
                                    Verdict::Failed(m)
                                }
                            } else {
                                Verdict::Weigh(a, *op, c)
                            }
                        },
                        _ => Verdict::Weigh(a, *op, c),
                    }
                },
            }
        },
        Claim::Within(l, unit, band) => match resolve(l, board, valued) {
            Err(w) => Verdict::NotChecked(not_checked(w)),
            Ok(a) => {
                let q = quantity_of(*unit);
                if a.quantity != q {
                    return Verdict::NotChecked(mismatch_text(a.quantity, q));
                }
                match band {
                    None => Verdict::NotChecked(
                        String::from_str(
                            "assertion not checked: `within` needs a band, as in `within 10kohm +/- 5%` or `within 100nF to 220nF`",
                        ),
                    ),
                    Some(Band::Spread(u)) => {
                        let uq = quantity_of(*u);
                        if uq != q {
                            let mut m = three("assertion not checked: a band of ", uq.name(), " does not fit ");
                            m.append(q.name());
                            Verdict::NotChecked(m)
                        } else {
                            Verdict::WeighBand(a)
                        }
                    },
                    Some(Band::UpTo(u)) => {
                        let uq = quantity_of(*u);
                        if uq != q {
                            let mut m = three("assertion not checked: a range ending in ", uq.name(), " does not fit ");
                            m.append(q.name());
                            Verdict::NotChecked(m)
                        } else {
                            Verdict::WeighBand(a)
                        }
                    },
                    Some(Band::Percent) => Verdict::WeighBand(a),
                }
            },
        },
    }
}


/// How a claim came out, once any numbers left to weigh are weighed.
#[derive(Debug, Clone)]
pub enum Outcome {
    /// The board meets it.
    Held,
    /// The board breaks it; the message says how.
    Failed(String),
    /// It cannot be checked; the message says why.
    NotChecked(String),
}

/// The messages of the claims that did not hold, in claim order.
pub open spec fn unheld(outs: Seq<Outcome>) -> Seq<Seq<char>>
    decreases outs.len(),
{
    if outs.len() == 0 {
        Seq::empty()
    } else {
        let rest = unheld(outs.drop_last());
        match outs.last() {
            Outcome::Held => rest,
            Outcome::Failed(m) => rest.push(m@),
            Outcome::NotChecked(m) => rest.push(m@),
        }
    }
}

/// Where a claim is reported: the board's origin.
pub open spec fn claim_spot() -> crate::geometry::Point {
    crate::geometry::Point { x: 0, y: 0 }
}

/// What the rule reports of the outcomes of the design's claims: nothing
/// where the design declares no board; otherwise one row against the board
/// for each claim that did not hold - broken or not checked - in claim
/// order, with its message.
pub open spec fn found_by_assertion(b: Board, outs: Seq<Outcome>, out: Seq<crate::violation::DrcViolation>) -> bool {
    match b.board_entity {
        None => out.len() == 0,
        Some(e) => {
            let msgs = unheld(outs);
            &&& out.len() == msgs.len()
            &&& forall|k: int|
                0 <= k < out.len() ==> crate::violation::describes(
                    #[trigger] out[k],
                    crate::violation::ViolationKind::Assertion,
                    e,
                    None,
                    None,
                    None,
                    claim_spot(),
                    msgs[k],
                )
        },
    }
}

impl AssertionRule {
    /// One row for each claim that did not hold, in claim order, against the
    /// board and at its origin; nothing where the design declares no board.
    pub fn report_claims(&self, board: &Board, outcomes: &Vec<Outcome>) -> (out: Vec<crate::violation::DrcViolation>)
        ensures
            found_by_assertion(*board, outcomes@, out@),
    {
        let mut out: Vec<crate::violation::DrcViolation> = Vec::new();
        let entity = match board.board_entity {
            Some(e) => e,
            None => return out,
        };
        let mut k: usize = 0;
        while k < outcomes.len()
            invariant
                k <= outcomes@.len(),
                board.board_entity == Some(entity),
                out@.len() == unheld(outcomes@.take(k as int)).len(),
                forall|j: int|
                    0 <= j < out@.len() ==> crate::violation::describes(
                        #[trigger] out@[j],
                        crate::violation::ViolationKind::Assertion,
                        entity,
                        None,
                        None,
                        None,
                        claim_spot(),
                        unheld(outcomes@.take(k as int))[j],
                    ),
            decreases outcomes@.len() - k,
        {
            proof {
                assert(outcomes@.take(k + 1).drop_last() =~= outcomes@.take(k as int));
                assert(outcomes@.take(k + 1).last() == outcomes@[k as int]);
            }
            let ghost old_out = out@;
            let message: Option<String> = match &outcomes[k] {
                Outcome::Held => None,
                Outcome::Failed(m) => Some(m.clone()),
                Outcome::NotChecked(m) => Some(m.clone()),
            };
            match message {
                Some(m) => {
                    let mut v = crate::violation::DrcViolation::assertion(
                        entity,
                        crate::geometry::Point { x: 0, y: 0 },
                    );
                    v.message = m;
                    out.push(v);
                    proof {
                        assert forall|j: int| 0 <= j < out@.len() implies crate::violation::describes(
                            #[trigger] out@[j],
                            crate::violation::ViolationKind::Assertion,
                            entity,
                            None,
                            None,
                            None,
                            claim_spot(),
                            unheld(outcomes@.take(k + 1))[j],
                        ) by {
                            if j < old_out.len() {
                                assert(out@[j] == old_out[j]);
                            }
                        }
                    }
                },
                None => {},
            }
            k = k + 1;
        }
        proof {
            assert(outcomes@.take(k as int) =~= outcomes@);
        }
        out
    }
}

} // verus!
