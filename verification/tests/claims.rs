use lib::board::{Board, NetName, NetRule};
use lib::rules::assertion::{
    judge, resolve, Band, Claim, ComparisonOp, Operand, Outcome, PartValue, PhysicalUnit, Quantity,
    Reading, Source, Verdict,
};
use lib::rules::AssertionRule;
use lib::{DrcViolation, ViolationKind};

fn mm(v: f64) -> i64 {
    (v * 1_000_000.0).round() as i64
}

fn board_of(width_mm: f64, height_mm: f64, layers: u8) -> Board {
    Board {
        vias: Vec::new(),
        components: Vec::new(),
        traces: Vec::new(),
        zones: Vec::new(),
        net_rules: Vec::new(),
        stackup_thickness: None,
        size: Some((mm(width_mm), mm(height_mm))),
        stack_areas: None,
        stackup: None,
        layer_count: Some(layers),
        board_entity: Some(100),
        nets: Vec::new(),
        diff_pairs: Vec::new(),
        pour_fills: Vec::new(),
        copper_entries: Vec::new(),
        net_links: Vec::new(),
        net_ids: Vec::new(),
        outline: None,
    }
}

fn name(path: &str) -> Operand {
    Operand::Name(path.split('.').map(str::to_string).collect())
}

fn length(value: f64) -> Operand {
    Operand::Dimension(mm(value))
}

fn kilohm() -> Operand {
    Operand::Physical(PhysicalUnit::KiloOhm)
}

fn claim(left: Operand, op: ComparisonOp, right: Operand) -> Claim {
    Claim::Compare(left, op, right)
}

// Every claim here is one the library settles itself: two lengths, or a
// side it cannot read.
fn outcome(verdict: Verdict) -> Outcome {
    match verdict {
        Verdict::Held => Outcome::Held,
        Verdict::Failed(m) => Outcome::Failed(m),
        Verdict::NotChecked(m) => Outcome::NotChecked(m),
        other => panic!("left to weigh: {other:?}"),
    }
}

fn check_on(board: &Board, claims: Vec<Claim>) -> Vec<DrcViolation> {
    let outcomes: Vec<Outcome> = claims.iter().map(|c| outcome(judge(c, board, &Vec::new()))).collect();
    AssertionRule.report_claims(board, &outcomes)
}

fn check(claims: Vec<Claim>, width_mm: f64, layers: u8) -> Vec<DrcViolation> {
    check_on(&board_of(width_mm, 40.0, layers), claims)
}

#[test]
fn a_claim_the_board_meets_is_silent() {
    let claims = vec![claim(name("board.width"), ComparisonOp::Le, length(100.0))];
    assert!(check(claims, 80.0, 2).is_empty());
}

#[test]
fn a_claim_the_board_breaks_is_reported_with_the_number() {
    let claims = vec![claim(name("board.width"), ComparisonOp::Le, length(50.0))];
    let violations = check(claims, 80.0, 2);

    assert_eq!(violations.len(), 1);
    assert_eq!(violations[0].kind, ViolationKind::Assertion);
    assert!(
        violations[0].message.contains("board.width <= 50.000mm") && violations[0].message.contains("80.000mm"),
        "the message has to say what was claimed and what is true: {}",
        violations[0].message
    );
}

#[test]
fn a_length_is_not_compared_against_a_resistance() {
    let claims = vec![claim(name("board.width"), ComparisonOp::Le, kilohm())];
    let violations = check(claims, 80.0, 2);

    assert_eq!(violations.len(), 1);
    assert!(violations[0].message.contains("cannot be compared"), "got {}", violations[0].message);
}

#[test]
fn something_the_checker_cannot_read_is_said_out_loud() {
    let claims = vec![claim(name("R1.value"), ComparisonOp::Eq, kilohm())];
    let violations = check(claims, 80.0, 2);

    assert_eq!(violations.len(), 1);
    assert!(
        violations[0].message.contains("not checked") && violations[0].message.contains("R1.value"),
        "got {}",
        violations[0].message
    );
}

fn with_vbus() -> Board {
    let mut board = board_of(80.0, 40.0, 2);
    board.nets = vec![
        NetName { name: "VBUS".to_string(), id: 1 },
        NetName { name: "SIG".to_string(), id: 2 },
    ];
    board.net_rules = vec![NetRule {
        net: 1,
        width: Some(mm(0.8)),
        clearance: None,
        neck: None,
        current_ua: Some(2_000_000),
    }];
    board
}

#[test]
fn a_net_width_is_weighed_exactly_and_a_silent_net_is_not_checked() {
    let board = with_vbus();
    let violations = check_on(&board, vec![claim(name("VBUS.width"), ComparisonOp::Ge, length(1.0))]);
    assert_eq!(violations.len(), 1);
    assert_eq!(
        violations[0].message,
        "assertion failed: VBUS.width >= 1.000mm, but the board has 0.800mm"
    );

    let violations = check_on(&board, vec![claim(name("SIG.width"), ComparisonOp::Ge, length(0.2))]);
    assert_eq!(violations.len(), 1);
    assert_eq!(
        violations[0].message,
        "assertion not checked: 'SIG.width' is not a net that states anything: give it a block like `net SIG [width ...]`"
    );

    let violations = check_on(&board, vec![claim(name("VBUS.clearance"), ComparisonOp::Ge, length(0.2))]);
    assert_eq!(violations[0].message, "assertion not checked: net 'VBUS' does not state a clearance");
}

#[test]
fn a_net_current_is_read_in_microamps_and_left_to_weigh() {
    let board = with_vbus();
    assert_eq!(
        resolve(&name("VBUS.current"), &board, &Vec::new()),
        Ok(Reading { quantity: Quantity::Current, source: Source::Microamps(2_000_000) })
    );
    let verdict = judge(
        &claim(name("VBUS.current"), ComparisonOp::Ge, Operand::Physical(PhysicalUnit::Amp)),
        &board,
        &Vec::new(),
    );
    assert!(matches!(verdict, Verdict::Weigh(_, ComparisonOp::Ge, _)));
}

#[test]
fn the_board_layers_are_a_plain_number_left_to_weigh() {
    let board = board_of(80.0, 40.0, 4);
    assert_eq!(
        resolve(&name("board.layers"), &board, &Vec::new()),
        Ok(Reading { quantity: Quantity::Count, source: Source::Layers(4) })
    );
    let verdict = judge(&claim(name("board.layers"), ComparisonOp::Ge, Operand::Number), &board, &Vec::new());
    assert!(matches!(verdict, Verdict::Weigh(_, ComparisonOp::Ge, _)));
}

#[test]
fn a_part_value_written_as_a_quantity_is_read_from_its_part() {
    let board = board_of(80.0, 40.0, 2);
    let valued = vec![PartValue { refdes: "R1".to_string(), unit: PhysicalUnit::KiloOhm }];
    assert_eq!(
        resolve(&name("R1.value"), &board, &valued),
        Ok(Reading { quantity: Quantity::Resistance, source: Source::PartValue(0) })
    );
    assert_eq!(
        resolve(&name("R2.value"), &board, &valued),
        Err("'R2.value' is not a quantity: write `value 10kohm` rather than `value \"10k\"`, or the checker has only a label to go on".to_string())
    );
}

#[test]
fn a_name_the_checker_does_not_know_and_a_missing_board_are_said() {
    let board = board_of(80.0, 40.0, 2);
    assert_eq!(
        resolve(&name("board.colour"), &board, &Vec::new()),
        Err("'board.colour' is not something the checker can read yet; it knows board.width, board.height, board.layers, <part>.value and <net>.current/width/clearance".to_string())
    );
    let mut bare = board_of(80.0, 40.0, 2);
    bare.size = None;
    assert_eq!(
        resolve(&name("board.width"), &bare, &Vec::new()),
        Err("'board.width' needs a board, and none is defined".to_string())
    );
}

#[test]
fn a_within_claim_needs_a_band_that_fits() {
    let board = board_of(80.0, 40.0, 2);
    let valued = vec![PartValue { refdes: "R1".to_string(), unit: PhysicalUnit::KiloOhm }];
    let within = |band| Claim::Within(name("R1.value"), PhysicalUnit::KiloOhm, band);
    let not_checked = |v: Verdict| match v {
        Verdict::NotChecked(m) => m,
        other => panic!("expected not checked, got {other:?}"),
    };
    assert_eq!(
        not_checked(judge(&within(None), &board, &valued)),
        "assertion not checked: `within` needs a band, as in `within 10kohm +/- 5%` or `within 100nF to 220nF`"
    );
    assert_eq!(
        not_checked(judge(&within(Some(Band::Spread(PhysicalUnit::Volt))), &board, &valued)),
        "assertion not checked: a band of a voltage does not fit a resistance"
    );
    assert_eq!(
        not_checked(judge(&within(Some(Band::UpTo(PhysicalUnit::NanoFarad))), &board, &valued)),
        "assertion not checked: a range ending in a capacitance does not fit a resistance"
    );
    assert!(matches!(judge(&within(Some(Band::Percent)), &board, &valued), Verdict::WeighBand(_)));
    assert_eq!(
        not_checked(judge(&Claim::Within(name("board.width"), PhysicalUnit::KiloOhm, None), &board, &valued)),
        "assertion not checked: a length cannot be compared with a resistance"
    );
}

#[test]
fn equal_lengths_hold_and_only_claims_that_fail_are_reported_in_order() {
    let board = board_of(80.0, 40.0, 2);
    let claims = vec![
        claim(name("board.width"), ComparisonOp::Eq, length(80.0)),
        claim(name("board.height"), ComparisonOp::Gt, length(40.0)),
        claim(name("board.width"), ComparisonOp::Ne, length(80.0)),
    ];
    let violations = check_on(&board, claims);
    assert_eq!(violations.len(), 2);
    assert_eq!(violations[0].message, "assertion failed: board.height > 40.000mm, but the board has 40.000mm");
    assert_eq!(violations[1].message, "assertion failed: board.width != 80.000mm, but the board has 80.000mm");
    assert_eq!(violations[0].entity, 100);
    assert_eq!(violations[0].actual, None);
}

#[test]
fn without_a_board_no_claim_is_reported() {
    let mut board = board_of(80.0, 40.0, 2);
    board.board_entity = None;
    let outcomes = vec![Outcome::Failed("x".to_string()), Outcome::NotChecked("y".to_string())];
    assert!(AssertionRule.report_claims(&board, &outcomes).is_empty());
}
