use boolexpr::expression::Expression;
use boolexpr::parser::ParseError;
use std::collections::HashMap;

fn parse_text(s: &str) -> (Result<Box<Expression>, ParseError>, HashMap<u32, bool>) {
    let chars: Vec<char> = s.chars().collect();
    let mut table: HashMap<u32, bool> = HashMap::new();
    let r = Expression::parse(&chars, &mut table);
    (r, table)
}

fn shown(e: &Expression) -> String {
    e.to_text().into_iter().collect()
}

fn parsed(s: &str) -> (Box<Expression>, HashMap<u32, bool>) {
    let (r, table) = parse_text(s);
    (r.unwrap(), table)
}

fn err_of(s: &str) -> ParseError {
    match parse_text(s).0 {
        Err(e) => e,
        Ok(e) => panic!("parsed as {}", shown(&e)),
    }
}

fn sorted_keys(table: &HashMap<u32, bool>) -> Vec<u32> {
    let mut keys: Vec<u32> = table.keys().cloned().collect();
    keys.sort();
    keys
}

#[test]
fn single_variable_is_satisfiable() {
    let (e, mut table) = parsed("0");
    assert_eq!(shown(&e), "0");
    assert_eq!(sorted_keys(&table), vec![0]);
    assert_eq!(table[&0], false);
    let keys = vec![0u32];
    let mut trace = Vec::new();
    assert!(e.combinate(&mut table, &keys, 0, &mut trace));
    assert_eq!(trace, vec![(vec![true], true)]);
    assert_eq!(table[&0], true);
}

#[test]
fn contradiction_is_always_false() {
    let (e, mut table) = parsed("0 & !0");
    assert_eq!(shown(&e), "(0 & !0)");
    let keys = vec![0u32];
    let mut trace = Vec::new();
    assert!(!e.combinate(&mut table, &keys, 0, &mut trace));
    assert_eq!(trace, vec![(vec![true], false), (vec![false], false)]);
}

#[test]
fn tautology_first_assignment_satisfies() {
    let (e, mut table) = parsed("0 | !0");
    assert_eq!(shown(&e), "(0 | !0)");
    let keys = vec![0u32];
    let mut trace = Vec::new();
    assert!(e.combinate(&mut table, &keys, 0, &mut trace));
    assert_eq!(trace.len(), 1);
}

#[test]
fn example_expression_explores_all_four() {
    let (e, mut table) = parsed("0 & !0 | 3 & !3");
    assert_eq!(shown(&e), "((0 & !0) | (3 & !3))");
    let keys = sorted_keys(&table);
    assert_eq!(keys, vec![0, 3]);
    let mut trace = Vec::new();
    assert!(!e.combinate(&mut table, &keys, 0, &mut trace));
    assert_eq!(trace.len(), 4);
    assert_eq!(
        trace,
        vec![
            (vec![true, true], false),
            (vec![true, false], false),
            (vec![false, true], false),
            (vec![false, false], false),
        ]
    );
    assert_eq!(table[&0], false);
    assert_eq!(table[&3], false);
}

#[test]
fn group_and_negation_satisfiable_when_x1_false() {
    let (e, mut table) = parsed("(0 | 1) & !1");
    assert_eq!(shown(&e), "((0 | 1) & !1)");
    let keys = vec![0u32, 1];
    let mut trace = Vec::new();
    assert!(e.combinate(&mut table, &keys, 0, &mut trace));
    assert_eq!(trace, vec![(vec![true, true], false), (vec![true, false], true)]);
    assert_eq!(table[&0], true);
    assert_eq!(table[&1], false);
}

#[test]
fn group_and_negation_with_x1_first() {
    let (e, mut table) = parsed("(0 | 1) & !1");
    let keys = vec![1u32, 0];
    let mut trace = Vec::new();
    assert!(e.combinate(&mut table, &keys, 0, &mut trace));
    assert_eq!(trace.len(), 3);
    assert_eq!(trace[2], (vec![false, true], true));
}

#[test]
fn double_operator_is_rejected_at_second() {
    assert_eq!(err_of("0 & & 1"), ParseError::UnexpectedOperator { op: '&', pos: 5 });
}

#[test]
fn error_unexpected_negation() {
    assert_eq!(err_of("0 !"), ParseError::UnexpectedNegation { pos: 3 });
}

#[test]
fn error_operator_first() {
    assert_eq!(err_of("| 0"), ParseError::UnexpectedOperator { op: '|', pos: 1 });
}

#[test]
fn error_two_operands() {
    assert_eq!(err_of("0 1"), ParseError::UnexpectedExpression { found: '1', pos: 3 });
    assert_eq!(err_of("0 (1)"), ParseError::UnexpectedExpression { found: '(', pos: 3 });
}

#[test]
fn error_not_a_digit() {
    assert_eq!(err_of("0 & a"), ParseError::NotADigit { found: 'a', pos: 5 });
}

#[test]
fn error_number_too_large() {
    assert_eq!(err_of("4294967296"), ParseError::NotANumber { pos: 10 });
    assert_eq!(err_of("99999999999 & 1"), ParseError::NotANumber { pos: 12 });
}

#[test]
fn largest_index_is_accepted() {
    let (e, table) = parsed("4294967295");
    assert_eq!(shown(&e), "4294967295");
    assert_eq!(sorted_keys(&table), vec![4294967295]);
}

#[test]
fn error_no_operand() {
    assert_eq!(err_of(""), ParseError::ClosingNotFound { pos: 0 });
    assert_eq!(err_of("()"), ParseError::ClosingNotFound { pos: 2 });
    assert_eq!(err_of("!"), ParseError::ClosingNotFound { pos: 1 });
}

#[test]
fn error_dangling_operator() {
    assert_eq!(err_of("0 &"), ParseError::DanglingOperator { pos: 3 });
    assert_eq!(err_of("(0 |) & 1"), ParseError::DanglingOperator { pos: 5 });
}

#[test]
fn error_leaves_table_unchanged() {
    let chars: Vec<char> = "0 & 1 2".chars().collect();
    let mut table: HashMap<u32, bool> = HashMap::new();
    table.insert(7, true);
    assert!(Expression::parse(&chars, &mut table).is_err());
    assert_eq!(table.len(), 1);
    assert_eq!(table[&7], true);
}

#[test]
fn parse_registers_variables_as_false() {
    let chars: Vec<char> = "2 | 5".chars().collect();
    let mut table: HashMap<u32, bool> = HashMap::new();
    table.insert(2, true);
    table.insert(9, true);
    Expression::parse(&chars, &mut table).unwrap();
    assert_eq!(sorted_keys(&table), vec![2, 5, 9]);
    assert_eq!(table[&2], false);
    assert_eq!(table[&5], false);
    assert_eq!(table[&9], true);
}

#[test]
fn multi_digit_variables() {
    assert_eq!(shown(&parsed("10").0), "10");
    assert_eq!(shown(&parsed("007").0), "7");
    assert_eq!(shown(&parsed("12&3").0), "(12 & 3)");
}

#[test]
fn and_binds_tighter_than_or() {
    assert_eq!(shown(&parsed("0 | 1 & 2").0), "(0 | (1 & 2))");
    assert_eq!(shown(&parsed("0 & 1 | 2 & 3 | 4").0), "(((0 & 1) | (2 & 3)) | 4)");
    assert_eq!(shown(&parsed("0 & 1 & 2").0), "((0 & 1) & 2)");
    assert_eq!(shown(&parsed("0 | 1 | 2").0), "((0 | 1) | 2)");
}

#[test]
fn negation_and_groups() {
    assert_eq!(shown(&parsed("!!0").0), "0");
    assert_eq!(shown(&parsed("!!!0").0), "!0");
    assert_eq!(shown(&parsed("!(0 & 1)").0), "!(0 & 1)");
    assert_eq!(shown(&parsed("((0))").0), "0");
    assert_eq!(shown(&parsed("0 & (1 | 2)").0), "(0 & (1 | 2))");
    assert_eq!(shown(&parsed("0\t&\n1").0), "(0 & 1)");
}

#[test]
fn unclosed_group_is_rejected() {
    assert_eq!(err_of("(0 & 1"), ParseError::ClosingNotFound { pos: 6 });
    assert_eq!(err_of("((0) | 1"), ParseError::ClosingNotFound { pos: 8 });
    assert_eq!(err_of("!("), ParseError::ClosingNotFound { pos: 2 });
}

#[test]
fn stray_closing_is_rejected() {
    assert_eq!(err_of("0) & 1"), ParseError::UnexpectedClosing { pos: 2 });
    assert_eq!(err_of("(0)) | 1"), ParseError::UnexpectedClosing { pos: 4 });
    assert_eq!(err_of(")"), ParseError::UnexpectedClosing { pos: 1 });
}

#[test]
fn parsing_is_deterministic() {
    for s in ["0 & !0 | 3 & !3", "(0 | 1) & !1", "!(2 | 3) & 4"] {
        assert_eq!(shown(&parsed(s).0), shown(&parsed(s).0));
    }
    assert_eq!(err_of("0 & & 1"), err_of("0 & & 1"));
}

#[test]
fn evaluation_matches_manual_computation() {
    let (e, mut table) = parsed("0 & !1 | 2");
    let (f, _) = parsed("!(0 | 1) & (2 | !0)");
    for bits in 0..8u32 {
        let (x0, x1, x2) = (bits & 1 != 0, bits & 2 != 0, bits & 4 != 0);
        table.insert(0, x0);
        table.insert(1, x1);
        table.insert(2, x2);
        assert_eq!(e.evaluate(&table), (x0 && !x1) || x2);
        assert_eq!(f.evaluate(&table), !(x0 || x1) && (x2 || !x0));
    }
}

#[test]
fn combinate_agrees_with_exhaustive_evaluation() {
    for s in ["0 & !0", "0 & 1 & !2", "(0 | 1) & !(0 & 1)", "0 & !0 | 1 & !1 | 2 & !2"] {
        let (e, mut table) = parsed(s);
        let keys = sorted_keys(&table);
        let mut any = false;
        let mut probe = table.clone();
        for bits in 0..(1u32 << keys.len()) {
            for (j, k) in keys.iter().enumerate() {
                probe.insert(*k, bits & (1 << j) != 0);
            }
            any = any || e.evaluate(&probe);
        }
        let mut trace = Vec::new();
        let found = e.combinate(&mut table, &keys, 0, &mut trace);
        assert_eq!(found, any);
        if !found {
            assert_eq!(trace.len(), 1 << keys.len());
        }
    }
}

#[test]
fn search_stops_before_visiting_everything() {
    let (e, mut table) = parsed("!0 | !1");
    let keys = vec![0u32, 1];
    let mut trace = Vec::new();
    assert!(e.combinate(&mut table, &keys, 0, &mut trace));
    assert_eq!(trace, vec![(vec![true, true], false), (vec![true, false], true)]);
    assert!(trace.len() < 4);
}

#[test]
fn combinate_from_later_index_keeps_earlier_keys() {
    let (e, mut table) = parsed("0 & 1");
    table.insert(0, false);
    let keys = vec![0u32, 1];
    let mut trace = Vec::new();
    assert!(!e.combinate(&mut table, &keys, 1, &mut trace));
    assert_eq!(trace, vec![(vec![false, true], false), (vec![false, false], false)]);
}

#[test]
fn evaluate_twice_gives_same_result() {
    let (e, mut table) = parsed("(0 | 1) & !1");
    table.insert(0, true);
    assert_eq!(e.evaluate(&table), e.evaluate(&table));
    assert!(e.evaluate(&table));
    table.insert(1, true);
    assert_eq!(e.evaluate(&table), e.evaluate(&table));
    assert!(!e.evaluate(&table));
}
