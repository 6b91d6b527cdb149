use crate::expression::Expression;
use std::collections::HashMap;
use vstd::prelude::*;

verus! {

broadcast use vstd::std_specs::hash::group_hash_axioms;

/// A binary operator waiting for its right operand.
#[derive(PartialEq, Eq, Structural, Clone, Copy)]
pub enum Operator {
    And,
    Or,
}

/// Why a text is not an expression. Each position counts characters from
/// one, at the start of the whole input.
#[derive(Debug, PartialEq, Eq, Structural, Clone, Copy)]
pub enum ParseError {
    /// A `!` where an operator or a `)` was expected.
    UnexpectedNegation { pos: usize },
    /// An `&` or `|` with no complete left operand.
    UnexpectedOperator { op: char, pos: usize },
    /// An operand, or a `(`, right after a complete operand.
    UnexpectedExpression { found: char, pos: usize },
    /// A character outside the expression alphabet.
    NotADigit { found: char, pos: usize },
    /// A run of digits whose value does not fit in a `u32`.
    NotANumber { pos: usize },
    /// A group, or the whole input, that holds no operand, or a `(` that
    /// the input never closes; `pos` is the length of the input.
    ClosingNotFound { pos: usize },
    /// A `)` with no open group to close.
    UnexpectedClosing { pos: usize },
    /// A group, or the whole input, that ends right after an operator.
    DanglingOperator { pos: usize },
}

/// The state of one nesting level of the scan. The operands read so far are
/// folded as they come: `and_acc` is the AND-chain being built, `or_acc` the
/// OR of the chains already closed, `op` an operator still waiting for its
/// right operand.
pub struct Level {
    pub or_acc: Option<Box<Expression>>,
    pub and_acc: Option<Box<Expression>>,
    pub op: Option<Operator>,
    /// A negation waiting for the next operand.
    pub neg: bool,
    /// The value of the digits read since the last operand, if any.
    pub pending: Option<u32>,
    /// Those digits denote a number above `u32::MAX`.
    pub overflow: bool,
}

pub open spec fn empty_level() -> Level {
    Level { or_acc: None, and_acc: None, op: None, neg: false, pending: None, overflow: false }
}

pub open spec fn level_wf(l: Level) -> bool {
    &&& l.op is Some ==> l.and_acc is Some
    &&& l.or_acc is Some ==> l.and_acc is Some
    &&& l.pending is Some ==> expects_operand(l)
    &&& l.pending is None ==> !l.overflow
}

/// The next token must be an operand: nothing has been read at this level,
/// or an operator waits for its right side.
pub open spec fn expects_operand(l: Level) -> bool {
    l.and_acc is None || l.op is Some
}

pub open spec fn join(o: Option<Box<Expression>>, a: Box<Expression>) -> Box<Expression> {
    match o {
        Some(x) => Box::new(Expression::Or(x, a)),
        None => a,
    }
}

/// Adds an operand to the level, under its pending negation. AND binds it to
/// the current chain; OR closes the chain and starts a new one.
pub open spec fn push_atom(l: Level, e: Box<Expression>) -> Level {
    let a = if l.neg { Box::new(Expression::Neg(e)) } else { e };
    match l.op {
        Some(Operator::And) => Level {
            and_acc: Some(Box::new(Expression::And(l.and_acc.unwrap(), a))),
            op: None,
            neg: false,
            ..l
        },
        Some(Operator::Or) => Level {
            or_acc: Some(join(l.or_acc, l.and_acc.unwrap())),
            and_acc: Some(a),
            op: None,
            neg: false,
            ..l
        },
        None => Level { and_acc: Some(a), neg: false, ..l },
    }
}

/// Turns the pending digits, if any, into a variable operand.
pub open spec fn flush(l: Level, pos: usize) -> Result<Level, ParseError> {
    match l.pending {
        None => Ok(l),
        Some(v) => if l.overflow {
            Err(ParseError::NotANumber { pos })
        } else {
            Ok(push_atom(Level { pending: None, ..l }, Box::new(Expression::Value(v))))
        },
    }
}

/// The expression of a level whose end has been reached at `pos`; `len` is
/// the length of the whole input.
pub open spec fn finish(l: Level, pos: usize, len: usize) -> Result<Box<Expression>, ParseError> {
    match l.and_acc {
        None => Err(ParseError::ClosingNotFound { pos: len }),
        Some(a) => if l.op is Some {
            Err(ParseError::DanglingOperator { pos })
        } else {
            Ok(join(l.or_acc, a))
        },
    }
}

pub open spec fn is_digit(c: char) -> bool {
    '0' <= c && c <= '9'
}

pub open spec fn digit_value(c: char) -> u32 {
    (c as u32 - '0' as u32) as u32
}

/// The characters with the Unicode White_Space property.
pub open spec fn is_space(c: char) -> bool {
    ||| '\u{9}' <= c && c <= '\u{d}'
    ||| c == ' ' || c == '\u{85}' || c == '\u{a0}' || c == '\u{1680}'
    ||| '\u{2000}' <= c && c <= '\u{200a}'
    ||| c == '\u{2028}' || c == '\u{2029}' || c == '\u{202f}' || c == '\u{205f}'
    ||| c == '\u{3000}'
}

pub open spec fn add_digit(l: Level, c: char) -> Level {
    let d = digit_value(c);
    match l.pending {
        None => Level { pending: Some(d), overflow: false, ..l },
        Some(v) => if l.overflow || v as int * 10 + d as int > u32::MAX as int {
            Level { overflow: true, ..l }
        } else {
            Level { pending: Some((v * 10 + d) as u32), ..l }
        },
    }
}

/// The result of scanning `s` from index `i`, in the level `cur`, with the
/// enclosing levels of the open groups in `outer` (innermost last).
pub open spec fn scan(s: Seq<char>, i: nat, cur: Level, outer: Seq<Level>) -> Result<
    Box<Expression>,
    ParseError,
>
    decreases s.len() - i,
{
    if i >= s.len() {
        // End of input: the expression is complete only at the outermost
        // level, with every group closed.
        let len = s.len() as usize;
        match flush(cur, len) {
            Err(e) => Err(e),
            Ok(l) => if outer.len() > 0 {
                Err(ParseError::ClosingNotFound { pos: len })
            } else {
                finish(l, len, len)
            },
        }
    } else {
        let c = s[i as int];
        let pos = (i + 1) as usize;
        if is_digit(c) {
            if !expects_operand(cur) {
                Err(ParseError::UnexpectedExpression { found: c, pos })
            } else {
                scan(s, i + 1, add_digit(cur, c), outer)
            }
        } else if c == '!' || c == '&' || c == '|' || c == '(' || c == ')' || is_space(c) {
            match flush(cur, pos) {
                Err(e) => Err(e),
                Ok(l) => if c == '!' {
                    if !expects_operand(l) {
                        Err(ParseError::UnexpectedNegation { pos })
                    } else {
                        scan(s, i + 1, Level { neg: !l.neg, ..l }, outer)
                    }
                } else if c == '&' || c == '|' {
                    if expects_operand(l) {
                        Err(ParseError::UnexpectedOperator { op: c, pos })
                    } else {
                        let op = if c == '&' { Operator::And } else { Operator::Or };
                        scan(s, i + 1, Level { op: Some(op), ..l }, outer)
                    }
                } else if c == '(' {
                    if !expects_operand(l) {
                        Err(ParseError::UnexpectedExpression { found: c, pos })
                    } else {
                        scan(s, i + 1, empty_level(), outer.push(l))
                    }
                } else if c == ')' {
                    // Closes the innermost group; there is none to close at
                    // the outermost level.
                    if outer.len() == 0 {
                        Err(ParseError::UnexpectedClosing { pos })
                    } else {
                        match finish(l, pos, s.len() as usize) {
                            Err(e) => Err(e),
                            Ok(e) => scan(s, i + 1, push_atom(outer.last(), e), outer.drop_last()),
                        }
                    }
                } else {
                    scan(s, i + 1, l, outer)
                }
            }
        } else {
            Err(ParseError::NotADigit { found: c, pos })
        }
    }
}

/// The expression that the text `s` denotes, or the first error in it.
pub open spec fn parse_spec(s: Seq<char>) -> Result<Box<Expression>, ParseError> {
    scan(s, 0, empty_level(), seq![])
}


/// The table after registering every variable of `vs` with the value false.
pub open spec fn registered(vs: Set<u32>) -> Map<u32, bool> {
    Map::new(|k: u32| vs.contains(k), |k: u32| false)
}

proof fn lemma_push_atom_wf(l: Level, e: Box<Expression>)
    requires
        level_wf(l),
        l.pending is None,
    ensures
        level_wf(push_atom(l, e)),
        !expects_operand(push_atom(l, e)),
        push_atom(l, e).pending is None,
{
}

fn new_level() -> (r: Level)
    ensures
        r == empty_level(),
{
    Level { or_acc: None, and_acc: None, op: None, neg: false, pending: None, overflow: false }
}

fn join_exec(o: Option<Box<Expression>>, a: Box<Expression>) -> (r: Box<Expression>)
    ensures
        r == join(o, a),
{
    match o {
        Some(x) => Box::new(Expression::Or(x, a)),
        None => a,
    }
}

fn push_atom_exec(l: Level, e: Box<Expression>) -> (r: Level)
    requires
        level_wf(l),
    ensures
        r == push_atom(l, e),
{
    let Level { or_acc, and_acc, op, neg, pending, overflow } = l;
    let a = if neg {
        Box::new(Expression::Neg(e))
    } else {
        e
    };
    match op {
        Some(Operator::And) => {
            let prev = and_acc.unwrap();
            Level {
                or_acc,
                and_acc: Some(Box::new(Expression::And(prev, a))),
                op: None,
                neg: false,
                pending,
                overflow,
            }
        },
        Some(Operator::Or) => {
            let prev = and_acc.unwrap();
            let o = join_exec(or_acc, prev);
            Level { or_acc: Some(o), and_acc: Some(a), op: None, neg: false, pending, overflow }
        },
        None => Level { or_acc, and_acc: Some(a), op: None, neg: false, pending, overflow },
    }
}

fn finish_exec(l: Level, pos: usize, len: usize) -> (r: Result<Box<Expression>, ParseError>)
    requires
        level_wf(l),
    ensures
        r == finish(l, pos, len),
{
    let Level { or_acc, and_acc, op, .. } = l;
    match and_acc {
        None => Err(ParseError::ClosingNotFound { pos: len }),
        Some(a) => if op.is_some() {
            Err(ParseError::DanglingOperator { pos })
        } else {
            Ok(join_exec(or_acc, a))
        },
    }
}

fn is_space_exec(c: char) -> (r: bool)
    ensures
        r == is_space(c),
{
    ('\u{9}' <= c && c <= '\u{d}') || c == ' ' || c == '\u{85}' || c == '\u{a0}' || c
        == '\u{1680}' || ('\u{2000}' <= c && c <= '\u{200a}') || c == '\u{2028}' || c
        == '\u{2029}' || c == '\u{202f}' || c == '\u{205f}' || c == '\u{3000}'
}

fn add_digit_exec(l: Level, c: char) -> (r: Level)
    requires
        level_wf(l),
        expects_operand(l),
        is_digit(c),
    ensures
        r == add_digit(l, c),
        level_wf(r),
{
    let d: u32 = c as u32 - '0' as u32;
    let Level { or_acc, and_acc, op, neg, pending, overflow } = l;
    match pending {
        None => Level { or_acc, and_acc, op, neg, pending: Some(d), overflow: false },
        Some(v) => if overflow || v as u64 * 10 + d as u64 > u32::MAX as u64 {
            Level { or_acc, and_acc, op, neg, pending, overflow: true }
        } else {
            Level { or_acc, and_acc, op, neg, pending: Some(v * 10 + d), overflow }
        },
    }
}

/// Adds every variable of `e` to the table with the value false.
fn register(e: &Expression, table: &mut HashMap<u32, bool>)
    ensures
        final(table)@ == old(table)@.union_prefer_right(registered(e.vars())),
    decreases e,
{
    match e {
        Expression::And(a, b) => {
            register(a, table);
            register(b, table);
            assert(final(table)@ == old(table)@.union_prefer_right(registered(e.vars())));
        },
        Expression::Or(a, b) => {
            register(a, table);
            register(b, table);
            assert(final(table)@ == old(table)@.union_prefer_right(registered(e.vars())));
        },
        Expression::Neg(a) => {
            register(a, table);
        },
        Expression::Value(v) => {
            table.insert(*v, false);
            assert(final(table)@ == old(table)@.union_prefer_right(registered(e.vars())));
        },
    }
}

impl Expression {
    /// Turns the digits pending in `level`, if any, into a variable operand
    /// under the level's pending negation. `pos` is where the digits ended.
    pub fn parse_variable(level: Level, pos: usize) -> (r: Result<Level, ParseError>)
        requires
            level_wf(level),
        ensures
            r == flush(level, pos),
            r matches Ok(l) ==> level_wf(l) && l.pending is None,
    {
        let Level { or_acc, and_acc, op, neg, pending, overflow } = level;
        match pending {
            None => Ok(Level { or_acc, and_acc, op, neg, pending, overflow }),
            Some(v) => if overflow {
                Err(ParseError::NotANumber { pos })
            } else {
                let l = Level { or_acc, and_acc, op, neg, pending: None, overflow };
                let r = push_atom_exec(l, Box::new(Expression::Value(v)));
                proof {
                    lemma_push_atom_wf(l, Box::new(Expression::Value(v)));
                }
                Ok(r)
            },
        }
    }
}

/// The outer levels of open groups: each was checked to expect an operand
/// when its group opened, and holds no pending digits.
pub open spec fn outer_wf(outer: Seq<Level>) -> bool {
    forall|j: int|
        0 <= j < outer.len() ==> {
            &&& level_wf(#[trigger] outer[j])
            &&& outer[j].pending is None
            &&& expects_operand(outer[j])
        }
}

fn scan_exec(input: &Vec<char>) -> (r: Result<Box<Expression>, ParseError>)
    requires
        input@.len() < usize::MAX,
    ensures
        r == parse_spec(input@),
{
    let n = input.len();
    let mut cur = new_level();
    let mut outer: Vec<Level> = Vec::new();
    let mut i: usize = 0;
    loop
        invariant
            i <= n,
            n == input@.len(),
            n < usize::MAX,
            level_wf(cur),
            outer_wf(outer@),
            scan(input@, i as nat, cur, outer@) == parse_spec(input@),
        decreases n - i,
    {
        if i >= n {
            let l = match Expression::parse_variable(cur, n) {
                Err(e) => return Err(e),
                Ok(l) => l,
            };
            if outer.len() > 0 {
                return Err(ParseError::ClosingNotFound { pos: n });
            }
            return finish_exec(l, n, n);
        } else {
            let c = input[i];
            let pos = i + 1;
            if '0' <= c && c <= '9' {
                if !(cur.and_acc.is_none() || cur.op.is_some()) {
                    return Err(ParseError::UnexpectedExpression { found: c, pos });
                }
                cur = add_digit_exec(cur, c);
                i = i + 1;
            } else if c == '!' || c == '&' || c == '|' || c == '(' || c == ')' || is_space_exec(c) {
                let l = match Expression::parse_variable(cur, pos) {
                    Err(e) => return Err(e),
                    Ok(l) => l,
                };
                let expecting = l.and_acc.is_none() || l.op.is_some();
                if c == '!' {
                    if !expecting {
                        return Err(ParseError::UnexpectedNegation { pos });
                    }
                    let Level { or_acc, and_acc, op, neg, pending, overflow } = l;
                    cur = Level { or_acc, and_acc, op, neg: !neg, pending, overflow };
                    i = i + 1;
                } else if c == '&' || c == '|' {
                    if expecting {
                        return Err(ParseError::UnexpectedOperator { op: c, pos });
                    }
                    let o = if c == '&' {
                        Operator::And
                    } else {
                        Operator::Or
                    };
                    let Level { or_acc, and_acc, op, neg, pending, overflow } = l;
                    cur = Level { or_acc, and_acc, op: Some(o), neg, pending, overflow };
                    i = i + 1;
                } else if c == '(' {
                    if !expecting {
                        return Err(ParseError::UnexpectedExpression { found: c, pos });
                    }
                    outer.push(l);
                    cur = new_level();
                    i = i + 1;
                } else if c == ')' {
                    if outer.len() == 0 {
                        return Err(ParseError::UnexpectedClosing { pos });
                    }
                    let e = match finish_exec(l, pos, n) {
                        Err(e) => return Err(e),
                        Ok(e) => e,
                    };
                    let p = outer.pop().unwrap();
                    proof {
                        lemma_push_atom_wf(p, e);
                    }
                    cur = push_atom_exec(p, e);
                    i = i + 1;
                } else {
                    cur = l;
                    i = i + 1;
                }
            } else {
                return Err(ParseError::NotADigit { found: c, pos });
            }
        }
    }
}

impl Expression {
    /// Parses `input` into an expression: variables are runs of decimal
    /// digits, `!` negates the next operand, `&` binds tighter than `|`, both
    /// group to the left, and parentheses group: each `(` must be closed by
    /// a `)`, and each `)` must close a `(`. On success every variable of the
    /// expression is entered in `evaluation_table` with the value false; on
    /// an error the table is left as it was.
    pub fn parse(input: &Vec<char>, evaluation_table: &mut HashMap<u32, bool>) -> (r: Result<
        Box<Expression>,
        ParseError,
    >)
        requires
            input@.len() < usize::MAX,
        ensures
            r == parse_spec(input@),
            r matches Ok(e) ==> final(evaluation_table)@ == old(evaluation_table)@.union_prefer_right(
                registered(e.vars()),
            ),
            r is Err ==> final(evaluation_table)@ == old(evaluation_table)@,
    {
        let r = scan_exec(input);
        match r {
            Ok(e) => {
                register(&e, evaluation_table);
                Ok(e)
            },
            Err(x) => Err(x),
        }
    }
}

/// After a successful parse the table holds a value for every variable of
/// the expression, so the expression can be evaluated and searched over it.
pub proof fn lemma_parsed_covered(e: Expression, t: Map<u32, bool>)
    ensures
        e.covered_by(t.union_prefer_right(registered(e.vars()))),
{
}

} // verus!
