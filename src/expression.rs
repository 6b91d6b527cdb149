use std::collections::HashMap;
use vstd::prelude::*;

verus! {

broadcast use vstd::std_specs::hash::group_hash_axioms;

/// A propositional formula. Each internal node owns its children.
pub enum Expression {
    And(Box<Expression>, Box<Expression>),
    Or(Box<Expression>, Box<Expression>),
    Neg(Box<Expression>),
    /// The variable with this index: 0 for x0, 1 for x1, and so on.
    Value(u32),
}

impl Expression {
    /// The indices of the variables that occur in the formula.
    pub open spec fn vars(self) -> Set<u32>
        decreases self,
    {
        match self {
            Expression::And(a, b) => a.vars() + b.vars(),
            Expression::Or(a, b) => a.vars() + b.vars(),
            Expression::Neg(a) => a.vars(),
            Expression::Value(v) => set![v],
        }
    }

    /// Every variable of the formula has a value in `t`.
    pub open spec fn covered_by(self, t: Map<u32, bool>) -> bool {
        self.vars().subset_of(t.dom())
    }

    /// The truth value of the formula under the assignment `t`.
    pub open spec fn eval(self, t: Map<u32, bool>) -> bool
        decreases self,
    {
        match self {
            Expression::And(a, b) => a.eval(t) && b.eval(t),
            Expression::Or(a, b) => a.eval(t) || b.eval(t),
            Expression::Neg(a) => !a.eval(t),
            Expression::Value(v) => t[v],
        }
    }

    /// Evaluates the formula under the assignment held in `evaluation_table`.
    pub fn evaluate(&self, evaluation_table: &HashMap<u32, bool>) -> (r: bool)
        requires
            self.covered_by(evaluation_table@),
        ensures
            r == self.eval(evaluation_table@),
        decreases self,
    {
        match self {
            Expression::And(a, b) => a.evaluate(evaluation_table) && b.evaluate(evaluation_table),
            Expression::Or(a, b) => a.evaluate(evaluation_table) || b.evaluate(evaluation_table),
            Expression::Neg(a) => !a.evaluate(evaluation_table),
            Expression::Value(a) => *evaluation_table.get(a).unwrap(),
        }
    }
}

/// The decimal digit `d`, for `d < 10`.
pub open spec fn digit_char(d: nat) -> char {
    ((48 + d) as u8) as char
}

/// The decimal numeral of `v`, without leading zeros.
pub open spec fn numeral(v: nat) -> Seq<char>
    decreases v,
{
    if v < 10 {
        seq![digit_char(v)]
    } else {
        numeral(v / 10).push(digit_char(v % 10))
    }
}

/// The fully parenthesised infix text of an expression: `(a & b)`,
/// `(a | b)`, `!a`, and a variable as its index.
pub open spec fn text(e: Expression) -> Seq<char>
    decreases e,
{
    match e {
        Expression::And(a, b) => seq!['('] + text(*a) + seq![' ', '&', ' '] + text(*b) + seq![')'],
        Expression::Or(a, b) => seq!['('] + text(*a) + seq![' ', '|', ' '] + text(*b) + seq![')'],
        Expression::Neg(a) => seq!['!'] + text(*a),
        Expression::Value(v) => numeral(v as nat),
    }
}

fn write_numeral(v: u32, out: &mut Vec<char>)
    ensures
        final(out)@ == old(out)@ + numeral(v as nat),
    decreases v,
{
    if v >= 10 {
        write_numeral(v / 10, out);
    }
    let d: u8 = (v % 10) as u8;
    out.push((48u8 + d) as char);
    assert(final(out)@ =~= old(out)@ + numeral(v as nat));
}

impl Expression {
    fn write_text(&self, out: &mut Vec<char>)
        ensures
            final(out)@ == old(out)@ + text(*self),
        decreases self,
    {
        match self {
            Expression::And(a, b) => {
                out.push('(');
                a.write_text(out);
                out.push(' ');
                out.push('&');
                out.push(' ');
                b.write_text(out);
                out.push(')');
                assert(final(out)@ =~= old(out)@ + text(*self));
            },
            Expression::Or(a, b) => {
                out.push('(');
                a.write_text(out);
                out.push(' ');
                out.push('|');
                out.push(' ');
                b.write_text(out);
                out.push(')');
                assert(final(out)@ =~= old(out)@ + text(*self));
            },
            Expression::Neg(a) => {
                out.push('!');
                a.write_text(out);
                assert(final(out)@ =~= old(out)@ + text(*self));
            },
            Expression::Value(v) => {
                write_numeral(*v, out);
            },
        }
    }

    /// The expression as fully parenthesised infix text.
    pub fn to_text(&self) -> (r: Vec<char>)
        ensures
            r@ == text(*self),
    {
        let mut out: Vec<char> = Vec::new();
        self.write_text(&mut out);
        assert(out@ =~= text(*self));
        out
    }
}

} // verus!
