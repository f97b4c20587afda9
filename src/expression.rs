//! The scoring expression: a tree over the run's elapsed fraction, total mass and mass
//! count, numeric constants, and binary and unary operators, and its text form with the
//! fewest parentheses that keep its structure.
use vstd::prelude::*;
use vstd::string::StringExecFns;

verus! {

/// A binary operator.
#[derive(Copy, Clone, Debug, PartialEq, Eq, Structural)]
pub enum BinaryOperator {
    Add,
    Multiply,
    Subtract,
    Divide,
    Exponent,
}

/// A unary operator.
#[derive(Copy, Clone, Debug, PartialEq, Eq, Structural)]
pub enum UnaryOperator {
    Negative,
    Positive,
    NaturalLog,
    Base10Log,
}

/// A scoring expression. A constant holds its numeral as written (digits, an optional
/// point and an optional exponent, and possibly a leading sign when it was made by
/// folding); its value is read by whoever evaluates the tree.
#[derive(Debug, PartialEq)]
pub enum Expression {
    /// The fraction of the run that has elapsed.
    Elapsed,
    /// The total mass of the scored bodies.
    TotalMass,
    /// The number of scored bodies.
    MassCount,
    /// A numeric constant.
    Constant(String),
    /// An operator applied to two operands.
    BinaryOp(Box<Expression>, BinaryOperator, Box<Expression>),
    /// An operator applied to one operand.
    UnaryOp(UnaryOperator, Box<Expression>),
}

impl BinaryOperator {
    pub open spec fn precedence_spec(self) -> u32 {
        match self {
            BinaryOperator::Add => 1,
            BinaryOperator::Subtract => 1,
            BinaryOperator::Multiply => 2,
            BinaryOperator::Divide => 2,
            BinaryOperator::Exponent => 3,
        }
    }

    /// Binding strength: higher binds tighter.
    pub fn precedence(self) -> (r: u32)
        ensures
            r == self.precedence_spec(),
    {
        match self {
            BinaryOperator::Add => 1,
            BinaryOperator::Subtract => 1,
            BinaryOperator::Multiply => 2,
            BinaryOperator::Divide => 2,
            BinaryOperator::Exponent => 3,
        }
    }

    pub open spec fn symbol_spec(self) -> Seq<char> {
        match self {
            BinaryOperator::Add => seq!['+'],
            BinaryOperator::Subtract => seq!['-'],
            BinaryOperator::Multiply => seq!['*'],
            BinaryOperator::Divide => seq!['/'],
            BinaryOperator::Exponent => seq!['^'],
        }
    }

    /// The operator's symbol.
    pub fn symbol(self) -> (r: &'static str)
        ensures
            r@ == self.symbol_spec(),
    {
        match self {
            BinaryOperator::Add => {
                proof {
                    reveal_strlit("+");
                }
                "+"
            },
            BinaryOperator::Subtract => {
                proof {
                    reveal_strlit("-");
                }
                "-"
            },
            BinaryOperator::Multiply => {
                proof {
                    reveal_strlit("*");
                }
                "*"
            },
            BinaryOperator::Divide => {
                proof {
                    reveal_strlit("/");
                }
                "/"
            },
            BinaryOperator::Exponent => {
                proof {
                    reveal_strlit("^");
                }
                "^"
            },
        }
    }
}

impl UnaryOperator {
    pub open spec fn parenthesized_operand_spec(self) -> bool {
        match self {
            UnaryOperator::Negative | UnaryOperator::Positive => false,
            _ => true,
        }
    }

    /// Whether the operand is always written in parentheses (the logarithms).
    pub fn parenthesized_operand(self) -> (r: bool)
        ensures
            r == self.parenthesized_operand_spec(),
    {
        match self {
            UnaryOperator::Negative | UnaryOperator::Positive => false,
            _ => true,
        }
    }

    pub open spec fn symbol_spec(self) -> Seq<char> {
        match self {
            UnaryOperator::Negative => seq!['-'],
            UnaryOperator::Positive => seq!['+'],
            UnaryOperator::NaturalLog => seq!['l', 'n'],
            UnaryOperator::Base10Log => seq!['l', 'o', 'g'],
        }
    }

    /// The operator's symbol.
    pub fn symbol(self) -> (r: &'static str)
        ensures
            r@ == self.symbol_spec(),
    {
        match self {
            UnaryOperator::Negative => {
                proof {
                    reveal_strlit("-");
                }
                "-"
            },
            UnaryOperator::Positive => {
                proof {
                    reveal_strlit("+");
                }
                "+"
            },
            UnaryOperator::NaturalLog => {
                proof {
                    reveal_strlit("ln");
                }
                "ln"
            },
            UnaryOperator::Base10Log => {
                proof {
                    reveal_strlit("log");
                }
                "log"
            },
        }
    }
}

/// Binding strength of a whole expression: an operator's for a binary operation, one
/// above every binary operator for a unary one, and the highest for an atom.
pub open spec fn precedence_of(e: Expression) -> u32 {
    match e {
        Expression::BinaryOp(_, op, _) => op.precedence_spec(),
        Expression::UnaryOp(..) => 4,
        _ => 5,
    }
}

pub open spec fn parenthesized(t: Seq<char>) -> Seq<char> {
    seq!['('] + t + seq![')']
}

/// The text of an expression. The left operand of a binary operation is parenthesized
/// when it binds more loosely than the operator, the right one when it does not bind
/// more tightly; binary operators are set off by spaces; a logarithm's operand is
/// always parenthesized, a sign's never.
pub open spec fn text(e: Expression) -> Seq<char>
    decreases e,
{
    match e {
        Expression::Elapsed => seq!['e', 'l', 'a', 'p', 's', 'e', 'd'],
        Expression::TotalMass => seq!['t', 'o', 't', 'a', 'l', '_', 'm', 'a', 's', 's'],
        Expression::MassCount => seq!['m', 'a', 's', 's', '_', 'c', 'o', 'u', 'n', 't'],
        Expression::Constant(c) => c@,
        Expression::BinaryOp(l, op, r) => {
            let lt = if precedence_of(*l) < op.precedence_spec() {
                parenthesized(text(*l))
            } else {
                text(*l)
            };
            let rt = if precedence_of(*r) <= op.precedence_spec() {
                parenthesized(text(*r))
            } else {
                text(*r)
            };
            lt + seq![' '] + op.symbol_spec() + seq![' '] + rt
        },
        Expression::UnaryOp(op, v) => if op.parenthesized_operand_spec() {
            op.symbol_spec() + parenthesized(text(*v))
        } else {
            op.symbol_spec() + text(*v)
        },
    }
}

impl Expression {
    /// Binding strength (see `precedence_of`).
    pub fn precedence(&self) -> (r: u32)
        ensures
            r == precedence_of(*self),
    {
        match self {
            Expression::BinaryOp(_, op, _) => op.precedence(),
            Expression::UnaryOp(..) => 4,
            _ => 5,
        }
    }

    /// Appends the text of this expression to `out`.
    pub fn write_text(&self, out: &mut String)
        ensures
            final(out)@ == old(out)@ + text(*self),
        decreases self,
    {
        match self {
            Expression::Elapsed => {
                proof {
                    reveal_strlit("elapsed");
                }
                out.append("elapsed");
            },
            Expression::TotalMass => {
                proof {
                    reveal_strlit("total_mass");
                }
                out.append("total_mass");
            },
            Expression::MassCount => {
                proof {
                    reveal_strlit("mass_count");
                }
                out.append("mass_count");
            },
            Expression::Constant(c) => {
                out.append(c.as_str());
            },
            Expression::BinaryOp(l, op, r) => {
                proof {
                    reveal_strlit("(");
                    reveal_strlit(")");
                    reveal_strlit(" ");
                    reveal_strlit(" (");
                    reveal_strlit(") ");
                }
                let p = op.precedence();
                if l.precedence() < p {
                    out.append("(");
                    l.write_text(out);
                    out.append(") ");
                } else {
                    l.write_text(out);
                    out.append(" ");
                }
                out.append(op.symbol());
                if r.precedence() <= p {
                    out.append(" (");
                    r.write_text(out);
                    out.append(")");
                } else {
                    out.append(" ");
                    r.write_text(out);
                }
                assert(final(out)@ =~= old(out)@ + text(*self));
            },
            Expression::UnaryOp(op, v) => {
                proof {
                    reveal_strlit("(");
                    reveal_strlit(")");
                }
                out.append(op.symbol());
                if op.parenthesized_operand() {
                    out.append("(");
                    v.write_text(out);
                    out.append(")");
                } else {
                    v.write_text(out);
                }
                assert(final(out)@ =~= old(out)@ + text(*self));
            },
        }
    }

    /// The text of this expression.
    pub fn to_text(&self) -> (r: String)
        ensures
            r@ == text(*self),
    {
        let mut out = String::new();
        self.write_text(&mut out);
        assert(out@ =~= text(*self));
        out
    }
}

} // verus!
