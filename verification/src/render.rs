//! Rendering: turning a concrete (rolled) tree into a display string.
//!
//! A dice node renders as a bracketed, comma-separated list of its rolled
//! values (`[3, 5, 1]`, or `[]` when nothing was rolled), a literal as its
//! decimal digits, unary minus as `- ` before its operand, and a binary node
//! as `left op right` with one space around the operator symbol.  No
//! parentheses are reinserted.

use vstd::prelude::*;

use crate::ast::{BinaryOperator, Expr};

verus! {

/// The decimal digit character for `d` in `0..=9`.
pub open spec fn digit_char(d: int) -> char {
    if d == 0 {
        '0'
    } else if d == 1 {
        '1'
    } else if d == 2 {
        '2'
    } else if d == 3 {
        '3'
    } else if d == 4 {
        '4'
    } else if d == 5 {
        '5'
    } else if d == 6 {
        '6'
    } else if d == 7 {
        '7'
    } else if d == 8 {
        '8'
    } else {
        '9'
    }
}

/// The decimal digits of a non-negative number, most significant first.
pub open spec fn dec_str(n: int) -> Seq<char>
    recommends
        n >= 0,
    decreases n,
{
    if n < 10 {
        seq![digit_char(n)]
    } else {
        dec_str(n / 10).push(digit_char(n % 10))
    }
}

/// The comma-separated rendering of a list of rolled values.
pub open spec fn spec_render_rolls(s: Seq<u32>) -> Seq<char>
    decreases s.len(),
{
    if s.len() == 0 {
        Seq::empty()
    } else if s.len() == 1 {
        dec_str(s[0] as int)
    } else {
        spec_render_rolls(s.drop_last()) + seq![',', ' '] + dec_str(s.last() as int)
    }
}

/// The display symbol of a binary operator.
pub open spec fn binop_char(op: BinaryOperator) -> char {
    match op {
        BinaryOperator::Add => '+',
        BinaryOperator::Substract => '-',
        BinaryOperator::Multiply => '*',
        BinaryOperator::Divide => '/',
        BinaryOperator::Modulo => '%',
    }
}

/// The display string of a concrete tree.
pub open spec fn spec_render(e: Expr<Vec<u32>>) -> Seq<char>
    decreases e,
{
    match e {
        Expr::Dices(rolls) => seq!['['] + spec_render_rolls(rolls@) + seq![']'],
        Expr::Integer(n) => dec_str(n as int),
        Expr::UnOp { exp, .. } => seq!['-', ' '] + spec_render(*exp),
        Expr::BinOp { lhs, op, rhs } => spec_render(*lhs) + seq![' ', binop_char(op), ' ']
            + spec_render(*rhs),
    }
}

/// Append the decimal digit character for `d` in `0..=9`.
fn append_digit(out: &mut String, d: u32)
    requires
        d < 10,
    ensures
        final(out)@ == old(out)@ + seq![digit_char(d as int)],
{
    if d == 0 {
        proof {
            reveal_strlit("0");
        }
        out.append("0");
    } else if d == 1 {
        proof {
            reveal_strlit("1");
        }
        out.append("1");
    } else if d == 2 {
        proof {
            reveal_strlit("2");
        }
        out.append("2");
    } else if d == 3 {
        proof {
            reveal_strlit("3");
        }
        out.append("3");
    } else if d == 4 {
        proof {
            reveal_strlit("4");
        }
        out.append("4");
    } else if d == 5 {
        proof {
            reveal_strlit("5");
        }
        out.append("5");
    } else if d == 6 {
        proof {
            reveal_strlit("6");
        }
        out.append("6");
    } else if d == 7 {
        proof {
            reveal_strlit("7");
        }
        out.append("7");
    } else if d == 8 {
        proof {
            reveal_strlit("8");
        }
        out.append("8");
    } else {
        proof {
            reveal_strlit("9");
        }
        out.append("9");
    }
    proof {
        assert(final(out)@ =~= old(out)@ + seq![digit_char(d as int)]);
    }
}

/// Append the decimal digits of `n`, most significant first.
fn append_u32(out: &mut String, n: u32)
    ensures
        final(out)@ == old(out)@ + dec_str(n as int),
    decreases n,
{
    if n >= 10 {
        append_u32(out, n / 10);
        append_digit(out, n % 10);
        proof {
            assert(final(out)@ =~= old(out)@ + dec_str(n as int));
        }
    } else {
        append_digit(out, n);
    }
}

impl Expr<Vec<u32>> {
    /// Append the display string of this tree to `out`.
    fn render_into(&self, out: &mut String)
        ensures
            final(out)@ == old(out)@ + spec_render(*self),
        decreases *self,
    {
        match self {
            Expr::Dices(rolls) => {
                proof {
                    reveal_strlit("[");
                    reveal_strlit("]");
                    reveal_strlit(", ");
                }
                out.append("[");
                let ghost base: Seq<char> = out@;
                let mut k: usize = 0;
                while k < rolls.len()
                    invariant
                        k <= rolls@.len(),
                        out@ == base + spec_render_rolls(rolls@.take(k as int)),
                        ", "@ == seq![',', ' '],
                    decreases rolls@.len() - k,
                {
                    if k > 0 {
                        out.append(", ");
                    }
                    append_u32(out, rolls[k]);
                    proof {
                        let taken = rolls@.take(k + 1);
                        assert(taken.drop_last() =~= rolls@.take(k as int));
                        assert(taken.last() == rolls@[k as int]);
                        if k == 0 {
                            assert(taken[0] == rolls@[0]);
                        }
                        assert(out@ =~= base + spec_render_rolls(rolls@.take(k + 1)));
                    }
                    k = k + 1;
                }
                out.append("]");
                proof {
                    assert(rolls@.take(rolls@.len() as int) =~= rolls@);
                    assert(final(out)@ =~= old(out)@ + spec_render(*self));
                }
            },
            Expr::Integer(n) => {
                append_u32(out, *n);
            },
            Expr::UnOp { exp, .. } => {
                proof {
                    reveal_strlit("- ");
                }
                out.append("- ");
                exp.render_into(out);
                proof {
                    assert(final(out)@ =~= old(out)@ + spec_render(*self));
                }
            },
            Expr::BinOp { lhs, op, rhs } => {
                lhs.render_into(out);
                match op {
                    BinaryOperator::Add => {
                        proof {
                            reveal_strlit(" + ");
                        }
                        out.append(" + ");
                    },
                    BinaryOperator::Substract => {
                        proof {
                            reveal_strlit(" - ");
                        }
                        out.append(" - ");
                    },
                    BinaryOperator::Multiply => {
                        proof {
                            reveal_strlit(" * ");
                        }
                        out.append(" * ");
                    },
                    BinaryOperator::Divide => {
                        proof {
                            reveal_strlit(" / ");
                        }
                        out.append(" / ");
                    },
                    BinaryOperator::Modulo => {
                        proof {
                            reveal_strlit(" % ");
                        }
                        out.append(" % ");
                    },
                }
                rhs.render_into(out);
                proof {
                    assert(final(out)@ =~= old(out)@ + spec_render(*self));
                }
            },
        }
    }

    /// The display string of this tree: every dice node as a bracketed list
    /// of its rolled values, operators with one space on each side, no
    /// parentheses reinserted.
    pub fn render(&self) -> (s: String)
        ensures
            s@ == spec_render(*self),
    {
        let mut out = String::new();
        self.render_into(&mut out);
        proof {
            assert(out@ =~= spec_render(*self));
        }
        out
    }
}

} // verus!
