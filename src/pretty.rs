use vstd::prelude::*;
use vstd::string::*;
use crate::names::{decimal, decimal_string};
use crate::term::{PrimOp, STerm, Term};

verus! {

/// The text of an integer: a minus sign if negative, then its decimal digits.
pub open spec fn int_text(n: i64) -> Seq<char> {
    if n < 0 {
        seq!['-'] + decimal((-(n as int)) as nat)
    } else {
        decimal(n as nat)
    }
}

/// The symbol of an operator.
pub open spec fn op_text(op: PrimOp) -> Seq<char> {
    match op {
        PrimOp::Add => seq!['+'],
        PrimOp::Sub => seq!['-'],
        PrimOp::Mul => seq!['*'],
        PrimOp::Div => seq!['/'],
        PrimOp::Eq => seq!['=', '='],
        PrimOp::Lt => seq!['<'],
        PrimOp::Gt => seq!['>'],
    }
}

/// The surface syntax of a term, with every compound term in parentheses.
pub open spec fn pretty(t: STerm) -> Seq<char>
    decreases t,
{
    match t {
        STerm::Var(x) => x,
        STerm::Abs(p, b) => seq!['(', 'λ'] + p + seq!['.', ' '] + pretty(*b) + seq![')'],
        STerm::App(l, r) => seq!['('] + pretty(*l) + seq![' '] + pretty(*r) + seq![')'],
        STerm::Int(n) => int_text(n),
        STerm::Bool(v) => if v {
            seq!['t', 'r', 'u', 'e']
        } else {
            seq!['f', 'a', 'l', 's', 'e']
        },
        STerm::If(c, a, e) => seq!['(', 'i', 'f', ' '] + pretty(*c) + seq![' ', 't', 'h', 'e', 'n', ' ']
            + pretty(*a) + seq![' ', 'e', 'l', 's', 'e', ' '] + pretty(*e) + seq![')'],
        STerm::PrimOp(op, l, r) => seq!['('] + pretty(*l) + seq![' '] + op_text(op) + seq![' ']
            + pretty(*r) + seq![')'],
    }
}

fn op_str(op: PrimOp) -> (s: &'static str)
    ensures
        s@ == op_text(op),
{
    proof {
        reveal_strlit("+");
        reveal_strlit("-");
        reveal_strlit("*");
        reveal_strlit("/");
        reveal_strlit("==");
        reveal_strlit("<");
        reveal_strlit(">");
    }
    match op {
        PrimOp::Add => "+",
        PrimOp::Sub => "-",
        PrimOp::Mul => "*",
        PrimOp::Div => "/",
        PrimOp::Eq => "==",
        PrimOp::Lt => "<",
        PrimOp::Gt => ">",
    }
}

fn int_string(n: i64) -> (s: String)
    ensures
        s@ == int_text(n),
{
    if n < 0 {
        let m = (0 - (n as i128)) as u64;
        let mut s = String::from_str("-");
        proof {
            reveal_strlit("-");
        }
        let d = decimal_string(m);
        s.append(d.as_str());
        proof {
            assert(s@ =~= int_text(n));
        }
        s
    } else {
        decimal_string(n as u64)
    }
}

/// Renders a term in surface syntax.
pub fn pretty_print(term: &Term) -> (s: String)
    ensures
        s@ == pretty(term@),
    decreases term,
{
    proof {
        reveal_strlit("(");
        reveal_strlit(")");
        reveal_strlit(" ");
        reveal_strlit("(λ");
        reveal_strlit(". ");
        reveal_strlit("true");
        reveal_strlit("false");
        reveal_strlit("(if ");
        reveal_strlit(" then ");
        reveal_strlit(" else ");
    }
    match term {
        Term::Var(name) => name.clone(),
        Term::Abs(param, body) => {
            let mut s = String::from_str("(λ");
            s.append(param.as_str());
            s.append(". ");
            s.append(pretty_print(body).as_str());
            s.append(")");
            proof {
                assert(s@ =~= pretty(term@));
            }
            s
        },
        Term::App(t1, t2) => {
            let mut s = String::from_str("(");
            s.append(pretty_print(t1).as_str());
            s.append(" ");
            s.append(pretty_print(t2).as_str());
            s.append(")");
            proof {
                assert(s@ =~= pretty(term@));
            }
            s
        },
        Term::Int(n) => int_string(*n),
        Term::Bool(v) => {
            if *v {
                String::from_str("true")
            } else {
                String::from_str("false")
            }
        },
        Term::If(cond, t1, t2) => {
            let mut s = String::from_str("(if ");
            s.append(pretty_print(cond).as_str());
            s.append(" then ");
            s.append(pretty_print(t1).as_str());
            s.append(" else ");
            s.append(pretty_print(t2).as_str());
            s.append(")");
            proof {
                assert(s@ =~= pretty(term@));
            }
            s
        },
        Term::PrimOp(op, t1, t2) => {
            let mut s = String::from_str("(");
            s.append(pretty_print(t1).as_str());
            s.append(" ");
            s.append(op_str(*op));
            s.append(" ");
            s.append(pretty_print(t2).as_str());
            s.append(")");
            proof {
                assert(s@ =~= pretty(term@));
            }
            s
        },
    }
}

} // verus!
