//! The value a combinator produces for the prefix of input it consumed.

use vstd::prelude::*;

verus! {

/// The input symbol: an opaque value compared only by equality.  Grammar
/// authors map their alphabet onto these values.
pub type Token = u64;

/// A parse-result value: the output a combinator builds for the prefix it
/// consumed.  Values are plain trees: scalars (a matched token or a number a
/// transform chose), pairs from sequencing, and lists built as `Nil`/`Cons`
/// chains by the derived repetition combinators.
#[derive(Debug, PartialEq, Eq)]
pub enum Ast {
    /// A scalar: a matched token, or a number produced by a transform.
    Num(u64),
    /// The pair built by sequencing two combinators.
    Pair(Box<Ast>, Box<Ast>),
    /// The empty list.
    Nil,
    /// A list cell: head element, then the rest of the list.
    Cons(Box<Ast>, Box<Ast>),
}

impl Ast {
    /// Structural equality, with the meaning of ghost `==` carried into
    /// executable code.
    pub fn eq_value(&self, other: &Ast) -> (r: bool)
        ensures
            r == (self == other),
        decreases self,
    {
        match (self, other) {
            (Ast::Num(a), Ast::Num(b)) => *a == *b,
            (Ast::Pair(a1, a2), Ast::Pair(b1, b2)) => a1.eq_value(b1) && a2.eq_value(b2),
            (Ast::Nil, Ast::Nil) => true,
            (Ast::Cons(h1, t1), Ast::Cons(h2, t2)) => h1.eq_value(h2) && t1.eq_value(t2),
            _ => false,
        }
    }

    /// Structural duplication: the same tree, owned anew, so that one
    /// intermediate result can appear in several candidate derivations.
    pub fn duplicate(&self) -> (r: Ast)
        ensures
            r == self,
        decreases self,
    {
        match self {
            Ast::Num(n) => Ast::Num(*n),
            Ast::Pair(a, b) => Ast::Pair(Box::new(a.duplicate()), Box::new(b.duplicate())),
            Ast::Nil => Ast::Nil,
            Ast::Cons(h, t) => Ast::Cons(Box::new(h.duplicate()), Box::new(t.duplicate())),
        }
    }
}

/// The character that writes a single decimal digit.
pub open spec fn spec_digit_char(d: nat) -> char {
    if d == 0 {
        '0'
    } else if d == 1 {
        '1'
    } else if d == 2 {
        '2'
    } else if d == 3 {
        '3'
    } else if d == 4 {
        '4'
    } else if d == 5 {
        '5'
    } else if d == 6 {
        '6'
    } else if d == 7 {
        '7'
    } else if d == 8 {
        '8'
    } else {
        '9'
    }
}

/// The decimal spelling of a number, most significant digit first.
pub open spec fn spec_decimal(n: nat) -> Seq<char>
    decreases n,
{
    if n < 10 {
        seq![spec_digit_char(n)]
    } else {
        spec_decimal(n / 10).push(spec_digit_char(n % 10))
    }
}

/// The printable form of a value: numbers in decimal, pairs as
/// `(left, right)`, lists as `[first, second, ...]`; a list whose tail is not
/// itself a list shows the tail after a `|`.
pub open spec fn spec_text(a: Ast) -> Seq<char>
    decreases a, 0int,
{
    match a {
        Ast::Num(n) => spec_decimal(n as nat),
        Ast::Pair(x, y) => seq!['('] + spec_text(*x) + seq![',', ' '] + spec_text(*y) + seq![')'],
        Ast::Nil => seq!['[', ']'],
        Ast::Cons(h, t) => seq!['['] + spec_text(*h) + spec_text_tail(*t),
    }
}

/// The printable form of a list tail: the elements still to come, then the
/// closing bracket.
pub open spec fn spec_text_tail(a: Ast) -> Seq<char>
    decreases a, 1int,
{
    match a {
        Ast::Nil => seq![']'],
        Ast::Cons(h, t) => seq![',', ' '] + spec_text(*h) + spec_text_tail(*t),
        other => seq![' ', '|', ' '] + spec_text(other) + seq![']'],
    }
}

fn push_digit(d: u64, out: &mut String)
    requires
        d < 10,
    ensures
        final(out)@ == old(out)@ + seq![spec_digit_char(d as nat)],
{
    let s: &str = if d == 0 {
        "0"
    } else if d == 1 {
        "1"
    } else if d == 2 {
        "2"
    } else if d == 3 {
        "3"
    } else if d == 4 {
        "4"
    } else if d == 5 {
        "5"
    } else if d == 6 {
        "6"
    } else if d == 7 {
        "7"
    } else {
        proof {
            reveal_strlit("8");
            reveal_strlit("9");
        }
        if d == 8 {
            "8"
        } else {
            "9"
        }
    };
    proof {
        reveal_strlit("0");
        reveal_strlit("1");
        reveal_strlit("2");
        reveal_strlit("3");
        reveal_strlit("4");
        reveal_strlit("5");
        reveal_strlit("6");
        reveal_strlit("7");
        reveal_strlit("8");
        reveal_strlit("9");
        assert(s@ =~= seq![spec_digit_char(d as nat)]);
    }
    out.append(s);
}

pub(crate) fn push_decimal(n: u64, out: &mut String)
    ensures
        final(out)@ == old(out)@ + spec_decimal(n as nat),
    decreases n,
{
    if n < 10 {
        push_digit(n, out);
    } else {
        push_decimal(n / 10, out);
        push_digit(n % 10, out);
        proof {
            assert(out@ =~= old(out)@ + spec_decimal(n as nat));
        }
    }
}

fn push_text(a: &Ast, out: &mut String)
    ensures
        final(out)@ == old(out)@ + spec_text(*a),
    decreases a, 0int,
{
    proof {
        reveal_strlit("(");
        reveal_strlit(", ");
        reveal_strlit(")");
        reveal_strlit("[");
        reveal_strlit("[]");
    }
    match a {
        Ast::Num(n) => {
            push_decimal(*n, out);
        },
        Ast::Pair(x, y) => {
            out.append("(");
            push_text(x, out);
            out.append(", ");
            push_text(y, out);
            out.append(")");
            proof {
                assert(out@ =~= old(out)@ + spec_text(*a));
            }
        },
        Ast::Nil => {
            out.append("[]");
            proof {
                assert(out@ =~= old(out)@ + spec_text(*a));
            }
        },
        Ast::Cons(h, t) => {
            out.append("[");
            push_text(h, out);
            push_text_tail(t, out);
            proof {
                assert(out@ =~= old(out)@ + spec_text(*a));
            }
        },
    }
}

fn push_text_tail(a: &Ast, out: &mut String)
    ensures
        final(out)@ == old(out)@ + spec_text_tail(*a),
    decreases a, 1int,
{
    proof {
        reveal_strlit("]");
        reveal_strlit(", ");
        reveal_strlit(" | ");
    }
    match a {
        Ast::Nil => {
            out.append("]");
            proof {
                assert(out@ =~= old(out)@ + spec_text_tail(*a));
            }
        },
        Ast::Cons(h, t) => {
            out.append(", ");
            push_text(h, out);
            push_text_tail(t, out);
            proof {
                assert(out@ =~= old(out)@ + spec_text_tail(*a));
            }
        },
        other => {
            out.append(" | ");
            push_text(other, out);
            out.append("]");
            proof {
                assert(out@ =~= old(out)@ + spec_text_tail(*a));
            }
        },
    }
}

impl Ast {
    /// The printable form of the value; see [`spec_text`].
    pub fn to_text(&self) -> (s: String)
        ensures
            s@ == spec_text(*self),
    {
        let mut out = String::new();
        push_text(self, &mut out);
        proof {
            assert(out@ =~= spec_text(*self));
        }
        out
    }
}

/// Appends two list values.  A non-list operand on the left stands for the
/// one-element list holding it; the right operand becomes the tail as it is.
pub open spec fn spec_list_append(a: Ast, b: Ast) -> Ast
    decreases a,
{
    match a {
        Ast::Nil => b,
        Ast::Cons(h, t) => Ast::Cons(h, Box::new(spec_list_append(*t, b))),
        other => Ast::Cons(Box::new(other), Box::new(b)),
    }
}

/// Appends two list values; see [`spec_list_append`].
pub fn list_append(a: Ast, b: Ast) -> (r: Ast)
    ensures
        r == spec_list_append(a, b),
    decreases a,
{
    match a {
        Ast::Nil => b,
        Ast::Cons(h, t) => Ast::Cons(h, Box::new(list_append(*t, b))),
        other => Ast::Cons(Box::new(other), Box::new(b)),
    }
}

} // verus!
