use vstd::prelude::*;
use crate::input::{i32_value, parse_int};
use crate::lexer::push_char;

verus! {

/// Where the first `c` stands in `s`; `s.len()` when there is none.
pub open spec fn first_index(s: Seq<char>, c: char) -> int
    decreases s.len(),
{
    if s.len() == 0 {
        0
    } else if s[0] == c {
        0
    } else {
        1 + first_index(s.skip(1), c)
    }
}

/// The text before the first `c`.
pub open spec fn first_field(s: Seq<char>, c: char) -> Seq<char> {
    s.take(first_index(s, c))
}

/// The text between the first `c` and the next one, or the end.
pub open spec fn second_field(s: Seq<char>, c: char) -> Seq<char> {
    let rest = s.skip(first_index(s, c) + 1);
    rest.take(first_index(rest, c))
}

proof fn lemma_first_index_bounds(s: Seq<char>, c: char)
    ensures
        0 <= first_index(s, c) <= s.len(),
        first_index(s, c) < s.len() ==> s[first_index(s, c)] == c,
    decreases s.len(),
{
    if s.len() > 0 && s[0] != c {
        lemma_first_index_bounds(s.skip(1), c);
    }
}

proof fn lemma_first_index_push(s: Seq<char>, x: char, c: char)
    ensures
        first_index(s.push(x), c) == if first_index(s, c) < s.len() {
            first_index(s, c)
        } else if x == c {
            s.len() as int
        } else {
            s.len() + 1int
        },
    decreases s.len(),
{
    lemma_first_index_bounds(s, c);
    let t = s.push(x);
    if s.len() == 0 {
        assert(t[0] == x);
        assert(first_index(t.skip(1), c) == 0);
    } else {
        assert(t[0] == s[0]);
        if s[0] != c {
            assert(t.skip(1) == s.skip(1).push(x));
            lemma_first_index_push(s.skip(1), x, c);
            lemma_first_index_bounds(s.skip(1), c);
            assert(first_index(t, c) == 1 + first_index(s.skip(1).push(x), c));
            assert(first_index(s, c) == 1 + first_index(s.skip(1), c));
        }
    }
}

/// Splits `text` at `c`: whether `c` occurs, the text before its first
/// occurrence, and the text from there to the next occurrence or the end.
fn split_on(text: &str, c: char) -> (r: (bool, String, String))
    ensures
        r.0 == (first_index(text@, c) < text@.len()),
        r.1@ == first_field(text@, c),
        r.0 ==> r.2@ == second_field(text@, c),
{
    let ghost s = text@;
    let mut left = String::new();
    let mut right = String::new();
    let mut seen: usize = 0;
    for ch in it: text.chars()
        invariant
            it.seq() == s,
            seen <= 2,
            ({
                let p = s.take(it.index());
                let k = first_index(p, c);
                let rest = p.skip(k + 1);
                &&& (seen == 0) == (k == p.len())
                &&& seen == 0 ==> left@ == p && right@.len() == 0
                &&& seen > 0 ==> left@ == p.take(k)
                &&& seen > 0 ==> right@ == rest.take(first_index(rest, c))
                &&& seen > 0 ==> ((seen == 2) == (first_index(rest, c) < rest.len()))
            }),
    {
        let ghost p = s.take(it.index());
        let ghost k = first_index(p, c);
        proof {
            assert(s.take(it.index() + 1) == p.push(ch));
            lemma_first_index_bounds(p, c);
            lemma_first_index_push(p, ch, c);
            if seen > 0 {
                let rest = p.skip(k + 1);
                lemma_first_index_bounds(rest, c);
                assert(p.push(ch).take(k) == p.take(k));
                assert(p.push(ch).skip(k + 1) == rest.push(ch));
                lemma_first_index_push(rest, ch, c);
                if first_index(rest, c) == rest.len() {
                    assert(rest.take(rest.len() as int) == rest);
                    assert(rest.push(ch).take(rest.len() as int) == rest);
                    assert(rest.push(ch).take(rest.len() + 1int) == rest.push(ch));
                } else {
                    assert(rest.push(ch).take(first_index(rest, c)) == rest.take(first_index(rest, c)));
                }
            } else {
                assert(p.take(p.len() as int) == p);
                assert(p.push(ch).take(p.len() as int) == p);
                assert(p.push(ch).take(p.len() + 1int) == p.push(ch));
                assert(p.push(ch).skip(p.len() + 1int) == Seq::<char>::empty());
                assert(right@ == Seq::<char>::empty().take(0));
            }
        }
        if seen == 0 {
            if ch == c {
                seen = 1;
            } else {
                push_char(&mut left, ch);
            }
        } else if seen == 1 {
            if ch == c {
                seen = 2;
            } else {
                push_char(&mut right, ch);
            }
        }
    }
    proof {
        assert(s.take(s.len() as int) == s);
        lemma_first_index_bounds(s, c);
    }
    (seen > 0, left, right)
}

/// The operators of the one-operator calculator.
#[derive(Debug, Clone, Copy, PartialEq, Eq, Structural)]
pub enum SimpleOp {
    Add,
    Subtract,
    Multiply,
    Divide,
}

/// The character that writes an operator.
pub open spec fn op_char(op: SimpleOp) -> char {
    match op {
        SimpleOp::Add => '+',
        SimpleOp::Subtract => '-',
        SimpleOp::Multiply => '*',
        SimpleOp::Divide => '/',
    }
}

pub open spec fn has_char(s: Seq<char>, c: char) -> bool {
    first_index(s, c) < s.len()
}

/// The operator that splits a one-operator expression: `+` if the text holds
/// one, else `-`, else `*`, else `/`, wherever they stand.
pub open spec fn split_op(s: Seq<char>) -> Option<SimpleOp> {
    if has_char(s, '+') {
        Some(SimpleOp::Add)
    } else if has_char(s, '-') {
        Some(SimpleOp::Subtract)
    } else if has_char(s, '*') {
        Some(SimpleOp::Multiply)
    } else if has_char(s, '/') {
        Some(SimpleOp::Divide)
    } else {
        None
    }
}

/// Why a one-operator expression could not be read.
#[derive(Debug, PartialEq)]
pub enum SimpleError {
    /// None of the four operators occurs.
    NoOperator,
    /// An operand is not an integer.
    BadOperand(std::num::ParseIntError),
}

/// Finds the splitting operator and the texts of the two operands.
fn operands(command: &str) -> (r: Option<(SimpleOp, String, String)>)
    ensures
        match r {
            Some((op, left, right)) => {
                &&& split_op(command@) == Some(op)
                &&& left@ == first_field(command@, op_char(op))
                &&& right@ == second_field(command@, op_char(op))
            },
            None => split_op(command@) is None,
        },
{
    let (found, left, right) = split_on(command, '+');
    if found {
        return Some((SimpleOp::Add, left, right));
    }
    let (found, left, right) = split_on(command, '-');
    if found {
        return Some((SimpleOp::Subtract, left, right));
    }
    let (found, left, right) = split_on(command, '*');
    if found {
        return Some((SimpleOp::Multiply, left, right));
    }
    let (found, left, right) = split_on(command, '/');
    if found {
        return Some((SimpleOp::Divide, left, right));
    }
    None
}

/// Reads a one-operator expression such as `7*8`: the operator that
/// [`split_op`] picks, the integer before its first occurrence, and the
/// integer between that and the next occurrence or the end. Any text after a
/// second occurrence is ignored.
pub fn simple_expression(command: &str) -> (r: Result<(SimpleOp, i32, i32), SimpleError>)
    ensures
        match split_op(command@) {
            None => r matches Err(SimpleError::NoOperator),
            Some(op) => {
                let left = first_field(command@, op_char(op));
                let right = second_field(command@, op_char(op));
                match r {
                    Ok((o, a, b)) => o == op && i32_value(left) == Some(a) && i32_value(right) == Some(b),
                    Err(SimpleError::BadOperand(_)) => i32_value(left) is None || i32_value(right) is None,
                    Err(SimpleError::NoOperator) => false,
                }
            },
        },
{
    let (op, left, right) = match operands(command) {
        Some(parts) => parts,
        None => return Err(SimpleError::NoOperator),
    };
    let a = match parse_int(left.as_str()) {
        Ok(n) => n,
        Err(e) => return Err(SimpleError::BadOperand(e)),
    };
    let b = match parse_int(right.as_str()) {
        Ok(n) => n,
        Err(e) => return Err(SimpleError::BadOperand(e)),
    };
    Ok((op, a, b))
}

} // verus!
