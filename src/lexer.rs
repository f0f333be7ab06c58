use vstd::prelude::*;
use crate::token::{ExprError, Lexeme, Token, lexemes};

verus! {

pub open spec fn is_digit(c: char) -> bool {
    '0' <= c && c <= '9'
}

/// Characters that make up a numeric literal.
pub open spec fn is_number_char(c: char) -> bool {
    is_digit(c) || c == '.'
}

/// The operator lexeme that a character stands for, if any.
pub open spec fn operator_of(c: char) -> Option<Lexeme> {
    if c == '+' {
        Some(Lexeme::Add)
    } else if c == '-' {
        Some(Lexeme::Subtract)
    } else if c == '*' {
        Some(Lexeme::Multiply)
    } else if c == '/' {
        Some(Lexeme::Divide)
    } else {
        None
    }
}

/// Number of decimal points in `s`.
pub open spec fn dot_count(s: Seq<char>) -> nat
    decreases s.len(),
{
    if s.len() == 0 {
        0
    } else {
        dot_count(s.drop_last()) + if s.last() == '.' { 1nat } else { 0nat }
    }
}

/// Whether a run of digits and points reads as a decimal number:
/// it has at least one digit and at most one point.
pub open spec fn is_decimal(s: Seq<char>) -> bool {
    &&& dot_count(s) <= 1
    &&& exists|i: int| 0 <= i < s.len() && is_digit(#[trigger] s[i])
}

/// The state reached after scanning `s` from left to right: the lexemes
/// emitted so far and the literal still being accumulated, or the first error.
pub open spec fn scan(s: Seq<char>) -> Result<(Seq<Lexeme>, Seq<char>), ExprError>
    decreases s.len(),
{
    if s.len() == 0 {
        Ok((Seq::empty(), Seq::empty()))
    } else {
        match scan(s.drop_last()) {
            Err(e) => Err(e),
            Ok((done, buf)) => {
                let c = s.last();
                if is_number_char(c) {
                    Ok((done, buf.push(c)))
                } else if c == ' ' {
                    Ok((done, buf))
                } else if operator_of(c) is Some {
                    if buf.len() == 0 {
                        Ok((done.push(operator_of(c)->0), buf))
                    } else if is_decimal(buf) {
                        Ok((done.push(Lexeme::Number(buf)).push(operator_of(c)->0), Seq::empty()))
                    } else {
                        Err(ExprError::NumberFormat)
                    }
                } else {
                    Err(ExprError::InvalidCharacter(c))
                }
            },
        }
    }
}

/// The lexemes of a whole input: the scan, with a pending literal emitted last.
pub open spec fn lex(s: Seq<char>) -> Result<Seq<Lexeme>, ExprError> {
    match scan(s) {
        Err(e) => Err(e),
        Ok((done, buf)) => if buf.len() == 0 {
            Ok(done)
        } else if is_decimal(buf) {
            Ok(done.push(Lexeme::Number(buf)))
        } else {
            Err(ExprError::NumberFormat)
        },
    }
}

/// Relies on `String::push`: appends one character at the end.
#[verifier::external_body]
pub(crate) fn push_char(s: &mut String, c: char)
    ensures
        final(s)@ == old(s)@.push(c),
{
    s.push(c)
}

/// Every literal in a successful scan is a decimal number.
proof fn lemma_scan_literals(s: Seq<char>)
    requires
        scan(s) is Ok,
    ensures
        forall|i: int|
            0 <= i < scan(s)->Ok_0.0.len() && (#[trigger] scan(s)->Ok_0.0[i]) is Number
                ==> is_decimal(scan(s)->Ok_0.0[i]->Number_0),
    decreases s.len(),
{
    if s.len() > 0 {
        lemma_scan_literals(s.drop_last());
    }
}

/// Every literal that tokenizing yields reads as a decimal number: digits
/// with at most one point.
pub proof fn law_literals_are_decimal(s: Seq<char>)
    requires
        lex(s) is Ok,
    ensures
        forall|i: int|
            0 <= i < lex(s)->Ok_0.len() && (#[trigger] lex(s)->Ok_0[i]) is Number
                ==> is_decimal(lex(s)->Ok_0[i]->Number_0),
{
    lemma_scan_literals(s);
}

/// Unicode's `White_Space` property.
pub open spec fn is_white_space(c: char) -> bool {
    ||| '\u{9}' <= c && c <= '\u{d}'
    ||| c == ' '
    ||| c == '\u{85}'
    ||| c == '\u{a0}'
    ||| c == '\u{1680}'
    ||| '\u{2000}' <= c && c <= '\u{200a}'
    ||| c == '\u{2028}'
    ||| c == '\u{2029}'
    ||| c == '\u{202f}'
    ||| c == '\u{205f}'
    ||| c == '\u{3000}'
}

/// Whether `c` has Unicode's `White_Space` property, as `char::is_whitespace`
/// decides it.
fn white_space(c: char) -> (r: bool)
    ensures
        r == is_white_space(c),
{
    ('\u{9}' <= c && c <= '\u{d}') || c == ' ' || c == '\u{85}' || c == '\u{a0}'
        || c == '\u{1680}' || ('\u{2000}' <= c && c <= '\u{200a}') || c == '\u{2028}'
        || c == '\u{2029}' || c == '\u{202f}' || c == '\u{205f}' || c == '\u{3000}'
}

/// The text without its white space.
pub open spec fn without_white_space(s: Seq<char>) -> Seq<char> {
    s.filter(|c: char| !is_white_space(c))
}

/// Removes every white-space character from `s`, keeping the others in order.
pub fn remove_whitespace(s: &mut String)
    ensures
        final(s)@ == without_white_space(old(s)@),
{
    let ghost text = s@;
    let mut out = String::new();
    assert(text.take(0) == Seq::<char>::empty());
    for ch in it: s.as_str().chars()
        invariant
            it.seq() == text,
            out@ == without_white_space(text.take(it.index())),
    {
        proof {
            let i = it.index();
            assert(text.take(i + 1) == text.take(i).push(ch));
            text.take(i).lemma_filter_push(ch, |c: char| !is_white_space(c));
        }
        if !white_space(ch) {
            push_char(&mut out, ch);
        }
    }
    assert(text.take(text.len() as int) == text);
    *s = out;
}

/// Splits an expression into numbers and operators, left to right.
///
/// Spaces are skipped. The tokenizer checks characters and literals only:
/// operators may stand anywhere, in any number.
pub fn tokenize(expr: &str) -> (r: Result<Vec<Token>, ExprError>)
    ensures
        lex(expr@) == match r {
            Ok(v) => Ok(lexemes(v@)),
            Err(e) => Err::<Seq<Lexeme>, ExprError>(e),
        },
{
    let mut tokens: Vec<Token> = Vec::new();
    let mut buf = String::new();
    let mut has_digit = false;
    let mut seen_dot = false;
    let mut extra_dot = false;
    assert(lexemes(tokens@) == Seq::<Lexeme>::empty());
    assert(scan(expr@.take(0)) == Ok::<(Seq<Lexeme>, Seq<char>), ExprError>(
        (Seq::empty(), Seq::empty()),
    ));
    for ch in it: expr.chars()
        invariant
            it.seq() == expr@,
            scan(expr@.take(it.index())) == Ok::<(Seq<Lexeme>, Seq<char>), ExprError>(
                (lexemes(tokens@), buf@),
            ),
            has_digit == exists|i: int| 0 <= i < buf@.len() && is_digit(#[trigger] buf@[i]),
            seen_dot == (dot_count(buf@) >= 1),
            extra_dot == (dot_count(buf@) >= 2),
    {
        let ghost before = expr@.take(it.index());
        let ghost old_buf = buf@;
        assert(expr@.take(it.index() + 1).drop_last() == before);
        if ('0' <= ch && ch <= '9') || ch == '.' {
            push_char(&mut buf, ch);
            assert(buf@.drop_last() == old_buf);
            if ch == '.' {
                if seen_dot {
                    extra_dot = true;
                }
                seen_dot = true;
                assert(has_digit == exists|i: int| 0 <= i < buf@.len() && is_digit(#[trigger] buf@[i])) by {
                    if has_digit {
                        let i = choose|i: int| 0 <= i < old_buf.len() && is_digit(#[trigger] old_buf[i]);
                        assert(buf@[i] == old_buf[i]);
                    }
                    if exists|i: int| 0 <= i < buf@.len() && is_digit(#[trigger] buf@[i]) {
                        let i = choose|i: int| 0 <= i < buf@.len() && is_digit(#[trigger] buf@[i]);
                        assert(old_buf[i] == buf@[i]);
                    }
                }
            } else {
                has_digit = true;
                assert(is_digit(buf@[buf@.len() - 1]));
            }
        } else if ch == ' ' {
        } else if ch == '+' || ch == '-' || ch == '*' || ch == '/' {
            if !buf.as_str().is_empty() {
                if has_digit && !extra_dot {
                    let ghost old_tokens = tokens@;
                    tokens.push(Token::Number(buf));
                    assert(lexemes(tokens@) == lexemes(old_tokens).push(Lexeme::Number(old_buf)));
                    buf = String::new();
                    has_digit = false;
                    seen_dot = false;
                    extra_dot = false;
                } else {
                    proof {
                        lemma_scan_error_persists(expr@, it.index() + 1);
                    }
                    return Err(ExprError::NumberFormat);
                }
            }
            let t = if ch == '+' {
                Token::Add
            } else if ch == '-' {
                Token::Subtract
            } else if ch == '*' {
                Token::Multiply
            } else {
                Token::Divide
            };
            let ghost old_tokens = tokens@;
            tokens.push(t);
            assert(lexemes(tokens@) == lexemes(old_tokens).push(t@));
        } else {
            proof {
                lemma_scan_error_persists(expr@, it.index() + 1);
            }
            return Err(ExprError::InvalidCharacter(ch));
        }
    }
    assert(expr@.take(expr@.len() as int) == expr@);
    if buf.as_str().is_empty() {
        Ok(tokens)
    } else if has_digit && !extra_dot {
        let ghost old_tokens = tokens@;
        let ghost last = buf@;
        tokens.push(Token::Number(buf));
        assert(lexemes(tokens@) == lexemes(old_tokens).push(Lexeme::Number(last)));
        Ok(tokens)
    } else {
        Err(ExprError::NumberFormat)
    }
}

/// Once a prefix of the input fails to scan, the whole input fails the same way.
proof fn lemma_scan_error_persists(s: Seq<char>, k: int)
    requires
        0 <= k <= s.len(),
        scan(s.take(k)) is Err,
    ensures
        scan(s) == scan(s.take(k)),
    decreases s.len() - k,
{
    if k < s.len() {
        assert(s.take(k + 1).drop_last() == s.take(k));
        lemma_scan_error_persists(s, k + 1);
    } else {
        assert(s.take(k) == s);
    }
}

} // verus!
