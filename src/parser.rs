use vstd::prelude::*;
use crate::token::{ExprError, Lexeme, Token, lexemes};

verus! {

/// The four binary operators.
#[derive(Debug, Clone, Copy, PartialEq, Eq, Structural)]
pub enum BinOp {
    Add,
    Subtract,
    Multiply,
    Divide,
}

/// An expression tree: it fixes the order in which the operations apply.
/// A leaf keeps the text of its literal.
#[derive(Debug, PartialEq)]
pub enum Expr {
    Num(String),
    Bin(BinOp, Box<Expr>, Box<Expr>),
}

/// The mathematical counterpart of an [`Expr`]: a leaf is its characters.
pub enum Tree {
    Num(Seq<char>),
    Bin(BinOp, Box<Tree>, Box<Tree>),
}

/// The tree that an expression stands for.
pub open spec fn tree_of(e: Expr) -> Tree
    decreases e,
{
    match e {
        Expr::Num(s) => Tree::Num(s@),
        Expr::Bin(op, a, b) => Tree::Bin(op, Box::new(tree_of(*a)), Box::new(tree_of(*b))),
    }
}

pub open spec fn is_additive(t: Lexeme) -> bool {
    t is Add || t is Subtract
}

pub open spec fn is_multiplicative(t: Lexeme) -> bool {
    t is Multiply || t is Divide
}

/// The operator that an operator token stands for.
pub open spec fn op_of(t: Lexeme) -> BinOp {
    match t {
        Lexeme::Add => BinOp::Add,
        Lexeme::Subtract => BinOp::Subtract,
        Lexeme::Multiply => BinOp::Multiply,
        _ => BinOp::Divide,
    }
}

/// The leaf for a number token.
pub open spec fn leaf(t: Lexeme) -> Tree {
    Tree::Num(t->Number_0)
}

/// The first `n` tokens alternate: numbers at even positions, operators at odd ones.
pub open spec fn alternates(s: Seq<Lexeme>, n: int) -> bool {
    &&& 0 <= n <= s.len()
    &&& forall|i: int| 0 <= i < n ==> ((#[trigger] s[i] is Number) <==> i % 2 == 0)
}

/// `s` has the form `Number (Operator Number)*`.
pub open spec fn is_chain(s: Seq<Lexeme>) -> bool {
    s.len() % 2 == 1 && alternates(s, s.len() as int)
}

/// A chain of products and quotients, folded from the left:
/// `a * b / c` is `(a * b) / c`.
pub open spec fn product_tree(s: Seq<Lexeme>) -> Tree
    decreases s.len(),
{
    if s.len() < 3 {
        leaf(s[0])
    } else {
        Tree::Bin(
            op_of(s[s.len() - 2]),
            Box::new(product_tree(s.take(s.len() - 2))),
            Box::new(leaf(s[s.len() - 1])),
        )
    }
}

/// Where the last term of a chain starts: just after its last `+` or `-`,
/// or at 0 when it has none.
pub open spec fn last_term_start(s: Seq<Lexeme>) -> int
    decreases s.len(),
{
    if s.len() < 3 {
        0
    } else if is_additive(s[s.len() - 2]) {
        s.len() - 1
    } else {
        last_term_start(s.take(s.len() - 2))
    }
}

/// The tree of a chain under the usual precedence: `*` and `/` bind tighter
/// than `+` and `-`, and operators of one level apply from left to right.
/// The root is the last `+` or `-`; a chain without one is a product chain.
pub open spec fn sum_tree(s: Seq<Lexeme>) -> Tree
    decreases s.len(),
{
    let k = last_term_start(s);
    if 0 < k <= s.len() {
        Tree::Bin(
            op_of(s[k - 1]),
            Box::new(sum_tree(s.take(k - 1))),
            Box::new(product_tree(s.skip(k))),
        )
    } else {
        product_tree(s)
    }
}

/// The parser reads exactly the first `k` tokens: they form a chain, and
/// the token after them, if any, is neither an operator nor missing where a
/// number is due. Anything from there on is left unread.
pub open spec fn accepts(s: Seq<Lexeme>, k: int) -> bool {
    &&& 1 <= k <= s.len()
    &&& is_chain(s.take(k))
    &&& (k == s.len() || s[k] is Number)
}

/// What parsing `s` gives: the tree of the accepted chain, or
/// `UnexpectedToken` when no prefix is accepted.
pub open spec fn parse_result(s: Seq<Lexeme>) -> Result<Tree, ExprError> {
    if exists|k: int| accepts(s, k) {
        Ok(sum_tree(s.take(choose|k: int| accepts(s, k))))
    } else {
        Err(ExprError::UnexpectedToken)
    }
}

/// The tokens up to `j` alternate, and at `j` a number is due but missing.
pub open spec fn fails_at(s: Seq<Lexeme>, j: int) -> bool {
    &&& alternates(s, j)
    &&& j % 2 == 0
    &&& (j == s.len() || !(s[j] is Number))
}

/// At most one prefix is accepted.
pub proof fn lemma_accepts_unique(s: Seq<Lexeme>, k1: int, k2: int)
    requires
        accepts(s, k1),
        accepts(s, k2),
    ensures
        k1 == k2,
{
    if k1 < k2 {
        assert(s.take(k2)[k1] == s[k1]);
    } else if k2 < k1 {
        assert(s.take(k1)[k2] == s[k2]);
    }
}


/// The lexeme that writes an operator.
pub open spec fn op_lexeme(op: BinOp) -> Lexeme {
    match op {
        BinOp::Add => Lexeme::Add,
        BinOp::Subtract => Lexeme::Subtract,
        BinOp::Multiply => Lexeme::Multiply,
        BinOp::Divide => Lexeme::Divide,
    }
}

/// The leaves and operators of a tree, read from left to right.
pub open spec fn reading(t: Tree) -> Seq<Lexeme>
    decreases t,
{
    match t {
        Tree::Num(x) => seq![Lexeme::Number(x)],
        Tree::Bin(op, a, b) => reading(*a) + seq![op_lexeme(op)] + reading(*b),
    }
}

/// A product: a number, or a product times or divided by a number.
pub open spec fn is_product(t: Tree) -> bool
    decreases t,
{
    match t {
        Tree::Num(_) => true,
        Tree::Bin(op, a, b) => (op == BinOp::Multiply || op == BinOp::Divide) && is_product(*a)
            && *b is Num,
    }
}

/// A sum: a product, or a sum plus or minus a product.
pub open spec fn is_sum(t: Tree) -> bool
    decreases t,
{
    match t {
        Tree::Bin(op, a, b) => if op == BinOp::Add || op == BinOp::Subtract {
            is_sum(*a) && is_product(*b)
        } else {
            is_product(t)
        },
        Tree::Num(_) => true,
    }
}

proof fn lemma_chain_prefix(s: Seq<Lexeme>, n: int)
    requires
        is_chain(s),
        0 < n <= s.len(),
        n % 2 == 1,
    ensures
        is_chain(s.take(n)),
{
    assert forall|i: int| 0 <= i < n implies ((#[trigger] s.take(n)[i] is Number) <==> i % 2 == 0) by {
        assert(s.take(n)[i] == s[i]);
    }
}

proof fn lemma_chain_suffix(s: Seq<Lexeme>, k: int)
    requires
        is_chain(s),
        0 <= k < s.len(),
        k % 2 == 0,
    ensures
        is_chain(s.skip(k)),
{
    assert forall|i: int| 0 <= i < s.len() - k implies ((#[trigger] s.skip(k)[i] is Number) <==> i % 2 == 0) by {
        assert(s.skip(k)[i] == s[k + i]);
    }
}

/// `last_term_start` finds the last `+` or `-` of a chain, or reports that
/// there is none.
proof fn lemma_last_term_start(s: Seq<Lexeme>)
    requires
        is_chain(s),
    ensures
        ({
            let k = last_term_start(s);
            ||| k == 0 && forall|i: int| 0 <= i < s.len() ==> !is_additive(#[trigger] s[i])
            ||| {
                &&& 2 <= k < s.len()
                &&& k % 2 == 0
                &&& is_additive(s[k - 1])
                &&& forall|i: int| k <= i < s.len() ==> !is_additive(#[trigger] s[i])
            }
        }),
    decreases s.len(),
{
    if s.len() >= 3 && !is_additive(s[s.len() - 2]) {
        let u = s.take(s.len() - 2);
        lemma_chain_prefix(s, s.len() - 2);
        lemma_last_term_start(u);
        assert forall|i: int| 0 <= i < u.len() implies u[i] == s[i] by {}
        assert(s[s.len() - 1] is Number);
    } else if s.len() < 3 {
        assert(s[0] is Number);
    }
}

proof fn lemma_product_shape(s: Seq<Lexeme>)
    requires
        is_chain(s),
        forall|i: int| 0 <= i < s.len() ==> !is_additive(#[trigger] s[i]),
    ensures
        is_product(product_tree(s)),
        reading(product_tree(s)) == s,
    decreases s.len(),
{
    if s.len() < 3 {
        assert(s[0] is Number);
        assert(reading(product_tree(s)) == seq![s[0]]);
        assert(seq![s[0]] == s);
    } else {
        let u = s.take(s.len() - 2);
        lemma_chain_prefix(s, s.len() - 2);
        assert forall|i: int| 0 <= i < u.len() implies !is_additive(#[trigger] u[i]) by {
            assert(u[i] == s[i]);
        }
        lemma_product_shape(u);
        assert(!(s[s.len() - 2] is Number));
        assert(!is_additive(s[s.len() - 2]));
        assert(s[s.len() - 1] is Number);
        assert(op_lexeme(op_of(s[s.len() - 2])) == s[s.len() - 2]);
        assert(reading(leaf(s[s.len() - 1])) == seq![s[s.len() - 1]]);
        assert(u + seq![s[s.len() - 2]] + seq![s[s.len() - 1]] == s);
    }
}

proof fn lemma_sum_shape(s: Seq<Lexeme>)
    requires
        is_chain(s),
    ensures
        is_sum(sum_tree(s)),
        reading(sum_tree(s)) == s,
    decreases s.len(),
{
    lemma_last_term_start(s);
    let k = last_term_start(s);
    if k == 0 {
        lemma_product_shape(s);
        let t = product_tree(s);
        if let Tree::Bin(op, a, b) = t {
            assert(op == BinOp::Multiply || op == BinOp::Divide);
        }
    } else {
        let head = s.take(k - 1);
        let tail = s.skip(k);
        lemma_chain_prefix(s, k - 1);
        lemma_chain_suffix(s, k);
        assert forall|i: int| 0 <= i < tail.len() implies !is_additive(#[trigger] tail[i]) by {
            assert(tail[i] == s[k + i]);
        }
        lemma_sum_shape(head);
        lemma_product_shape(tail);
        assert(op_lexeme(op_of(s[k - 1])) == s[k - 1]);
        assert(head + seq![s[k - 1]] + tail == s);
    }
}

/// A well-formed chain `N1 op N2 op N3 ...` is read whole, into the tree of
/// the usual precedence and left associativity: a sum of products, each
/// operation taking the tree to its left and the next operand, whose leaves
/// and operators read from left to right give the chain back.
pub proof fn law_chain_parses_whole(s: Seq<Lexeme>)
    requires
        is_chain(s),
    ensures
        parse_result(s) == Ok::<Tree, ExprError>(sum_tree(s)),
        is_sum(sum_tree(s)),
        reading(sum_tree(s)) == s,
{
    assert(s.take(s.len() as int) == s);
    assert(accepts(s, s.len() as int));
    lemma_accepts_unique(s, s.len() as int, choose|k: int| accepts(s, k));
    lemma_sum_shape(s);
}

/// A missing number rules out every prefix.
proof fn lemma_fails_rejects(s: Seq<Lexeme>, j: int)
    requires
        fails_at(s, j),
    ensures
        forall|k: int| !accepts(s, k),
{
    assert forall|k: int| !accepts(s, k) by {
        if accepts(s, k) {
            if k > j {
                assert(s.take(k)[j] == s[j]);
            } else {
                assert(s.take(k)[k - 1] == s[k - 1]);
                assert(s.take(k)[k - 1] is Number);
            }
        }
    }
}

pub open spec fn multiplicative_at_spec(s: Seq<Lexeme>, pos: int) -> bool {
    0 <= pos < s.len() && is_multiplicative(s[pos])
}

/// Whether the token at `pos` is `*` or `/`.
fn multiplicative_at(tokens: &Vec<Token>, pos: usize) -> (r: bool)
    ensures
        r == (pos < tokens@.len() && is_multiplicative(tokens@[pos as int]@)),
{
    if pos < tokens.len() {
        match &tokens[pos] {
            Token::Multiply | Token::Divide => true,
            _ => false,
        }
    } else {
        false
    }
}

/// Whether the token at `pos` is `+` or `-`.
fn additive_at(tokens: &Vec<Token>, pos: usize) -> (r: bool)
    ensures
        r == (pos < tokens@.len() && is_additive(tokens@[pos as int]@)),
{
    if pos < tokens.len() {
        match &tokens[pos] {
            Token::Add | Token::Subtract => true,
            _ => false,
        }
    } else {
        false
    }
}

/// The operator of an operator token.
fn bin_op(t: &Token) -> (r: BinOp)
    ensures
        r == op_of(t@),
{
    match t {
        Token::Add => BinOp::Add,
        Token::Subtract => BinOp::Subtract,
        Token::Multiply => BinOp::Multiply,
        _ => BinOp::Divide,
    }
}

/// From `pos` up to `n`, numbers and operators alternate, starting with a
/// number.
pub open spec fn alternates_from(s: Seq<Lexeme>, pos: int, n: int) -> bool {
    forall|i: int| pos <= i < n ==> ((#[trigger] s[i] is Number) <==> (i - pos) % 2 == 0)
}

/// The product run that starts at `pos` breaks off at `j`: up to `j` the
/// tokens alternate with `*` and `/` as operators, and at `j` a number is due
/// but the input ends or holds an operator.
pub open spec fn run_fails_at(s: Seq<Lexeme>, pos: int, j: int) -> bool {
    &&& pos <= j
    &&& (j - pos) % 2 == 0
    &&& (forall|i: int| pos <= i < j ==> i < s.len() && !is_additive(#[trigger] s[i]))
    &&& alternates_from(s, pos, j)
    &&& (j >= s.len() || !(s[j] is Number))
}

/// Reads the number at `pos`, moving the cursor one token on.
fn parse_number(tokens: &Vec<Token>, pos: usize) -> (r: Result<(Expr, usize), ExprError>)
    ensures
        match r {
            Ok((e, next)) => {
                &&& pos < tokens@.len()
                &&& tokens@[pos as int] is Number
                &&& next == pos + 1
                &&& tree_of(e) == leaf(tokens@[pos as int]@)
            },
            Err(err) => {
                &&& err == ExprError::UnexpectedToken
                &&& !(pos < tokens@.len() && tokens@[pos as int] is Number)
            },
        },
{
    if pos < tokens.len() {
        match &tokens[pos] {
            Token::Number(n) => Ok((Expr::Num(n.clone()), pos + 1)),
            _ => Err(ExprError::UnexpectedToken),
        }
    } else {
        Err(ExprError::UnexpectedToken)
    }
}

/// Reads a chain of products and quotients that starts at `pos`, folding it
/// from the left; stops before the first token that is not `*` or `/`, and
/// fails only where a number of this chain is missing.
fn parse_mul_div(tokens: &Vec<Token>, pos: usize) -> (r: Result<(Expr, usize), ExprError>)
    ensures
        match r {
            Ok((e, next)) => {
                &&& pos < next <= tokens@.len()
                &&& (next - pos) % 2 == 1
                &&& alternates_from(lexemes(tokens@), pos as int, next as int)
                &&& (forall|i: int| pos <= i < next ==> !is_additive(#[trigger] lexemes(tokens@)[i]))
                &&& !multiplicative_at_spec(lexemes(tokens@), next as int)
                &&& tree_of(e) == product_tree(lexemes(tokens@).subrange(pos as int, next as int))
            },
            Err(err) => {
                &&& err == ExprError::UnexpectedToken
                &&& exists|j: int| run_fails_at(lexemes(tokens@), pos as int, j)
            },
        },
{
    let ghost s = lexemes(tokens@);
    let (mut value, mut cur) = match parse_number(tokens, pos) {
        Ok(p) => p,
        Err(e) => {
            assert(run_fails_at(s, pos as int, pos as int));
            return Err(e);
        },
    };
    let n = tokens.len();
    assert(s.subrange(pos as int, cur as int).len() == 1);
    while multiplicative_at(tokens, cur)
        invariant
            s == lexemes(tokens@),
            n == s.len(),
            pos < cur <= s.len(),
            (cur - pos) % 2 == 1,
            alternates_from(s, pos as int, cur as int),
            forall|i: int| pos <= i < cur ==> !is_additive(#[trigger] s[i]),
            tree_of(value) == product_tree(s.subrange(pos as int, cur as int)),
        decreases s.len() - cur,
    {
        let op = bin_op(&tokens[cur]);
        let (rhs, next) = match parse_number(tokens, cur + 1) {
            Ok(p) => p,
            Err(e) => {
                assert(run_fails_at(s, pos as int, cur + 1));
                return Err(e);
            },
        };
        let ghost before = s.subrange(pos as int, cur as int);
        let ghost after = s.subrange(pos as int, next as int);
        assert(after.take(after.len() - 2) == before);
        assert(after[after.len() - 2] == s[cur as int]);
        assert(after[after.len() - 1] == s[cur + 1]);
        value = Expr::Bin(op, Box::new(value), Box::new(rhs));
        cur = next;
    }
    Ok((value, cur))
}

/// A product run that breaks off, after an alternating prefix, leaves a
/// number missing in the whole sequence.
proof fn lemma_run_failure(s: Seq<Lexeme>, start: int, j: int)
    requires
        alternates(s, start),
        start % 2 == 0,
        run_fails_at(s, start, j),
    ensures
        fails_at(s, j),
{
    if j > start {
        let k = j - 1;
        assert(start <= k < j);
        assert(!is_additive(s[k]));
        assert(k < s.len());
    }
    assert forall|i: int| 0 <= i < j implies ((#[trigger] s[i] is Number) <==> i % 2 == 0) by {
        if i >= start {
            assert(s[i] is Number <==> (i - start) % 2 == 0);
        }
    }
}

/// An alternating prefix followed by `+` or `-` and an alternating run
/// alternates as a whole.
proof fn lemma_alternates_extend(s: Seq<Lexeme>, start: int, next: int)
    requires
        alternates(s, start),
        start % 2 == 0,
        start <= next <= s.len(),
        alternates_from(s, start, next),
    ensures
        alternates(s, next),
{
    assert forall|i: int| 0 <= i < next implies ((#[trigger] s[i] is Number) <==> i % 2 == 0) by {
        if i >= start {
            assert(s[i] is Number <==> (i - start) % 2 == 0);
        }
    }
}

/// A chain without `+` or `-` is a single term.
proof fn lemma_single_term(t: Seq<Lexeme>)
    requires
        forall|i: int| 0 <= i < t.len() ==> !is_additive(#[trigger] t[i]),
    ensures
        last_term_start(t) == 0,
    decreases t.len(),
{
    if t.len() >= 3 {
        let u = t.take(t.len() - 2);
        assert forall|i: int| 0 <= i < u.len() implies !is_additive(#[trigger] u[i]) by {
            assert(u[i] == t[i]);
        }
        lemma_single_term(u);
    }
}

/// The last term starts right after the last `+` or `-`.
proof fn lemma_last_term(t: Seq<Lexeme>, p: int)
    requires
        2 <= p < t.len(),
        (t.len() - p) % 2 == 1,
        is_additive(t[p - 1]),
        forall|i: int| p <= i < t.len() ==> !is_additive(#[trigger] t[i]),
    ensures
        last_term_start(t) == p,
    decreases t.len(),
{
    if t.len() - p > 1 {
        let u = t.take(t.len() - 2);
        assert(!is_additive(t[t.len() - 2]));
        assert forall|i: int| p <= i < u.len() implies !is_additive(#[trigger] u[i]) by {
            assert(u[i] == t[i]);
        }
        assert(u[p - 1] == t[p - 1]);
        lemma_last_term(u, p);
    }
}

/// Parses a token sequence into the tree that fixes the order of evaluation:
/// `*` and `/` before `+` and `-`, and left to right within a level.
///
/// Parsing reads the longest prefix of the form `Number (Operator Number)*`
/// and stops at the first token that does not continue it; what follows is
/// ignored. It fails with `UnexpectedToken` where a number is due and an
/// operator or the end of input is found instead.
pub fn parse_expr(tokens: &Vec<Token>) -> (r: Result<Expr, ExprError>)
    ensures
        match r {
            Ok(e) => parse_result(lexemes(tokens@)) == Ok::<Tree, ExprError>(tree_of(e)),
            Err(err) => parse_result(lexemes(tokens@)) == Err::<Tree, ExprError>(err),
        },
{
    let ghost s = lexemes(tokens@);
    let n = tokens.len();
    let (mut value, mut cur) = match parse_mul_div(tokens, 0) {
        Ok(p) => p,
        Err(e) => {
            proof {
                let j = choose|j: int| run_fails_at(s, 0, j);
                lemma_run_failure(s, 0, j);
                lemma_fails_rejects(s, j);
            }
            return Err(e);
        },
    };
    proof {
        lemma_alternates_extend(s, 0, cur as int);
        let t = s.take(cur as int);
        assert forall|i: int| 0 <= i < t.len() implies !is_additive(#[trigger] t[i]) by {
            assert(t[i] == s[i]);
        }
        lemma_single_term(t);
        assert(t == s.subrange(0, cur as int));
    }
    while additive_at(tokens, cur)
        invariant
            s == lexemes(tokens@),
            n == s.len(),
            0 < cur <= n,
            cur % 2 == 1,
            alternates(s, cur as int),
            !multiplicative_at_spec(s, cur as int),
            tree_of(value) == sum_tree(s.take(cur as int)),
        decreases n - cur,
    {
        let op = bin_op(&tokens[cur]);
        assert(alternates(s, cur + 1));
        let (rhs, next) = match parse_mul_div(tokens, cur + 1) {
            Ok(p) => p,
            Err(e) => {
                proof {
                    let start = cur + 1;
                    let j = choose|j: int| run_fails_at(s, start, j);
                    lemma_run_failure(s, start, j);
                    lemma_fails_rejects(s, j);
                }
                return Err(e);
            },
        };
        proof {
            lemma_alternates_extend(s, cur + 1, next as int);
            let t = s.take(next as int);
            assert forall|i: int| cur + 1 <= i < t.len() implies !is_additive(#[trigger] t[i]) by {
                assert(t[i] == s[i]);
            }
            assert(t[cur as int] == s[cur as int]);
            lemma_last_term(t, cur + 1);
            assert(t.take(cur as int) == s.take(cur as int));
            assert(t.skip(cur + 1) == s.subrange(cur + 1, next as int));
        }
        value = Expr::Bin(op, Box::new(value), Box::new(rhs));
        cur = next;
    }
    proof {
        let t = s.take(cur as int);
        assert forall|i: int| 0 <= i < t.len() implies ((#[trigger] t[i] is Number) <==> i % 2 == 0) by {
            assert(t[i] == s[i]);
        }
        assert(accepts(s, cur as int));
        lemma_accepts_unique(s, cur as int, choose|k: int| accepts(s, k));
    }
    Ok(value)
}

} // verus!
