//! Sums written as tokens, reduced a pair at a time from the left.

use vstd::prelude::*;

verus! {

/// One token of a sum: a number or the plus sign.
#[derive(Clone, Copy, Debug, PartialEq, Eq, Structural)]
pub enum Token {
    Number(i32),
    Add,
}

/// The value a token adds to a sum: its number, or zero for the plus sign.
pub open spec fn token_value(t: Token) -> int {
    match t {
        Token::Number(n) => n as int,
        Token::Add => 0,
    }
}

/// The sum of the numbers among the tokens.
pub open spec fn total(s: Seq<Token>) -> int
    decreases s.len(),
{
    if s.len() == 0 {
        0
    } else {
        total(s.drop_last()) + token_value(s.last())
    }
}

/// Whether the tokens read `n + n + ... + n`: numbers at even places, plus
/// signs at odd ones, and a number last.
pub open spec fn is_sum(s: Seq<Token>) -> bool {
    &&& s.len() % 2 == 1
    &&& forall|k: int| 0 <= k < s.len() ==> (#[trigger] s[k] is Number <==> k % 2 == 0)
}

/// Whether every running total, from the left, can be held by an `i32`.
pub open spec fn running_totals_fit(s: Seq<Token>) -> bool {
    forall|k: int| 0 <= k <= s.len() ==> i32::MIN <= #[trigger] total(s.subrange(0, k)) <= i32::MAX
}

/// The total of a single token is its value.
proof fn lemma_total_single(t: Token)
    ensures
        total(seq![t]) == token_value(t),
{
    assert(seq![t].drop_last() =~= Seq::<Token>::empty());
    assert(total(Seq::<Token>::empty()) == 0);
    assert(seq![t].last() == t);
}

/// The total of two sequences laid end to end is the sum of their totals.
proof fn lemma_total_concat(a: Seq<Token>, b: Seq<Token>)
    ensures
        total(a + b) == total(a) + total(b),
    decreases b.len(),
{
    if b.len() > 0 {
        lemma_total_concat(a, b.drop_last());
        assert((a + b).drop_last() =~= a + b.drop_last());
    } else {
        assert(a + b =~= a);
    }
}

/// Whether the tokens read `n + n + ... + n` with every running total within
/// `i32`: the inputs that `reduce_sum` takes.
pub fn is_reducible(tokens: &Vec<Token>) -> (r: bool)
    ensures
        r == (is_sum(tokens@) && running_totals_fit(tokens@)),
{
    let n = tokens.len();
    if n % 2 != 1 {
        return false;
    }
    let mut acc: i64 = 0;
    let mut i: usize = 0;
    proof {
        assert(tokens@.subrange(0, 0) =~= Seq::<Token>::empty());
    }
    while i < n
        invariant
            0 <= i <= n,
            n == tokens@.len(),
            n % 2 == 1,
            acc == total(tokens@.subrange(0, i as int)),
            i32::MIN <= acc <= i32::MAX,
            forall|k: int| 0 <= k < i ==> (#[trigger] tokens@[k] is Number <==> k % 2 == 0),
            forall|k: int|
                0 <= k <= i ==> i32::MIN <= #[trigger] total(tokens@.subrange(0, k)) <= i32::MAX,
        decreases n - i,
    {
        proof {
            assert(tokens@.subrange(0, i + 1).drop_last() =~= tokens@.subrange(0, i as int));
        }
        match tokens[i] {
            Token::Number(v) => {
                if i % 2 != 0 {
                    assert(tokens@[i as int] is Number);
                    return false;
                }
                acc = acc + v as i64;
                if acc < i32::MIN as i64 || acc > i32::MAX as i64 {
                    assert(total(tokens@.subrange(0, i + 1)) == acc);
                    return false;
                }
            },
            Token::Add => {
                if i % 2 != 1 {
                    assert(tokens@[i as int] is Add);
                    return false;
                }
            },
        }
        i += 1;
    }
    assert(tokens@.subrange(0, n as int) =~= tokens@);
    true
}

/// Reduces a sum by replacing its first three tokens, `a + b`, with the
/// number `a + b`, until one token is left: the number that the tokens add up
/// to.
pub fn reduce_sum(tokens: Vec<Token>) -> (r: Vec<Token>)
    requires
        is_sum(tokens@),
        running_totals_fit(tokens@),
    ensures
        r@ =~= seq![Token::Number(total(tokens@) as i32)],
        total(r@) == total(tokens@),
{
    let mut v = tokens;
    while v.len() >= 3
        invariant
            is_sum(v@),
            running_totals_fit(v@),
            total(v@) == total(tokens@),
        decreases v.len(),
    {
        proof {
            assert(v@[0] is Number && v@[1] is Add && v@[2] is Number);
        }
        match (v[0], v[1], v[2]) {
            (Token::Number(first), Token::Add, Token::Number(second)) => {
                let ghost old_v = v@;
                proof {
                    assert(old_v.subrange(0, 3) =~= seq![old_v[0]] + seq![old_v[1]] + seq![old_v[2]]);
                    lemma_total_single(old_v[0]);
                    lemma_total_single(old_v[1]);
                    lemma_total_single(old_v[2]);
                    lemma_total_concat(seq![old_v[0]], seq![old_v[1]]);
                    lemma_total_concat(seq![old_v[0]] + seq![old_v[1]], seq![old_v[2]]);
                    assert(total(old_v.subrange(0, 3)) == first + second);
                    assert(old_v.subrange(0, 3) =~= old_v.subrange(0, 3 as int));
                    assert(i32::MIN <= total(old_v.subrange(0, 3)) <= i32::MAX);
                }
                v.remove(0);
                v.remove(0);
                v.set(0, Token::Number(first + second));
                proof {
                    let rest = old_v.subrange(3, old_v.len() as int);
                    lemma_total_single(Token::Number((first + second) as i32));
                    assert(v@ =~= seq![Token::Number((first + second) as i32)] + rest);
                    assert(old_v =~= old_v.subrange(0, 3) + rest);
                    assert(seq![Token::Number((first + second) as i32)].drop_last() =~= Seq::<
                        Token,
                    >::empty());
                    lemma_total_concat(seq![Token::Number((first + second) as i32)], rest);
                    lemma_total_concat(old_v.subrange(0, 3), rest);
                    assert forall|k: int| 0 <= k < v@.len() implies (#[trigger] v@[k] is Number
                        <==> k % 2 == 0) by {
                        if k > 0 {
                            assert(v@[k] == old_v[k + 2]);
                        }
                    }
                    assert forall|k: int| 0 <= k <= v@.len() implies i32::MIN <= #[trigger] total(
                        v@.subrange(0, k),
                    ) <= i32::MAX by {
                        if k > 0 {
                            let part = old_v.subrange(3, k + 2);
                            assert(v@.subrange(0, k) =~= seq![Token::Number((first + second) as i32)]
                                + part);
                            assert(old_v.subrange(0, k + 2) =~= old_v.subrange(0, 3) + part);
                            lemma_total_concat(seq![Token::Number((first + second) as i32)], part);
                            lemma_total_concat(old_v.subrange(0, 3), part);
                            assert(total(old_v.subrange(0, k + 2)) == total(
                                old_v.subrange(0, k + 2),
                            ));
                        } else {
                            assert(v@.subrange(0, 0) =~= Seq::<Token>::empty());
                        }
                    }
                }
            },
            _ => {},
        }
    }
    proof {
        assert(v@.len() == 1);
        assert(v@ =~= seq![v@[0]]);
        lemma_total_single(v@[0]);
        assert(v@[0] is Number);
    }
    v
}

} // verus!
