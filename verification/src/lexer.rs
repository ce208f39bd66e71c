//! The lexer: splits source text into whitespace-delimited tokens.

use vstd::prelude::*;
use crate::is_ws;
use crate::ws_char;
use crate::text::push_char;

verus! {

/// The tokens of `s[i ..]`, scanned left to right with `cur` the token
/// under construction and `acc` the tokens already complete.
pub open spec fn tok_rec(s: Seq<char>, i: int, cur: Seq<char>, acc: Seq<Seq<char>>) -> Seq<
    Seq<char>,
>
    decreases s.len() - i,
{
    if i < 0 || i >= s.len() {
        if cur.len() == 0 {
            acc
        } else {
            acc.push(cur)
        }
    } else if is_ws(s[i]) {
        if cur.len() == 0 {
            tok_rec(s, i + 1, cur, acc)
        } else {
            tok_rec(s, i + 1, Seq::empty(), acc.push(cur))
        }
    } else {
        tok_rec(s, i + 1, cur.push(s[i]), acc)
    }
}

/// The maximal whitespace-free runs of `s`, in order.
pub open spec fn tokens_of(s: Seq<char>) -> Seq<Seq<char>> {
    tok_rec(s, 0, Seq::empty(), Seq::empty())
}

/// Splits source text on runs of whitespace.
pub fn tokenize(s: &str) -> (toks: Vec<String>)
    ensures
        toks.deep_view() == tokens_of(s@),
{
    let len = s.unicode_len();
    let mut acc: Vec<String> = Vec::new();
    let mut cur = String::new();
    let mut i: usize = 0;
    proof {
        assert(acc.deep_view() =~= Seq::<Seq<char>>::empty());
    }
    while i < len
        invariant
            len == s@.len(),
            i <= len,
            tokens_of(s@) == tok_rec(s@, i as int, cur@, acc.deep_view()),
        decreases len - i,
    {
        let c = s.get_char(i);
        if ws_char(c) {
            if cur.as_str().unicode_len() != 0 {
                let ghost pre = acc.deep_view();
                acc.push(cur);
                cur = String::new();
                proof {
                    assert(acc.deep_view() =~= pre.push(acc@.last()@));
                }
            }
        } else {
            push_char(&mut cur, c);
        }
        i = i + 1;
    }
    if cur.as_str().unicode_len() != 0 {
        let ghost pre = acc.deep_view();
        acc.push(cur);
        proof {
            assert(acc.deep_view() =~= pre.push(acc@.last()@));
        }
    }
    acc
}

} // verus!
