//! Splitting an input line into whitespace-separated tokens, and joining
//! the payload tokens back together with single spaces.

use vstd::prelude::*;
use vstd::string::StringExecFns;

verus! {

/// An ASCII whitespace character, the separators of the line grammar.
pub open spec fn is_space(c: char) -> bool {
    c == ' ' || c == '\t' || c == '\n' || c == '\r' || c == '\u{b}' || c == '\u{c}'
}

/// Splits the rest of the line `s` on runs of whitespace, with `cur` the
/// token read so far and `acc` the tokens already complete.
pub open spec fn split_ws_rec(s: Seq<char>, cur: Seq<char>, acc: Seq<Seq<char>>) -> Seq<Seq<char>>
    decreases s.len(),
{
    if s.len() == 0 {
        if cur.len() > 0 {
            acc.push(cur)
        } else {
            acc
        }
    } else if is_space(s[0]) {
        if cur.len() > 0 {
            split_ws_rec(s.drop_first(), Seq::empty(), acc.push(cur))
        } else {
            split_ws_rec(s.drop_first(), Seq::empty(), acc)
        }
    } else {
        split_ws_rec(s.drop_first(), cur.push(s[0]), acc)
    }
}

/// The whitespace-separated tokens of `s`, in order, each non-empty.
pub open spec fn split_ws(s: Seq<char>) -> Seq<Seq<char>> {
    split_ws_rec(s, Seq::empty(), Seq::empty())
}

/// The tokens joined with one space between each pair.
pub open spec fn join_sp(ts: Seq<Seq<char>>) -> Seq<char>
    decreases ts.len(),
{
    if ts.len() == 0 {
        Seq::empty()
    } else if ts.len() == 1 {
        ts[0]
    } else {
        join_sp(ts.drop_last()) + seq![' '] + ts.last()
    }
}

/// Decides whether `c` separates tokens.
fn is_space_char(c: char) -> (b: bool)
    ensures
        b == is_space(c),
{
    c == ' ' || c == '\t' || c == '\n' || c == '\r' || c == '\u{b}' || c == '\u{c}'
}

/// Splits `s` into its whitespace-separated tokens.
pub(crate) fn split_tokens<'a>(s: &'a str) -> (tokens: Vec<&'a str>)
    ensures
        tokens@.map_values(|t: &str| t@) == split_ws(s@),
{
    let n = s.unicode_len();
    let mut tokens: Vec<&str> = Vec::new();
    let mut i: usize = 0;
    let mut start: usize = 0;
    let mut in_tok = false;
    proof {
        assert(s@.subrange(0, n as int) =~= s@);
        assert(tokens@.map_values(|t: &str| t@) =~= Seq::<Seq<char>>::empty());
    }
    while i < n
        invariant
            0 <= i <= n,
            n == s@.len(),
            in_tok ==> 0 <= start < i,
            split_ws_rec(
                s@.subrange(i as int, n as int),
                if in_tok {
                    s@.subrange(start as int, i as int)
                } else {
                    Seq::<char>::empty()
                },
                tokens@.map_values(|t: &str| t@),
            ) == split_ws(s@),
        decreases n - i,
    {
        let ghost rest = s@.subrange(i as int, n as int);
        let ghost cur = if in_tok {
            s@.subrange(start as int, i as int)
        } else {
            Seq::<char>::empty()
        };
        let ghost done = tokens@.map_values(|t: &str| t@);
        proof {
            assert(rest[0] == s@[i as int]);
            assert(rest.drop_first() =~= s@.subrange(i + 1, n as int));
        }
        let c = s.get_char(i);
        if is_space_char(c) {
            if in_tok {
                let t = s.substring_char(start, i);
                tokens.push(t);
                in_tok = false;
                proof {
                    assert(cur.len() > 0);
                    assert(tokens@.map_values(|t: &str| t@) =~= done.push(cur));
                }
            }
        } else {
            if !in_tok {
                start = i;
                in_tok = true;
            }
            proof {
                assert(s@.subrange(start as int, i + 1) =~= cur.push(s@[i as int]));
            }
        }
        i = i + 1;
    }
    if in_tok {
        let t = s.substring_char(start, n);
        tokens.push(t);
    }
    proof {
        assert(s@.subrange(n as int, n as int) =~= Seq::<char>::empty());
    }
    tokens
}

/// Joins `tokens[from..]` with single spaces.
pub(crate) fn join_tokens(tokens: &Vec<&str>, from: usize) -> (r: String)
    requires
        from <= tokens@.len(),
    ensures
        r@ == join_sp(tokens@.map_values(|t: &str| t@).skip(from as int)),
{
    let ghost ts = tokens@.map_values(|t: &str| t@).skip(from as int);
    let mut out = String::new();
    let len = tokens.len();
    let mut i: usize = from;
    while i < len
        invariant
            from <= i <= len,
            len == tokens@.len(),
            ts == tokens@.map_values(|t: &str| t@).skip(from as int),
            ts.len() == len - from,
            forall|k: int| 0 <= k < ts.len() ==> ts[k] == tokens@[from + k]@,
            out@ == join_sp(ts.subrange(0, i - from)),
        decreases len - i,
    {
        let t = tokens[i];
        if i > from {
            out.append(" ");
            proof {
                reveal_strlit(" ");
                assert(" "@ =~= seq![' ']);
            }
        }
        out.append(t);
        proof {
            let k = i - from;
            let pre = ts.subrange(0, k);
            let now = ts.subrange(0, k + 1);
            assert(now.drop_last() =~= pre);
            assert(now.last() == ts[k]);
            if k == 0 {
                assert(out@ =~= now[0]);
            }
        }
        i = i + 1;
    }
    proof {
        assert(ts.subrange(0, len - from) =~= ts);
    }
    out
}

} // verus!
