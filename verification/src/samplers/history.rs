use vstd::prelude::*;

use crate::types::TID;

verus! {

/// The trailing window of the history considered by a penalty stage: the
/// last `last_n` tokens, or all of them when fewer.
pub open spec fn window_spec(hist: Seq<TID>, last_n: int) -> Seq<TID> {
    if last_n >= hist.len() {
        hist
    } else {
        hist.skip(hist.len() - last_n)
    }
}

/// How often a token occurs in a window.
pub open spec fn count_in(w: Seq<TID>, t: TID) -> nat {
    w.to_multiset().count(t)
}

/// Copy the trailing window out of the history.
pub fn window_vec(tokens: &Vec<TID>, last_n: usize) -> (r: Vec<TID>)
    ensures
        r@ == window_spec(tokens@, last_n as int),
{
    let n = tokens.len();
    let from: usize = if last_n >= n {
        0
    } else {
        n - last_n
    };
    let mut out: Vec<TID> = Vec::new();
    let mut i: usize = from;
    while i < n
        invariant
            from <= i <= n,
            n == tokens@.len(),
            out@ =~= tokens@.subrange(from as int, i as int),
        decreases n - i,
    {
        out.push(tokens[i]);
        i = i + 1;
    }
    proof {
        if last_n as int >= tokens@.len() {
            assert(out@ =~= tokens@);
        } else {
            assert(out@ =~= tokens@.skip(tokens@.len() - last_n as int));
        }
    }
    out
}

/// Whether the window holds the token.
pub fn contains_tok(w: &Vec<TID>, t: TID) -> (r: bool)
    ensures
        r == w@.contains(t),
{
    let n = w.len();
    let mut i: usize = 0;
    while i < n
        invariant
            0 <= i <= n,
            n == w@.len(),
            forall|j: int| 0 <= j < i ==> (#[trigger] w@[j]) != t,
        decreases n - i,
    {
        if w[i] == t {
            return true;
        }
        i = i + 1;
    }
    false
}

/// How often the window holds the token.
pub fn count_tok(w: &Vec<TID>, t: TID) -> (r: usize)
    ensures
        r == count_in(w@, t),
{
    let n = w.len();
    let mut c: usize = 0;
    let mut i: usize = 0;
    proof {
        assert(w@.subrange(0, 0) =~= Seq::<TID>::empty());
        vstd::seq_lib::to_multiset_len::<TID>(w@.subrange(0, 0));
        broadcast use vstd::multiset::group_multiset_axioms;

        assert(w@.subrange(0, 0).to_multiset().count(t) == 0);
    }
    while i < n
        invariant
            0 <= i <= n,
            n == w@.len(),
            c <= i,
            c == w@.subrange(0, i as int).to_multiset().count(t),
        decreases n - i,
    {
        proof {
            broadcast use vstd::multiset::group_multiset_axioms;

            let pre = w@.subrange(0, i as int);
            assert(w@.subrange(0, i + 1) =~= pre.push(w@[i as int]));
            vstd::seq_lib::to_multiset_build::<TID>(pre, w@[i as int]);
        }
        if w[i] == t {
            c = c + 1;
        }
        i = i + 1;
    }
    proof {
        assert(w@.subrange(0, n as int) =~= w@);
    }
    c
}

} // verus!
