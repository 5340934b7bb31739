//! Two facts about the members of sequences that grow at their end.

use vstd::prelude::*;

verus! {

/// The members of a sequence with one more element at its end.
pub proof fn lemma_push_members<T>(s: Seq<T>, last: T, x: T)
    ensures
        s.push(last).contains(x) <==> s.contains(x) || last == x,
{
    let longer = s.push(last);
    if longer.contains(x) {
        let i = choose|i: int| 0 <= i < longer.len() && longer[i] == x;
        if i < s.len() {
            assert(s[i] == x);
        }
    }
    if s.contains(x) {
        let i = choose|i: int| 0 <= i < s.len() && s[i] == x;
        assert(longer[i] == x);
    }
    if last == x {
        assert(longer[s.len() as int] == x);
    }
}

/// The members of a prefix: one element longer, one more member.
pub proof fn lemma_prefix_members<T>(s: Seq<T>, n: int, x: T)
    requires
        0 <= n < s.len(),
    ensures
        s.take(n + 1).contains(x) <==> s.take(n).contains(x) || s[n] == x,
        !s.take(0).contains(x),
        s.take(s.len() as int) == s,
{
    let short = s.take(n);
    let long = s.take(n + 1);
    if long.contains(x) {
        let i = choose|i: int| 0 <= i < long.len() && long[i] == x;
        if i < n {
            assert(short[i] == x);
        }
    }
    if short.contains(x) {
        let i = choose|i: int| 0 <= i < short.len() && short[i] == x;
        assert(long[i] == x);
    }
    if s[n] == x {
        assert(long[n] == x);
    }
    assert(s.take(s.len() as int) =~= s);
}

} // verus!
