use vstd::prelude::*;

use crate::dialog::unique_seq;

verus! {

/// Membership in a sequence with one element put in front.
pub(crate) proof fn lemma_cons_contains<A>(a: A, s: Seq<A>, y: A)
    ensures
        (seq![a] + s).contains(y) <==> (a == y || s.contains(y)),
{
    if (seq![a] + s).contains(y) {
        let i = choose|i: int| 0 <= i < (seq![a] + s).len() && (seq![a] + s)[i] == y;
        if i != 0 {
            assert(s[i - 1] == y);
        }
    }
    if a == y {
        assert((seq![a] + s)[0] == y);
    }
    if s.contains(y) {
        let i = choose|i: int| 0 <= i < s.len() && s[i] == y;
        assert((seq![a] + s)[i + 1] == y);
    }
}

/// Membership in a sequence with one element pushed at the end.
pub(crate) proof fn lemma_push_contains<A>(s: Seq<A>, a: A, y: A)
    ensures
        s.push(a).contains(y) <==> (s.contains(y) || a == y),
{
    if s.push(a).contains(y) {
        let i = choose|i: int| 0 <= i < s.push(a).len() && s.push(a)[i] == y;
        if i < s.len() {
            assert(s[i] == y);
        }
    }
    if s.contains(y) {
        let i = choose|i: int| 0 <= i < s.len() && s[i] == y;
        assert(s.push(a)[i] == y);
    }
    if a == y {
        assert(s.push(a)[s.len() as int] == y);
    }
}

/// Uniqueness of a sequence with one element put in front.
pub(crate) proof fn lemma_cons_unique<A>(a: A, s: Seq<A>)
    ensures
        unique_seq(seq![a] + s) <==> (unique_seq(s) && !s.contains(a)),
{
    let c = seq![a] + s;
    if unique_seq(c) {
        assert forall|i: int, j: int| 0 <= i < j < s.len() implies s[i] != s[j] by {
            assert(c[i + 1] == s[i]);
            assert(c[j + 1] == s[j]);
        }
        if s.contains(a) {
            let i = choose|i: int| 0 <= i < s.len() && s[i] == a;
            assert(c[0] == c[i + 1]);
            assert(false);
        }
    }
    if unique_seq(s) && !s.contains(a) {
        assert forall|i: int, j: int| 0 <= i < j < c.len() implies c[i] != c[j] by {
            if i == 0 {
                assert(c[j] == s[j - 1]);
                if c[j] == a {
                    assert(s[j - 1] == a);
                }
            } else {
                assert(c[i] == s[i - 1]);
                assert(c[j] == s[j - 1]);
            }
        }
    }
}

/// Pushing a fresh element at the end keeps a sequence duplicate-free.
pub(crate) proof fn lemma_push_unique<A>(s: Seq<A>, a: A)
    requires
        unique_seq(s),
        !s.contains(a),
    ensures
        unique_seq(s.push(a)),
{
    assert forall|i: int, j: int| 0 <= i < j < s.push(a).len() implies s.push(a)[i] != s.push(a)[j]
        by {
        if j < s.len() {
            assert(s.push(a)[i] == s[i]);
            assert(s.push(a)[j] == s[j]);
        } else {
            assert(s.push(a)[j] == a);
            assert(s.push(a)[i] == s[i]);
            if s[i] == a {
                assert(s.contains(a));
            }
        }
    }
}

} // verus!
