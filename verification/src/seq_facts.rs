use vstd::prelude::*;

verus! {

/// Pushing an element extends membership by exactly that element.
pub(crate) proof fn lemma_push_contains<A>(s: Seq<A>, e: A, c: A)
    ensures
        s.push(e).contains(c) <==> s.contains(c) || e == c,
{
    if s.push(e).contains(c) {
        let i = choose|i: int| 0 <= i < s.push(e).len() && s.push(e)[i] == c;
        if i < s.len() {
            assert(s[i] == c);
        }
    }
    if s.contains(c) {
        let i = choose|i: int| 0 <= i < s.len() && s[i] == c;
        assert(s.push(e)[i] == c);
    }
    if e == c {
        assert(s.push(e)[s.len() as int] == c);
    }
}

/// A non-empty sequence holds an element iff its front part or its last does.
pub(crate) proof fn lemma_drop_last_contains<A>(s: Seq<A>, c: A)
    requires
        s.len() > 0,
    ensures
        s.contains(c) <==> s.drop_last().contains(c) || s.last() == c,
{
    if s.contains(c) {
        let i = choose|i: int| 0 <= i < s.len() && s[i] == c;
        if i < s.len() - 1 {
            assert(s.drop_last()[i] == c);
        }
    }
    if s.drop_last().contains(c) {
        let i = choose|i: int| 0 <= i < s.drop_last().len() && s.drop_last()[i] == c;
        assert(s[i] == c);
    }
}


} // verus!
