//! Lists: the first element that meets a condition.

use vstd::prelude::*;

verus! {

/// The first element of `s` that meets `p`, if there is one.
pub open spec fn find_first<T>(s: Seq<T>, p: spec_fn(T) -> bool) -> Option<T>
    decreases s.len(),
{
    if s.len() == 0 {
        None
    } else if p(s[0]) {
        Some(s[0])
    } else {
        find_first(s.drop_first(), p)
    }
}

/// Passing over an element that does not meet `p` does not change what is found.
pub proof fn lemma_find_first_step<T>(s: Seq<T>, p: spec_fn(T) -> bool, i: int)
    requires
        0 <= i < s.len(),
    ensures
        p(s[i]) ==> find_first(s.skip(i), p) == Some(s[i]),
        !p(s[i]) ==> find_first(s.skip(i), p) == find_first(s.skip(i + 1), p),
{
    assert(s.skip(i).drop_first() =~= s.skip(i + 1));
    assert(s.skip(i)[0] == s[i]);
}

/// What is found is an element of the list that meets `p`; nothing is found only where no element
/// does.
pub proof fn lemma_find_first<T>(s: Seq<T>, p: spec_fn(T) -> bool)
    ensures
        find_first(s, p) matches Some(x) ==> p(x) && s.contains(x),
        find_first(s, p) is None ==> forall|i: int| 0 <= i < s.len() ==> !p(#[trigger] s[i]),
    decreases s.len(),
{
    if s.len() > 0 && !p(s[0]) {
        let t = s.drop_first();
        lemma_find_first(t, p);
        if let Some(x) = find_first(t, p) {
            let k = choose|k: int| 0 <= k < t.len() && t[k] == x;
            assert(s[k + 1] == x);
        }
        if find_first(t, p) is None {
            assert forall|i: int| 0 <= i < s.len() implies !p(#[trigger] s[i]) by {
                if i > 0 {
                    assert(t[i - 1] == s[i]);
                }
            }
        }
    }
}

/// Filtering a list with one more element adds it where it meets `p`.
pub proof fn lemma_filter_push<T>(s: Seq<T>, p: spec_fn(T) -> bool, x: T)
    ensures
        s.push(x).filter(p) == if p(x) {
            s.filter(p).push(x)
        } else {
            s.filter(p)
        },
{
    reveal(Seq::filter);
    assert(s.push(x).drop_last() =~= s);
}

/// What a list with one more element contains.
pub proof fn lemma_contains_push<T>(s: Seq<T>, x: T)
    ensures
        forall|y: T| #[trigger] s.push(x).contains(y) <==> s.contains(y) || y == x,
{
    assert forall|y: T| #[trigger] s.push(x).contains(y) <==> s.contains(y) || y == x by {
        if s.contains(y) {
            let k = choose|k: int| 0 <= k < s.len() && s[k] == y;
            assert(s.push(x)[k] == y);
        }
        assert(s.push(x)[s.len() as int] == x);
    }
}

/// An element that meets `p`, and before which none does, is found.
pub proof fn law_first_found<T>(s: Seq<T>, p: spec_fn(T) -> bool, i: int)
    requires
        0 <= i < s.len(),
        p(s[i]),
        forall|j: int| 0 <= j < i ==> !p(#[trigger] s[j]),
    ensures
        find_first(s, p) == Some(s[i]),
    decreases i,
{
    if i > 0 {
        let t = s.drop_first();
        assert(!p(s[0]));
        assert(t[i - 1] == s[i]);
        assert forall|j: int| 0 <= j < i - 1 implies !p(#[trigger] t[j]) by {
            assert(t[j] == s[j + 1]);
        }
        law_first_found(t, p, i - 1);
    }
}

} // verus!
