use vstd::prelude::*;

verus! {

/// Index of the first element of `s` satisfying `p`, if any. The stores
/// look records up by scanning from the front; this is that scan's meaning.
pub open spec fn find_first<A>(s: Seq<A>, p: spec_fn(A) -> bool) -> Option<int>
    decreases s.len(),
{
    if s.len() == 0 {
        None
    } else if p(s[0]) {
        Some(0)
    } else {
        match find_first(s.drop_first(), p) {
            None => None,
            Some(i) => Some(i + 1),
        }
    }
}

/// A scan that saw no match in `s[0..i]` has settled `find_first`: a match
/// at `i` is the first one, and a scan that ran off the end found none.
pub proof fn lemma_find_first_prefix<A>(s: Seq<A>, p: spec_fn(A) -> bool, i: int)
    requires
        0 <= i <= s.len(),
        forall|k: int| 0 <= k < i ==> !(#[trigger] p(s[k])),
    ensures
        i < s.len() && p(s[i]) ==> find_first(s, p) == Some(i),
        i == s.len() ==> find_first(s, p) is None,
    decreases s.len(),
{
    if s.len() == 0 {
    } else if p(s[0]) {
    } else {
        if i > 0 {
            assert forall|k: int| 0 <= k < i - 1 implies !(#[trigger] p(
                s.drop_first()[k],
            )) by {
                assert(!p(s[k + 1]));
                assert(s.drop_first()[k] == s[k + 1]);
            }
            lemma_find_first_prefix(s.drop_first(), p, i - 1);
            if i < s.len() && p(s[i]) {
                assert(s.drop_first()[i - 1] == s[i]);
            }
        }
    }
}

/// What a `find_first` result means: `None` says nothing matches, `Some(i)`
/// says `i` is a match and nothing before it is.
pub proof fn lemma_find_first_sound<A>(s: Seq<A>, p: spec_fn(A) -> bool)
    ensures
        match find_first(s, p) {
            None => forall|k: int| 0 <= k < s.len() ==> !(#[trigger] p(s[k])),
            Some(i) => {
                &&& 0 <= i < s.len()
                &&& p(s[i])
                &&& forall|k: int| 0 <= k < i ==> !(#[trigger] p(s[k]))
            },
        },
    decreases s.len(),
{
    if s.len() == 0 {
    } else if p(s[0]) {
    } else {
        lemma_find_first_sound(s.drop_first(), p);
        assert(forall|k: int|
            1 <= k < s.len() ==> s.drop_first()[k - 1] == #[trigger] s[k]);
    }
}

} // verus!
