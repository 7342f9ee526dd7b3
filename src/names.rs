//! Column names and lookups by name.

use vstd::prelude::*;

verus! {

pub open spec fn names_view(s: Seq<String>) -> Seq<Seq<char>> {
    Seq::new(s.len(), |i: int| s[i]@)
}

/// The names of `names`, in order, that `other` does not hold.
pub open spec fn names_not_in(names: Seq<Seq<char>>, other: Seq<Seq<char>>) -> Seq<Seq<char>>
    decreases names.len(),
{
    if names.len() == 0 {
        Seq::empty()
    } else {
        let rest = names_not_in(names.drop_last(), other);
        if other.contains(names.last()) {
            rest
        } else {
            rest.push(names.last())
        }
    }
}

/// Whether `names` holds `n`.
pub fn contains_name(names: &Vec<String>, n: &String) -> (r: bool)
    ensures
        r == names_view(names@).contains(n@),
{
    let ghost nv = names_view(names@);
    let mut i: usize = 0;
    while i < names.len()
        invariant
            nv == names_view(names@),
            i <= names@.len(),
            forall|j: int| 0 <= j < i ==> nv[j] != n@,
        decreases names@.len() - i,
    {
        if names[i] == *n {
            assert(nv[i as int] == n@);
            return true;
        }
        i = i + 1;
    }
    proof {
        if nv.contains(n@) {
            let j = choose|j: int| 0 <= j < nv.len() && nv[j] == n@;
            assert(nv[j] != n@);
        }
    }
    false
}

pub proof fn lemma_names_view_push(s: Seq<String>, x: String)
    ensures
        names_view(s.push(x)) == names_view(s).push(x@),
{
    assert(names_view(s.push(x)) =~= names_view(s).push(x@));
}

/// The names of `names`, in order, that `other` does not hold.
pub fn missing_names(names: &Vec<String>, other: &Vec<String>) -> (r: Vec<String>)
    ensures
        names_view(r@) == names_not_in(names_view(names@), names_view(other@)),
{
    let ghost nv = names_view(names@);
    let ghost ov = names_view(other@);
    let mut out: Vec<String> = Vec::new();
    let mut i: usize = 0;
    assert(nv.subrange(0, 0) =~= Seq::<Seq<char>>::empty());
    while i < names.len()
        invariant
            nv == names_view(names@),
            ov == names_view(other@),
            i <= names@.len(),
            names_view(out@) == names_not_in(nv.subrange(0, i as int), ov),
        decreases names@.len() - i,
    {
        assert(nv.subrange(0, i + 1).drop_last() =~= nv.subrange(0, i as int));
        assert(nv.subrange(0, i + 1).last() == names@[i as int]@);
        if !contains_name(other, &names[i]) {
            let x = names[i].clone();
            proof {
                lemma_names_view_push(out@, x);
            }
            out.push(x);
        }
        i = i + 1;
    }
    assert(nv.subrange(0, names@.len() as int) =~= nv);
    out
}

} // verus!
