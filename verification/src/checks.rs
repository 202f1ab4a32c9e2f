//! Complaints: what is wrong with a value, if anything is.

use vstd::prelude::*;

verus! {

/// The first of two complaints.
pub open spec fn either(first: Option<Seq<char>>, second: Option<Seq<char>>) -> Option<Seq<char>> {
    if first is Some {
        first
    } else {
        second
    }
}

/// The first of a list of complaints.
pub open spec fn first_of(complaints: Seq<Option<Seq<char>>>) -> Option<Seq<char>>
    decreases complaints.len(),
{
    if complaints.len() == 0 {
        None
    } else {
        either(first_of(complaints.drop_last()), complaints.last())
    }
}

/// A complaint among the first ones is the first of all.
pub proof fn lemma_first_of(complaints: Seq<Option<Seq<char>>>, n: int)
    requires
        0 <= n <= complaints.len(),
        first_of(complaints.take(n)) is Some,
    ensures
        first_of(complaints) == first_of(complaints.take(n)),
    decreases complaints.len() - n,
{
    if n < complaints.len() {
        assert(complaints.take(n + 1).drop_last() =~= complaints.take(n));
        lemma_first_of(complaints, n + 1);
    } else {
        assert(complaints.take(n) =~= complaints);
    }
}

/// Where there is no first complaint there is none.
pub proof fn lemma_none(complaints: Seq<Option<Seq<char>>>, i: int)
    requires
        first_of(complaints) is None,
        0 <= i < complaints.len(),
    ensures
        complaints[i] is None,
    decreases complaints.len(),
{
    if i < complaints.len() - 1 {
        lemma_none(complaints.drop_last(), i);
        assert(complaints.drop_last()[i] == complaints[i]);
    }
}

/// The views of optional texts.
pub open spec fn texts(messages: Seq<Option<String>>) -> Seq<Option<Seq<char>>> {
    messages.map_values(|message: Option<String>| crate::error::inner(message))
}

/// The first of a list of complaints.
pub fn first_complaint(complaints: Vec<Option<String>>) -> (r: Option<String>)
    ensures
        crate::error::inner(r) == first_of(texts(complaints@)),
{
    let ghost all = texts(complaints@);
    let mut i: usize = 0;
    assert(all.take(0) =~= Seq::empty());
    while i < complaints.len()
        invariant
            i <= complaints.len(),
            all == texts(complaints@),
            first_of(all.take(i as int)) is None,
        decreases complaints.len() - i,
    {
        proof {
            assert(all.take(i + 1).drop_last() =~= all.take(i as int));
            assert(all.take(i + 1).last() == crate::error::inner(complaints@[i as int]));
        }
        if let Some(message) = &complaints[i] {
            proof {
                lemma_first_of(all, i + 1);
            }
            return Some(message.clone());
        }
        i += 1;
    }
    assert(all.take(complaints.len() as int) =~= all);
    None
}

} // verus!
