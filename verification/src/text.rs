//! Character-level access to string slices.

use vstd::prelude::*;
use vstd::string::StrSliceExecFns;

verus! {

/// Collects the characters of a string slice into a vector, in order.
pub fn str_chars(s: &str) -> (r: Vec<char>)
    ensures
        r@ == s@,
{
    let n = s.unicode_len();
    let mut v: Vec<char> = Vec::new();
    let mut i: usize = 0;
    while i < n
        invariant
            0 <= i <= n,
            n == s@.len(),
            v@ == s@.take(i as int),
        decreases n - i,
    {
        let c = s.get_char(i);
        v.push(c);
        i = i + 1;
        proof {
            assert(v@ =~= s@.take(i as int));
        }
    }
    proof {
        assert(v@ =~= s@);
    }
    v
}

/// Relies on `String::push`: it appends exactly the one given character.
#[verifier::external_body]
pub(crate) fn push_char(s: &mut String, c: char)
    ensures
        final(s)@ == old(s)@.push(c),
{
    s.push(c);
}

/// The views of a sequence of vectors, element by element.
pub open spec fn views_of<T>(s: Seq<Vec<T>>) -> Seq<Seq<T>> {
    Seq::new(s.len(), |i: int| s[i]@)
}

pub proof fn lemma_views_push<T>(parts: Seq<Vec<T>>, v: Vec<T>)
    ensures
        views_of(parts.push(v)) == views_of(parts) + seq![v@],
{
    assert(views_of(parts.push(v)) =~~= views_of(parts) + seq![v@]);
}

pub proof fn lemma_seqs_concat_empty<T>(a: Seq<Seq<T>>)
    ensures
        a + Seq::<Seq<T>>::empty() == a,
{
    assert(a + Seq::<Seq<T>>::empty() =~~= a);
}

pub proof fn lemma_seqs_mid_concat<T>(acc: Seq<Seq<T>>, x: Seq<T>, after: Seq<Seq<T>>)
    ensures
        acc + (seq![x] + after) == acc.push(x) + after,
{
    assert(acc + (seq![x] + after) =~~= acc.push(x) + after);
}

} // verus!
