use vstd::prelude::*;

verus! {

/// Pairs laid out flat, each pair's first component followed by its second:
/// `(a0, b0), (a1, b1), ...` becomes `a0, b0, a1, b1, ...`.
pub open spec fn interleaved<E>(pairs: Seq<(E, E)>) -> Seq<E> {
    Seq::new(2 * pairs.len(), |m: int| if m % 2 == 0 { pairs[m / 2].0 } else { pairs[m / 2].1 })
}

/// Consecutive elements taken two at a time: `a0, b0, a1, b1, ...` becomes
/// `(a0, b0), (a1, b1), ...`.
pub open spec fn paired<E>(flat: Seq<E>) -> Seq<(E, E)> {
    Seq::new(flat.len() / 2, |k: int| (flat[2 * k], flat[2 * k + 1]))
}

/// Lays `pairs` out flat, in pair order, each pair's first component first.
/// This is how the angle pairs of a point set become a parameter vector.
pub fn flatten_pairs<E: Copy>(pairs: &Vec<(E, E)>) -> (r: Vec<E>)
    requires
        2 * pairs.len() <= usize::MAX,
    ensures
        r@ == interleaved(pairs@),
{
    let mut r: Vec<E> = Vec::with_capacity(2 * pairs.len());
    let mut k: usize = 0;
    while k < pairs.len()
        invariant
            k <= pairs.len(),
            2 * pairs.len() <= usize::MAX,
            r@ =~= interleaved(pairs@.subrange(0, k as int)),
        decreases pairs.len() - k,
    {
        let (a, b) = pairs[k];
        r.push(a);
        r.push(b);
        k = k + 1;
        assert(r@ =~= interleaved(pairs@.subrange(0, k as int)));
    }
    assert(pairs@.subrange(0, k as int) =~= pairs@);
    r
}

/// Reads a flat vector back two elements at a time, the inverse of
/// `flatten_pairs`: this is how a parameter vector becomes angle pairs.
pub fn pair_up<E: Copy>(flat: &Vec<E>) -> (r: Vec<(E, E)>)
    requires
        flat.len() % 2 == 0,
    ensures
        r@ == paired(flat@),
{
    let mut r: Vec<(E, E)> = Vec::with_capacity(flat.len() / 2);
    let mut i: usize = 0;
    while i < flat.len()
        invariant
            i <= flat.len(),
            i % 2 == 0,
            flat.len() % 2 == 0,
            r@ =~= paired(flat@.subrange(0, i as int)),
        decreases flat.len() - i,
    {
        r.push((flat[i], flat[i + 1]));
        i = i + 2;
        assert(r@ =~= paired(flat@.subrange(0, i as int)));
    }
    assert(flat@.subrange(0, i as int) =~= flat@);
    r
}

/// Laying pairs out flat and reading them back gives the same pairs.
pub proof fn lemma_pair_up_flatten<E>(pairs: Seq<(E, E)>)
    ensures
        paired(interleaved(pairs)) == pairs,
{
    assert(paired(interleaved(pairs)) =~= pairs);
}

/// Reading an even-length sequence as pairs and laying them out again gives
/// the same sequence.
pub proof fn lemma_flatten_pair_up<E>(flat: Seq<E>)
    requires
        flat.len() % 2 == 0,
    ensures
        interleaved(paired(flat)) == flat,
{
    assert(interleaved(paired(flat)) =~= flat);
}

} // verus!
