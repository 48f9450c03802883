use vstd::prelude::*;

verus! {

/// Relies on `<[E; T] as TryFrom<Vec<E>>>::try_from`: it hands back the
/// whole contents as an array exactly when the vector's length is `T`.
#[verifier::external_body]
fn vec_into_array<E, const T: usize>(v: Vec<E>) -> (r: Result<[E; T], Vec<E>>)
    ensures
        v@.len() == T <==> r is Ok,
        r is Ok ==> r->Ok_0@ == v@,
{
    <[E; T]>::try_from(v)
}

/// A fresh array holding the same elements, in the same order, as `slice`.
pub fn copy<const T: usize, E: Copy>(slice: &[E; T]) -> (r: [E; T])
    ensures
        r@ == slice@,
{
    let mut new: Vec<E> = Vec::with_capacity(T);
    let mut i: usize = 0;
    while i < T
        invariant
            i <= T,
            slice@.len() == T,
            new@ == slice@.subrange(0, i as int),
        decreases T - i,
    {
        new.push(slice[i]);
        i = i + 1;
    }
    assert(new@ =~= slice@);
    match vec_into_array::<E, T>(new) {
        Ok(x) => x,
        Err(_) => {
            proof {
                assert(false);
            }
            *slice
        },
    }
}

} // verus!
