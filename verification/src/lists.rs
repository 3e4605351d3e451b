//! Lists that are taken apart element by element.
use vstd::prelude::*;

verus! {

/// Turns a list around, so that taking elements off its end gives them from the
/// first on.
pub fn reversed<T>(v: Vec<T>) -> (r: Vec<T>)
    ensures
        r@ == v@.reverse(),
{
    let ghost given = v@;
    let mut rest = v;
    let mut r: Vec<T> = Vec::new();
    while rest.len() > 0
        invariant
            rest@.len() + r@.len() == given.len(),
            rest@ == given.take(rest@.len() as int),
            forall|k: int| 0 <= k < r@.len() ==> #[trigger] r@[k] == given[given.len() - 1 - k],
        decreases rest@.len(),
    {
        let ghost n = rest@.len();
        assert(rest@.last() == given[n - 1]);
        if let Some(x) = rest.pop() {
            assert(rest@ =~= given.take(n - 1));
            r.push(x);
        }
    }
    assert(r@ =~= given.reverse());
    r
}

} // verus!
