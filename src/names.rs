use vstd::prelude::*;
use rand::Rng;

verus! {

/// The name at position `index` of the table `names`.
pub fn username_at(names: &Vec<String>, index: usize) -> (r: String)
    requires
        index < names@.len(),
    ensures
        r@ == names@[index as int]@,
{
    names[index].clone()
}

/// Relies on rand's `thread_rng` and `Rng::gen_range`: a value drawn from
/// `0..n`, which must not be empty (`gen_range` panics on an empty range).
#[verifier::external_body]
fn random_below(n: usize) -> (r: usize)
    requires
        n > 0,
    ensures
        r < n,
{
    rand::thread_rng().gen_range(0..n)
}

/// A name for a new player, picked at random from the table `names`.
pub fn generate_username(names: &Vec<String>) -> (r: String)
    requires
        names@.len() > 0,
    ensures
        exists|i: int| 0 <= i < names@.len() && r@ == names@[i]@,
{
    let i = random_below(names.len());
    username_at(names, i)
}

} // verus!
