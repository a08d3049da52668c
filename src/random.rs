use vstd::prelude::*;
use rand::seq::SliceRandom;
use rand::Rng;

verus! {

#[verifier::external_type_specification]
#[verifier::external_body]
pub struct ExThreadRng(rand::rngs::ThreadRng);

/// Relies on rand::thread_rng: a handle to the thread-local generator, of which nothing is promised.
pub assume_specification[ rand::thread_rng ]() -> rand::rngs::ThreadRng;

/// The characters that rand's `Alphanumeric` distribution draws from: ASCII letters and digits.
pub open spec fn is_alphanumeric(c: char) -> bool {
    ('A' <= c && c <= 'Z') || ('a' <= c && c <= 'z') || ('0' <= c && c <= '9')
}

/// Relies on Rng::sample_iter with rand's `Alphanumeric`: an endless stream of ASCII letters
/// and digits, of which `len` are taken.
#[verifier::external_body]
pub fn random_token(rng: &mut rand::rngs::ThreadRng, len: usize) -> (r: String)
    ensures
        r@.len() == len,
        forall|i: int| 0 <= i < r@.len() ==> is_alphanumeric(#[trigger] r@[i]),
{
    (&mut *rng).sample_iter(&rand::distributions::Alphanumeric).take(len).map(char::from).collect()
}

/// Relies on SliceRandom::shuffle: the elements are swapped among themselves, so the result is
/// a rearrangement of the input.
#[verifier::external_body]
pub fn shuffle_vec<T>(v: &mut Vec<T>, rng: &mut rand::rngs::ThreadRng)
    ensures
        final(v)@.to_multiset() == old(v)@.to_multiset(),
{
    v.shuffle(rng);
}

/// Relies on SliceRandom::choose: `None` for an empty slice, else a reference to one of its
/// elements, here cloned.
#[verifier::external_body]
pub fn choose_one(v: &Vec<String>, rng: &mut rand::rngs::ThreadRng) -> (r: Option<String>)
    ensures
        r is None <==> v@.len() == 0,
        r matches Some(s) ==> exists|i: int| 0 <= i < v@.len() && s@ == (#[trigger] v@[i])@,
{
    v.choose(rng).cloned()
}

} // verus!
