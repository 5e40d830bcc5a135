//! The random choices of the server: session ids and room codes.
use vstd::prelude::*;

use rand::rngs::ThreadRng;

verus! {

/// `rand::rngs::ThreadRng`, the per-thread generator the server draws from.
#[verifier::external_type_specification]
#[verifier::external_body]
pub struct ExThreadRng(ThreadRng);

/// A character of the alphabet `A-Z`, `a-z`, `0-9`.
pub open spec fn is_alphanumeric(c: char) -> bool {
    ||| ('A' as int) <= (c as int) <= ('Z' as int)
    ||| ('a' as int) <= (c as int) <= ('z' as int)
    ||| ('0' as int) <= (c as int) <= ('9' as int)
}

/// A room code: exactly `len` characters, each of them alphanumeric.
pub open spec fn is_room_code(s: Seq<char>, len: nat) -> bool {
    &&& s.len() == len
    &&& forall|i: int| 0 <= i < s.len() ==> is_alphanumeric(#[trigger] s[i])
}

/// Calls `rand::thread_rng`, which hands out a handle to the thread's generator.
/// Nothing is claimed of the handle (it panics only where the operating system
/// gives no entropy to seed it).
#[verifier::external_body]
pub(crate) fn new_thread_rng() -> ThreadRng {
    rand::thread_rng()
}

/// Calls `Rng::gen::<usize>` on the generator: any `usize` may come back, so
/// nothing is claimed of the result. It claims the call does not unwind: the
/// value is one `next_u32`/`next_u64` of the thread's generator, whose
/// periodic reseeding only logs a failure and carries on.
#[verifier::external_body]
pub(crate) fn random_usize(rng: &mut ThreadRng) -> usize
    no_unwind
{
    rand::Rng::gen::<usize>(rng)
}

/// Calls `Rng::sample_iter` with `rand::distributions::Alphanumeric` and keeps
/// the first `len` characters. The `Alphanumeric` distribution of rand 0.7 only
/// draws from `A-Z`, `a-z` and `0-9`, and the iterator never ends, so the
/// string has exactly `len` such characters; which ones is left open.
#[verifier::external_body]
pub(crate) fn random_alphanumeric(rng: ThreadRng, len: usize) -> (code: String)
    ensures
        is_room_code(code@, len as nat),
{
    rand::Rng::sample_iter(rng, rand::distributions::Alphanumeric).take(len).collect()
}

} // verus!
