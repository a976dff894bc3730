use vstd::prelude::*;

verus! {

/// A game state that can be saved, restored and advanced deterministically.
///
/// Implementors supply [`RollbackState::advance`] and [`RollbackState::stepped`], the state
/// that one frame leads to, which `advance` must produce, and the three operations through
/// which the engine copies states and copies and compares inputs, each with the contract that
/// the engine relies on (a `Clone` or `PartialEq` impl is not bound to these by itself).
pub trait RollbackState: Sized + Clone {
    /// The per-player input consumed by one frame.
    type Input: Clone + PartialEq + Default;

    /// The state reached from `self` after one frame with `inputs` (one per player).
    spec fn stepped(self, inputs: &[Self::Input]) -> Self;

    /// Advances the state by one frame according to `inputs`.
    fn advance(&mut self, inputs: &[Self::Input])
        ensures
            *final(self) == old(self).stepped(inputs),
    ;

    /// A copy of the state (a snapshot), equal to it.
    fn save(&self) -> (copy: Self)
        ensures
            copy == *self,
    ;

    /// A copy of an input, equal to it.
    fn copy_input(input: &Self::Input) -> (copy: Self::Input)
        ensures
            copy == *input,
    ;

    /// Whether two inputs are the same value.
    fn same_input(a: &Self::Input, b: &Self::Input) -> (same: bool)
        ensures
            same == (*a == *b),
    ;

    /// Checksum for out-of-sync detection: the state's bincode encoding (empty where encoding
    /// fails), hashed with ahash under the fixed keys [`CHECKSUM_KEY_0`] .. [`CHECKSUM_KEY_3`],
    /// so that peers running the same build compute the same checksum for the same state.
    fn checksum(&self) -> (c: u64)
        where Self: serde::Serialize,
        default_ensures
            is_checksum_of(*self, c),
    {
        let bytes = match crate::codec::encode(self) {
            Some(b) => b,
            None => Vec::new(),
        };
        hash_bytes(&bytes, CHECKSUM_KEY_0, CHECKSUM_KEY_1, CHECKSUM_KEY_2, CHECKSUM_KEY_3)
    }
}

/// First key of the checksum hasher.
pub const CHECKSUM_KEY_0: u64 = 0x243f_6a88_85a3_08d3;

/// Second key of the checksum hasher.
pub const CHECKSUM_KEY_1: u64 = 0x1319_8a2e_0370_7344;

/// Third key of the checksum hasher.
pub const CHECKSUM_KEY_2: u64 = 0xa409_3822_299f_31d0;

/// Fourth key of the checksum hasher.
pub const CHECKSUM_KEY_3: u64 = 0x082e_fa98_ec4e_6c89;

/// The state reached from `s` by one frame with the inputs `inputs`.
pub open spec fn step<S: RollbackState>(s: S, inputs: Seq<S::Input>) -> S {
    s.stepped(choose|sl: &[S::Input]| sl@ == inputs)
}

/// One frame with a slice of inputs is one frame with its contents.
pub proof fn lemma_step_slice<S: RollbackState>(s: S, inputs: &[S::Input])
    ensures
        s.stepped(inputs) == step(s, inputs@),
{
    let c = choose|x: &[S::Input]| x@ == inputs@;
    assert(c@ == inputs@);
    assert(c =~= inputs);
}

/// The state reached from `s` by running one frame for each element of `frames`, in order.
pub open spec fn run<S: RollbackState>(s: S, frames: Seq<Seq<S::Input>>) -> S
    decreases frames.len(),
{
    if frames.len() == 0 {
        s
    } else {
        step(run(s, frames.drop_last()), frames.last())
    }
}

/// Running `a` then `b` is running `a + b`.
pub proof fn lemma_run_append<S: RollbackState>(s: S, a: Seq<Seq<S::Input>>, b: Seq<Seq<S::Input>>)
    ensures
        run(s, a + b) == run(run(s, a), b),
    decreases b.len(),
{
    if b.len() == 0 {
        assert(a + b =~= a);
    } else {
        lemma_run_append(s, a, b.drop_last());
        assert((a + b).drop_last() =~= a + b.drop_last());
        assert((a + b).last() == b.last());
    }
}

/// `c` is a value that the provided [`RollbackState::checksum`] can return for `value`: what
/// the ahash hasher with the checksum keys gives for the bytes that bincode gives for
/// `value`, or for no bytes where encoding fails. Neither the bytes nor the hash is stated
/// further (see the two calls below).
pub closed spec fn is_checksum_of<T: serde::Serialize>(value: T, c: u64) -> bool {
    exists|enc: Option<Vec<u8>>, bytes: &[u8]|
        #![trigger call_ensures(crate::codec::encode::<T>, (&value,), enc), call_ensures(hash_bytes, (bytes, CHECKSUM_KEY_0, CHECKSUM_KEY_1, CHECKSUM_KEY_2, CHECKSUM_KEY_3), c)]
        call_ensures(crate::codec::encode::<T>, (&value,), enc)
        && bytes@ == (match enc {
            Some(b) => b@,
            None => Seq::empty(),
        })
        && call_ensures(hash_bytes, (bytes, CHECKSUM_KEY_0, CHECKSUM_KEY_1, CHECKSUM_KEY_2, CHECKSUM_KEY_3), c)
}

/// The hasher of `ahash::RandomState::with_seeds(k0, k1, k2, k3)` fed with `bytes`, then
/// `finish`. Nothing is stated of the result: the keys are fixed, but ahash documents no fixed
/// output standard (its output differs between machines and between versions), so the result
/// is not named as a function of the bytes.
#[verifier::external_body]
fn hash_bytes(bytes: &[u8], k0: u64, k1: u64, k2: u64, k3: u64) -> u64 {
    let mut hasher = std::hash::BuildHasher::build_hasher(&ahash::RandomState::with_seeds(k0, k1, k2, k3));
    std::hash::Hasher::write(&mut hasher, bytes);
    std::hash::Hasher::finish(&hasher)
}

} // verus!
