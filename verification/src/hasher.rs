//! Streaming 64-bit content fingerprints, computed by the XXH64 hasher of the
//! `twox_hash` crate.

use twox_hash::XxHash64;
use vstd::prelude::*;

verus! {

/// The seed every fingerprint is computed under.
pub const FINGERPRINT_SEED: u64 = 0;

/// `twox_hash::XxHash64`, the state of a hash in progress. Nothing inside it
/// is read here: it is carried from one call of the crate to the next.
#[verifier::external_type_specification]
#[verifier::external_body]
pub struct ExXxHash64(XxHash64);

/// The XXH64 digest of `data` under `seed`: what `XxHash64::finish` returns
/// once a hasher made with `seed` has been fed exactly the bytes of `data`.
pub uninterp spec fn xxh64(seed: u64, data: Seq<u8>) -> u64;

/// The bytes a hasher state has been fed since it was made, in order.
pub uninterp spec fn absorbed(state: XxHash64) -> Seq<u8>;

/// The seed a hasher state was made with.
pub uninterp spec fn seed_of(state: XxHash64) -> u64;

/// `XxHash64::with_seed`: a fresh state remembers its seed and has been fed
/// nothing.
pub assume_specification[ XxHash64::with_seed ](seed: u64) -> (state: XxHash64)
    ensures
        seed_of(state) == seed,
        absorbed(state) == Seq::<u8>::empty(),
;

/// `XxHash64::total_len`: the state counts the bytes it has been fed.
pub assume_specification[ XxHash64::total_len ](state: &XxHash64) -> (n: u64)
    ensures
        n == absorbed(*state).len(),
;

/// `Hasher::write` of `XxHash64`: feeding a slice appends its bytes to what
/// the state has been fed and keeps the seed. The state counts bytes in a
/// `u64`, so the total must stay within it.
#[verifier::external_body]
fn absorb(state: &mut XxHash64, data: &[u8])
    requires
        absorbed(*old(state)).len() + data@.len() <= u64::MAX,
    ensures
        absorbed(*final(state)) == absorbed(*old(state)) + data@,
        seed_of(*final(state)) == seed_of(*old(state)),
    no_unwind
{
    std::hash::Hasher::write(state, data)
}

/// `Hasher::finish` of `XxHash64`: the digest depends only on the seed and
/// on the bytes fed so far, not on how they were split into writes.
#[verifier::external_body]
fn digest(state: &XxHash64) -> (d: u64)
    ensures
        d == xxh64(seed_of(*state), absorbed(*state)),
{
    std::hash::Hasher::finish(state)
}

/// The fingerprint of a file's content: its XXH64 digest under seed 0.
pub open spec fn fingerprint(content: Seq<u8>) -> u64 {
    xxh64(FINGERPRINT_SEED, content)
}

/// What a hasher answers when it is offered the next chunk of a file.
#[derive(Clone, Copy, Debug, PartialEq, Eq, Structural)]
pub enum Fed {
    /// The chunk was taken in; the file may hold more.
    More,
    /// The chunk was empty, which ends the file: here is its fingerprint.
    Done { fingerprint: u64 },
    /// The chunk would make the content longer than a `u64` can count; it
    /// was not taken in.
    TooLong,
}

/// A fingerprint in progress. Its view is the content fed so far.
pub struct StreamHasher {
    state: XxHash64,
}

impl View for StreamHasher {
    type V = Seq<u8>;

    closed spec fn view(&self) -> Seq<u8> {
        absorbed(self.state)
    }
}

impl StreamHasher {
    #[verifier::type_invariant]
    spec fn seeded(self) -> bool {
        seed_of(self.state) == FINGERPRINT_SEED
    }

    /// Starts a fingerprint over empty content.
    pub fn new() -> (hasher: Self)
        ensures
            hasher@ == Seq::<u8>::empty(),
    {
        StreamHasher { state: XxHash64::with_seed(FINGERPRINT_SEED) }
    }

    /// Appends `chunk` to the content, unless the content would then be
    /// longer than a `u64` can count; in that case nothing changes.
    pub fn update(&mut self, chunk: &[u8]) -> (accepted: bool)
        ensures
            accepted == (old(self)@.len() + chunk@.len() <= u64::MAX),
            accepted ==> final(self)@ == old(self)@ + chunk@,
            !accepted ==> final(self)@ == old(self)@,
    {
        proof {
            use_type_invariant(&*self);
        }
        let room: u64 = u64::MAX - self.state.total_len();
        if chunk.len() as u64 <= room {
            absorb(&mut self.state, chunk);
            true
        } else {
            false
        }
    }

    /// Offers the next chunk that was read from a file. An empty chunk is
    /// the end of the file and gives the fingerprint of all that was fed; any
    /// other chunk is appended to the content.
    pub fn feed(&mut self, chunk: &[u8]) -> (fed: Fed)
        ensures
            chunk@.len() == 0 ==> fed == (Fed::Done { fingerprint: fingerprint(old(self)@) })
                && final(self)@ == old(self)@,
            chunk@.len() > 0 && old(self)@.len() + chunk@.len() <= u64::MAX ==> fed == Fed::More
                && final(self)@ == old(self)@ + chunk@,
            chunk@.len() > 0 && old(self)@.len() + chunk@.len() > u64::MAX ==> fed == Fed::TooLong
                && final(self)@ == old(self)@,
    {
        if chunk.len() == 0 {
            Fed::Done { fingerprint: self.finish() }
        } else if self.update(chunk) {
            Fed::More
        } else {
            Fed::TooLong
        }
    }

    /// The fingerprint of the content fed so far.
    pub fn finish(&self) -> (fp: u64)
        ensures
            fp == fingerprint(self@),
    {
        proof {
            use_type_invariant(self);
        }
        digest(&self.state)
    }
}

/// Fingerprints content held in memory.
pub fn fingerprint_bytes(content: &[u8]) -> (fp: u64)
    ensures
        fp == fingerprint(content@),
{
    let mut hasher = StreamHasher::new();
    assert(content@.len() == content.len());
    hasher.update(content);
    assert(Seq::<u8>::empty() + content@ =~= content@);
    hasher.finish()
}

} // verus!
