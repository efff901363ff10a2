//! The identifier generator state machine.

use crate::id::Id;
use crate::rand128::fresh_base;
use vstd::prelude::*;

verus! {

/// An identifier generator: a random 128-bit base for the active counting
/// window, and the number of identifiers minted from that base so far.
/// Every instance draws its own base, so independent generators disagree
/// with overwhelming probability.
pub struct HyperId {
    /// The random base of the active window.
    pub base: u128,
    /// How many identifiers were minted from the current base, 0 to 255.
    pub counter: u8,
}

/// The counter after one generation step: plus one, wrapping 255 to 0.
pub open spec fn next_counter(c: u8) -> u8 {
    if c == 255 {
        0
    } else {
        (c + 1) as u8
    }
}

/// How one `generate` call relates the generator state before it to the
/// state after it: the counter advances with wraparound, and the base is
/// kept for as long as the counter does not wrap. On a wrap the base is
/// freshly drawn, so nothing relates it to the old one.
pub open spec fn generate_step(pre: HyperId, post: HyperId) -> bool {
    &&& post.counter == next_counter(pre.counter)
    &&& (pre.counter != 255 ==> post.base == pre.base)
}

impl HyperId {
    /// The identifier that captures the current state.
    pub open spec fn snapshot(&self) -> Id {
        Id { base: self.base, counter: self.counter }
    }

    /// Create a generator with a freshly drawn random base and a counter
    /// at zero.
    pub fn new() -> (g: Self)
        ensures
            g.counter == 0,
    {
        let base = fresh_base();
        HyperId { base, counter: 0 }
    }

    /// Resume a sequence from an existing identifier: the generator takes
    /// over its base and counter unchanged.
    pub fn from_id(id: Id) -> (g: Self)
        ensures
            g.base == id.base,
            g.counter == id.counter,
            g.snapshot() == id,
    {
        HyperId { base: id.base, counter: id.counter }
    }

    /// Snapshot the current state without mutating it. Two calls without
    /// an intervening `generate` return equal identifiers.
    pub fn get(&self) -> (r: Id)
        ensures
            r == self.snapshot(),
    {
        Id { base: self.base, counter: self.counter }
    }

    /// Advance the counter with wraparound, draw a fresh base when the
    /// counter wraps to zero, and return a snapshot of the new state.
    pub fn generate(&mut self) -> (r: Id)
        ensures
            generate_step(*old(self), *final(self)),
            r == final(self).snapshot(),
            r.counter != old(self).counter,
    {
        if self.counter == 255 {
            self.counter = 0;
            self.base = fresh_base();
        } else {
            self.counter = self.counter + 1;
        }
        Id { base: self.base, counter: self.counter }
    }
}

impl Default for HyperId {
    /// Same as `HyperId::new`: a fresh random base and a counter at zero.
    fn default() -> (g: Self)
        ensures
            g.counter == 0,
    {
        HyperId::new()
    }
}

/// Law: `get` is deterministic. Any two identifiers that snapshot the same
/// generator state are equal.
pub proof fn lemma_get_deterministic(g: HyperId, first: Id, second: Id)
    requires
        first == g.snapshot(),
        second == g.snapshot(),
    ensures
        first == second,
{
}

/// Law: one `generate` call changes the counter, so the identifier it
/// returns differs from any snapshot taken before the call.
pub proof fn lemma_generate_changes_counter(pre: HyperId, post: HyperId, before: Id, after: Id)
    requires
        before == pre.snapshot(),
        generate_step(pre, post),
        after == post.snapshot(),
    ensures
        after.counter != before.counter,
        after != before,
{
}

/// Law: consecutive `generate` calls return distinct identifiers, whatever
/// the bases drawn along the way: their counters always differ.
pub proof fn lemma_consecutive_generates_distinct(
    g0: HyperId,
    g1: HyperId,
    g2: HyperId,
    first: Id,
    second: Id,
)
    requires
        generate_step(g0, g1),
        first == g1.snapshot(),
        generate_step(g1, g2),
        second == g2.snapshot(),
    ensures
        first != second,
{
}

/// In a run of generator states that starts with the counter at zero, the
/// counter simply counts the steps for the first 255 of them and the base
/// never changes: no step in that range wraps.
proof fn lemma_counter_tracks_steps(states: Seq<HyperId>, k: int)
    requires
        states.len() == 257,
        states[0].counter == 0,
        forall|i: int| 0 <= i < 256 ==> #[trigger] generate_step(states[i], states[i + 1]),
        0 <= k <= 255,
    ensures
        states[k].counter == k,
        states[k].base == states[0].base,
    decreases k,
{
    if k > 0 {
        lemma_counter_tracks_steps(states, k - 1);
        assert(generate_step(states[k - 1], states[k]));
    }
}

/// Law: the wraparound window. Starting from a counter at zero, 255
/// `generate` calls leave the base untouched and carry the counter to 255;
/// the 256th call wraps the counter back to zero (and only then is a new
/// base drawn).
pub proof fn lemma_wraparound_window(states: Seq<HyperId>)
    requires
        states.len() == 257,
        states[0].counter == 0,
        forall|i: int| 0 <= i < 256 ==> #[trigger] generate_step(states[i], states[i + 1]),
    ensures
        states[255].base == states[0].base,
        states[255].counter == 255,
        states[256].counter == 0,
{
    lemma_counter_tracks_steps(states, 255);
    let k: int = 255;
    assert(generate_step(states[k], states[k + 1]));
}

} // verus!
