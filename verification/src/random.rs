//! The source of random integers: either the operating-system-seeded
//! generator, or a pre-scripted sequence of values for deterministic runs.

use rand::Rng;
use vstd::prelude::*;

verus! {

/// Relies on rand::Rng::gen_range over the range 0..n: a single value
/// sampled uniformly from that range; the range is non-empty, so the call
/// does not panic.
#[verifier::external_body]
fn system_below(n: usize) -> (r: usize)
    requires
        n > 0,
    ensures
        r < n,
{
    rand::thread_rng().gen_range(0..n)
}

/// The value a scripted provider yields for a draw over `[0, n)` at script
/// position `next`: the scripted value reduced modulo `n`, or `0` once the
/// script is exhausted.
pub open spec fn draw_at(values: Seq<u64>, next: int, n: int) -> int
    recommends
        n > 0,
{
    if 0 <= next < values.len() {
        (values[next] as int) % n
    } else {
        0
    }
}

/// The script position after one draw at position `next`.
pub open spec fn next_after(values: Seq<u64>, next: int) -> int {
    if 0 <= next < values.len() {
        next + 1
    } else {
        next
    }
}

/// A provider of uniformly distributed integers over caller-chosen ranges.
///
/// With no script it samples from the operating-system-seeded generator;
/// with a script it replays the scripted values in order, reducing each one
/// modulo the requested range, and yields `0` once the script runs out.
pub struct RandomProvider {
    /// The scripted values, or `None` to sample from the system generator.
    pub script: Option<Vec<u64>>,
    /// The position of the next scripted value to replay.
    pub next: usize,
}

impl RandomProvider {
    /// A provider backed by the operating-system-seeded generator.
    pub fn system() -> (r: RandomProvider)
        ensures
            r.script is None,
    {
        RandomProvider { script: None, next: 0 }
    }

    /// A provider that replays `values` in order.
    pub fn scripted(values: Vec<u64>) -> (r: RandomProvider)
        ensures
            r.script == Some(values),
            r.next == 0,
    {
        RandomProvider { script: Some(values), next: 0 }
    }

    /// One uniform draw from `[0, n)`.
    pub fn uniform_below(&mut self, n: usize) -> (r: usize)
        requires
            n > 0,
        ensures
            r < n,
            final(self).script == old(self).script,
            old(self).script is None ==> *final(self) == *old(self),
            old(self).script matches Some(values) ==> {
                &&& r == draw_at(values@, old(self).next as int, n as int)
                &&& final(self).next == next_after(values@, old(self).next as int)
            },
    {
        match &self.script {
            None => system_below(n),
            Some(values) => {
                if self.next < values.len() {
                    let v: u64 = values[self.next];
                    let r: usize = (v % (n as u64)) as usize;
                    self.next = self.next + 1;
                    r
                } else {
                    0
                }
            },
        }
    }

    /// One uniform draw from `[0, n]`.
    pub fn uniform_upto(&mut self, n: usize) -> (r: usize)
        requires
            n < usize::MAX,
        ensures
            r <= n,
            final(self).script == old(self).script,
            old(self).script is None ==> *final(self) == *old(self),
            old(self).script matches Some(values) ==> {
                &&& r == draw_at(values@, old(self).next as int, n as int + 1)
                &&& final(self).next == next_after(values@, old(self).next as int)
            },
    {
        self.uniform_below(n + 1)
    }
}

} // verus!
