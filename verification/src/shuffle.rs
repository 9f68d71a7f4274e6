//! The randomizing adapter over a restartable source: items are emitted at
//! once, or parked briefly in a bounded deque and emitted a little later,
//! trading shuffle quality for speed and bounded memory. Items are carried
//! as integers (the composite playlist shuffles child positions).

use vstd::prelude::*;

verus! {

/// Capacity of the deque of parked items.
pub const MAX_STORED_DATA: usize = 8;

/// Probabilities are expressed in thousandths of a uniform draw.
pub const RAND_DENOMINATOR: u32 = 1000;

/// What one exhaustion step of the source yields: start the source over
/// (repeat mode), one parked item drained at random, or the end.
pub enum DrainStep {
    Restart,
    Drained(u64),
    Finished,
}

/// The shuffle adapter's state between emissions.
pub struct InfiniteShuffleStream {
    pub repeat: bool,
    pub shuffle: bool,
    /// Emit-at-once threshold in thousandths: 300 when shuffling, else 1000
    /// (so that without shuffling every item is emitted at once).
    pub shuffle_probability: u32,
    /// Park-at-front threshold: halfway between `shuffle_probability` and 1.
    pub up_probability: u32,
    /// The bounded deque of parked items; the front is index 0.
    pub stored: Vec<u64>,
}

impl InfiniteShuffleStream {
    /// Well-formed: the deque within capacity and the thresholds derived
    /// from the shuffle flag.
    pub open spec fn wf(&self) -> bool {
        &&& self.stored@.len() <= MAX_STORED_DATA
        &&& self.shuffle_probability == (if self.shuffle {
            300u32
        } else {
            1000u32
        })
        &&& self.up_probability == self.shuffle_probability + (1000 - self.shuffle_probability)
            / 2
    }

    /// A fresh adapter with an empty deque.
    pub fn new(repeat: bool, shuffle: bool) -> (r: InfiniteShuffleStream)
        ensures
            r.wf(),
            r.repeat == repeat,
            r.shuffle == shuffle,
            r.stored@.len() == 0,
    {
        let shuffle_probability: u32 = if shuffle {
            300
        } else {
            1000
        };
        let up_probability = shuffle_probability + (1000 - shuffle_probability) / 2;
        InfiniteShuffleStream { repeat, shuffle, shuffle_probability, up_probability, stored: Vec::new() }
    }

    /// One source item arrives under a uniform draw: below the shuffle
    /// threshold it is emitted at once; below the up threshold it is parked
    /// at the front, evicting (and emitting) the back item when the deque
    /// overflows; otherwise parked at the back, evicting the front. Either
    /// way no item is created, lost, or duplicated.
    pub fn on_item(&mut self, item: u64, draw: u32) -> (emitted: Option<u64>)
        requires
            old(self).wf(),
        ensures
            final(self).wf(),
            final(self).repeat == old(self).repeat,
            final(self).shuffle == old(self).shuffle,
            ({
                let r = draw % RAND_DENOMINATOR;
                if r < old(self).shuffle_probability {
                    emitted == Some(item) && final(self).stored@ == old(self).stored@
                } else if r < old(self).up_probability {
                    if old(self).stored@.len() == MAX_STORED_DATA {
                        emitted == Some(old(self).stored@.last()) && final(self).stored@ == seq![
                            item,
                        ] + old(self).stored@.drop_last()
                    } else {
                        emitted is None && final(self).stored@ == seq![item] + old(self).stored@
                    }
                } else {
                    if old(self).stored@.len() == MAX_STORED_DATA {
                        emitted == Some(old(self).stored@.first()) && final(self).stored@ == old(
                            self,
                        ).stored@.drop_first().push(item)
                    } else {
                        emitted is None && final(self).stored@ == old(self).stored@.push(item)
                    }
                }
            }),
            match emitted {
                Some(x) => final(self).stored@.to_multiset().insert(x) == old(
                    self,
                ).stored@.to_multiset().insert(item),
                None => final(self).stored@.to_multiset() == old(
                    self,
                ).stored@.to_multiset().insert(item),
            },
    {
        broadcast use vstd::seq_lib::group_to_multiset_ensures;

        let r = draw % RAND_DENOMINATOR;
        if r < self.shuffle_probability {
            Some(item)
        } else if r < self.up_probability {
            self.stored.insert(0, item);
            proof {
                assert(self.stored@ =~= seq![item] + old(self).stored@);
                assert(self.stored@.remove(0) =~= old(self).stored@);
                assert(self.stored@.to_multiset() =~= old(self).stored@.to_multiset().insert(item));
            }
            if self.stored.len() > MAX_STORED_DATA {
                let ghost mid = self.stored@;
                let out = match self.stored.pop() {
                    Some(x) => x,
                    None => {
                        proof {
                            assert(false);
                        }
                        0
                    },
                };
                proof {
                    assert(self.stored@ =~= seq![item] + old(self).stored@.drop_last());
                    assert(mid.drop_last() == self.stored@);
                    assert(mid.remove(mid.len() - 1) =~= mid.drop_last());
                    assert(self.stored@.to_multiset() =~= mid.to_multiset().remove(out));
                    assert(self.stored@.to_multiset().insert(out) =~= mid.to_multiset());
                }
                Some(out)
            } else {
                None
            }
        } else {
            self.stored.push(item);
            proof {
                assert(self.stored@.to_multiset() =~= old(self).stored@.to_multiset().insert(item));
            }
            if self.stored.len() > MAX_STORED_DATA {
                let ghost mid = self.stored@;
                let out = self.stored.remove(0);
                proof {
                    assert(self.stored@ =~= old(self).stored@.drop_first().push(item));
                    assert(mid.remove(0) =~= self.stored@);
                    assert(self.stored@.to_multiset() =~= mid.to_multiset().remove(out));
                    assert(self.stored@.to_multiset().insert(out) =~= mid.to_multiset());
                }
                Some(out)
            } else {
                None
            }
        }
    }

    /// The source ran out: in repeat mode the source is started over; else
    /// one parked item, drawn from the front or the back by a coin flip, is
    /// drained, until the deque is empty and the stream finishes.
    pub fn on_source_exhausted(&mut self, coin: u32) -> (r: DrainStep)
        requires
            old(self).wf(),
        ensures
            final(self).wf(),
            final(self).repeat == old(self).repeat,
            final(self).shuffle == old(self).shuffle,
            old(self).repeat ==> (r is Restart) && final(self).stored@ == old(self).stored@,
            !old(self).repeat && old(self).stored@.len() == 0 ==> (r is Finished)
                && final(self).stored@ == old(self).stored@,
            !old(self).repeat && old(self).stored@.len() > 0 ==> (if coin % 2 == 0 {
                r == DrainStep::Drained(old(self).stored@.first()) && final(self).stored@ == old(
                    self,
                ).stored@.drop_first()
            } else {
                r == DrainStep::Drained(old(self).stored@.last()) && final(self).stored@ == old(
                    self,
                ).stored@.drop_last()
            }),
            match r {
                DrainStep::Drained(x) => final(self).stored@.to_multiset().insert(x) == old(
                    self,
                ).stored@.to_multiset(),
                _ => final(self).stored@ == old(self).stored@,
            },
    {
        broadcast use vstd::seq_lib::group_to_multiset_ensures;

        if self.repeat {
            return DrainStep::Restart;
        }
        if self.stored.len() == 0 {
            return DrainStep::Finished;
        }
        let ghost pre = self.stored@;
        if coin % 2 == 0 {
            let out = self.stored.remove(0);
            proof {
                assert(self.stored@ =~= pre.drop_first());
                assert(pre.remove(0) =~= pre.drop_first());
                assert(self.stored@.to_multiset().insert(out) =~= pre.to_multiset());
            }
            DrainStep::Drained(out)
        } else {
            let out = match self.stored.pop() {
                Some(x) => x,
                None => {
                    proof {
                        assert(false);
                    }
                    0
                },
            };
            proof {
                assert(pre.remove(pre.len() - 1) =~= pre.drop_last());
                assert(self.stored@.to_multiset().insert(out) =~= pre.to_multiset());
            }
            DrainStep::Drained(out)
        }
    }

    /// One source item arrives; the draw comes from the process's random
    /// generator, so only what holds of every draw can be promised: nothing
    /// is created or lost, and without shuffling the item passes straight
    /// through.
    pub fn next_item(&mut self, item: u64) -> (emitted: Option<u64>)
        requires
            old(self).wf(),
        ensures
            final(self).wf(),
            final(self).repeat == old(self).repeat,
            final(self).shuffle == old(self).shuffle,
            !old(self).shuffle ==> emitted == Some(item) && final(self).stored@ == old(
                self,
            ).stored@,
            match emitted {
                Some(x) => final(self).stored@.to_multiset().insert(x) == old(
                    self,
                ).stored@.to_multiset().insert(item),
                None => final(self).stored@.to_multiset() == old(
                    self,
                ).stored@.to_multiset().insert(item),
            },
    {
        let draw = random_u32();
        proof {
            if !self.shuffle {
                assert(draw % RAND_DENOMINATOR < 1000) by {
                    vstd::arithmetic::div_mod::lemma_mod_bound(
                        draw as int,
                        RAND_DENOMINATOR as int,
                    );
                };
            }
        }
        self.on_item(item, draw)
    }

    /// The source ran out; the coin comes from the process's random
    /// generator.
    pub fn exhausted_step(&mut self) -> (r: DrainStep)
        requires
            old(self).wf(),
        ensures
            final(self).wf(),
            final(self).repeat == old(self).repeat,
            final(self).shuffle == old(self).shuffle,
            old(self).repeat ==> (r is Restart) && final(self).stored@ == old(self).stored@,
            !old(self).repeat && old(self).stored@.len() == 0 ==> (r is Finished)
                && final(self).stored@ == old(self).stored@,
            !old(self).repeat && old(self).stored@.len() > 0 ==> (r is Drained)
                && final(self).stored@.len() == old(self).stored@.len() - 1,
            match r {
                DrainStep::Drained(x) => final(self).stored@.to_multiset().insert(x) == old(
                    self,
                ).stored@.to_multiset(),
                _ => final(self).stored@ == old(self).stored@,
            },
    {
        let coin = random_u32();
        self.on_source_exhausted(coin)
    }

    /// One full pass over a finite source, without repeat: every emission
    /// and then the drain. The result holds exactly the source items — the
    /// same multiset — and without shuffling it is the source itself, in
    /// order.
    pub fn stream_finite(&mut self, source: &Vec<u64>) -> (r: Vec<u64>)
        requires
            old(self).wf(),
            !old(self).repeat,
            old(self).stored@.len() == 0,
        ensures
            final(self).wf(),
            final(self).stored@.len() == 0,
            r@.to_multiset() == source@.to_multiset(),
            !old(self).shuffle ==> r@ == source@,
    {
        broadcast use vstd::seq_lib::group_to_multiset_ensures;

        let mut out: Vec<u64> = Vec::new();
        let mut i: usize = 0;
        while i < source.len()
            invariant
                self.wf(),
                !self.repeat,
                self.shuffle == old(self).shuffle,
                i <= source@.len(),
                out@.to_multiset().add(self.stored@.to_multiset()) == source@.take(
                    i as int,
                ).to_multiset(),
                !self.shuffle ==> out@ == source@.take(i as int) && self.stored@.len() == 0,
            decreases source@.len() - i,
        {
            let ghost pre_out = out@;
            let ghost pre_stored = self.stored@;
            let e = self.next_item(source[i]);
            if let Some(x) = e {
                out.push(x);
                proof {
                    assert(out@ == pre_out.push(x));
                    vstd::seq_lib::to_multiset_build(pre_out, x);
                    assert(out@.to_multiset().add(self.stored@.to_multiset())
                        =~= pre_out.to_multiset().add(pre_stored.to_multiset().insert(
                        source@[i as int],
                    )));
                }
            } else {
                proof {
                    assert(out@.to_multiset().add(self.stored@.to_multiset())
                        =~= pre_out.to_multiset().add(pre_stored.to_multiset().insert(
                        source@[i as int],
                    )));
                }
            }
            proof {
                assert(source@.take(i + 1) =~= source@.take(i as int).push(source@[i as int]));
                vstd::seq_lib::to_multiset_build(source@.take(i as int), source@[i as int]);
            }
            i = i + 1;
        }
        proof {
            assert(source@.take(source@.len() as int) =~= source@);
        }
        while self.stored.len() > 0
            invariant
                self.wf(),
                !self.repeat,
                self.shuffle == old(self).shuffle,
                out@.to_multiset().add(self.stored@.to_multiset()) == source@.to_multiset(),
                !self.shuffle ==> out@ == source@ && self.stored@.len() == 0,
            decreases self.stored@.len(),
        {
            let ghost pre_out = out@;
            let ghost pre_stored = self.stored@;
            match self.exhausted_step() {
                DrainStep::Drained(x) => {
                    out.push(x);
                    proof {
                        assert(out@ == pre_out.push(x));
                        vstd::seq_lib::to_multiset_build(pre_out, x);
                        assert(out@.to_multiset().add(self.stored@.to_multiset())
                            =~= pre_out.to_multiset().add(pre_stored.to_multiset()));
                    }
                },
                _ => {
                    proof {
                        assert(false);
                    }
                },
            }
        }
        proof {
            assert(out@.to_multiset().add(self.stored@.to_multiset()) =~= out@.to_multiset());
        }
        out
    }
}

/// Relies on `rand::random`: a draw from the thread-local random generator.
/// The value depends on the generator's state, so nothing is promised of it.
#[verifier::external_body]
fn random_u32() -> u32 {
    rand::random::<u32>()
}

} // verus!
