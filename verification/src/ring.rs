use vstd::prelude::*;

use vstd::arithmetic::div_mod::lemma_fundamental_div_mod_converse;

verus! {

/// `x` reduced into `0..cap` for `x < 2 * cap`.
pub open spec fn wrap(x: int, cap: int) -> int {
    if x >= cap {
        x - cap
    } else {
        x
    }
}

proof fn lemma_mod_is_wrap(x: int, cap: int)
    requires
        0 < cap,
        0 <= x < 2 * cap,
    ensures
        x % cap == wrap(x, cap),
{
    if x >= cap {
        lemma_fundamental_div_mod_converse(x, cap, 1, x - cap);
    } else {
        lemma_fundamental_div_mod_converse(x, cap, 0, x);
    }
}

/// A fixed-capacity buffer that keeps the most recent samples pushed into
/// it, overwriting the oldest once it is full.
pub struct RingBuffer<T> {
    data: Vec<T>,
    write_pos: usize,
    count: usize,
    history: Ghost<Seq<T>>,
}

impl<T: Copy> RingBuffer<T> {
    /// Every sample pushed so far, oldest first.
    pub closed spec fn pushed(&self) -> Seq<T> {
        self.history@
    }

    /// How many samples the buffer holds at most.
    pub closed spec fn capacity(&self) -> nat {
        self.data@.len()
    }

    /// How many of the pushed samples the buffer still holds.
    pub open spec fn held(&self) -> nat {
        if self.pushed().len() < self.capacity() {
            self.pushed().len()
        } else {
            self.capacity()
        }
    }

    /// The `j`-th most recent held sample sits `j + 1` slots behind the
    /// write position.
    pub closed spec fn well_formed(&self) -> bool {
        let cap = self.data@.len() as int;
        let len = self.history@.len() as int;
        &&& 0 < cap
        &&& cap <= usize::MAX / 2
        &&& self.write_pos < cap
        &&& self.count == (if len < cap {
            len
        } else {
            cap
        })
        &&& forall|j: int|
            0 <= j < self.count ==> #[trigger] self.data@[wrap(
                self.write_pos + cap - 1 - j,
                cap,
            )] == self.history@[len - 1 - j]
    }

    /// An empty buffer of `capacity` slots, each first filled with `fill`.
    pub fn new(capacity: usize, fill: T) -> (ring: Self)
        requires
            0 < capacity <= usize::MAX / 2,
        ensures
            ring.well_formed(),
            ring.capacity() == capacity,
            ring.pushed() == Seq::<T>::empty(),
    {
        let mut data: Vec<T> = Vec::new();
        let mut i: usize = 0;
        while i < capacity
            invariant
                i <= capacity,
                data@.len() == i,
            decreases capacity - i,
        {
            data.push(fill);
            i += 1;
        }
        RingBuffer { data, write_pos: 0, count: 0, history: Ghost(Seq::empty()) }
    }

    /// Stores one sample, dropping the oldest one when the buffer is full.
    pub fn push(&mut self, sample: T)
        requires
            old(self).well_formed(),
        ensures
            final(self).well_formed(),
            final(self).capacity() == old(self).capacity(),
            final(self).pushed() == old(self).pushed().push(sample),
    {
        let cap = self.data.len();
        let ghost old_data = self.data@;
        let ghost old_pos = self.write_pos as int;
        let ghost old_count = self.count as int;
        self.data.set(self.write_pos, sample);
        proof {
            lemma_mod_is_wrap(self.write_pos + 1, cap as int);
        }
        self.write_pos = (self.write_pos + 1) % cap;
        self.count = if self.count < cap - 1 {
            self.count
        } else {
            cap - 1
        } + 1;
        self.history = Ghost(self.history@.push(sample));
        proof {
            let len = self.history@.len() as int;
            let c = cap as int;
            assert forall|j: int| 0 <= j < self.count implies #[trigger] self.data@[wrap(
                self.write_pos + c - 1 - j,
                c,
            )] == self.history@[len - 1 - j] by {
                if j == 0 {
                    assert(wrap(self.write_pos + c - 1, c) == old_pos);
                } else {
                    let slot = wrap(self.write_pos + c - 1 - j, c);
                    assert(slot == wrap(old_pos + c - 1 - (j - 1), c));
                    assert(slot != old_pos);
                    assert(old_data[slot] == old(self).history@[len - 2 - (j - 1)]);
                }
            }
        }
    }

    /// Stores the samples in order.
    pub fn push_slice(&mut self, samples: &[T])
        requires
            old(self).well_formed(),
        ensures
            final(self).well_formed(),
            final(self).capacity() == old(self).capacity(),
            final(self).pushed() == old(self).pushed() + samples@,
    {
        let mut i: usize = 0;
        while i < samples.len()
            invariant
                i <= samples@.len(),
                self.well_formed(),
                self.capacity() == old(self).capacity(),
                self.pushed() == old(self).pushed() + samples@.take(i as int),
            decreases samples@.len() - i,
        {
            self.push(samples[i]);
            i += 1;
            assert(self.pushed() =~= old(self).pushed() + samples@.take(i as int));
        }
        assert(samples@.take(samples@.len() as int) =~= samples@);
    }

    /// The most recent `n` samples in the order they were pushed, or all
    /// held samples when fewer than `n` are held.
    pub fn read_recent(&self, n: usize) -> (recent: Vec<T>)
        requires
            self.well_formed(),
        ensures
            recent@ == self.pushed().subrange(
                self.pushed().len() - (if n < self.held() {
                    n as nat
                } else {
                    self.held()
                }),
                self.pushed().len() as int,
            ),
    {
        let n = if n < self.count {
            n
        } else {
            self.count
        };
        let cap = self.data.len();
        proof {
            lemma_mod_is_wrap(self.write_pos + cap - n, cap as int);
        }
        let start = (self.write_pos + cap - n) % cap;
        let ghost len = self.history@.len() as int;
        let mut recent: Vec<T> = Vec::new();
        let mut i: usize = 0;
        while i < n
            invariant
                self.well_formed(),
                n <= self.count,
                cap == self.data@.len(),
                start == wrap(self.write_pos + cap - n, cap as int),
                len == self.history@.len(),
                i <= n,
                recent@ == self.history@.subrange(len - n, len - n + i),
            decreases n - i,
        {
            proof {
                lemma_mod_is_wrap(start + i, cap as int);
                let j = n - 1 - i;
                assert(wrap(start + i, cap as int) == wrap(
                    self.write_pos + cap - 1 - j,
                    cap as int,
                ));
                assert(self.data@[wrap(self.write_pos + cap - 1 - j, cap as int)]
                    == self.history@[len - 1 - j]);
            }
            recent.push(self.data[(start + i) % cap]);
            i += 1;
            assert(recent@ =~= self.history@.subrange(len - n, len - n + i));
        }
        recent
    }
}

} // verus!
