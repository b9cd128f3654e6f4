//! Fixed-capacity broadcast ring buffer of audio samples: one producer, one
//! or more independently paced consumers.
//!
//! Committed samples form an ever-growing (ghost) history; each consumer owns
//! a trailing window into it. A slot of the circular storage is reused only
//! once every live consumer has released it, so a consumer always reads
//! exactly the samples that were committed — never a torn or overwritten
//! value.

use vstd::prelude::*;
use vstd::arithmetic::div_mod::{
    lemma_fundamental_div_mod, lemma_fundamental_div_mod_converse_mod, lemma_mod_bound,
    lemma_small_mod, lemma_sub_mod_noop,
};

verus! {

/// Failure of a buffer request.
#[derive(Clone, Copy, PartialEq, Eq, Structural, Debug)]
pub enum RingError {
    /// More samples were requested than the buffer can ever hold; a
    /// programming error on the caller's side.
    UnsatisfiableRequest,
}

/// Every history position from `lo` up to the end of `hist` still stores
/// exactly its committed sample in the circular storage `slots`.
spec fn stored_matches(slots: Seq<i32>, hist: Seq<i32>, lo: int) -> bool {
    forall|p: int|
        lo <= p < hist.len() ==> #[trigger] slots[p % slots.len() as int] == hist[p]
}

/// A fixed-capacity circular buffer of samples with one producer cursor and
/// one or more consumer cursors.
pub struct RingBuffer {
    /// Circular storage; its length is the fixed capacity.
    slots: Vec<i32>,
    /// Index of the slot the next committed sample lands in; always equal to
    /// `history().len() % capacity()`.
    write_pos: usize,
    /// Per consumer: the number of committed samples not yet released.
    avail: Vec<usize>,
    /// Per consumer: whether the consumer is still attached.
    live: Vec<bool>,
    /// Every sample ever committed, in order.
    hist: Ghost<Seq<i32>>,
}

impl RingBuffer {
    /// The fixed capacity, in samples.
    pub closed spec fn capacity(self) -> int {
        self.slots@.len() as int
    }

    /// Every sample ever committed, in order.
    pub closed spec fn history(self) -> Seq<i32> {
        self.hist@
    }

    /// How many consumer cursors exist (live or detached).
    pub closed spec fn num_consumers(self) -> int {
        self.avail@.len() as int
    }

    /// Whether consumer `c` is still attached.
    pub closed spec fn is_live(self, c: int) -> bool {
        self.live@[c]
    }

    /// How many committed samples consumer `c` has not yet released.
    pub closed spec fn avail_of(self, c: int) -> int {
        self.avail@[c] as int
    }

    /// The absolute position of consumer `c`'s trailing cursor.
    pub open spec fn tail_of(self, c: int) -> int {
        self.history().len() - self.avail_of(c)
    }

    /// The window consumer `c` effectively retains: its unreleased samples
    /// while it is live, nothing once it has detached.
    pub closed spec fn eff_avail(self, c: int) -> int {
        if self.live@[c] {
            self.avail@[c] as int
        } else {
            0
        }
    }

    /// The unreleased window of the hindmost live consumer among the first
    /// `n` consumers (zero when none of them is live).
    pub closed spec fn max_live_avail_upto(self, n: int) -> int
        decreases n,
    {
        if n <= 0 {
            0
        } else {
            let prev = self.max_live_avail_upto(n - 1);
            let here = self.eff_avail(n - 1);
            if here > prev {
                here
            } else {
                prev
            }
        }
    }

    /// The unreleased window of the hindmost live consumer.
    pub open spec fn max_live_avail(self) -> int {
        self.max_live_avail_upto(self.num_consumers())
    }

    /// How many samples the producer may commit right now.
    pub open spec fn free_space(self) -> int {
        self.capacity() - self.max_live_avail()
    }

    /// The sample stored in the slot that absolute position `p` maps to.
    pub closed spec fn slot_at(self, p: int) -> i32 {
        self.slots@[p % self.capacity()]
    }

    /// Structural well-formedness: cursors stay within the committed
    /// history, no live consumer trails further than the capacity, and every
    /// still-retained position holds exactly its committed sample.
    pub closed spec fn wf(self) -> bool {
        &&& self.slots@.len() > 0
        &&& self.avail@.len() == self.live@.len()
        &&& self.write_pos == self.history().len() as int % self.capacity()
        &&& forall|c: int|
            0 <= c < self.num_consumers() ==> #[trigger] self.avail@[c]
                <= self.history().len()
        &&& forall|c: int|
            0 <= c < self.num_consumers() ==> #[trigger] self.avail@[c] <= self.capacity()
        &&& stored_matches(self.slots@, self.hist@, self.history().len() - self.max_live_avail())
    }

    /// The hindmost live window never exceeds the capacity or the history.
    proof fn lemma_max_live_avail_upto_bounds(self, n: int)
        requires
            self.wf(),
            0 <= n <= self.num_consumers(),
        ensures
            0 <= self.max_live_avail_upto(n) <= self.capacity(),
            self.max_live_avail_upto(n) <= self.history().len(),
        decreases n,
    {
        if n > 0 {
            self.lemma_max_live_avail_upto_bounds(n - 1);
        }
    }

    /// A live consumer's window is within the hindmost prefix window.
    proof fn lemma_avail_le_max_upto(self, c: int, n: int)
        requires
            0 <= c < n <= self.num_consumers(),
            self.is_live(c),
        ensures
            self.avail_of(c) <= self.max_live_avail_upto(n),
        decreases n,
    {
        if c < n - 1 {
            self.lemma_avail_le_max_upto(c, n - 1);
        }
    }

    /// A live consumer's window is within the hindmost live window.
    pub proof fn lemma_avail_le_max(self, c: int)
        requires
            0 <= c < self.num_consumers(),
            self.is_live(c),
        ensures
            self.avail_of(c) <= self.max_live_avail(),
    {
        self.lemma_avail_le_max_upto(c, self.num_consumers());
    }

    /// Basic bounds that follow from well-formedness.
    pub proof fn lemma_wf_bounds(self)
        requires
            self.wf(),
        ensures
            self.capacity() > 0,
            0 <= self.max_live_avail() <= self.capacity(),
            self.max_live_avail() <= self.history().len(),
            forall|c: int|
                0 <= c < self.num_consumers() ==> 0 <= #[trigger] self.avail_of(c)
                    <= self.history().len(),
            forall|c: int|
                0 <= c < self.num_consumers() ==> #[trigger] self.avail_of(c)
                    <= self.capacity(),
    {
        self.lemma_max_live_avail_upto_bounds(self.num_consumers());
    }

    /// No consumer ever observes a sample before it is committed: the whole
    /// window a live consumer may read lies within the committed history.
    pub proof fn lemma_reads_within_history(self, c: int)
        requires
            self.wf(),
            0 <= c < self.num_consumers(),
            self.is_live(c),
        ensures
            0 <= self.tail_of(c),
            self.tail_of(c) + self.avail_of(c) == self.history().len(),
    {
        self.lemma_wf_bounds();
    }

    /// No slot is overwritten before every live consumer has released it:
    /// every position a live consumer has not yet released still stores
    /// exactly the sample that was committed there.
    pub proof fn lemma_no_overwrite_before_release(self, c: int, p: int)
        requires
            self.wf(),
            0 <= c < self.num_consumers(),
            self.is_live(c),
            self.tail_of(c) <= p < self.history().len(),
        ensures
            self.slot_at(p) == self.history()[p],
    {
        self.lemma_avail_le_max(c);
        assert(self.slots@[p % self.slots@.len() as int] == self.hist@[p]);
    }

    /// Two distinct absolute positions less than one capacity apart map to
    /// distinct slots.
    proof fn lemma_distinct_slots(p: int, q: int, m: int)
        requires
            m > 0,
            p < q,
            q - p < m,
        ensures
            p % m != q % m,
    {
        if p % m == q % m {
            lemma_sub_mod_noop(q, p, m);
            assert(((q % m) - (p % m)) % m == (q - p) % m);
            lemma_small_mod(0, m as nat);
            assert((q - p) % m == 0);
            lemma_small_mod((q - p) as nat, m as nat);
            assert(false);
        }
    }

    /// If every consumer's retained window grows by at most `k` between two
    /// states, the hindmost retained window grows by at most `k` too.
    proof fn lemma_max_upto_le(a: RingBuffer, b: RingBuffer, k: int, n: int)
        requires
            k >= 0,
            forall|j: int| 0 <= j < n ==> #[trigger] b.eff_avail(j) <= a.eff_avail(j) + k,
        ensures
            b.max_live_avail_upto(n) <= a.max_live_avail_upto(n) + k,
        decreases n,
    {
        if n > 0 {
            Self::lemma_max_upto_le(a, b, k, n - 1);
        }
    }

    /// Stepping an absolute position by one steps its slot index cyclically.
    proof fn lemma_wrap_increment(a: int, m: int)
        requires
            m > 0,
            a >= 0,
        ensures
            (a + 1) % m == if a % m + 1 == m {
                0int
            } else {
                a % m + 1
            },
    {
        lemma_mod_bound(a, m);
        lemma_fundamental_div_mod(a, m);
        let q = a / m;
        let r = a % m;
        if r + 1 == m {
            assert(a + 1 == (q + 1) * m + 0) by (nonlinear_arith)
                requires
                    a == m * q + r,
                    r + 1 == m,
            ;
            lemma_fundamental_div_mod_converse_mod(a + 1, m, q + 1, 0);
        } else {
            assert(a + 1 == q * m + (r + 1)) by (nonlinear_arith)
                requires
                    a == m * q + r,
            ;
            lemma_fundamental_div_mod_converse_mod(a + 1, m, q, r + 1);
        }
    }

    /// A new buffer of the given capacity, with one live consumer whose
    /// cursor starts at the producer's position.
    pub fn new(capacity: usize) -> (r: RingBuffer)
        requires
            capacity > 0,
        ensures
            r.wf(),
            r.capacity() == capacity,
            r.history() == Seq::<i32>::empty(),
            r.num_consumers() == 1,
            r.is_live(0),
            r.avail_of(0) == 0,
    {
        let mut slots: Vec<i32> = Vec::new();
        let mut i: usize = 0;
        while i < capacity
            invariant
                i <= capacity,
                slots@.len() == i,
            decreases capacity - i,
        {
            slots.push(0);
            i = i + 1;
        }
        let mut avail: Vec<usize> = Vec::new();
        avail.push(0);
        let mut live: Vec<bool> = Vec::new();
        live.push(true);
        let r = RingBuffer { slots, write_pos: 0, avail, live, hist: Ghost(Seq::empty()) };
        proof {
            lemma_small_mod(0, capacity as nat);
            assert(r.max_live_avail_upto(0) == 0);
            assert(r.max_live_avail_upto(1) == 0);
        }
        r
    }

    /// The number of committed samples consumer `c` may read right now.
    pub fn readable(&self, c: usize) -> (n: usize)
        requires
            self.wf(),
            c < self.num_consumers(),
        ensures
            n == self.avail_of(c as int),
    {
        self.avail[c]
    }

    /// The fixed capacity.
    pub fn cap(&self) -> (n: usize)
        ensures
            n == self.capacity(),
    {
        self.slots.len()
    }

    /// How many consumer cursors exist.
    pub fn consumer_count(&self) -> (n: usize)
        ensures
            n == self.num_consumers(),
    {
        self.avail.len()
    }

    /// Whether consumer `c` is still attached.
    pub fn live(&self, c: usize) -> (r: bool)
        requires
            self.wf(),
            c < self.num_consumers(),
        ensures
            r == self.is_live(c as int),
    {
        self.live[c]
    }

    /// How many samples the producer may commit right now (the space not
    /// retained by any live consumer).
    pub fn writable(&self) -> (n: usize)
        requires
            self.wf(),
        ensures
            n == self.free_space(),
    {
        let mut worst: usize = 0;
        let mut c: usize = 0;
        while c < self.avail.len()
            invariant
                self.wf(),
                c <= self.num_consumers(),
                worst == self.max_live_avail_upto(c as int),
                worst <= self.capacity(),
            decreases self.avail.len() - c,
        {
            proof {
                self.lemma_max_live_avail_upto_bounds(c as int + 1);
            }
            if self.live[c] {
                let a = self.avail[c];
                if a > worst {
                    worst = a;
                }
            }
            c = c + 1;
        }
        proof {
            self.lemma_wf_bounds();
        }
        self.slots.len() - worst
    }

    /// Ask for room to commit `n` samples, without suspending. Requests
    /// beyond the capacity can never be satisfied and are refused outright.
    pub fn try_request_write(&self, n: usize) -> (r: Result<bool, RingError>)
        requires
            self.wf(),
        ensures
            match r {
                Ok(b) => n <= self.capacity() && (b <==> n <= self.free_space()),
                Err(e) => n > self.capacity() && e == RingError::UnsatisfiableRequest,
            },
    {
        if n > self.slots.len() {
            Err(RingError::UnsatisfiableRequest)
        } else {
            Ok(n <= self.writable())
        }
    }

    /// Ask whether consumer `c` could read `n` samples right now, without
    /// suspending. Requests beyond the capacity can never be satisfied and
    /// are refused outright.
    pub fn try_request_read(&self, c: usize, n: usize) -> (r: Result<bool, RingError>)
        requires
            self.wf(),
            c < self.num_consumers(),
        ensures
            match r {
                Ok(b) => n <= self.capacity() && (b <==> n <= self.avail_of(c as int)),
                Err(e) => n > self.capacity() && e == RingError::UnsatisfiableRequest,
            },
    {
        if n > self.slots.len() {
            Err(RingError::UnsatisfiableRequest)
        } else {
            Ok(n <= self.avail[c])
        }
    }

    /// Commit a block of samples: append it to the history and make it
    /// readable by every live consumer. The caller must have obtained the
    /// room first; committing never overwrites a retained slot.
    pub fn commit(&mut self, data: &Vec<i32>)
        requires
            old(self).wf(),
            data@.len() <= old(self).free_space(),
        ensures
            final(self).wf(),
            final(self).capacity() == old(self).capacity(),
            final(self).history() == old(self).history() + data@,
            final(self).num_consumers() == old(self).num_consumers(),
            forall|c: int|
                0 <= c < old(self).num_consumers() ==> final(self).is_live(c) == old(self).is_live(c),
            forall|c: int|
                0 <= c < old(self).num_consumers() && old(self).is_live(c) ==> final(self).avail_of(c) == old(self).avail_of(c) + data@.len(),
            forall|c: int|
                0 <= c < old(self).num_consumers() && !old(self).is_live(c) ==> final(self).avail_of(c) == old(self).avail_of(c),
            forall|c: int|
                0 <= c < old(self).num_consumers() && old(self).is_live(c) ==> final(self).tail_of(c) == old(self).tail_of(c),
    {
        let ghost orig = *self;
        proof {
            orig.lemma_wf_bounds();
        }
        let k = data.len();
        let cap = self.slots.len();
        proof {
            assert(self.hist@ =~= orig.hist@ + data@.subrange(0, 0));
        }
        let mut i: usize = 0;
        while i < k
            invariant
                orig.wf(),
                k == data@.len(),
                k <= orig.free_space(),
                cap == orig.capacity(),
                i <= k,
                self.slots@.len() == cap,
                self.avail@ == orig.avail@,
                self.live@ == orig.live@,
                self.hist@ == orig.hist@ + data@.subrange(0, i as int),
                self.write_pos == self.hist@.len() as int % cap as int,
                stored_matches(
                    self.slots@,
                    self.hist@,
                    orig.history().len() - orig.max_live_avail(),
                ),
            decreases k - i,
        {
            let ghost lo = orig.history().len() - orig.max_live_avail();
            let ghost len = self.hist@.len() as int;
            let ghost before = self.slots@;
            proof {
                lemma_mod_bound(len, cap as int);
                orig.lemma_wf_bounds();
            }
            let wp = self.write_pos;
            self.slots.set(wp, data[i]);
            proof {
                self.hist@ = self.hist@.push(data@[i as int]);
                Self::lemma_wrap_increment(len, cap as int);
                assert(self.hist@ =~= orig.hist@ + data@.subrange(0, i as int + 1));
                // The slot just written belongs to no position that is still
                // retained: those lie strictly less than one capacity behind.
                assert forall|p: int| lo <= p < self.hist@.len() implies #[trigger] self.slots@[p
                    % self.slots@.len() as int] == self.hist@[p] by {
                    if p < len {
                        Self::lemma_distinct_slots(p, len, cap as int);
                        assert(before[p % (cap as int)] == self.hist@[p]);
                    } else {
                        assert(p == len && p % (cap as int) == wp);
                    }
                }
            }
            if self.write_pos + 1 == cap {
                self.write_pos = 0;
            } else {
                self.write_pos = self.write_pos + 1;
            }
            i = i + 1;
        }
        proof {
            assert(self.hist@ =~= orig.hist@ + data@);
        }
        let ghost mid = *self;
        let mut c: usize = 0;
        while c < self.avail.len()
            invariant
                orig.wf(),
                k == data@.len(),
                k <= orig.free_space(),
                cap == orig.capacity(),
                c <= self.avail@.len(),
                self.slots@ == mid.slots@,
                self.write_pos == mid.write_pos,
                self.hist@ == mid.hist@,
                self.live@ == orig.live@,
                self.avail@.len() == orig.avail@.len(),
                stored_matches(
                    self.slots@,
                    self.hist@,
                    orig.history().len() - orig.max_live_avail(),
                ),
                self.hist@ == orig.hist@ + data@,
                self.write_pos == self.hist@.len() as int % cap as int,
                self.slots@.len() == cap,
                forall|j: int|
                    0 <= j < c && orig.live@[j] ==> #[trigger] self.avail@[j] == orig.avail@[j]
                        + k,
                forall|j: int|
                    0 <= j < c && !orig.live@[j] ==> #[trigger] self.avail@[j] == orig.avail@[j],
                forall|j: int|
                    c <= j < self.avail@.len() ==> #[trigger] self.avail@[j] == orig.avail@[j],
            decreases self.avail.len() - c,
        {
            if self.live[c] {
                let a = self.avail[c];
                proof {
                    orig.lemma_avail_le_max(c as int);
                }
                self.avail.set(c, a + k);
            }
            c = c + 1;
        }
        proof {
            // The hindmost retained window grew by at most the block length,
            // so every still-retained position was already covered above.
            assert forall|j: int| 0 <= j < self.avail@.len() implies #[trigger] self.eff_avail(j)
                <= orig.eff_avail(j) + k by {}
            Self::lemma_max_upto_le(orig, *self, k as int, self.avail@.len() as int);
            orig.lemma_wf_bounds();
            assert forall|j: int| 0 <= j < self.avail@.len() implies #[trigger] self.avail@[j]
                <= self.capacity() && self.avail@[j] <= self.hist@.len() by {
                if orig.live@[j] {
                    orig.lemma_avail_le_max(j);
                }
            }
            let newlo = self.hist@.len() - self.max_live_avail();
            assert forall|p: int| newlo <= p < self.hist@.len() implies #[trigger] self.slots@[p
                % self.slots@.len() as int] == self.hist@[p] by {
                assert(orig.history().len() - orig.max_live_avail() <= p);
            }
        }
    }

    /// Consumer `c` confirms it is done with its first `k` readable samples;
    /// the slots become reclaimable once every other live consumer has
    /// released them too.
    pub fn release(&mut self, c: usize, k: usize)
        requires
            old(self).wf(),
            c < old(self).num_consumers(),
            old(self).is_live(c as int),
            k <= old(self).avail_of(c as int),
        ensures
            final(self).wf(),
            final(self).capacity() == old(self).capacity(),
            final(self).history() == old(self).history(),
            final(self).num_consumers() == old(self).num_consumers(),
            forall|j: int|
                0 <= j < old(self).num_consumers() ==> final(self).is_live(j) == old(self).is_live(j),
            final(self).avail_of(c as int) == old(self).avail_of(c as int) - k,
            final(self).tail_of(c as int) == old(self).tail_of(c as int) + k,
            forall|j: int|
                0 <= j < old(self).num_consumers() && j != c ==> final(self).avail_of(j) == old(self).avail_of(j),
    {
        let ghost orig = *self;
        let a = self.avail[c];
        self.avail.set(c, a - k);
        proof {
            assert forall|j: int| 0 <= j < self.avail@.len() implies #[trigger] self.eff_avail(j)
                <= orig.eff_avail(j) + 0 by {}
            Self::lemma_max_upto_le(orig, *self, 0, self.avail@.len() as int);
        }
    }

    /// Detach consumer `c`: it stops retaining data, so the space it held
    /// back becomes reclaimable.
    pub fn detach_consumer(&mut self, c: usize)
        requires
            old(self).wf(),
            c < old(self).num_consumers(),
        ensures
            final(self).wf(),
            final(self).capacity() == old(self).capacity(),
            final(self).history() == old(self).history(),
            final(self).num_consumers() == old(self).num_consumers(),
            !final(self).is_live(c as int),
            forall|j: int|
                0 <= j < old(self).num_consumers() && j != c ==> final(self).is_live(j) == old(self).is_live(j),
            forall|j: int|
                0 <= j < old(self).num_consumers() ==> final(self).avail_of(j) == old(self).avail_of(j),
    {
        let ghost orig = *self;
        self.live.set(c, false);
        proof {
            assert forall|j: int| 0 <= j < self.avail@.len() implies #[trigger] self.eff_avail(j)
                <= orig.eff_avail(j) + 0 by {}
            Self::lemma_max_upto_le(orig, *self, 0, self.avail@.len() as int);
        }
    }

    /// Clone consumer `c`: the new consumer starts at the same cursor and
    /// from then on paces independently.
    pub fn split_consumer(&mut self, c: usize) -> (idx: usize)
        requires
            old(self).wf(),
            c < old(self).num_consumers(),
            old(self).is_live(c as int),
        ensures
            final(self).wf(),
            final(self).capacity() == old(self).capacity(),
            final(self).history() == old(self).history(),
            idx == old(self).num_consumers(),
            final(self).num_consumers() == old(self).num_consumers() + 1,
            final(self).is_live(idx as int),
            final(self).avail_of(idx as int) == old(self).avail_of(c as int),
            forall|j: int|
                0 <= j < old(self).num_consumers() ==> final(self).is_live(j) == old(self).is_live(j),
            forall|j: int|
                0 <= j < old(self).num_consumers() ==> final(self).avail_of(j) == old(self).avail_of(j),
    {
        let ghost orig = *self;
        let idx = self.avail.len();
        let a = self.avail[c];
        self.avail.push(a);
        self.live.push(true);
        proof {
            orig.lemma_avail_le_max(c as int);
            assert forall|j: int| 0 <= j < orig.avail@.len() implies #[trigger] self.eff_avail(j)
                <= orig.eff_avail(j) + 0 by {}
            assert forall|j: int| 0 <= j < orig.avail@.len() implies #[trigger] orig.eff_avail(j)
                <= self.eff_avail(j) + 0 by {}
            Self::lemma_max_upto_le(orig, *self, 0, orig.avail@.len() as int);
            Self::lemma_max_upto_le(*self, orig, 0, orig.avail@.len() as int);
            // Unfold the hindmost window once past the appended consumer.
            assert(self.max_live_avail() == if self.eff_avail(idx as int)
                > self.max_live_avail_upto(idx as int) {
                self.eff_avail(idx as int)
            } else {
                self.max_live_avail_upto(idx as int)
            });
        }
        idx
    }

    /// Read the first `n` samples of consumer `c`'s readable window, without
    /// advancing the cursor: exactly the samples that were committed there.
    pub fn peek(&self, c: usize, n: usize) -> (out: Vec<i32>)
        requires
            self.wf(),
            c < self.num_consumers(),
            self.is_live(c as int),
            n <= self.avail_of(c as int),
        ensures
            out@ == self.history().subrange(self.tail_of(c as int), self.tail_of(c as int) + n),
    {
        proof {
            self.lemma_wf_bounds();
            self.lemma_avail_le_max(c as int);
        }
        let ghost tail = self.tail_of(c as int);
        let cap = self.slots.len();
        let a = self.avail[c];
        let wp = self.write_pos;
        let start = if wp >= a {
            wp - a
        } else {
            wp + (cap - a)
        };
        proof {
            let len = self.hist@.len() as int;
            let m = cap as int;
            lemma_fundamental_div_mod(len, m);
            lemma_mod_bound(len, m);
            let q = len / m;
            if wp >= a {
                assert(tail == q * m + (wp - a)) by (nonlinear_arith)
                    requires
                        len == m * q + wp,
                        tail == len - a,
                ;
                lemma_fundamental_div_mod_converse_mod(tail, m, q, wp - a);
            } else {
                assert(tail == (q - 1) * m + (wp + m - a)) by (nonlinear_arith)
                    requires
                        len == m * q + wp,
                        tail == len - a,
                ;
                lemma_fundamental_div_mod_converse_mod(tail, m, q - 1, wp + cap - a);
            }
        }
        let mut out: Vec<i32> = Vec::new();
        let mut i: usize = 0;
        let mut idx = start;
        while i < n
            invariant
                self.wf(),
                c < self.num_consumers(),
                self.is_live(c as int),
                n <= self.avail_of(c as int),
                tail == self.tail_of(c as int),
                cap == self.capacity(),
                i <= n,
                idx == (tail + i) % (cap as int),
                out@ == self.history().subrange(tail, tail + i),
            decreases n - i,
        {
            proof {
                self.lemma_avail_le_max(c as int);
                lemma_mod_bound(tail + i, cap as int);
                self.lemma_wf_bounds();
                Self::lemma_wrap_increment(tail + i, cap as int);
                assert(self.slots@[(tail + i) % self.slots@.len() as int] == self.hist@[tail
                    + i]);
            }
            out.push(self.slots[idx]);
            if idx + 1 == cap {
                idx = 0;
            } else {
                idx = idx + 1;
            }
            i = i + 1;
            proof {
                assert(out@ =~= self.history().subrange(tail, tail + i));
            }
        }
        out
    }
}

} // verus!
