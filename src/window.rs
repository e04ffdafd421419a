//! Rolling window of the most recent sensor samples of one plant, kept in a
//! ring buffer of the `ringbuffer` crate.

use ringbuffer::{AllocRingBuffer, RingBuffer};
use vstd::prelude::*;

verus! {

#[verifier::external_type_specification]
#[verifier::external_body]
#[verifier::reject_recursive_types(T)]
pub struct ExAllocRingBuffer<T>(AllocRingBuffer<T>);

/// Samples held by a ring buffer, oldest first.
pub uninterp spec fn ring_contents(r: AllocRingBuffer<u32>) -> Seq<u32>;

/// Capacity that a ring buffer was made with.
pub uninterp spec fn ring_capacity(r: AllocRingBuffer<u32>) -> nat;

/// Relies on `AllocRingBuffer::new`: an empty buffer of the given capacity
/// (it panics on zero).
#[verifier::external_body]
fn ring_new(capacity: usize) -> (r: AllocRingBuffer<u32>)
    requires
        capacity > 0,
    ensures
        ring_contents(r) == Seq::<u32>::empty(),
        ring_capacity(r) == capacity,
{
    AllocRingBuffer::new(capacity)
}

/// Relies on `RingBuffer::enqueue` of `AllocRingBuffer`: appends the value
/// and, when the buffer is full, first drops the oldest one.
#[verifier::external_body]
fn ring_push(r: &mut AllocRingBuffer<u32>, value: u32)
    ensures
        ring_capacity(*final(r)) == ring_capacity(*old(r)),
        ring_contents(*final(r)) == pushed(ring_contents(*old(r)), ring_capacity(*old(r)), value),
{
    r.enqueue(value);
}

/// Relies on `RingBuffer::to_vec` of `AllocRingBuffer`: the samples, oldest
/// first.
#[verifier::external_body]
fn ring_to_vec(r: &AllocRingBuffer<u32>) -> (v: Vec<u32>)
    ensures
        v@ == ring_contents(*r),
{
    r.to_vec()
}

/// Number of samples that a window keeps.
pub const WINDOW_CAPACITY: usize = 60;

/// `s` after pushing `value` into a window of capacity `cap`.
pub open spec fn pushed(s: Seq<u32>, cap: nat, value: u32) -> Seq<u32> {
    if s.len() < cap {
        s.push(value)
    } else {
        s.drop_first().push(value)
    }
}

/// Sum of the samples.
pub open spec fn sum(s: Seq<u32>) -> int
    decreases s.len(),
{
    if s.len() == 0 {
        0
    } else {
        sum(s.drop_last()) + s.last()
    }
}

/// Mean of the samples rounded down, absent for no samples.
pub open spec fn mean(s: Seq<u32>) -> Option<int> {
    if s.len() == 0 {
        None
    } else {
        Some(sum(s) / (s.len() as int))
    }
}

/// The last `n` values of `s`, or all of them where there are fewer.
pub open spec fn last_n(s: Seq<u32>, n: nat) -> Seq<u32> {
    if s.len() <= n {
        s
    } else {
        s.subrange(s.len() - n, s.len() as int)
    }
}

/// Fixed-capacity window of recent raw samples (millivolts). Pushing into a
/// full window evicts the oldest sample.
pub struct SampleWindow {
    buf: AllocRingBuffer<u32>,
}

impl View for SampleWindow {
    type V = Seq<u32>;

    closed spec fn view(&self) -> Seq<u32> {
        ring_contents(self.buf)
    }
}

impl SampleWindow {
    /// The window holds at most its capacity of samples.
    pub closed spec fn wf(&self) -> bool {
        &&& ring_capacity(self.buf) == WINDOW_CAPACITY
        &&& ring_contents(self.buf).len() <= WINDOW_CAPACITY
    }

    /// Number of samples the window keeps before it evicts the oldest.
    pub closed spec fn capacity(&self) -> nat {
        ring_capacity(self.buf)
    }

    /// A well-formed window has the fixed capacity and holds at most that
    /// many samples.
    pub proof fn lemma_wf_len(&self)
        requires
            self.wf(),
        ensures
            self.capacity() == WINDOW_CAPACITY,
            self@.len() <= WINDOW_CAPACITY,
    {
    }

    /// An empty window.
    pub fn new() -> (w: SampleWindow)
        ensures
            w.wf(),
            w.capacity() == WINDOW_CAPACITY,
            w@ == Seq::<u32>::empty(),
    {
        SampleWindow { buf: ring_new(WINDOW_CAPACITY) }
    }

    /// Appends a sample, evicting the oldest when the window is full.
    pub fn push(&mut self, value: u32)
        requires
            old(self).wf(),
        ensures
            final(self).wf(),
            final(self).capacity() == WINDOW_CAPACITY,
            final(self)@ == pushed(old(self)@, WINDOW_CAPACITY as nat, value),
    {
        ring_push(&mut self.buf, value);
    }

    /// Number of samples held.
    pub fn len(&self) -> (n: usize)
        requires
            self.wf(),
        ensures
            n == self@.len(),
            n <= WINDOW_CAPACITY,
    {
        ring_to_vec(&self.buf).len()
    }

    /// The samples, oldest first.
    pub fn to_vec(&self) -> (v: Vec<u32>)
        ensures
            v@ == self@,
    {
        ring_to_vec(&self.buf)
    }

    /// Mean of the samples in millivolts, rounded down; `None` when empty.
    pub fn mean(&self) -> (r: Option<u32>)
        requires
            self.wf(),
        ensures
            match r {
                None => self@.len() == 0,
                Some(m) => mean(self@) == Some(m as int),
            },
    {
        let samples = ring_to_vec(&self.buf);
        let n = samples.len();
        if n == 0 {
            return None;
        }
        let mut total: u64 = 0;
        let mut i: usize = 0;
        while i < n
            invariant
                n == samples@.len(),
                n <= WINDOW_CAPACITY,
                i <= n,
                total as int == sum(samples@.take(i as int)),
                total <= i * 0xffff_ffffu64,
            decreases n - i,
        {
            proof {
                assert(samples@.take(i as int + 1).drop_last() == samples@.take(i as int));
            }
            total = total + samples[i] as u64;
            i = i + 1;
        }
        proof {
            assert(samples@.take(n as int) == samples@);
            lemma_mean_fits(total as int, n as int);
        }
        Some((total / (n as u64)) as u32)
    }
}

proof fn lemma_mean_fits(total: int, n: int)
    requires
        0 < n,
        0 <= total <= n * 0xffff_ffff,
    ensures
        total / n <= 0xffff_ffff,
{
    assert(total / n <= 0xffff_ffff) by (nonlinear_arith)
        requires
            0 < n,
            0 <= total <= n * 0xffff_ffff,
    ;
}

/// A window never holds more than its capacity, and once at least that
/// many values were pushed it holds exactly the most recent ones, in push
/// order.
pub proof fn lemma_window_keeps_latest(start: Seq<u32>, values: Seq<u32>)
    requires
        start.len() <= WINDOW_CAPACITY,
    ensures
        push_all(start, values).len() <= WINDOW_CAPACITY,
        push_all(start, values) == last_n(start + values, WINDOW_CAPACITY as nat),
        values.len() >= WINDOW_CAPACITY ==> push_all(start, values) == values.subrange(
            values.len() - WINDOW_CAPACITY,
            values.len() as int,
        ),
    decreases values.len(),
{
    let cap = WINDOW_CAPACITY as nat;
    if values.len() == 0 {
        assert(start + values == start);
    } else {
        let front = values.drop_last();
        lemma_window_keeps_latest(start, front);
        let prev = push_all(start, front);
        let all = start + values;
        assert(start + front == all.drop_last());
        if all.drop_last().len() < cap {
            assert(prev.push(values.last()) == all);
        } else {
            assert(prev.drop_first().push(values.last()) == all.subrange(
                all.len() - cap,
                all.len() as int,
            ));
        }
        if values.len() >= cap {
            assert(all.subrange(all.len() - cap, all.len() as int) == values.subrange(
                values.len() - cap,
                values.len() as int,
            ));
        }
    }
}

/// The window that results from pushing `values` in order into `start`.
pub open spec fn push_all(start: Seq<u32>, values: Seq<u32>) -> Seq<u32>
    decreases values.len(),
{
    if values.len() == 0 {
        start
    } else {
        pushed(push_all(start, values.drop_last()), WINDOW_CAPACITY as nat, values.last())
    }
}

} // verus!
