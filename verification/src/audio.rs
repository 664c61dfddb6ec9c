//! Circular sample buffer and the shared capture state around it.

use vstd::prelude::*;

verus! {

/// Recording state machine for the push-to-talk flow.
#[derive(Debug, Clone, Copy, PartialEq, Eq, Structural)]
pub enum RecordingState {
    Idle,
    Recording,
    Processing,
}

/// The sequence a ring of capacity `cap` holds after the whole of `s` has
/// been written into it: the last `cap` elements of `s`, or all of `s` if
/// it is shorter.
pub open spec fn ring_suffix<T>(s: Seq<T>, cap: nat) -> Seq<T> {
    if s.len() <= cap {
        s
    } else {
        s.skip(s.len() - cap)
    }
}

/// A circular ring buffer for audio samples.
///
/// Stores samples with a fixed capacity. When full, new writes overwrite
/// the oldest data. Supports reading all valid samples in order (for
/// transcription) and reading the last `n` samples (for visualization).
///
/// Its view is the sequence of valid samples in chronological order,
/// oldest first.
pub struct RingBuffer<T> {
    data: Vec<T>,
    capacity: usize,
    write_pos: usize,
    count: usize,
}

impl<T> View for RingBuffer<T> {
    type V = Seq<T>;

    closed spec fn view(&self) -> Seq<T> {
        if self.count < self.capacity {
            self.data@
        } else {
            self.data@.subrange(self.write_pos as int, self.capacity as int)
                + self.data@.subrange(0, self.write_pos as int)
        }
    }
}

impl<T: Copy> RingBuffer<T> {
    /// Internal consistency: the store holds exactly the valid samples,
    /// and the write cursor wraps within the capacity.
    pub closed spec fn wf(&self) -> bool {
        &&& self.count == self.data@.len()
        &&& self.count <= self.capacity
        &&& (self.count < self.capacity ==> self.write_pos == self.count)
        &&& (self.capacity > 0 ==> self.write_pos < self.capacity)
        &&& (self.capacity == 0 ==> self.write_pos == 0)
    }

    /// The fixed capacity the buffer was created with.
    pub closed spec fn spec_capacity(&self) -> usize {
        self.capacity
    }

    proof fn lemma_view_len(&self)
        requires
            self.wf(),
        ensures
            self@.len() == self.count,
    {
    }

    /// Create a new ring buffer with the given capacity in samples.
    pub fn new(capacity: usize) -> (r: Self)
        ensures
            r.wf(),
            r@ == Seq::<T>::empty(),
            r.spec_capacity() == capacity,
    {
        let r = Self { data: Vec::with_capacity(capacity), capacity, write_pos: 0, count: 0 };
        proof {
            assert(r@ =~= Seq::<T>::empty());
        }
        r
    }

    /// Write one sample at the cursor, overwriting the oldest sample when
    /// the buffer is full.
    fn write_one(&mut self, s: T)
        requires
            old(self).wf(),
        ensures
            final(self).wf(),
            final(self).spec_capacity() == old(self).spec_capacity(),
            old(self)@.len() < old(self).spec_capacity() ==> final(self)@ == old(self)@.push(s),
            old(self)@.len() == old(self).spec_capacity() && old(self).spec_capacity() > 0
                ==> final(self)@ == old(self)@.skip(1).push(s),
            old(self).spec_capacity() == 0 ==> final(self)@ == old(self)@,
    {
        proof {
            old(self).lemma_view_len();
        }
        if self.capacity == 0 {
            return ;
        }
        let ghost pre = *self;
        if self.count < self.capacity {
            self.data.push(s);
            self.write_pos = self.write_pos + 1;
            if self.write_pos == self.capacity {
                self.write_pos = 0;
            }
            self.count = self.count + 1;
            proof {
                if self.count < self.capacity {
                    assert(self@ =~= pre@.push(s));
                } else {
                    assert(self@ =~= self.data@.subrange(0, self.capacity as int));
                    assert(self@ =~= pre@.push(s));
                }
            }
        } else {
            self.data[self.write_pos] = s;
            self.write_pos = self.write_pos + 1;
            if self.write_pos == self.capacity {
                self.write_pos = 0;
            }
            proof {
                assert(self@ =~= pre@.skip(1).push(s));
            }
        }
    }

    /// Write samples into the ring buffer. If the buffer is full, the
    /// oldest samples are overwritten.
    pub fn write(&mut self, samples: &[T])
        requires
            old(self).wf(),
        ensures
            final(self).wf(),
            final(self).spec_capacity() == old(self).spec_capacity(),
            final(self)@ == ring_suffix(old(self)@ + samples@, old(self).spec_capacity() as nat),
            final(self)@.len() == vstd::math::min(
                old(self)@.len() + samples@.len() as int,
                old(self).spec_capacity() as int,
            ),
    {
        let ghost pre = *self;
        let ghost cap = self.spec_capacity() as nat;
        let mut i: usize = 0;
        proof {
            assert(pre@ + samples@.take(0) =~= pre@);
            assert(ring_suffix(pre@, cap) =~= pre@) by {
                pre.lemma_view_len();
            }
        }
        while i < samples.len()
            invariant
                self.wf(),
                pre.wf(),
                i <= samples@.len(),
                self.spec_capacity() == pre.spec_capacity(),
                cap == self.spec_capacity() as nat,
                self@ == ring_suffix(pre@ + samples@.take(i as int), cap),
            decreases samples@.len() - i,
        {
            let ghost hist = pre@ + samples@.take(i as int);
            proof {
                self.lemma_view_len();
                lemma_ring_suffix_len(hist, cap);
            }
            self.write_one(samples[i]);
            proof {
                let x = samples@[i as int];
                let hist2 = pre@ + samples@.take(i as int + 1);
                assert(hist.push(x) =~= hist2);
                if cap == 0 {
                    lemma_ring_suffix_len(hist2, cap);
                    assert(self@ =~= ring_suffix(hist2, cap));
                } else {
                    lemma_ring_suffix_step(hist, x, cap);
                    if hist.len() < cap {
                        assert(self@ == ring_suffix(hist, cap).push(x));
                    } else {
                        assert(self@ == ring_suffix(hist, cap).skip(1).push(x));
                    }
                    assert(self@ == ring_suffix(hist.push(x), cap));
                    assert(self@ == ring_suffix(hist2, cap));
                }
            }
            i = i + 1;
        }
        proof {
            assert(samples@.take(samples@.len() as int) =~= samples@);
            lemma_ring_suffix_len(pre@ + samples@, cap);
        }
    }

    /// Read all valid samples in chronological order (oldest first).
    /// Non-destructive: the buffer contents are unchanged.
    pub fn read_all(&self) -> (r: Vec<T>)
        requires
            self.wf(),
        ensures
            r@ == self@,
    {
        proof {
            self.lemma_view_len();
        }
        let r = self.read_last(self.count);
        proof {
            assert(self@.skip(0) =~= self@);
        }
        r
    }

    /// Read the last `n` samples (most recent). If fewer than `n` samples
    /// are available, all available samples are returned: no padding.
    pub fn read_last(&self, n: usize) -> (r: Vec<T>)
        requires
            self.wf(),
        ensures
            r@ == self@.skip(self@.len() - vstd::math::min(n as int, self@.len() as int)),
            r@.len() == vstd::math::min(n as int, self@.len() as int),
    {
        proof {
            self.lemma_view_len();
        }
        let n = if n < self.count {
            n
        } else {
            self.count
        };
        let mut result: Vec<T> = Vec::with_capacity(n);
        if n == 0 {
            proof {
                assert(result@ =~= self@.skip(self@.len() as int));
            }
            return result;
        }
        // Start position is n samples before the write cursor.
        let start = if self.write_pos >= n {
            self.write_pos - n
        } else {
            self.capacity - (n - self.write_pos)
        };
        let mut j: usize = 0;
        while j < n
            invariant
                self.wf(),
                0 < n <= self.count,
                start == if self.write_pos >= n {
                    (self.write_pos - n) as int
                } else {
                    self.capacity - (n - self.write_pos)
                },
                j <= n,
                result@ =~= self@.subrange(self@.len() - n, self@.len() - n + j),
            decreases n - j,
        {
            proof {
                self.lemma_view_len();
            }
            let idx = if j < self.capacity - start {
                start + j
            } else {
                j - (self.capacity - start)
            };
            proof {
                let p = self@.len() - n + j;
                if self.count < self.capacity {
                    assert(start == self.count - n);
                    assert(idx == p);
                    assert(self@[p] == self.data@[idx as int]);
                } else {
                    let wp = self.write_pos as int;
                    let c = self.capacity as int;
                    if p < c - wp {
                        assert(self@[p] == self.data@[wp + p]);
                        assert(idx == wp + p);
                    } else {
                        assert(self@[p] == self.data@[p - (c - wp)]);
                        assert(idx == p - (c - wp));
                    }
                }
            }
            result.push(self.data[idx]);
            j = j + 1;
            proof {
                assert(result@ =~= self@.subrange(self@.len() - n, self@.len() - n + j));
            }
        }
        proof {
            assert(result@ =~= self@.skip(self@.len() - n));
        }
        result
    }

    /// Clear all data from the buffer. The capacity is kept.
    pub fn clear(&mut self)
        requires
            old(self).wf(),
        ensures
            final(self).wf(),
            final(self)@ == Seq::<T>::empty(),
            final(self).spec_capacity() == old(self).spec_capacity(),
    {
        self.data.truncate(0);
        self.write_pos = 0;
        self.count = 0;
        proof {
            assert(self@ =~= Seq::<T>::empty());
        }
    }

    /// Number of valid samples in the buffer.
    pub fn len(&self) -> (r: usize)
        requires
            self.wf(),
        ensures
            r == self@.len(),
    {
        proof {
            self.lemma_view_len();
        }
        self.count
    }

    /// Whether the buffer is empty.
    pub fn is_empty(&self) -> (r: bool)
        requires
            self.wf(),
        ensures
            r == (self@.len() == 0),
    {
        proof {
            self.lemma_view_len();
        }
        self.count == 0
    }

    /// Total capacity of the buffer.
    pub fn capacity(&self) -> (r: usize)
        requires
            self.wf(),
        ensures
            r == self.spec_capacity(),
    {
        self.capacity
    }
}

/// The retained suffix never exceeds the capacity, and is the whole
/// history while that history is no longer than the capacity.
pub proof fn lemma_ring_suffix_len<T>(s: Seq<T>, cap: nat)
    ensures
        ring_suffix(s, cap).len() == vstd::math::min(s.len() as int, cap as int),
{
}

/// Writing one more sample keeps the retained suffix in step: it is
/// appended while there is room, and it displaces the oldest retained
/// sample once the ring is full.
proof fn lemma_ring_suffix_step<T>(s: Seq<T>, x: T, cap: nat)
    requires
        cap > 0,
    ensures
        s.len() < cap ==> ring_suffix(s.push(x), cap) == ring_suffix(s, cap).push(x),
        s.len() >= cap ==> ring_suffix(s.push(x), cap) == ring_suffix(s, cap).skip(1).push(x),
{
    if s.len() < cap {
        assert(ring_suffix(s.push(x), cap) =~= ring_suffix(s, cap).push(x));
    } else {
        assert(ring_suffix(s.push(x), cap) =~= ring_suffix(s, cap).skip(1).push(x));
    }
}

/// Bounded occupancy: a well-formed buffer never holds more samples than
/// its capacity.
pub proof fn lemma_len_bounded<T: Copy>(buf: RingBuffer<T>)
    requires
        buf.wf(),
    ensures
        buf@.len() <= buf.spec_capacity(),
{
    buf.lemma_view_len();
}

/// Saturation: after a total write history `s` into a ring of capacity
/// `cap`, the buffer holds `min(|s|, cap)` samples; in particular, once
/// at least `cap` samples have been written it holds exactly `cap`.
pub proof fn lemma_capacity_saturation<T>(s: Seq<T>, cap: nat)
    ensures
        ring_suffix(s, cap).len() <= cap,
        s.len() >= cap ==> ring_suffix(s, cap).len() == cap,
{
}

/// Writing in several batches leaves the same contents as writing the
/// concatenated history at once: the buffer remembers exactly the last
/// `cap` samples of everything written since it was last empty.
pub proof fn lemma_ring_suffix_compose<T>(s: Seq<T>, t: Seq<T>, cap: nat)
    ensures
        ring_suffix(ring_suffix(s, cap) + t, cap) == ring_suffix(s + t, cap),
{
    let a = ring_suffix(s, cap);
    if s.len() <= cap {
        assert(a + t =~= s + t);
    } else {
        assert(a.len() == cap);
        if cap + t.len() <= cap {
            assert(t.len() == 0);
            assert(a + t =~= a);
            assert(ring_suffix(s + t, cap) =~= s.skip(s.len() - cap)) by {
                assert(s + t =~= s);
            }
        } else {
            let lhs = ring_suffix(a + t, cap);
            let rhs = ring_suffix(s + t, cap);
            assert(lhs.len() == cap);
            assert(rhs.len() == cap);
            assert forall|j: int| 0 <= j < cap implies lhs[j] == rhs[j] by {
                let off = t.len() + j;
                assert(lhs[j] == (a + t)[off]);
                if off < cap {
                    assert((a + t)[off] == a[off]);
                    assert(a[off] == s[s.len() - cap + off]);
                    assert(rhs[j] == (s + t)[s.len() - cap + t.len() + j]);
                } else {
                    assert((a + t)[off] == t[off - cap]);
                    assert(rhs[j] == (s + t)[s.len() - cap + t.len() + j]);
                }
            }
            assert(lhs =~= rhs);
        }
    }
}

/// Interleaved producer/consumer cycles never starve the reader: if the
/// requested window `k` is within the capacity, reading the last `k`
/// samples of a buffer whose write history is `history` yields no fewer
/// than `min(k, |history|)` samples.  (With `k` above the capacity the
/// bound fails once more than `cap` samples have been written: capacity
/// 4, five writes, `k == 5` yields 4.)
pub proof fn lemma_read_last_never_starves<T>(history: Seq<T>, cap: nat, k: nat)
    requires
        k <= cap,
    ensures
        vstd::math::min(k as int, ring_suffix(history, cap).len() as int) >= vstd::math::min(
            k as int,
            history.len() as int,
        ),
{
}

/// `read_all` is non-destructive: it takes the buffer by shared
/// reference and returns exactly its view, so two successive calls yield
/// identical results.
pub proof fn lemma_read_all_repeatable<T: Copy>(buf: RingBuffer<T>, r1: Seq<T>, r2: Seq<T>)
    requires
        r1 == buf@,
        r2 == buf@,
    ensures
        r1 == r2,
{
}

/// Shared state between the audio callback thread and the main thread:
/// one ring buffer and the recording flag.  The mutual exclusion around
/// it is the owner's responsibility; this type holds the transitions.
pub struct SharedAudioState<T> {
    recording: bool,
    buffer: RingBuffer<T>,
}

impl<T: Copy> SharedAudioState<T> {
    pub closed spec fn wf(&self) -> bool {
        self.buffer.wf()
    }

    /// Whether a recording session is active.
    pub closed spec fn is_active(&self) -> bool {
        self.recording
    }

    /// The samples currently held, oldest first.
    pub closed spec fn contents(&self) -> Seq<T> {
        self.buffer@
    }

    pub closed spec fn spec_capacity(&self) -> usize {
        self.buffer.spec_capacity()
    }

    /// A fresh, inactive state over an empty ring of the given capacity.
    pub fn new(capacity: usize) -> (r: Self)
        ensures
            r.wf(),
            !r.is_active(),
            r.contents() == Seq::<T>::empty(),
            r.spec_capacity() == capacity,
    {
        Self { recording: false, buffer: RingBuffer::new(capacity) }
    }

    /// Begin a recording session: the buffer is cleared and the flag set.
    pub fn start_recording(&mut self)
        requires
            old(self).wf(),
        ensures
            final(self).wf(),
            final(self).is_active(),
            final(self).contents() == Seq::<T>::empty(),
            final(self).spec_capacity() == old(self).spec_capacity(),
    {
        self.buffer.clear();
        self.recording = true;
    }

    /// End the session: the flag is dropped and all captured samples are
    /// returned in chronological order.  The buffer itself is untouched.
    pub fn stop_recording(&mut self) -> (r: Vec<T>)
        requires
            old(self).wf(),
        ensures
            final(self).wf(),
            !final(self).is_active(),
            r@ == old(self).contents(),
            final(self).contents() == old(self).contents(),
            final(self).spec_capacity() == old(self).spec_capacity(),
    {
        self.recording = false;
        self.buffer.read_all()
    }

    /// Whether a recording session is active.
    pub fn is_recording(&self) -> (r: bool)
        ensures
            r == self.is_active(),
    {
        self.recording
    }

    /// The most recent `n` samples while recording; an empty sequence
    /// while idle, so that visualization is suppressed.
    pub fn read_last_samples(&self, n: usize) -> (r: Vec<T>)
        requires
            self.wf(),
        ensures
            self.is_active() ==> r@ == self.contents().skip(
                self.contents().len() - vstd::math::min(n as int, self.contents().len() as int),
            ),
            !self.is_active() ==> r@ == Seq::<T>::empty(),
    {
        if self.recording {
            self.buffer.read_last(n)
        } else {
            Vec::new()
        }
    }

    /// The producer path: append the (already downmixed) samples while a
    /// session is active; while idle the frame is ignored.
    pub fn write_samples(&mut self, samples: &[T])
        requires
            old(self).wf(),
        ensures
            final(self).wf(),
            final(self).is_active() == old(self).is_active(),
            final(self).spec_capacity() == old(self).spec_capacity(),
            old(self).is_active() ==> final(self).contents() == ring_suffix(
                old(self).contents() + samples@,
                old(self).spec_capacity() as nat,
            ),
            !old(self).is_active() ==> final(self).contents() == old(self).contents(),
    {
        if self.recording {
            self.buffer.write(samples);
        }
    }
}

/// Index of the lower interpolation neighbour for output position `j`.
pub open spec fn resample_lo(j: int, from_rate: int, to_rate: int, len: int) -> int {
    vstd::math::min(j * from_rate / to_rate, len - 1)
}

/// Index of the upper interpolation neighbour for output position `j`.
pub open spec fn resample_hi(j: int, from_rate: int, to_rate: int, len: int) -> int {
    vstd::math::min(j * from_rate / to_rate + 1, len - 1)
}

/// Numerator of the fractional part of source position `j * from / to`,
/// over the denominator `to_rate`.
pub open spec fn resample_frac(j: int, from_rate: int, to_rate: int) -> int {
    j * from_rate % to_rate
}

/// Resample audio from one sample rate to another using linear
/// interpolation.  If the rates are equal or the input is empty, the
/// input is returned unchanged.  Otherwise the output has exactly
/// `floor(len * to_rate / from_rate)` samples, and sample `j` is the
/// caller-supplied blend `lerp(a, b, num, den)` of the two neighbouring
/// input samples at source position `j * from_rate / to_rate`, mixed by
/// the fractional part `num / den` of that position.
pub fn resample<T: Copy, F: Fn(T, T, u32, u32) -> T>(
    samples: &[T],
    from_rate: u32,
    to_rate: u32,
    lerp: F,
) -> (r: Vec<T>)
    requires
        from_rate > 0,
        to_rate > 0,
        samples@.len() * to_rate as int <= usize::MAX as int,
        forall|a: T, b: T, num: u32, den: u32| #[trigger] call_requires(lerp, (a, b, num, den)),
    ensures
        from_rate == to_rate || samples@.len() == 0 ==> r@ == samples@,
        from_rate != to_rate && samples@.len() > 0 ==> r@.len() == samples@.len() * to_rate as int
            / from_rate as int,
        from_rate != to_rate && samples@.len() > 0 ==> forall|j: int|
            0 <= j < r@.len() ==> call_ensures(
                lerp,
                (
                    samples@[resample_lo(j, from_rate as int, to_rate as int, samples@.len() as int)],
                    samples@[resample_hi(j, from_rate as int, to_rate as int, samples@.len() as int)],
                    resample_frac(j, from_rate as int, to_rate as int) as u32,
                    to_rate,
                ),
                #[trigger] r@[j],
            ),
{
    if from_rate == to_rate || samples.len() == 0 {
        return vstd::slice::slice_to_vec(samples);
    }
    let len = samples.len();
    let from_sz = from_rate as usize;
    let to_sz = to_rate as usize;
    let output_len = (len * to_sz) / from_sz;
    let mut out: Vec<T> = Vec::with_capacity(output_len);
    let mut j: usize = 0;
    while j < output_len
        invariant
            0 < len == samples@.len(),
            from_sz == from_rate as int,
            to_sz == to_rate as int,
            from_rate > 0,
            to_rate > 0,
            len * to_sz <= usize::MAX,
            output_len == len * to_sz / from_sz as int,
            j <= output_len,
            out@.len() == j,
            forall|a: T, b: T, num: u32, den: u32| #[trigger] call_requires(lerp, (a, b, num, den)),
            forall|q: int|
                0 <= q < j ==> call_ensures(
                    lerp,
                    (
                        samples@[resample_lo(q, from_rate as int, to_rate as int, len as int)],
                        samples@[resample_hi(q, from_rate as int, to_rate as int, len as int)],
                        resample_frac(q, from_rate as int, to_rate as int) as u32,
                        to_rate,
                    ),
                    #[trigger] out@[q],
                ),
        decreases output_len - j,
    {
        proof {
            let d = len * to_sz / from_sz as int;
            vstd::arithmetic::div_mod::lemma_fundamental_div_mod(len as int * to_sz as int, from_sz as int);
            vstd::arithmetic::div_mod::lemma_mod_bound(len as int * to_sz as int, from_sz as int);
            assert((j + 1) * from_sz <= d * from_sz) by (nonlinear_arith)
                requires
                    j + 1 <= d,
                    from_sz > 0,
            ;
            assert(j * from_sz <= (j + 1) * from_sz) by (nonlinear_arith)
                requires
                    from_sz > 0,
                    j >= 0,
            ;
            assert((j + 1) * from_sz <= len * to_sz);
        }
        let pos = j * from_sz;
        let idx = pos / to_sz;
        proof {
            vstd::arithmetic::div_mod::lemma_div_is_ordered_by_denominator(pos as int, 1, to_sz as int);
            assert(pos as int / 1 == pos as int) by (nonlinear_arith);
            assert(idx <= pos);
            assert(pos + from_sz == (j + 1) * from_sz) by (nonlinear_arith)
                requires
                    pos == j * from_sz,
            ;
            assert(pos + from_sz <= len * to_sz);
            assert(idx + 1 <= usize::MAX);
        }
        let rem = (pos % to_sz) as u32;
        let i1 = if idx < len - 1 {
            idx
        } else {
            len - 1
        };
        let i2 = if idx + 1 < len {
            idx + 1
        } else {
            len - 1
        };
        proof {
            assert(i1 == resample_lo(j as int, from_rate as int, to_rate as int, len as int));
            assert(i2 == resample_hi(j as int, from_rate as int, to_rate as int, len as int));
            assert(rem == resample_frac(j as int, from_rate as int, to_rate as int));
        }
        out.push(lerp(samples[i1], samples[i2], rem, to_rate));
        j = j + 1;
    }
    out
}

} // verus!
