//! Fixed-capacity circular FIFO buffers.
//!
//! Two index-width variants exist: [`RingBufferIndex16bit`] for capacities
//! above 256 and [`RingBufferIndex8bit`] for capacities up to 256, chosen
//! for indexing efficiency on a small target word size. The capacity `N` is
//! fixed at compile time and must be a power of two, so that the index mask
//! `N - 1` reduces every index modulo `N`. One slot is kept free to tell a
//! full buffer from an empty one: at most `N - 1` elements are stored.

use vstd::prelude::*;

verus! {

/// A capacity the masking scheme supports: a power of two, so that
/// `index & (n - 1)` equals `index % n`.
pub open spec fn power_of_two_capacity(n: usize) -> bool {
    &&& 1 <= n
    &&& n & ((n - 1) as usize) == 0
}

/// Capacities served by the 16-bit-indexed variant.
pub open spec fn valid_capacity_index16(n: usize) -> bool {
    &&& power_of_two_capacity(n)
    &&& 256 < n
    &&& n <= 65536
}

/// For a power-of-two capacity `n`, the mask `n - 1` and `n` itself share no
/// bits, which is the form the wraparound lemma needs.
proof fn lemma_capacity_mask(n: usize, m: u16)
    requires
        1 <= n,
        n <= 65536,
        n & ((n - 1) as usize) == 0,
        m as int == n - 1,
    ensures
        (m as u32) & (n as u32) == 0,
{
    let p: usize = (n - 1) as usize;
    assert((m as u32) & (n as u32) == 0) by (bit_vector)
        requires
            1 <= n,
            n <= 65536,
            n & p == 0,
            p == n - 1,
            m as int == n - 1,
    ;
}

/// Masking with the all-low-bits mask `m` leaves values up to `m` unchanged
/// and wraps `m + 1` (the capacity itself) back to zero.
proof fn lemma_mask_wrap(x: u32, m: u32, n: u32)
    requires
        n == m + 1,
        m & n == 0,
        x <= n,
    ensures
        x <= m ==> x & m == x,
        x == n ==> x & m == 0,
{
    assert(x <= m ==> x & m == x) by (bit_vector)
        requires
            n == m + 1,
            m & n == 0,
            x <= n,
    ;
    assert(x == n ==> x & m == 0) by (bit_vector)
        requires
            n == m + 1,
            m & n == 0,
            x <= n,
    ;
}

/// A bounded FIFO over `N` slots indexed by 16-bit head/tail cursors.
///
/// The producer owns `head`, the consumer owns `tail`; each operation
/// advances exactly one of them, which is what lets a single-core
/// interrupt producer and a cooperative consumer share one buffer.
pub struct RingBufferIndex16bit<T: Copy, const N: usize> {
    buffer: Vec<T>,
    head: u16,
    tail: u16,
    buf_mask: u16,
}

impl<T: Copy, const N: usize> RingBufferIndex16bit<T, N> {
    /// Internal consistency: the mask matches the capacity, both cursors are
    /// in range, and slots are allocated in step with the head cursor (a
    /// slot is written before the head ever moves past it).
    pub closed spec fn wf(&self) -> bool {
        &&& valid_capacity_index16(N)
        &&& self.buf_mask as int == N - 1
        &&& (self.head as int) < N
        &&& (self.tail as int) < N
        &&& self.buffer@.len() <= N
        &&& self.buffer@.len() < N ==> {
            &&& self.head as int == self.buffer@.len()
            &&& self.tail <= self.head
        }
    }

    /// Number of queued elements: the cursor distance modulo `N`.
    pub closed spec fn spec_len(&self) -> int {
        if self.head >= self.tail {
            self.head - self.tail
        } else {
            self.head + N - self.tail
        }
    }

    /// Physical slot of the `i`-th queued element.
    pub closed spec fn slot(&self, i: int) -> int {
        if self.tail + i < N {
            self.tail + i
        } else {
            self.tail + i - N
        }
    }

    /// Creates an empty buffer. The capacity is fixed by the type; the
    /// runtime argument restates it and must be a power of two in this
    /// variant's range, a fatal precondition rather than a recoverable
    /// error.
    pub fn new(n: usize) -> (result: Self)
        requires
            n == N,
            valid_capacity_index16(N),
        ensures
            result.wf(),
            result@ == Seq::<T>::empty(),
    {
        let result = Self { buffer: Vec::new(), head: 0, tail: 0, buf_mask: (n - 1) as u16 };
        proof {
            assert(result@ =~= Seq::<T>::empty());
        }
        result
    }

    /// Checked construction: `Some` exactly when the requested capacity is
    /// the type's own and lies in this variant's supported range, so no
    /// buffer with an unusable capacity can ever reach `enqueue` or
    /// `dequeue`.
    pub fn try_new(n: usize) -> (result: Option<Self>)
        ensures
            result is Some <==> (n == N && valid_capacity_index16(N)),
            result matches Some(rb) ==> rb.wf() && rb@ == Seq::<T>::empty(),
    {
        if n != N {
            return None;
        }
        if n <= 256 || n > 65536 {
            return None;
        }
        if n & (n - 1) != 0 {
            return None;
        }
        Some(Self::new(n))
    }

    /// Appends one element at the head cursor. The caller must have checked
    /// `is_full` first: the buffer never holds more than `N - 1` elements.
    pub fn enqueue(&mut self, value: T)
        requires
            old(self).wf(),
            old(self)@.len() < N - 1,
        ensures
            final(self).wf(),
            final(self)@ == old(self)@.push(value),
    {
        if self.head as usize == self.buffer.len() {
            self.buffer.push(value);
        } else {
            self.buffer.set(self.head as usize, value);
        }
        let next_unmasked: u32 = self.head as u32 + 1;
        proof {
            lemma_capacity_mask(N, self.buf_mask);
            lemma_mask_wrap(next_unmasked, self.buf_mask as u32, N as u32);
        }
        self.head = (next_unmasked & (self.buf_mask as u32)) as u16;
        proof {
            assert(self@ =~= old(self)@.push(value)) by {
                assert(self.spec_len() == old(self).spec_len() + 1);
                assert forall|i: int| 0 <= i < old(self)@.len() implies self@[i] == old(
                    self,
                )@[i] by {
                    assert(old(self).slot(i) == self.slot(i));
                    assert(old(self).slot(i) != old(self).head as int);
                }
                assert(self@[old(self)@.len() as int] == value);
            }
        }
    }

    /// Removes and returns the oldest element. The caller must have checked
    /// `is_empty` first.
    pub fn dequeue(&mut self) -> (value: T)
        requires
            old(self).wf(),
            old(self)@.len() > 0,
        ensures
            final(self).wf(),
            value == old(self)@[0],
            final(self)@ == old(self)@.subrange(1, old(self)@.len() as int),
    {
        let value: T = self.buffer[self.tail as usize];
        let next_unmasked: u32 = self.tail as u32 + 1;
        proof {
            lemma_capacity_mask(N, self.buf_mask);
            lemma_mask_wrap(next_unmasked, self.buf_mask as u32, N as u32);
        }
        self.tail = (next_unmasked & (self.buf_mask as u32)) as u16;
        proof {
            assert(self@ =~= old(self)@.subrange(1, old(self)@.len() as int)) by {
                assert(self.spec_len() == old(self).spec_len() - 1);
                assert forall|i: int| 0 <= i < self@.len() implies self@[i] == old(self)@[i
                    + 1] by {
                    assert(self.slot(i) == old(self).slot(i + 1));
                }
            }
        }
        value
    }

    /// Drops all queued elements by moving the read cursor to the write
    /// cursor; no slot is touched.
    pub fn clear(&mut self)
        requires
            old(self).wf(),
        ensures
            final(self).wf(),
            final(self)@ == Seq::<T>::empty(),
    {
        self.tail = self.head;
        proof {
            assert(self@ =~= Seq::<T>::empty());
        }
    }

    /// True when nothing is queued.
    pub fn is_empty(&self) -> (r: bool)
        requires
            self.wf(),
        ensures
            r == (self@.len() == 0),
    {
        self.tail == self.head
    }

    /// True when every usable slot is taken: `len()` has reached `N - 1`,
    /// one slot before the write cursor would catch the read cursor.
    pub fn is_full(&self) -> (r: bool)
        requires
            self.wf(),
        ensures
            r == (self@.len() == N - 1),
    {
        let next_unmasked: u32 = self.head as u32 + 1;
        proof {
            lemma_capacity_mask(N, self.buf_mask);
            lemma_mask_wrap(next_unmasked, self.buf_mask as u32, N as u32);
        }
        (next_unmasked & (self.buf_mask as u32)) == self.tail as u32
    }

    /// Number of queued elements.
    pub fn len(&self) -> (r: u16)
        requires
            self.wf(),
        ensures
            r as int == self@.len(),
    {
        if self.head >= self.tail {
            self.head - self.tail
        } else {
            (self.head as u32 + self.buf_mask as u32 + 1 - self.tail as u32) as u16
        }
    }

    /// Overwrite-checked enqueue for use outside the hot path: refuses the
    /// element instead of corrupting the buffer when it is full.
    pub fn try_enqueue(&mut self, value: T) -> (accepted: bool)
        requires
            old(self).wf(),
        ensures
            final(self).wf(),
            accepted == (old(self)@.len() < N - 1),
            accepted ==> final(self)@ == old(self)@.push(value),
            !accepted ==> *final(self) == *old(self),
    {
        if !self.is_full() {
            self.enqueue(value);
            true
        } else {
            false
        }
    }

    /// Underflow-checked dequeue for use outside the hot path: `None`
    /// instead of reading a stale slot when the buffer is empty.
    pub fn try_dequeue(&mut self) -> (value: Option<T>)
        requires
            old(self).wf(),
        ensures
            final(self).wf(),
            (value is Some) <==> old(self)@.len() > 0,
            value matches Some(v) ==> v == old(self)@[0] && final(self)@ == old(self)@.subrange(
                1,
                old(self)@.len() as int,
            ),
            value is None ==> *final(self) == *old(self),
    {
        if !self.is_empty() {
            Some(self.dequeue())
        } else {
            None
        }
    }

    /// A well-formed buffer never holds more than `N - 1` elements: one
    /// slot always stays free to tell full from empty.
    pub proof fn lemma_view_len(&self)
        requires
            self.wf(),
        ensures
            self@.len() <= N - 1,
    {
    }
}

impl<T: Copy, const N: usize> View for RingBufferIndex16bit<T, N> {
    type V = Seq<T>;

    closed spec fn view(&self) -> Seq<T> {
        Seq::new(self.spec_len() as nat, |i: int| self.buffer@[self.slot(i)])
    }
}

/// Capacities served by the 8-bit-indexed variant.
pub open spec fn valid_capacity_index8(n: usize) -> bool {
    &&& power_of_two_capacity(n)
    &&& n <= 256
}

/// A bounded FIFO over `N` slots indexed by 8-bit head/tail cursors; the
/// cheaper variant for capacities up to 256. Same contract as
/// [`RingBufferIndex16bit`].
pub struct RingBufferIndex8bit<T: Copy, const N: usize> {
    buffer: Vec<T>,
    head: u8,
    tail: u8,
    buf_mask: u8,
}

impl<T: Copy, const N: usize> RingBufferIndex8bit<T, N> {
    /// Internal consistency: the mask matches the capacity, both cursors are
    /// in range, and slots are allocated in step with the head cursor.
    pub closed spec fn wf(&self) -> bool {
        &&& valid_capacity_index8(N)
        &&& self.buf_mask as int == N - 1
        &&& (self.head as int) < N
        &&& (self.tail as int) < N
        &&& self.buffer@.len() <= N
        &&& self.buffer@.len() < N ==> {
            &&& self.head as int == self.buffer@.len()
            &&& self.tail <= self.head
        }
    }

    /// Number of queued elements: the cursor distance modulo `N`.
    pub closed spec fn spec_len(&self) -> int {
        if self.head >= self.tail {
            self.head - self.tail
        } else {
            self.head + N - self.tail
        }
    }

    /// Physical slot of the `i`-th queued element.
    pub closed spec fn slot(&self, i: int) -> int {
        if self.tail + i < N {
            self.tail + i
        } else {
            self.tail + i - N
        }
    }

    /// Creates an empty buffer. The capacity is fixed by the type; the
    /// runtime argument restates it and must be a power of two no larger
    /// than 256, a fatal precondition rather than a recoverable error.
    pub fn new(n: usize) -> (result: Self)
        requires
            n == N,
            valid_capacity_index8(N),
        ensures
            result.wf(),
            result@ == Seq::<T>::empty(),
    {
        let result = Self { buffer: Vec::new(), head: 0, tail: 0, buf_mask: (n - 1) as u8 };
        proof {
            assert(result@ =~= Seq::<T>::empty());
        }
        result
    }

    /// Checked construction: `Some` exactly when the requested capacity is
    /// the type's own and lies in this variant's supported range.
    pub fn try_new(n: usize) -> (result: Option<Self>)
        ensures
            result is Some <==> (n == N && valid_capacity_index8(N)),
            result matches Some(rb) ==> rb.wf() && rb@ == Seq::<T>::empty(),
    {
        if n != N {
            return None;
        }
        if n < 1 || n > 256 {
            return None;
        }
        if n & (n - 1) != 0 {
            return None;
        }
        Some(Self::new(n))
    }

    /// Appends one element at the head cursor. The caller must have checked
    /// `is_full` first: the buffer never holds more than `N - 1` elements.
    pub fn enqueue(&mut self, value: T)
        requires
            old(self).wf(),
            old(self)@.len() < N - 1,
        ensures
            final(self).wf(),
            final(self)@ == old(self)@.push(value),
    {
        if self.head as usize == self.buffer.len() {
            self.buffer.push(value);
        } else {
            self.buffer.set(self.head as usize, value);
        }
        let next_unmasked: u32 = self.head as u32 + 1;
        proof {
            lemma_capacity_mask(N, self.buf_mask as u16);
            lemma_mask_wrap(next_unmasked, self.buf_mask as u32, N as u32);
        }
        self.head = (next_unmasked & (self.buf_mask as u32)) as u8;
        proof {
            assert(self@ =~= old(self)@.push(value)) by {
                assert(self.spec_len() == old(self).spec_len() + 1);
                assert forall|i: int| 0 <= i < old(self)@.len() implies self@[i] == old(
                    self,
                )@[i] by {
                    assert(old(self).slot(i) == self.slot(i));
                    assert(old(self).slot(i) != old(self).head as int);
                }
                assert(self@[old(self)@.len() as int] == value);
            }
        }
    }

    /// Removes and returns the oldest element. The caller must have checked
    /// `is_empty` first.
    pub fn dequeue(&mut self) -> (value: T)
        requires
            old(self).wf(),
            old(self)@.len() > 0,
        ensures
            final(self).wf(),
            value == old(self)@[0],
            final(self)@ == old(self)@.subrange(1, old(self)@.len() as int),
    {
        let value: T = self.buffer[self.tail as usize];
        let next_unmasked: u32 = self.tail as u32 + 1;
        proof {
            lemma_capacity_mask(N, self.buf_mask as u16);
            lemma_mask_wrap(next_unmasked, self.buf_mask as u32, N as u32);
        }
        self.tail = (next_unmasked & (self.buf_mask as u32)) as u8;
        proof {
            assert(self@ =~= old(self)@.subrange(1, old(self)@.len() as int)) by {
                assert(self.spec_len() == old(self).spec_len() - 1);
                assert forall|i: int| 0 <= i < self@.len() implies self@[i] == old(self)@[i
                    + 1] by {
                    assert(self.slot(i) == old(self).slot(i + 1));
                }
            }
        }
        value
    }

    /// Drops all queued elements by moving the read cursor to the write
    /// cursor; no slot is touched.
    pub fn clear(&mut self)
        requires
            old(self).wf(),
        ensures
            final(self).wf(),
            final(self)@ == Seq::<T>::empty(),
    {
        self.tail = self.head;
        proof {
            assert(self@ =~= Seq::<T>::empty());
        }
    }

    /// True when nothing is queued.
    pub fn is_empty(&self) -> (r: bool)
        requires
            self.wf(),
        ensures
            r == (self@.len() == 0),
    {
        self.tail == self.head
    }

    /// True when every usable slot is taken: `len()` has reached `N - 1`.
    pub fn is_full(&self) -> (r: bool)
        requires
            self.wf(),
        ensures
            r == (self@.len() == N - 1),
    {
        let next_unmasked: u32 = self.head as u32 + 1;
        proof {
            lemma_capacity_mask(N, self.buf_mask as u16);
            lemma_mask_wrap(next_unmasked, self.buf_mask as u32, N as u32);
        }
        (next_unmasked & (self.buf_mask as u32)) == self.tail as u32
    }

    /// Number of queued elements.
    pub fn len(&self) -> (r: u8)
        requires
            self.wf(),
        ensures
            r as int == self@.len(),
    {
        if self.head >= self.tail {
            self.head - self.tail
        } else {
            (self.head as u32 + self.buf_mask as u32 + 1 - self.tail as u32) as u8
        }
    }

    /// Overwrite-checked enqueue for use outside the hot path: refuses the
    /// element instead of corrupting the buffer when it is full.
    pub fn try_enqueue(&mut self, value: T) -> (accepted: bool)
        requires
            old(self).wf(),
        ensures
            final(self).wf(),
            accepted == (old(self)@.len() < N - 1),
            accepted ==> final(self)@ == old(self)@.push(value),
            !accepted ==> *final(self) == *old(self),
    {
        if !self.is_full() {
            self.enqueue(value);
            true
        } else {
            false
        }
    }

    /// Underflow-checked dequeue for use outside the hot path: `None`
    /// instead of reading a stale slot when the buffer is empty.
    pub fn try_dequeue(&mut self) -> (value: Option<T>)
        requires
            old(self).wf(),
        ensures
            final(self).wf(),
            (value is Some) <==> old(self)@.len() > 0,
            value matches Some(v) ==> v == old(self)@[0] && final(self)@ == old(self)@.subrange(
                1,
                old(self)@.len() as int,
            ),
            value is None ==> *final(self) == *old(self),
    {
        if !self.is_empty() {
            Some(self.dequeue())
        } else {
            None
        }
    }
}

impl<T: Copy, const N: usize> View for RingBufferIndex8bit<T, N> {
    type V = Seq<T>;

    closed spec fn view(&self) -> Seq<T> {
        Seq::new(self.spec_len() as nat, |i: int| self.buffer@[self.slot(i)])
    }
}

/// One buffer operation, for stating laws over whole call sequences.
pub enum RingOp<T> {
    Enqueue(T),
    Dequeue,
    Clear,
}

/// Effect of one operation on the queued contents, exactly as the exec
/// operations' contracts state it: `enqueue` appends, `dequeue` drops the
/// front, `clear` empties.
pub open spec fn ring_op_contents<T>(s: Seq<T>, op: RingOp<T>) -> Seq<T> {
    match op {
        RingOp::Enqueue(v) => s.push(v),
        RingOp::Dequeue => s.subrange(1, s.len() as int),
        RingOp::Clear => Seq::<T>::empty(),
    }
}

/// Whether each operation of `ops`, applied in order starting from `s`,
/// respects the exec preconditions for a buffer of capacity `cap`: enqueue
/// only below `cap - 1` queued elements (no overwrap), dequeue only when
/// nonempty (no underflow).
pub open spec fn ring_ops_ok<T>(s: Seq<T>, ops: Seq<RingOp<T>>, cap: int) -> bool
    decreases ops.len(),
{
    ops.len() == 0 || {
        &&& match ops[0] {
            RingOp::Enqueue(_) => s.len() < cap - 1,
            RingOp::Dequeue => s.len() > 0,
            RingOp::Clear => true,
        }
        &&& ring_ops_ok(ring_op_contents(s, ops[0]), ops.drop_first(), cap)
    }
}

/// Queued contents after a whole sequence of operations.
pub open spec fn ring_run_contents<T>(s: Seq<T>, ops: Seq<RingOp<T>>) -> Seq<T>
    decreases ops.len(),
{
    if ops.len() == 0 {
        s
    } else {
        ring_run_contents(ring_op_contents(s, ops[0]), ops.drop_first())
    }
}

/// Values the dequeues among `ops` return, in order.
pub open spec fn ring_run_outputs<T>(s: Seq<T>, ops: Seq<RingOp<T>>) -> Seq<T>
    decreases ops.len(),
{
    if ops.len() == 0 {
        Seq::<T>::empty()
    } else {
        let rest = ring_run_outputs(ring_op_contents(s, ops[0]), ops.drop_first());
        match ops[0] {
            RingOp::Dequeue => seq![s[0]] + rest,
            _ => rest,
        }
    }
}

/// Number of enqueue operations in `ops`.
pub open spec fn count_enqueues<T>(ops: Seq<RingOp<T>>) -> int
    decreases ops.len(),
{
    if ops.len() == 0 {
        0
    } else {
        (match ops[0] {
            RingOp::Enqueue(_) => 1int,
            _ => 0int,
        }) + count_enqueues(ops.drop_first())
    }
}

/// Number of dequeue operations in `ops`.
pub open spec fn count_dequeues<T>(ops: Seq<RingOp<T>>) -> int
    decreases ops.len(),
{
    if ops.len() == 0 {
        0
    } else {
        (match ops[0] {
            RingOp::Dequeue => 1int,
            _ => 0int,
        }) + count_dequeues(ops.drop_first())
    }
}

/// Whether `ops` holds no clear operation.
pub open spec fn no_clear<T>(ops: Seq<RingOp<T>>) -> bool {
    forall|i: int| 0 <= i < ops.len() ==> !(#[trigger] ops[i] matches RingOp::Clear)
}

/// Length bookkeeping law: over any run of precondition-respecting
/// operations with no `clear` in it (that is, since the last `clear`), the
/// number of queued elements equals what it was plus the enqueues minus the
/// dequeues, and it never exceeds the buffer's `cap - 1` usable slots, so
/// the buffer reports full only at exactly `cap - 1` elements.
pub proof fn lemma_len_counts_operations<T>(s: Seq<T>, ops: Seq<RingOp<T>>, cap: int)
    requires
        ring_ops_ok(s, ops, cap),
        no_clear(ops),
        s.len() <= cap - 1,
    ensures
        ring_run_contents(s, ops).len() == s.len() + count_enqueues(ops) - count_dequeues(ops),
        ring_run_contents(s, ops).len() <= cap - 1,
    decreases ops.len(),
{
    if ops.len() > 0 {
        let s1 = ring_op_contents(s, ops[0]);
        assert(ops[0] == ops.drop_first().push(ops[0])[ops.drop_first().len() as int]) by {
            assert(ops =~= seq![ops[0]] + ops.drop_first());
        }
        assert(no_clear(ops.drop_first())) by {
            assert(forall|i: int|
                0 <= i < ops.drop_first().len() ==> #[trigger] ops.drop_first()[i] == ops[i + 1]);
        }
        lemma_len_counts_operations(s1, ops.drop_first(), cap);
    }
}

/// A run splits: when a whole concatenation respects the preconditions,
/// each half does, the second one from where the first one left off.
proof fn lemma_ops_ok_split<T>(s: Seq<T>, ops1: Seq<RingOp<T>>, ops2: Seq<RingOp<T>>, cap: int)
    requires
        ring_ops_ok(s, ops1 + ops2, cap),
    ensures
        ring_ops_ok(s, ops1, cap),
        ring_ops_ok(ring_run_contents(s, ops1), ops2, cap),
    decreases ops1.len(),
{
    if ops1.len() == 0 {
        assert(ops1 + ops2 =~= ops2);
    } else {
        assert((ops1 + ops2)[0] == ops1[0]);
        assert((ops1 + ops2).drop_first() =~= ops1.drop_first() + ops2);
        lemma_ops_ok_split(ring_op_contents(s, ops1[0]), ops1.drop_first(), ops2, cap);
    }
}

/// The bookkeeping law across a `clear`: however the buffer was used before
/// it, after the clear the length tracks exactly the enqueues minus the
/// dequeues that followed — that is, `len()` counts the operations since
/// the last `clear`.
pub proof fn lemma_len_counts_since_clear<T>(
    s: Seq<T>,
    before: Seq<RingOp<T>>,
    after: Seq<RingOp<T>>,
    cap: int,
)
    requires
        ring_ops_ok(s, before + seq![RingOp::Clear] + after, cap),
        no_clear(after),
        cap >= 1,
    ensures
        ring_run_contents(s, before + seq![RingOp::Clear] + after).len() == count_enqueues(after)
            - count_dequeues(after),
{
    let tail_ops = seq![RingOp::<T>::Clear] + after;
    assert(before + seq![RingOp::Clear] + after =~= before + tail_ops);
    lemma_ops_ok_split(s, before, tail_ops, cap);
    let mid = ring_run_contents(s, before);
    lemma_run_append(s, before, tail_ops, cap);
    assert(tail_ops[0] == RingOp::<T>::Clear);
    assert(tail_ops.drop_first() =~= after);
    assert(ring_run_contents(mid, tail_ops) == ring_run_contents(Seq::<T>::empty(), after));
    assert(ring_ops_ok(Seq::<T>::empty(), after, cap));
    lemma_len_counts_operations(Seq::<T>::empty(), after, cap);
}

/// The operations that enqueue each value of `vals` in order.
pub open spec fn enqueue_ops<T>(vals: Seq<T>) -> Seq<RingOp<T>> {
    Seq::new(vals.len(), |i: int| RingOp::Enqueue(vals[i]))
}

/// `n` dequeue operations.
pub open spec fn dequeue_ops<T>(n: nat) -> Seq<RingOp<T>> {
    Seq::new(n, |i: int| RingOp::Dequeue)
}

/// Enqueues append in order: running the enqueues of `vals` from contents
/// `s` is within the preconditions whenever everything fits, and leaves
/// `s + vals` queued, returning nothing.
proof fn lemma_enqueue_run<T>(s: Seq<T>, vals: Seq<T>, cap: int)
    requires
        s.len() + vals.len() <= cap - 1,
    ensures
        ring_ops_ok(s, enqueue_ops(vals), cap),
        ring_run_contents(s, enqueue_ops(vals)) == s + vals,
        ring_run_outputs(s, enqueue_ops(vals)) == Seq::<T>::empty(),
    decreases vals.len(),
{
    if vals.len() == 0 {
        assert(ring_run_contents(s, enqueue_ops(vals)) =~= s + vals);
    } else {
        let ops = enqueue_ops(vals);
        assert(ops.drop_first() =~= enqueue_ops(vals.drop_first()));
        lemma_enqueue_run(s.push(vals[0]), vals.drop_first(), cap);
        assert(s.push(vals[0]) + vals.drop_first() =~= s + vals);
    }
}

/// Dequeues drain in order: running `s.len()` dequeues from contents `s` is
/// within the preconditions, empties the buffer, and returns exactly `s`.
proof fn lemma_dequeue_run<T>(s: Seq<T>, cap: int)
    ensures
        ring_ops_ok(s, dequeue_ops(s.len()), cap),
        ring_run_contents(s, dequeue_ops(s.len())) == Seq::<T>::empty(),
        ring_run_outputs(s, dequeue_ops(s.len())) == s,
    decreases s.len(),
{
    if s.len() == 0 {
        assert(ring_run_contents(s, dequeue_ops(s.len())) =~= Seq::<T>::empty());
        assert(ring_run_outputs(s, dequeue_ops(s.len())) =~= s);
    } else {
        let ops = dequeue_ops::<T>(s.len());
        let rest = s.subrange(1, s.len() as int);
        assert(ops.drop_first() =~= dequeue_ops(rest.len()));
        lemma_dequeue_run(rest, cap);
        assert(seq![s[0]] + rest =~= s);
    }
}

/// Runs compose: a run over `ops1 + ops2` is the run over `ops1` continued
/// by the run over `ops2`, with the outputs concatenated.
proof fn lemma_run_append<T>(s: Seq<T>, ops1: Seq<RingOp<T>>, ops2: Seq<RingOp<T>>, cap: int)
    requires
        ring_ops_ok(s, ops1, cap),
        ring_ops_ok(ring_run_contents(s, ops1), ops2, cap),
    ensures
        ring_ops_ok(s, ops1 + ops2, cap),
        ring_run_contents(s, ops1 + ops2) == ring_run_contents(ring_run_contents(s, ops1), ops2),
        ring_run_outputs(s, ops1 + ops2) == ring_run_outputs(s, ops1) + ring_run_outputs(
            ring_run_contents(s, ops1),
            ops2,
        ),
    decreases ops1.len(),
{
    if ops1.len() == 0 {
        assert(ops1 + ops2 =~= ops2);
        assert(ring_run_outputs(s, ops1 + ops2) =~= ring_run_outputs(s, ops1) + ring_run_outputs(
            ring_run_contents(s, ops1),
            ops2,
        ));
    } else {
        let s1 = ring_op_contents(s, ops1[0]);
        assert((ops1 + ops2).drop_first() =~= ops1.drop_first() + ops2);
        lemma_run_append(s1, ops1.drop_first(), ops2, cap);
    }
}

/// Order preservation: pushing any sequence of values that fits without
/// overwrap into an empty buffer and then dequeuing them all reproduces the
/// same sequence, in order, and leaves the buffer empty. The operation
/// model here is exactly what the contracts of `enqueue` and `dequeue`
/// state of the exec buffers.
pub proof fn lemma_fifo_order<T>(vals: Seq<T>, cap: int)
    requires
        vals.len() <= cap - 1,
    ensures
        ring_ops_ok(Seq::<T>::empty(), enqueue_ops(vals) + dequeue_ops(vals.len()), cap),
        ring_run_outputs(Seq::<T>::empty(), enqueue_ops(vals) + dequeue_ops(vals.len())) == vals,
        ring_run_contents(Seq::<T>::empty(), enqueue_ops(vals) + dequeue_ops(vals.len()))
            == Seq::<T>::empty(),
{
    let e = Seq::<T>::empty();
    lemma_enqueue_run(e, vals, cap);
    assert(e + vals =~= vals);
    lemma_dequeue_run(vals, cap);
    lemma_run_append(e, enqueue_ops(vals), dequeue_ops(vals.len()), cap);
    assert(e + vals =~= vals);
}

} // verus!
