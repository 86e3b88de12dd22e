use vstd::prelude::*;

verus! {

/// One buffer of a ring: a fixed-capacity byte buffer and the length of the
/// payload that it holds.
pub struct Slot {
    pub buf: Vec<u8>,
    pub len: u16,
}

impl Slot {
    /// The capacity of the slot's buffer.
    pub open spec fn capacity(&self) -> nat {
        self.buf@.len()
    }

    /// The payload is never longer than the buffer.
    pub open spec fn wf(&self) -> bool {
        self.len as nat <= self.capacity()
    }

    /// The bytes of the payload.
    pub open spec fn payload(&self) -> Seq<u8> {
        self.buf@.subrange(0, self.len as int)
    }

    pub fn new(buf: Vec<u8>, len: u16) -> (r: Slot)
        requires
            len as nat <= buf@.len(),
        ensures
            r.buf@ == buf@,
            r.len == len,
            r.wf(),
    {
        Slot { buf, len }
    }

    pub fn get_len(&self) -> (r: u16)
        ensures
            r == self.len,
    {
        self.len
    }

    /// Declares how many bytes of the buffer are the payload.
    pub fn set_len(&mut self, len: u16)
        requires
            len as nat <= old(self).capacity(),
        ensures
            final(self).buf@ == old(self).buf@,
            final(self).len == len,
    {
        self.len = len;
    }

    /// Writes the payload of `src` at the front of this slot's buffer and
    /// takes over its length; the bytes behind the payload stay as they were.
    pub fn copy_from(&mut self, src: &Slot)
        requires
            src.wf(),
            src.len as nat <= old(self).capacity(),
        ensures
            copied_into(*old(self), *final(self), *src),
    {
        let n = src.len as usize;
        let mut k: usize = 0;
        while k < n
            invariant
                n == src.len as usize,
                src.wf(),
                n <= old(self).buf@.len(),
                k <= n,
                self.buf@.len() == old(self).buf@.len(),
                forall|i: int| 0 <= i < k ==> #[trigger] self.buf@[i] == src.buf@[i],
                forall|i: int| k <= i < self.buf@.len() ==> #[trigger] self.buf@[i] == old(self).buf@[i],
            decreases n - k,
        {
            self.buf.set(k, src.buf[k]);
            k = k + 1;
        }
        self.len = src.len;
        assert(self.buf@ =~= src.payload() + old(self).buf@.subrange(n as int, old(self).buf@.len() as int));
    }
}

/// `after` is `before` with the payload of `src` written into it.
pub open spec fn copied_into(before: Slot, after: Slot, src: Slot) -> bool {
    &&& after.len == src.len
    &&& after.buf@ == src.payload() + before.buf@.subrange(src.len as int, before.buf@.len() as int)
}

/// A circular sequence of slots. The slots from `cur` up to, not including,
/// `tail` are the ones handed to this side: received frames on a receive
/// ring, free buffers on a transmit ring. `head` is the position up to which
/// the slots have been given back to the I/O layer.
pub struct Ring {
    pub slots: Vec<Slot>,
    pub head: usize,
    pub cur: usize,
    pub tail: usize,
}

impl Ring {
    pub open spec fn size(&self) -> int {
        self.slots@.len() as int
    }

    pub open spec fn wf(&self) -> bool {
        &&& self.size() > 0
        &&& self.head < self.size()
        &&& self.cur < self.size()
        &&& self.tail < self.size()
        &&& forall|j: int| 0 <= j < self.size() ==> (#[trigger] self.slots@[j]).wf()
    }

    /// The number of slots from `cur` up to `tail`.
    pub open spec fn avail(&self) -> int {
        if self.cur <= self.tail {
            self.tail - self.cur
        } else {
            self.tail + self.size() - self.cur
        }
    }

    /// The index of the slot `k` places after `cur`, for `k` below the size.
    pub open spec fn pos(&self, k: int) -> int {
        if self.cur + k < self.size() {
            self.cur + k
        } else {
            self.cur + k - self.size()
        }
    }

    /// The slot `k` places after `cur`.
    pub open spec fn slot_at(&self, k: int) -> Slot {
        self.slots@[self.pos(k)]
    }

    /// A ring over `slots` whose available part runs from `cur` to `tail`.
    pub fn new(slots: Vec<Slot>, cur: usize, tail: usize) -> (r: Ring)
        requires
            cur < slots@.len(),
            tail < slots@.len(),
            forall|j: int| 0 <= j < slots@.len() ==> (#[trigger] slots@[j]).wf(),
        ensures
            r.slots@ == slots@,
            r.head == cur,
            r.cur == cur,
            r.tail == tail,
            r.wf(),
    {
        Ring { slots, head: cur, cur, tail }
    }

    /// Whether no slot is left between `cur` and `tail`.
    pub fn is_exhausted(&self) -> (r: bool)
        requires
            self.wf(),
        ensures
            r == (self.avail() == 0),
    {
        self.cur == self.tail
    }

    /// The number of slots between `cur` and `tail`.
    pub fn available(&self) -> (r: usize)
        requires
            self.wf(),
        ensures
            r == self.avail(),
    {
        if self.cur <= self.tail {
            self.tail - self.cur
        } else {
            self.tail + (self.slots.len() - self.cur)
        }
    }

    /// The index of the slot after `i`, wrapping at the end of the ring.
    pub fn next_index(&self, i: usize) -> (r: usize)
        requires
            i < self.size(),
        ensures
            r == if i + 1 < self.size() { i + 1 } else { 0 },
    {
        if i < self.slots.len() - 1 {
            i + 1
        } else {
            0
        }
    }

    /// Hands the slots before `cur` over to the I/O layer.
    pub fn head_from_cur(&mut self)
        ensures
            final(self).slots == old(self).slots,
            final(self).cur == old(self).cur,
            final(self).tail == old(self).tail,
            final(self).head == old(self).cur,
    {
        self.head = self.cur;
    }
}

/// The rings of one side of an endpoint, in ring order.
pub struct RingSet {
    pub rings: Vec<Ring>,
}

impl RingSet {
    pub fn new(rings: Vec<Ring>) -> (r: RingSet)
        ensures
            r.rings@ == rings@,
    {
        RingSet { rings }
    }

    /// The number of rings.
    pub fn len(&self) -> (r: usize)
        ensures
            r == self.rings@.len(),
    {
        self.rings.len()
    }
}

/// Every ring of `rs` is well formed.
pub open spec fn all_wf(rs: Seq<Ring>) -> bool {
    forall|i: int| 0 <= i < rs.len() ==> (#[trigger] rs[i]).wf()
}

/// The number of available slots in the rings before ring `i`: the position
/// in the flattened stream at which ring `i` starts.
pub open spec fn prefix(rs: Seq<Ring>, i: int) -> int
    decreases i,
{
    if i <= 0 {
        0
    } else {
        prefix(rs, i - 1) + rs[i - 1].avail()
    }
}

/// The number of available slots in all the rings.
pub open spec fn total(rs: Seq<Ring>) -> int {
    prefix(rs, rs.len() as int)
}

/// How many slots of ring `i` the first `c` slots of the flattened stream take.
pub open spec fn taken(rs: Seq<Ring>, i: int, c: int) -> int {
    let t = c - prefix(rs, i);
    if t <= 0 {
        0
    } else if t >= rs[i].avail() {
        rs[i].avail()
    } else {
        t
    }
}

pub proof fn lemma_prefix_mono(rs: Seq<Ring>, i: int, j: int)
    requires
        all_wf(rs),
        0 <= i <= j <= rs.len(),
    ensures
        prefix(rs, i) <= prefix(rs, j),
    decreases j - i,
{
    if i < j {
        lemma_prefix_mono(rs, i, j - 1);
        assert(rs[j - 1].wf());
    }
}

/// A position of the flattened stream lies in exactly one ring.
pub proof fn lemma_locate_unique(rs: Seq<Ring>, a: int, x: int, b: int, y: int)
    requires
        all_wf(rs),
        0 <= a < rs.len(),
        0 <= b < rs.len(),
        0 <= x < rs[a].avail(),
        0 <= y < rs[b].avail(),
        prefix(rs, a) + x == prefix(rs, b) + y,
    ensures
        a == b,
        x == y,
{
    if a < b {
        lemma_prefix_mono(rs, a + 1, b);
    } else if b < a {
        lemma_prefix_mono(rs, b + 1, a);
    }
}

/// Taking one more slot of the stream, at ring `k`, takes one more slot of
/// ring `k` and no other.
pub proof fn lemma_taken_step(rs: Seq<Ring>, k: int, c: int)
    requires
        all_wf(rs),
        0 <= k < rs.len(),
        prefix(rs, k) <= c < prefix(rs, k + 1),
    ensures
        taken(rs, k, c) == c - prefix(rs, k),
        taken(rs, k, c + 1) == taken(rs, k, c) + 1,
        forall|i: int| 0 <= i < rs.len() && i != k ==> taken(rs, i, c + 1) == taken(rs, i, c),
{
    assert forall|i: int| 0 <= i < rs.len() && i != k implies taken(rs, i, c + 1) == taken(rs, i, c) by {
        if i < k {
            lemma_prefix_mono(rs, i + 1, k);
        } else {
            lemma_prefix_mono(rs, k + 1, i);
        }
    }
}

} // verus!
