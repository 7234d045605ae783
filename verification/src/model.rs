//! Mathematical model of the bip buffer.
//!
//! [`BufferModel`] is the abstract state every executable operation is
//! specified against: the backing bytes as a sequence, the two committed
//! blocks `a` and `b`, and the outstanding write and read reservations.
//! The spec functions here define well-formedness, the committed content,
//! the free-run selection rule, and the state transition of each operation.

use vstd::prelude::*;

verus! {

/// A contiguous byte range `[index, index + size)` of the backing region.
/// `size == 0` means the block is empty and `index` is pinned to `0`.
#[verifier::ext_equal]
pub struct BlockModel {
    pub index: nat,
    pub size: nat,
}

/// The empty (inactive) block.
pub open spec fn empty_block() -> BlockModel {
    BlockModel { index: 0, size: 0 }
}

/// Abstract state of a bip buffer.
#[verifier::ext_equal]
pub struct BufferModel {
    /// Contents of the backing region.
    pub bytes: Seq<u8>,
    /// Allocation granularity; capacities are multiples of it.
    pub page_size: nat,
    /// Primary committed region; consumers read from it first.
    pub a: BlockModel,
    /// Secondary committed region; exists only after a wraparound, always at
    /// index 0, never overtaking `a`.
    pub b: BlockModel,
    /// Outstanding (reserved but uncommitted) write region.
    pub write_r: BlockModel,
    /// Outstanding (reserved but uncommitted) read region.
    pub read_r: BlockModel,
}

/// The smaller of two naturals.
pub open spec fn min_nat(x: nat, y: nat) -> nat {
    if x <= y {
        x
    } else {
        y
    }
}

/// `size` rounded up to the next multiple of `page`.
pub open spec fn round_up(size: nat, page: nat) -> nat
    recommends
        page > 0,
{
    if size % page == 0 {
        size
    } else {
        ((size + page - size % page)) as nat
    }
}

/// `bytes` with the range starting at `at` replaced by `data`; everything
/// else, and the length, unchanged.
pub open spec fn overwrite(bytes: Seq<u8>, at: int, data: Seq<u8>) -> Seq<u8> {
    Seq::new(bytes.len(), |i: int| if at <= i < at + data.len() { data[i - at] } else { bytes[i] })
}

impl BufferModel {
    /// Capacity of the backing region.
    pub open spec fn cap(self) -> nat {
        self.bytes.len()
    }

    /// Committed, unread byte count.
    pub open spec fn used(self) -> nat {
        self.a.size + self.b.size
    }

    /// The committed bytes in reading order: `a`'s range first, then `b`'s.
    pub open spec fn content(self) -> Seq<u8> {
        self.bytes.subrange(self.a.index as int, (self.a.index + self.a.size) as int)
            + self.bytes.subrange(0, self.b.size as int)
    }

    /// Well-formedness of the block bookkeeping.
    ///
    /// `a` never wraps; `b` sits at the front and never overtakes `a`; an
    /// outstanding write reservation lies either directly after `a`'s end
    /// (tail) or directly after `b`'s end in the front gap; an outstanding
    /// read reservation is a prefix of `a`.
    pub open spec fn wf(self) -> bool {
        &&& self.page_size > 0
        &&& self.a.index + self.a.size <= self.bytes.len()
        &&& (self.a.size == 0 ==> self.a.index == 0)
        &&& self.b.index == 0
        &&& (self.b.size > 0 ==> self.a.size > 0 && self.b.size <= self.a.index)
        &&& (self.write_r.size == 0 ==> self.write_r.index == 0)
        &&& (self.write_r.size > 0 ==> {
            &&& self.write_r.index + self.write_r.size <= self.bytes.len()
            &&& ({
                ||| (self.b.size == 0 && (self.a.size > 0 ==> self.write_r.index == self.a.index
                    + self.a.size))
                ||| (self.write_r.index == self.b.size && self.write_r.index + self.write_r.size
                    <= self.a.index)
            })
        })
        &&& (self.read_r.size == 0 ==> self.read_r.index == 0)
        &&& (self.read_r.size > 0 ==> self.read_r.index == self.a.index && self.read_r.size
            <= self.a.size)
    }

    /// The single free run a write reservation is carved from, in priority
    /// order: the gap between `b`'s end and `a` once `b` exists; otherwise
    /// the tail after `a` when it is at least as large as the front before
    /// `a`; otherwise the front.
    pub open spec fn free_run(self) -> BlockModel {
        if self.b.size > 0 {
            BlockModel { index: self.b.size, size: ((self.a.index - self.b.size)) as nat }
        } else {
            let tail = ((self.bytes.len() - (self.a.index + self.a.size))) as nat;
            let front = self.a.index;
            if tail >= front {
                BlockModel { index: self.a.index + self.a.size, size: tail }
            } else {
                BlockModel { index: 0, size: front }
            }
        }
    }

    /// Bytes granted to a best-effort write reservation of `size` bytes:
    /// none while a write reservation is outstanding, else at most the free
    /// run.
    pub open spec fn write_grant(self, size: nat) -> nat {
        if self.write_r.size > 0 {
            0
        } else {
            min_nat(size, self.free_run().size)
        }
    }

    /// Bytes granted to a best-effort read reservation of `size` bytes:
    /// none while a read reservation is outstanding, else at most `a`'s
    /// committed bytes (one reservation never crosses into `b`).
    pub open spec fn read_grant(self, size: nat) -> nat {
        if self.read_r.size > 0 {
            0
        } else {
            min_nat(size, self.a.size)
        }
    }

    /// State after committing `c` bytes of the outstanding write
    /// reservation: the bytes are folded into `a` when the reservation sat
    /// at `a`'s end (or the buffer was empty), into `b` otherwise; the
    /// reservation is cleared.
    pub open spec fn write_commit_tr(self, c: nat) -> BufferModel
        recommends
            c <= self.write_r.size,
    {
        let cleared = BufferModel { write_r: empty_block(), ..self };
        if c == 0 {
            cleared
        } else if self.a.size == 0 && self.b.size == 0 {
            BufferModel { a: BlockModel { index: self.write_r.index, size: c }, ..cleared }
        } else if self.write_r.index == self.a.index + self.a.size {
            BufferModel { a: BlockModel { index: self.a.index, size: self.a.size + c }, ..cleared }
        } else {
            BufferModel { b: BlockModel { index: 0, size: self.b.size + c }, ..cleared }
        }
    }

    /// State after committing `c` bytes of the outstanding read
    /// reservation: `a` is advanced by `c`; when `a` empties, `b` is rotated
    /// into `a` at index 0; the reservation is cleared.
    pub open spec fn read_commit_tr(self, c: nat) -> BufferModel
        recommends
            c <= self.read_r.size,
            self.wf(),
    {
        let a1 = BlockModel { index: self.a.index + c, size: ((self.a.size - c)) as nat };
        let cleared = BufferModel { read_r: empty_block(), ..self };
        if a1.size == 0 {
            if self.b.size > 0 {
                BufferModel {
                    a: BlockModel { index: 0, size: self.b.size },
                    b: empty_block(),
                    ..cleared
                }
            } else {
                BufferModel { a: empty_block(), ..cleared }
            }
        } else {
            BufferModel { a: a1, ..cleared }
        }
    }

    /// State and result of the composite write of `data`: reserve as much of
    /// `data` as a single free run holds, copy it there, commit it. Returns
    /// the unchanged state and `-1` when nothing can be reserved.
    pub open spec fn write_tr(self, data: Seq<u8>) -> (BufferModel, int) {
        let n = self.write_grant(data.len());
        if n == 0 {
            (self, -1)
        } else {
            let idx = self.free_run().index;
            let reserved = BufferModel {
                bytes: overwrite(self.bytes, idx as int, data.take(n as int)),
                write_r: BlockModel { index: idx, size: n },
                ..self
            };
            (reserved.write_commit_tr(n), n as int)
        }
    }

    /// State, bytes delivered, and result of the composite read of up to
    /// `size` bytes: reserve up to `size` bytes of `a`, copy them out,
    /// commit them. Returns the unchanged state, no bytes and `-1` when
    /// nothing can be reserved.
    pub open spec fn read_tr(self, size: nat) -> (BufferModel, Seq<u8>, int) {
        let n = self.read_grant(size);
        if n == 0 {
            (self, Seq::<u8>::empty(), -1)
        } else {
            let out = self.bytes.subrange(self.a.index as int, (self.a.index + n) as int);
            let reserved = BufferModel {
                read_r: BlockModel { index: self.a.index, size: n },
                ..self
            };
            (reserved.read_commit_tr(n), out, n as int)
        }
    }

    /// State after a successful grow to `round_up(new_size, page_size)`
    /// bytes: the committed content is compacted to the front of a fresh
    /// zeroed region, `a` covers all of it, `b` is empty.
    pub open spec fn grow_tr(self, new_size: nat) -> BufferModel
        recommends
            self.wf(),
            self.write_r.size == 0,
            self.read_r.size == 0,
    {
        let rounded = round_up(new_size, self.page_size);
        let content = self.content();
        BufferModel {
            bytes: Seq::new(rounded, |i: int| if i < content.len() { content[i] } else { 0u8 }),
            a: BlockModel { index: 0, size: self.used() },
            b: empty_block(),
            ..self
        }
    }
}

/// `round_up` yields the least multiple of `page` that is at least
/// `size`: capacities are conventional page-multiple roundings.
pub proof fn lemma_round_up_properties(size: nat, page: nat)
    requires
        page > 0,
    ensures
        round_up(size, page) % page == 0,
        size <= round_up(size, page) < size + page,
{
    if size % page != 0 {
        let q = size as int / page as int;
        vstd::arithmetic::div_mod::lemma_fundamental_div_mod(size as int, page as int);
        assert(page as int * (q + 1) == page as int * q + page as int) by (nonlinear_arith);
        assert(round_up(size, page) == page as int * (q + 1));
        vstd::arithmetic::div_mod::lemma_mod_multiples_basic(q + 1, page as int);
    }
}

/// Committing `c` reserved bytes keeps the state well-formed, grows the
/// committed count by exactly `c`, and appends exactly the reservation's
/// first `c` backing bytes to the committed content.
pub proof fn lemma_commit_content(m: BufferModel, c: nat)
    requires
        m.wf(),
        c <= m.write_r.size,
    ensures
        m.write_commit_tr(c).wf(),
        m.write_commit_tr(c).used() == m.used() + c,
        m.write_commit_tr(c).bytes == m.bytes,
        m.write_commit_tr(c).content() == m.content() + m.bytes.subrange(
            m.write_r.index as int,
            (m.write_r.index + c) as int,
        ),
{
    let t = m.write_commit_tr(c);
    let w = m.bytes.subrange(m.write_r.index as int, (m.write_r.index + c) as int);
    if c == 0 {
        assert(t.content() =~= m.content() + w);
    } else if m.a.size == 0 && m.b.size == 0 {
        assert(t.content() =~= m.content() + w);
    } else if m.write_r.index == m.a.index + m.a.size {
        assert(m.b.size == 0);
        assert(t.content() =~= m.content() + w);
    } else {
        assert(m.write_r.index == m.b.size && m.write_r.index + m.write_r.size <= m.a.index);
        assert(t.content() =~= m.content() + w);
    }
}

/// Committing `c` reserved read bytes keeps the state well-formed, shrinks
/// the committed count by exactly `c`, and drops exactly the first `c`
/// bytes of the committed content.
pub proof fn lemma_read_commit_content(m: BufferModel, c: nat)
    requires
        m.wf(),
        c <= m.read_r.size,
    ensures
        m.read_commit_tr(c).wf(),
        m.read_commit_tr(c).used() + c == m.used(),
        m.read_commit_tr(c).bytes == m.bytes,
        m.read_commit_tr(c).content() == m.content().skip(c as int),
{
    let t = m.read_commit_tr(c);
    if c > 0 {
        assert(m.read_r.index == m.a.index && c <= m.a.size);
    }
    assert(t.content() =~= m.content().skip(c as int));
}

} // verus!
