//! The executable bip buffer.
//!
//! [`BipBuffer`] owns one backing region and four block descriptors. Every
//! operation is specified against the abstract state in [`crate::model`]:
//! `self@` is the current [`BufferModel`], and each mutating operation's
//! contract pins the new state to the matching model transition.

use vstd::pervasive::VecAdditionalExecFns;
use vstd::prelude::*;

use crate::model::{
    empty_block, lemma_commit_content, lemma_read_commit_content, lemma_round_up_properties,
    overwrite, round_up, BlockModel, BufferModel,
};

verus! {

/// Default allocation granularity, used when a page size of zero is given.
pub const BIP_BUFFER_PAGE_SIZE: usize = 4096;

/// A contiguous byte range `[index, index + size)` inside the backing
/// region. A `size` of zero means the block is empty.
pub struct BipBlock {
    pub index: usize,
    pub size: usize,
}

impl View for BipBlock {
    type V = BlockModel;

    open spec fn view(&self) -> BlockModel {
        BlockModel { index: self.index as nat, size: self.size as nat }
    }
}

impl Default for BipBlock {
    /// The empty block.
    fn default() -> (r: Self)
        ensures
            r@ == empty_block(),
    {
        BipBlock { index: 0, size: 0 }
    }
}

impl BipBlock {
    /// Resets the block to empty.
    pub fn clear(&mut self)
        ensures
            final(self)@ == empty_block(),
    {
        self.index = 0;
        self.size = 0;
    }

    /// Copies `src`'s range into `dst`.
    pub fn copy(dst: &mut Self, src: &Self)
        ensures
            final(dst)@ == src@,
    {
        dst.index = src.index;
        dst.size = src.size;
    }
}

/// A bipartite circular buffer over one owned backing region.
pub struct BipBuffer {
    buffer: Vec<u8>,
    page_size: usize,
    block_a: BipBlock,
    block_b: BipBlock,
    read_r: BipBlock,
    write_r: BipBlock,
}

impl View for BipBuffer {
    type V = BufferModel;

    closed spec fn view(&self) -> BufferModel {
        BufferModel {
            bytes: self.buffer@,
            page_size: self.page_size as nat,
            a: self.block_a@,
            b: self.block_b@,
            write_r: self.write_r@,
            read_r: self.read_r@,
        }
    }
}

/// A zeroed vector of length `n`.
fn zero_vec(n: usize) -> (r: Vec<u8>)
    ensures
        r@ == Seq::new(n as nat, |i: int| 0u8),
{
    let mut v: Vec<u8> = Vec::new();
    let mut i: usize = 0;
    while i < n
        invariant
            i <= n,
            v@ =~= Seq::new(i as nat, |k: int| 0u8),
        decreases n - i,
    {
        v.push(0u8);
        i = i + 1;
    }
    proof {
        assert(v@ =~= Seq::new(n as nat, |i: int| 0u8));
    }
    v
}

impl BipBuffer {
    /// Creates a buffer of `buffer_size` bytes, rounded up to the next
    /// multiple of `page_size` (`BIP_BUFFER_PAGE_SIZE` when `page_size` is
    /// zero). Fails on a requested capacity below one byte, or when the
    /// rounded capacity cannot be represented.
    pub fn new(buffer_size: usize, page_size: usize) -> (r: Option<BipBuffer>)
        ensures
            ({
                let page = if page_size == 0 {
                    BIP_BUFFER_PAGE_SIZE as nat
                } else {
                    page_size as nat
                };
                &&& (r is Some <==> (buffer_size >= 1 && round_up(buffer_size as nat, page)
                    <= usize::MAX as nat))
                &&& (r matches Some(buf) ==> {
                    &&& buf@.wf()
                    &&& buf@.page_size == page
                    &&& buf@.bytes == Seq::new(buf@.cap(), |i: int| 0u8)
                    &&& buf@.cap() == round_up(buffer_size as nat, page)
                    &&& buffer_size <= buf@.cap() < buffer_size + page
                    &&& buf@.cap() % page == 0
                    &&& buf@.used() == 0
                    &&& buf@.a == empty_block()
                    &&& buf@.b == empty_block()
                    &&& buf@.write_r == empty_block()
                    &&& buf@.read_r == empty_block()
                })
            }),
    {
        let page = if page_size == 0 {
            BIP_BUFFER_PAGE_SIZE
        } else {
            page_size
        };
        let mut buf = BipBuffer {
            buffer: Vec::new(),
            page_size: page,
            block_a: BipBlock { index: 0, size: 0 },
            block_b: BipBlock { index: 0, size: 0 },
            read_r: BipBlock { index: 0, size: 0 },
            write_r: BipBlock { index: 0, size: 0 },
        };
        if buf.alloc_buffer(buffer_size) {
            proof {
                lemma_round_up_properties(buffer_size as nat, page as nat);
            }
            Some(buf)
        } else {
            None
        }
    }

    /// Resets all four blocks to empty without releasing or erasing the
    /// backing region: the buffer forgets its committed data and any
    /// outstanding reservations.
    pub fn clear(&mut self)
        requires
            old(self)@.wf(),
        ensures
            final(self)@ == (BufferModel {
                a: empty_block(),
                b: empty_block(),
                write_r: empty_block(),
                read_r: empty_block(),
                ..old(self)@
            }),
            final(self)@.wf(),
            final(self)@.used() == 0,
    {
        self.block_a.clear();
        self.block_b.clear();
        self.read_r.clear();
        self.write_r.clear();
    }

    /// Replaces the backing region with a fresh zeroed one of `size` bytes
    /// rounded up to the next multiple of the page size. Only meaningful on
    /// a buffer holding no data and no reservations. Fails, leaving the
    /// buffer unchanged, on a size below one byte or when the rounded size
    /// cannot be represented.
    pub fn alloc_buffer(&mut self, size: usize) -> (r: bool)
        requires
            old(self)@.wf(),
            old(self)@.used() == 0,
            old(self)@.write_r.size == 0,
            old(self)@.read_r.size == 0,
        ensures
            r == (size >= 1 && round_up(size as nat, old(self)@.page_size) <= usize::MAX as nat),
            !r ==> *final(self) == *old(self),
            r ==> final(self)@ == (BufferModel {
                bytes: Seq::new(round_up(size as nat, old(self)@.page_size), |i: int| 0u8),
                ..old(self)@
            }),
            final(self)@.wf(),
    {
        if size < 1 {
            return false;
        }
        let rem = size % self.page_size;
        let rounded = if rem == 0 {
            size
        } else {
            let pad = self.page_size - rem;
            if size > usize::MAX - pad {
                return false;
            }
            size + pad
        };
        self.buffer = zero_vec(rounded);
        proof {
            assert(final(self)@ =~= (BufferModel {
                bytes: Seq::new(round_up(size as nat, old(self)@.page_size), |i: int| 0u8),
                ..old(self)@
            }));
        }
        true
    }

    /// Releases the backing region (the capacity drops to zero) and clears
    /// all blocks.
    pub fn free_buffer(&mut self)
        requires
            old(self)@.wf(),
        ensures
            final(self)@ == (BufferModel {
                bytes: Seq::<u8>::empty(),
                a: empty_block(),
                b: empty_block(),
                write_r: empty_block(),
                read_r: empty_block(),
                ..old(self)@
            }),
            final(self)@.wf(),
            final(self)@.cap() == 0,
            final(self)@.used() == 0,
    {
        self.clear();
        self.buffer = Vec::new();
        proof {
            assert(final(self)@ =~= (BufferModel {
                bytes: Seq::<u8>::empty(),
                a: empty_block(),
                b: empty_block(),
                write_r: empty_block(),
                read_r: empty_block(),
                ..old(self)@
            }));
        }
    }

    /// Committed, unread byte count: `block_a`'s and `block_b`'s sizes
    /// together.
    pub fn used_size(&self) -> (r: usize)
        requires
            self@.wf(),
        ensures
            r == self@.used(),
    {
        let cap = self.buffer.len();
        proof {
            assert(self@.used() <= cap);
        }
        self.block_a.size + self.block_b.size
    }

    /// Current capacity of the backing region.
    pub fn buffer_size(&self) -> (r: usize)
        requires
            self@.wf(),
        ensures
            r == self@.cap(),
    {
        self.buffer.len()
    }

    /// The start and size of the free run a write reservation would be
    /// carved from.
    fn free_run_exec(&self) -> (r: (usize, usize))
        requires
            self@.wf(),
        ensures
            r.0 == self@.free_run().index,
            r.1 == self@.free_run().size,
    {
        if self.block_b.size > 0 {
            (self.block_b.size, self.block_a.index - self.block_b.size)
        } else {
            let tail = self.buffer.len() - (self.block_a.index + self.block_a.size);
            let front = self.block_a.index;
            if tail >= front {
                (self.block_a.index + self.block_a.size, tail)
            } else {
                (0, front)
            }
        }
    }

    /// Reserves exactly `size` bytes for writing, returning the start index
    /// of the reservation. Returns `None`, changing nothing, when a write
    /// reservation is already outstanding, when `size` is zero, or when no
    /// free run of at least `size` contiguous bytes exists.
    pub fn write_reserve(&mut self, size: usize) -> (r: Option<usize>)
        requires
            old(self)@.wf(),
        ensures
            final(self)@.wf(),
            (r is Some <==> (old(self)@.write_r.size == 0 && size > 0 && old(
                self,
            )@.free_run().size >= size)),
            r is None ==> *final(self) == *old(self),
            r matches Some(idx) ==> {
                &&& idx == old(self)@.free_run().index
                &&& final(self)@ == (BufferModel {
                    write_r: BlockModel { index: idx as nat, size: size as nat },
                    ..old(self)@
                })
            },
    {
        if self.write_r.size > 0 || size == 0 {
            return None;
        }
        let (idx, avail) = self.free_run_exec();
        if avail < size {
            return None;
        }
        self.write_r.index = idx;
        self.write_r.size = size;
        Some(idx)
    }

    /// Reserves up to `size` bytes for writing: as much of the single free
    /// run as `size` asks for. Returns the reservation's start index and
    /// the byte count actually reserved, which is zero — with nothing
    /// changed — when a write reservation is already outstanding or no free
    /// byte exists.
    pub fn write_try_reserve(&mut self, size: usize) -> (r: (usize, usize))
        requires
            old(self)@.wf(),
        ensures
            final(self)@.wf(),
            r.1 == old(self)@.write_grant(size as nat),
            r.1 == 0 ==> r.0 == 0 && *final(self) == *old(self),
            r.1 > 0 ==> {
                &&& r.0 == old(self)@.free_run().index
                &&& final(self)@ == (BufferModel {
                    write_r: BlockModel { index: r.0 as nat, size: r.1 as nat },
                    ..old(self)@
                })
            },
    {
        if self.write_r.size > 0 {
            return (0, 0);
        }
        let (idx, avail) = self.free_run_exec();
        let n = if size <= avail {
            size
        } else {
            avail
        };
        if n == 0 {
            return (0, 0);
        }
        self.write_r.index = idx;
        self.write_r.size = n;
        (idx, n)
    }

    /// Commits `size` bytes of the outstanding write reservation — never
    /// more than was reserved. The bytes are folded into `block_a` when the
    /// reservation sat at its end (or the buffer held nothing), into
    /// `block_b` otherwise; the reservation is cleared. Committing zero
    /// bytes only clears the reservation.
    pub fn write_commit(&mut self, size: usize)
        requires
            old(self)@.wf(),
            size <= old(self)@.write_r.size,
        ensures
            final(self)@ == old(self)@.write_commit_tr(size as nat),
            final(self)@.wf(),
            final(self)@.used() == old(self)@.used() + size,
            final(self)@.content() == old(self)@.content() + old(self)@.bytes.subrange(
                old(self)@.write_r.index as int,
                (old(self)@.write_r.index + size) as int,
            ),
    {
        let cap = self.buffer.len();
        proof {
            assert(old(self)@.a.index + old(self)@.a.size <= cap);
        }
        if size > 0 {
            if self.block_a.size == 0 && self.block_b.size == 0 {
                self.block_a.index = self.write_r.index;
                self.block_a.size = size;
            } else if self.write_r.index == self.block_a.index + self.block_a.size {
                self.block_a.size = self.block_a.size + size;
            } else {
                self.block_b.size = self.block_b.size + size;
            }
        }
        self.write_r.clear();
        proof {
            assert(final(self)@ =~= old(self)@.write_commit_tr(size as nat));
            lemma_commit_content(old(self)@, size as nat);
        }
    }

    /// Reserves exactly `size` committed bytes for reading, starting at
    /// `block_a`'s head; a reservation never crosses from `block_a` into
    /// `block_b`. Returns `None`, changing nothing, when a read reservation
    /// is already outstanding, when `size` is zero, or when `block_a` holds
    /// fewer than `size` bytes.
    pub fn read_reserve(&mut self, size: usize) -> (r: Option<usize>)
        requires
            old(self)@.wf(),
        ensures
            final(self)@.wf(),
            (r is Some <==> (old(self)@.read_r.size == 0 && size > 0 && old(self)@.a.size
                >= size)),
            r is None ==> *final(self) == *old(self),
            r matches Some(idx) ==> {
                &&& idx == old(self)@.a.index
                &&& final(self)@ == (BufferModel {
                    read_r: BlockModel { index: idx as nat, size: size as nat },
                    ..old(self)@
                })
            },
    {
        if self.read_r.size > 0 || size == 0 || self.block_a.size < size {
            return None;
        }
        self.read_r.index = self.block_a.index;
        self.read_r.size = size;
        Some(self.read_r.index)
    }

    /// Reserves up to `size` committed bytes for reading: as much of
    /// `block_a` as `size` asks for. Returns the reservation's start index
    /// and the byte count actually reserved, which is zero — with nothing
    /// changed — when a read reservation is already outstanding or no
    /// committed byte exists.
    pub fn read_try_reserve(&mut self, size: usize) -> (r: (usize, usize))
        requires
            old(self)@.wf(),
        ensures
            final(self)@.wf(),
            r.1 == old(self)@.read_grant(size as nat),
            r.1 == 0 ==> r.0 == 0 && *final(self) == *old(self),
            r.1 > 0 ==> {
                &&& r.0 == old(self)@.a.index
                &&& final(self)@ == (BufferModel {
                    read_r: BlockModel { index: r.0 as nat, size: r.1 as nat },
                    ..old(self)@
                })
            },
    {
        if self.read_r.size > 0 {
            return (0, 0);
        }
        let n = if size <= self.block_a.size {
            size
        } else {
            self.block_a.size
        };
        if n == 0 {
            return (0, 0);
        }
        self.read_r.index = self.block_a.index;
        self.read_r.size = n;
        (self.read_r.index, n)
    }

    /// Commits `size` bytes of the outstanding read reservation — never
    /// more than was reserved. `block_a` is advanced past them; when it
    /// empties and `block_b` holds data, `block_b` is rotated into
    /// `block_a` at index 0; the reservation is cleared. Committing zero
    /// bytes only clears the reservation.
    pub fn read_commit(&mut self, size: usize)
        requires
            old(self)@.wf(),
            size <= old(self)@.read_r.size,
        ensures
            final(self)@ == old(self)@.read_commit_tr(size as nat),
            final(self)@.wf(),
            final(self)@.used() + size == old(self)@.used(),
            final(self)@.content() == old(self)@.content().skip(size as int),
    {
        let cap = self.buffer.len();
        proof {
            assert(old(self)@.a.index + old(self)@.a.size <= cap);
        }
        if size > 0 {
            self.block_a.index = self.block_a.index + size;
            self.block_a.size = self.block_a.size - size;
        }
        if self.block_a.size == 0 {
            if self.block_b.size > 0 {
                BipBlock::copy(&mut self.block_a, &self.block_b);
                self.block_b.clear();
            } else {
                self.block_a.clear();
            }
        }
        self.read_r.clear();
        proof {
            assert(final(self)@ =~= old(self)@.read_commit_tr(size as nat));
            lemma_read_commit_content(old(self)@, size as nat);
        }
    }

    /// Composite write: reserves as much of `data` as one free run holds —
    /// all of it when possible — copies it in, and commits it. Returns the
    /// byte count transferred, or `-1`, with nothing changed, when zero
    /// bytes could be reserved (buffer full, empty `data`, or a write
    /// reservation outstanding).
    pub fn write(&mut self, data: &[u8]) -> (r: i32)
        requires
            old(self)@.wf(),
            data@.len() <= i32::MAX,
        ensures
            final(self)@.wf(),
            final(self)@ == old(self)@.write_tr(data@).0,
            r == old(self)@.write_tr(data@).1,
            r == -1 ==> *final(self) == *old(self),
            r >= 0 ==> {
                &&& 0 < r <= data@.len()
                &&& final(self)@.content() == old(self)@.content() + data@.take(r as int)
                &&& final(self)@.used() == old(self)@.used() + r
            },
    {
        let (idx, n) = match self.write_reserve(data.len()) {
            Some(i) => (i, data.len()),
            None => self.write_try_reserve(data.len()),
        };
        if n == 0 {
            return -1;
        }
        proof {
            assert(old(self)@.bytes =~= overwrite(old(self)@.bytes, idx as int, data@.take(0)));
        }
        let cap = self.buffer.len();
        let mut i: usize = 0;
        while i < n
            invariant
                i <= n,
                n <= data@.len(),
                idx + n <= cap,
                idx + n <= self@.bytes.len(),
                self@.a == old(self)@.a,
                self@.b == old(self)@.b,
                self@.read_r == old(self)@.read_r,
                self@.page_size == old(self)@.page_size,
                self@.write_r == (BlockModel { index: idx as nat, size: n as nat }),
                self@.bytes.len() == old(self)@.bytes.len(),
                self@.bytes == overwrite(old(self)@.bytes, idx as int, data@.take(i as int)),
            decreases n - i,
        {
            let b = data[i];
            self.buffer.set(idx + i, b);
            proof {
                assert(self@.bytes =~= overwrite(
                    old(self)@.bytes,
                    idx as int,
                    data@.take(i + 1 as int),
                ));
            }
            i = i + 1;
        }
        proof {
            assert(self@ =~= (BufferModel {
                bytes: overwrite(
                    old(self)@.bytes,
                    old(self)@.free_run().index as int,
                    data@.take(n as int),
                ),
                write_r: BlockModel { index: old(self)@.free_run().index, size: n as nat },
                ..old(self)@
            }));
            assert(self@.wf());
            assert(self@.content() =~= old(self)@.content());
            assert(self@.bytes.subrange(idx as int, idx + n as int) =~= data@.take(n as int));
        }
        self.write_commit(n);
        proof {
            assert(final(self)@.content() =~= old(self)@.content() + data@.take(n as int));
        }
        n as i32
    }

    /// Composite read: reserves up to `data.len()` committed bytes of
    /// `block_a`, copies them into the front of `data` (the rest of `data`
    /// is untouched), and commits them. Returns the byte count transferred,
    /// or `-1`, with nothing changed, when zero bytes could be reserved
    /// (nothing committed, empty `data`, or a read reservation
    /// outstanding).
    pub fn read(&mut self, data: &mut Vec<u8>) -> (r: i32)
        requires
            old(self)@.wf(),
            old(data)@.len() <= i32::MAX,
        ensures
            final(self)@.wf(),
            final(self)@ == old(self)@.read_tr(old(data)@.len()).0,
            r == old(self)@.read_tr(old(data)@.len()).2,
            final(data)@.len() == old(data)@.len(),
            r == -1 ==> *final(self) == *old(self) && final(data)@ == old(data)@,
            r >= 0 ==> {
                &&& 0 < r <= old(data)@.len()
                &&& final(data)@ == old(self)@.read_tr(old(data)@.len()).1 + old(data)@.skip(
                    r as int,
                )
                &&& final(data)@.take(r as int) == old(self)@.content().take(r as int)
                &&& final(self)@.content() == old(self)@.content().skip(r as int)
                &&& old(self)@.used() == final(self)@.used() + r
            },
    {
        let (idx, n) = self.read_try_reserve(data.len());
        if n == 0 {
            return -1;
        }
        proof {
            assert(old(data)@ =~= overwrite(
                old(data)@,
                0,
                old(self)@.bytes.subrange(idx as int, idx as int),
            ));
        }
        let cap = self.buffer.len();
        let mut i: usize = 0;
        while i < n
            invariant
                i <= n,
                n <= old(data)@.len(),
                idx + n <= cap,
                idx + n <= self@.bytes.len(),
                self@ == (BufferModel {
                    read_r: BlockModel { index: idx as nat, size: n as nat },
                    ..old(self)@
                }),
                self@.wf(),
                data@.len() == old(data)@.len(),
                data@ == overwrite(
                    old(data)@,
                    0,
                    old(self)@.bytes.subrange(idx as int, idx + i as int),
                ),
            decreases n - i,
        {
            let b = self.buffer[idx + i];
            data.set(i, b);
            proof {
                assert(data@ =~= overwrite(
                    old(data)@,
                    0,
                    old(self)@.bytes.subrange(idx as int, idx + (i + 1) as int),
                ));
            }
            i = i + 1;
        }
        self.read_commit(n);
        proof {
            let out = old(self)@.read_tr(old(data)@.len()).1;
            assert(data@ =~= out + old(data)@.skip(n as int));
            assert(data@.take(n as int) =~= old(self)@.content().take(n as int));
        }
        n as i32
    }

    /// Grows the backing region in place to `new_size` bytes, rounded up
    /// to the next multiple of the page size. All committed bytes are
    /// compacted to the front of the fresh region: `block_a` then holds
    /// them all, starting at index 0, and `block_b` is empty. Fails — a
    /// no-op — when `new_size` does not exceed the current capacity, or
    /// when the rounded size cannot be represented. Must not be called
    /// with a reservation outstanding: it would invalidate the reserved
    /// range.
    pub fn grow(&mut self, new_size: usize) -> (r: bool)
        requires
            old(self)@.wf(),
            old(self)@.write_r.size == 0,
            old(self)@.read_r.size == 0,
        ensures
            final(self)@.wf(),
            r == (new_size > old(self)@.cap() && round_up(new_size as nat, old(self)@.page_size)
                <= usize::MAX as nat),
            !r ==> *final(self) == *old(self),
            r ==> {
                &&& final(self)@ == old(self)@.grow_tr(new_size as nat)
                &&& final(self)@.cap() == round_up(new_size as nat, old(self)@.page_size)
                &&& new_size <= final(self)@.cap() < new_size + old(self)@.page_size
                &&& final(self)@.cap() % old(self)@.page_size == 0
                &&& final(self)@.content() == old(self)@.content()
                &&& final(self)@.used() == old(self)@.used()
                &&& final(self)@.a.index == 0
                &&& final(self)@.b.size == 0
                &&& final(self)@.page_size == old(self)@.page_size
            },
    {
        if new_size <= self.buffer.len() {
            return false;
        }
        let rem = new_size % self.page_size;
        let rounded = if rem == 0 {
            new_size
        } else {
            let pad = self.page_size - rem;
            if new_size > usize::MAX - pad {
                return false;
            }
            new_size + pad
        };
        let ghost zeros = Seq::new(rounded as nat, |k: int| 0u8);
        let mut nb = zero_vec(rounded);
        let cur_cap = self.buffer.len();
        let a_index = self.block_a.index;
        let a_size = self.block_a.size;
        let b_size = self.block_b.size;
        proof {
            assert(a_size + b_size <= old(self)@.cap());
            assert(nb@ =~= overwrite(zeros, 0, old(self)@.bytes.subrange(
                a_index as int,
                a_index as int,
            )));
        }
        let mut i: usize = 0;
        while i < a_size
            invariant
                i <= a_size,
                self@ == old(self)@,
                old(self)@.wf(),
                a_index == old(self)@.a.index,
                a_size == old(self)@.a.size,
                b_size == old(self)@.b.size,
                a_index + a_size <= cur_cap,
                cur_cap == old(self)@.cap(),
                a_size + b_size <= rounded,
                nb@.len() == rounded,
                nb@ == overwrite(zeros, 0, old(self)@.bytes.subrange(
                    a_index as int,
                    a_index + i as int,
                )),
            decreases a_size - i,
        {
            let b = self.buffer[a_index + i];
            nb.set(i, b);
            proof {
                assert(nb@ =~= overwrite(zeros, 0, old(self)@.bytes.subrange(
                    a_index as int,
                    a_index + (i + 1) as int,
                )));
            }
            i = i + 1;
        }
        let ghost after_a = nb@;
        let mut j: usize = 0;
        while j < b_size
            invariant
                j <= b_size,
                self@ == old(self)@,
                old(self)@.wf(),
                a_size == old(self)@.a.size,
                b_size == old(self)@.b.size,
                b_size <= cur_cap,
                cur_cap == old(self)@.cap(),
                a_size + b_size <= rounded,
                nb@.len() == rounded,
                nb@ == overwrite(after_a, a_size as int, old(self)@.bytes.subrange(0, j as int)),
            decreases b_size - j,
        {
            let b = self.buffer[j];
            nb.set(a_size + j, b);
            proof {
                assert(nb@ =~= overwrite(after_a, a_size as int, old(self)@.bytes.subrange(
                    0,
                    (j + 1) as int,
                )));
            }
            j = j + 1;
        }
        proof {
            let m = old(self)@;
            let content = m.content();
            assert(nb@ =~= Seq::new(
                round_up(new_size as nat, m.page_size),
                |k: int| if k < content.len() {
                    content[k]
                } else {
                    0u8
                },
            ));
        }
        self.buffer = nb;
        self.block_a.index = 0;
        self.block_a.size = a_size + b_size;
        self.block_b.clear();
        proof {
            assert(final(self)@ =~= old(self)@.grow_tr(new_size as nat));
            assert(final(self)@.content() =~= old(self)@.content());
            lemma_round_up_properties(new_size as nat, old(self)@.page_size);
        }
        true
    }

    /// Liveness indicator: whether any committed byte is waiting to be
    /// read.
    pub fn is_signaled(&self) -> (r: bool)
        requires
            self@.wf(),
        ensures
            r == (self@.used() > 0),
    {
        self.block_a.size > 0 || self.block_b.size > 0
    }
}

} // verus!
