//! Global properties of the bip buffer, stated and proved over the model.
//!
//! Every executable operation of [`crate::bip_buffer::BipBuffer`] pins its
//! final state to a model transition, so these laws carry over to the
//! executable buffer directly.

use vstd::prelude::*;

use crate::model::{
    lemma_commit_content, lemma_read_commit_content, min_nat, BlockModel, BufferModel,
};

verus! {

/// Whether two blocks describe non-overlapping byte ranges (an empty block
/// overlaps nothing).
pub open spec fn blocks_disjoint(x: BlockModel, y: BlockModel) -> bool {
    x.size == 0 || y.size == 0 || x.index + x.size <= y.index || y.index + y.size <= x.index
}

/// Committed bytes never exceed the capacity, however the buffer was
/// driven.
pub proof fn lemma_used_size_bounds(m: BufferModel)
    requires
        m.wf(),
    ensures
        m.used() <= m.cap(),
{
}

/// Accounting for writes: committing `c` reserved bytes grows the
/// committed count by exactly `c` and keeps it within the capacity.
/// Together with its read counterpart: after any sequence of commits, the
/// committed count is exactly the bytes committed-written minus the bytes
/// committed-read.
pub proof fn lemma_write_commit_accounting(m: BufferModel, c: nat)
    requires
        m.wf(),
        c <= m.write_r.size,
    ensures
        m.write_commit_tr(c).wf(),
        m.write_commit_tr(c).used() == m.used() + c,
        m.write_commit_tr(c).used() <= m.cap(),
{
    lemma_commit_content(m, c);
}

/// Accounting for reads: committing `c` reserved bytes shrinks the
/// committed count by exactly `c`; it never goes below zero.
pub proof fn lemma_read_commit_accounting(m: BufferModel, c: nat)
    requires
        m.wf(),
        c <= m.read_r.size,
    ensures
        m.read_commit_tr(c).wf(),
        m.read_commit_tr(c).used() + c == m.used(),
{
    lemma_read_commit_content(m, c);
}

/// One reserve/commit pair driven against the buffer: a write or a read
/// that reserves up to `size` bytes and commits `c` of them (`c` beyond
/// the grant counts as the whole grant, since a commit never exceeds the
/// last reservation).
pub enum BufOp {
    Write(nat, nat),
    Read(nat, nat),
}

/// State after one reserve/commit pair. A refused reservation (nothing
/// free, or nothing committed) makes the pair a no-op.
pub open spec fn apply_op(m: BufferModel, op: BufOp) -> BufferModel {
    match op {
        BufOp::Write(size, c) => {
            let n = m.write_grant(size);
            if n == 0 {
                m
            } else {
                let reserved = BufferModel {
                    write_r: BlockModel { index: m.free_run().index, size: n },
                    ..m
                };
                reserved.write_commit_tr(min_nat(c, n))
            }
        },
        BufOp::Read(size, c) => {
            let n = m.read_grant(size);
            if n == 0 {
                m
            } else {
                let reserved = BufferModel {
                    read_r: BlockModel { index: m.a.index, size: n },
                    ..m
                };
                reserved.read_commit_tr(min_nat(c, n))
            }
        },
    }
}

/// Bytes the pair committed as a write.
pub open spec fn op_written(m: BufferModel, op: BufOp) -> nat {
    match op {
        BufOp::Write(size, c) => {
            let n = m.write_grant(size);
            if n == 0 {
                0
            } else {
                min_nat(c, n)
            }
        },
        BufOp::Read(size, c) => 0,
    }
}

/// Bytes the pair committed as a read.
pub open spec fn op_read(m: BufferModel, op: BufOp) -> nat {
    match op {
        BufOp::Write(size, c) => 0,
        BufOp::Read(size, c) => {
            let n = m.read_grant(size);
            if n == 0 {
                0
            } else {
                min_nat(c, n)
            }
        },
    }
}

/// State after a whole sequence of reserve/commit pairs.
pub open spec fn run_ops(m: BufferModel, ops: Seq<BufOp>) -> BufferModel
    decreases ops.len(),
{
    if ops.len() == 0 {
        m
    } else {
        run_ops(apply_op(m, ops[0]), ops.skip(1))
    }
}

/// Total bytes committed-written over the sequence.
pub open spec fn total_written(m: BufferModel, ops: Seq<BufOp>) -> nat
    decreases ops.len(),
{
    if ops.len() == 0 {
        0
    } else {
        op_written(m, ops[0]) + total_written(apply_op(m, ops[0]), ops.skip(1))
    }
}

/// Total bytes committed-read over the sequence.
pub open spec fn total_read(m: BufferModel, ops: Seq<BufOp>) -> nat
    decreases ops.len(),
{
    if ops.len() == 0 {
        0
    } else {
        op_read(m, ops[0]) + total_read(apply_op(m, ops[0]), ops.skip(1))
    }
}

/// One reserve/commit pair keeps the state well-formed and the capacity,
/// and moves the committed count by exactly the bytes it committed.
pub proof fn lemma_op_accounting(m: BufferModel, op: BufOp)
    requires
        m.wf(),
    ensures
        apply_op(m, op).wf(),
        apply_op(m, op).cap() == m.cap(),
        apply_op(m, op).used() + op_read(m, op) == m.used() + op_written(m, op),
{
    match op {
        BufOp::Write(size, c) => {
            let n = m.write_grant(size);
            if n > 0 {
                let reserved = BufferModel {
                    write_r: BlockModel { index: m.free_run().index, size: n },
                    ..m
                };
                lemma_commit_content(reserved, min_nat(c, n));
            }
        },
        BufOp::Read(size, c) => {
            let n = m.read_grant(size);
            if n > 0 {
                let reserved = BufferModel {
                    read_r: BlockModel { index: m.a.index, size: n },
                    ..m
                };
                lemma_read_commit_content(reserved, min_nat(c, n));
            }
        },
    }
}

/// For every sequence of write-reserve/commit and read-reserve/commit
/// pairs, each commit within its reservation, the committed count after
/// the sequence is exactly the starting count plus all bytes
/// committed-written minus all bytes committed-read, and it never leaves
/// `[0, buffer capacity]`.
pub proof fn lemma_sequence_accounting(m: BufferModel, ops: Seq<BufOp>)
    requires
        m.wf(),
    ensures
        run_ops(m, ops).wf(),
        run_ops(m, ops).cap() == m.cap(),
        run_ops(m, ops).used() + total_read(m, ops) == m.used() + total_written(m, ops),
        run_ops(m, ops).used() <= m.cap(),
    decreases ops.len(),
{
    if ops.len() > 0 {
        lemma_op_accounting(m, ops[0]);
        lemma_sequence_accounting(apply_op(m, ops[0]), ops.skip(1));
    }
}

/// Round trip: writing `data` into a buffer that holds nothing (whatever
/// wraparound states it went through before) transfers all of it, and an
/// immediate read of `data.len()` bytes delivers exactly `data`, leaving
/// the buffer holding nothing again.
pub proof fn lemma_round_trip(m: BufferModel, data: Seq<u8>)
    requires
        m.wf(),
        m.used() == 0,
        m.write_r.size == 0,
        m.read_r.size == 0,
        1 <= data.len() <= m.cap(),
    ensures
        ({
            let (m1, w) = m.write_tr(data);
            &&& w == data.len()
            &&& ({
                let (m2, out, rr) = m1.read_tr(data.len());
                &&& rr == data.len()
                &&& out == data
                &&& m2.wf()
                &&& m2.used() == 0
            })
        }),
{
    let (m1, w) = m.write_tr(data);
    assert(m.free_run() == (BlockModel { index: 0, size: m.cap() }));
    assert(m1.a == (BlockModel { index: 0, size: data.len() }));
    assert(m1.bytes.subrange(0, data.len() as int) =~= data);
    let (m2, out, rr) = m1.read_tr(data.len());
    assert(out =~= data);
}

/// Wraparound: when a write does not fit in the tail after `block_a` but
/// fits in the front before it, it populates `block_b` at index 0 and
/// leaves `block_a` alone; a following full read of `block_a` rotates
/// `block_b` into `block_a` with its index reset to 0, so the buffer then
/// holds exactly the wrapped bytes.
pub proof fn lemma_wraparound_rotation(m: BufferModel, data: Seq<u8>)
    requires
        m.wf(),
        m.write_r.size == 0,
        m.read_r.size == 0,
        m.b.size == 0,
        m.a.size > 0,
        m.cap() - (m.a.index + m.a.size) < data.len(),
        data.len() <= m.a.index,
    ensures
        ({
            let (m1, w) = m.write_tr(data);
            &&& w == data.len()
            &&& m1.b == (BlockModel { index: 0, size: data.len() })
            &&& m1.a == m.a
            &&& ({
                let (m2, out, rr) = m1.read_tr(m.a.size);
                &&& rr == m.a.size
                &&& out == m.bytes.subrange(m.a.index as int, (m.a.index + m.a.size) as int)
                &&& m2.a == (BlockModel { index: 0, size: data.len() })
                &&& m2.b.size == 0
                &&& m2.wf()
                &&& m2.content() == data
            })
        }),
{
    let (m1, w) = m.write_tr(data);
    assert(m.free_run() == (BlockModel { index: 0, size: m.a.index }));
    assert(m1.b == (BlockModel { index: 0, size: data.len() }));
    let (m2, out, rr) = m1.read_tr(m.a.size);
    assert(out =~= m.bytes.subrange(m.a.index as int, (m.a.index + m.a.size) as int));
    assert(m2.content() =~= data);
}

/// While a write reservation is outstanding, no further write reservation
/// is granted: the same-direction slot is exclusive, so no two write
/// reservations can ever overlap.
pub proof fn lemma_no_second_write_reservation(m: BufferModel, size: nat)
    requires
        m.write_r.size > 0,
    ensures
        m.write_grant(size) == 0,
{
}

/// While a read reservation is outstanding, no further read reservation is
/// granted.
pub proof fn lemma_no_second_read_reservation(m: BufferModel, size: nat)
    requires
        m.read_r.size > 0,
    ensures
        m.read_grant(size) == 0,
{
}

/// The four blocks never describe overlapping byte ranges, except that the
/// read reservation is carved out of `block_a`'s committed range: a
/// reservation can never hand out bytes that another block already claims.
pub proof fn lemma_blocks_disjoint(m: BufferModel)
    requires
        m.wf(),
    ensures
        blocks_disjoint(m.a, m.b),
        blocks_disjoint(m.write_r, m.a),
        blocks_disjoint(m.write_r, m.b),
        blocks_disjoint(m.write_r, m.read_r),
        m.read_r.size > 0 ==> m.a.index <= m.read_r.index && m.read_r.index + m.read_r.size
            <= m.a.index + m.a.size,
{
}

} // verus!
