//! Driving a workload through the capability interface.
//!
//! A workload is a sequence of writes, reads, status and sync calls. The
//! driver runs it against any engine and returns the replies; its contract
//! says the replies are a function of the object's initial contents and
//! stamp alone. Engine equivalence follows: two engines opened on the same
//! bytes, driven through the same workload, answer byte for byte alike and
//! report the same sizes, whichever pair of the three is chosen.

use vstd::prelude::*;

use crate::error::Action;
use crate::model::{read_view, spec_max_extent, write_view};
use crate::object::BackendObject;

verus! {

/// One operation of a workload.
pub enum StorageOp {
    Write { buffer: Vec<u8>, offset: u64, length: u64 },
    Read { offset: u64, length: u64 },
    Status,
    Sync,
}

/// The mathematical image of one operation.
pub ghost enum OpView {
    Write { buffer: Seq<u8>, offset: u64, length: u64 },
    Read { offset: u64, length: u64 },
    Status,
    Sync,
}

impl View for StorageOp {
    type V = OpView;

    open spec fn view(&self) -> OpView {
        match self {
            StorageOp::Write { buffer, offset, length } => OpView::Write {
                buffer: buffer@,
                offset: *offset,
                length: *length,
            },
            StorageOp::Read { offset, length } => OpView::Read {
                offset: *offset,
                length: *length,
            },
            StorageOp::Status => OpView::Status,
            StorageOp::Sync => OpView::Sync,
        }
    }
}

/// What one operation answers.
#[derive(Debug, PartialEq, Eq)]
pub enum OpReply {
    Written(u64),
    Bytes(Vec<u8>),
    Stat(i64, u64),
    Synced,
    Failed(Action),
}

/// The mathematical image of one reply.
pub ghost enum ReplyView {
    Written(u64),
    Bytes(Seq<u8>),
    Stat(i64, u64),
    Synced,
    Failed(Action),
}

impl View for OpReply {
    type V = ReplyView;

    open spec fn view(&self) -> ReplyView {
        match self {
            OpReply::Written(n) => ReplyView::Written(*n),
            OpReply::Bytes(v) => ReplyView::Bytes(v@),
            OpReply::Stat(t, s) => ReplyView::Stat(*t, *s),
            OpReply::Synced => ReplyView::Synced,
            OpReply::Failed(a) => ReplyView::Failed(*a),
        }
    }
}

/// The images of a workload.
pub open spec fn op_views(s: Seq<StorageOp>) -> Seq<OpView> {
    s.map_values(|op: StorageOp| op@)
}

/// The images of a reply list.
pub open spec fn reply_views(s: Seq<OpReply>) -> Seq<ReplyView> {
    s.map_values(|r: OpReply| r@)
}

/// The contents after one operation: only a well-formed write within the
/// addressable extent changes them.
pub open spec fn op_step(v: Seq<u8>, op: OpView) -> Seq<u8> {
    match op {
        OpView::Write { buffer, offset, length } => {
            if length <= buffer.len() && offset + length <= spec_max_extent() {
                write_view(v, buffer.take(length as int), offset as int)
            } else {
                v
            }
        },
        _ => v,
    }
}

/// The reply one operation earns against contents `v` and stamp `stamp`.
pub open spec fn op_reply(v: Seq<u8>, stamp: i64, op: OpView) -> ReplyView {
    match op {
        OpView::Write { buffer, offset, length } => {
            if length > buffer.len() {
                ReplyView::Written(0)
            } else if offset + length <= spec_max_extent() {
                ReplyView::Written(length)
            } else {
                ReplyView::Failed(Action::Write)
            }
        },
        OpView::Read { offset, length } => ReplyView::Bytes(
            read_view(v, offset as int, length as int),
        ),
        OpView::Status => ReplyView::Stat(stamp, v.len() as u64),
        OpView::Sync => ReplyView::Synced,
    }
}

/// The contents after a whole workload.
pub open spec fn run_ops(v: Seq<u8>, ops: Seq<OpView>) -> Seq<u8>
    decreases ops.len(),
{
    if ops.len() == 0 {
        v
    } else {
        run_ops(op_step(v, ops[0]), ops.drop_first())
    }
}

/// The replies of a whole workload, in order, each against the contents
/// its predecessors left.
pub open spec fn replies_of(v: Seq<u8>, stamp: i64, ops: Seq<OpView>) -> Seq<ReplyView>
    decreases ops.len(),
{
    if ops.len() == 0 {
        Seq::empty()
    } else {
        seq![op_reply(v, stamp, ops[0])] + replies_of(op_step(v, ops[0]), stamp, ops.drop_first())
    }
}

/// One more operation after a workload.
proof fn lemma_run_ops_push(v: Seq<u8>, ops: Seq<OpView>, op: OpView)
    ensures
        run_ops(v, ops.push(op)) == op_step(run_ops(v, ops), op),
    decreases ops.len(),
{
    let whole = ops.push(op);
    if ops.len() == 0 {
        assert(whole[0] == op);
        assert(whole.drop_first() =~= Seq::<OpView>::empty());
        assert(run_ops(v, whole) == run_ops(op_step(v, op), whole.drop_first()));
        assert(run_ops(op_step(v, op), Seq::<OpView>::empty()) == op_step(v, op));
        assert(run_ops(v, ops) == v);
    } else {
        assert(whole[0] == ops[0]);
        assert(whole.drop_first() =~= ops.drop_first().push(op));
        lemma_run_ops_push(op_step(v, ops[0]), ops.drop_first(), op);
        assert(run_ops(v, whole) == run_ops(op_step(v, ops[0]), whole.drop_first()));
        assert(run_ops(v, ops) == run_ops(op_step(v, ops[0]), ops.drop_first()));
    }
}

/// The reply of one more operation after a workload.
proof fn lemma_replies_of_push(v: Seq<u8>, stamp: i64, ops: Seq<OpView>, op: OpView)
    ensures
        replies_of(v, stamp, ops.push(op)) == replies_of(v, stamp, ops).push(
            op_reply(run_ops(v, ops), stamp, op),
        ),
    decreases ops.len(),
{
    let whole = ops.push(op);
    let tail = op_reply(run_ops(v, ops), stamp, op);
    if ops.len() == 0 {
        assert(whole[0] == op);
        assert(whole.drop_first() =~= Seq::<OpView>::empty());
        assert(run_ops(v, ops) == v);
        assert(replies_of(v, stamp, ops) == Seq::<ReplyView>::empty());
        assert(replies_of(op_step(v, op), stamp, Seq::<OpView>::empty())
            == Seq::<ReplyView>::empty());
        assert(replies_of(v, stamp, whole) == seq![op_reply(v, stamp, op)] + replies_of(
            op_step(v, op),
            stamp,
            whole.drop_first(),
        ));
        assert(replies_of(v, stamp, whole) =~~= replies_of(v, stamp, ops).push(tail));
    } else {
        assert(whole[0] == ops[0]);
        assert(whole.drop_first() =~= ops.drop_first().push(op));
        lemma_replies_of_push(op_step(v, ops[0]), stamp, ops.drop_first(), op);
        assert(run_ops(v, ops) == run_ops(op_step(v, ops[0]), ops.drop_first()));
        assert(replies_of(v, stamp, whole) == seq![op_reply(v, stamp, ops[0])] + replies_of(
            op_step(v, ops[0]),
            stamp,
            whole.drop_first(),
        ));
        assert(replies_of(v, stamp, ops) == seq![op_reply(v, stamp, ops[0])] + replies_of(
            op_step(v, ops[0]),
            stamp,
            ops.drop_first(),
        ));
        assert(replies_of(v, stamp, whole) =~~= replies_of(v, stamp, ops).push(tail));
    }
}

/// Runs a workload against an engine through the capability interface.
/// The replies — and so every read result and every reported size — are
/// fixed by the object's initial contents and stamp alone, for every
/// engine implementing the capability.
pub fn run_workload<T: BackendObject>(obj: &mut T, ops: &Vec<StorageOp>) -> (replies: Vec<
    OpReply,
>)
    requires
        old(obj).wf(),
    ensures
        final(obj).wf(),
        final(obj).contents() == run_ops(old(obj).contents(), op_views(ops@)),
        final(obj).modified() == old(obj).modified(),
        reply_views(replies@) == replies_of(old(obj).contents(), old(obj).modified(), op_views(ops@)),
{
    let ghost v0 = obj.contents();
    let ghost stamp = obj.modified();
    let ghost opsv = op_views(ops@);
    let mut replies: Vec<OpReply> = Vec::new();
    proof {
        assert(opsv.take(0) =~= Seq::<OpView>::empty());
        assert(reply_views(replies@) =~= Seq::<ReplyView>::empty());
    }
    let mut k: usize = 0;
    while k < ops.len()
        invariant
            k <= ops@.len(),
            old(obj).wf() ==> obj.wf(),
            obj.wf(),
            opsv == op_views(ops@),
            opsv.len() == ops@.len(),
            obj.contents() == run_ops(v0, opsv.take(k as int)),
            obj.modified() == stamp,
            v0 == old(obj).contents(),
            stamp == old(obj).modified(),
            reply_views(replies@) == replies_of(v0, stamp, opsv.take(k as int)),
        decreases ops@.len() - k,
    {
        let ghost done = opsv.take(k as int);
        proof {
            assert(opsv[k as int] == ops@[k as int]@);
            assert(done.push(opsv[k as int]) =~= opsv.take(k as int + 1));
            lemma_run_ops_push(v0, done, opsv[k as int]);
            lemma_replies_of_push(v0, stamp, done, opsv[k as int]);
        }
        let ghost r0 = replies@;
        match &ops[k] {
            StorageOp::Write { buffer, offset, length } => {
                match obj.write(buffer.as_slice(), *offset, *length) {
                    Ok(n) => replies.push(OpReply::Written(n)),
                    Err(e) => replies.push(OpReply::Failed(e.action)),
                }
            },
            StorageOp::Read { offset, length } => {
                match obj.read(*offset, *length) {
                    Ok(bytes) => replies.push(OpReply::Bytes(bytes)),
                    Err(e) => replies.push(OpReply::Failed(e.action)),
                }
            },
            StorageOp::Status => {
                match obj.status() {
                    Ok(st) => replies.push(OpReply::Stat(st.0, st.1)),
                    Err(e) => replies.push(OpReply::Failed(e.action)),
                }
            },
            StorageOp::Sync => {
                match obj.sync() {
                    Ok(()) => replies.push(OpReply::Synced),
                    Err(e) => replies.push(OpReply::Failed(e.action)),
                }
            },
        }
        proof {
            assert(reply_views(replies@) =~= reply_views(r0).push(replies@[r0.len() as int]@));
        }
        k = k + 1;
    }
    proof {
        assert(opsv.take(opsv.len() as int) =~= opsv);
    }
    replies
}

/// Engine equivalence: the reply sequence of a workload is one mathematical
/// function of the initial contents, the stamp and the workload; with the
/// driver's contract, any two engines opened on equal bytes with equal
/// stamps and driven through the same workload return equal replies and
/// leave equal contents.
pub proof fn lemma_engine_equivalence(
    v1: Seq<u8>,
    v2: Seq<u8>,
    stamp1: i64,
    stamp2: i64,
    ops: Seq<OpView>,
)
    requires
        v1 == v2,
        stamp1 == stamp2,
    ensures
        replies_of(v1, stamp1, ops) == replies_of(v2, stamp2, ops),
        run_ops(v1, ops) == run_ops(v2, ops),
{
}

} // verus!
