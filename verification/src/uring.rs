//! The ring-based engine.
//!
//! Operations are issued through a bounded submission/completion queue
//! pair. Each submission carries a correlation id drawn from a
//! monotonically increasing per-ring counter; the caller submits one
//! operation, waits, and scans the completion queue for the entry whose tag
//! equals that id. The queue pair and the completion scan are verified
//! here; the binding that hands submissions to the operating system builds
//! its entries from the same fields and correlates real completions with
//! the same scan. Rings are never shared across workers: the verified
//! engine couples a ring with the object it drives, and the outer binding
//! keeps one ring per worker thread.

use vstd::prelude::*;

use crate::error::{Action, BackendError};
use crate::model::{max_extent, read_view, spec_max_extent, write_view};
use crate::object::BackendObject;
use crate::region::{apply_write, copy_window, slice_prefix};

verus! {

/// The number of submission entries a ring holds.
pub const QUEUE_DEPTH: usize = 8;

/// The signed code a completion reports when a write would grow the object
/// past the largest permitted extent (the negated "file too large" errno).
pub const EXTENT_ERROR_CODE: i64 = -27;

/// What a submitted operation does.
#[derive(Clone, Copy, Debug, PartialEq, Eq, Structural)]
pub enum OpKind {
    Read,
    Write,
}

/// A submission-queue entry: one read or write of a single buffer at a
/// single offset, tagged with a correlation id. The hard-link flag chains
/// the entry to a following one; with no follow-up submitted it has no
/// effect, and none is ever submitted here.
pub struct Sqe {
    pub kind: OpKind,
    pub offset: u64,
    pub length: u64,
    pub data: Vec<u8>,
    pub user_data: u64,
    pub hard_link: bool,
}

/// The mathematical image of a submission entry.
pub ghost struct SqeView {
    pub kind: OpKind,
    pub offset: u64,
    pub length: u64,
    pub data: Seq<u8>,
    pub user_data: u64,
    pub hard_link: bool,
}

impl View for Sqe {
    type V = SqeView;

    open spec fn view(&self) -> SqeView {
        SqeView {
            kind: self.kind,
            offset: self.offset,
            length: self.length,
            data: self.data@,
            user_data: self.user_data,
            hard_link: self.hard_link,
        }
    }
}

/// A completion-queue entry: the correlation tag of the submission it
/// answers, its signed result (a byte count, or a negative error code),
/// and, for reads, the bytes delivered.
#[derive(Debug)]
pub struct Cqe {
    pub user_data: u64,
    pub result: i64,
    pub buffer: Vec<u8>,
}

/// The mathematical image of a completion entry.
pub ghost struct CqeView {
    pub user_data: u64,
    pub result: i64,
    pub buffer: Seq<u8>,
}

impl View for Cqe {
    type V = CqeView;

    open spec fn view(&self) -> CqeView {
        CqeView { user_data: self.user_data, result: self.result, buffer: self.buffer@ }
    }
}

/// The images of a queue of submission entries.
pub open spec fn sqe_views(s: Seq<Sqe>) -> Seq<SqeView> {
    s.map_values(|op: Sqe| op@)
}

/// The images of a queue of completion entries.
pub open spec fn cqe_views(s: Seq<Cqe>) -> Seq<CqeView> {
    s.map_values(|c: Cqe| c@)
}

/// The contents after one submitted operation is performed: only a
/// well-formed write within the addressable extent changes them.
pub open spec fn sqe_step(v: Seq<u8>, op: SqeView) -> Seq<u8> {
    if op.kind == OpKind::Write && op.length <= op.data.len() && op.offset + op.length
        <= spec_max_extent() {
        write_view(v, op.data.take(op.length as int), op.offset as int)
    } else {
        v
    }
}

/// The signed result the completion of `op` reports against contents `v`.
pub open spec fn sqe_result(v: Seq<u8>, op: SqeView) -> i64 {
    match op.kind {
        OpKind::Read => read_view(v, op.offset as int, op.length as int).len() as i64,
        OpKind::Write => if op.length > op.data.len() {
            0
        } else if op.offset + op.length <= spec_max_extent() {
            op.length as i64
        } else {
            EXTENT_ERROR_CODE
        },
    }
}

/// The bytes the completion of `op` delivers: the clamped window for a
/// read, nothing for a write.
pub open spec fn sqe_payload(v: Seq<u8>, op: SqeView) -> Seq<u8> {
    match op.kind {
        OpKind::Read => read_view(v, op.offset as int, op.length as int),
        OpKind::Write => Seq::empty(),
    }
}

/// The contents after a queue of submitted operations is performed in
/// order.
pub open spec fn run_sqes(v: Seq<u8>, ops: Seq<SqeView>) -> Seq<u8>
    decreases ops.len(),
{
    if ops.len() == 0 {
        v
    } else {
        run_sqes(sqe_step(v, ops[0]), ops.drop_first())
    }
}

/// The completions a queue of submitted operations produces, in submission
/// order, each against the contents left by its predecessors.
pub open spec fn completions_of(v: Seq<u8>, ops: Seq<SqeView>) -> Seq<CqeView>
    decreases ops.len(),
{
    if ops.len() == 0 {
        Seq::empty()
    } else {
        seq![
            CqeView {
                user_data: ops[0].user_data,
                result: sqe_result(v, ops[0]),
                buffer: sqe_payload(v, ops[0]),
            },
        ] + completions_of(sqe_step(v, ops[0]), ops.drop_first())
    }
}

/// Performing one more operation after a queue of them.
proof fn lemma_run_sqes_push(v: Seq<u8>, ops: Seq<SqeView>, op: SqeView)
    ensures
        run_sqes(v, ops.push(op)) == sqe_step(run_sqes(v, ops), op),
    decreases ops.len(),
{
    let whole = ops.push(op);
    if ops.len() == 0 {
        assert(whole[0] == op);
        assert(whole.drop_first() =~= Seq::<SqeView>::empty());
        assert(run_sqes(v, whole) == run_sqes(sqe_step(v, op), whole.drop_first()));
        assert(run_sqes(sqe_step(v, op), Seq::<SqeView>::empty()) == sqe_step(v, op));
        assert(run_sqes(v, ops) == v);
    } else {
        assert(whole[0] == ops[0]);
        assert(whole.drop_first() =~= ops.drop_first().push(op));
        lemma_run_sqes_push(sqe_step(v, ops[0]), ops.drop_first(), op);
        assert(run_sqes(v, whole) == run_sqes(sqe_step(v, ops[0]), whole.drop_first()));
        assert(run_sqes(v, ops) == run_sqes(sqe_step(v, ops[0]), ops.drop_first()));
    }
}

/// The completion of one more operation after a queue of them.
proof fn lemma_completions_of_push(v: Seq<u8>, ops: Seq<SqeView>, op: SqeView)
    ensures
        completions_of(v, ops.push(op)) == completions_of(v, ops).push(
            CqeView {
                user_data: op.user_data,
                result: sqe_result(run_sqes(v, ops), op),
                buffer: sqe_payload(run_sqes(v, ops), op),
            },
        ),
    decreases ops.len(),
{
    let whole = ops.push(op);
    let tail = CqeView {
        user_data: op.user_data,
        result: sqe_result(run_sqes(v, ops), op),
        buffer: sqe_payload(run_sqes(v, ops), op),
    };
    if ops.len() == 0 {
        assert(whole[0] == op);
        assert(whole.drop_first() =~= Seq::<SqeView>::empty());
        assert(run_sqes(v, ops) == v);
        assert(completions_of(v, ops) == Seq::<CqeView>::empty());
        assert(completions_of(sqe_step(v, op), Seq::<SqeView>::empty())
            == Seq::<CqeView>::empty());
        assert(completions_of(v, whole) == seq![
            CqeView {
                user_data: op.user_data,
                result: sqe_result(v, op),
                buffer: sqe_payload(v, op),
            },
        ] + completions_of(sqe_step(v, op), whole.drop_first()));
        assert(completions_of(v, whole) =~~= completions_of(v, ops).push(tail));
    } else {
        assert(whole[0] == ops[0]);
        assert(whole.drop_first() =~= ops.drop_first().push(op));
        lemma_completions_of_push(sqe_step(v, ops[0]), ops.drop_first(), op);
        assert(run_sqes(v, ops) == run_sqes(sqe_step(v, ops[0]), ops.drop_first()));
        let head = CqeView {
            user_data: ops[0].user_data,
            result: sqe_result(v, ops[0]),
            buffer: sqe_payload(v, ops[0]),
        };
        assert(completions_of(v, whole) == seq![head] + completions_of(
            sqe_step(v, ops[0]),
            whole.drop_first(),
        ));
        assert(completions_of(v, ops) == seq![head] + completions_of(
            sqe_step(v, ops[0]),
            ops.drop_first(),
        ));
        assert(completions_of(v, whole) =~~= completions_of(v, ops).push(tail));
    }
}

/// The index of the first completion tagged `user_data`, or a negative
/// number when no entry carries that tag.
pub open spec fn first_match(s: Seq<CqeView>, user_data: u64) -> int
    decreases s.len(),
{
    if s.len() == 0 {
        -1
    } else if s[0].user_data == user_data {
        0
    } else {
        let t = first_match(s.drop_first(), user_data);
        if t < 0 {
            -1
        } else {
            t + 1
        }
    }
}

/// `first_match` finds exactly the first index carrying the tag.
proof fn lemma_first_match_at(s: Seq<CqeView>, user_data: u64, i: int)
    requires
        0 <= i < s.len(),
        s[i].user_data == user_data,
        forall|j: int| 0 <= j < i ==> s[j].user_data != user_data,
    ensures
        first_match(s, user_data) == i,
    decreases i,
{
    if i > 0 {
        assert(s.drop_first()[i - 1].user_data == user_data);
        assert(forall|j: int| 0 <= j < i - 1 ==> s.drop_first()[j].user_data != user_data);
        lemma_first_match_at(s.drop_first(), user_data, i - 1);
    }
}

/// When no entry carries the tag, `first_match` reports so.
proof fn lemma_first_match_absent(s: Seq<CqeView>, user_data: u64)
    requires
        forall|j: int| 0 <= j < s.len() ==> s[j].user_data != user_data,
    ensures
        first_match(s, user_data) < 0,
    decreases s.len(),
{
    if s.len() > 0 {
        assert(forall|j: int| 0 <= j < s.drop_first().len() ==> s.drop_first()[j].user_data
            != user_data);
        lemma_first_match_absent(s.drop_first(), user_data);
    }
}

/// Ring correlation: when every completion in the scan carries a distinct
/// tag, the entry the scan returns for a submitted id is the one completion
/// whose tag equals that id — never another operation's result.
pub proof fn lemma_ring_correlation(s: Seq<CqeView>, user_data: u64, i: int)
    requires
        forall|j: int, k: int|
            0 <= j < s.len() && 0 <= k < s.len() && j != k ==> s[j].user_data != s[k].user_data,
        0 <= i < s.len(),
        s[i].user_data == user_data,
    ensures
        first_match(s, user_data) == i,
{
    assert(forall|j: int| 0 <= j < i ==> s[j].user_data != user_data);
    lemma_first_match_at(s, user_data, i);
}

/// Scans drained completions for the entry whose tag equals `user_data`,
/// as the protocol's step 5 prescribes: the first such entry is the
/// operation's outcome; a scan that finds none is the unrecoverable
/// "missing completion" failure, tagged with the caller's action.
pub fn find_completion(entries: &mut Vec<Cqe>, user_data: u64, action: Action) -> (r: Result<
    Cqe,
    BackendError,
>)
    ensures
        first_match(cqe_views(old(entries)@), user_data) >= 0 ==> (r matches Ok(c) && c@
            == cqe_views(old(entries)@)[first_match(cqe_views(old(entries)@), user_data)]
            && final(entries)@ == old(entries)@.remove(
            first_match(cqe_views(old(entries)@), user_data),
        )),
        first_match(cqe_views(old(entries)@), user_data) < 0 ==> (r matches Err(e) && e.action
            == action && final(entries)@ == old(entries)@),
{
    let ghost s = cqe_views(entries@);
    let mut i: usize = 0;
    while i < entries.len()
        invariant
            i <= entries@.len(),
            entries@ == old(entries)@,
            s == cqe_views(entries@),
            forall|j: int| 0 <= j < i ==> s[j].user_data != user_data,
        decreases entries@.len() - i,
    {
        if entries[i].user_data == user_data {
            proof {
                lemma_first_match_at(s, user_data, i as int);
                assert(s[i as int] == entries@[i as int]@);
            }
            let c = entries.remove(i);
            return Ok(c);
        }
        i = i + 1;
    }
    proof {
        lemma_first_match_absent(s, user_data);
    }
    Err(BackendError::new("missing expected completion", action))
}

/// A bounded submission/completion queue pair with a monotonically
/// increasing correlation-id counter.
pub struct Uring {
    sq: Vec<Sqe>,
    cq: Vec<Cqe>,
    counter: u64,
}

impl Uring {
    /// The pending submissions, oldest first.
    pub closed spec fn sq_view(&self) -> Seq<SqeView> {
        sqe_views(self.sq@)
    }

    /// The completions not yet drained, oldest first.
    pub closed spec fn cq_view(&self) -> Seq<CqeView> {
        cqe_views(self.cq@)
    }

    /// The last correlation id handed out.
    pub closed spec fn spec_counter(&self) -> u64 {
        self.counter
    }

    /// A fresh ring: empty queues, no ids handed out yet.
    pub fn new() -> (r: Uring)
        ensures
            r.sq_view() == Seq::<SqeView>::empty(),
            r.cq_view() == Seq::<CqeView>::empty(),
            r.spec_counter() == 0,
    {
        let r = Uring { sq: Vec::new(), cq: Vec::new(), counter: 0 };
        proof {
            assert(r.sq_view() =~= Seq::<SqeView>::empty());
            assert(r.cq_view() =~= Seq::<CqeView>::empty());
        }
        r
    }

    /// Allocates the next correlation id: the counter increases by one,
    /// wrapping only at the width of the counter, and the new value is the
    /// id. Ids are therefore never reused before the counter wraps.
    pub fn next_id(&mut self) -> (id: u64)
        ensures
            final(self).spec_counter() == (if old(self).spec_counter() == u64::MAX {
                0u64
            } else {
                (old(self).spec_counter() + 1) as u64
            }),
            id == final(self).spec_counter(),
            final(self).sq_view() == old(self).sq_view(),
            final(self).cq_view() == old(self).cq_view(),
    {
        if self.counter == u64::MAX {
            self.counter = 0;
        } else {
            self.counter = self.counter + 1;
        }
        self.counter
    }

    /// Pushes one entry into the submission queue; fails, leaving
    /// everything unchanged, when the queue already holds a full ring.
    pub fn push(&mut self, op: Sqe, action: Action) -> (r: Result<(), BackendError>)
        ensures
            final(self).spec_counter() == old(self).spec_counter(),
            final(self).cq_view() == old(self).cq_view(),
            old(self).sq_view().len() < QUEUE_DEPTH ==> (r is Ok && final(self).sq_view() == old(
                self,
            ).sq_view().push(op@)),
            old(self).sq_view().len() >= QUEUE_DEPTH ==> (r matches Err(e) && e.action == action
                && final(self).sq_view() == old(self).sq_view()),
    {
        if self.sq.len() >= QUEUE_DEPTH {
            return Err(BackendError::new("submission queue is full", action));
        }
        let ghost s0 = self.sq@;
        self.sq.push(op);
        proof {
            assert(self.sq_view() =~= sqe_views(s0).push(self.sq@[s0.len() as int]@));
        }
        Ok(())
    }

    /// Submits the pending entries and waits until their completions are
    /// available: every pending operation is performed against `contents`
    /// in submission order, and one completion per operation, carrying its
    /// correlation tag, is appended to the completion queue.
    pub fn submit_and_wait(&mut self, contents: &mut Vec<u8>)
        requires
            old(contents)@.len() <= spec_max_extent(),
        ensures
            final(self).spec_counter() == old(self).spec_counter(),
            final(self).sq_view() == Seq::<SqeView>::empty(),
            final(contents)@ == run_sqes(old(contents)@, old(self).sq_view()),
            final(self).cq_view() == old(self).cq_view() + completions_of(
                old(contents)@,
                old(self).sq_view(),
            ),
    {
        let mut ops: Vec<Sqe> = Vec::new();
        std::mem::swap(&mut ops, &mut self.sq);
        let ghost v0 = contents@;
        let ghost opsv = sqe_views(ops@);
        let ghost cq0 = cqe_views(self.cq@);
        let mut k: usize = 0;
        while k < ops.len()
            invariant
                k <= ops@.len(),
                opsv == sqe_views(ops@),
                opsv.len() == ops@.len(),
                self.sq@.len() == 0,
                self.counter == old(self).counter,
                contents@ == run_sqes(v0, opsv.take(k as int)),
                contents@.len() <= spec_max_extent(),
                cqe_views(self.cq@) == cq0 + completions_of(v0, opsv.take(k as int)),
            decreases ops@.len() - k,
        {
            let ghost pre = contents@;
            let ghost done = opsv.take(k as int);
            proof {
                assert(opsv[k as int] == ops@[k as int]@);
                assert(done.push(opsv[k as int]) =~= opsv.take(k as int + 1));
                lemma_run_sqes_push(v0, done, opsv[k as int]);
                lemma_completions_of_push(v0, done, opsv[k as int]);
            }
            match ops[k].kind {
                OpKind::Read => {
                    let payload = copy_window(contents, ops[k].offset, ops[k].length);
                    let res: i64 = payload.len() as i64;
                    let ghost c1 = self.cq@;
                    self.cq.push(
                        Cqe { user_data: ops[k].user_data, result: res, buffer: payload },
                    );
                    proof {
                        assert(cqe_views(self.cq@) =~= cqe_views(c1).push(
                            self.cq@[c1.len() as int]@,
                        ));
                    }
                },
                OpKind::Write => {
                    let limit: u64 = max_extent();
                    let result: i64 = if ops[k].length > ops[k].data.len() as u64 {
                        0
                    } else if ops[k].offset > limit || ops[k].length > limit - ops[k].offset {
                        EXTENT_ERROR_CODE
                    } else {
                        apply_write(contents, ops[k].data.as_slice(), ops[k].offset, ops[k].length);
                        ops[k].length as i64
                    };
                    let ghost c1 = self.cq@;
                    self.cq.push(
                        Cqe { user_data: ops[k].user_data, result, buffer: Vec::new() },
                    );
                    proof {
                        assert(cqe_views(self.cq@) =~= cqe_views(c1).push(
                            self.cq@[c1.len() as int]@,
                        ));
                    }
                },
            }
            k = k + 1;
        }
        proof {
            assert(opsv.take(opsv.len() as int) =~= opsv);
            assert(self.sq_view() =~= Seq::<SqeView>::empty());
        }
    }

    /// Hands out and clears the completion queue, as scanning the
    /// completions consumes them.
    pub fn drain_completions(&mut self) -> (r: Vec<Cqe>)
        ensures
            final(self).spec_counter() == old(self).spec_counter(),
            final(self).sq_view() == old(self).sq_view(),
            final(self).cq_view() == Seq::<CqeView>::empty(),
            cqe_views(r@) == old(self).cq_view(),
    {
        let mut r: Vec<Cqe> = Vec::new();
        std::mem::swap(&mut r, &mut self.cq);
        proof {
            assert(self.cq_view() =~= Seq::<CqeView>::empty());
        }
        r
    }
}

/// The ring-based engine: the object's bytes together with the ring its
/// operations go through. Each operation allocates the next correlation
/// id, submits exactly one tagged entry, waits, and scans the drained
/// completions for the entry carrying its id.
pub struct UringObject {
    data: Vec<u8>,
    ring: Uring,
    stamp: i64,
}

impl BackendObject for UringObject {
    closed spec fn contents(&self) -> Seq<u8> {
        self.data@
    }

    closed spec fn modified(&self) -> i64 {
        self.stamp
    }

    closed spec fn wf(&self) -> bool {
        &&& self.ring.sq_view().len() == 0
        &&& self.ring.cq_view().len() == 0
        &&& self.data@.len() <= spec_max_extent()
    }

    fn new(initial: Vec<u8>, modified: i64) -> (r: Result<Self, BackendError>) {
        if initial.len() as u64 > max_extent() {
            return Err(
                BackendError::new("object is larger than the addressable range", Action::Init),
            );
        }
        Ok(UringObject { data: initial, ring: Uring::new(), stamp: modified })
    }

    fn read(&mut self, offset: u64, length: u64) -> (r: Result<Vec<u8>, BackendError>) {
        let ghost v0 = self.data@;
        let id = self.ring.next_id();
        let op = Sqe {
            kind: OpKind::Read,
            offset,
            length,
            data: Vec::new(),
            user_data: id,
            hard_link: true,
        };
        let ghost opv = op@;
        let ghost sq0 = self.ring.sq_view();
        match self.ring.push(op, Action::Read) {
            Ok(()) => (),
            Err(e) => {
                return Err(e);
            },
        }
        proof {
            assert(sq0 =~= Seq::<SqeView>::empty());
            assert(self.ring.sq_view() =~= seq![opv]);
        }
        let ghost cq0 = self.ring.cq_view();
        self.ring.submit_and_wait(&mut self.data);
        proof {
            lemma_single_completion(v0, opv);
            assert(cq0 =~= Seq::<CqeView>::empty());
            assert(self.ring.cq_view() =~= completions_of(v0, seq![opv]));
        }
        let mut cq = self.ring.drain_completions();
        proof {
            assert(cqe_views(cq@) == completions_of(v0, seq![opv]));
            assert(first_match(cqe_views(cq@), id) == 0);
        }
        match find_completion(&mut cq, id, Action::Read) {
            Ok(c) => {
                proof {
                    assert(c@ == completions_of(v0, seq![opv])[0]);
                    assert(c@.buffer == read_view(v0, offset as int, length as int));
                }
                Ok(c.buffer)
            },
            Err(e) => Err(e),
        }
    }

    fn write(&mut self, buffer: &[u8], offset: u64, length: u64) -> (r: Result<
        u64,
        BackendError,
    >) {
        if length > buffer.len() as u64 {
            return Ok(0);
        }
        let ghost v0 = self.data@;
        let id = self.ring.next_id();
        let data = slice_prefix(buffer, length);
        let op = Sqe { kind: OpKind::Write, offset, length, data, user_data: id, hard_link: true };
        let ghost opv = op@;
        let ghost sq0 = self.ring.sq_view();
        match self.ring.push(op, Action::Write) {
            Ok(()) => (),
            Err(e) => {
                return Err(e);
            },
        }
        proof {
            assert(sq0 =~= Seq::<SqeView>::empty());
            assert(self.ring.sq_view() =~= seq![opv]);
        }
        let ghost cq0 = self.ring.cq_view();
        self.ring.submit_and_wait(&mut self.data);
        proof {
            lemma_single_completion(v0, opv);
            assert(cq0 =~= Seq::<CqeView>::empty());
            assert(self.ring.cq_view() =~= completions_of(v0, seq![opv]));
            assert(self.data@ == sqe_step(v0, opv));
        }
        let mut cq = self.ring.drain_completions();
        proof {
            assert(cqe_views(cq@) == completions_of(v0, seq![opv]));
            assert(first_match(cqe_views(cq@), id) == 0);
        }
        match find_completion(&mut cq, id, Action::Write) {
            Ok(c) => {
                proof {
                    assert(c@ == completions_of(v0, seq![opv])[0]);
                    assert(c@.result == sqe_result(v0, opv));
                    assert(opv.data.len() == length);
                }
                if c.result < 0 {
                    Err(BackendError::new("write end exceeds the addressable range", Action::Write))
                } else {
                    Ok(c.result as u64)
                }
            },
            Err(e) => Err(e),
        }
    }

    /// Durability is deferred to the ring's completion semantics; there is
    /// no explicit flush.
    fn sync(&mut self) -> (r: Result<(), BackendError>) {
        Ok(())
    }

    fn status(&self) -> (r: Result<(i64, u64), BackendError>) {
        Ok((self.stamp, self.data.len() as u64))
    }
}

/// What one submitted operation leaves behind: the run and the completion
/// queue of a single entry, spelled out.
proof fn lemma_single_completion(v: Seq<u8>, op: SqeView)
    ensures
        run_sqes(v, seq![op]) == sqe_step(v, op),
        completions_of(v, seq![op]) == seq![
            CqeView { user_data: op.user_data, result: sqe_result(v, op), buffer: sqe_payload(v, op) },
        ],
        first_match(completions_of(v, seq![op]), op.user_data) == 0,
{
    let ops = seq![op];
    assert(ops.drop_first() =~= Seq::<SqeView>::empty());
    assert(run_sqes(sqe_step(v, op), Seq::<SqeView>::empty()) == sqe_step(v, op));
    assert(completions_of(sqe_step(v, op), Seq::<SqeView>::empty()) == Seq::<CqeView>::empty());
    assert(completions_of(v, ops) =~= seq![
        CqeView { user_data: op.user_data, result: sqe_result(v, op), buffer: sqe_payload(v, op) },
    ]);
}

} // verus!
