//! The log data model and its replay semantics: what an ordered chunk of
//! pending operations does to the set of live record identifiers.

use vstd::prelude::*;

verus! {

/// One pending operation against a record. `Add` and `Upsert` leave the
/// record live, `Delete` leaves it dead, and `Update` only changes payload
/// of an already-live record and never alters membership.
#[derive(Clone, Copy, Debug, PartialEq, Eq)]
pub enum Operation {
    Add,
    Update,
    Upsert,
    Delete,
}

/// The part of a log entry that matters for counting: which record it
/// concerns and what it does to it. Payloads are irrelevant to liveness.
#[derive(Clone, Debug, PartialEq, Eq)]
pub struct OperationRecord {
    pub id: String,
    pub operation: Operation,
}

/// One entry of the operation log. Offsets ascend within a chunk; replay
/// order (and with it "last operation wins") is the iteration order.
#[derive(Clone, Debug, PartialEq, Eq)]
pub struct LogRecord {
    pub log_offset: i64,
    pub record: OperationRecord,
}

/// Whether an operation leaves its record live.
pub open spec fn is_write(op: Operation) -> bool {
    op == Operation::Add || op == Operation::Upsert
}

/// The live set after applying one log record to `live`: `Add`/`Upsert`
/// insert the id, `Delete` removes it, `Update` changes nothing.
pub open spec fn apply_operation(live: Set<Seq<char>>, r: LogRecord) -> Set<Seq<char>> {
    match r.record.operation {
        Operation::Add | Operation::Upsert => live.insert(r.record.id@),
        Operation::Delete => live.remove(r.record.id@),
        Operation::Update => live,
    }
}

/// The live set after replaying a whole log, in order, on top of `init`.
pub open spec fn live_after(log: Seq<LogRecord>, init: Set<Seq<char>>) -> Set<Seq<char>>
    decreases log.len(),
{
    if log.len() == 0 {
        init
    } else {
        apply_operation(live_after(log.drop_last(), init), log.last())
    }
}

/// What the last membership-affecting operation of `log` says about `id`:
/// `Some(true)` if it is `Add`/`Upsert`, `Some(false)` if it is `Delete`,
/// `None` if the log never touches the membership of `id`.
pub open spec fn final_liveness(log: Seq<LogRecord>, id: Seq<char>) -> Option<bool>
    decreases log.len(),
{
    if log.len() == 0 {
        None
    } else {
        let r = log.last();
        if r.record.id@ == id && is_write(r.record.operation) {
            Some(true)
        } else if r.record.id@ == id && r.record.operation == Operation::Delete {
            Some(false)
        } else {
            final_liveness(log.drop_last(), id)
        }
    }
}

/// The ids whose last membership-affecting operation in `log` is a write.
pub open spec fn finally_live_ids(log: Seq<LogRecord>) -> Set<Seq<char>> {
    Set::new(|id: Seq<char>| final_liveness(log, id) == Some(true))
}

pub proof fn lemma_live_after_push(log: Seq<LogRecord>, r: LogRecord, init: Set<Seq<char>>)
    ensures
        live_after(log.push(r), init) == apply_operation(live_after(log, init), r),
{
    assert(log.push(r).drop_last() =~= log);
}

pub proof fn lemma_live_after_finite(log: Seq<LogRecord>, init: Set<Seq<char>>)
    requires
        init.finite(),
    ensures
        live_after(log, init).finite(),
    decreases log.len(),
{
    if log.len() > 0 {
        lemma_live_after_finite(log.drop_last(), init);
    }
}

/// Last operation wins: after replaying `log` on top of `init`, an id is
/// live exactly as its last membership-affecting operation says, however
/// often it toggled before; ids the log never touches keep their
/// membership in `init`. As membership in a set, a finally-live id is
/// counted exactly once, a finally-dead one zero times.
pub proof fn lemma_last_operation_wins(log: Seq<LogRecord>, init: Set<Seq<char>>, id: Seq<char>)
    ensures
        live_after(log, init).contains(id) == (match final_liveness(log, id) {
            Some(live) => live,
            None => init.contains(id),
        }),
    decreases log.len(),
{
    if log.len() > 0 {
        lemma_last_operation_wins(log.drop_last(), init, id);
    }
}

/// Counting from the log alone: replaying the log on an empty live set
/// yields precisely the ids whose last membership-affecting operation is
/// `Add` or `Upsert`.
pub proof fn lemma_log_only_live_set(log: Seq<LogRecord>)
    ensures
        live_after(log, Set::empty()) == finally_live_ids(log),
        live_after(log, Set::empty()).finite(),
{
    assert forall|id: Seq<char>|
        live_after(log, Set::empty()).contains(id) == finally_live_ids(log).contains(id) by {
        lemma_last_operation_wins(log, Set::empty(), id);
    }
    assert(live_after(log, Set::empty()) =~= finally_live_ids(log));
    lemma_live_after_finite(log, Set::empty());
}

/// An `Update` record never changes the outcome of replay, at whatever
/// position of the log it is inserted.
pub proof fn lemma_update_never_changes_liveness(
    log: Seq<LogRecord>,
    i: int,
    r: LogRecord,
    init: Set<Seq<char>>,
)
    requires
        0 <= i <= log.len(),
        r.record.operation == Operation::Update,
    ensures
        live_after(log.insert(i, r), init) == live_after(log, init),
    decreases log.len(),
{
    let extended = log.insert(i, r);
    log.insert_ensures(i, r);
    if i == log.len() {
        assert(extended =~= log.push(r));
        lemma_live_after_push(log, r, init);
    } else {
        assert(extended.last() == log.last());
        assert(extended.drop_last() =~= log.drop_last().insert(i, r));
        lemma_update_never_changes_liveness(log.drop_last(), i, r, init);
    }
}

} // verus!
