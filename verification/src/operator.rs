//! The count reconciliation algorithm and the operator around it: merging
//! the pending operation log with what the record segment reports into one
//! logical count of live records.

use vstd::prelude::*;

use crate::errors::{CountRecordsError, CreationFailure, ReadFailure};
use crate::idset::IdSet;
use crate::records::{
    apply_operation, final_liveness, finally_live_ids, lemma_live_after_push,
    lemma_log_only_live_set, live_after, LogRecord, Operation,
};

verus! {

/// The ids of the log records whose existence check against the segment
/// came back positive: ids present (live or tombstoned) in committed state.
pub open spec fn overlap_ids(log: Seq<LogRecord>, present: Seq<bool>) -> Set<Seq<char>>
    recommends
        log.len() == present.len(),
    decreases log.len(),
{
    if log.len() == 0 {
        Set::empty()
    } else {
        let prev = overlap_ids(log.drop_last(), present.drop_last());
        if present.last() {
            prev.insert(log.last().record.id@)
        } else {
            prev
        }
    }
}

/// Replays `log` on top of `init`, applying only the records whose id is
/// inside `members` (for `inside == true`) or outside it (`inside == false`).
pub open spec fn replay_restricted(
    log: Seq<LogRecord>,
    members: Set<Seq<char>>,
    inside: bool,
    init: Set<Seq<char>>,
) -> Set<Seq<char>>
    decreases log.len(),
{
    if log.len() == 0 {
        init
    } else {
        let prev = replay_restricted(log.drop_last(), members, inside, init);
        if members.contains(log.last().record.id@) == inside {
            apply_operation(prev, log.last())
        } else {
            prev
        }
    }
}

/// Of the ids present in the segment and touched by the log, those whose
/// log history ends live.
pub open spec fn segment_survivors(log: Seq<LogRecord>, present: Seq<bool>) -> Set<Seq<char>> {
    replay_restricted(log, overlap_ids(log, present), true, overlap_ids(log, present))
}

/// The ids absent from the segment that the log alone makes live.
pub open spec fn log_additions(log: Seq<LogRecord>, present: Seq<bool>) -> Set<Seq<char>> {
    replay_restricted(log, overlap_ids(log, present), false, Set::empty())
}

/// The reconciled count over a ready segment: the committed count, minus
/// the committed ids the log deleted (net of toggles), plus the absent ids
/// the log made live. Signed: corrupt upstream state could drive it
/// negative, which is a data-integrity fault, not a runtime condition.
pub open spec fn reconciled_count(log: Seq<LogRecord>, present: Seq<bool>, base: int) -> int {
    base - (overlap_ids(log, present).len() - segment_survivors(log, present).len())
        + log_additions(log, present).len()
}

/// What a signed count becomes in an unsigned machine word: well-formed
/// input never leaves `[0, usize::MAX]`, and a value outside it signals an
/// upstream invariant violation.
pub open spec fn clamped_to_usize(v: int) -> int {
    if v < 0 {
        0
    } else if v > usize::MAX as int {
        usize::MAX as int
    } else {
        v
    }
}

proof fn lemma_overlap_ids_push(log: Seq<LogRecord>, present: Seq<bool>, r: LogRecord, b: bool)
    requires
        log.len() == present.len(),
    ensures
        overlap_ids(log.push(r), present.push(b)) == (if b {
            overlap_ids(log, present).insert(r.record.id@)
        } else {
            overlap_ids(log, present)
        }),
{
    assert(log.push(r).drop_last() =~= log);
    assert(present.push(b).drop_last() =~= present);
}

proof fn lemma_replay_restricted_push(
    log: Seq<LogRecord>,
    members: Set<Seq<char>>,
    inside: bool,
    init: Set<Seq<char>>,
    r: LogRecord,
)
    ensures
        replay_restricted(log.push(r), members, inside, init) == (if members.contains(
            r.record.id@,
        ) == inside {
            apply_operation(replay_restricted(log, members, inside, init), r)
        } else {
            replay_restricted(log, members, inside, init)
        }),
{
    assert(log.push(r).drop_last() =~= log);
}

proof fn lemma_overlap_ids_finite(log: Seq<LogRecord>, present: Seq<bool>)
    ensures
        overlap_ids(log, present).finite(),
    decreases log.len(),
{
    if log.len() > 0 {
        lemma_overlap_ids_finite(log.drop_last(), present.drop_last());
    }
}

proof fn lemma_replay_restricted_finite(
    log: Seq<LogRecord>,
    members: Set<Seq<char>>,
    inside: bool,
    init: Set<Seq<char>>,
)
    requires
        init.finite(),
    ensures
        replay_restricted(log, members, inside, init).finite(),
    decreases log.len(),
{
    if log.len() > 0 {
        lemma_replay_restricted_finite(log.drop_last(), members, inside, init);
    }
}

/// The inside replay never leaves the member set: it starts inside it and
/// only ever inserts ids that belong to it.
proof fn lemma_replay_restricted_inside_subset(
    log: Seq<LogRecord>,
    members: Set<Seq<char>>,
    init: Set<Seq<char>>,
)
    requires
        init.subset_of(members),
    ensures
        replay_restricted(log, members, true, init).subset_of(members),
    decreases log.len(),
{
    if log.len() > 0 {
        lemma_replay_restricted_inside_subset(log.drop_last(), members, init);
    }
}

/// Counts live records from the log alone: the branch for a segment that
/// has never been compacted. Replays the chunk in order on an empty live
/// set; `Add`/`Upsert` insert the id, `Delete` removes it, `Update` is
/// ignored; the result is the size of the final set.
pub fn count_from_log(log_records: &Vec<LogRecord>) -> (count: usize)
    ensures
        count == live_after(log_records@, Set::<Seq<char>>::empty()).len(),
{
    let n = log_records.len();
    let mut live = IdSet::new();
    let mut i: usize = 0;
    while i < n
        invariant
            i <= n,
            n == log_records@.len(),
            live.wf(),
            live@ == live_after(log_records@.subrange(0, i as int), Set::<Seq<char>>::empty()),
        decreases n - i,
    {
        let r = &log_records[i];
        match r.record.operation {
            Operation::Add | Operation::Upsert => live.insert(&r.record.id),
            Operation::Delete => live.remove(&r.record.id),
            Operation::Update => (),
        }
        proof {
            let prefix = log_records@.subrange(0, i as int);
            assert(log_records@.subrange(0, i as int + 1) =~= prefix.push(log_records@[i as int]));
            lemma_live_after_push(prefix, log_records@[i as int], Set::<Seq<char>>::empty());
        }
        i += 1;
    }
    proof {
        assert(log_records@.subrange(0, n as int) =~= log_records@);
    }
    live.len()
}

/// Reconciles the log against a ready segment, given the segment's answer
/// to one existence check per log record and its committed count. First
/// collects the overlap (ids the segment knows), then replays the log once
/// to derive final liveness on each side of that partition, and adjusts
/// the committed count by the net deletions and net additions.
pub fn reconcile_with_segment(
    log_records: &Vec<LogRecord>,
    present: &Vec<bool>,
    committed_count: usize,
) -> (count: usize)
    requires
        present@.len() == log_records@.len(),
    ensures
        count == clamped_to_usize(
            reconciled_count(log_records@, present@, committed_count as int),
        ),
{
    let n = log_records.len();
    let mut overlap = IdSet::new();
    let mut i: usize = 0;
    while i < n
        invariant
            i <= n,
            n == log_records@.len(),
            present@.len() == n,
            overlap.wf(),
            overlap@ == overlap_ids(
                log_records@.subrange(0, i as int),
                present@.subrange(0, i as int),
            ),
        decreases n - i,
    {
        if present[i] {
            overlap.insert(&log_records[i].record.id);
        }
        proof {
            let log_prefix = log_records@.subrange(0, i as int);
            let present_prefix = present@.subrange(0, i as int);
            assert(log_records@.subrange(0, i as int + 1) =~= log_prefix.push(
                log_records@[i as int],
            ));
            assert(present@.subrange(0, i as int + 1) =~= present_prefix.push(
                present@[i as int],
            ));
            lemma_overlap_ids_push(
                log_prefix,
                present_prefix,
                log_records@[i as int],
                present@[i as int],
            );
        }
        i += 1;
    }
    proof {
        assert(log_records@.subrange(0, n as int) =~= log_records@);
        assert(present@.subrange(0, n as int) =~= present@);
    }
    let ghost members = overlap@;
    let mut survivors = overlap.duplicate();
    let mut additions = IdSet::new();
    i = 0;
    while i < n
        invariant
            i <= n,
            n == log_records@.len(),
            overlap.wf(),
            survivors.wf(),
            additions.wf(),
            overlap@ == members,
            survivors@ == replay_restricted(
                log_records@.subrange(0, i as int),
                members,
                true,
                members,
            ),
            additions@ == replay_restricted(
                log_records@.subrange(0, i as int),
                members,
                false,
                Set::<Seq<char>>::empty(),
            ),
        decreases n - i,
    {
        let r = &log_records[i];
        if overlap.contains(&r.record.id) {
            match r.record.operation {
                Operation::Add | Operation::Upsert => survivors.insert(&r.record.id),
                Operation::Delete => survivors.remove(&r.record.id),
                Operation::Update => (),
            }
        } else {
            match r.record.operation {
                Operation::Add | Operation::Upsert => additions.insert(&r.record.id),
                Operation::Delete => additions.remove(&r.record.id),
                Operation::Update => (),
            }
        }
        proof {
            let prefix = log_records@.subrange(0, i as int);
            assert(log_records@.subrange(0, i as int + 1) =~= prefix.push(log_records@[i as int]));
            lemma_replay_restricted_push(prefix, members, true, members, log_records@[i as int]);
            lemma_replay_restricted_push(
                prefix,
                members,
                false,
                Set::<Seq<char>>::empty(),
                log_records@[i as int],
            );
        }
        i += 1;
    }
    proof {
        assert(log_records@.subrange(0, n as int) =~= log_records@);
    }
    let overlap_len = overlap.len();
    let survivors_len = survivors.len();
    let additions_len = additions.len();
    proof {
        lemma_replay_restricted_inside_subset(log_records@, members, members);
        vstd::set_lib::lemma_len_subset(survivors@, members);
    }
    let removed = overlap_len - survivors_len;
    let signed_count: i128 = committed_count as i128 + additions_len as i128 - removed as i128;
    if signed_count < 0 {
        0
    } else if signed_count > usize::MAX as i128 {
        usize::MAX
    } else {
        signed_count as usize
    }
}

/// What reading a ready segment for one count query produced: either every
/// existence check (one answer per log record, in log order) together with
/// the committed count, or the read failure that aborted the pass.
#[derive(Debug, PartialEq, Eq)]
pub enum SegmentReads {
    Failed(ReadFailure),
    Complete { present: Vec<bool>, committed_count: usize },
}

/// How acquiring the segment handle went: a ready handle whose reads were
/// gathered, or the creation failure that open reported. An uninitialized
/// segment arrives as `NotOpened(CreationFailure::Uninitialized)` and is
/// the one non-fatal case.
#[derive(Debug, PartialEq, Eq)]
pub enum SegmentHandle {
    NotOpened(CreationFailure),
    Opened(SegmentReads),
}

/// The input of one count query: the pending log chunk, ordered ascending
/// by offset, and what the storage layer reported about the segment.
#[derive(Debug, PartialEq, Eq)]
pub struct CountRecordsInput {
    pub log_records: Vec<LogRecord>,
    pub segment: SegmentHandle,
}

/// The result of one count query.
#[derive(Debug, PartialEq, Eq)]
pub struct CountRecordsOutput {
    pub count: usize,
}

/// The operator an orchestration layer dispatches a count query to.
#[derive(Debug, PartialEq, Eq, Structural)]
pub struct CountRecordsOperator {}

impl CountRecordsInput {
    /// Completed segment reads answer exactly one existence check per log
    /// record.
    pub open spec fn wf(&self) -> bool {
        match self.segment {
            SegmentHandle::Opened(SegmentReads::Complete { present, committed_count: _ }) => {
                present@.len() == self.log_records@.len()
            },
            _ => true,
        }
    }

    pub fn new(log_records: Vec<LogRecord>, segment: SegmentHandle) -> (input: Self)
        ensures
            input.log_records == log_records,
            input.segment == segment,
    {
        Self { log_records, segment }
    }
}

/// The outcome one count query must have, as a function of its input and
/// nothing else. An uninitialized segment is counted from the log alone;
/// any other creation failure, and any read failure, is surfaced unchanged
/// with its classification kept; a ready segment's count is the reconciled
/// count. No fallback count is ever returned on a fatal failure.
pub open spec fn count_outcome(input: CountRecordsInput) -> Result<
    CountRecordsOutput,
    CountRecordsError,
> {
    match input.segment {
        SegmentHandle::NotOpened(failure) => {
            if failure == CreationFailure::Uninitialized {
                Ok(
                    CountRecordsOutput {
                        count: live_after(
                            input.log_records@,
                            Set::<Seq<char>>::empty(),
                        ).len() as usize,
                    },
                )
            } else {
                Err(CountRecordsError::RecordSegmentCreateError(failure))
            }
        },
        SegmentHandle::Opened(reads) => match reads {
            SegmentReads::Failed(failure) => Err(
                CountRecordsError::RecordSegmentReadError(failure),
            ),
            SegmentReads::Complete { present, committed_count } => Ok(
                CountRecordsOutput {
                    count: clamped_to_usize(
                        reconciled_count(input.log_records@, present@, committed_count as int),
                    ) as usize,
                },
            ),
        },
    }
}

impl CountRecordsOperator {
    pub fn new() -> (operator: Box<CountRecordsOperator>)
        ensures
            *operator == (CountRecordsOperator {  }),
    {
        Box::new(CountRecordsOperator {})
    }

    /// The stable identifier callers use for tracing.
    pub fn get_name(&self) -> (name: &'static str)
        ensures
            name@ == "CountRecordsOperator"@,
    {
        "CountRecordsOperator"
    }

    /// Runs one count query: selects the branch from how the segment
    /// opened, counts, and surfaces every fatal failure unchanged. The
    /// log-only fallback is taken exactly on an uninitialized segment.
    pub fn run(&self, input: &CountRecordsInput) -> (result: Result<
        CountRecordsOutput,
        CountRecordsError,
    >)
        requires
            input.wf(),
        ensures
            result == count_outcome(*input),
    {
        match &input.segment {
            SegmentHandle::NotOpened(failure) => match failure {
                CreationFailure::Uninitialized => Ok(
                    CountRecordsOutput { count: count_from_log(&input.log_records) },
                ),
                _ => Err(CountRecordsError::RecordSegmentCreateError(failure.duplicate())),
            },
            SegmentHandle::Opened(reads) => match reads {
                SegmentReads::Failed(failure) => Err(
                    CountRecordsError::RecordSegmentReadError(failure.duplicate()),
                ),
                SegmentReads::Complete { present, committed_count } => Ok(
                    CountRecordsOutput {
                        count: reconcile_with_segment(
                            &input.log_records,
                            present,
                            *committed_count,
                        ),
                    },
                ),
            },
        }
    }
}

/// For an uninitialized segment the count is exactly the number of ids
/// whose last membership-affecting log operation is `Add` or `Upsert`.
pub proof fn lemma_uninitialized_count_is_final_writes(input: CountRecordsInput)
    requires
        input.segment == SegmentHandle::NotOpened(CreationFailure::Uninitialized),
    ensures
        count_outcome(input) == Ok::<CountRecordsOutput, CountRecordsError>(
            (CountRecordsOutput { count: finally_live_ids(input.log_records@).len() as usize }),
        ),
{
    lemma_log_only_live_set(input.log_records@);
}

/// With an empty log chunk and a ready segment, the count is exactly the
/// segment's committed count.
pub proof fn lemma_empty_log_uses_committed_count(
    input: CountRecordsInput,
    present: Vec<bool>,
    committed_count: usize,
)
    requires
        input.log_records@.len() == 0,
        input.segment == SegmentHandle::Opened(
            SegmentReads::Complete { present, committed_count },
        ),
        input.wf(),
    ensures
        count_outcome(input) == Ok::<CountRecordsOutput, CountRecordsError>(
            (CountRecordsOutput { count: committed_count }),
        ),
{
    assert(overlap_ids(input.log_records@, present@) == Set::<Seq<char>>::empty());
    assert(Set::<Seq<char>>::empty().len() == 0);
}

/// Re-running on identical inputs yields an identical result: the outcome
/// is a function of the input alone, `run` borrows its input immutably,
/// and no other state enters the computation.
pub proof fn lemma_rerun_yields_identical_result(
    first: CountRecordsInput,
    second: CountRecordsInput,
)
    requires
        first == second,
    ensures
        count_outcome(first) == count_outcome(second),
{
}

/// Last operation wins on either side of the overlap partition as well:
/// in the replay that derives the segment-side and log-side deltas, an
/// id's final membership is decided by its last membership-affecting
/// operation alone, however often it toggled before — so it contributes
/// exactly once if finally live and not at all otherwise.
pub proof fn lemma_last_operation_wins_restricted(
    log: Seq<LogRecord>,
    members: Set<Seq<char>>,
    inside: bool,
    init: Set<Seq<char>>,
    id: Seq<char>,
)
    requires
        members.contains(id) == inside,
    ensures
        replay_restricted(log, members, inside, init).contains(id) == (match final_liveness(
            log,
            id,
        ) {
            Some(live) => live,
            None => init.contains(id),
        }),
    decreases log.len(),
{
    if log.len() > 0 {
        lemma_last_operation_wins_restricted(log.drop_last(), members, inside, init, id);
    }
}

/// A log that never mentions an id never settles its membership.
proof fn lemma_final_liveness_none_when_untouched(log: Seq<LogRecord>, id: Seq<char>)
    requires
        id_untouched(log, id),
    ensures
        final_liveness(log, id) is None,
    decreases log.len(),
{
    if log.len() > 0 {
        assert(log[log.len() - 1].record.id@ != id);
        assert(id_untouched(log.drop_last(), id));
        lemma_final_liveness_none_when_untouched(log.drop_last(), id);
    }
}

/// The outside replay stays outside the member set: it starts disjoint
/// from it and only ever inserts ids that do not belong to it.
proof fn lemma_replay_restricted_outside_disjoint(
    log: Seq<LogRecord>,
    members: Set<Seq<char>>,
    init: Set<Seq<char>>,
)
    requires
        init.disjoint(members),
    ensures
        replay_restricted(log, members, false, init).disjoint(members),
    decreases log.len(),
{
    if log.len() > 0 {
        lemma_replay_restricted_outside_disjoint(log.drop_last(), members, init);
    }
}

/// Every existence answer agrees with one committed live set: the segment
/// answers the check for record `i` with whether its id is committed live.
pub open spec fn present_from(
    log: Seq<LogRecord>,
    present: Seq<bool>,
    committed: Set<Seq<char>>,
) -> bool {
    forall|i: int| 0 <= i < log.len() ==> present[i] == committed.contains(log[i].record.id@)
}

/// The reconciliation is the true count: when the existence answers and
/// the committed count both come from one committed live set, the
/// reconciled count equals the number of ids live after replaying the
/// whole log, in order, on top of that set.
pub proof fn lemma_reconciled_count_is_true_count(
    log: Seq<LogRecord>,
    present: Seq<bool>,
    committed: Set<Seq<char>>,
)
    requires
        log.len() == present.len(),
        committed.finite(),
        present_from(log, present, committed),
    ensures
        reconciled_count(log, present, committed.len() as int) == live_after(
            log,
            committed,
        ).len(),
{
    let ov = overlap_ids(log, present);
    let survivors = segment_survivors(log, present);
    let additions = log_additions(log, present);
    let live = live_after(log, committed);
    let middle = committed.difference(ov);
    lemma_overlap_ids_finite(log, present);
    lemma_replay_restricted_finite(log, ov, true, ov);
    lemma_replay_restricted_finite(log, ov, false, Set::<Seq<char>>::empty());
    crate::records::lemma_live_after_finite(log, committed);
    lemma_replay_restricted_inside_subset(log, ov, ov);
    lemma_replay_restricted_outside_disjoint(log, ov, Set::<Seq<char>>::empty());
    assert forall|id: Seq<char>| #[trigger] ov.contains(id) implies committed.contains(id) by {
        lemma_overlap_ids_contains(log, present, id);
        let j = choose|j: int| 0 <= j < log.len() && log[j].record.id@ == id && present[j];
        assert(present[j] == committed.contains(log[j].record.id@));
    }
    assert forall|id: Seq<char>|
        committed.contains(id) && !ov.contains(id) implies #[trigger] id_untouched(log, id) by {
        lemma_overlap_ids_contains(log, present, id);
        assert forall|j: int| 0 <= j < log.len() implies log[j].record.id@ != id by {
            if log[j].record.id@ == id {
                assert(present[j] == committed.contains(log[j].record.id@));
                assert(ov.contains(id));
            }
        }
    }
    assert forall|id: Seq<char>| #[trigger] live.contains(id) implies survivors.union(
        middle,
    ).union(additions).contains(id) by {
        crate::records::lemma_last_operation_wins(log, committed, id);
        if ov.contains(id) {
            lemma_last_operation_wins_restricted(log, ov, true, ov, id);
        } else if committed.contains(id) {
            assert(id_untouched(log, id));
        } else {
            lemma_last_operation_wins_restricted(log, ov, false, Set::<Seq<char>>::empty(), id);
        }
    }
    assert forall|id: Seq<char>|
        survivors.union(middle).union(additions).contains(id) implies #[trigger] live.contains(
        id,
    ) by {
        crate::records::lemma_last_operation_wins(log, committed, id);
        if survivors.contains(id) {
            lemma_last_operation_wins_restricted(log, ov, true, ov, id);
        } else if middle.contains(id) {
            assert(id_untouched(log, id));
            lemma_final_liveness_none_when_untouched(log, id);
        } else {
            assert(additions.contains(id));
            assert(!ov.contains(id));
            if committed.contains(id) {
                assert(id_untouched(log, id));
                lemma_final_liveness_none_when_untouched(log, id);
                lemma_last_operation_wins_restricted(
                    log,
                    ov,
                    false,
                    Set::<Seq<char>>::empty(),
                    id,
                );
                assert(false);
            }
            lemma_last_operation_wins_restricted(log, ov, false, Set::<Seq<char>>::empty(), id);
        }
    }
    assert(live =~= survivors.union(middle).union(additions));
    assert forall|id: Seq<char>| #[trigger] additions.contains(id) implies !committed.contains(
        id,
    ) by {
        assert(!ov.contains(id));
        if committed.contains(id) {
            assert(id_untouched(log, id));
            lemma_final_liveness_none_when_untouched(log, id);
            lemma_last_operation_wins_restricted(log, ov, false, Set::<Seq<char>>::empty(), id);
        }
    }
    assert(survivors.disjoint(middle));
    assert(survivors.union(middle).disjoint(additions));
    assert(ov.disjoint(middle));
    vstd::set_lib::lemma_set_disjoint_lens(survivors, middle);
    vstd::set_lib::lemma_set_disjoint_lens(survivors.union(middle), additions);
    vstd::set_lib::lemma_set_disjoint_lens(ov, middle);
    assert(ov.union(middle) =~= committed);
    assert(committed.len() == ov.len() + middle.len());
    assert(live.len() == survivors.len() + middle.len() + additions.len());
}

/// The operator returns the true count: when a ready segment's answers
/// all come from one committed live set, the query returns the number of
/// ids live after replaying the log on that set (clamped to the machine
/// word, which well-formed sizes never reach).
pub proof fn lemma_count_outcome_is_live_records(
    input: CountRecordsInput,
    present: Vec<bool>,
    committed_count: usize,
    committed: Set<Seq<char>>,
)
    requires
        input.segment == SegmentHandle::Opened(
            SegmentReads::Complete { present, committed_count },
        ),
        present@.len() == input.log_records@.len(),
        committed.finite(),
        present_from(input.log_records@, present@, committed),
        committed_count == committed.len(),
    ensures
        count_outcome(input) == Ok::<CountRecordsOutput, CountRecordsError>(
            (CountRecordsOutput {
                count: clamped_to_usize(
                    live_after(input.log_records@, committed).len() as int,
                ) as usize,
            }),
        ),
{
    lemma_reconciled_count_is_true_count(input.log_records@, present@, committed);
}

/// The existence answers come from one segment, so every occurrence of an
/// id in the log received the same answer.
pub open spec fn consistent_presence(log: Seq<LogRecord>, present: Seq<bool>) -> bool {
    forall|i: int, j: int|
        0 <= i < log.len() && 0 <= j < log.len() && log[i].record.id@ == log[j].record.id@
            ==> present[i] == present[j]
}

/// No record of `log` concerns `id`.
pub open spec fn id_untouched(log: Seq<LogRecord>, id: Seq<char>) -> bool {
    forall|j: int| 0 <= j < log.len() ==> log[j].record.id@ != id
}

proof fn lemma_overlap_ids_contains(log: Seq<LogRecord>, present: Seq<bool>, id: Seq<char>)
    requires
        log.len() == present.len(),
    ensures
        overlap_ids(log, present).contains(id) <==> exists|j: int|
            0 <= j < log.len() && log[j].record.id@ == id && present[j],
    decreases log.len(),
{
    if log.len() > 0 {
        lemma_overlap_ids_contains(log.drop_last(), present.drop_last(), id);
        if present.last() && log.last().record.id@ == id {
            assert(log[log.len() - 1].record.id@ == id && present[log.len() - 1]);
        } else if overlap_ids(log, present).contains(id) {
            let j = choose|j: int|
                0 <= j < log.drop_last().len() && log.drop_last()[j].record.id@ == id
                    && present.drop_last()[j];
            assert(log[j].record.id@ == id && present[j]);
        } else if exists|j: int| 0 <= j < log.len() && log[j].record.id@ == id && present[j] {
            let j = choose|j: int| 0 <= j < log.len() && log[j].record.id@ == id && present[j];
            assert(j < log.len() - 1);
            assert(log.drop_last()[j].record.id@ == id && present.drop_last()[j]);
        }
    }
}

proof fn lemma_overlap_ids_insert(
    log: Seq<LogRecord>,
    present: Seq<bool>,
    i: int,
    r: LogRecord,
    b: bool,
)
    requires
        log.len() == present.len(),
        0 <= i <= log.len(),
    ensures
        overlap_ids(log.insert(i, r), present.insert(i, b)) == (if b {
            overlap_ids(log, present).insert(r.record.id@)
        } else {
            overlap_ids(log, present)
        }),
    decreases log.len(),
{
    log.insert_ensures(i, r);
    present.insert_ensures(i, b);
    if i == log.len() {
        assert(log.insert(i, r) =~= log.push(r));
        assert(present.insert(i, b) =~= present.push(b));
        lemma_overlap_ids_push(log, present, r, b);
    } else {
        assert(log.insert(i, r).last() == log.last());
        assert(present.insert(i, b).last() == present.last());
        assert(log.insert(i, r).drop_last() =~= log.drop_last().insert(i, r));
        assert(present.insert(i, b).drop_last() =~= present.drop_last().insert(i, b));
        lemma_overlap_ids_insert(log.drop_last(), present.drop_last(), i, r, b);
        if b && present.last() {
            assert(overlap_ids(log.drop_last(), present.drop_last()).insert(r.record.id@).insert(
                log.last().record.id@,
            ) =~= overlap_ids(log.drop_last(), present.drop_last()).insert(
                log.last().record.id@,
            ).insert(r.record.id@));
        }
    }
}

proof fn lemma_replay_restricted_update_insert(
    log: Seq<LogRecord>,
    members: Set<Seq<char>>,
    inside: bool,
    init: Set<Seq<char>>,
    i: int,
    r: LogRecord,
)
    requires
        0 <= i <= log.len(),
        r.record.operation == Operation::Update,
    ensures
        replay_restricted(log.insert(i, r), members, inside, init) == replay_restricted(
            log,
            members,
            inside,
            init,
        ),
    decreases log.len(),
{
    log.insert_ensures(i, r);
    if i == log.len() {
        assert(log.insert(i, r) =~= log.push(r));
        lemma_replay_restricted_push(log, members, inside, init, r);
    } else {
        assert(log.insert(i, r).last() == log.last());
        assert(log.insert(i, r).drop_last() =~= log.drop_last().insert(i, r));
        lemma_replay_restricted_update_insert(log.drop_last(), members, inside, init, i, r);
    }
}

proof fn lemma_replay_inside_fresh_member(
    log: Seq<LogRecord>,
    members: Set<Seq<char>>,
    init: Set<Seq<char>>,
    id: Seq<char>,
)
    requires
        id_untouched(log, id),
    ensures
        replay_restricted(log, members.insert(id), true, init.insert(id)) == replay_restricted(
            log,
            members,
            true,
            init,
        ).insert(id),
    decreases log.len(),
{
    if log.len() > 0 {
        assert(id_untouched(log.drop_last(), id));
        lemma_replay_inside_fresh_member(log.drop_last(), members, init, id);
        let r = log.last();
        let rid = r.record.id@;
        assert(log[log.len() - 1].record.id@ != id);
        let prev = replay_restricted(log.drop_last(), members, true, init);
        if members.contains(rid) {
            assert(prev.insert(id).insert(rid) =~= prev.insert(rid).insert(id));
            assert(prev.insert(id).remove(rid) =~= prev.remove(rid).insert(id));
        }
    }
}

proof fn lemma_replay_outside_fresh_member(
    log: Seq<LogRecord>,
    members: Set<Seq<char>>,
    init: Set<Seq<char>>,
    id: Seq<char>,
)
    requires
        id_untouched(log, id),
    ensures
        replay_restricted(log, members.insert(id), false, init) == replay_restricted(
            log,
            members,
            false,
            init,
        ),
    decreases log.len(),
{
    if log.len() > 0 {
        assert(id_untouched(log.drop_last(), id));
        lemma_replay_outside_fresh_member(log.drop_last(), members, init, id);
        assert(log[log.len() - 1].record.id@ != id);
    }
}

/// An `Update` record never changes the reconciled count either: inserted
/// anywhere in the log of a ready segment, with the existence answer the
/// segment gives for its id, the result stays the same.
pub proof fn lemma_update_never_changes_reconciled_count(
    log: Seq<LogRecord>,
    present: Seq<bool>,
    i: int,
    r: LogRecord,
    b: bool,
    base: int,
)
    requires
        log.len() == present.len(),
        consistent_presence(log, present),
        0 <= i <= log.len(),
        r.record.operation == Operation::Update,
        forall|j: int|
            0 <= j < log.len() && log[j].record.id@ == r.record.id@ ==> present[j] == b,
    ensures
        reconciled_count(log.insert(i, r), present.insert(i, b), base) == reconciled_count(
            log,
            present,
            base,
        ),
{
    let rid = r.record.id@;
    let extended_log = log.insert(i, r);
    let extended_present = present.insert(i, b);
    let ov = overlap_ids(log, present);
    log.insert_ensures(i, r);
    present.insert_ensures(i, b);
    lemma_overlap_ids_insert(log, present, i, r, b);
    lemma_overlap_ids_finite(log, present);
    if !b {
        lemma_replay_restricted_update_insert(log, ov, true, ov, i, r);
        lemma_replay_restricted_update_insert(log, ov, false, Set::<Seq<char>>::empty(), i, r);
    } else {
        let ov2 = ov.insert(rid);
        if ov.contains(rid) {
            assert(ov2 =~= ov);
            lemma_replay_restricted_update_insert(log, ov, true, ov, i, r);
            lemma_replay_restricted_update_insert(log, ov, false, Set::<Seq<char>>::empty(), i, r);
        } else {
            lemma_overlap_ids_contains(log, present, rid);
            assert forall|j: int| 0 <= j < log.len() implies log[j].record.id@ != rid by {
                if log[j].record.id@ == rid {
                    assert(present[j] == b);
                }
            }
            assert(id_untouched(log, rid));
            lemma_replay_restricted_update_insert(log, ov2, true, ov2, i, r);
            lemma_replay_restricted_update_insert(log, ov2, false, Set::<Seq<char>>::empty(), i, r);
            lemma_replay_inside_fresh_member(log, ov, ov, rid);
            lemma_replay_outside_fresh_member(log, ov, Set::<Seq<char>>::empty(), rid);
            let survivors = replay_restricted(log, ov, true, ov);
            lemma_replay_restricted_inside_subset(log, ov, ov);
            lemma_replay_restricted_finite(log, ov, true, ov);
            assert(!survivors.contains(rid));
            assert(segment_survivors(extended_log, extended_present) == survivors.insert(rid));
            assert(ov2.len() == ov.len() + 1);
            assert(survivors.insert(rid).len() == survivors.len() + 1);
        }
    }
}

} // verus!
