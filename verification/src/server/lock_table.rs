//! The table of locks: what sessions hold, who waits in the queue, and who waits for whom.
use std::collections::HashMap;
use std::collections::HashSet;
use vstd::prelude::*;

use crate::error::{report, user_error, user_error_text, Report, UserError};
use crate::lists::{kept_where, lemma_kept_where};
use crate::schema::{duplicate_all, option_view, views, Duplicate};
use crate::server::locks::{
    locks_conflict, mysql_locks_conflict, LockModel, MySqlLock, MySqlLockDuration, MySqlLockKind,
    MySqlLockPriority, MySqlLockWaiter, WaiterModel,
};
use crate::text::{decimal, decimal_text, parse_unsigned, three_texts, unsigned_number};

verus! {

broadcast use vstd::std_specs::hash::group_hash_axioms;

/// Statements that change descriptions go first.
pub open spec fn priority_of(locks: Seq<LockModel>) -> MySqlLockPriority {
    if exists|i: int| 0 <= i < locks.len() && (#[trigger] locks[i]).kind is MetadataWrite {
        MySqlLockPriority::High
    } else {
        MySqlLockPriority::Normal
    }
}

/// The priority of a request.
pub fn mysql_lock_priority(locks: &Vec<MySqlLock>) -> (priority: MySqlLockPriority)
    ensures
        priority == priority_of(views(locks@)),
{
    let mut i: usize = 0;
    while i < locks.len()
        invariant
            i <= locks@.len(),
            forall|k: int| 0 <= k < i ==> !((#[trigger] views(locks@)[k]).kind is MetadataWrite),
        decreases locks@.len() - i,
    {
        let write = match locks[i].kind {
            MySqlLockKind::MetadataWrite => true,
            _ => false,
        };
        if write {
            assert(views(locks@)[i as int].kind is MetadataWrite);
            return MySqlLockPriority::High;
        }
        i += 1;
    }
    MySqlLockPriority::Normal
}

/// Whether one lock of a list stands against one of another.
pub open spec fn any_conflict(queued: Seq<LockModel>, requested: Seq<LockModel>) -> bool {
    exists|i: int, j: int|
        0 <= i < queued.len() && 0 <= j < requested.len() && locks_conflict(
            #[trigger] queued[i],
            #[trigger] requested[j],
        )
}

fn has_conflict(queued: &Vec<MySqlLock>, requested: &Vec<MySqlLock>) -> (answer: bool)
    ensures
        answer == any_conflict(views(queued@), views(requested@)),
{
    let mut i: usize = 0;
    while i < queued.len()
        invariant
            i <= queued@.len(),
            forall|a: int, b: int|
                0 <= a < i && 0 <= b < requested@.len() ==> !locks_conflict(
                    #[trigger] views(queued@)[a],
                    #[trigger] views(requested@)[b],
                ),
        decreases queued@.len() - i,
    {
        let mut j: usize = 0;
        while j < requested.len()
            invariant
                i < queued@.len(),
                j <= requested@.len(),
                forall|b: int|
                    0 <= b < j ==> !locks_conflict(
                        views(queued@)[i as int],
                        #[trigger] views(requested@)[b],
                    ),
            decreases requested@.len() - j,
        {
            if mysql_locks_conflict(&queued[i], &requested[j]) {
                assert(locks_conflict(views(queued@)[i as int], views(requested@)[j as int]));
                return true;
            }
            j += 1;
        }
        i += 1;
    }
    false
}

/// The session in the queue that a request waits for: the first ahead of it, of no lower
/// priority, that asks for a lock it conflicts with.
pub open spec fn queue_blocker(
    queue: Seq<WaiterModel>,
    session_id: i32,
    priority: MySqlLockPriority,
    requested: Seq<LockModel>,
) -> Option<i32>
    decreases queue.len(),
{
    if queue.len() == 0 || queue[0].session_id == session_id {
        None
    } else if !(priority is High && queue[0].priority is Normal) && any_conflict(
        queue[0].locks,
        requested,
    ) {
        Some(queue[0].session_id)
    } else {
        queue_blocker(queue.skip(1), session_id, priority, requested)
    }
}

/// The session in the queue that a request waits for.
pub fn mysql_lock_queue_blocker(
    queue: &Vec<MySqlLockWaiter>,
    session_id: i32,
    priority: MySqlLockPriority,
    requested: &Vec<MySqlLock>,
) -> (blocker: Option<i32>)
    ensures
        blocker == queue_blocker(views(queue@), session_id, priority, views(requested@)),
{
    let mut i: usize = 0;
    assert(views(queue@).skip(0) =~= views(queue@));
    while i < queue.len()
        invariant
            i <= queue@.len(),
            queue_blocker(views(queue@), session_id, priority, views(requested@)) == queue_blocker(
                views(queue@).skip(i as int),
                session_id,
                priority,
                views(requested@),
            ),
        decreases queue@.len() - i,
    {
        let waiter = &queue[i];
        assert(views(queue@).skip(i as int)[0] == waiter@);
        assert(views(queue@).skip(i as int).skip(1) =~= views(queue@).skip(i + 1));
        if waiter.session_id == session_id {
            return None;
        }
        let passes = priority == MySqlLockPriority::High && waiter.priority
            == MySqlLockPriority::Normal;
        if !passes && has_conflict(&waiter.locks, requested) {
            return Some(waiter.session_id);
        }
        i += 1;
    }
    None
}

/// Whom a session waits for after some steps along the waits.
pub open spec fn follow(waits: Map<i32, i32>, start: i32, steps: nat) -> Option<i32>
    decreases steps,
{
    if steps == 0 {
        Some(start)
    } else {
        match follow(waits, start, (steps - 1) as nat) {
            Some(session) => if waits.dom().contains(session) {
                Some(waits[session])
            } else {
                None
            },
            None => None,
        }
    }
}

/// Whether a session waits for another, itself or through others.
pub open spec fn reaches(waits: Map<i32, i32>, start: i32, target: i32) -> bool {
    exists|steps: nat| steps >= 1 && #[trigger] follow(waits, start, steps) == Some(target)
}

/// Whether no session waits for itself.
pub open spec fn no_deadlock(waits: Map<i32, i32>) -> bool {
    forall|session: i32| !#[trigger] reaches(waits, session, session)
}

/// The error of a wait that would never end.
pub open spec fn deadlock_report() -> Report {
    report("40001"@, "Deadlock found when trying to get lock; try restarting transaction"@)
}

/// What a wait does: it is entered, unless it would then never end.
pub open spec fn wait_registered(waits: Map<i32, i32>, waiter: i32, owner: i32) -> (
    Option<Report>,
    Map<i32, i32>,
) {
    let entered = waits.insert(waiter, owner);
    if reaches(entered, owner, waiter) {
        (Some(deadlock_report()), waits.remove(waiter))
    } else {
        (None, entered)
    }
}

/// Where a set of sessions is closed under waiting and none of them waits for the target,
/// no path from it leads there.
proof fn lemma_closed_set(waits: Map<i32, i32>, start: i32, target: i32, visited: Set<i32>, steps: nat)
    requires
        visited.contains(start),
        forall|x: i32| #[trigger]
            visited.contains(x) && waits.dom().contains(x) ==> waits[x] != target
                && visited.contains(waits[x]),
    ensures
        follow(waits, start, steps) matches Some(x) ==> visited.contains(x),
        steps >= 1 ==> follow(waits, start, steps) != Some(target),
    decreases steps,
{
    if steps > 0 {
        lemma_closed_set(waits, start, target, visited, (steps - 1) as nat);
    }
}

/// Steps after steps are steps.
proof fn lemma_follow_add(waits: Map<i32, i32>, start: i32, first: nat, second: nat)
    ensures
        follow(waits, start, first + second) == match follow(waits, start, first) {
            Some(middle) => follow(waits, middle, second),
            None => None,
        },
    decreases second,
{
    if second > 0 {
        lemma_follow_add(waits, start, first, (second - 1) as nat);
        assert((first + second - 1) as nat == first + (second - 1) as nat);
    }
}

proof fn lemma_other_waits(waits: Map<i32, i32>, waiter: i32, owner: i32, start: i32, steps: nat)
    requires
        forall|k: nat| k < steps ==> #[trigger] follow(waits.insert(waiter, owner), start, k)
            != Some(waiter),
    ensures
        follow(waits.insert(waiter, owner), start, steps) == follow(waits, start, steps),
    decreases steps,
{
    if steps > 0 {
        let before = (steps - 1) as nat;
        lemma_other_waits(waits, waiter, owner, start, before);
        assert(follow(waits.insert(waiter, owner), start, before) != Some(waiter));
    }
}

proof fn lemma_follow_fewer(waits: Map<i32, i32>, waiter: i32, start: i32, steps: nat)
    ensures
        follow(waits.remove(waiter), start, steps) matches Some(x) ==> follow(
            waits,
            start,
            steps,
        ) == Some(x),
    decreases steps,
{
    if steps > 0 {
        lemma_follow_fewer(waits, waiter, start, (steps - 1) as nat);
    }
}

/// Where no session waits for itself, none does after a wait is entered or refused.
pub proof fn law_waits_stay_free_of_deadlock(waits: Map<i32, i32>, waiter: i32, owner: i32)
    requires
        no_deadlock(waits),
    ensures
        no_deadlock(wait_registered(waits, waiter, owner).1),
{
    let entered = waits.insert(waiter, owner);
    let result = wait_registered(waits, waiter, owner).1;
    assert forall|session: i32| !#[trigger] reaches(result, session, session) by {
        if reaches(result, session, session) {
            let steps = choose|steps: nat|
                steps >= 1 && #[trigger] follow(result, session, steps) == Some(session);
            if reaches(entered, owner, waiter) {
                lemma_follow_fewer(waits, waiter, session, steps);
                assert(reaches(waits, session, session));
            } else if exists|k: nat| k < steps && #[trigger] follow(entered, session, k) == Some(
                waiter,
            ) {
                let k = choose|k: nat|
                    k < steps && #[trigger] follow(entered, session, k) == Some(waiter);
                // From the waiter the walk goes to the owner, back to the session and on to
                // the waiter again.
                lemma_follow_add(entered, session, steps, k);
                lemma_follow_add(entered, session, k, steps);
                assert(steps + k == k + steps);
                assert(follow(entered, waiter, steps) == Some(waiter));
                lemma_follow_add(entered, waiter, 1, (steps - 1) as nat);
                assert(follow(entered, waiter, 0) == Some(waiter));
                assert(follow(entered, waiter, 1) == Some(owner));
                assert(1 + (steps - 1) as nat == steps);
                if steps == 1 {
                    assert(follow(entered, owner, 0) == Some(owner));
                    assert(owner == waiter);
                    assert(follow(entered, owner, 1) == Some(waiter));
                    assert(reaches(entered, owner, waiter));
                } else {
                    assert(follow(entered, owner, (steps - 1) as nat) == Some(waiter));
                    assert(reaches(entered, owner, waiter));
                }
            } else {
                lemma_other_waits(waits, waiter, owner, session, steps);
                assert(reaches(waits, session, session));
            }
        }
    }
}

proof fn lemma_same_walk(waits: Map<i32, i32>, waiter: i32, owner: i32, start: i32, steps: nat)
    requires
        forall|k: nat| k < steps ==> #[trigger] follow(waits, start, k) != Some(waiter),
    ensures
        follow(waits.insert(waiter, owner), start, steps) == follow(waits, start, steps),
    decreases steps,
{
    if steps > 0 {
        let before = (steps - 1) as nat;
        lemma_same_walk(waits, waiter, owner, start, before);
        assert(follow(waits, start, before) != Some(waiter));
    }
}

/// A wait is refused exactly where the owner waits for the waiter, itself or through others,
/// whoever waits already.
pub proof fn law_wait_is_refused_where_it_never_ends(
    waits: Map<i32, i32>,
    waiter: i32,
    owner: i32,
)
    ensures
        wait_registered(waits, waiter, owner).0 is Some <==> owner == waiter || reaches(
            waits,
            owner,
            waiter,
        ),
{
    let entered = waits.insert(waiter, owner);
    if owner == waiter {
        assert(follow(entered, owner, 0) == Some(owner));
        assert(follow(entered, owner, 1) == Some(waiter));
        assert(reaches(entered, owner, waiter));
    } else {
        if reaches(entered, owner, waiter) {
            let steps = choose|steps: nat|
                steps >= 1 && #[trigger] follow(entered, owner, steps) == Some(waiter);
            lemma_first_visit(entered, owner, waiter, steps);
            let first = choose|first: nat|
                1 <= first && #[trigger] follow(entered, owner, first) == Some(waiter) && forall|
                    k: nat,
                | k < first ==> #[trigger] follow(entered, owner, k) != Some(waiter);
            lemma_other_waits(waits, waiter, owner, owner, first);
            assert(reaches(waits, owner, waiter));
        }
        if reaches(waits, owner, waiter) {
            let steps = choose|steps: nat|
                steps >= 1 && #[trigger] follow(waits, owner, steps) == Some(waiter);
            lemma_first_visit(waits, owner, waiter, steps);
            let first = choose|first: nat|
                1 <= first && #[trigger] follow(waits, owner, first) == Some(waiter) && forall|
                    k: nat,
                | k < first ==> #[trigger] follow(waits, owner, k) != Some(waiter);
            lemma_same_walk(waits, waiter, owner, owner, first);
            assert(reaches(entered, owner, waiter));
        }
    }
}

proof fn lemma_first_visit(waits: Map<i32, i32>, start: i32, target: i32, steps: nat)
    requires
        start != target,
        follow(waits, start, steps) == Some(target),
    ensures
        exists|first: nat|
            1 <= first && #[trigger] follow(waits, start, first) == Some(target) && forall|k: nat|
                k < first ==> #[trigger] follow(waits, start, k) != Some(target),
    decreases steps,
{
    if exists|k: nat| k < steps && #[trigger] follow(waits, start, k) == Some(target) {
        let k = choose|k: nat| k < steps && #[trigger] follow(waits, start, k) == Some(target);
        lemma_first_visit(waits, start, target, k);
    } else {
        assert(follow(waits, start, 0) == Some(start));
        assert(1 <= steps);
    }
}

/// Enters a wait, unless it would never end.
pub fn mysql_register_lock_wait(waits: &mut HashMap<i32, i32>, waiter: i32, owner: i32) -> (error:
    Option<UserError>)
    ensures
        option_view(error) == wait_registered(old(waits)@, waiter, owner).0,
        final(waits)@ == wait_registered(old(waits)@, waiter, owner).1,
{
    let ghost before = waits@;
    waits.insert(waiter, owner);
    let ghost entered = waits@;
    let mut cursor: i32 = owner;
    let mut seen: HashSet<i32> = HashSet::new();
    let ghost mut steps: nat = 0;
    loop
        invariant
            waits@ == entered,
            before == old(waits)@,
            entered == before.insert(waiter, owner),
            entered.dom().finite(),
            seen@.subset_of(entered.dom()),
            follow(entered, owner, steps) == Some(cursor),
            seen@.contains(owner) || cursor == owner,
            forall|x: i32| #[trigger]
                seen@.contains(x) ==> entered[x] != waiter && (seen@.contains(entered[x])
                    || entered[x] == cursor),
        ensures
            waits@ == entered,
            !reaches(entered, owner, waiter),
        decreases entered.dom().len() - seen@.len(),
    {
        let next: i32 = match waits.get(&cursor) {
            Some(next) => *next,
            None => {
                proof {
                    let visited = seen@.insert(cursor);
                    assert forall|n: nat| n >= 1 implies #[trigger] follow(entered, owner, n)
                        != Some(waiter) by {
                        lemma_closed_set(entered, owner, waiter, visited, n);
                    }
                }
                break;
            },
        };
        if next == waiter {
            proof {
                assert(follow(entered, owner, steps + 1) == Some(waiter));
                assert(reaches(entered, owner, waiter));
                assert(entered.remove(waiter) =~= before.remove(waiter));
            }
            waits.remove(&waiter);
            return Some(
                user_error(
                    "40001",
                    "Deadlock found when trying to get lock; try restarting transaction",
                ),
            );
        }
        let ghost old_seen = seen@;
        let fresh = seen.insert(cursor);
        if !fresh {
            proof {
                assert(seen@ =~= old_seen);
                assert forall|n: nat| n >= 1 implies #[trigger] follow(entered, owner, n) != Some(
                    waiter,
                ) by {
                    lemma_closed_set(entered, owner, waiter, seen@, n);
                }
            }
            break;
        }
        proof {
            assert(seen@ =~= old_seen.insert(cursor));
            vstd::set_lib::lemma_len_subset(seen@, entered.dom());
            steps = steps + 1;
            assert(follow(entered, owner, steps) == Some(next));
        }
        cursor = next;
    }
    None
}

/// The locks that sessions hold, the queue of those that ask, and who waits for whom.
pub struct LockTable {
    pub locks: Vec<MySqlLock>,
    pub queue: Vec<MySqlLockWaiter>,
    pub waits: HashMap<i32, i32>,
}

/// What a [`LockTable`] says.
#[verifier::ext_equal]
pub struct LockState {
    pub locks: Seq<LockModel>,
    pub queue: Seq<WaiterModel>,
    pub waits: Map<i32, i32>,
}

impl View for LockTable {
    type V = LockState;

    open spec fn view(&self) -> LockState {
        LockState {
            locks: views(self.locks@),
            queue: views(self.queue@),
            waits: self.waits@,
        }
    }
}

/// What became of a request for locks.
pub enum LockStep {
    Granted,
    Waits,
    Refused(UserError),
}

/// What a [`LockStep`] says.
pub enum StepModel {
    Granted,
    Waits,
    Refused(Report),
}

impl View for LockStep {
    type V = StepModel;

    open spec fn view(&self) -> StepModel {
        match *self {
            LockStep::Granted => StepModel::Granted,
            LockStep::Waits => StepModel::Waits,
            LockStep::Refused(error) => StepModel::Refused(error@),
        }
    }
}

/// The locks of other sessions.
pub open spec fn of_others(session_id: i32) -> spec_fn(LockModel) -> bool {
    |lock: LockModel| lock.owner != session_id
}

/// The locks that outlast a statement of a session.
pub open spec fn outlasting(session_id: i32) -> spec_fn(LockModel) -> bool {
    |lock: LockModel| lock.owner != session_id || lock.duration != MySqlLockDuration::Statement
}

/// The entries of other sessions.
pub open spec fn waiting_others(session_id: i32) -> spec_fn(WaiterModel) -> bool {
    |waiter: WaiterModel| waiter.session_id != session_id
}

/// Whether a session stands in the queue.
pub open spec fn is_queued(queue: Seq<WaiterModel>, session_id: i32) -> bool {
    exists|i: int| 0 <= i < queue.len() && (#[trigger] queue[i]).session_id == session_id
}

/// The table with a request at the end of the queue, where its session has none there yet.
pub open spec fn enqueued(state: LockState, session_id: i32, requested: Seq<LockModel>) -> LockState {
    if requested.len() == 0 || is_queued(state.queue, session_id) {
        state
    } else {
        LockState {
            queue: state.queue.push(
                WaiterModel { session_id, priority: priority_of(requested), locks: requested },
            ),
            ..state
        }
    }
}

/// The session other than the asking one whose lock, the first such, stands against a lock.
pub open spec fn holder_of(locks: Seq<LockModel>, session_id: i32, lock: LockModel) -> Option<i32>
    decreases locks.len(),
{
    if locks.len() == 0 {
        None
    } else if locks[0].owner != session_id && locks_conflict(locks[0], lock) {
        Some(locks[0].owner)
    } else {
        holder_of(locks.skip(1), session_id, lock)
    }
}

/// The session whose lock stands against the first lock of a request that one stands against.
pub open spec fn holder(
    locks: Seq<LockModel>,
    session_id: i32,
    requested: Seq<LockModel>,
) -> Option<i32>
    decreases requested.len(),
{
    if requested.len() == 0 {
        None
    } else {
        match holder_of(locks, session_id, requested[0]) {
            Some(owner) => Some(owner),
            None => holder(locks, session_id, requested.skip(1)),
        }
    }
}

/// The session that a request waits for: one that holds a lock, else one ahead in the queue.
pub open spec fn blocker(state: LockState, session_id: i32, requested: Seq<LockModel>) -> Option<i32> {
    match holder(state.locks, session_id, requested) {
        Some(owner) => Some(owner),
        None => queue_blocker(state.queue, session_id, priority_of(requested), requested),
    }
}

/// Locks with those of a request that are not among them yet.
pub open spec fn with_locks(locks: Seq<LockModel>, requested: Seq<LockModel>) -> Seq<LockModel>
    decreases requested.len(),
{
    if requested.len() == 0 {
        locks
    } else {
        let before = with_locks(locks, requested.drop_last());
        if before.contains(requested.last()) {
            before
        } else {
            before.push(requested.last())
        }
    }
}

/// The table after a session has given up its request.
pub open spec fn abandoned(state: LockState, session_id: i32) -> LockState {
    LockState {
        locks: state.locks,
        queue: kept_where(state.queue, waiting_others(session_id)),
        waits: state.waits.remove(session_id),
    }
}

/// The table after a request has been granted.
pub open spec fn granted(state: LockState, session_id: i32, requested: Seq<LockModel>) -> LockState {
    LockState {
        locks: with_locks(state.locks, requested),
        ..abandoned(state, session_id)
    }
}

/// What one try of a request does.
pub open spec fn tried(state: LockState, session_id: i32, requested: Seq<LockModel>) -> (
    StepModel,
    LockState,
) {
    if requested.len() == 0 {
        (StepModel::Granted, state)
    } else {
        match blocker(state, session_id, requested) {
            Some(owner) => {
                let (refusal, waits) = wait_registered(state.waits, session_id, owner);
                match refusal {
                    Some(error) => (
                        StepModel::Refused(error),
                        abandoned(LockState { waits, ..state }, session_id),
                    ),
                    None => (StepModel::Waits, LockState { waits, ..state }),
                }
            },
            None => (StepModel::Granted, granted(state, session_id, requested)),
        }
    }
}

/// The table after a session has let go of all its locks.
pub open spec fn released(state: LockState, session_id: i32) -> LockState {
    LockState {
        locks: kept_where(state.locks, of_others(session_id)),
        ..abandoned(state, session_id)
    }
}

/// The table after a statement of a session has ended.
pub open spec fn statement_released(state: LockState, session_id: i32) -> LockState {
    LockState { locks: kept_where(state.locks, outlasting(session_id)), ..state }
}

/// Whether no two sessions hold locks that stand against each other.
pub open spec fn exclusive(locks: Seq<LockModel>) -> bool {
    forall|i: int, j: int|
        0 <= i < locks.len() && 0 <= j < locks.len() && locks[i].owner != locks[j].owner
            ==> !locks_conflict(#[trigger] locks[i], #[trigger] locks[j])
}

proof fn lemma_no_holder_of(locks: Seq<LockModel>, session_id: i32, lock: LockModel)
    requires
        holder_of(locks, session_id, lock) is None,
    ensures
        forall|i: int|
            0 <= i < locks.len() && (#[trigger] locks[i]).owner != session_id ==> !locks_conflict(
                locks[i],
                lock,
            ),
    decreases locks.len(),
{
    if locks.len() > 0 {
        lemma_no_holder_of(locks.skip(1), session_id, lock);
        assert forall|i: int|
            0 <= i < locks.len() && (#[trigger] locks[i]).owner != session_id implies
            !locks_conflict(locks[i], lock) by {
            if i > 0 {
                assert(locks.skip(1)[i - 1] == locks[i]);
            }
        }
    }
}

proof fn lemma_no_holder(locks: Seq<LockModel>, session_id: i32, requested: Seq<LockModel>)
    requires
        holder(locks, session_id, requested) is None,
    ensures
        forall|i: int, j: int|
            0 <= i < locks.len() && 0 <= j < requested.len() && (#[trigger] locks[i]).owner
                != session_id ==> !locks_conflict(locks[i], #[trigger] requested[j]),
    decreases requested.len(),
{
    if requested.len() > 0 {
        lemma_no_holder_of(locks, session_id, requested[0]);
        lemma_no_holder(locks, session_id, requested.skip(1));
        assert forall|i: int, j: int|
            0 <= i < locks.len() && 0 <= j < requested.len() && (#[trigger] locks[i]).owner
                != session_id implies !locks_conflict(locks[i], #[trigger] requested[j]) by {
            if j > 0 {
                assert(requested.skip(1)[j - 1] == requested[j]);
            }
        }
    }
}

proof fn lemma_with_locks(locks: Seq<LockModel>, session_id: i32, requested: Seq<LockModel>)
    requires
        exclusive(locks),
        forall|j: int| 0 <= j < requested.len() ==> (#[trigger] requested[j]).owner == session_id,
        forall|i: int, j: int|
            0 <= i < locks.len() && 0 <= j < requested.len() && (#[trigger] locks[i]).owner
                != session_id ==> !locks_conflict(locks[i], #[trigger] requested[j]),
    ensures
        exclusive(with_locks(locks, requested)),
        forall|i: int|
            0 <= i < with_locks(locks, requested).len() ==> locks.contains(
                #[trigger] with_locks(locks, requested)[i],
            ) || requested.contains(with_locks(locks, requested)[i]),
        forall|i: int| 0 <= i < locks.len() ==> with_locks(locks, requested).contains(
            #[trigger] locks[i],
        ),
        forall|j: int| 0 <= j < requested.len() ==> with_locks(locks, requested).contains(
            #[trigger] requested[j],
        ),
    decreases requested.len(),
{
    let result = with_locks(locks, requested);
    if requested.len() == 0 {
        assert forall|i: int| 0 <= i < locks.len() implies result.contains(#[trigger] locks[i]) by {
            assert(result[i] == locks[i]);
        }
        assert forall|i: int| 0 <= i < result.len() implies locks.contains(#[trigger] result[i])
            || requested.contains(result[i]) by {
            assert(locks[i] == result[i]);
        }
    } else {
        let init = requested.drop_last();
        assert forall|j: int| 0 <= j < init.len() implies (#[trigger] init[j]).owner
            == session_id by {
            assert(init[j] == requested[j]);
        }
        assert forall|i: int, j: int|
            0 <= i < locks.len() && 0 <= j < init.len() && (#[trigger] locks[i]).owner
                != session_id implies !locks_conflict(locks[i], #[trigger] init[j]) by {
            assert(init[j] == requested[j]);
        }
        lemma_with_locks(locks, session_id, init);
        let before = with_locks(locks, init);
        let last = requested.last();
        assert(last == requested[requested.len() - 1]);
        assert forall|i: int| 0 <= i < before.len() && (#[trigger] before[i]).owner
            != session_id implies !locks_conflict(before[i], last) by {
            if init.contains(before[i]) {
                let j = choose|j: int| 0 <= j < init.len() && init[j] == before[i];
                assert(requested[j].owner == session_id);
            } else {
                let k = choose|k: int| 0 <= k < locks.len() && locks[k] == before[i];
                assert(locks[k].owner != session_id);
                assert(!locks_conflict(locks[k], requested[requested.len() - 1]));
            }
        }
        assert forall|i: int, j: int|
            0 <= i < result.len() && 0 <= j < result.len() && result[i].owner
                != result[j].owner implies !locks_conflict(
            #[trigger] result[i],
            #[trigger] result[j],
        ) by {
            if i < before.len() && j < before.len() {
                assert(result[i] == before[i] && result[j] == before[j]);
            } else if i < before.len() {
                assert(result[i] == before[i]);
                assert(result[j] == last);
            } else {
                assert(result[j] == before[j]);
                assert(result[i] == last);
            }
        }
        assert forall|i: int| 0 <= i < result.len() implies locks.contains(#[trigger] result[i])
            || requested.contains(result[i]) by {
            if i < before.len() {
                assert(result[i] == before[i]);
                if init.contains(before[i]) {
                    let j = choose|j: int| 0 <= j < init.len() && init[j] == before[i];
                    assert(requested[j] == before[i]);
                }
            } else {
                assert(requested[requested.len() - 1] == result[i]);
            }
        }
        assert forall|i: int| 0 <= i < locks.len() implies result.contains(#[trigger] locks[i]) by {
            assert(before.contains(locks[i]));
            let k = choose|k: int| 0 <= k < before.len() && before[k] == locks[i];
            assert(result[k] == locks[i]);
        }
        assert forall|j: int| 0 <= j < requested.len() implies result.contains(
            #[trigger] requested[j],
        ) by {
            if j < init.len() {
                assert(init[j] == requested[j]);
                assert(before.contains(init[j]));
                let k = choose|k: int| 0 <= k < before.len() && before[k] == init[j];
                assert(result[k] == requested[j]);
            } else if before.contains(last) {
                let k = choose|k: int| 0 <= k < before.len() && before[k] == last;
                assert(result[k] == last);
            } else {
                assert(result[before.len() as int] == last);
            }
        }
    }
}

/// Two sessions never hold locks that stand against each other: whatever a request comes to,
/// what held of the table before holds after. A granted request is held in full.
pub proof fn law_locks_stay_exclusive(
    state: LockState,
    session_id: i32,
    requested: Seq<LockModel>,
)
    requires
        exclusive(state.locks),
        forall|j: int| 0 <= j < requested.len() ==> (#[trigger] requested[j]).owner == session_id,
    ensures
        exclusive(tried(state, session_id, requested).1.locks),
        tried(state, session_id, requested).0 is Granted ==> forall|j: int|
            0 <= j < requested.len() ==> tried(state, session_id, requested).1.locks.contains(
                #[trigger] requested[j],
            ),
{
    if requested.len() > 0 && blocker(state, session_id, requested) is None {
        lemma_no_holder(state.locks, session_id, requested);
        lemma_with_locks(state.locks, session_id, requested);
    }
}

/// After a session lets go, it holds nothing, stands in no queue and waits for no one; what
/// other sessions hold stays.
pub proof fn law_release_lets_go(state: LockState, session_id: i32)
    ensures
        forall|i: int|
            0 <= i < released(state, session_id).locks.len() ==> (
            #[trigger] released(state, session_id).locks[i]).owner != session_id,
        forall|i: int|
            0 <= i < state.locks.len() && (#[trigger] state.locks[i]).owner != session_id
                ==> released(state, session_id).locks.contains(state.locks[i]),
        !is_queued(released(state, session_id).queue, session_id),
        !released(state, session_id).waits.dom().contains(session_id),
{
    lemma_kept_where(state.locks, of_others(session_id));
    lemma_kept_where(state.queue, waiting_others(session_id));
    let after = released(state, session_id);
    assert forall|i: int| 0 <= i < after.locks.len() implies (#[trigger] after.locks[i]).owner
        != session_id by {
        assert(of_others(session_id)(after.locks[i]));
    }
    assert forall|i: int|
        0 <= i < state.locks.len() && (#[trigger] state.locks[i]).owner
            != session_id implies after.locks.contains(state.locks[i]) by {
        assert(of_others(session_id)(state.locks[i]));
    }
    assert forall|i: int| 0 <= i < after.queue.len() implies (
    #[trigger] after.queue[i]).session_id != session_id by {
        assert(waiting_others(session_id)(after.queue[i]));
    }
}

/// Letting go of locks keeps the others exclusive.
pub proof fn law_release_keeps_exclusive(state: LockState, session_id: i32)
    requires
        exclusive(state.locks),
    ensures
        exclusive(released(state, session_id).locks),
        exclusive(statement_released(state, session_id).locks),
{
    lemma_kept_where(state.locks, of_others(session_id));
    lemma_kept_where(state.locks, outlasting(session_id));
}

fn same_bound(a: &Option<String>, b: &Option<String>) -> (same: bool)
    ensures
        same == (option_view(*a) == option_view(*b)),
{
    match (a, b) {
        (Some(a), Some(b)) => *a == *b,
        (None, None) => true,
        _ => false,
    }
}

fn same_kind(a: &MySqlLockKind, b: &MySqlLockKind) -> (same: bool)
    ensures
        same == (a@ == b@),
{
    match (a, b) {
        (MySqlLockKind::MetadataRead, MySqlLockKind::MetadataRead) => true,
        (MySqlLockKind::MetadataWrite, MySqlLockKind::MetadataWrite) => true,
        (MySqlLockKind::Table, MySqlLockKind::Table) => true,
        (MySqlLockKind::Record(x), MySqlLockKind::Record(y)) => *x == *y,
        (MySqlLockKind::InsertIntention(x), MySqlLockKind::InsertIntention(y)) => *x == *y,
        (
            MySqlLockKind::Gap { lower: l, upper: u },
            MySqlLockKind::Gap { lower: m, upper: v },
        ) => same_bound(l, m) && same_bound(u, v),
        (
            MySqlLockKind::NextKey { lower: l, upper: u },
            MySqlLockKind::NextKey { lower: m, upper: v },
        ) => same_bound(l, m) && same_bound(u, v),
        (
            MySqlLockKind::IndexRecord { index_name: i, value: x },
            MySqlLockKind::IndexRecord { index_name: j, value: y },
        ) => *i == *j && *x == *y,
        (
            MySqlLockKind::IndexInsertIntention { index_name: i, value: x },
            MySqlLockKind::IndexInsertIntention { index_name: j, value: y },
        ) => *i == *j && *x == *y,
        (
            MySqlLockKind::IndexGap { index_name: i, lower: l, upper: u },
            MySqlLockKind::IndexGap { index_name: j, lower: m, upper: v },
        ) => *i == *j && same_bound(l, m) && same_bound(u, v),
        (
            MySqlLockKind::IndexNextKey { index_name: i, lower: l, upper: u },
            MySqlLockKind::IndexNextKey { index_name: j, lower: m, upper: v },
        ) => *i == *j && same_bound(l, m) && same_bound(u, v),
        _ => false,
    }
}

/// Whether two locks say the same.
pub fn same_lock(a: &MySqlLock, b: &MySqlLock) -> (same: bool)
    ensures
        same == (a@ == b@),
{
    a.owner == b.owner && a.scope == b.scope && a.duration == b.duration && a.database_name
        == b.database_name && a.schema_name == b.schema_name && a.table_name == b.table_name
        && same_kind(&a.kind, &b.kind)
}

impl LockTable {
    /// A table without locks.
    pub fn new() -> (table: LockTable)
        ensures
            table@ == (LockState {
                locks: Seq::empty(),
                queue: Seq::empty(),
                waits: Map::empty(),
            }),
    {
        let table = LockTable { locks: Vec::new(), queue: Vec::new(), waits: HashMap::new() };
        assert(table@.locks =~= Seq::<LockModel>::empty());
        assert(table@.queue =~= Seq::<WaiterModel>::empty());
        assert(table@.waits =~= Map::<i32, i32>::empty());
        table
    }

    /// Puts a request at the end of the queue, where its session has none there yet.
    pub fn enqueue(&mut self, session_id: i32, requested: &Vec<MySqlLock>)
        ensures
            final(self)@ == enqueued(old(self)@, session_id, views(requested@)),
    {
        if requested.len() == 0 {
            return ;
        }
        let mut i: usize = 0;
        while i < self.queue.len()
            invariant
                i <= self.queue@.len(),
                *self == *old(self),
                requested@.len() > 0,
                forall|k: int| 0 <= k < i ==> (#[trigger] self@.queue[k]).session_id != session_id,
            decreases self.queue@.len() - i,
        {
            assert(self@.queue[i as int] == self.queue@[i as int]@);
            if self.queue[i].session_id == session_id {
                return ;
            }
            i += 1;
        }
        let priority = mysql_lock_priority(requested);
        let waiter = MySqlLockWaiter { session_id, priority, locks: duplicate_all(requested) };
        let ghost before = self@;
        let ghost added = waiter@;
        self.queue.push(waiter);
        assert(self@.queue =~= before.queue.push(added));
    }

    fn find_holder(&self, session_id: i32, lock: &MySqlLock) -> (owner: Option<i32>)
        ensures
            owner == holder_of(self@.locks, session_id, lock@),
    {
        let mut i: usize = 0;
        assert(self@.locks.skip(0) =~= self@.locks);
        while i < self.locks.len()
            invariant
                i <= self.locks@.len(),
                holder_of(self@.locks, session_id, lock@) == holder_of(
                    self@.locks.skip(i as int),
                    session_id,
                    lock@,
                ),
            decreases self.locks@.len() - i,
        {
            assert(self@.locks.skip(i as int)[0] == self.locks@[i as int]@);
            assert(self@.locks.skip(i as int).skip(1) =~= self@.locks.skip(i + 1));
            if self.locks[i].owner != session_id && mysql_locks_conflict(&self.locks[i], lock) {
                return Some(self.locks[i].owner);
            }
            i += 1;
        }
        None
    }

    /// The session that a request waits for.
    pub fn find_blocker(&self, session_id: i32, requested: &Vec<MySqlLock>) -> (owner: Option<i32>)
        ensures
            owner == blocker(self@, session_id, views(requested@)),
    {
        let ghost asked = views(requested@);
        let mut i: usize = 0;
        assert(asked.skip(0) =~= asked);
        while i < requested.len()
            invariant
                i <= requested@.len(),
                asked == views(requested@),
                holder(self@.locks, session_id, asked) == holder(
                    self@.locks,
                    session_id,
                    asked.skip(i as int),
                ),
            decreases requested@.len() - i,
        {
            assert(asked.skip(i as int)[0] == requested@[i as int]@);
            assert(asked.skip(i as int).skip(1) =~= asked.skip(i + 1));
            if let Some(owner) = self.find_holder(session_id, &requested[i]) {
                return Some(owner);
            }
            i += 1;
        }
        mysql_lock_queue_blocker(
            &self.queue,
            session_id,
            mysql_lock_priority(requested),
            requested,
        )
    }

    /// Takes the session out of the queue and lets it wait for no one.
    pub fn remove_mysql_lock_waiter(&mut self, session_id: i32)
        ensures
            final(self)@ == abandoned(old(self)@, session_id),
    {
        let ghost before = self@;
        let mut queue: Vec<MySqlLockWaiter> = Vec::new();
        std::mem::swap(&mut queue, &mut self.queue);
        let kept = other_waiters(queue, session_id);
        self.queue = kept;
        self.waits.remove(&session_id);
        assert(self@ =~= abandoned(before, session_id));
    }

    fn add_locks(&mut self, requested: Vec<MySqlLock>)
        ensures
            final(self)@ == (LockState {
                locks: with_locks(old(self)@.locks, views(requested@)),
                ..old(self)@
            }),
    {
        let ghost before = self@;
        let ghost asked = views(requested@);
        let mut i: usize = 0;
        assert(asked.take(0) =~= Seq::<LockModel>::empty());
        while i < requested.len()
            invariant
                i <= requested@.len(),
                asked == views(requested@),
                self@.locks == with_locks(before.locks, asked.take(i as int)),
                self@.queue == before.queue,
                self@.waits == before.waits,
            decreases requested@.len() - i,
        {
            assert(asked.take(i + 1).drop_last() =~= asked.take(i as int));
            assert(asked.take(i + 1).last() == requested@[i as int]@);
            let ghost held = self@.locks;
            let lock = requested[i].duplicate();
            let ghost model = lock@;
            let mut known = false;
            let mut k: usize = 0;
            while k < self.locks.len()
                invariant
                    k <= self.locks@.len(),
                    held == self@.locks,
                    self@.queue == before.queue,
                    self@.waits == before.waits,
                    model == lock@,
                    known == exists|j: int| 0 <= j < k && held[j] == model,
                decreases self.locks@.len() - k,
            {
                assert(held[k as int] == self.locks@[k as int]@);
                if same_lock(&self.locks[k], &lock) {
                    known = true;
                }
                k += 1;
            }
            assert(known == held.contains(model));
            if !known {
                self.locks.push(lock);
                assert(self@.locks =~= held.push(model));
            }
            i += 1;
        }
        assert(asked.take(i as int) =~= asked);
    }

    /// Tries to get locks: grants them, or enters that the session waits, or refuses where
    /// the wait would never end.
    pub fn try_acquire(&mut self, session_id: i32, requested: Vec<MySqlLock>) -> (step: LockStep)
        ensures
            step@ == tried(old(self)@, session_id, views(requested@)).0,
            final(self)@ == tried(old(self)@, session_id, views(requested@)).1,
    {
        if requested.len() == 0 {
            return LockStep::Granted;
        }
        match self.find_blocker(session_id, &requested) {
            Some(owner) => {
                match mysql_register_lock_wait(&mut self.waits, session_id, owner) {
                    Some(error) => {
                        self.remove_mysql_lock_waiter(session_id);
                        LockStep::Refused(error)
                    },
                    None => LockStep::Waits,
                }
            },
            None => {
                self.remove_mysql_lock_waiter(session_id);
                self.add_locks(requested);
                LockStep::Granted
            },
        }
    }

    /// Lets go of all locks of a session.
    pub fn release_session_table_locks(&mut self, session_id: i32)
        ensures
            final(self)@ == released(old(self)@, session_id),
    {
        let ghost before = self@;
        let mut locks: Vec<MySqlLock> = Vec::new();
        std::mem::swap(&mut locks, &mut self.locks);
        let mut kept: Vec<MySqlLock> = Vec::new();
        let ghost all = views(locks@);
        let mut i: usize = 0;
        assert(views(kept@) =~= kept_where(all.take(0), of_others(session_id)));
        while i < locks.len()
            invariant
                i <= locks@.len(),
                all == views(locks@),
                views(kept@) == kept_where(all.take(i as int), of_others(session_id)),
            decreases locks@.len() - i,
        {
            assert(all.take(i + 1).drop_last() =~= all.take(i as int));
            assert(all.take(i + 1).last() == locks@[i as int]@);
            let ghost done = views(kept@);
            if locks[i].owner != session_id {
                let lock = locks[i].duplicate();
                let ghost model = lock@;
                kept.push(lock);
                assert(views(kept@) =~= done.push(model));
            }
            i += 1;
        }
        assert(all.take(i as int) =~= all);
        self.locks = kept;
        self.remove_mysql_lock_waiter(session_id);
        assert(self@ =~= released(before, session_id));
    }

    /// Lets go of the locks that a session held for a statement.
    pub fn release_session_statement_locks(&mut self, session_id: i32)
        ensures
            final(self)@ == statement_released(old(self)@, session_id),
    {
        let ghost before = self@;
        let mut locks: Vec<MySqlLock> = Vec::new();
        std::mem::swap(&mut locks, &mut self.locks);
        let mut kept: Vec<MySqlLock> = Vec::new();
        let ghost all = views(locks@);
        let mut i: usize = 0;
        assert(views(kept@) =~= kept_where(all.take(0), outlasting(session_id)));
        while i < locks.len()
            invariant
                i <= locks@.len(),
                all == views(locks@),
                views(kept@) == kept_where(all.take(i as int), outlasting(session_id)),
            decreases locks@.len() - i,
        {
            assert(all.take(i + 1).drop_last() =~= all.take(i as int));
            assert(all.take(i + 1).last() == locks@[i as int]@);
            let ghost done = views(kept@);
            if locks[i].owner != session_id || locks[i].duration != MySqlLockDuration::Statement {
                let lock = locks[i].duplicate();
                let ghost model = lock@;
                kept.push(lock);
                assert(views(kept@) =~= done.push(model));
            }
            i += 1;
        }
        assert(all.take(i as int) =~= all);
        self.locks = kept;
        assert(self@ =~= statement_released(before, session_id));
    }
}

fn other_waiters(queue: Vec<MySqlLockWaiter>, session_id: i32) -> (kept: Vec<MySqlLockWaiter>)
    ensures
        views(kept@) == kept_where(views(queue@), waiting_others(session_id)),
{
    let mut kept: Vec<MySqlLockWaiter> = Vec::new();
    let ghost all = views(queue@);
    let mut i: usize = 0;
    assert(views(kept@) =~= kept_where(all.take(0), waiting_others(session_id)));
    while i < queue.len()
        invariant
            i <= queue@.len(),
            all == views(queue@),
            views(kept@) == kept_where(all.take(i as int), waiting_others(session_id)),
        decreases queue@.len() - i,
    {
        assert(all.take(i + 1).drop_last() =~= all.take(i as int));
        assert(all.take(i + 1).last() == queue@[i as int]@);
        let ghost done = views(kept@);
        if queue[i].session_id != session_id {
            let waiter = MySqlLockWaiter {
                session_id: queue[i].session_id,
                priority: queue[i].priority,
                locks: duplicate_all(&queue[i].locks),
            };
            let ghost model = waiter@;
            kept.push(waiter);
            assert(views(kept@) =~= done.push(model));
        }
        i += 1;
    }
    assert(all.take(i as int) =~= all);
    kept
}

/// The seconds that a session waits for a lock: what its setting says, where that is a
/// number, else the default.
pub open spec fn wait_seconds(setting: Option<Seq<char>>) -> u64 {
    match setting {
        Some(text) => match unsigned_number(text, u64::MAX as nat) {
            Some(n) => n as u64,
            None => 50,
        },
        None => 50,
    }
}

/// The seconds that a session waits for a lock.
pub fn mysql_lock_wait_timeout(setting: &Option<String>) -> (seconds: u64)
    ensures
        seconds == wait_seconds(option_view(*setting)),
{
    match setting {
        Some(text) => {
            let chars = crate::text::chars_of(text.as_str());
            match parse_unsigned(chars.as_slice(), u64::MAX) {
                Some(n) => n,
                None => 50,
            }
        },
        None => 50,
    }
}

/// The error of a wait that took too long.
pub fn mysql_lock_timeout_error(seconds: u64) -> (error: UserError)
    ensures
        error@ == report(
            "HY000"@,
            "Lock wait timeout exceeded after "@ + decimal(seconds as nat)
                + " seconds; try restarting transaction"@,
        ),
{
    user_error_text(
        "HY000",
        three_texts(
            "Lock wait timeout exceeded after ",
            decimal_text(seconds).as_str(),
            " seconds; try restarting transaction",
        ),
    )
}

} // verus!
