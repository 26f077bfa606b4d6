//! Removing idle worktrees in two phases, as pruning and the reclaiming of
//! stale worktrees both do.
//!
//! What was planned is reserved in the state first. By then somebody may have
//! acquired a worktree: only what is still free is reserved. Under a second
//! lock a worktree is removed if the reservation is still held. One whose
//! removal fails stays in the state, with the owner that it had, so that the
//! next run can try again.

use vstd::prelude::*;
use vstd::string::*;

use crate::destroy::{reserve_error, reserve_pool_error, restore_entry, with_restored};
use crate::git::GitError;
use crate::pool::{entry_at, find_entry, lemma_entry_at, lemma_entry_at_update, PoolError};
use crate::process::{started_spec, ProcessRecord, ProcessTable};
use crate::prune::lemma_contains_push;
use crate::reservation::{destroy_reserved, is_destroy_token, still_held, Reservation};
use crate::state::{lemma_entry_views_update, owned, owner_alive, EntryView, State, WorktreeEntry};
use crate::text::views;
use crate::time::Timestamp;

verus! {

/// A removal that failed and left the entry in the state.
#[derive(Clone, Debug, PartialEq, Eq)]
pub struct CleanupError {
    pub name: String,
    pub path: String,
    /// `git_worktree_remove` or `filesystem_remove`.
    pub phase: String,
    pub detail: String,
}

/// What a [`CleanupError`] says.
#[verifier::ext_equal]
pub struct CleanupView {
    pub name: Seq<char>,
    pub path: Seq<char>,
    pub phase: Seq<char>,
    pub detail: Seq<char>,
}

impl View for CleanupError {
    type V = CleanupView;

    open spec fn view(&self) -> CleanupView {
        CleanupView {
            name: self.name@,
            path: self.path@,
            phase: self.phase@,
            detail: self.detail@,
        }
    }
}

impl CleanupError {
    /// A copy.
    pub fn copy(&self) -> (r: CleanupError)
        ensures
            r == *self,
    {
        CleanupError {
            name: self.name.clone(),
            path: self.path.clone(),
            phase: self.phase.clone(),
            detail: self.detail.clone(),
        }
    }
}

/// The worktree is still free to be removed: no destroy and no live owner has
/// it, and it carries no lease that counts at `now`. Where `any_lease` is set,
/// every lease counts; else only a valid one does.
pub open spec fn free(e: EntryView, rs: Seq<ProcessRecord>, now: Timestamp, any_lease: bool) -> bool {
    !e.destroying && !owned(e, rs) && if any_lease {
        !e.leased
    } else {
        !e.valid(now)
    }
}

/// Whether the worktree is still free to be removed.
pub fn is_free(wt: &WorktreeEntry, process: &ProcessTable, now: Timestamp, any_lease: bool) -> (r:
    bool)
    ensures
        r == free(wt@, process.records@, now, any_lease),
{
    if wt.destroying || owner_alive(wt, process) {
        return false;
    }
    if any_lease {
        !wt.leased
    } else {
        !wt.is_valid_lease(now)
    }
}

/// The position of a planned worktree that is reserved, `s.len()` for none:
/// the first with its path, provided it is free.
pub open spec fn pick(
    s: Seq<EntryView>,
    path: Seq<char>,
    rs: Seq<ProcessRecord>,
    now: Timestamp,
    any_lease: bool,
) -> int {
    let i = entry_at(s, path);
    if i < s.len() && free(s[i], rs, now, any_lease) {
        i
    } else {
        s.len() as int
    }
}

/// The state with the planned worktrees reserved, one after the other.
pub open spec fn reserved_state(
    s: Seq<EntryView>,
    planned: Seq<Seq<char>>,
    rs: Seq<ProcessRecord>,
    now: Timestamp,
    any_lease: bool,
    pid: i32,
    started_at: i64,
) -> Seq<EntryView>
    decreases planned.len(),
{
    if planned.len() == 0 {
        s
    } else {
        let t = reserved_state(s, planned.drop_last(), rs, now, any_lease, pid, started_at);
        let i = pick(t, planned.last(), rs, now, any_lease);
        if i < t.len() {
            t.update(i, destroy_reserved(t[i], pid, started_at))
        } else {
            t
        }
    }
}

/// The positions in the plan of the worktrees that are reserved, in order.
pub open spec fn reserved_plan(
    s: Seq<EntryView>,
    planned: Seq<Seq<char>>,
    rs: Seq<ProcessRecord>,
    now: Timestamp,
    any_lease: bool,
    pid: i32,
    started_at: i64,
) -> Seq<int>
    decreases planned.len(),
{
    if planned.len() == 0 {
        seq![]
    } else {
        let front = planned.drop_last();
        let t = reserved_state(s, front, rs, now, any_lease, pid, started_at);
        let rest = reserved_plan(s, front, rs, now, any_lease, pid, started_at);
        if pick(t, planned.last(), rs, now, any_lease) < t.len() {
            rest.push(planned.len() - 1)
        } else {
            rest
        }
    }
}

/// A worktree that was reserved, by its position in the plan.
#[derive(Clone, Debug, PartialEq, Eq)]
pub struct ReservedPlan {
    pub reservation: Reservation,
    pub index: usize,
}

/// Some planned worktree is free.
pub open spec fn any_free(
    s: Seq<EntryView>,
    planned: Seq<Seq<char>>,
    rs: Seq<ProcessRecord>,
    now: Timestamp,
    any_lease: bool,
) -> bool {
    exists|k: int|
        0 <= k < planned.len() && pick(s, #[trigger] planned[k], rs, now, any_lease) < s.len()
}

/// The reservation is one for the worktree that the state had at this path.
pub open spec fn token_for(
    r: Reservation,
    s: Seq<EntryView>,
    path: Seq<char>,
    pid: i32,
    started_at: i64,
) -> bool {
    entry_at(s, path) < s.len() && is_destroy_token(
        r,
        s[entry_at(s, path)],
        pid,
        started_at,
    )
}

/// A row of positions.
pub open spec fn nth(ps: Seq<int>, k: int) -> int {
    ps[k]
}

/// Reserves the planned worktrees that are still free for the process `pid`.
/// Where the start time of the process is not known nothing is reserved, and
/// it is an error if there was something to reserve. `what` names the command
/// in the error.
pub fn reserve_planned(
    state: &mut State,
    planned: &Vec<String>,
    process: &ProcessTable,
    now: Timestamp,
    any_lease: bool,
    pid: i32,
    what: &str,
) -> (r: Result<Vec<ReservedPlan>, PoolError>)
    requires
        pid != 0,
    ensures
        ({
            let s = old(state)@;
            let pv = views(planned@);
            let rs = process.records@;
            match started_spec(rs, pid) {
                Some(started_at) => {
                    let ps = reserved_plan(s, pv, rs, now, any_lease, pid, started_at);
                    &&& r matches Ok(v)
                    &&& v@.len() == ps.len()
                    &&& forall|k: int|
                        0 <= k < ps.len() ==> {
                            &&& v@[k].index == #[trigger] nth(ps, k)
                            &&& 0 <= nth(ps, k) < pv.len()
                            &&& token_for(v@[k].reservation, s, pv[nth(ps, k)], pid, started_at)
                        }
                    &&& final(state)@ == reserved_state(
                        s,
                        pv,
                        rs,
                        now,
                        any_lease,
                        pid,
                        started_at,
                    )
                },
                None => if any_free(s, pv, rs, now, any_lease) {
                    &&& r matches Err(PoolError::Git(g))
                    &&& g@ == reserve_error(what@, pid)
                    &&& final(state)@ == s
                } else {
                    r matches Ok(v) && v@.len() == 0 && final(state)@ == s
                },
            }
        }),
{
    let ghost s = state@;
    let ghost pv = views(planned@);
    let ghost rs = process.records@;
    let ghost started = started_spec(rs, pid);
    let ghost at = started->0;
    let mut out: Vec<ReservedPlan> = Vec::new();
    let mut k: usize = 0;
    assert(pv.take(0) =~= seq![]);
    while k < planned.len()
        invariant
            pid != 0,
            k <= planned.len(),
            pv == views(planned@),
            rs == process.records@,
            started == started_spec(rs, pid),
            at == started->0,
            s == old(state)@,
            started is Some ==> {
                let ps = reserved_plan(s, pv.take(k as int), rs, now, any_lease, pid, at);
                &&& state@ == reserved_state(s, pv.take(k as int), rs, now, any_lease, pid, at)
                &&& out@.len() == ps.len()
                &&& forall|j: int|
                    0 <= j < ps.len() ==> {
                        &&& out@[j].index == #[trigger] nth(ps, j)
                        &&& 0 <= nth(ps, j) < k
                        &&& token_for(out@[j].reservation, s, pv[nth(ps, j)], pid, at)
                    }
            },
            started is None ==> {
                &&& state@ == s
                &&& out@.len() == 0
                &&& forall|j: int|
                    0 <= j < k ==> pick(s, #[trigger] pv[j], rs, now, any_lease) >= s.len()
            },
        decreases planned.len() - k,
    {
        let ghost now_state = state@;
        let ghost ps0 = reserved_plan(s, pv.take(k as int), rs, now, any_lease, pid, at);
        let ghost ps1 = reserved_plan(s, pv.take(k + 1), rs, now, any_lease, pid, at);
        proof {
            assert(pv.take(k + 1).drop_last() =~= pv.take(k as int));
            assert(pv.take(k + 1).last() == planned@[k as int]@);
            assert(pv[k as int] == planned@[k as int]@);
        }
        if let Some(i) = find_entry(state, &planned[k]) {
            assert(state@[i as int] == state.worktrees@[i as int]@);
            if is_free(&state.worktrees[i], process, now, any_lease) {
                let path = state.worktrees[i].path.clone();
                let mut entry = state.worktrees[i].copy();
                match Reservation::reserve_destroy(&path, &mut entry, pid, process) {
                    Err(e) => {
                        assert(pick(s, pv[k as int], rs, now, any_lease) < s.len());
                        return Err(reserve_pool_error(what, &e));
                    },
                    Ok(reservation) => {
                        let ghost before = state.worktrees@;
                        proof {
                            lemma_entry_views_update(before, i as int, entry);
                            lemma_untouched(
                                s,
                                pv.take(k as int),
                                rs,
                                now,
                                any_lease,
                                pid,
                                at,
                                pv[k as int],
                            );
                        }
                        state.worktrees.set(i, entry);
                        let ghost before_out = out@;
                        out.push(ReservedPlan { reservation, index: k });
                        proof {
                            assert(ps1 == ps0.push(k as int));
                            assert forall|j: int| 0 <= j < ps1.len() implies {
                                &&& out@[j].index == #[trigger] nth(ps1, j)
                                &&& 0 <= nth(ps1, j) < k + 1
                                &&& token_for(out@[j].reservation, s, pv[nth(ps1, j)], pid, at)
                            } by {
                                if j < ps0.len() {
                                    assert(nth(ps1, j) == nth(ps0, j));
                                    assert(out@[j] == before_out[j]);
                                }
                            }
                        }
                    },
                }
            }
        }
        k += 1;
    }
    assert(pv.len() == planned.len());
    assert(pv.take(planned.len() as int) =~= pv);
    Ok(out)
}

/// A worktree that is still free was not touched by the reservations before.
proof fn lemma_untouched(
    s: Seq<EntryView>,
    planned: Seq<Seq<char>>,
    rs: Seq<ProcessRecord>,
    now: Timestamp,
    any_lease: bool,
    pid: i32,
    at: i64,
    path: Seq<char>,
)
    ensures
        ({
            let t = reserved_state(s, planned, rs, now, any_lease, pid, at);
            let i = entry_at(t, path);
            &&& t.len() == s.len()
            &&& entry_at(t, path) == entry_at(s, path)
            &&& 0 <= i <= t.len()
            &&& i < t.len() && !t[i].destroying ==> t[i] == s[i]
            &&& i < t.len() ==> t[i] == s[i] || t[i] == destroy_reserved(s[i], pid, at)
        }),
    decreases planned.len(),
{
    lemma_entry_at(s, path);
    if planned.len() > 0 {
        let t = reserved_state(s, planned.drop_last(), rs, now, any_lease, pid, at);
        lemma_untouched(s, planned.drop_last(), rs, now, any_lease, pid, at, path);
        lemma_untouched(s, planned.drop_last(), rs, now, any_lease, pid, at, planned.last());
        let i = pick(t, planned.last(), rs, now, any_lease);
        lemma_entry_at(t, planned.last());
        if i < t.len() {
            lemma_entry_at_update(t, i, destroy_reserved(t[i], pid, at), path);
        }
    }
}

// ---------- removing ----------

/// Whether a reserved worktree is still in the state and still reserved by
/// this command. Only then may it be removed.
pub fn holds_reservation(state: &State, reservation: &Reservation) -> (r: bool)
    ensures
        r == ({
            let i = entry_at(state@, reservation.worktree@);
            i < state@.len() && still_held(*reservation, state@[i])
        }),
{
    match find_entry(state, &reservation.worktree) {
        Some(i) => {
            assert(state@[i as int] == state.worktrees@[i as int]@);
            reservation.matches(&state.worktrees[i])
        },
        None => false,
    }
}

/// How deleting a directory ended.
#[derive(Clone, Debug, PartialEq, Eq)]
pub enum FsRemoval {
    Removed,
    /// It was gone already.
    NotFound,
    Failed(String),
}

/// How removing a worktree ended.
#[derive(Clone, Debug, PartialEq, Eq)]
pub enum Cleanup {
    /// Git has removed it: delete its directory now.
    DeleteDirectory,
    /// It is gone.
    Done,
    /// It is not, and why.
    Failed(CleanupError),
}

/// What follows on removing a worktree with git. Where that failed, its owner
/// is put back, unless `go_on` says that its directory is deleted all the
/// same.
pub fn after_git_remove(
    state: &mut State,
    reservation: &Reservation,
    name: &str,
    outcome: &Result<(), GitError>,
    go_on: bool,
) -> (r: Cleanup)
    ensures
        match *outcome {
            Err(e) if !go_on => {
                &&& r matches Cleanup::Failed(c)
                &&& c@ == (CleanupView {
                    name: name@,
                    path: reservation.worktree@,
                    phase: "git_worktree_remove"@,
                    detail: e.message_spec(),
                })
                &&& final(state)@ == with_restored(old(state)@, *reservation)
            },
            _ => r is DeleteDirectory && final(state)@ == old(state)@,
        },
{
    match outcome {
        Ok(_) => Cleanup::DeleteDirectory,
        Err(e) => {
            if go_on {
                return Cleanup::DeleteDirectory;
            }
            restore_entry(state, reservation);
            Cleanup::Failed(
                CleanupError {
                    name: name.to_owned(),
                    path: reservation.worktree.clone(),
                    phase: "git_worktree_remove".to_owned(),
                    detail: e.text(),
                },
            )
        },
    }
}

/// What follows on deleting the directory of a worktree. A directory that was
/// gone already is no failure.
pub fn after_fs_remove(
    state: &mut State,
    reservation: &Reservation,
    name: &str,
    outcome: &FsRemoval,
) -> (r: Cleanup)
    ensures
        match *outcome {
            FsRemoval::Failed(e) => {
                &&& r matches Cleanup::Failed(c)
                &&& c@ == (CleanupView {
                    name: name@,
                    path: reservation.worktree@,
                    phase: "filesystem_remove"@,
                    detail: e@,
                })
                &&& final(state)@ == with_restored(old(state)@, *reservation)
            },
            _ => r is Done && final(state)@ == old(state)@,
        },
{
    match outcome {
        FsRemoval::Failed(e) => {
            restore_entry(state, reservation);
            Cleanup::Failed(
                CleanupError {
                    name: name.to_owned(),
                    path: reservation.worktree.clone(),
                    phase: "filesystem_remove".to_owned(),
                    detail: e.clone(),
                },
            )
        },
        _ => Cleanup::Done,
    }
}

// ---------- laws ----------

/// Reserving for removal never takes a worktree with a valid lease, one with a
/// live owner, or one that another destroy has: such entries stay as they are.
pub proof fn law_only_free_is_reserved(
    s: Seq<EntryView>,
    planned: Seq<Seq<char>>,
    rs: Seq<ProcessRecord>,
    now: Timestamp,
    any_lease: bool,
    pid: i32,
    at: i64,
    i: int,
)
    requires
        0 <= i < s.len(),
        s[i].valid(now) || owned(s[i], rs) || s[i].destroying,
    ensures
        reserved_state(s, planned, rs, now, any_lease, pid, at).len() == s.len(),
        reserved_state(s, planned, rs, now, any_lease, pid, at)[i] == s[i],
    decreases planned.len(),
{
    if planned.len() > 0 {
        law_only_free_is_reserved(s, planned.drop_last(), rs, now, any_lease, pid, at, i);
        lemma_entry_at(
            reserved_state(s, planned.drop_last(), rs, now, any_lease, pid, at),
            planned.last(),
        );
    }
}

/// Reserving touches only planned worktrees, and never a lease.
pub proof fn law_reserve_touches_only_planned(
    s: Seq<EntryView>,
    planned: Seq<Seq<char>>,
    rs: Seq<ProcessRecord>,
    now: Timestamp,
    any_lease: bool,
    pid: i32,
    at: i64,
    i: int,
)
    requires
        0 <= i < s.len(),
    ensures
        ({
            let t = reserved_state(s, planned, rs, now, any_lease, pid, at);
            &&& t.len() == s.len()
            &&& t[i].same_lease(s[i])
            &&& t[i].path == s[i].path
            &&& t[i].name == s[i].name
            &&& !planned.contains(s[i].path) ==> t[i] == s[i]
        }),
    decreases planned.len(),
{
    if planned.len() > 0 {
        let front = planned.drop_last();
        law_reserve_touches_only_planned(s, front, rs, now, any_lease, pid, at, i);
        let t = reserved_state(s, front, rs, now, any_lease, pid, at);
        lemma_entry_at(t, planned.last());
        if !planned.contains(s[i].path) {
            assert(!front.contains(s[i].path)) by {
                if front.contains(s[i].path) {
                    let k = choose|k: int| 0 <= k < front.len() && front[k] == s[i].path;
                    assert(planned[k] == s[i].path);
                }
            }
            assert(planned[planned.len() - 1] != s[i].path);
        }
    }
}

/// A worktree is free to be removed exactly if no destroy is at it, no live
/// process owns it, and it has no lease that counts: none at all where every
/// lease counts, else none that is permanent or still runs.
pub proof fn law_free_exactly(e: EntryView, rs: Seq<ProcessRecord>, now: Timestamp)
    ensures
        free(e, rs, now, true) <==> !e.destroying && !owned(e, rs) && !e.leased,
        free(e, rs, now, false) <==> !e.destroying && !owned(e, rs) && (e.leased ==> e.stale(now)),
        free(e, rs, now, true) ==> free(e, rs, now, false),
{
    crate::state::law_lease_is_valid_or_stale(e, now);
}

/// Reserving reserves exactly the planned worktrees that are free, each by the
/// first entry with its path, and leaves every other entry as it is.
pub proof fn law_planned_and_free_is_reserved(
    s: Seq<EntryView>,
    planned: Seq<Seq<char>>,
    rs: Seq<ProcessRecord>,
    now: Timestamp,
    any_lease: bool,
    pid: i32,
    at: i64,
    i: int,
)
    requires
        0 <= i < s.len(),
    ensures
        ({
            let t = reserved_state(s, planned, rs, now, any_lease, pid, at);
            let first = forall|j: int| 0 <= j < i ==> (#[trigger] s[j]).path != s[i].path;
            &&& t.len() == s.len()
            &&& planned.contains(s[i].path) && first && free(s[i], rs, now, any_lease) ==> t[i]
                == destroy_reserved(s[i], pid, at)
            &&& !(planned.contains(s[i].path) && first && free(s[i], rs, now, any_lease)) ==> t[i]
                == s[i]
        }),
    decreases planned.len(),
{
    lemma_entry_at(s, s[i].path);
    let first = forall|j: int| 0 <= j < i ==> (#[trigger] s[j]).path != s[i].path;
    assert(first <==> entry_at(s, s[i].path) == i) by {
        if entry_at(s, s[i].path) < i {
            assert(s[entry_at(s, s[i].path)].path == s[i].path);
        }
    }
    if planned.len() > 0 {
        let front = planned.drop_last();
        let p = planned.last();
        let t = reserved_state(s, front, rs, now, any_lease, pid, at);
        law_planned_and_free_is_reserved(s, front, rs, now, any_lease, pid, at, i);
        lemma_untouched(s, front, rs, now, any_lease, pid, at, p);
        lemma_entry_at(s, p);
        assert(front.push(p) =~= planned);
        lemma_contains_push(front, p, s[i].path);
        if entry_at(t, p) == i {
            assert(s[i].path == p);
        }
    }
}

/// Of the plan, exactly the worktrees are reserved that the state has and that
/// are free, each at its first place in the plan, and in the order of the
/// plan.
pub proof fn law_reserved_part_of_the_plan(
    s: Seq<EntryView>,
    planned: Seq<Seq<char>>,
    rs: Seq<ProcessRecord>,
    now: Timestamp,
    any_lease: bool,
    pid: i32,
    at: i64,
    k: int,
)
    ensures
        ({
            let ps = reserved_plan(s, planned, rs, now, any_lease, pid, at);
            &&& ps.contains(k) <==> {
                &&& 0 <= k < planned.len()
                &&& entry_at(s, planned[k]) < s.len()
                &&& free(s[entry_at(s, planned[k])], rs, now, any_lease)
                &&& forall|j: int| 0 <= j < k ==> #[trigger] planned[j] != planned[k]
            }
            &&& forall|a: int, b: int| 0 <= a < b < ps.len() ==> ps[a] < ps[b]
            &&& forall|a: int| 0 <= a < ps.len() ==> 0 <= #[trigger] ps[a] < planned.len()
        }),
    decreases planned.len(),
{
    if planned.len() > 0 {
        let front = planned.drop_last();
        let p = planned.last();
        let n = front.len() as int;
        let t = reserved_state(s, front, rs, now, any_lease, pid, at);
        let rest = reserved_plan(s, front, rs, now, any_lease, pid, at);
        law_reserved_part_of_the_plan(s, front, rs, now, any_lease, pid, at, k);
        lemma_untouched(s, front, rs, now, any_lease, pid, at, p);
        lemma_entry_at(s, p);
        lemma_contains_push(rest, n, k);
        let i = entry_at(s, p);
        if i < s.len() {
            law_planned_and_free_is_reserved(s, front, rs, now, any_lease, pid, at, i);
        }
        assert(forall|j: int| 0 <= j < n ==> #[trigger] planned[j] == front[j]);
        if front.contains(p) {
            let j = choose|j: int| 0 <= j < front.len() && front[j] == p;
            assert(planned[j] == planned[n]);
        } else {
            assert forall|j: int| 0 <= j < n implies #[trigger] planned[j] != planned[n] by {
                assert(front.contains(front[j]));
            }
        }
        if k < n && k >= 0 {
            assert(front[k] == planned[k]);
            if forall|j: int| 0 <= j < k ==> #[trigger] planned[j] != planned[k] {
                assert forall|j: int| 0 <= j < k implies #[trigger] front[j] != front[k] by {
                    assert(planned[j] != planned[k]);
                }
            }
            if forall|j: int| 0 <= j < k ==> #[trigger] front[j] != front[k] {
                assert forall|j: int| 0 <= j < k implies #[trigger] planned[j] != planned[k] by {
                    assert(front[j] != front[k]);
                }
            }
        }
    }
}

/// A reservation is for the worktree with its path, and holds right after it was
/// made.
pub proof fn law_token_is_for_its_worktree(
    r: Reservation,
    s: Seq<EntryView>,
    path: Seq<char>,
    pid: i32,
    at: i64,
)
    requires
        token_for(r, s, path, pid, at),
    ensures
        r.worktree@ == path,
        entry_at(s, path) < s.len(),
        still_held(r, destroy_reserved(s[entry_at(s, path)], pid, at)),
{
    lemma_entry_at(s, path);
}

/// There is something to reserve exactly if some planned worktree is free.
pub proof fn law_something_to_reserve_exactly(
    s: Seq<EntryView>,
    planned: Seq<Seq<char>>,
    rs: Seq<ProcessRecord>,
    now: Timestamp,
    any_lease: bool,
)
    ensures
        any_free(s, planned, rs, now, any_lease) <==> exists|k: int|
            0 <= k < planned.len() && entry_at(s, #[trigger] planned[k]) < s.len() && free(
                s[entry_at(s, planned[k])],
                rs,
                now,
                any_lease,
            ),
{
    if any_free(s, planned, rs, now, any_lease) {
        let k = choose|k: int|
            0 <= k < planned.len() && pick(s, #[trigger] planned[k], rs, now, any_lease) < s.len();
        assert(entry_at(s, planned[k]) < s.len());
    }
    if exists|k: int|
        0 <= k < planned.len() && entry_at(s, #[trigger] planned[k]) < s.len() && free(
            s[entry_at(s, planned[k])],
            rs,
            now,
            any_lease,
        ) {
        let k = choose|k: int|
            0 <= k < planned.len() && entry_at(s, #[trigger] planned[k]) < s.len() && free(
                s[entry_at(s, planned[k])],
                rs,
                now,
                any_lease,
            );
        assert(pick(s, planned[k], rs, now, any_lease) < s.len());
    }
}

} // verus!
