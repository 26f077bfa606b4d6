//! Pool state: the worktrees of a pool, what is known of each of them, and
//! the form in which that is kept in `treehouse-state.json`.
//!
//! A missing state file is a fresh, empty pool. A file that exists and does
//! not parse is corrupt: every worktree found on disk is then taken as leased
//! until somebody has looked at it.

use vstd::prelude::*;
use vstd::string::*;

use crate::path::{join, join_spec};
use crate::process::{started_spec, ProcessRecord, ProcessTable};
use crate::text::{all_hex, hex, hex_text, lemma_hex, opt_view, same_text, views};
use crate::time::{
    deserialize, nano_instant, nano_text, normal_instant, serialize, zero_time, Timestamp,
};

verus! {

/// A single managed worktree of a pool.
#[derive(Clone, Debug, PartialEq, Eq)]
pub struct WorktreeEntry {
    pub name: String,
    pub path: String,
    pub created_at: Timestamp,
    /// A destroy has reserved the worktree.
    pub destroying: bool,
    /// The process that holds the owner reservation, 0 for none.
    pub owner_pid: i32,
    /// Start time of the owner in milliseconds, 0 for none.
    pub owner_started_at: i64,
    pub leased: bool,
    pub lease_id: String,
    pub lease_holder: String,
    pub leased_at: Timestamp,
    /// When the lease ends; the zero sentinel for a permanent lease.
    pub expires_at: Timestamp,
}

/// What a [`WorktreeEntry`] says.
#[verifier::ext_equal]
pub struct EntryView {
    pub name: Seq<char>,
    pub path: Seq<char>,
    pub created_at: Timestamp,
    pub destroying: bool,
    pub owner_pid: i32,
    pub owner_started_at: i64,
    pub leased: bool,
    pub lease_id: Seq<char>,
    pub lease_holder: Seq<char>,
    pub leased_at: Timestamp,
    pub expires_at: Timestamp,
}

impl View for WorktreeEntry {
    type V = EntryView;

    open spec fn view(&self) -> EntryView {
        EntryView {
            name: self.name@,
            path: self.path@,
            created_at: self.created_at,
            destroying: self.destroying,
            owner_pid: self.owner_pid,
            owner_started_at: self.owner_started_at,
            leased: self.leased,
            lease_id: self.lease_id@,
            lease_holder: self.lease_holder@,
            leased_at: self.leased_at,
            expires_at: self.expires_at,
        }
    }
}

/// An entry with nothing in it: no reservation, no lease, zero times.
pub open spec fn blank_entry() -> EntryView {
    EntryView {
        name: seq![],
        path: seq![],
        created_at: zero_time(),
        destroying: false,
        owner_pid: 0,
        owner_started_at: 0,
        leased: false,
        lease_id: seq![],
        lease_holder: seq![],
        leased_at: zero_time(),
        expires_at: zero_time(),
    }
}

impl Default for WorktreeEntry {
    fn default() -> (r: WorktreeEntry)
        ensures
            r@ == blank_entry(),
    {
        WorktreeEntry {
            name: String::new(),
            path: String::new(),
            created_at: Timestamp::zero(),
            destroying: false,
            owner_pid: 0,
            owner_started_at: 0,
            leased: false,
            lease_id: String::new(),
            lease_holder: String::new(),
            leased_at: Timestamp::zero(),
            expires_at: Timestamp::zero(),
        }
    }
}

impl EntryView {
    /// Its instants are representable.
    pub open spec fn wf(self) -> bool {
        self.created_at.wf() && self.leased_at.wf() && self.expires_at.wf()
    }

    /// The lease has passed its end. A permanent lease never has.
    pub open spec fn stale(self, now: Timestamp) -> bool {
        self.leased && self.expires_at != zero_time() && now.at_or_after(self.expires_at)
    }

    /// The lease is permanent or has not passed its end.
    pub open spec fn valid(self, now: Timestamp) -> bool {
        self.leased && (self.expires_at == zero_time() || !now.at_or_after(self.expires_at))
    }

    /// The entry with its lease removed.
    pub open spec fn unleased(self) -> EntryView {
        EntryView {
            leased: false,
            lease_id: seq![],
            lease_holder: seq![],
            leased_at: zero_time(),
            expires_at: zero_time(),
            ..self
        }
    }

    /// The two entries agree on everything that concerns the lease.
    pub open spec fn same_lease(self, other: EntryView) -> bool {
        &&& self.leased == other.leased
        &&& self.lease_id == other.lease_id
        &&& self.lease_holder == other.lease_holder
        &&& self.leased_at == other.leased_at
        &&& self.expires_at == other.expires_at
    }
}

impl WorktreeEntry {
    /// A lease that has passed its end. Permanent leases are never stale.
    pub fn is_stale_lease(&self, now: Timestamp) -> (r: bool)
        ensures
            r == self@.stale(now),
    {
        self.leased && !self.expires_at.is_zero() && now.not_before(self.expires_at)
    }

    /// A lease that is permanent or has not passed its end.
    pub fn is_valid_lease(&self, now: Timestamp) -> (r: bool)
        ensures
            r == self@.valid(now),
    {
        self.leased && (self.expires_at.is_zero() || !now.not_before(self.expires_at))
    }

    /// An equal entry.
    pub fn copy(&self) -> (r: WorktreeEntry)
        ensures
            r == *self,
    {
        WorktreeEntry {
            name: self.name.clone(),
            path: self.path.clone(),
            created_at: self.created_at,
            destroying: self.destroying,
            owner_pid: self.owner_pid,
            owner_started_at: self.owner_started_at,
            leased: self.leased,
            lease_id: self.lease_id.clone(),
            lease_holder: self.lease_holder.clone(),
            leased_at: self.leased_at,
            expires_at: self.expires_at,
        }
    }
}

/// The state of a pool: its worktrees, in order.
#[derive(Clone, Debug, PartialEq, Eq)]
pub struct State {
    pub worktrees: Vec<WorktreeEntry>,
}

/// The views of a row of entries.
pub open spec fn entry_views(v: Seq<WorktreeEntry>) -> Seq<EntryView> {
    v.map_values(|e: WorktreeEntry| e@)
}

/// Appending an entry appends its view.
pub broadcast proof fn lemma_entry_views_push(v: Seq<WorktreeEntry>, e: WorktreeEntry)
    ensures
        #[trigger] entry_views(v.push(e)) == entry_views(v).push(e@),
{
    assert(entry_views(v.push(e)) =~= entry_views(v).push(e@));
}

/// Replacing an entry replaces its view.
pub broadcast proof fn lemma_entry_views_update(v: Seq<WorktreeEntry>, i: int, e: WorktreeEntry)
    requires
        0 <= i < v.len(),
    ensures
        #[trigger] entry_views(v.update(i, e)) == entry_views(v).update(i, e@),
{
    assert(entry_views(v.update(i, e)) =~= entry_views(v).update(i, e@));
}

impl View for State {
    type V = Seq<EntryView>;

    open spec fn view(&self) -> Seq<EntryView> {
        entry_views(self.worktrees@)
    }
}

impl Default for State {
    fn default() -> (r: State)
        ensures
            r@ == Seq::<EntryView>::empty(),
            r.worktrees@.len() == 0,
    {
        let r = State { worktrees: Vec::new() };
        assert(r@ =~= Seq::<EntryView>::empty());
        r
    }
}

impl State {
    /// The state file of a pool directory.
    pub fn state_file_path(pool_dir: &str) -> (r: String)
        ensures
            r@ == join_spec(pool_dir@, "treehouse-state.json"@),
    {
        join(pool_dir, "treehouse-state.json")
    }

    /// The lock file of a pool directory.
    pub fn lock_file_path(pool_dir: &str) -> (r: String)
        ensures
            r@ == join_spec(pool_dir@, "treehouse-state.lock"@),
    {
        join(pool_dir, "treehouse-state.lock")
    }

    /// An equal state.
    pub fn copy(&self) -> (r: State)
        ensures
            r@ == self@,
            r.worktrees@ == self.worktrees@,
    {
        let mut worktrees: Vec<WorktreeEntry> = Vec::new();
        let mut i: usize = 0;
        while i < self.worktrees.len()
            invariant
                i <= self.worktrees.len(),
                worktrees@ == self.worktrees@.take(i as int),
            decreases self.worktrees.len() - i,
        {
            worktrees.push(self.worktrees[i].copy());
            i += 1;
        }
        assert(worktrees@ =~= self.worktrees@);
        State { worktrees }
    }
}

// ---------- healing ----------

/// The owner reservation is held by a process that runs and started when the
/// reservation says.
pub open spec fn owned(e: EntryView, rs: Seq<ProcessRecord>) -> bool {
    e.owner_pid != 0 && e.owner_started_at != 0 && started_spec(rs, e.owner_pid) == Some(
        e.owner_started_at,
    )
}

/// The entry with a dead owner reservation removed.
pub open spec fn healed_entry(e: EntryView, rs: Seq<ProcessRecord>) -> EntryView {
    if e.owner_pid != 0 && !owned(e, rs) {
        EntryView { owner_pid: 0, owner_started_at: 0, destroying: false, ..e }
    } else {
        e
    }
}

/// The entries whose path is among `existing`, each healed, in order.
pub open spec fn healed(
    s: Seq<EntryView>,
    existing: Seq<Seq<char>>,
    rs: Seq<ProcessRecord>,
) -> Seq<EntryView>
    decreases s.len(),
{
    if s.len() == 0 {
        seq![]
    } else {
        let rest = healed(s.drop_last(), existing, rs);
        if existing.contains(s.last().path) {
            rest.push(healed_entry(s.last(), rs))
        } else {
            rest
        }
    }
}

/// Whether the owner reservation is held by a live process: it has a pid and
/// a start time, and the process with that pid started then. A process that
/// merely got the same pid later does not count.
pub fn owner_alive(wt: &WorktreeEntry, process: &ProcessTable) -> (r: bool)
    ensures
        r == owned(wt@, process.records@),
{
    if wt.owner_pid == 0 || wt.owner_started_at == 0 {
        return false;
    }
    match process.started_at(wt.owner_pid) {
        Some(started_at) => started_at == wt.owner_started_at,
        None => false,
    }
}

/// Removes a dead owner reservation. The lease stays as it is.
pub fn heal_owner(entry: &mut WorktreeEntry, process: &ProcessTable)
    ensures
        final(entry)@ == healed_entry(old(entry)@, process.records@),
{
    if entry.owner_pid != 0 && !owner_alive(entry, process) {
        entry.owner_pid = 0;
        entry.owner_started_at = 0;
        entry.destroying = false;
    }
}

/// Whether `path` is among `paths`.
pub fn lists(paths: &Vec<String>, path: &String) -> (r: bool)
    ensures
        r == views(paths@).contains(path@),
{
    let mut i: usize = 0;
    while i < paths.len()
        invariant
            i <= paths.len(),
            forall|j: int| 0 <= j < i ==> views(paths@)[j] != path@,
        decreases paths.len() - i,
    {
        assert(views(paths@)[i as int] == paths@[i as int]@);
        if same_text(&paths[i], path) {
            return true;
        }
        i += 1;
    }
    false
}

/// Heals the state: entries whose path is not among `existing` are dropped,
/// and dead owner reservations are removed from the others. Leases stay as
/// they are, valid or stale.
pub fn heal_state(state: &mut State, existing: &Vec<String>, process: &ProcessTable)
    ensures
        final(state)@ == healed(old(state)@, views(existing@), process.records@),
{
    let ghost all = state@;
    let mut out: Vec<WorktreeEntry> = Vec::new();
    let mut i: usize = 0;
    assert(entry_views(out@) =~= healed(all.take(0), views(existing@), process.records@));
    while i < state.worktrees.len()
        invariant
            i <= state.worktrees.len(),
            all == entry_views(state.worktrees@),
            entry_views(out@) == healed(all.take(i as int), views(existing@), process.records@),
        decreases state.worktrees.len() - i,
    {
        proof {
            broadcast use lemma_entry_views_push;

            assert(all.take(i + 1).drop_last() =~= all.take(i as int));
            assert(all.take(i + 1).last() == state.worktrees@[i as int]@);
        }
        if lists(existing, &state.worktrees[i].path) {
            let mut wt = state.worktrees[i].copy();
            heal_owner(&mut wt, process);
            out.push(wt);
        }
        i += 1;
    }
    assert(all.take(all.len() as int) =~= all);
    state.worktrees = out;
}

/// Removes the lease from an entry.
pub fn clear_lease(wt: &mut WorktreeEntry)
    ensures
        final(wt)@ == old(wt)@.unleased(),
{
    wt.leased = false;
    wt.lease_id = String::new();
    wt.lease_holder = String::new();
    wt.leased_at = Timestamp::zero();
    wt.expires_at = Timestamp::zero();
}

// ---------- lease identities ----------

/// `rand::Rng::random` on the generator of the thread: sixteen bytes, any.
#[verifier::external_body]
fn random_bytes() -> (r: [u8; 16]) {
    rand::Rng::random(&mut rand::rng())
}

/// The identity that sixteen bytes stand for.
pub fn lease_id_from(bytes: &[u8]) -> (r: String)
    ensures
        r@ == hex(bytes@),
        r@.len() == 2 * bytes@.len(),
        all_hex(r@),
{
    proof {
        lemma_hex(bytes@);
    }
    hex_text(bytes)
}

/// A fresh random identity of 32 lower-case hexadecimal digits.
pub fn new_lease_id() -> (r: String)
    ensures
        r@.len() == 32,
        all_hex(r@),
{
    let bytes = random_bytes();
    let slice: &[u8] = bytes.as_slice();
    lease_id_from(slice)
}

// ---------- recovery ----------

/// The holder that recovered entries name.
pub const RECOVERED_LEASE_HOLDER: &'static str =
    "recovered: state file was corrupt or truncated; verify before reuse";

/// What was found on looking for `.git` in a directory.
#[derive(Clone, Debug, PartialEq, Eq)]
pub enum GitProbe {
    Present,
    Absent,
    Failed(String),
}

/// A directory entry inside a slot of a pool.
#[derive(Debug, PartialEq, Eq)]
pub struct SlotChild {
    pub name: String,
    pub is_dir: Result<bool, String>,
    pub git: GitProbe,
}

/// A directory entry of a pool: a slot, where it is a directory.
#[derive(Debug, PartialEq, Eq)]
pub struct Slot {
    pub name: String,
    pub is_dir: Result<bool, String>,
    pub children: Result<Vec<Result<SlotChild, String>>, String>,
}

/// Errors from reading or recovering pool state: the path of the state file
/// and what went wrong.
#[derive(Clone, Debug, PartialEq, Eq)]
pub enum StateError {
    Read(String, String),
    RecoverScan(String, String),
}

impl StateError {
    /// The message of the error.
    pub open spec fn message_spec(self) -> Seq<char> {
        match self {
            StateError::Read(path, e) => "failed to read state file "@ + path@ + ": "@ + e@,
            StateError::RecoverScan(path, e) => "state file "@ + path@
                + " is corrupt or truncated and recovery could not scan: "@ + e@,
        }
    }

    /// The message of the error.
    pub fn message(&self) -> (r: String)
        ensures
            r@ == self.message_spec(),
    {
        match self {
            StateError::Read(path, e) => {
                let mut s = "failed to read state file ".to_owned();
                s.append(path);
                s.append(": ");
                s.append(e);
                s
            },
            StateError::RecoverScan(path, e) => {
                let mut s = "state file ".to_owned();
                s.append(path);
                s.append(" is corrupt or truncated and recovery could not scan: ");
                s.append(e);
                s
            },
        }
    }
}

/// The entry for a worktree that was found on disk: leased for good.
pub open spec fn recovered_entry(
    pool_dir: Seq<char>,
    slot: Seq<char>,
    child: Seq<char>,
    now: Timestamp,
) -> EntryView {
    EntryView {
        name: slot,
        path: join_spec(join_spec(pool_dir, slot), child),
        created_at: now,
        leased: true,
        lease_holder: RECOVERED_LEASE_HOLDER@,
        leased_at: now,
        ..blank_entry()
    }
}

/// What one directory entry of a slot adds to the recovered entries.
pub open spec fn child_recovered(
    pool_dir: Seq<char>,
    slot: Seq<char>,
    child: Result<SlotChild, String>,
    now: Timestamp,
) -> Result<Seq<EntryView>, Seq<char>> {
    match child {
        Err(e) => Err(e@),
        Ok(c) => match c.is_dir {
            Err(e) => Err(e@),
            Ok(false) => Ok(seq![]),
            Ok(true) => match c.git {
                GitProbe::Failed(e) => Err(e@),
                GitProbe::Absent => Ok(seq![]),
                GitProbe::Present => Ok(seq![recovered_entry(pool_dir, slot, c.name@, now)]),
            },
        },
    }
}

/// What the directory entries of a slot add, up to the first that fails.
pub open spec fn children_recovered(
    pool_dir: Seq<char>,
    slot: Seq<char>,
    children: Seq<Result<SlotChild, String>>,
    now: Timestamp,
) -> Result<Seq<EntryView>, Seq<char>>
    decreases children.len(),
{
    if children.len() == 0 {
        Ok(seq![])
    } else {
        match children_recovered(pool_dir, slot, children.drop_last(), now) {
            Err(e) => Err(e),
            Ok(rest) => match child_recovered(pool_dir, slot, children.last(), now) {
                Err(e) => Err(e),
                Ok(more) => Ok(rest + more),
            },
        }
    }
}

/// What one directory entry of the pool adds.
pub open spec fn slot_recovered(
    pool_dir: Seq<char>,
    slot: Result<Slot, String>,
    now: Timestamp,
) -> Result<Seq<EntryView>, Seq<char>> {
    match slot {
        Err(e) => Err(e@),
        Ok(s) => match s.is_dir {
            Err(e) => Err(e@),
            Ok(false) => Ok(seq![]),
            Ok(true) => match s.children {
                Err(e) => Err(e@),
                Ok(children) => children_recovered(pool_dir, s.name@, children@, now),
            },
        },
    }
}

/// The entries recovered from a pool directory, or the first failure.
pub open spec fn slots_recovered(
    pool_dir: Seq<char>,
    slots: Seq<Result<Slot, String>>,
    now: Timestamp,
) -> Result<Seq<EntryView>, Seq<char>>
    decreases slots.len(),
{
    if slots.len() == 0 {
        Ok(seq![])
    } else {
        match slots_recovered(pool_dir, slots.drop_last(), now) {
            Err(e) => Err(e),
            Ok(rest) => match slot_recovered(pool_dir, slots.last(), now) {
                Err(e) => Err(e),
                Ok(more) => Ok(rest + more),
            },
        }
    }
}

fn recover_children(
    pool_dir: &str,
    slot: &str,
    children: &Vec<Result<SlotChild, String>>,
    now: Timestamp,
) -> (r: Result<Vec<WorktreeEntry>, String>)
    ensures
        match children_recovered(pool_dir@, slot@, children@, now) {
            Ok(entries) => r matches Ok(v) && entry_views(v@) == entries,
            Err(e) => r matches Err(text) && text@ == e,
        },
{
    let mut out: Vec<WorktreeEntry> = Vec::new();
    let mut i: usize = 0;
    assert(entry_views(out@) =~= Seq::<EntryView>::empty());
    while i < children.len()
        invariant
            i <= children.len(),
            children_recovered(pool_dir@, slot@, children@.take(i as int), now) == Ok::<
                Seq<EntryView>,
                Seq<char>,
            >(entry_views(out@)),
        decreases children.len() - i,
    {
        broadcast use lemma_entry_views_push;

        let ghost t = children@.take(i + 1);
        assert(t.drop_last() =~= children@.take(i as int));
        assert(t.last() == children@[i as int]);
        let ghost before = entry_views(out@);
        let failure: Option<String> = match &children[i] {
            Err(e) => Some(e.clone()),
            Ok(c) => match &c.is_dir {
                Err(e) => Some(e.clone()),
                Ok(false) => None,
                Ok(true) => match &c.git {
                    GitProbe::Failed(e) => Some(e.clone()),
                    GitProbe::Absent => None,
                    GitProbe::Present => {
                        let slot_dir = join(pool_dir, slot);
                        let mut e = WorktreeEntry::default();
                        e.name = slot.to_owned();
                        e.path = join(&slot_dir, &c.name);
                        e.created_at = now;
                        e.leased = true;
                        e.lease_holder = RECOVERED_LEASE_HOLDER.to_owned();
                        e.leased_at = now;
                        assert(e@ == recovered_entry(pool_dir@, slot@, c.name@, now));
                        out.push(e);
                        None
                    },
                },
            },
        };
        if let Some(e) = failure {
            proof {
                lemma_children_failure(pool_dir@, slot@, children@, now, i as int);
            }
            return Err(e);
        }
        proof {
            let more = child_recovered(pool_dir@, slot@, children@[i as int], now)->Ok_0;
            assert(entry_views(out@) =~= before + more);
        }
        i += 1;
    }
    assert(children@.take(children.len() as int) =~= children@);
    Ok(out)
}

proof fn lemma_children_failure(
    pool_dir: Seq<char>,
    slot: Seq<char>,
    children: Seq<Result<SlotChild, String>>,
    now: Timestamp,
    i: int,
)
    requires
        0 <= i < children.len(),
        children_recovered(pool_dir, slot, children.take(i), now) is Ok,
        child_recovered(pool_dir, slot, children[i], now) is Err,
    ensures
        children_recovered(pool_dir, slot, children, now) == Err::<Seq<EntryView>, Seq<char>>(
            child_recovered(pool_dir, slot, children[i], now)->Err_0,
        ),
    decreases children.len(),
{
    if i == children.len() - 1 {
        assert(children.drop_last() =~= children.take(i));
    } else {
        assert(children.drop_last().take(i) =~= children.take(i));
        lemma_children_failure(pool_dir, slot, children.drop_last(), now, i);
    }
}

proof fn lemma_slots_failure(
    pool_dir: Seq<char>,
    slots: Seq<Result<Slot, String>>,
    now: Timestamp,
    i: int,
)
    requires
        0 <= i < slots.len(),
        slots_recovered(pool_dir, slots.take(i), now) is Ok,
        slot_recovered(pool_dir, slots[i], now) is Err,
    ensures
        slots_recovered(pool_dir, slots, now) == Err::<Seq<EntryView>, Seq<char>>(
            slot_recovered(pool_dir, slots[i], now)->Err_0,
        ),
    decreases slots.len(),
{
    if i == slots.len() - 1 {
        assert(slots.drop_last() =~= slots.take(i));
    } else {
        assert(slots.drop_last().take(i) =~= slots.take(i));
        lemma_slots_failure(pool_dir, slots.drop_last(), now, i);
    }
}

/// Rebuilds the state from the directories of a pool whose state file does
/// not parse. `slots` is the listing of the pool directory. A listing that
/// failed anywhere fails the recovery.
pub fn recover_corrupt_state(
    pool_dir: &str,
    state_path: &str,
    slots: &Result<Vec<Result<Slot, String>>, String>,
    now: Timestamp,
) -> (r: Result<State, StateError>)
    ensures
        match *slots {
            Err(e) => r matches Err(StateError::RecoverScan(path, text)) && path@ == state_path@
                && text@ == e@,
            Ok(list) => match slots_recovered(pool_dir@, list@, now) {
                Ok(entries) => r matches Ok(s) && s@ == entries,
                Err(e) => r matches Err(StateError::RecoverScan(path, text)) && path@
                    == state_path@ && text@ == e,
            },
        },
{
    let list = match slots {
        Ok(list) => list,
        Err(e) => return Err(StateError::RecoverScan(state_path.to_owned(), e.clone())),
    };
    let mut out: Vec<WorktreeEntry> = Vec::new();
    let mut i: usize = 0;
    assert(entry_views(out@) =~= Seq::<EntryView>::empty());
    while i < list.len()
        invariant
            i <= list.len(),
            slots is Ok,
            slots->Ok_0 == *list,
            slots_recovered(pool_dir@, list@.take(i as int), now) == Ok::<
                Seq<EntryView>,
                Seq<char>,
            >(entry_views(out@)),
        decreases list.len() - i,
    {
        let ghost t = list@.take(i + 1);
        assert(t.drop_last() =~= list@.take(i as int));
        assert(t.last() == list@[i as int]);
        let ghost before = entry_views(out@);
        let found: Result<Vec<WorktreeEntry>, String> = match &list[i] {
            Err(e) => Err(e.clone()),
            Ok(s) => match &s.is_dir {
                Err(e) => Err(e.clone()),
                Ok(false) => Ok(Vec::new()),
                Ok(true) => match &s.children {
                    Err(e) => Err(e.clone()),
                    Ok(children) => recover_children(pool_dir, &s.name, children, now),
                },
            },
        };
        match found {
            Err(e) => {
                proof {
                    lemma_slots_failure(pool_dir@, list@, now, i as int);
                }
                return Err(StateError::RecoverScan(state_path.to_owned(), e));
            },
            Ok(mut more) => {
                let ghost added = more@;
                out.append(&mut more);
                assert(entry_views(out@) =~= before + entry_views(added));
                assert(entry_views(added) =~= slot_recovered(
                    pool_dir@,
                    list@[i as int],
                    now,
                )->Ok_0);
            },
        }
        i += 1;
    }
    assert(list@.take(list.len() as int) =~= list@);
    Ok(State { worktrees: out })
}

/// The warning that goes with a recovery.
pub open spec fn recovery_warning_spec(state_path: Seq<char>, parse_error: Seq<char>) -> Seq<char> {
    "treehouse: WARNING: state file "@ + state_path + " is corrupt or truncated ("@ + parse_error
        + "); recovering from worktrees found on disk. They are marked leased until verified - see `treehouse status`, then `treehouse return` or `treehouse destroy --include-leased`."@
}

/// The warning that goes with a recovery.
pub fn recovery_warning(state_path: &str, parse_error: &str) -> (r: String)
    ensures
        r@ == recovery_warning_spec(state_path@, parse_error@),
{
    let mut s = "treehouse: WARNING: state file ".to_owned();
    s.append(state_path);
    s.append(" is corrupt or truncated (");
    s.append(parse_error);
    s.append("); recovering from worktrees found on disk. They are marked leased until verified - see `treehouse status`, then `treehouse return` or `treehouse destroy --include-leased`.");
    s
}

/// What reading the state file gave.
#[derive(Clone, Debug, PartialEq, Eq)]
pub enum StateFile {
    /// There is no such file.
    Missing,
    /// The file cannot be read.
    Unreadable(String),
    /// The file was read and parsed.
    Parsed(State),
    /// The file was read and does not parse.
    Corrupt(String),
}

impl State {
    /// The state of a pool. A missing file is a fresh pool; a corrupt one is
    /// recovered from `slots`, the listing of the pool directory.
    pub fn read_state(
        pool_dir: &str,
        file: StateFile,
        slots: &Result<Vec<Result<Slot, String>>, String>,
        now: Timestamp,
    ) -> (r: Result<State, StateError>)
        ensures
            match file {
                StateFile::Missing => r matches Ok(s) && s@ == Seq::<EntryView>::empty(),
                StateFile::Unreadable(e) => r matches Err(StateError::Read(path, text)) && path@
                    == join_spec(pool_dir@, "treehouse-state.json"@) && text@ == e@,
                StateFile::Parsed(s) => r == Ok::<State, StateError>(s),
                StateFile::Corrupt(_) => match *slots {
                    Err(e) => r matches Err(StateError::RecoverScan(path, text)) && path@ == join_spec(
                        pool_dir@,
                        "treehouse-state.json"@,
                    ) && text@ == e@,
                    Ok(list) => match slots_recovered(pool_dir@, list@, now) {
                        Ok(entries) => r matches Ok(s) && s@ == entries,
                        Err(e) => r matches Err(StateError::RecoverScan(path, text)) && path@
                            == join_spec(pool_dir@, "treehouse-state.json"@) && text@ == e,
                    },
                },
            },
    {
        let path = State::state_file_path(pool_dir);
        match file {
            StateFile::Missing => Ok(State::default()),
            StateFile::Unreadable(e) => Err(StateError::Read(path, e)),
            StateFile::Parsed(s) => Ok(s),
            StateFile::Corrupt(_) => recover_corrupt_state(pool_dir, &path, slots, now),
        }
    }
}

// ---------- the state file ----------

/// An entry as the state file holds it: keys with their zero value are left
/// out, instants are text.
#[derive(Clone, Debug, PartialEq, Eq)]
pub struct WireEntry {
    pub name: String,
    pub path: String,
    pub created_at: String,
    pub destroying: Option<bool>,
    pub owner_pid: Option<i32>,
    pub owner_started_at: Option<i64>,
    pub leased: Option<bool>,
    pub lease_id: Option<String>,
    pub lease_holder: Option<String>,
    pub leased_at: Option<String>,
    pub expires_at: Option<String>,
}

/// What a [`WireEntry`] says.
#[verifier::ext_equal]
pub struct WireView {
    pub name: Seq<char>,
    pub path: Seq<char>,
    pub created_at: Seq<char>,
    pub destroying: Option<bool>,
    pub owner_pid: Option<i32>,
    pub owner_started_at: Option<i64>,
    pub leased: Option<bool>,
    pub lease_id: Option<Seq<char>>,
    pub lease_holder: Option<Seq<char>>,
    pub leased_at: Option<Seq<char>>,
    pub expires_at: Option<Seq<char>>,
}

impl View for WireEntry {
    type V = WireView;

    open spec fn view(&self) -> WireView {
        WireView {
            name: self.name@,
            path: self.path@,
            created_at: self.created_at@,
            destroying: self.destroying,
            owner_pid: self.owner_pid,
            owner_started_at: self.owner_started_at,
            leased: self.leased,
            lease_id: opt_view(self.lease_id),
            lease_holder: opt_view(self.lease_holder),
            leased_at: opt_view(self.leased_at),
            expires_at: opt_view(self.expires_at),
        }
    }
}

/// A text, left out where it is empty.
pub open spec fn nonempty(s: Seq<char>) -> Option<Seq<char>> {
    if s.len() == 0 {
        None
    } else {
        Some(s)
    }
}

/// The text of an instant, left out where it is the zero sentinel.
pub open spec fn nonzero_text(t: Timestamp) -> Option<Seq<char>> {
    if t == zero_time() {
        None
    } else {
        Some(nano_text(t))
    }
}

/// The entry as the state file holds it.
pub open spec fn wire_of(e: EntryView) -> WireView {
    WireView {
        name: e.name,
        path: e.path,
        created_at: nano_text(e.created_at),
        destroying: if e.destroying {
            Some(true)
        } else {
            None
        },
        owner_pid: if e.owner_pid == 0 {
            None
        } else {
            Some(e.owner_pid)
        },
        owner_started_at: if e.owner_started_at == 0 {
            None
        } else {
            Some(e.owner_started_at)
        },
        leased: if e.leased {
            Some(true)
        } else {
            None
        },
        lease_id: nonempty(e.lease_id),
        lease_holder: nonempty(e.lease_holder),
        leased_at: nonzero_text(e.leased_at),
        expires_at: nonzero_text(e.expires_at),
    }
}

/// The instant of an optional text: the zero sentinel where it is absent.
pub open spec fn instant_or_zero(s: Option<Seq<char>>) -> Option<Timestamp> {
    match s {
        None => Some(zero_time()),
        Some(text) => nano_instant(text),
    }
}

/// A text, empty where it is absent.
pub open spec fn text_or_empty(s: Option<Seq<char>>) -> Seq<char> {
    match s {
        None => seq![],
        Some(text) => text,
    }
}

/// The entry that the state file holds: absent keys stand for zero values.
/// None where an instant does not parse.
pub open spec fn entry_of(w: WireView) -> Option<EntryView> {
    match (nano_instant(w.created_at), instant_or_zero(w.leased_at), instant_or_zero(
        w.expires_at,
    )) {
        (Some(created_at), Some(leased_at), Some(expires_at)) => Some(
            EntryView {
                name: w.name,
                path: w.path,
                created_at,
                destroying: w.destroying == Some(true),
                owner_pid: match w.owner_pid {
                    Some(pid) => pid,
                    None => 0,
                },
                owner_started_at: match w.owner_started_at {
                    Some(at) => at,
                    None => 0,
                },
                leased: w.leased == Some(true),
                lease_id: text_or_empty(w.lease_id),
                lease_holder: text_or_empty(w.lease_holder),
                leased_at,
                expires_at,
            },
        ),
        _ => None,
    }
}

/// The entry with the first instant of the year 1 taken as the zero sentinel.
pub open spec fn normal_entry(e: EntryView) -> EntryView {
    EntryView {
        created_at: normal_instant(e.created_at),
        leased_at: normal_instant(e.leased_at),
        expires_at: normal_instant(e.expires_at),
        ..e
    }
}

fn is_false(v: bool) -> (r: bool)
    ensures
        r == !v,
{
    !v
}

fn is_zero_i32(v: i32) -> (r: bool)
    ensures
        r == (v == 0),
{
    v == 0
}

fn is_zero_i64(v: i64) -> (r: bool)
    ensures
        r == (v == 0),
{
    v == 0
}

fn nonempty_text(s: &String) -> (r: Option<String>)
    ensures
        opt_view(r) == nonempty(s@),
{
    if s.as_str().is_empty() {
        None
    } else {
        Some(s.clone())
    }
}

fn nonzero_instant(t: Timestamp) -> (r: Option<String>)
    requires
        t.wf(),
    ensures
        opt_view(r) == nonzero_text(t),
        t.in_four_digit_years() ==> instant_or_zero(opt_view(r)) == Some(normal_instant(t)),
{
    if t.is_zero() {
        None
    } else {
        Some(serialize(t))
    }
}

fn read_instant(s: &Option<String>) -> (r: Option<Timestamp>)
    ensures
        r == instant_or_zero(opt_view(*s)),
        r matches Some(t) ==> t.wf(),
{
    match s {
        None => Some(Timestamp::zero()),
        Some(text) => deserialize(text),
    }
}

fn read_text(s: &Option<String>) -> (r: String)
    ensures
        r@ == text_or_empty(opt_view(*s)),
{
    match s {
        None => String::new(),
        Some(text) => text.clone(),
    }
}

impl WireEntry {
    /// The entry as the state file holds it. Reading it back gives the entry,
    /// as far as its instants lie in years of four digits.
    pub fn from_entry(e: &WorktreeEntry) -> (r: WireEntry)
        requires
            e@.wf(),
        ensures
            r@ == wire_of(e@),
            e.created_at.in_four_digit_years() && e.leased_at.in_four_digit_years()
                && e.expires_at.in_four_digit_years() ==> entry_of(r@) == Some(normal_entry(e@)),
    {
        let r = WireEntry {
            name: e.name.clone(),
            path: e.path.clone(),
            created_at: serialize(e.created_at),
            destroying: if is_false(e.destroying) {
                None
            } else {
                Some(true)
            },
            owner_pid: if is_zero_i32(e.owner_pid) {
                None
            } else {
                Some(e.owner_pid)
            },
            owner_started_at: if is_zero_i64(e.owner_started_at) {
                None
            } else {
                Some(e.owner_started_at)
            },
            leased: if is_false(e.leased) {
                None
            } else {
                Some(true)
            },
            lease_id: nonempty_text(&e.lease_id),
            lease_holder: nonempty_text(&e.lease_holder),
            leased_at: nonzero_instant(e.leased_at),
            expires_at: nonzero_instant(e.expires_at),
        };
        assert(text_or_empty(nonempty(e.lease_id@)) =~= e.lease_id@);
        assert(text_or_empty(nonempty(e.lease_holder@)) =~= e.lease_holder@);
        r
    }

    /// The entry that the state file holds.
    pub fn to_entry(&self) -> (r: Option<WorktreeEntry>)
        ensures
            match entry_of(self@) {
                Some(e) => r matches Some(wt) && wt@ == e && e.wf(),
                None => r is None,
            },
    {
        let created_at = match deserialize(&self.created_at) {
            Some(t) => t,
            None => return None,
        };
        let leased_at = match read_instant(&self.leased_at) {
            Some(t) => t,
            None => return None,
        };
        let expires_at = match read_instant(&self.expires_at) {
            Some(t) => t,
            None => return None,
        };
        Some(
            WorktreeEntry {
                name: self.name.clone(),
                path: self.path.clone(),
                created_at,
                destroying: match self.destroying {
                    Some(b) => b,
                    None => false,
                },
                owner_pid: match self.owner_pid {
                    Some(pid) => pid,
                    None => 0,
                },
                owner_started_at: match self.owner_started_at {
                    Some(at) => at,
                    None => 0,
                },
                leased: match self.leased {
                    Some(b) => b,
                    None => false,
                },
                lease_id: read_text(&self.lease_id),
                lease_holder: read_text(&self.lease_holder),
                leased_at,
                expires_at,
            },
        )
    }
}

// ---------- laws ----------

/// A lease is either valid or stale, never both; what is not leased is
/// neither.
pub proof fn law_lease_is_valid_or_stale(e: EntryView, now: Timestamp)
    ensures
        e.leased <==> (e.valid(now) || e.stale(now)),
        !(e.valid(now) && e.stale(now)),
{
}

/// A permanent lease is valid at every instant.
pub proof fn law_permanent_lease_never_stale(e: EntryView, now: Timestamp)
    requires
        e.leased,
        e.expires_at == zero_time(),
    ensures
        e.valid(now),
        !e.stale(now),
{
}

/// A lease that is stale stays stale.
pub proof fn law_stale_stays_stale(e: EntryView, now: Timestamp, later: Timestamp)
    requires
        e.stale(now),
        later.at_or_after(now),
    ensures
        e.stale(later),
{
}

/// Healing never touches a lease, nor the name, the path or the creation time.
pub proof fn law_heal_keeps_lease(e: EntryView, rs: Seq<ProcessRecord>)
    ensures
        healed_entry(e, rs).same_lease(e),
        healed_entry(e, rs).name == e.name,
        healed_entry(e, rs).path == e.path,
        healed_entry(e, rs).created_at == e.created_at,
{
}

/// A live owner keeps its reservation; after healing, every reservation that
/// is left is held by a live owner.
pub proof fn law_heal_keeps_live_owner(e: EntryView, rs: Seq<ProcessRecord>)
    ensures
        owned(e, rs) ==> healed_entry(e, rs) == e,
        healed_entry(e, rs).owner_pid != 0 ==> owned(healed_entry(e, rs), rs),
{
}

/// `e` is an entry of `s` whose path exists, healed.
pub open spec fn heals_from(
    s: Seq<EntryView>,
    existing: Seq<Seq<char>>,
    rs: Seq<ProcessRecord>,
    e: EntryView,
) -> bool {
    exists|i: int|
        0 <= i < s.len() && existing.contains(s[i].path) && #[trigger] healed_entry(s[i], rs) == e
}

/// Healing keeps exactly the entries whose path exists: each of them is still
/// there, healed, and nothing else is.
pub proof fn law_heal_keeps_existing(
    s: Seq<EntryView>,
    existing: Seq<Seq<char>>,
    rs: Seq<ProcessRecord>,
)
    ensures
        forall|i: int|
            0 <= i < s.len() && existing.contains(s[i].path) ==> healed(s, existing, rs).contains(
                healed_entry(#[trigger] s[i], rs),
            ),
        forall|j: int|
            0 <= j < healed(s, existing, rs).len() ==> heals_from(
                s,
                existing,
                rs,
                #[trigger] healed(s, existing, rs)[j],
            ),
    decreases s.len(),
{
    if s.len() > 0 {
        let front = s.drop_last();
        law_heal_keeps_existing(front, existing, rs);
        let rest = healed(front, existing, rs);
        let all = healed(s, existing, rs);
        assert forall|i: int| 0 <= i < s.len() && existing.contains(s[i].path) implies all.contains(
            healed_entry(#[trigger] s[i], rs),
        ) by {
            if i < s.len() - 1 {
                assert(front[i] == s[i]);
                let k = choose|k: int| 0 <= k < rest.len() && rest[k] == healed_entry(s[i], rs);
                assert(all[k] == rest[k]);
            } else {
                assert(all[rest.len() as int] == healed_entry(s[i], rs));
            }
        }
        assert forall|j: int| 0 <= j < all.len() implies heals_from(
            s,
            existing,
            rs,
            #[trigger] all[j],
        ) by {
            if j < rest.len() {
                assert(all[j] == rest[j]);
                let i = choose|i: int|
                    0 <= i < front.len() && existing.contains(front[i].path)
                        && #[trigger] healed_entry(front[i], rs) == rest[j];
                assert(front[i] == s[i]);
                assert(healed_entry(s[i], rs) == all[j]);
            } else {
                assert(healed_entry(s[s.len() - 1], rs) == all[j]);
            }
        }
    }
}

/// Healing twice is healing once.
pub proof fn law_heal_is_idempotent(
    s: Seq<EntryView>,
    existing: Seq<Seq<char>>,
    rs: Seq<ProcessRecord>,
)
    ensures
        healed(healed(s, existing, rs), existing, rs) == healed(s, existing, rs),
    decreases s.len(),
{
    if s.len() > 0 {
        law_heal_is_idempotent(s.drop_last(), existing, rs);
        let rest = healed(s.drop_last(), existing, rs);
        if existing.contains(s.last().path) {
            let all = rest.push(healed_entry(s.last(), rs));
            assert(all.drop_last() =~= rest);
            assert(healed(all, existing, rs) =~= all);
        }
    }
}

/// Every recovered entry is a permanent lease without an identity or an owner:
/// it is valid at every instant, so nothing reclaims it.
pub proof fn law_recovered_is_permanent_lease(
    pool_dir: Seq<char>,
    slots: Seq<Result<Slot, String>>,
    now: Timestamp,
    at: Timestamp,
)
    ensures
        slots_recovered(pool_dir, slots, now) matches Ok(entries) ==> forall|i: int|
            0 <= i < entries.len() ==> {
                &&& (#[trigger] entries[i]).valid(at)
                &&& entries[i].expires_at == zero_time()
                &&& entries[i].owner_pid == 0
                &&& entries[i].lease_holder == RECOVERED_LEASE_HOLDER@
            },
    decreases slots.len(),
{
    if slots.len() > 0 {
        law_recovered_is_permanent_lease(pool_dir, slots.drop_last(), now, at);
        if let Ok(s) = slots.last() {
            if let Ok(children) = s.children {
                lemma_children_permanent(pool_dir, s.name@, children@, now, at);
            }
        }
    }
}

proof fn lemma_children_permanent(
    pool_dir: Seq<char>,
    slot: Seq<char>,
    children: Seq<Result<SlotChild, String>>,
    now: Timestamp,
    at: Timestamp,
)
    ensures
        children_recovered(pool_dir, slot, children, now) matches Ok(entries) ==> forall|i: int|
            0 <= i < entries.len() ==> {
                &&& (#[trigger] entries[i]).valid(at)
                &&& entries[i].expires_at == zero_time()
                &&& entries[i].owner_pid == 0
                &&& entries[i].lease_holder == RECOVERED_LEASE_HOLDER@
            },
    decreases children.len(),
{
    if children.len() > 0 {
        lemma_children_permanent(pool_dir, slot, children.drop_last(), now, at);
    }
}

/// A lease is stale exactly if it has an end and the instant is not before it;
/// it is valid exactly if it has no end or the instant is before it. The zero
/// sentinel stands for no end.
pub proof fn law_lease_ends_at_its_end(e: EntryView, now: Timestamp)
    ensures
        e.stale(now) <==> e.leased && !(e.expires_at.secs == 0 && e.expires_at.nanos == 0) && (
        now.secs > e.expires_at.secs || (now.secs == e.expires_at.secs && now.nanos
            >= e.expires_at.nanos)),
        e.valid(now) <==> e.leased && ((e.expires_at.secs == 0 && e.expires_at.nanos == 0)
            || now.secs < e.expires_at.secs || (now.secs == e.expires_at.secs && now.nanos
            < e.expires_at.nanos)),
{
}

/// Removing a lease leaves nothing of it and touches nothing else.
pub proof fn law_unleased_touches_only_the_lease(e: EntryView)
    ensures
        ({
            let u = e.unleased();
            &&& !u.leased
            &&& u.lease_id.len() == 0
            &&& u.lease_holder.len() == 0
            &&& u.leased_at == (Timestamp { secs: 0, nanos: 0 })
            &&& u.expires_at == (Timestamp { secs: 0, nanos: 0 })
            &&& u.name == e.name
            &&& u.path == e.path
            &&& u.created_at == e.created_at
            &&& u.destroying == e.destroying
            &&& u.owner_pid == e.owner_pid
            &&& u.owner_started_at == e.owner_started_at
        }),
{
}

/// A worktree is owned exactly if its owner is a process of the table, by its
/// first record, that started when the reservation says. A pid that was given
/// to a later process does not count.
pub proof fn law_owner_is_pid_and_start_time(e: EntryView, rs: Seq<ProcessRecord>)
    ensures
        owned(e, rs) <==> e.owner_pid != 0 && e.owner_started_at != 0 && exists|i: int|
            0 <= i < rs.len() && (#[trigger] rs[i]).pid == e.owner_pid && rs[i].started_at
                == e.owner_started_at && forall|j: int|
                0 <= j < i ==> (#[trigger] rs[j]).pid != e.owner_pid,
{
    crate::process::law_first_record_counts(rs, e.owner_pid);
    if started_spec(rs, e.owner_pid) is Some {
        let i = first_record(rs, e.owner_pid);
        assert(rs[i].pid == e.owner_pid);
        assert(started_spec(rs, e.owner_pid) == Some(rs[i].started_at));
    }
}

proof fn first_record(rs: Seq<ProcessRecord>, pid: i32) -> (i: int)
    requires
        exists|i: int| 0 <= i < rs.len() && (#[trigger] rs[i]).pid == pid,
    ensures
        0 <= i < rs.len(),
        rs[i].pid == pid,
        forall|j: int| 0 <= j < i ==> (#[trigger] rs[j]).pid != pid,
    decreases rs.len(),
{
    let k = choose|k: int| 0 <= k < rs.len() && (#[trigger] rs[k]).pid == pid;
    if exists|j: int| 0 <= j < k && (#[trigger] rs[j]).pid == pid {
        let j = choose|j: int| 0 <= j < k && (#[trigger] rs[j]).pid == pid;
        let front = rs.take(k);
        assert(front[j].pid == pid);
        let i = first_record(front, pid);
        assert(rs[i] == front[i]);
        assert forall|m: int| 0 <= m < i implies (#[trigger] rs[m]).pid != pid by {
            assert(front[m] == rs[m]);
        }
        i
    } else {
        k
    }
}

/// Healing takes a dead owner and the mark of its destroy away, and changes
/// nothing where there is no owner or it lives.
pub proof fn law_heal_clears_only_dead_owners(e: EntryView, rs: Seq<ProcessRecord>)
    ensures
        e.owner_pid == 0 || owned(e, rs) ==> healed_entry(e, rs) == e,
        e.owner_pid != 0 && !owned(e, rs) ==> {
            let h = healed_entry(e, rs);
            &&& h.owner_pid == 0
            &&& h.owner_started_at == 0
            &&& !h.destroying
        },
{
}

/// Healing a state heals each entry whose path exists, drops the others, and
/// keeps the order.
pub proof fn law_heal_is_exact(
    s: Seq<EntryView>,
    existing: Seq<Seq<char>>,
    rs: Seq<ProcessRecord>,
)
    ensures
        healed(s, existing, rs) == s.filter_map(
            |e: EntryView|
                if existing.contains(e.path) {
                    Some(healed_entry(e, rs))
                } else {
                    None
                },
        ),
    decreases s.len(),
{
    reveal(Seq::filter_map);
    if s.len() > 0 {
        law_heal_is_exact(s.drop_last(), existing, rs);
    }
}

/// Something of a slot could not be looked at.
pub open spec fn scan_failed(slot: Result<Slot, String>) -> bool {
    match slot {
        Err(_) => true,
        Ok(s) => s.is_dir is Err || (s.is_dir == Ok::<bool, String>(true) && match s.children {
            Err(_) => true,
            Ok(children) => exists|j: int| 0 <= j < children@.len() && look_failed(#[trigger] children@[j]),
        }),
    }
}

/// A directory entry of a slot could not be looked at.
pub open spec fn look_failed(child: Result<SlotChild, String>) -> bool {
    match child {
        Err(_) => true,
        Ok(c) => c.is_dir is Err || (c.is_dir == Ok::<bool, String>(true) && c.git is Failed),
    }
}

/// The directory entry is a worktree: a directory with `.git` in it.
pub open spec fn is_worktree(child: Result<SlotChild, String>) -> bool {
    child matches Ok(c) && c.is_dir == Ok::<bool, String>(true) && c.git is Present
}

/// A recovery goes through exactly if everything could be looked at.
pub proof fn law_recovery_fails_closed(
    pool_dir: Seq<char>,
    slots: Seq<Result<Slot, String>>,
    now: Timestamp,
)
    ensures
        slots_recovered(pool_dir, slots, now) is Err <==> exists|i: int|
            0 <= i < slots.len() && scan_failed(#[trigger] slots[i]),
    decreases slots.len(),
{
    if slots.len() > 0 {
        let front = slots.drop_last();
        law_recovery_fails_closed(pool_dir, front, now);
        if let Ok(s) = slots.last() {
            if let Ok(children) = s.children {
                lemma_children_fail_closed(pool_dir, s.name@, children@, now);
            }
        }
        assert(slot_recovered(pool_dir, slots.last(), now) is Err <==> scan_failed(slots.last()));
        if slots_recovered(pool_dir, front, now) is Err {
            let i = choose|i: int| 0 <= i < front.len() && scan_failed(#[trigger] front[i]);
            assert(scan_failed(slots[i]));
        } else if exists|i: int| 0 <= i < slots.len() && scan_failed(#[trigger] slots[i]) {
            let i = choose|i: int| 0 <= i < slots.len() && scan_failed(#[trigger] slots[i]);
            if i < front.len() {
                assert(scan_failed(front[i]));
            }
        } else {
            assert(!scan_failed(slots[slots.len() - 1]));
        }
    }
}

proof fn lemma_children_fail_closed(
    pool_dir: Seq<char>,
    slot: Seq<char>,
    children: Seq<Result<SlotChild, String>>,
    now: Timestamp,
)
    ensures
        children_recovered(pool_dir, slot, children, now) is Err <==> exists|j: int|
            0 <= j < children.len() && look_failed(#[trigger] children[j]),
    decreases children.len(),
{
    if children.len() > 0 {
        let front = children.drop_last();
        lemma_children_fail_closed(pool_dir, slot, front, now);
        assert(child_recovered(pool_dir, slot, children.last(), now) is Err <==> look_failed(
            children.last(),
        ));
        if children_recovered(pool_dir, slot, front, now) is Err {
            let j = choose|j: int| 0 <= j < front.len() && look_failed(#[trigger] front[j]);
            assert(look_failed(children[j]));
        } else if exists|j: int| 0 <= j < children.len() && look_failed(#[trigger] children[j]) {
            let j = choose|j: int| 0 <= j < children.len() && look_failed(#[trigger] children[j]);
            if j < front.len() {
                assert(look_failed(front[j]));
            }
        } else {
            assert(!look_failed(children[children.len() - 1]));
        }
    }
}

/// The entry stands for the worktree at place `j` of the slot at place `i`.
pub open spec fn recovers(
    e: EntryView,
    pool_dir: Seq<char>,
    slots: Seq<Result<Slot, String>>,
    i: int,
    j: int,
) -> bool {
    &&& 0 <= i < slots.len()
    &&& slots[i] matches Ok(s)
    &&& s.is_dir == Ok::<bool, String>(true)
    &&& s.children matches Ok(children)
    &&& 0 <= j < children@.len()
    &&& is_worktree(children@[j])
    &&& e.name == s.name@
    &&& e.path == join_spec(join_spec(pool_dir, s.name@), children@[j]->Ok_0.name@)
    &&& e.leased
    &&& e.lease_id.len() == 0
    &&& e.expires_at == zero_time()
    &&& !e.destroying
    &&& e.owner_pid == 0
    &&& e.owner_started_at == 0
}

/// A recovery takes up every worktree that is found, each under the name of
/// its slot, at its own path and as leased.
pub proof fn law_recovery_finds_every_worktree(
    pool_dir: Seq<char>,
    slots: Seq<Result<Slot, String>>,
    now: Timestamp,
    i: int,
    j: int,
)
    requires
        0 <= i < slots.len(),
        slots_recovered(pool_dir, slots, now) is Ok,
        slots[i] matches Ok(s) && s.is_dir == Ok::<bool, String>(true) && (s.children matches Ok(
            children,
        ) && 0 <= j < children@.len() && is_worktree(children@[j])),
    ensures
        exists|k: int|
            0 <= k < slots_recovered(pool_dir, slots, now)->Ok_0.len() && recovers(
                #[trigger] slots_recovered(pool_dir, slots, now)->Ok_0[k],
                pool_dir,
                slots,
                i,
                j,
            ),
    decreases slots.len(),
{
    let front = slots.drop_last();
    let all = slots_recovered(pool_dir, slots, now)->Ok_0;
    let rest = slots_recovered(pool_dir, front, now)->Ok_0;
    if i < front.len() {
        assert(front[i] == slots[i]);
        law_recovery_finds_every_worktree(pool_dir, front, now, i, j);
        let k = choose|k: int|
            0 <= k < rest.len() && recovers(#[trigger] rest[k], pool_dir, front, i, j);
        assert(all[k] == rest[k]);
        assert(recovers(all[k], pool_dir, slots, i, j));
    } else {
        let s = slots[i]->Ok_0;
        let children = s.children->Ok_0@;
        let more = children_recovered(pool_dir, s.name@, children, now)->Ok_0;
        let e = recovered_entry(pool_dir, s.name@, children[j]->Ok_0.name@, now);
        lemma_children_found(pool_dir, s.name@, children, now, j);
        let k = choose|k: int| 0 <= k < more.len() && more[k] == e;
        assert(all[rest.len() + k] == e);
        assert(recovers(all[rest.len() + k], pool_dir, slots, i, j));
    }
}

proof fn lemma_children_found(
    pool_dir: Seq<char>,
    slot: Seq<char>,
    children: Seq<Result<SlotChild, String>>,
    now: Timestamp,
    j: int,
)
    requires
        0 <= j < children.len(),
        is_worktree(children[j]),
        children_recovered(pool_dir, slot, children, now) is Ok,
    ensures
        children_recovered(pool_dir, slot, children, now)->Ok_0.contains(
            recovered_entry(pool_dir, slot, children[j]->Ok_0.name@, now),
        ),
    decreases children.len(),
{
    let front = children.drop_last();
    let all = children_recovered(pool_dir, slot, children, now)->Ok_0;
    let rest = children_recovered(pool_dir, slot, front, now)->Ok_0;
    let e = recovered_entry(pool_dir, slot, children[j]->Ok_0.name@, now);
    if j < front.len() {
        assert(front[j] == children[j]);
        lemma_children_found(pool_dir, slot, front, now, j);
        let k = choose|k: int| 0 <= k < rest.len() && rest[k] == e;
        assert(all[k] == e);
    } else {
        assert(all[rest.len() as int] == e);
    }
}

/// A recovery takes up nothing but worktrees that are found.
pub proof fn law_recovery_invents_nothing(
    pool_dir: Seq<char>,
    slots: Seq<Result<Slot, String>>,
    now: Timestamp,
    k: int,
)
    requires
        slots_recovered(pool_dir, slots, now) matches Ok(entries) && 0 <= k < entries.len(),
    ensures
        exists|i: int, j: int| #[trigger]
            recovers(slots_recovered(pool_dir, slots, now)->Ok_0[k], pool_dir, slots, i, j),
    decreases slots.len(),
{
    let front = slots.drop_last();
    let all = slots_recovered(pool_dir, slots, now)->Ok_0;
    let rest = slots_recovered(pool_dir, front, now)->Ok_0;
    if slots.len() > 0 {
        if k < rest.len() {
            law_recovery_invents_nothing(pool_dir, front, now, k);
            let (i, j) = choose|i: int, j: int| #[trigger]
                recovers(rest[k], pool_dir, front, i, j);
            assert(front[i] == slots[i]);
            assert(recovers(all[k], pool_dir, slots, i, j));
        } else {
            let s = slots.last()->Ok_0;
            let children = s.children->Ok_0@;
            let more = children_recovered(pool_dir, s.name@, children, now)->Ok_0;
            assert(all[k] == more[k - rest.len()]);
            let j = child_behind(pool_dir, s.name@, children, now, k - rest.len());
            assert(recovers(all[k], pool_dir, slots, slots.len() - 1, j));
        }
    }
}

proof fn child_behind(
    pool_dir: Seq<char>,
    slot: Seq<char>,
    children: Seq<Result<SlotChild, String>>,
    now: Timestamp,
    k: int,
) -> (j: int)
    requires
        children_recovered(pool_dir, slot, children, now) matches Ok(entries) && 0 <= k
            < entries.len(),
    ensures
        0 <= j < children.len(),
        is_worktree(children[j]),
        children_recovered(pool_dir, slot, children, now)->Ok_0[k] == recovered_entry(
            pool_dir,
            slot,
            children[j]->Ok_0.name@,
            now,
        ),
    decreases children.len(),
{
    let front = children.drop_last();
    let rest = children_recovered(pool_dir, slot, front, now)->Ok_0;
    if k < rest.len() {
        let j = child_behind(pool_dir, slot, front, now, k);
        assert(front[j] == children[j]);
        j
    } else {
        children.len() - 1
    }
}

/// An entry of the state file is read as it stands there: a mark counts where it
/// is true, a number or a text that is left out is zero or empty, and an instant
/// that is left out is the zero sentinel.
pub proof fn law_entry_is_read_as_it_stands(w: WireView)
    ensures
        entry_of(w) matches Some(e) ==> {
            &&& e.name == w.name
            &&& e.path == w.path
            &&& Some(e.created_at) == nano_instant(w.created_at)
            &&& e.destroying <==> w.destroying == Some(true)
            &&& e.leased <==> w.leased == Some(true)
            &&& w.owner_pid matches Some(n) ==> e.owner_pid == n
            &&& w.owner_pid is None ==> e.owner_pid == 0
            &&& w.owner_started_at matches Some(n) ==> e.owner_started_at == n
            &&& w.owner_started_at is None ==> e.owner_started_at == 0
            &&& w.lease_id matches Some(s) ==> e.lease_id == s
            &&& w.lease_id is None ==> e.lease_id.len() == 0
            &&& w.lease_holder matches Some(s) ==> e.lease_holder == s
            &&& w.lease_holder is None ==> e.lease_holder.len() == 0
            &&& w.leased_at matches Some(s) ==> Some(e.leased_at) == nano_instant(s)
            &&& w.leased_at is None ==> e.leased_at == zero_time()
            &&& w.expires_at matches Some(s) ==> Some(e.expires_at) == nano_instant(s)
            &&& w.expires_at is None ==> e.expires_at == zero_time()
        },
        entry_of(w) is None <==> nano_instant(w.created_at) is None || (w.leased_at matches Some(s)
            && nano_instant(s) is None) || (w.expires_at matches Some(s) && nano_instant(s) is None),
{
}

/// What an entry does not have is left out of the state file, and nothing else
/// is.
pub proof fn law_only_what_is_there_is_written(e: EntryView)
    ensures
        ({
            let w = wire_of(e);
            &&& w.name == e.name
            &&& w.path == e.path
            &&& w.destroying == if e.destroying {
                Some(true)
            } else {
                None::<bool>
            }
            &&& w.leased == if e.leased {
                Some(true)
            } else {
                None::<bool>
            }
            &&& w.owner_pid is None <==> e.owner_pid == 0
            &&& w.owner_pid matches Some(n) ==> n == e.owner_pid
            &&& w.owner_started_at is None <==> e.owner_started_at == 0
            &&& w.owner_started_at matches Some(n) ==> n == e.owner_started_at
            &&& w.lease_id is None <==> e.lease_id.len() == 0
            &&& w.lease_id matches Some(s) ==> s == e.lease_id
            &&& w.lease_holder is None <==> e.lease_holder.len() == 0
            &&& w.lease_holder matches Some(s) ==> s == e.lease_holder
            &&& w.leased_at is None <==> e.leased_at == zero_time()
            &&& w.expires_at is None <==> e.expires_at == zero_time()
            &&& w.created_at == nano_text(e.created_at)
            &&& w.leased_at matches Some(s) ==> s == nano_text(e.leased_at)
            &&& w.expires_at matches Some(s) ==> s == nano_text(e.expires_at)
        }),
{
}

/// A recovery takes up each worktree of a slot once, in order.
pub proof fn law_recovery_takes_each_once(
    pool_dir: Seq<char>,
    slot: Seq<char>,
    children: Seq<Result<SlotChild, String>>,
    now: Timestamp,
)
    ensures
        children_recovered(pool_dir, slot, children, now) matches Ok(entries) ==> entries
            == children.filter_map(
            |c: Result<SlotChild, String>|
                if is_worktree(c) {
                    Some(recovered_entry(pool_dir, slot, c->Ok_0.name@, now))
                } else {
                    None
                },
        ),
    decreases children.len(),
{
    reveal(Seq::filter_map);
    if children.len() > 0 {
        law_recovery_takes_each_once(pool_dir, slot, children.drop_last(), now);
    }
}

/// A recovery goes through the slots in order: what one more slot adds comes
/// behind, and it adds the worktrees in it.
pub proof fn law_recovery_goes_slot_by_slot(
    pool_dir: Seq<char>,
    slots: Seq<Result<Slot, String>>,
    s: Slot,
    now: Timestamp,
)
    requires
        slots_recovered(pool_dir, slots, now) is Ok,
    ensures
        ({
            let all = slots_recovered(pool_dir, slots.push(Ok(s)), now);
            let rest = slots_recovered(pool_dir, slots, now)->Ok_0;
            &&& slots_recovered(pool_dir, seq![], now) == Ok::<Seq<EntryView>, Seq<char>>(seq![])
            &&& s.is_dir == Ok::<bool, String>(false) ==> all == Ok::<Seq<EntryView>, Seq<char>>(
                rest,
            )
            &&& s.is_dir == Ok::<bool, String>(true) ==> (s.children matches Ok(children) ==> (
            children_recovered(pool_dir, s.name@, children@, now) matches Ok(more) ==> all == Ok::<
                Seq<EntryView>,
                Seq<char>,
            >(rest + more)))
        }),
{
    assert(slots.push(Ok(s)).drop_last() =~= slots);
    let rest = slots_recovered(pool_dir, slots, now)->Ok_0;
    assert(rest + seq![] =~= rest);
}

/// A new entry belongs to nobody: it is not being destroyed, has no owner and no
/// lease.
pub proof fn law_new_entry_belongs_to_nobody(
    name: Seq<char>,
    path: Seq<char>,
    now: Timestamp,
    rs: Seq<ProcessRecord>,
)
    ensures
        ({
            let e = EntryView { name, path, created_at: now, ..blank_entry() };
            &&& !e.destroying
            &&& !e.leased
            &&& !owned(e, rs)
            &&& e.owner_pid == 0
            &&& e.owner_started_at == 0
            &&& e.lease_id.len() == 0
            &&& e.lease_holder.len() == 0
            &&& e.leased_at == (Timestamp { secs: 0, nanos: 0 })
            &&& e.expires_at == (Timestamp { secs: 0, nanos: 0 })
            &&& healed_entry(e, rs) == e
        }),
{
}

/// The errors of the state in words, and the warning that goes with a recovery.
pub proof fn law_state_errors_in_words(path: String, e: String)
    ensures
        StateError::Read(path, e).message_spec() == "failed to read state file "@ + path@ + ": "@
            + e@,
        StateError::RecoverScan(path, e).message_spec() == "state file "@ + path@
            + " is corrupt or truncated and recovery could not scan: "@ + e@,
        recovery_warning_spec(path@, e@) == "treehouse: WARNING: state file "@ + path@
            + " is corrupt or truncated ("@ + e@
            + "); recovering from worktrees found on disk. They are marked leased until verified - see `treehouse status`, then `treehouse return` or `treehouse destroy --include-leased`."@,
{
}

/// An entry that is recovered is made and leased at the instant of the recovery,
/// by the holder that says so.
pub proof fn law_recovered_entry_says_so(
    pool_dir: Seq<char>,
    slot: Seq<char>,
    child: Seq<char>,
    now: Timestamp,
)
    ensures
        ({
            let e = recovered_entry(pool_dir, slot, child, now);
            &&& e.created_at == now
            &&& e.leased_at == now
            &&& e.lease_holder
                == "recovered: state file was corrupt or truncated; verify before reuse"@
        }),
{
}

} // verus!
