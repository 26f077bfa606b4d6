//! Reservation tokens: what a command remembers of the reservation that it
//! wrote into the state, so that it can tell later whether it still holds it.
//!
//! Live process, owner reservation and lease are three independent facts. None
//! of them is inferred from another.

use vstd::prelude::*;
use vstd::string::*;

use crate::lease::Lease;
use crate::process::{started_spec, ProcessTable};
use crate::state::{EntryView, WorktreeEntry};
use crate::text::{decimal_int, decimal_int_text, same_text};

verus! {

/// A reservation of one worktree.
#[derive(Clone, Debug, PartialEq, Eq)]
pub struct Reservation {
    /// Path of the worktree.
    pub worktree: String,
    pub kind: ReservationKind,
}

/// The kind of a reservation.
#[derive(Clone, Debug, PartialEq, Eq)]
pub enum ReservationKind {
    /// Held by a process.
    Owner { owner_pid: i32, owner_started_at: i64 },
    /// Held by a process that is about to destroy the worktree, with the
    /// owner that the worktree had before.
    Destroy {
        owner_pid: i32,
        owner_started_at: i64,
        original_owner_pid: i32,
        original_owner_started_at: i64,
    },
    /// A durable lease.
    Lease(Lease),
}

/// The entry still carries the reservation.
pub open spec fn still_held(r: Reservation, e: EntryView) -> bool {
    e.path == r.worktree@ && match r.kind {
        ReservationKind::Destroy { owner_pid, owner_started_at, .. } => e.destroying && e.owner_pid
            == owner_pid && e.owner_started_at == owner_started_at,
        ReservationKind::Owner { owner_pid, owner_started_at } => !e.destroying && e.owner_pid
            == owner_pid && e.owner_started_at == owner_started_at,
        ReservationKind::Lease(lease) => e.leased && e.lease_id == lease.id@ && e.lease_holder
            == lease.holder@,
    }
}

/// The entry as it was before a destroy reserved it. Other kinds of
/// reservation have nothing to restore.
pub open spec fn restored(r: Reservation, e: EntryView) -> EntryView {
    match r.kind {
        ReservationKind::Destroy { original_owner_pid, original_owner_started_at, .. } => EntryView {
            destroying: false,
            owner_pid: original_owner_pid,
            owner_started_at: original_owner_started_at,
            ..e
        },
        _ => e,
    }
}

/// The entry as a destroy by the process `pid` leaves it.
pub open spec fn destroy_reserved(e: EntryView, pid: i32, started_at: i64) -> EntryView {
    EntryView { destroying: true, owner_pid: pid, owner_started_at: started_at, ..e }
}

/// The message for a process whose start time is not known.
pub open spec fn undeterminable(pid: i32) -> Seq<char> {
    "process "@ + decimal_int(pid as int) + " start time unavailable"@
}

fn undeterminable_text(pid: i32) -> (r: String)
    ensures
        r@ == undeterminable(pid),
{
    let mut s = "process ".to_owned();
    s.append(&decimal_int_text(pid as i64));
    s.append(" start time unavailable");
    s
}

impl Reservation {
    /// Whether an entry that was read again still carries the reservation.
    pub fn matches(&self, entry: &WorktreeEntry) -> (r: bool)
        ensures
            r == still_held(*self, entry@),
    {
        if !same_text(&entry.path, &self.worktree) {
            return false;
        }
        match &self.kind {
            ReservationKind::Destroy { owner_pid, owner_started_at, .. } => {
                entry.destroying && entry.owner_pid == *owner_pid && entry.owner_started_at
                    == *owner_started_at
            },
            ReservationKind::Owner { owner_pid, owner_started_at } => {
                !entry.destroying && entry.owner_pid == *owner_pid && entry.owner_started_at
                    == *owner_started_at
            },
            ReservationKind::Lease(lease) => {
                entry.leased && same_text(&entry.lease_id, &lease.id) && same_text(
                    &entry.lease_holder,
                    &lease.holder,
                )
            },
        }
    }

    /// Puts the owner back that the entry had before the destroy reservation.
    pub fn restore_original(&self, entry: &mut WorktreeEntry)
        ensures
            final(entry)@ == restored(*self, old(entry)@),
    {
        if let ReservationKind::Destroy {
            original_owner_pid,
            original_owner_started_at,
            ..
        } = &self.kind {
            entry.destroying = false;
            entry.owner_pid = *original_owner_pid;
            entry.owner_started_at = *original_owner_started_at;
        }
    }

    /// Stamps the process `pid` as the owner of the entry. An error where the
    /// start time of the process is not known.
    pub fn reserve_owner(entry: &mut WorktreeEntry, pid: i32, process: &ProcessTable) -> (r: Result<
        (),
        ReservationError,
    >)
        ensures
            match started_spec(process.records@, pid) {
                Some(started_at) => r is Ok && final(entry)@ == (EntryView {
                    owner_pid: pid,
                    owner_started_at: started_at,
                    ..old(entry)@
                }),
                None => r matches Err(ReservationError::Undeterminable(what)) && what@
                    == undeterminable(pid) && final(entry)@ == old(entry)@,
            },
    {
        match process.started_at(pid) {
            Some(started_at) => {
                entry.owner_pid = pid;
                entry.owner_started_at = started_at;
                Ok(())
            },
            None => Err(ReservationError::Undeterminable(undeterminable_text(pid))),
        }
    }

    /// Reserves the entry for a destroy by the process `pid`, and remembers
    /// the owner that it had. On an error the entry is only marked as being
    /// destroyed, and must not be written back.
    pub fn reserve_destroy(
        worktree: &str,
        entry: &mut WorktreeEntry,
        pid: i32,
        process: &ProcessTable,
    ) -> (r: Result<Reservation, ReservationError>)
        ensures
            match started_spec(process.records@, pid) {
                Some(started_at) => {
                    &&& r matches Ok(token)
                    &&& token.worktree@ == worktree@
                    &&& token.kind == ReservationKind::Destroy {
                        owner_pid: pid,
                        owner_started_at: started_at,
                        original_owner_pid: old(entry).owner_pid,
                        original_owner_started_at: old(entry).owner_started_at,
                    }
                    &&& final(entry)@ == destroy_reserved(old(entry)@, pid, started_at)
                },
                None => {
                    &&& r matches Err(ReservationError::Undeterminable(what))
                    &&& what@ == undeterminable(pid)
                    &&& final(entry)@ == (EntryView { destroying: true, ..old(entry)@ })
                },
            },
    {
        let original_owner_pid: i32 = entry.owner_pid;
        let original_owner_started_at: i64 = entry.owner_started_at;
        entry.destroying = true;
        let started_at: i64 = match process.started_at(pid) {
            Some(started_at) => started_at,
            None => return Err(ReservationError::Undeterminable(undeterminable_text(pid))),
        };
        entry.owner_pid = pid;
        entry.owner_started_at = started_at;
        Ok(
            Reservation {
                worktree: worktree.to_owned(),
                kind: ReservationKind::Destroy {
                    owner_pid: pid,
                    owner_started_at: started_at,
                    original_owner_pid,
                    original_owner_started_at,
                },
            },
        )
    }
}

/// Errors from reservation operations.
#[derive(Clone, Debug, PartialEq, Eq)]
pub enum ReservationError {
    Undeterminable(String),
}

impl ReservationError {
    /// The message of the error.
    pub open spec fn message_spec(self) -> Seq<char> {
        match self {
            ReservationError::Undeterminable(what) =>
                "failed to determine owner process identity: "@ + what@,
        }
    }

    /// The message of the error.
    pub fn message(&self) -> (r: String)
        ensures
            r@ == self.message_spec(),
    {
        match self {
            ReservationError::Undeterminable(what) => {
                let mut s = "failed to determine owner process identity: ".to_owned();
                s.append(what);
                s
            },
        }
    }
}

/// Whether the owner reservation is held by a live process.
pub fn owner_alive(entry: &WorktreeEntry, process: &ProcessTable) -> (r: bool)
    ensures
        r == crate::state::owned(entry@, process.records@),
{
    crate::state::owner_alive(entry, process)
}

/// Removes a dead owner reservation. The lease stays as it is.
pub fn heal_owner(entry: &mut WorktreeEntry, process: &ProcessTable)
    ensures
        final(entry)@ == crate::state::healed_entry(old(entry)@, process.records@),
{
    crate::state::heal_owner(entry, process);
}

// ---------- laws ----------

/// The token of a destroy.
pub open spec fn is_destroy_token(
    r: Reservation,
    e: EntryView,
    pid: i32,
    started_at: i64,
) -> bool {
    r.worktree@ == e.path && r.kind == ReservationKind::Destroy {
        owner_pid: pid,
        owner_started_at: started_at,
        original_owner_pid: e.owner_pid,
        original_owner_started_at: e.owner_started_at,
    }
}

/// A destroy holds its reservation right after it has made it.
pub proof fn law_destroy_token_holds(r: Reservation, e: EntryView, pid: i32, started_at: i64)
    requires
        is_destroy_token(r, e, pid, started_at),
    ensures
        still_held(r, destroy_reserved(e, pid, started_at)),
{
}

/// Restoring undoes a destroy reservation: the entry is as it was, its lease
/// included, provided it was not marked as being destroyed before.
pub proof fn law_restore_undoes_reserve(r: Reservation, e: EntryView, pid: i32, started_at: i64)
    requires
        is_destroy_token(r, e, pid, started_at),
        !e.destroying,
    ensures
        restored(r, destroy_reserved(e, pid, started_at)) == e,
{
}

/// A worktree that somebody else owns by now is not the one that a destroy
/// reserved, nor is one that is no longer marked as being destroyed.
pub proof fn law_reacquired_is_not_held(
    r: Reservation,
    e: EntryView,
    pid: i32,
    started_at: i64,
    now: EntryView,
)
    requires
        is_destroy_token(r, e, pid, started_at),
        !now.destroying || now.owner_pid != pid || now.owner_started_at != started_at,
    ensures
        !still_held(r, now),
{
}

/// Reserving and restoring never touch a lease.
pub proof fn law_reservation_keeps_lease(r: Reservation, e: EntryView, pid: i32, started_at: i64)
    ensures
        destroy_reserved(e, pid, started_at).same_lease(e),
        restored(r, e).same_lease(e),
{
}

/// A crash between the two phases of a destroy heals itself: once the process
/// that made the reservation is gone, healing takes the mark away.
pub proof fn law_abandoned_destroy_heals(
    e: EntryView,
    pid: i32,
    started_at: i64,
    rs: Seq<crate::process::ProcessRecord>,
)
    requires
        pid != 0,
        started_spec(rs, pid) != Some(started_at),
    ensures
        !crate::state::healed_entry(destroy_reserved(e, pid, started_at), rs).destroying,
        crate::state::healed_entry(destroy_reserved(e, pid, started_at), rs).owner_pid == 0,
{
}

/// A reservation still holds exactly if the entry has its path and carries
/// what the reservation put there: the mark and the owner of a destroy, the
/// owner alone, or the lease by its identity and holder.
pub proof fn law_held_exactly(r: Reservation, e: EntryView)
    ensures
        still_held(r, e) ==> e.path == r.worktree@,
        e.path == r.worktree@ ==> match r.kind {
            ReservationKind::Destroy { owner_pid, owner_started_at, .. } => still_held(r, e) <==> (
            e.destroying && e.owner_pid == owner_pid && e.owner_started_at == owner_started_at),
            ReservationKind::Owner { owner_pid, owner_started_at } => still_held(r, e) <==> (
            !e.destroying && e.owner_pid == owner_pid && e.owner_started_at == owner_started_at),
            ReservationKind::Lease(lease) => still_held(r, e) <==> (e.leased && e.lease_id
                == lease.id@ && e.lease_holder == lease.holder@),
        },
{
}

/// A destroy marks an entry and makes its process the owner; all else stays.
pub proof fn law_destroy_reserves_for_its_process(e: EntryView, pid: i32, started_at: i64)
    ensures
        ({
            let d = destroy_reserved(e, pid, started_at);
            &&& d.destroying
            &&& d.owner_pid == pid
            &&& d.owner_started_at == started_at
            &&& d.name == e.name
            &&& d.path == e.path
            &&& d.created_at == e.created_at
            &&& d.same_lease(e)
        }),
{
}

} // verus!
