//! Durable leases: a reservation of a worktree that no process has to hold.
//!
//! A lease and an owner reservation are independent of each other. A lease
//! carries no owner, survives with no process in the worktree, and ends only
//! when it is returned or destroyed by name.

use vstd::prelude::*;
use vstd::string::*;

use crate::state::{new_lease_id, EntryView, WorktreeEntry};
use crate::text::{all_hex, quote, quoted};
use crate::time::{display, display_text, zero_time, Timestamp};

verus! {

/// The identity of one lease acquisition.
#[derive(Clone, Debug, PartialEq, Eq)]
pub struct LeaseInfo {
    pub path: String,
    pub lease_id: String,
    pub lease_holder: String,
    pub leased_at: Timestamp,
}

/// A durable reservation that no process has to hold.
#[derive(Clone, Debug, PartialEq, Eq)]
pub struct Lease {
    pub id: String,
    pub holder: String,
    pub acquired_at: Timestamp,
    /// None for a permanent lease.
    pub expires_at: Option<Timestamp>,
}

/// What a [`Lease`] says.
#[verifier::ext_equal]
pub struct LeaseView {
    pub id: Seq<char>,
    pub holder: Seq<char>,
    pub acquired_at: Timestamp,
    pub expires_at: Option<Timestamp>,
}

impl View for Lease {
    type V = LeaseView;

    open spec fn view(&self) -> LeaseView {
        LeaseView {
            id: self.id@,
            holder: self.holder@,
            acquired_at: self.acquired_at,
            expires_at: self.expires_at,
        }
    }
}

/// The entry with the lease stamped on it, and without an owner.
pub open spec fn stamped(e: EntryView, lease: LeaseView) -> EntryView {
    EntryView {
        leased: true,
        lease_id: lease.id,
        lease_holder: lease.holder,
        leased_at: lease.acquired_at,
        owner_pid: 0,
        owner_started_at: 0,
        expires_at: match lease.expires_at {
            Some(t) => t,
            None => zero_time(),
        },
        ..e
    }
}

/// The lease that an entry carries.
pub open spec fn lease_of(e: EntryView) -> Option<LeaseView> {
    if e.leased {
        Some(
            LeaseView {
                id: e.lease_id,
                holder: e.lease_holder,
                acquired_at: e.leased_at,
                expires_at: if e.expires_at == zero_time() {
                    None
                } else {
                    Some(e.expires_at)
                },
            },
        )
    } else {
        None
    }
}

impl Lease {
    /// Stamps the lease onto an entry. The entry then has no owner.
    pub fn write_to(&self, e: &mut WorktreeEntry)
        ensures
            final(e)@ == stamped(old(e)@, self@),
    {
        e.leased = true;
        e.lease_id = self.id.clone();
        e.lease_holder = self.holder.clone();
        e.leased_at = self.acquired_at;
        e.owner_pid = 0;
        e.owner_started_at = 0;
        e.expires_at = match self.expires_at {
            Some(exp) => exp,
            None => Timestamp::zero(),
        };
    }

    /// The lease that an entry carries.
    pub fn from_entry(e: &WorktreeEntry) -> (r: Option<Lease>)
        ensures
            match lease_of(e@) {
                Some(lease) => r matches Some(l) && l@ == lease,
                None => r is None,
            },
    {
        if !e.leased {
            return None;
        }
        Some(
            Lease {
                id: e.lease_id.clone(),
                holder: e.lease_holder.clone(),
                acquired_at: e.leased_at,
                expires_at: if e.expires_at.is_zero() {
                    None
                } else {
                    Some(e.expires_at)
                },
            },
        )
    }

    /// An equal lease.
    pub fn copy(&self) -> (r: Lease)
        ensures
            r == *self,
    {
        Lease {
            id: self.id.clone(),
            holder: self.holder.clone(),
            acquired_at: self.acquired_at,
            expires_at: self.expires_at,
        }
    }
}

/// The identity of the lease that an entry carries.
pub fn lease_info_from_entry(e: &WorktreeEntry) -> (r: LeaseInfo)
    ensures
        r.path@ == e.path@,
        r.lease_id@ == e.lease_id@,
        r.lease_holder@ == e.lease_holder@,
        r.leased_at == e.leased_at,
{
    LeaseInfo {
        path: e.path.clone(),
        lease_id: e.lease_id.clone(),
        lease_holder: e.lease_holder.clone(),
        leased_at: e.leased_at,
    }
}

/// Stamps a lease with a given identity and without an end onto an entry.
pub fn mark_acquired_lease_as(wt: &mut WorktreeEntry, id: &str, holder: &str, now: Timestamp)
    ensures
        final(wt)@ == stamped(
            old(wt)@,
            LeaseView { id: id@, holder: holder@, acquired_at: now, expires_at: None },
        ),
{
    let lease = Lease {
        id: id.to_owned(),
        holder: holder.to_owned(),
        acquired_at: now,
        expires_at: None,
    };
    lease.write_to(wt);
}

/// Stamps a lease with a fresh identity and without an end onto an entry, and
/// returns the identity.
pub fn mark_acquired_lease(wt: &mut WorktreeEntry, holder: &str, now: Timestamp) -> (id: String)
    ensures
        id@.len() == 32,
        all_hex(id@),
        final(wt)@ == stamped(
            old(wt)@,
            LeaseView { id: id@, holder: holder@, acquired_at: now, expires_at: None },
        ),
{
    let id = new_lease_id();
    mark_acquired_lease_as(wt, &id, holder, now);
    id
}

/// Removes the lease from an entry.
pub fn clear_lease(wt: &mut WorktreeEntry)
    ensures
        final(wt)@ == old(wt)@.unleased(),
{
    crate::state::clear_lease(wt);
}

/// Errors from lease operations.
#[derive(Clone, Debug, PartialEq, Eq)]
pub enum LeaseError {
    PreconditionFailed {
        expected: String,
        expected_holder: String,
        actual: String,
        actual_holder: String,
    },
    NotFound(String),
    Expired { path: String, expired_at: Timestamp },
    Rng(String),
}

impl LeaseError {
    /// The message of the error.
    pub open spec fn message_spec(self) -> Seq<char> {
        match self {
            LeaseError::PreconditionFailed { expected, expected_holder, actual, actual_holder } =>
                "lease precondition failed: expected lease "@ + quoted(expected@) + " by "@ + quoted(
                    expected_holder@,
                ) + ", but worktree is leased "@ + quoted(actual@) + " by "@ + quoted(
                    actual_holder@,
                ),
            LeaseError::NotFound(path) => "no worktree leased at "@ + path@,
            LeaseError::Expired { path, expired_at } => "lease at "@ + path@ + " expired at "@
                + display_text(expired_at.secs, expired_at.nanos),
            LeaseError::Rng(e) => "generating lease identity: "@ + e@,
        }
    }

    /// The message of the error.
    pub fn message(&self) -> (r: String)
        requires
            self matches LeaseError::Expired { expired_at, .. } ==> expired_at.wf(),
        ensures
            r@ == self.message_spec(),
    {
        match self {
            LeaseError::PreconditionFailed { expected, expected_holder, actual, actual_holder } => {
                let mut s = "lease precondition failed: expected lease ".to_owned();
                s.append(&quote(expected));
                s.append(" by ");
                s.append(&quote(expected_holder));
                s.append(", but worktree is leased ");
                s.append(&quote(actual));
                s.append(" by ");
                s.append(&quote(actual_holder));
                s
            },
            LeaseError::NotFound(path) => {
                let mut s = "no worktree leased at ".to_owned();
                s.append(path);
                s
            },
            LeaseError::Expired { path, expired_at } => {
                let mut s = "lease at ".to_owned();
                s.append(path);
                s.append(" expired at ");
                s.append(&display(*expired_at));
                s
            },
            LeaseError::Rng(e) => {
                let mut s = "generating lease identity: ".to_owned();
                s.append(e);
                s
            },
        }
    }
}

// ---------- laws ----------

/// A stamped lease is read back as it was written. A lease cannot end at the
/// zero sentinel: that one reads as permanent.
pub proof fn law_lease_round_trip(e: EntryView, lease: LeaseView)
    requires
        lease.expires_at != Some(zero_time()),
    ensures
        lease_of(stamped(e, lease)) == Some(lease),
{
}

/// A stamped lease leaves no owner reservation.
pub proof fn law_lease_has_no_owner(e: EntryView, lease: LeaseView)
    ensures
        stamped(e, lease).owner_pid == 0,
        stamped(e, lease).owner_started_at == 0,
{
}

/// Once cleared, a lease is gone, and clearing touches nothing but the lease.
pub proof fn law_cleared_lease_is_gone(e: EntryView)
    ensures
        lease_of(e.unleased()) is None,
        e.unleased().owner_pid == e.owner_pid,
        e.unleased().owner_started_at == e.owner_started_at,
        e.unleased().destroying == e.destroying,
        e.unleased().name == e.name,
        e.unleased().path == e.path,
{
}

/// Stamping a lease and clearing it again leaves an unleased entry as it was,
/// but for the owner reservation, which is gone.
pub proof fn law_clear_undoes_stamp(e: EntryView, lease: LeaseView)
    requires
        e == e.unleased(),
    ensures
        stamped(e, lease).unleased() == (EntryView { owner_pid: 0, owner_started_at: 0, ..e }),
{
}

/// A lease with an end holds before it and is stale from then on; a lease
/// without one always holds.
pub proof fn law_lease_holds_until_its_end(e: EntryView, lease: LeaseView, at: Timestamp)
    requires
        lease.expires_at != Some(zero_time()),
    ensures
        match lease.expires_at {
            Some(end) => {
                &&& stamped(e, lease).stale(at) <==> at.at_or_after(end)
                &&& stamped(e, lease).valid(at) <==> !at.at_or_after(end)
            },
            None => stamped(e, lease).valid(at) && !stamped(e, lease).stale(at),
        },
{
}

/// Stamping a lease writes its identity, its holder, its start and its end, and
/// takes the owner away; the name, the path, the creation time and the mark of
/// a destroy stay.
pub proof fn law_stamp_writes_the_lease(e: EntryView, lease: LeaseView)
    ensures
        ({
            let s = stamped(e, lease);
            &&& s.leased
            &&& s.lease_id == lease.id
            &&& s.lease_holder == lease.holder
            &&& s.leased_at == lease.acquired_at
            &&& lease.expires_at matches Some(end) ==> s.expires_at == end
            &&& lease.expires_at is None ==> s.expires_at == (Timestamp { secs: 0, nanos: 0 })
            &&& s.name == e.name
            &&& s.path == e.path
            &&& s.created_at == e.created_at
            &&& s.destroying == e.destroying
        }),
{
}

/// An entry carries a lease exactly if it is marked as leased, and the lease is
/// what the entry says. A lease without an end is permanent.
pub proof fn law_lease_of_reads_the_entry(e: EntryView)
    ensures
        lease_of(e) is Some <==> e.leased,
        lease_of(e) matches Some(l) ==> l.id == e.lease_id && l.holder == e.lease_holder
            && l.acquired_at == e.leased_at && (l.expires_at is None <==> e.expires_at == (
        Timestamp { secs: 0, nanos: 0 })) && (l.expires_at matches Some(end) ==> end
            == e.expires_at),
{
}

/// The errors of leases in words: what was expected comes before what is there.
pub proof fn law_lease_errors_in_words(
    expected: String,
    expected_holder: String,
    actual: String,
    actual_holder: String,
    at: Timestamp,
)
    ensures
        (LeaseError::PreconditionFailed {
            expected,
            expected_holder,
            actual,
            actual_holder,
        }).message_spec() == "lease precondition failed: expected lease "@ + quoted(expected@)
            + " by "@ + quoted(expected_holder@) + ", but worktree is leased "@ + quoted(actual@)
            + " by "@ + quoted(actual_holder@),
        LeaseError::NotFound(actual).message_spec() == "no worktree leased at "@ + actual@,
        (LeaseError::Expired { path: actual, expired_at: at }).message_spec() == "lease at "@
            + actual@ + " expired at "@ + display_text(at.secs, at.nanos),
        LeaseError::Rng(actual).message_spec() == "generating lease identity: "@ + actual@,
{
}

} // verus!
