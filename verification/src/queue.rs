//! Keeping grabs in step with what their download clients report.
//!
//! A client that answers and does not list a download says something about
//! the download; a client nobody could ask says nothing. The two are kept
//! apart, so that a restarting client never abandons a healthy download.

use vstd::prelude::*;

use crate::text;

verus! {

/// How often the background sync runs, in seconds.
pub const SYNC_INTERVAL: u64 = 60;

/// Ten minutes, in nanoseconds: how long a grab may go unrecognised by its
/// own client before it is taken for gone.
pub const MISSING_GRACE: i128 = 600_000_000_000;

/// Where a grab stands.
#[derive(Debug, Clone, Copy, PartialEq, Eq, Structural)]
pub enum GrabStatus {
    Reserved,
    Sent,
    Downloading,
    Completed,
    Imported,
    Failed,
    Rejected,
}

pub open spec fn status_label(status: GrabStatus) -> Seq<char> {
    match status {
        GrabStatus::Reserved => "reserved"@,
        GrabStatus::Sent => "sent"@,
        GrabStatus::Downloading => "downloading"@,
        GrabStatus::Completed => "completed"@,
        GrabStatus::Imported => "imported"@,
        GrabStatus::Failed => "failed"@,
        GrabStatus::Rejected => "rejected"@,
    }
}

impl GrabStatus {
    /// Persisted label.
    pub fn label(self) -> (r: &'static str)
        ensures
            r@ == status_label(self),
    {
        match self {
            GrabStatus::Reserved => "reserved",
            GrabStatus::Sent => "sent",
            GrabStatus::Downloading => "downloading",
            GrabStatus::Completed => "completed",
            GrabStatus::Imported => "imported",
            GrabStatus::Failed => "failed",
            GrabStatus::Rejected => "rejected",
        }
    }
}

/// Where a download stands, as its client says.
#[derive(Debug, Clone, Copy, PartialEq, Eq, Structural)]
pub enum DownloadState {
    Queued,
    Downloading,
    Completed,
    Failed,
}

/// What a client says of a download.
#[derive(Debug, Clone)]
pub struct DownloadStatus {
    pub state: DownloadState,
    /// The client's own words, for a failure.
    pub detail: Option<String>,
}

/// What one client said about one grab.
#[derive(Debug, Clone)]
pub enum Probe {
    /// The client knows this download and reported on it.
    Known(DownloadStatus),
    /// The client answered, and has no such download.
    Unknown,
    /// Nobody could be asked: the client's row is gone or disabled, or the
    /// call failed. Says nothing about the download itself.
    Unreachable(String),
}

/// One row of the queue.
#[derive(Debug, Clone)]
pub struct QueueEntry {
    /// The grab's row.
    pub grab_id: u128,
    /// Where it stands.
    pub status: GrabStatus,
    /// When it last changed.
    pub updated_at: i128,
    /// Display name of the client holding it.
    pub client_name: Option<String>,
    /// Live reading.
    pub probe: Probe,
}

// ---------------------------------------------------------------------
// Probing
// ---------------------------------------------------------------------

/// What reading a grab from its client came to.
#[derive(Debug, Clone)]
pub enum Reading {
    /// The client could not be built from its row.
    NotBuilt,
    /// The client reported.
    Listed(DownloadStatus),
    /// The client does not list it.
    NotListed,
    /// The call failed; the text is why.
    Failed(String),
}

/// The client row of a grab.
#[derive(Debug, Clone, Copy, PartialEq, Eq, Structural)]
pub enum Holder {
    /// The grab is still reserved, or its client was deleted.
    Gone,
    /// The operator switched the client off.
    Disabled,
    Enabled,
}

/// Why nobody is asked about a grab; `None` when its client is.
pub open spec fn unasked_text(holder: Holder, has_item: bool) -> Option<Seq<char>> {
    match holder {
        Holder::Gone => Some("sem cliente associado"@),
        Holder::Disabled => Some("o cliente está desativado"@),
        Holder::Enabled => if has_item {
            None
        } else {
            Some("a release não tem identificador no cliente"@)
        },
    }
}

/// Why a client is not asked, where it is not.
pub open spec fn is_unasked(r: Option<Probe>, holder: Holder, has_item: bool) -> bool {
    match r {
        None => unasked_text(holder, has_item) is None,
        Some(Probe::Unreachable(m)) => unasked_text(holder, has_item) == Some(m@),
        Some(_) => false,
    }
}

/// Whether the client has to be asked, or the answer is known already.
pub fn unasked(holder: Holder, has_item: bool) -> (r: Option<Probe>)
    ensures
        is_unasked(r, holder, has_item),
{
    match holder {
        Holder::Gone => Some(Probe::Unreachable("sem cliente associado".to_owned())),
        Holder::Disabled => Some(Probe::Unreachable("o cliente está desativado".to_owned())),
        Holder::Enabled => if has_item {
            None
        } else {
            Some(Probe::Unreachable("a release não tem identificador no cliente".to_owned()))
        },
    }
}

/// Whether `r` is what is known of a grab. The reading counts only where the
/// client is asked.
pub open spec fn is_probe(r: Probe, holder: Holder, has_item: bool, reading: Reading) -> bool {
    match unasked_text(holder, has_item) {
        Some(why) => r matches Probe::Unreachable(m) && m@ == why,
        None => match reading {
            Reading::NotBuilt => r matches Probe::Unreachable(m) && m@
                == "configuração do cliente inválida"@,
            Reading::Listed(s) => r matches Probe::Known(k) && k == s,
            Reading::NotListed => r is Unknown,
            Reading::Failed(why) => r matches Probe::Unreachable(m) && m == why,
        },
    }
}

/// What is known of a grab.
pub fn snapshot(holder: Holder, has_item: bool, reading: Reading) -> (r: Probe)
    ensures
        is_probe(r, holder, has_item, reading),
{
    if let Some(probe) = unasked(holder, has_item) {
        return probe;
    }
    match reading {
        Reading::NotBuilt => Probe::Unreachable("configuração do cliente inválida".to_owned()),
        Reading::Listed(s) => Probe::Known(s),
        Reading::NotListed => Probe::Unknown,
        Reading::Failed(why) => Probe::Unreachable(why),
    }
}

/// A disabled client is not asked, and says nothing about its grabs: they
/// stay where they are, whatever a reading would have said.
pub proof fn a_disabled_client_never_touches_the_grab(
    e: QueueEntry,
    has_item: bool,
    reading: Reading,
    now: i128,
)
    requires
        is_probe(e.probe, Holder::Disabled, has_item, reading),
    ensures
        e.probe is Unreachable,
        next_view(e, now) is None,
{
}

// ---------------------------------------------------------------------
// Moving grabs
// ---------------------------------------------------------------------

/// Where a grab should move to, and the words for it; `None` leaves it
/// alone.
pub open spec fn next_view(e: QueueEntry, now: i128) -> Option<(GrabStatus, Option<Seq<char>>)> {
    match e.probe {
        Probe::Known(s) => match s.state {
            DownloadState::Queued | DownloadState::Downloading => Some(
                (GrabStatus::Downloading, None),
            ),
            DownloadState::Completed => Some((GrabStatus::Completed, None)),
            DownloadState::Failed => Some(
                (
                    GrabStatus::Failed,
                    Some(
                        match s.detail {
                            Some(d) => d@,
                            None => "o cliente reportou falha"@,
                        },
                    ),
                ),
            ),
        },
        Probe::Unknown => if e.status == GrabStatus::Reserved || e.status == GrabStatus::Completed {
            None
        } else if now - e.updated_at >= MISSING_GRACE {
            Some((GrabStatus::Failed, Some("o download sumiu do cliente"@)))
        } else {
            None
        },
        Probe::Unreachable(_) => None,
    }
}

pub open spec fn move_view(m: Option<(GrabStatus, Option<String>)>) -> Option<
    (GrabStatus, Option<Seq<char>>),
> {
    match m {
        Some((s, why)) => Some((s, text::opt_view(why))),
        None => None,
    }
}

/// The status a grab should move to, and why. `None` leaves it alone: a
/// client that could not be asked, a reservation that was never handed
/// over, a finished download the client no longer lists, and anything the
/// client only just lost.
pub fn next_status(entry: &QueueEntry, now: i128) -> (r: Option<(GrabStatus, Option<String>)>)
    ensures
        move_view(r) == next_view(*entry, now),
{
    match &entry.probe {
        Probe::Known(s) => match s.state {
            DownloadState::Queued | DownloadState::Downloading => Some(
                (GrabStatus::Downloading, None),
            ),
            DownloadState::Completed => Some((GrabStatus::Completed, None)),
            DownloadState::Failed => {
                let why = match &s.detail {
                    Some(d) => d.clone(),
                    None => "o cliente reportou falha".to_owned(),
                };
                Some((GrabStatus::Failed, Some(why)))
            },
        },
        Probe::Unknown => {
            if entry.status == GrabStatus::Reserved || entry.status == GrabStatus::Completed {
                return None;
            }
            let spent = if now < entry.updated_at {
                false
            } else {
                match now.checked_sub(entry.updated_at) {
                    Some(age) => age >= MISSING_GRACE,
                    None => true,
                }
            };
            if spent {
                Some((GrabStatus::Failed, Some("o download sumiu do cliente".to_owned())))
            } else {
                None
            }
        },
        Probe::Unreachable(_) => None,
    }
}

/// Counts from one sync pass.
#[derive(Debug, Clone, Copy, PartialEq, Eq, Structural)]
pub struct SyncSummary {
    /// Grabs looked at.
    pub checked: usize,
    /// Grabs whose status changed.
    pub advanced: usize,
    /// Grabs marked failed this pass.
    pub failed: usize,
    /// Grabs whose client could not be asked.
    pub unreachable: usize,
}

impl Default for SyncSummary {
    fn default() -> (r: SyncSummary)
        ensures
            r == (SyncSummary { checked: 0, advanced: 0, failed: 0, unreachable: 0 }),
    {
        SyncSummary { checked: 0, advanced: 0, failed: 0, unreachable: 0 }
    }
}

/// A status to write.
#[derive(Debug, Clone)]
pub struct Move {
    pub grab_id: u128,
    pub status: GrabStatus,
    pub reason: Option<String>,
}

/// Whether an entry's grab changes.
pub open spec fn changes(e: QueueEntry, now: i128) -> bool {
    next_view(e, now) is Some && (next_view(e, now)->0).0 != e.status
}

/// The entries whose grab changes, in order.
pub open spec fn changing(entries: Seq<QueueEntry>, now: i128) -> Seq<QueueEntry>
    decreases entries.len(),
{
    if entries.len() == 0 {
        Seq::empty()
    } else if changes(entries.last(), now) {
        changing(entries.drop_last(), now).push(entries.last())
    } else {
        changing(entries.drop_last(), now)
    }
}

/// How many of the entries' grabs fail.
pub open spec fn failing(entries: Seq<QueueEntry>, now: i128) -> nat
    decreases entries.len(),
{
    if entries.len() == 0 {
        0
    } else {
        failing(entries.drop_last(), now) + if changes(entries.last(), now) && (next_view(
            entries.last(),
            now,
        )->0).0 == GrabStatus::Failed {
            1nat
        } else {
            0
        }
    }
}

/// How many of the entries' clients could not be asked.
pub open spec fn silent(entries: Seq<QueueEntry>) -> nat
    decreases entries.len(),
{
    if entries.len() == 0 {
        0
    } else {
        silent(entries.drop_last()) + if entries.last().probe is Unreachable {
            1nat
        } else {
            0
        }
    }
}

/// Whether the moves are those of these entries.
pub open spec fn are_moves(moves: Seq<Move>, entries: Seq<QueueEntry>, now: i128) -> bool {
    &&& moves.len() == entries.len()
    &&& forall|i: int|
        0 <= i < moves.len() ==> (#[trigger] moves[i]).grab_id == entries[i].grab_id && Some(
            (moves[i].status, text::opt_view(moves[i].reason)),
        ) == next_view(entries[i], now)
}

/// Whether a pass over these entries came to these moves and counts.
pub open spec fn is_pass(
    entries: Seq<QueueEntry>,
    now: i128,
    moves: Seq<Move>,
    summary: SyncSummary,
) -> bool {
    &&& are_moves(moves, changing(entries, now), now)
    &&& summary.checked == entries.len()
    &&& summary.advanced == moves.len()
    &&& summary.failed == failing(entries, now)
    &&& summary.unreachable == silent(entries)
}

/// One sync pass: the statuses to write, in order, and the counts.
pub fn sync_once(entries: &[QueueEntry], now: i128) -> (r: (Vec<Move>, SyncSummary))
    ensures
        is_pass(entries@, now, r.0@, r.1),
        are_moves(r.0@, changing(entries@, now), now),
        r.1 == (SyncSummary {
            checked: entries.len(),
            advanced: r.0.len(),
            failed: failing(entries@, now) as usize,
            unreachable: silent(entries@) as usize,
        }),
        r.1.failed == failing(entries@, now),
        r.1.unreachable == silent(entries@),
{
    let mut moves: Vec<Move> = Vec::new();
    let mut failed: usize = 0;
    let mut unreachable: usize = 0;
    let mut i: usize = 0;
    while i < entries.len()
        invariant
            i <= entries.len(),
            failed <= i,
            unreachable <= i,
            are_moves(moves@, changing(entries@.take(i as int), now), now),
            failed == failing(entries@.take(i as int), now),
            unreachable == silent(entries@.take(i as int)),
        decreases entries.len() - i,
    {
        assert(entries@.take(i + 1).drop_last() == entries@.take(i as int));
        assert(entries@.take(i + 1).last() == entries@[i as int]);
        let e = &entries[i];
        i += 1;
        match next_status(e, now) {
            None => {
                if let Probe::Unreachable(_) = &e.probe {
                    unreachable += 1;
                }
            },
            Some((status, reason)) => {
                if status != e.status {
                    moves.push(Move { grab_id: e.grab_id, status, reason });
                    if status == GrabStatus::Failed {
                        failed += 1;
                    }
                }
            },
        }
    }
    assert(entries@.take(entries.len() as int) == entries@);
    let advanced: usize = moves.len();
    (moves, SyncSummary { checked: entries.len(), advanced, failed, unreachable })
}

// ---------------------------------------------------------------------
// Laws
// ---------------------------------------------------------------------

/// A client that could not be asked never touches the grab.
pub proof fn an_unreachable_client_never_touches_the_grab(e: QueueEntry, now: i128)
    requires
        e.probe is Unreachable,
    ensures
        next_view(e, now) is None,
        !changes(e, now),
{
}

/// A download a client does not list fails only after the grace period, and
/// never while it is a reservation or already finished.
pub proof fn a_missing_download_gets_a_grace_period(e: QueueEntry, now: i128)
    requires
        e.probe is Unknown,
        changes(e, now),
    ensures
        (next_view(e, now)->0).0 == GrabStatus::Failed,
        now - e.updated_at >= MISSING_GRACE,
        e.status != GrabStatus::Reserved,
        e.status != GrabStatus::Completed,
{
}

} // verus!
