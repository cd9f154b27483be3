//! Keeping grabs in step with their download clients.

use vstd::prelude::*;

use crate::queue;
use crate::queue::{
    DownloadState, DownloadStatus, GrabStatus, Holder, Move, Probe, QueueEntry, Reading, SyncSummary,
};
use crate::text;

verus! {

/// A download its client answers about and does not list is given up on once
/// ten minutes have passed since its grab last changed, unless the grab is a
/// reservation, which was never handed over, or already complete. Before
/// that, and for those two, the grab stays where it is.
pub proof fn a_lost_download_fails_once_its_grace_is_over(e: QueueEntry, now: i128)
    requires
        e.probe is Unknown,
    ensures
        match e.status {
            GrabStatus::Reserved | GrabStatus::Completed => queue::next_view(e, now) is None,
            GrabStatus::Sent
            | GrabStatus::Downloading
            | GrabStatus::Imported
            | GrabStatus::Failed
            | GrabStatus::Rejected => if e.updated_at + 600_000_000_000 <= now {
                queue::next_view(e, now) matches Some((status, why)) && status
                    == GrabStatus::Failed && why == Some("o download sumiu do cliente"@)
            } else {
                queue::next_view(e, now) is None
            },
        },
{
}

/// A client that lists a download decides where its grab stands, whatever
/// the grab said before and however long ago: waiting and running are under
/// way, done is complete, and a failure is a failure in the client's words.
pub proof fn a_listed_download_stands_where_its_client_says(
    e: QueueEntry,
    s: DownloadStatus,
    now: i128,
)
    requires
        e.probe == Probe::Known(s),
    ensures
        queue::next_view(e, now) matches Some((status, why)) && match s.state {
            DownloadState::Queued => status == GrabStatus::Downloading && why is None,
            DownloadState::Downloading => status == GrabStatus::Downloading && why is None,
            DownloadState::Completed => status == GrabStatus::Completed && why is None,
            DownloadState::Failed => {
                &&& status == GrabStatus::Failed
                &&& s.detail matches Some(d) ==> why == Some(d@)
                &&& s.detail is None ==> why == Some("o cliente reportou falha"@)
            },
        },
{
}

/// Only a client that is there, enabled and knows the download by an
/// identifier is believed: what it lists is known, what it does not list is
/// unknown, and every other case is nobody's answer.
pub proof fn only_an_asked_client_is_believed(
    probe: Probe,
    holder: Holder,
    has_item: bool,
    reading: Reading,
)
    requires
        queue::is_probe(probe, holder, has_item, reading),
    ensures
        probe is Known <==> holder == Holder::Enabled && has_item && reading is Listed,
        probe is Unknown <==> holder == Holder::Enabled && has_item && reading is NotListed,
        probe matches Probe::Known(s) ==> reading == Reading::Listed(s),
        probe matches Probe::Unreachable(m) ==> {
            &&& holder == Holder::Gone ==> m@ == "sem cliente associado"@
            &&& holder == Holder::Disabled ==> m@ == "o cliente está desativado"@
            &&& holder == Holder::Enabled && !has_item ==> m@
                == "a release não tem identificador no cliente"@
            &&& holder == Holder::Enabled && has_item ==> match reading {
                Reading::Failed(why) => m@ == why@,
                _ => m@ == "configuração do cliente inválida"@,
            }
        },
{
}

proof fn lemma_changing(entries: Seq<QueueEntry>, now: i128)
    ensures
        forall|k: int|
            0 <= k < queue::changing(entries, now).len() ==> entries.contains(
                #[trigger] queue::changing(entries, now)[k],
            ) && queue::changes(queue::changing(entries, now)[k], now),
        forall|i: int|
            0 <= i < entries.len() && queue::changes(#[trigger] entries[i], now)
                ==> queue::changing(entries, now).contains(entries[i]),
    decreases entries.len(),
{
    if entries.len() > 0 {
        let before = entries.drop_last();
        lemma_changing(before, now);
        let all = queue::changing(entries, now);
        let kept = queue::changing(before, now);
        assert forall|k: int| 0 <= k < all.len() implies entries.contains(#[trigger] all[k])
            && queue::changes(all[k], now) by {
            if k < kept.len() {
                assert(all[k] == kept[k]);
                assert(before.contains(kept[k]));
                let i = choose|i: int| 0 <= i < before.len() && before[i] == kept[k];
                assert(entries[i] == all[k]);
            } else {
                assert(entries[entries.len() - 1] == all[k]);
            }
        }
        assert forall|i: int|
            0 <= i < entries.len() && queue::changes(#[trigger] entries[i], now) implies all.contains(
            entries[i],
        ) by {
            if i < before.len() {
                assert(before[i] == entries[i]);
                assert(kept.contains(entries[i]));
                let k = choose|k: int| 0 <= k < kept.len() && kept[k] == entries[i];
                assert(all[k] == entries[i]);
            } else {
                assert(all[all.len() - 1] == entries[i]);
            }
        }
    }
}

/// A pass writes a grab only where its status changes, and misses none: a
/// download that completed, failed or was lost past its grace is among the
/// moves, and a grab that already stands where its client says is not.
pub proof fn a_pass_writes_what_changed(
    entries: Seq<QueueEntry>,
    now: i128,
    moves: Seq<Move>,
    summary: SyncSummary,
    i: int,
)
    requires
        queue::is_pass(entries, now, moves, summary),
        0 <= i < entries.len(),
    ensures
        (entries[i].probe matches Probe::Known(s) && s.state == DownloadState::Completed
            && entries[i].status != GrabStatus::Completed) ==> exists|k: int|
            0 <= k < moves.len() && (#[trigger] moves[k]).grab_id == entries[i].grab_id
                && moves[k].status == GrabStatus::Completed,
        (entries[i].probe matches Probe::Known(s) && s.state == DownloadState::Failed
            && entries[i].status != GrabStatus::Failed) ==> exists|k: int|
            0 <= k < moves.len() && (#[trigger] moves[k]).grab_id == entries[i].grab_id
                && moves[k].status == GrabStatus::Failed,
        (entries[i].probe matches Probe::Known(s) && (s.state == DownloadState::Downloading
            || s.state == DownloadState::Queued) && entries[i].status
            != GrabStatus::Downloading) ==> exists|k: int|
            0 <= k < moves.len() && (#[trigger] moves[k]).grab_id == entries[i].grab_id
                && moves[k].status == GrabStatus::Downloading,
        (entries[i].probe is Unknown && (entries[i].status == GrabStatus::Sent
            || entries[i].status == GrabStatus::Downloading) && now - entries[i].updated_at
            >= 600_000_000_000) ==> exists|k: int|
            0 <= k < moves.len() && (#[trigger] moves[k]).grab_id == entries[i].grab_id
                && moves[k].status == GrabStatus::Failed,
        forall|k: int|
            0 <= k < moves.len() ==> exists|j: int|
                0 <= j < entries.len() && (#[trigger] entries[j]).grab_id == (
                #[trigger] moves[k]).grab_id && entries[j].status != moves[k].status
                    && !(entries[j].probe is Unreachable),
        summary.checked == entries.len(),
        summary.advanced == moves.len(),
{
    lemma_changing(entries, now);
    let c = queue::changing(entries, now);
    if queue::changes(entries[i], now) {
        assert(c.contains(entries[i]));
        let k = choose|k: int| 0 <= k < c.len() && c[k] == entries[i];
        assert(moves[k].grab_id == entries[i].grab_id);
    }
    assert forall|k: int| 0 <= k < moves.len() implies exists|j: int|
        0 <= j < entries.len() && (#[trigger] entries[j]).grab_id == (#[trigger] moves[k]).grab_id
            && entries[j].status != moves[k].status && !(entries[j].probe is Unreachable) by {
        assert(entries.contains(c[k]) && queue::changes(c[k], now));
        let j = choose|j: int| 0 <= j < entries.len() && entries[j] == c[k];
        assert(moves[k].grab_id == entries[j].grab_id);
    }
}

/// The counts of a pass are those of its entries and moves: one failure for
/// each grab moved to failed, one silence for each client that could not be
/// asked.
pub proof fn a_pass_counts_its_entries(
    entries: Seq<QueueEntry>,
    now: i128,
    moves: Seq<Move>,
    summary: SyncSummary,
)
    requires
        queue::is_pass(entries, now, moves, summary),
    ensures
        summary.unreachable == entries.filter(|e: QueueEntry| e.probe is Unreachable).len(),
        summary.failed == moves.filter(|m: Move| m.status == GrabStatus::Failed).len(),
{
    lemma_silent(entries);
    lemma_failing(entries, now, moves);
}

proof fn lemma_silent(entries: Seq<QueueEntry>)
    ensures
        queue::silent(entries) == entries.filter(
            |e: QueueEntry| e.probe is Unreachable,
        ).len(),
    decreases entries.len(),
{
    reveal(Seq::filter);
    if entries.len() > 0 {
        lemma_silent(entries.drop_last());
    }
}

proof fn lemma_failing(entries: Seq<QueueEntry>, now: i128, moves: Seq<Move>)
    requires
        queue::are_moves(moves, queue::changing(entries, now), now),
    ensures
        queue::failing(entries, now) == moves.filter(
            |m: Move| m.status == GrabStatus::Failed,
        ).len(),
    decreases entries.len(),
{
    reveal(Seq::filter);
    let c = queue::changing(entries, now);
    if entries.len() > 0 {
        let before = entries.drop_last();
        if queue::changes(entries.last(), now) {
            let fewer = moves.drop_last();
            let d = queue::changing(before, now);
            assert(c =~= d.push(entries.last()));
            assert forall|i: int| 0 <= i < fewer.len() implies (#[trigger] fewer[i]).grab_id
                == d[i].grab_id && Some((fewer[i].status, text::opt_view(fewer[i].reason)))
                == queue::next_view(d[i], now) by {
                assert(fewer[i] == moves[i]);
                assert(c[i] == d[i]);
            }
            lemma_failing(before, now, fewer);
            assert(moves[moves.len() - 1].status == (queue::next_view(entries.last(), now)->0).0);
        } else {
            lemma_failing(before, now, moves);
        }
    }
}

/// A client is asked where it is there, enabled, and knows the grab by a
/// handle.
pub proof fn a_client_is_asked_where_it_can_answer(
    r: Option<Probe>,
    holder: Holder,
    has_item: bool,
)
    requires
        queue::is_unasked(r, holder, has_item),
    ensures
        r is None <==> holder == Holder::Enabled && has_item,
        r matches Some(p) ==> p is Unreachable,
{
}

/// A grab's state is stored in one word.
pub proof fn a_state_is_stored_in_one_word()
    ensures
        queue::status_label(GrabStatus::Reserved) == "reserved"@,
        queue::status_label(GrabStatus::Sent) == "sent"@,
        queue::status_label(GrabStatus::Downloading) == "downloading"@,
        queue::status_label(GrabStatus::Completed) == "completed"@,
        queue::status_label(GrabStatus::Imported) == "imported"@,
        queue::status_label(GrabStatus::Failed) == "failed"@,
        queue::status_label(GrabStatus::Rejected) == "rejected"@,
{
}

} // verus!
