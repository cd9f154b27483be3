//! What holds of handing a release over, of pushing one, and of forgetting
//! one.

use vstd::prelude::*;

use crate::catalogue::{DecisionRow, Protocol};
use crate::db::push_history::{NewPushHistory, PushStatus};
use crate::deliver;
use crate::deliver::{
    ClientAnswer, ClientFault, DeliveryOutcome, FetchFailure, FetchReply, GrabProtocol, GrabWrite,
    Route, Transport,
};
use crate::error::AppError;
use crate::forget;
use crate::forget::{FileEnd, FileFacts, Forgotten, RemoveStep};
use crate::laws::polling;
use crate::outside;
use crate::push::{ArrTarget, Header, PushReleasePayload, PushReply};
use crate::queue::GrabStatus;
use crate::text;

verus! {

// ---------------------------------------------------------------------
// Where a grab goes
// ---------------------------------------------------------------------

/// A release leaves for a client exactly where nothing is paused, it is no
/// local file, a client serves its transport and it has an address.
pub proof fn a_release_leaves_where_it_can(
    r: Route,
    paused: bool,
    grab: GrabProtocol,
    has_client: bool,
    url: Option<&str>,
)
    requires
        deliver::is_route(r, paused, grab, has_client, url),
    ensures
        !(r is Ended) <==> !paused && (grab == GrabProtocol::Torrent || grab
            == GrabProtocol::Usenet) && has_client && url is Some,
{
}

/// What leaves is the release's own address, over its own transport: as it
/// stands where it is a magnet, and fetched first where it is not.
pub proof fn what_leaves_is_the_release(
    r: Route,
    grab: GrabProtocol,
    address: &str,
    transport: Transport,
)
    requires
        deliver::is_route(r, false, grab, true, Some(address)),
        grab == GrabProtocol::Torrent && transport == Transport::Torrent || grab
            == GrabProtocol::Usenet && transport == Transport::Usenet,
    ensures
        r matches Route::Magnet(t, a) ==> t == transport && a@ == address@,
        r matches Route::Fetch(t, a) ==> t == transport && a@ == address@,
        r is Magnet <==> address@.len() >= 7 && address@.take(7) == seq![
            'm',
            'a',
            'g',
            'n',
            'e',
            't',
            ':',
        ],
{
    reveal_strlit("magnet:");
    let magnet = seq!['m', 'a', 'g', 'n', 'e', 't', ':'];
    assert("magnet:"@ =~= magnet);
    if address@.len() >= 7 {
        assert(address@.take(7) =~= address@.subrange(0, 7));
    }
}

/// A delivery that ends before it starts was never sent. It is worth
/// another try exactly where the pause ended it.
pub proof fn only_a_pause_is_worth_another_try(
    r: Route,
    paused: bool,
    grab: GrabProtocol,
    has_client: bool,
    url: Option<&str>,
)
    requires
        deliver::is_route(r, paused, grab, has_client, url),
        r is Ended,
    ensures
        r->Ended_0 is Retryable <==> paused,
        r->Ended_0 is Permanent <==> !paused,
{
}

/// A torrent travels as a torrent, an nzb over usenet, and a local file not
/// at all.
pub proof fn a_local_file_does_not_travel(r: Option<Transport>, grab: GrabProtocol)
    requires
        deliver::is_transport(r, grab),
    ensures
        r is None <==> grab == GrabProtocol::Local,
        r == Some(Transport::Torrent) <==> grab == GrabProtocol::Torrent,
        r == Some(Transport::Usenet) <==> grab == GrabProtocol::Usenet,
{
}

// ---------------------------------------------------------------------
// The release file
// ---------------------------------------------------------------------

/// Whether every byte is a space, a tab or the end of a line or page.
pub open spec fn is_blank(bytes: Seq<u8>) -> bool {
    forall|i: int|
        0 <= i < bytes.len() ==> (#[trigger] bytes[i] == 32 || bytes[i] == 9 || bytes[i] == 10
            || bytes[i] == 12 || bytes[i] == 13)
}

/// Whether content starts at the first byte.
pub open spec fn opens_at_once(bytes: Seq<u8>) -> bool {
    bytes.len() > 0 && bytes[0] != 32 && bytes[0] != 9 && bytes[0] != 10 && bytes[0] != 12
        && bytes[0] != 13
}

proof fn lemma_blanks_are_skipped(blanks: Seq<u8>, rest: Seq<u8>)
    requires
        is_blank(blanks),
        rest.len() == 0 || opens_at_once(rest),
    ensures
        deliver::skip_blank(blanks + rest) == rest,
    decreases blanks.len(),
{
    if blanks.len() == 0 {
        assert(blanks + rest =~= rest);
    } else {
        assert((blanks + rest)[0] == blanks[0]);
        assert((blanks + rest).skip(1) =~= blanks.skip(1) + rest);
        lemma_blanks_are_skipped(blanks.skip(1), rest);
    }
}

/// A torrent is known by the `d` and an nzb by the `<` its content starts
/// with, whatever white space stands before it, with or without a byte order
/// mark in front.
pub proof fn a_release_file_is_known_by_its_first_byte(blanks: Seq<u8>, rest: Seq<u8>)
    requires
        is_blank(blanks),
        opens_at_once(rest),
        rest[0] != 0xEF,
    ensures
        deliver::is_release_file(blanks + rest, Transport::Torrent) <==> rest[0] == 100,
        deliver::is_release_file(blanks + rest, Transport::Usenet) <==> rest[0] == 60,
        deliver::is_release_file(
            seq![0xEFu8, 0xBBu8, 0xBFu8] + (blanks + rest),
            Transport::Torrent,
        ) <==> rest[0] == 100,
        deliver::is_release_file(
            seq![0xEFu8, 0xBBu8, 0xBFu8] + (blanks + rest),
            Transport::Usenet,
        ) <==> rest[0] == 60,
{
    let mark = seq![0xEFu8, 0xBBu8, 0xBFu8];
    let all = blanks + rest;
    lemma_blanks_are_skipped(blanks, rest);
    assert((mark + all).skip(3) =~= all);
    if blanks.len() == 0 {
        assert(all[0] == rest[0]);
    } else {
        assert(all[0] == blanks[0]);
    }
}

/// White space alone is no release file.
pub proof fn nothing_is_no_release_file(blanks: Seq<u8>, transport: Transport)
    requires
        is_blank(blanks),
    ensures
        !deliver::is_release_file(blanks, transport),
        !deliver::is_release_file(seq![0xEFu8, 0xBBu8, 0xBFu8] + blanks, transport),
{
    let mark = seq![0xEFu8, 0xBBu8, 0xBFu8];
    lemma_blanks_are_skipped(blanks, Seq::empty());
    assert(blanks + Seq::<u8>::empty() =~= blanks);
    assert((mark + blanks).skip(3) =~= blanks);
}

/// A status is a success where its first digit is a two.
pub proof fn a_success_starts_with_a_two(r: bool, code: u16)
    requires
        deliver::is_good(r, code),
    ensures
        r <==> code / 100 == 2,
{
}

/// Up to eight mebibytes are read, and not a byte more.
pub proof fn eight_mebibytes_fit(r: bool, read: usize, chunk: usize)
    requires
        deliver::is_fitting(r, read, chunk),
    ensures
        r <==> read + chunk <= 8 * 1024 * 1024,
{
}

/// What is fetched is what was answered, and it is a release file. A fetch
/// that got no whole answer is worth another try, one that got a wrong answer
/// is not.
pub proof fn a_wrong_answer_is_not_asked_for_again(
    r: Result<Vec<u8>, FetchFailure>,
    reply: FetchReply,
    transport: Transport,
    end: DeliveryOutcome,
)
    requires
        deliver::is_fetched(r, reply, transport),
        r matches Err(failure) ==> deliver::is_fetch_end(end, failure),
    ensures
        r matches Ok(bytes) ==> reply == FetchReply::Body(bytes) && deliver::is_release_file(
            bytes@,
            transport,
        ),
        reply matches FetchReply::Body(bytes) ==> (r is Ok <==> deliver::is_release_file(
            bytes@,
            transport,
        )),
        r is Err ==> !(end is Sent),
        r is Err ==> (end is Retryable <==> reply is NoClient || reply is Unreachable
            || reply is Interrupted),
        r is Err ==> (end is Permanent <==> reply is Status || reply is TooLarge
            || reply is Body),
        r matches Err(FetchFailure::Transient(why)) ==> end == DeliveryOutcome::Retryable(why),
        r matches Err(FetchFailure::Permanent(why)) ==> end == DeliveryOutcome::Permanent(why),
{
}

// ---------------------------------------------------------------------
// The client's answer
// ---------------------------------------------------------------------

/// A release counts as sent exactly where a client took it, under the
/// client's name and the handle it gave. What the release is not to blame
/// for is worth another try: no client, no connection, no login, a bad
/// address. The rest is not.
pub proof fn the_blame_decides(r: DeliveryOutcome, name: &str, answer: ClientAnswer)
    requires
        deliver::is_handed(r, name, answer),
    ensures
        r is Sent <==> answer is Added,
        answer matches ClientAnswer::Added(handle) ==> (r matches DeliveryOutcome::Sent {
            client_name,
            client_item_id,
        } && client_name@ == name@ && client_item_id == handle),
        r is Retryable <==> answer is NoClient || (answer matches ClientAnswer::Refused(fault, _)
            && (fault == ClientFault::Transport || fault == ClientFault::Auth || fault
            == ClientFault::InvalidUrl)),
        r is Permanent <==> (answer matches ClientAnswer::Refused(fault, _) && (fault
            == ClientFault::Http || fault == ClientFault::Decode || fault == ClientFault::Config)),
{
}

/// A client's error reads the same whether it is classified by itself or as
/// the client's answer: the client's name, and what it said.
pub proof fn an_error_names_its_client(
    alone: DeliveryOutcome,
    answered: DeliveryOutcome,
    name: &str,
    fault: ClientFault,
    error: String,
    says: &str,
)
    requires
        says@ == error@,
        deliver::is_classified(alone, name, fault, says),
        deliver::is_handed(answered, name, ClientAnswer::Refused(fault, error)),
    ensures
        alone is Retryable <==> answered is Retryable,
        alone is Permanent <==> answered is Permanent,
        deliver::reason_text(alone) == name@ + seq![':', ' '] + error@,
        deliver::reason_text(answered) == name@ + seq![':', ' '] + error@,
{
    reveal_strlit(": ");
    assert(": "@ =~= seq![':', ' ']);
}

/// A sent release is marked with the client that took it, one worth another
/// try is let go, and any other failure stays with its reason.
pub proof fn only_a_failure_keeps_the_key(
    r: Result<GrabWrite, AppError>,
    client_id: Option<u128>,
    outcome: DeliveryOutcome,
)
    requires
        deliver::is_write(r, client_id, outcome),
    ensures
        r is Err <==> outcome is Sent && client_id is None,
        r is Ok ==> (r->Ok_0 is MarkSent <==> outcome is Sent),
        r is Ok ==> (r->Ok_0 is Release <==> outcome is Retryable),
        r is Ok ==> (r->Ok_0 is Fail <==> outcome is Permanent),
        r matches Ok(GrabWrite::MarkSent { client_id: id, client_item_id }) ==> Some(id)
            == client_id && text::opt_view(client_item_id) == text::opt_view(
            outcome->client_item_id,
        ),
        r matches Ok(GrabWrite::Fail(why)) ==> why@ == deliver::reason_text(outcome),
{
}

// ---------------------------------------------------------------------
// Pushing
// ---------------------------------------------------------------------

proof fn lemma_no_slash(s: Seq<char>)
    requires
        s.len() == 0 || s.last() != '/',
    ensures
        crate::push::without_slashes(s) == s,
{
}

/// A decision is pushed under its own name and size, from the indexer
/// `brarr`, dated by its publication where that is known. Only a torrent
/// tells how many share it.
pub proof fn a_push_tells_of_the_release(
    p: PushReleasePayload,
    row: DecisionRow,
    base: Seq<char>,
    apikey: Option<&str>,
)
    requires
        crate::push::is_payload(p, row, base, apikey),
    ensures
        p.title@ == row.release_name@,
        p.size == row.size_bytes,
        p.indexer@ == seq!['b', 'r', 'a', 'r', 'r'],
        row.published_at is Some ==> p.publish_date == row.published_at->0,
        row.published_at is None ==> p.publish_date == row.decided_at,
        text::opt_view(p.info_url) == text::opt_view(row.details_url),
        p.protocol == Protocol::Torrent ==> p.seeders == Some(row.seeders) && p.leechers == Some(
            row.leechers,
        ),
        p.protocol == Protocol::Usenet ==> p.seeders is None && p.leechers is None,
        p.protocol == Protocol::Usenet <==> polling::from_usenet(row),
        p.protocol == Protocol::Torrent <==> !polling::from_usenet(row),
{
    if let Some(k) = row.provider_kind {
        polling::lemma_usenet(k@);
    }
    reveal_strlit("brarr");
    assert("brarr"@ =~= seq!['b', 'r', 'a', 'r', 'r']);
}

/// The address of a pushed release is the proxy's: the origin, the part of
/// its transport, the decision's id, and the key where there is one.
pub proof fn a_push_leads_back_to_the_proxy(
    p: PushReleasePayload,
    row: DecisionRow,
    base: Seq<char>,
    apikey: Option<&str>,
)
    requires
        crate::push::is_payload(p, row, base, apikey),
        base.len() > 0 && base.last() != '/',
    ensures
        ({
            let part = if p.protocol == Protocol::Usenet {
                "/newznab"@
            } else {
                "/torznab"@
            };
            let path = base + part + "/download/"@ + outside::hyphenated(row.id);
            &&& apikey is None ==> p.download_url@ == path
            &&& apikey matches Some(k) ==> p.download_url@ == if k@.len() == 0 {
                path
            } else {
                path + ("?apikey="@ + k@)
            }
        }),
{
    lemma_no_slash(base);
    let part = if p.protocol == Protocol::Usenet {
        "/newznab"@
    } else {
        "/torznab"@
    };
    let path = base + part + "/download/"@ + outside::hyphenated(row.id);
    assert(path + Seq::<char>::empty() =~= path);
}

/// A slash at the end of an origin changes no address.
pub proof fn a_slash_behind_the_origin_changes_nothing(
    row: DecisionRow,
    base: Seq<char>,
    apikey: Option<&str>,
)
    ensures
        crate::push::proxy_url(row, base.push('/'), apikey) == crate::push::proxy_url(row, base, apikey),
{
    assert(base.push('/').drop_last() =~= base);
}

/// Every reply leaves a row of that decision and that instance. It counts as
/// accepted exactly where the instance took the request, and carries a status
/// exactly where the instance answered.
pub proof fn every_push_is_recorded(
    row: NewPushHistory,
    decision_id: u128,
    arr: ArrTarget,
    reply: PushReply,
)
    requires
        crate::push::records(row, decision_id, arr, reply),
    ensures
        row.decision_id == decision_id && row.arr_instance_id == arr.id && row.arr_kind
            == arr.kind && row.arr_instance_name@ == arr.name@,
        row.status == PushStatus::Accepted <==> reply is Accepted,
        row.status == PushStatus::HttpError <==> reply is Http,
        row.status == PushStatus::TransportError <==> reply is NoClient || reply is Transport,
        row.http_status is Some <==> reply is Accepted || reply is Http,
        reply is Accepted ==> row.http_status == Some(200u16),
        reply matches PushReply::Http(status, body) ==> row.http_status == Some(status)
            && text::opt_view(row.response_body) == Some(body@),
        reply matches PushReply::Accepted(body) ==> (text::opt_view(row.response_body) == Some(
            body@,
        ) <==> body@.len() > 0),
        reply matches PushReply::Accepted(body) ==> (row.response_body is None <==> body@.len()
            == 0),
        reply matches PushReply::Transport(why) ==> text::opt_view(row.response_body) == Some(
            why@,
        ),
        reply is NoClient || reply is Transport ==> row.rejections is None,
{
}

/// The reasons of one list of releases and of another come one after the
/// other.
pub proof fn reasons_add_up(a: Seq<Seq<char>>, b: Seq<Seq<char>>)
    ensures
        crate::push::all_reasons(a + b) == crate::push::all_reasons(a) + crate::push::all_reasons(b),
    decreases b.len(),
{
    if b.len() == 0 {
        assert(a + b =~= a);
        assert(crate::push::all_reasons(a) + crate::push::all_reasons(b) =~= crate::push::all_reasons(a));
    } else {
        assert((a + b).drop_last() =~= a + b.drop_last());
        reasons_add_up(a, b.drop_last());
        assert(crate::push::all_reasons(a + b) =~= crate::push::all_reasons(a) + crate::push::all_reasons(b));
    }
}

/// A reason is a text among the `rejections` of a release, and each such text
/// is one.
pub proof fn each_rejection_is_a_reason(release: Seq<char>, k: int)
    requires
        outside::member_of(release, "rejections"@) matches Some(m) && (outside::elements_of(
            m,
        ) matches Some(values) && 0 <= k < values.len()),
    ensures
        ({
            let values = outside::elements_of(
                outside::member_of(release, "rejections"@)->0,
            )->0;
            &&& outside::string_in(values[k]) matches Some(s) ==> crate::push::all_reasons(
                seq![release],
            ).contains(s)
            &&& crate::push::all_reasons(seq![release]).len() <= values.len()
        }),
{
    let values = outside::elements_of(outside::member_of(release, "rejections"@)->0)->0;
    let one = seq![release];
    assert(one.drop_last() =~= Seq::empty());
    assert(crate::push::all_reasons(one.drop_last()) =~= Seq::empty());
    assert(crate::push::all_reasons(one) =~= crate::push::reasons_of(release));
    lemma_strings(values, k);
}

proof fn lemma_strings(values: Seq<Seq<char>>, k: int)
    requires
        0 <= k < values.len(),
    ensures
        outside::string_in(values[k]) matches Some(s) ==> crate::push::strings(values).contains(s),
        crate::push::strings(values).len() <= values.len(),
    decreases values.len(),
{
    let before = crate::push::strings(values.drop_last());
    let all = crate::push::strings(values);
    if k < values.len() - 1 {
        lemma_strings(values.drop_last(), k);
        if let Some(s) = outside::string_in(values[k]) {
            let i = choose|i: int| 0 <= i < before.len() && before[i] == s;
            assert(all[i] == s);
        }
    } else {
        if values.len() > 1 {
            lemma_strings(values.drop_last(), 0);
        }
        if let Some(s) = outside::string_in(values[k]) {
            assert(all[before.len() as int] == s);
        }
    }
}

/// A release that lists no rejection gives no reason.
pub proof fn no_list_no_reason(release: Seq<char>)
    requires
        outside::member_of(release, "rejections"@) is None,
    ensures
        crate::push::all_reasons(seq![release]) == Seq::<Seq<char>>::empty(),
{
    let one = seq![release];
    assert(one.drop_last() =~= Seq::empty());
    assert(crate::push::all_reasons(one.drop_last()) =~= Seq::empty());
    assert(crate::push::all_reasons(one) =~= crate::push::reasons_of(release));
}

/// An answer tells rejections exactly where it is a list of releases and not
/// blank.
pub proof fn rejections_come_in_a_list(body: Seq<char>)
    ensures
        crate::push::rejections_of(body) is Some <==> text::trim(body).len() > 0 && outside::elements_of(
            body,
        ) is Some,
        crate::push::rejections_of(body) is Some ==> crate::push::rejections_of(body) == Some(
            crate::push::all_reasons(outside::elements_of(body)->0),
        ),
{
}

// ---------------------------------------------------------------------
// Origins
// ---------------------------------------------------------------------

/// An origin is as configured but for slashes at its end. What holds nothing
/// but slashes is none.
pub proof fn an_origin_ends_in_no_slash(plain: &str, slashed: &str)
    ensures
        plain@.len() > 0 && plain@.last() != '/' ==> crate::push::origin(Some(plain)) == Some(plain@),
        slashed@ == plain@.push('/') ==> crate::push::origin(Some(slashed)) == crate::push::origin(Some(plain)),
        plain@.len() == 0 ==> crate::push::origin(Some(plain)) is None,
        crate::push::origin(None) is None,
{
    if plain@.len() == 0 || plain@.last() != '/' {
        lemma_no_slash(plain@);
    }
    if slashed@ == plain@.push('/') {
        assert(slashed@.drop_last() =~= plain@);
    }
}

/// The setting goes before the environment, and both before what the request
/// says.
pub proof fn the_setting_goes_first(
    state: Option<String>,
    poll: String,
    base: String,
    setting: Option<&str>,
    env: Option<&str>,
    proto: Header,
    forwarded: Header,
    host: Header,
)
    requires
        crate::push::is_state_origin(state, setting, env),
        crate::push::is_poll_origin(poll, env),
        crate::push::is_request_origin(base, setting, env, proto, forwarded, host),
    ensures
        setting matches Some(s) ==> (s@.len() > 0 && s@.last() != '/' ==> text::opt_view(state)
            == Some(s@) && base@ == s@),
        env matches Some(e) ==> (e@.len() > 0 && e@.last() != '/' ==> poll@ == e@ && (setting
            is None ==> text::opt_view(state) == Some(e@) && base@ == e@)),
        setting is None && env is None ==> state is None,
        env is None ==> poll@ == "http://127.0.0.1:3000"@,
{
    if let Some(s) = setting {
        an_origin_ends_in_no_slash(s, s);
    }
    if let Some(e) = env {
        an_origin_ends_in_no_slash(e, e);
    }
}

/// With no origin configured, a request is answered through the host it was
/// forwarded for, else through its own, in the scheme it was forwarded in.
pub proof fn a_request_names_its_own_origin(
    base: String,
    proto: Header,
    forwarded: Header,
    host: Header,
)
    requires
        crate::push::is_request_origin(base, None, None, proto, forwarded, host),
    ensures
        proto matches Header::Text(p) ==> (forwarded matches Header::Text(h) ==> base@ == p@
            + "://"@ + h@),
        proto matches Header::Text(p) ==> forwarded is Absent ==> (host matches Header::Text(h)
            ==> base@ == p@ + "://"@ + h@),
        proto is Absent ==> (forwarded matches Header::Text(h) ==> base@ == "http"@ + "://"@
            + h@),
        proto is Absent && forwarded is Absent && host is Absent ==> base@ == "http"@ + "://"@
            + "127.0.0.1:3000"@,
        forwarded is Unreadable && proto is Absent ==> base@ == "http"@ + "://"@
            + "127.0.0.1:3000"@,
{
}

// ---------------------------------------------------------------------
// Forgetting
// ---------------------------------------------------------------------

/// Only what was imported can be forgotten.
pub proof fn only_what_was_imported_is_forgotten(r: Result<(), AppError>, status: GrabStatus)
    requires
        forget::is_forgettable(r, status),
    ensures
        r is Ok <==> status == GrabStatus::Imported,
        r matches Err(e) ==> e is InvalidInput,
{
}

/// A file is removed exactly where its bytes have two names or more, and
/// nothing is done exactly where it is gone.
pub proof fn a_file_with_another_name_is_removed(
    step: RemoveStep,
    path: Seq<char>,
    facts: FileFacts,
)
    requires
        forget::is_step(step, path, facts),
    ensures
        step is Remove <==> (facts matches FileFacts::Links(names) && names > 1),
        step is Nothing <==> facts is Gone,
{
}

/// A file adopted where it lay is nobody's to remove, and a row without a
/// path has none.
pub proof fn an_adopted_file_stays(r: bool, in_place: bool, has_path: bool)
    requires
        forget::is_owned(r, in_place, has_path),
    ensures
        in_place ==> !r,
        !has_path ==> !r,
        has_path && !in_place ==> r,
{
}

/// Every row is forgotten, whatever became of its file: what was removed and
/// what was refused are told in order, one for one.
pub proof fn forgetting_adds_up(
    a: Seq<FileEnd>,
    end: FileEnd,
    before: Forgotten,
    after: Forgotten,
)
    requires
        forget::is_forgotten(before, a),
        forget::is_forgotten(after, a.push(end)),
    ensures
        after.rows == before.rows + 1,
        end is Nothing ==> text::views(after.removed@) == text::views(before.removed@)
            && forget::pair_views(after.refused@) == forget::pair_views(before.refused@),
        end matches FileEnd::Removed(path) ==> text::views(after.removed@) == text::views(
            before.removed@,
        ).push(path@) && forget::pair_views(after.refused@) == forget::pair_views(before.refused@),
        end matches FileEnd::Refused(path, why) ==> text::views(after.removed@) == text::views(
            before.removed@,
        ) && forget::pair_views(after.refused@) == forget::pair_views(before.refused@).push(
            (path@, why@),
        ),
{
    assert(a.push(end).drop_last() =~= a);
}

} // verus!
