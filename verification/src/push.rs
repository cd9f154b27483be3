//! Pushing a decision to a Sonarr or Radarr instance: what is sent, and how
//! every answer is recorded.

use vstd::prelude::*;

use crate::catalogue::{DecisionRow, Protocol};
use crate::db::push_history::{NewPushHistory, PushStatus};
use crate::outside;
use crate::outside::{format_uuid, json_elements, json_member, json_string};
use crate::poll::ArrKind;
use crate::text;
use crate::text::{chars_of, extend, extend_str, same_fold, slice, string_of, trimmed_str};

verus! {

/// What an instance is sent.
#[derive(Debug, Clone)]
pub struct PushReleasePayload {
    pub title: String,
    pub download_url: String,
    pub protocol: Protocol,
    pub publish_date: i128,
    pub size: u64,
    pub indexer: String,
    pub info_url: Option<String>,
    pub seeders: Option<u32>,
    pub leechers: Option<u32>,
}

// ---------------------------------------------------------------------
// Payload
// ---------------------------------------------------------------------

/// The text without the slashes at its end.
pub open spec fn without_slashes(s: Seq<char>) -> Seq<char>
    decreases s.len(),
{
    if s.len() > 0 && s.last() == '/' {
        without_slashes(s.drop_last())
    } else {
        s
    }
}

fn drop_slashes(s: &[char]) -> (r: Vec<char>)
    ensures
        r@ == without_slashes(s@),
{
    let mut to: usize = s.len();
    assert(s@.take(to as int) == s@);
    while to > 0 && s[to - 1] == '/'
        invariant
            to <= s.len(),
            without_slashes(s@) == without_slashes(s@.take(to as int)),
        decreases to,
    {
        assert(s@.take(to as int).drop_last() == s@.take(to - 1));
        to -= 1;
    }
    let out = slice(s, 0, to);
    assert(out@ =~= s@.take(to as int));
    out
}

pub open spec fn is_nzb(row: DecisionRow) -> bool {
    match row.provider_kind {
        Some(k) => text::eq_fold(k@, "newznab"@),
        None => false,
    }
}

/// The query a key is sent in; nothing without a key.
pub open spec fn key_query(apikey: Option<&str>) -> Seq<char> {
    match apikey {
        Some(k) => if k@.len() > 0 {
            "?apikey="@ + k@
        } else {
            Seq::empty()
        },
        None => Seq::empty(),
    }
}

/// The proxy address of a decision's file.
pub open spec fn proxy_url(row: DecisionRow, base: Seq<char>, apikey: Option<&str>) -> Seq<char> {
    without_slashes(base) + (if is_nzb(row) {
        "/newznab"@
    } else {
        "/torznab"@
    }) + "/download/"@ + outside::hyphenated(row.id) + key_query(apikey)
}

/// Whether `p` is what a decision is pushed as.
pub open spec fn is_payload(
    p: PushReleasePayload,
    row: DecisionRow,
    base: Seq<char>,
    apikey: Option<&str>,
) -> bool {
    &&& p.title@ == row.release_name@
    &&& p.download_url@ == proxy_url(row, base, apikey)
    &&& p.protocol == if is_nzb(row) {
        Protocol::Usenet
    } else {
        Protocol::Torrent
    }
    &&& p.publish_date == match row.published_at {
        Some(t) => t,
        None => row.decided_at,
    }
    &&& p.size == row.size_bytes
    &&& p.indexer@ == "brarr"@
    &&& text::opt_view(p.info_url) == text::opt_view(row.details_url)
    &&& p.seeders == if is_nzb(row) {
        None
    } else {
        Some(row.seeders)
    }
    &&& p.leechers == if is_nzb(row) {
        None
    } else {
        Some(row.leechers)
    }
}

fn copy_text(o: &Option<String>) -> (r: Option<String>)
    ensures
        text::opt_view(r) == text::opt_view(*o),
{
    match o {
        Some(s) => Some(s.clone()),
        None => None,
    }
}

/// Translate a decision into what an instance is sent. The address leads
/// back to the download proxy of the release's transport, with the key in
/// its query, because a download client carries no header.
pub fn build_payload(
    row: &DecisionRow,
    public_base_url: &str,
    apikey: Option<&str>,
) -> (r: PushReleasePayload)
    ensures
        is_payload(r, *row, public_base_url@, apikey),
{
    let nzb = match &row.provider_kind {
        Some(k) => same_fold(&chars_of(k.as_str()), &chars_of("newznab")),
        None => false,
    };
    let mut url = drop_slashes(&chars_of(public_base_url));
    extend_str(
        &mut url,
        if nzb {
            "/newznab"
        } else {
            "/torznab"
        },
    );
    extend_str(&mut url, "/download/");
    extend_str(&mut url, format_uuid(row.id).as_str());
    let mut query: Vec<char> = Vec::new();
    if let Some(k) = apikey {
        if !k.is_empty() {
            query = chars_of("?apikey=");
            extend_str(&mut query, k);
        }
    }
    assert(query@ =~= key_query(apikey));
    extend(&mut url, &query);
    PushReleasePayload {
        title: row.release_name.clone(),
        download_url: string_of(&url),
        protocol: if nzb {
            Protocol::Usenet
        } else {
            Protocol::Torrent
        },
        publish_date: match row.published_at {
            Some(t) => t,
            None => row.decided_at,
        },
        size: row.size_bytes,
        indexer: "brarr".to_owned(),
        info_url: copy_text(&row.details_url),
        seeders: if nzb {
            None
        } else {
            Some(row.seeders)
        },
        leechers: if nzb {
            None
        } else {
            Some(row.leechers)
        },
    }
}

// ---------------------------------------------------------------------
// Rejections
// ---------------------------------------------------------------------

/// The strings among a list of values.
pub open spec fn strings(values: Seq<Seq<char>>) -> Seq<Seq<char>>
    decreases values.len(),
{
    if values.len() == 0 {
        Seq::empty()
    } else {
        match outside::string_in(values.last()) {
            Some(s) => strings(values.drop_last()).push(s),
            None => strings(values.drop_last()),
        }
    }
}

/// The reasons one release was rejected for; none when it lists none.
pub open spec fn reasons_of(release: Seq<char>) -> Seq<Seq<char>> {
    match outside::member_of(release, "rejections"@) {
        Some(member) => match outside::elements_of(member) {
            Some(values) => strings(values),
            None => Seq::empty(),
        },
        None => Seq::empty(),
    }
}

/// The reasons of all releases, in order.
pub open spec fn all_reasons(releases: Seq<Seq<char>>) -> Seq<Seq<char>>
    decreases releases.len(),
{
    if releases.len() == 0 {
        Seq::empty()
    } else {
        all_reasons(releases.drop_last()) + reasons_of(releases.last())
    }
}

/// The rejections an answer holds; `None` for a blank one and for one that
/// is no list of releases.
pub open spec fn rejections_of(body: Seq<char>) -> Option<Seq<Seq<char>>> {
    if text::trim(body).len() == 0 {
        None
    } else {
        match outside::elements_of(body) {
            Some(releases) => Some(all_reasons(releases)),
            None => None,
        }
    }
}

/// The lists one after another.
pub open spec fn flattened(lists: Seq<Vec<String>>) -> Seq<Seq<char>>
    decreases lists.len(),
{
    if lists.len() == 0 {
        Seq::empty()
    } else {
        flattened(lists.drop_last()) + text::views(lists.last()@)
    }
}

/// The reasons of all releases, given each release's own.
pub fn collect_rejections(lists: Vec<Vec<String>>) -> (r: Vec<String>)
    ensures
        text::views(r@) == flattened(lists@),
{
    let ghost all = lists@;
    let n: usize = lists.len();
    let mut rest = lists;
    let mut out: Vec<String> = Vec::new();
    let mut i: usize = 0;
    while i < n
        invariant
            n == all.len(),
            i <= n,
            rest@ == all.skip(i as int),
            text::views(out@) == flattened(all.take(i as int)),
        decreases n - i,
    {
        assert(all.take(i + 1).drop_last() =~= all.take(i as int));
        assert(rest@[0] == all[i as int]);
        let mut more = rest.remove(0);
        assert(rest@ =~= all.skip(i + 1));
        let ghost held = out@;
        let ghost added = more@;
        out.append(&mut more);
        assert(text::views(held + added) =~= text::views(held) + text::views(added));
        i += 1;
    }
    assert(all.take(n as int) =~= all);
    out
}

fn release_reasons(release: &str) -> (r: Vec<String>)
    ensures
        text::views(r@) == reasons_of(release@),
{
    let mut out: Vec<String> = Vec::new();
    let member = match json_member(release, "rejections") {
        Some(m) => m,
        None => {
            assert(text::views(out@) =~= Seq::empty());
            return out;
        },
    };
    let values = match json_elements(member.as_str()) {
        Some(v) => v,
        None => {
            assert(text::views(out@) =~= Seq::empty());
            return out;
        },
    };
    let ghost all = text::views(values@);
    let mut i: usize = 0;
    while i < values.len()
        invariant
            i <= values.len(),
            all == text::views(values@),
            text::views(out@) == strings(all.take(i as int)),
        decreases values.len() - i,
    {
        assert(all.take(i + 1).drop_last() =~= all.take(i as int));
        assert(all.take(i + 1).last() == values@[i as int]@);
        let ghost before = text::views(out@);
        if let Some(s) = json_string(values[i].as_str()) {
            out.push(s);
            assert(text::views(out@) =~= before.push(s@));
        }
        i += 1;
    }
    assert(all.take(values.len() as int) =~= all);
    out
}

/// Mine the rejections out of an instance's answer: an empty list for a
/// clean accept, the reasons in order when releases carry some, and `None`
/// when the answer is no list of releases.
pub fn extract_rejections(body: &str) -> (r: Option<Vec<String>>)
    ensures
        outside::list_view(r) == rejections_of(body@),
{
    if trimmed_str(body).len() == 0 {
        return None;
    }
    let releases = match json_elements(body) {
        Some(v) => v,
        None => {
            return None;
        },
    };
    let ghost all = text::views(releases@);
    let mut lists: Vec<Vec<String>> = Vec::new();
    let mut i: usize = 0;
    while i < releases.len()
        invariant
            i <= releases.len(),
            all == text::views(releases@),
            flattened(lists@) == all_reasons(all.take(i as int)),
        decreases releases.len() - i,
    {
        assert(all.take(i + 1).drop_last() =~= all.take(i as int));
        assert(all.take(i + 1).last() == releases@[i as int]@);
        let ghost before = lists@;
        let one = release_reasons(releases[i].as_str());
        lists.push(one);
        assert(lists@.drop_last() =~= before);
        i += 1;
    }
    assert(all.take(releases.len() as int) =~= all);
    Some(collect_rejections(lists))
}

// ---------------------------------------------------------------------
// Recording
// ---------------------------------------------------------------------

/// How pushing to an instance ended.
#[derive(Debug, Clone)]
pub enum PushReply {
    /// No client could be built; the text is why.
    NoClient(String),
    /// The instance took the request, with this answer.
    Accepted(String),
    /// The instance answered with an error status and this body.
    Http(u16, String),
    /// The instance could not be reached; the text is why.
    Transport(String),
}

/// The instance a push goes to.
#[derive(Debug, Clone)]
pub struct ArrTarget {
    pub id: u128,
    pub name: String,
    pub kind: ArrKind,
}

/// Whether `row` records this reply: always, and in the same words whether
/// the push worked or not.
pub open spec fn records(
    row: NewPushHistory,
    decision_id: u128,
    arr: ArrTarget,
    reply: PushReply,
) -> bool {
    &&& row.decision_id == decision_id
    &&& row.arr_instance_id == arr.id
    &&& row.arr_instance_name@ == arr.name@
    &&& row.arr_kind == arr.kind
    &&& match reply {
        PushReply::NoClient(why) => {
            &&& row.status == PushStatus::TransportError
            &&& row.http_status is None
            &&& text::opt_view(row.response_body) == Some("client builder: "@ + why@)
            &&& row.rejections is None
        },
        PushReply::Accepted(body) => {
            &&& row.status == PushStatus::Accepted
            &&& row.http_status == Some(200u16)
            &&& text::opt_view(row.response_body) == if body@.len() == 0 {
                None
            } else {
                Some(body@)
            }
            &&& outside::list_view(row.rejections) == rejections_of(body@)
        },
        PushReply::Http(status, body) => {
            &&& row.status == PushStatus::HttpError
            &&& row.http_status == Some(status)
            &&& text::opt_view(row.response_body) == Some(body@)
            &&& outside::list_view(row.rejections) == rejections_of(body@)
        },
        PushReply::Transport(why) => {
            &&& row.status == PushStatus::TransportError
            &&& row.http_status is None
            &&& text::opt_view(row.response_body) == Some(why@)
            &&& row.rejections is None
        },
    }
}

/// The history row of a push. Every attempt leaves one, whatever the
/// instance answered.
pub fn push_decision(decision_id: u128, arr: &ArrTarget, reply: PushReply) -> (r: NewPushHistory)
    ensures
        records(r, decision_id, *arr, reply),
{
    let (status, http_status, response_body, rejections): (
        PushStatus,
        Option<u16>,
        Option<String>,
        Option<Vec<String>>,
    ) = match reply {
        PushReply::NoClient(why) => {
            let mut out = chars_of("client builder: ");
            extend_str(&mut out, why.as_str());
            (PushStatus::TransportError, None, Some(string_of(&out)), None)
        },
        PushReply::Accepted(body) => {
            let found = extract_rejections(body.as_str());
            let kept = if body.as_str().is_empty() {
                None
            } else {
                Some(body)
            };
            (PushStatus::Accepted, Some(200), kept, found)
        },
        PushReply::Http(code, body) => {
            let found = extract_rejections(body.as_str());
            (PushStatus::HttpError, Some(code), Some(body), found)
        },
        PushReply::Transport(why) => (PushStatus::TransportError, None, Some(why), None),
    };
    NewPushHistory {
        decision_id,
        arr_instance_id: arr.id,
        arr_instance_name: arr.name.clone(),
        arr_kind: arr.kind,
        status,
        http_status,
        response_body,
        rejections,
    }
}

// ---------------------------------------------------------------------
// Origins
// ---------------------------------------------------------------------

/// An origin as configured: without slashes at its end, and none when that
/// leaves nothing.
pub open spec fn origin(configured: Option<&str>) -> Option<Seq<char>> {
    match configured {
        Some(s) => if without_slashes(s@).len() > 0 {
            Some(without_slashes(s@))
        } else {
            None
        },
        None => None,
    }
}

/// The origin an environment variable names.
pub fn env_public_base_url(value: Option<&str>) -> (r: Option<String>)
    ensures
        text::opt_view(r) == origin(value),
{
    match value {
        Some(s) => {
            let cut = drop_slashes(&chars_of(s));
            if cut.len() > 0 {
                Some(string_of(&cut))
            } else {
                None
            }
        },
        None => None,
    }
}

/// The origin that is configured: the setting first, then the environment.
pub open spec fn is_state_origin(
    r: Option<String>,
    setting: Option<&str>,
    env: Option<&str>,
) -> bool {
    text::opt_view(r) == match origin(setting) {
        Some(u) => Some(u),
        None => origin(env),
    }
}

/// The externally reachable origin: the setting first, then the
/// environment.
pub fn state_public_base_url(setting: Option<&str>, env: Option<&str>) -> (r: Option<String>)
    ensures
        is_state_origin(r, setting, env),
{
    match env_public_base_url(setting) {
        Some(u) => Some(u),
        None => env_public_base_url(env),
    }
}

/// The origin the poller uses.
pub open spec fn is_poll_origin(r: String, env: Option<&str>) -> bool {
    r@ == match origin(env) {
        Some(u) => u,
        None => "http://127.0.0.1:3000"@,
    }
}

/// The origin the poller uses, which has no request to read one from.
pub fn poll_base_url(env: Option<&str>) -> (r: String)
    ensures
        is_poll_origin(r, env),
{
    match env_public_base_url(env) {
        Some(u) => u,
        None => "http://127.0.0.1:3000".to_owned(),
    }
}

/// A request header, as far as it can be read as text.
#[derive(Debug, Clone, Copy)]
pub enum Header<'a> {
    /// The request does not carry it.
    Absent,
    /// It is not text.
    Unreadable,
    /// Its text.
    Text(&'a str),
}

pub open spec fn header_or(h: Header, default: Seq<char>) -> Seq<char> {
    match h {
        Header::Text(s) => s@,
        _ => default,
    }
}

/// The origin a request is answered through.
pub open spec fn is_request_origin(
    r: String,
    setting: Option<&str>,
    env: Option<&str>,
    forwarded_proto: Header,
    forwarded_host: Header,
    host: Header,
) -> bool {
    r@ == match origin(setting) {
        Some(u) => u,
        None => match origin(env) {
            Some(u) => u,
            None => header_or(forwarded_proto, "http"@) + "://"@ + header_or(
                if forwarded_host is Absent {
                    host
                } else {
                    forwarded_host
                },
                "127.0.0.1:3000"@,
            ),
        },
    }
}

/// The origin a request is answered through: the configured one, and
/// otherwise what the request itself says. A forwarded host that cannot be
/// read is not replaced by the plain one.
pub fn derive_request_base(
    setting: Option<&str>,
    env: Option<&str>,
    forwarded_proto: Header,
    forwarded_host: Header,
    host: Header,
) -> (r: String)
    ensures
        is_request_origin(r, setting, env, forwarded_proto, forwarded_host, host),
{
    if let Some(u) = state_public_base_url(setting, env) {
        return u;
    }
    let scheme = match forwarded_proto {
        Header::Text(s) => s,
        _ => "http",
    };
    let named = match forwarded_host {
        Header::Absent => host,
        other => other,
    };
    let at = match named {
        Header::Text(s) => s,
        _ => "127.0.0.1:3000",
    };
    let mut out = chars_of(scheme);
    extend_str(&mut out, "://");
    extend_str(&mut out, at);
    string_of(&out)
}

} // verus!
