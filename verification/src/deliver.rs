//! Handing a reserved grab to a download client.
//!
//! A failed hand-off has two opposite remedies. When the release is fine and
//! the client, the network or the configuration is not, the reservation is
//! released, so the same release can be tried again. When trying again would
//! fail the same way, the grab is marked failed and keeps its key, so the
//! scanner moves on to the next release.

use vstd::prelude::*;

use crate::error::AppError;
use crate::text;
use crate::text::{chars_of, decimal_of, extend, extend_str, starts, string_of};

verus! {

/// Ceiling on a fetched release file, in bytes: 8 MiB.
pub const MAX_RELEASE_FILE_BYTES: usize = 8_388_608;

/// Timeout for fetching the release file, in seconds.
pub const FETCH_TIMEOUT: u64 = 30;

/// Result of one hand-off attempt.
#[derive(Debug, Clone)]
pub enum DeliveryOutcome {
    /// The client accepted the release.
    Sent {
        /// Which client took it.
        client_name: String,
        /// Client-side handle, when the client returns one.
        client_item_id: Option<String>,
    },
    /// Failed for a reason that may not repeat; the reservation is released.
    Retryable(String),
    /// Failed for a reason that will repeat; the grab keeps its key.
    Permanent(String),
}

pub open spec fn reason_text(o: DeliveryOutcome) -> Seq<char> {
    match o {
        DeliveryOutcome::Sent { .. } => ""@,
        DeliveryOutcome::Retryable(r) => r@,
        DeliveryOutcome::Permanent(r) => r@,
    }
}

impl DeliveryOutcome {
    /// `true` when the client accepted the release.
    pub fn is_sent(&self) -> (r: bool)
        ensures
            r == (self is Sent),
    {
        match self {
            DeliveryOutcome::Sent { .. } => true,
            _ => false,
        }
    }

    /// Operator-facing reason, empty on success.
    pub fn reason(&self) -> (r: &str)
        ensures
            r@ == reason_text(*self),
    {
        match self {
            DeliveryOutcome::Sent { .. } => "",
            DeliveryOutcome::Retryable(r) => r.as_str(),
            DeliveryOutcome::Permanent(r) => r.as_str(),
        }
    }
}

/// How a grab came to be, and what it travels over.
#[derive(Debug, Clone, Copy, PartialEq, Eq, Structural)]
pub enum GrabProtocol {
    Torrent,
    Usenet,
    /// An adopted file, which was never downloaded.
    Local,
}

/// The transport a download client serves.
#[derive(Debug, Clone, Copy, PartialEq, Eq, Structural)]
pub enum Transport {
    Torrent,
    Usenet,
}

/// The transport a grab travels over.
pub open spec fn is_transport(r: Option<Transport>, grab: GrabProtocol) -> bool {
    r == match grab {
        GrabProtocol::Torrent => Some(Transport::Torrent),
        GrabProtocol::Usenet => Some(Transport::Usenet),
        GrabProtocol::Local => None,
    }
}

/// The transport a grab travels over; a local file has none.
pub fn protocol(grab: GrabProtocol) -> (r: Option<Transport>)
    ensures
        is_transport(r, grab),
{
    match grab {
        GrabProtocol::Torrent => Some(Transport::Torrent),
        GrabProtocol::Usenet => Some(Transport::Usenet),
        GrabProtocol::Local => None,
    }
}

pub open spec fn transport_label(t: Transport) -> Seq<char> {
    match t {
        Transport::Torrent => "torrent"@,
        Transport::Usenet => "usenet"@,
    }
}

impl Transport {
    /// Persisted label.
    pub fn label(self) -> (r: &'static str)
        ensures
            r@ == transport_label(self),
    {
        match self {
            Transport::Torrent => "torrent",
            Transport::Usenet => "usenet",
        }
    }
}

// ---------------------------------------------------------------------
// Where a grab goes
// ---------------------------------------------------------------------

/// What delivering starts with.
#[derive(Debug, Clone)]
pub enum Route {
    /// Fetch the release file from this address first.
    Fetch(Transport, String),
    /// Hand this magnet over as it is.
    Magnet(Transport, String),
    /// There is nothing to hand over or nobody to hand it to.
    Ended(DeliveryOutcome),
}

/// Whether `r` is how delivering a grab starts: not at all while paused, a
/// local file has nothing to deliver, and neither a transport that no client
/// serves nor a missing address is worth retrying; asked in that order.
pub open spec fn is_route(
    r: Route,
    paused: bool,
    grab: GrabProtocol,
    has_client: bool,
    url: Option<&str>,
) -> bool {
    if paused {
        r matches Route::Ended(DeliveryOutcome::Retryable(m)) && m@
            == "o brarr está pausado — nada é entregue a cliente de download"@
    } else if grab == GrabProtocol::Local {
        r matches Route::Ended(DeliveryOutcome::Permanent(m)) && m@
            == "um arquivo local já está no disco — não há o que entregar"@
    } else {
        let transport = if grab == GrabProtocol::Torrent {
            Transport::Torrent
        } else {
            Transport::Usenet
        };
        if !has_client {
            r matches Route::Ended(DeliveryOutcome::Permanent(m)) && m@
                == "nenhum cliente de download ativo para "@ + transport_label(transport)
        } else {
            match url {
                None => r matches Route::Ended(DeliveryOutcome::Permanent(m)) && m@
                    == "a release não expôs URL de download"@,
                Some(u) => if text::has_prefix(u@, "magnet:"@) {
                    r matches Route::Magnet(t, m) && t == transport && m@ == u@
                } else {
                    r matches Route::Fetch(t, m) && t == transport && m@ == u@
                },
            }
        }
    }
}

/// How delivering a grab starts.
pub fn deliver(
    paused: bool,
    grab: GrabProtocol,
    has_client: bool,
    url: Option<&str>,
) -> (r: Route)
    ensures
        is_route(r, paused, grab, has_client, url),
{
    if paused {
        return Route::Ended(
            DeliveryOutcome::Retryable(
                "o brarr está pausado — nada é entregue a cliente de download".to_owned(),
            ),
        );
    }
    let transport = match protocol(grab) {
        Some(t) => t,
        None => {
            return Route::Ended(
                DeliveryOutcome::Permanent(
                    "um arquivo local já está no disco — não há o que entregar".to_owned(),
                ),
            );
        },
    };
    if !has_client {
        let mut out = chars_of("nenhum cliente de download ativo para ");
        extend_str(&mut out, transport.label());
        return Route::Ended(DeliveryOutcome::Permanent(string_of(&out)));
    }
    match url {
        None => Route::Ended(
            DeliveryOutcome::Permanent("a release não expôs URL de download".to_owned()),
        ),
        Some(u) => if starts(&chars_of(u), &chars_of("magnet:")) {
            Route::Magnet(transport, u.to_owned())
        } else {
            Route::Fetch(transport, u.to_owned())
        },
    }
}

// ---------------------------------------------------------------------
// The release file
// ---------------------------------------------------------------------

/// What `String::from_utf8_lossy` makes of bytes.
pub uninterp spec fn lossy_text(bytes: Seq<u8>) -> Seq<char>;

/// What the `Debug` form of a string is.
pub uninterp spec fn quoted_text(s: Seq<char>) -> Seq<char>;

/// `String::from_utf8_lossy`: the text of the bytes, with what is not UTF-8
/// replaced.
#[verifier::external_body]
fn lossy(bytes: &[u8]) -> (r: String)
    ensures
        r@ == lossy_text(bytes@),
{
    String::from_utf8_lossy(bytes).into_owned()
}

/// The `Debug` form of a string: in quotes, with escapes.
#[verifier::external_body]
pub(crate) fn quoted(s: &str) -> (r: String)
    ensures
        r@ == quoted_text(s@),
{
    format!("{s:?}")
}

/// ASCII white space: space, tab, line feed, form feed, carriage return.
pub open spec fn is_blank_byte(b: u8) -> bool {
    b == 0x20 || b == 0x09 || b == 0x0A || b == 0x0C || b == 0x0D
}

/// The bytes from the first that is not white space on.
pub open spec fn skip_blank(bytes: Seq<u8>) -> Seq<u8>
    decreases bytes.len(),
{
    if bytes.len() > 0 && is_blank_byte(bytes[0]) {
        skip_blank(bytes.skip(1))
    } else {
        bytes
    }
}

/// The bytes without a UTF-8 byte order mark at their start.
pub open spec fn without_mark(bytes: Seq<u8>) -> Seq<u8> {
    if bytes.len() >= 3 && bytes[0] == 0xEF && bytes[1] == 0xBB && bytes[2] == 0xBF {
        bytes.skip(3)
    } else {
        bytes
    }
}

/// The bytes after a byte order mark and white space.
pub open spec fn content(bytes: Seq<u8>) -> Seq<u8> {
    skip_blank(without_mark(bytes))
}

/// Whether the content starts as the transport's files do: a bencoded
/// torrent with `d`, an nzb with `<`.
pub open spec fn is_release_file(bytes: Seq<u8>, transport: Transport) -> bool {
    let c = content(bytes);
    c.len() > 0 && match transport {
        Transport::Torrent => c[0] == 0x64,
        Transport::Usenet => c[0] == 0x3C,
    }
}

/// Where the content starts: past a byte order mark and white space.
pub fn trim_leading(bytes: &[u8]) -> (r: usize)
    ensures
        r <= bytes.len(),
        bytes@.skip(r as int) == content(bytes@),
{
    let n: usize = bytes.len();
    let mut i: usize = 0;
    if n >= 3 && bytes[0] == 0xEF && bytes[1] == 0xBB && bytes[2] == 0xBF {
        i = 3;
    }
    assert(bytes@.skip(0) =~= bytes@);
    let ghost start = without_mark(bytes@);
    assert(bytes@.skip(i as int) == start);
    while i < n && (bytes[i] == 0x20 || bytes[i] == 0x09 || bytes[i] == 0x0A || bytes[i] == 0x0C
        || bytes[i] == 0x0D)
        invariant
            n == bytes.len(),
            i <= n,
            skip_blank(start) == skip_blank(bytes@.skip(i as int)),
        decreases n - i,
    {
        assert(bytes@.skip(i as int)[0] == bytes@[i as int]);
        assert(bytes@.skip(i as int).skip(1) =~= bytes@.skip(i + 1));
        i += 1;
    }
    if i < n {
        assert(bytes@.skip(i as int)[0] == bytes@[i as int]);
    }
    i
}

/// Cheap shape check on fetched bytes: trackers answer an expired session
/// with a login page and a success status.
pub fn looks_like(bytes: &[u8], transport: Transport) -> (r: bool)
    ensures
        r == is_release_file(bytes@, transport),
{
    let at: usize = trim_leading(bytes);
    if at >= bytes.len() {
        return false;
    }
    assert(content(bytes@)[0] == bytes@[at as int]);
    match transport {
        Transport::Torrent => bytes[at] == 0x64,
        Transport::Usenet => bytes[at] == 0x3C,
    }
}

/// The text of the first bytes.
pub open spec fn is_preview(r: String, bytes: Seq<u8>) -> bool {
    r@ == lossy_text(
        bytes.take(
            if bytes.len() < 24 {
                bytes.len() as int
            } else {
                24
            },
        ),
    )
}

/// The first bytes as text, for the message.
pub fn preview(bytes: &[u8]) -> (r: String)
    ensures
        is_preview(r, bytes@),
{
    let end: usize = if bytes.len() < 24 {
        bytes.len()
    } else {
        24
    };
    let head = vstd::slice::slice_subrange(bytes, 0, end);
    assert(head@ =~= bytes@.take(end as int));
    lossy(head)
}

pub open spec fn kind_text(transport: Transport) -> Seq<char> {
    match transport {
        Transport::Torrent => ".torrent"@,
        Transport::Usenet => ".nzb"@,
    }
}

/// The kind of file a transport's release is.
pub fn expected_kind(transport: Transport) -> (r: &'static str)
    ensures
        r@ == kind_text(transport),
{
    match transport {
        Transport::Torrent => ".torrent",
        Transport::Usenet => ".nzb",
    }
}

/// Whether `r` says that a status is a success.
pub open spec fn is_good(r: bool, code: u16) -> bool {
    r == (200 <= code <= 299)
}

/// Whether a status is a success.
pub fn is_success(code: u16) -> (r: bool)
    ensures
        is_good(r, code),
{
    200 <= code && code <= 299
}

/// Whether `r` says that another chunk still fits.
pub open spec fn is_fitting(r: bool, read: usize, chunk: usize) -> bool {
    r == (read + chunk <= MAX_RELEASE_FILE_BYTES)
}

/// Whether another chunk still fits under the ceiling.
pub fn fits(read: usize, chunk: usize) -> (r: bool)
    ensures
        is_fitting(r, read, chunk),
{
    read <= MAX_RELEASE_FILE_BYTES && chunk <= MAX_RELEASE_FILE_BYTES - read
}

/// How fetching the release file went.
#[derive(Debug, Clone)]
pub enum FetchReply {
    /// No HTTP client could be built; the text is why.
    NoClient(String),
    /// The request failed; the text is why.
    Unreachable(String),
    /// The provider answered with this status.
    Status(u16),
    /// Reading the answer failed; the text is why.
    Interrupted(String),
    /// The answer is larger than the ceiling.
    TooLarge,
    /// The answer's bytes.
    Body(Vec<u8>),
}

/// Why a fetch failed, in the same two flavours as a delivery.
#[derive(Debug, Clone)]
pub enum FetchFailure {
    Transient(String),
    Permanent(String),
}

/// The sentence for content that is no release file.
pub open spec fn wrong_content(bytes: Seq<u8>, transport: Transport) -> Seq<char> {
    "o conteúdo baixado não é um "@ + kind_text(transport) + " (começa com "@ + quoted_text(
        lossy_text(
            bytes.take(
                if bytes.len() < 24 {
                    bytes.len() as int
                } else {
                    24
                },
            ),
        ),
    ) + ") — o provider provavelmente devolveu uma página de erro com status 200"@
}

/// What fetching the release file comes to.
pub open spec fn is_fetched(
    r: Result<Vec<u8>, FetchFailure>,
    reply: FetchReply,
    transport: Transport,
) -> bool {
    match reply {
        FetchReply::NoClient(why) => r matches Err(FetchFailure::Transient(m)) && m@
            == "cliente HTTP: "@ + why@,
        FetchReply::Unreachable(why) => r matches Err(FetchFailure::Transient(m)) && m@
            == "baixando a release: "@ + why@,
        FetchReply::Status(code) => r matches Err(FetchFailure::Permanent(m)) && m@
            == "o provider respondeu HTTP "@ + text::decimal(code as nat)
            + " ao baixar a release"@,
        FetchReply::Interrupted(why) => r matches Err(FetchFailure::Transient(m)) && m@
            == "lendo a release: "@ + why@,
        FetchReply::TooLarge => r matches Err(FetchFailure::Permanent(m)) && m@
            == "arquivo maior que o limite de "@ + text::decimal(8)
            + " MiB — a URL provavelmente não aponta para um "@ + kind_text(transport),
        FetchReply::Body(bytes) => if is_release_file(bytes@, transport) {
            r matches Ok(b) && b == bytes
        } else {
            r matches Err(FetchFailure::Permanent(m)) && m@ == wrong_content(bytes@, transport)
        },
    }
}

/// Judge what a fetch brought: a network failure is transient; an error
/// status, an answer past the ceiling and content that is no release file
/// are permanent.
pub fn fetch_release_file(reply: FetchReply, transport: Transport) -> (r: Result<
    Vec<u8>,
    FetchFailure,
>)
    ensures
        is_fetched(r, reply, transport),
{
    match reply {
        FetchReply::NoClient(why) => {
            let mut out = chars_of("cliente HTTP: ");
            extend_str(&mut out, why.as_str());
            Err(FetchFailure::Transient(string_of(&out)))
        },
        FetchReply::Unreachable(why) => {
            let mut out = chars_of("baixando a release: ");
            extend_str(&mut out, why.as_str());
            Err(FetchFailure::Transient(string_of(&out)))
        },
        FetchReply::Status(code) => {
            let mut out = chars_of("o provider respondeu HTTP ");
            extend(&mut out, &decimal_of(code as u64));
            extend_str(&mut out, " ao baixar a release");
            Err(FetchFailure::Permanent(string_of(&out)))
        },
        FetchReply::Interrupted(why) => {
            let mut out = chars_of("lendo a release: ");
            extend_str(&mut out, why.as_str());
            Err(FetchFailure::Transient(string_of(&out)))
        },
        FetchReply::TooLarge => {
            let mut out = chars_of("arquivo maior que o limite de ");
            extend(&mut out, &decimal_of(8));
            extend_str(&mut out, " MiB — a URL provavelmente não aponta para um ");
            extend_str(&mut out, expected_kind(transport));
            Err(FetchFailure::Permanent(string_of(&out)))
        },
        FetchReply::Body(bytes) => {
            if looks_like(&bytes, transport) {
                return Ok(bytes);
            }
            let mut out = chars_of("o conteúdo baixado não é um ");
            extend_str(&mut out, expected_kind(transport));
            extend_str(&mut out, " (começa com ");
            extend_str(&mut out, quoted(preview(&bytes).as_str()).as_str());
            extend_str(
                &mut out,
                ") — o provider provavelmente devolveu uma página de erro com status 200",
            );
            Err(FetchFailure::Permanent(string_of(&out)))
        },
    }
}

/// What a failed fetch makes of the delivery.
pub open spec fn is_fetch_end(r: DeliveryOutcome, failure: FetchFailure) -> bool {
    match failure {
        FetchFailure::Transient(why) => r matches DeliveryOutcome::Retryable(m) && m == why,
        FetchFailure::Permanent(why) => r matches DeliveryOutcome::Permanent(m) && m == why,
    }
}

/// What a failed fetch means for the delivery.
pub fn fetch_outcome(failure: FetchFailure) -> (r: DeliveryOutcome)
    ensures
        is_fetch_end(r, failure),
{
    match failure {
        FetchFailure::Transient(why) => DeliveryOutcome::Retryable(why),
        FetchFailure::Permanent(why) => DeliveryOutcome::Permanent(why),
    }
}

// ---------------------------------------------------------------------
// The client
// ---------------------------------------------------------------------

/// What a download client's error is about.
#[derive(Debug, Clone, Copy, PartialEq, Eq, Structural)]
pub enum ClientFault {
    /// It could not be reached.
    Transport,
    /// It refused the credentials.
    Auth,
    /// Its address is no address.
    InvalidUrl,
    /// It answered with an error.
    Http,
    /// Its answer could not be read.
    Decode,
    /// It cannot do this as it is configured.
    Config,
}

/// Whether the release is innocent of a fault.
pub open spec fn is_innocent(fault: ClientFault) -> bool {
    fault == ClientFault::Transport || fault == ClientFault::Auth || fault
        == ClientFault::InvalidUrl
}

/// What a client's error makes of the delivery.
pub open spec fn is_classified(
    r: DeliveryOutcome,
    client_name: &str,
    fault: ClientFault,
    error: &str,
) -> bool {
    if is_innocent(fault) {
        r matches DeliveryOutcome::Retryable(m) && m@ == client_name@ + ": "@ + error@
    } else {
        r matches DeliveryOutcome::Permanent(m) && m@ == client_name@ + ": "@ + error@
    }
}

/// Map a client error onto the retry decision: an unreachable client, wrong
/// credentials and a wrong address do not blacklist the release.
pub fn classify_client_error(client_name: &str, fault: ClientFault, error: &str) -> (r:
    DeliveryOutcome)
    ensures
        is_classified(r, client_name, fault, error),
{
    let mut out = chars_of(client_name);
    extend_str(&mut out, ": ");
    extend_str(&mut out, error);
    let detail = string_of(&out);
    match fault {
        ClientFault::Transport | ClientFault::Auth | ClientFault::InvalidUrl => {
            DeliveryOutcome::Retryable(detail)
        },
        ClientFault::Http | ClientFault::Decode | ClientFault::Config => {
            DeliveryOutcome::Permanent(detail)
        },
    }
}

/// What the download client made of a release.
#[derive(Debug, Clone)]
pub enum ClientAnswer {
    /// No client could be built from its row; the text is why.
    NoClient(String),
    /// It took the release, with a handle if it gave one.
    Added(Option<String>),
    /// It failed, for this reason and with these words.
    Refused(ClientFault, String),
}

/// What a client's answer makes of the delivery.
pub open spec fn is_handed(r: DeliveryOutcome, client_name: &str, answer: ClientAnswer) -> bool {
    match answer {
        ClientAnswer::NoClient(why) => r matches DeliveryOutcome::Retryable(m) && m@
            == client_name@ + ": "@ + why@,
        ClientAnswer::Added(handle) => r matches DeliveryOutcome::Sent {
            client_name: n,
            client_item_id,
        } && n@ == client_name@ && client_item_id == handle,
        ClientAnswer::Refused(fault, why) => if is_innocent(fault) {
            r matches DeliveryOutcome::Retryable(m) && m@ == client_name@ + ": "@ + why@
        } else {
            r matches DeliveryOutcome::Permanent(m) && m@ == client_name@ + ": "@ + why@
        },
    }
}

/// What the client's answer means for the delivery. A client that cannot be
/// built is a configuration problem, not a bad release.
pub fn hand_over(client_name: &str, answer: ClientAnswer) -> (r: DeliveryOutcome)
    ensures
        is_handed(r, client_name, answer),
{
    match answer {
        ClientAnswer::NoClient(why) => {
            let mut out = chars_of(client_name);
            extend_str(&mut out, ": ");
            extend_str(&mut out, why.as_str());
            DeliveryOutcome::Retryable(string_of(&out))
        },
        ClientAnswer::Added(handle) => DeliveryOutcome::Sent {
            client_name: client_name.to_owned(),
            client_item_id: handle,
        },
        ClientAnswer::Refused(fault, why) => classify_client_error(
            client_name,
            fault,
            why.as_str(),
        ),
    }
}

/// What a delivery writes on the grab's row.
#[derive(Debug, Clone)]
pub enum GrabWrite {
    /// The client holds it, under this handle.
    MarkSent {
        client_id: u128,
        client_item_id: Option<String>,
    },
    /// The reservation goes, and with it the key.
    Release,
    /// The grab has failed and keeps its key.
    Fail(String),
}

/// Whether `r` is what an outcome writes on the grab's row: a retryable
/// failure frees the key, a permanent one keeps it occupied. A release cannot
/// be sent without a client.
pub open spec fn is_write(
    r: Result<GrabWrite, AppError>,
    client_id: Option<u128>,
    outcome: DeliveryOutcome,
) -> bool {
    match outcome {
        DeliveryOutcome::Sent { client_item_id, .. } => match client_id {
            Some(id) => r matches Ok(GrabWrite::MarkSent { client_id: c, client_item_id: h })
                && c == id && text::opt_view(h) == text::opt_view(client_item_id),
            None => r matches Err(AppError::InvalidInput(m)) && m@
                == "delivery reported sent without a client"@,
        },
        DeliveryOutcome::Retryable(_) => r matches Ok(GrabWrite::Release),
        DeliveryOutcome::Permanent(why) => r matches Ok(GrabWrite::Fail(m)) && m@ == why@,
    }
}

/// What an outcome writes on the grab's row.
pub fn record_inner(client_id: Option<u128>, outcome: &DeliveryOutcome) -> (r: Result<
    GrabWrite,
    AppError,
>)
    ensures
        is_write(r, client_id, *outcome),
{
    match outcome {
        DeliveryOutcome::Sent { client_item_id, .. } => match client_id {
            Some(id) => Ok(
                GrabWrite::MarkSent {
                    client_id: id,
                    client_item_id: match client_item_id {
                        Some(h) => Some(h.clone()),
                        None => None,
                    },
                },
            ),
            None => Err(
                AppError::InvalidInput("delivery reported sent without a client".to_owned()),
            ),
        },
        DeliveryOutcome::Retryable(_) => Ok(GrabWrite::Release),
        DeliveryOutcome::Permanent(why) => Ok(GrabWrite::Fail(why.clone())),
    }
}

/// A pause consumes no key: whatever the grab, a paused delivery is
/// retryable, so its reservation is released.
pub proof fn a_pause_leaves_nothing_behind(
    r: Route,
    grab: GrabProtocol,
    has_client: bool,
    url: Option<&str>,
)
    requires
        is_route(r, true, grab, has_client, url),
    ensures
        r matches Route::Ended(o) && o is Retryable,
{
}

/// A transport that no client serves fails the grab for good and keeps its
/// key, so that the scanner moves on to the next release.
pub proof fn an_unserved_transport_keeps_the_key(
    r: Route,
    grab: GrabProtocol,
    url: Option<&str>,
    client_id: Option<u128>,
    write: Result<GrabWrite, AppError>,
)
    requires
        is_route(r, false, grab, false, url),
        grab != GrabProtocol::Local,
        is_write(write, client_id, r->Ended_0),
    ensures
        r matches Route::Ended(o) && o is Permanent,
        write matches Ok(w) && w is Fail,
{
}

} // verus!
