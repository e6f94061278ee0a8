//! The synchronization engine's dealings with the remote service: the retry
//! policy of the rate-limited request layer, the parsing of the embedded
//! page-data blobs, the pagination protocol that assembles the full item map,
//! and the per-item download decisions. The HTTP requests themselves are made
//! outside the library, which decides what to send and what each response
//! means.

pub mod structs;

use vstd::prelude::*;
use crate::util::push_char;

verus! {

use crate::api::structs::digital_item::DigitalItem;
use crate::api::structs::digital_item::DigitalItemDownload;
use crate::api::structs::CollectionData;
use crate::api::structs::DownloadsMap;
use crate::api::structs::FanData;
use crate::api::structs::Item;
use crate::api::structs::ItemCache;
use crate::api::structs::ParsedCollectionItems;
use crate::api::structs::ParsedFanpageData;
use crate::api::structs::ParsedItemsData;
use crate::api::structs::CollectionDataView;
use crate::api::structs::CollectionPageView;
use crate::api::structs::FanDataView;
use crate::api::structs::FanpageView;
use crate::api::structs::ItemView;
use crate::blob::extract_page_title;
use crate::blob::extract_pagedata_blob;
use crate::blob::json_of;
use crate::blob::json_view;
use crate::blob::json_views;
use crate::blob::lemma_entry_views_index;
use crate::blob::lemma_json_views_index;
use crate::blob::entry_views;
use crate::blob::page_title_of;
use crate::blob::pagedata_blob_of;
use crate::blob::parse_json;
use crate::blob::spec_get;
use crate::blob::JsonValue;
use crate::blob::JsonView;
use crate::api::structs::digital_item::DigitalItemView;
use crate::util::lemma_find_sub_is;
use crate::util::occurrence_at;
use crate::util::split_on;
use crate::util::starts_with;
use crate::util::trim_quotes;

/// How often a request may be retried after the remote service reports too
/// many requests, beyond the first attempt.
pub const MAX_RETRIES: u8 = 5;

/// How many requests the shared rate limiter admits per second.
pub const REQUESTS_PER_SECOND: u32 = 3;

/// How long a worker sleeps after the remote service reports too many
/// requests, in seconds.
pub const RETRY_COOLDOWN_SECS: u64 = 10;

/// The status with which the remote service reports too many requests.
pub const TOO_MANY_REQUESTS: u16 = 429;

/// Everything that can go wrong between the engine and the remote service or
/// the local disk.
#[derive(Debug, Clone)]
pub enum ApiError {
    /// A response with a status that is neither success nor too-many-requests.
    RequestFailed { status: u16, url: String },
    /// Too-many-requests responses outlasted every retry.
    RateLimitExceeded { url: String },
    /// An embedded data blob was absent where required, or not of the shape
    /// the service documents.
    ParseFailure,
    /// The landing page does not belong to the authenticated fan.
    AccessDenied,
    /// The chosen audio format is not among an item's downloads.
    MissingDownloadFormat,
    /// An item declares no downloads at all.
    NoDownloadsAvailable,
    /// A download response without the header naming the file, or a broken
    /// stream.
    DownloadFailed,
    /// A downloaded archive that cannot be opened or extracted.
    ArchiveFailure,
    /// A directory or file that cannot be created, written or removed.
    FilesystemFailure,
}

/// A success status: the 2xx range.
pub open spec fn is_success_status(status: u16) -> bool {
    200 <= status < 300
}

/// What the rate-limited request layer does with one response, given how many
/// retries it has already spent.
#[derive(Debug, Clone, Copy, PartialEq, Eq, Structural)]
pub enum RetryDecision {
    /// Success: hand the response to the caller.
    Proceed,
    /// Too many requests, retries left: sleep the cooldown and try again.
    RetryAfterCooldown,
    /// Too many requests and retries exhausted: fail.
    FailRateLimited,
    /// Any other non-success status: fail at once, without retrying.
    FailRequest,
}

/// The decision the request layer owes to a response: success passes
/// through, too-many-requests is retried until the retries are spent, and
/// every other failure status fails at once.
pub open spec fn spec_classify_response(status: u16, retry_attempt: u8) -> RetryDecision {
    if is_success_status(status) {
        RetryDecision::Proceed
    } else if status != TOO_MANY_REQUESTS {
        RetryDecision::FailRequest
    } else if retry_attempt >= MAX_RETRIES {
        RetryDecision::FailRateLimited
    } else {
        RetryDecision::RetryAfterCooldown
    }
}

/// Decides what to do with a response of the given status on the given
/// attempt (counting from zero).
pub fn classify_response(status: u16, retry_attempt: u8) -> (d: RetryDecision)
    ensures
        d == spec_classify_response(status, retry_attempt),
{
    if 200 <= status && status < 300 {
        RetryDecision::Proceed
    } else if status != TOO_MANY_REQUESTS {
        RetryDecision::FailRequest
    } else if retry_attempt >= MAX_RETRIES {
        RetryDecision::FailRateLimited
    } else {
        RetryDecision::RetryAfterCooldown
    }
}

/// How a request run ends.
#[derive(Debug, Clone, PartialEq, Eq, Structural)]
pub enum RequestOutcome {
    /// A success response came back.
    Success,
    /// Every attempt saw too many requests until the retries were spent.
    RateLimited,
    /// A response failed with this status, not to be retried.
    Failed(u16),
}

/// The outcome of the retry loop against a given series of response
/// statuses, starting at the given retry attempt; nothing when the series
/// runs out before the loop can decide.
pub open spec fn spec_retry_outcome(statuses: Seq<u16>, retry_attempt: int) -> Option<
    RequestOutcome,
>
    decreases statuses.len(),
{
    if statuses.len() == 0 {
        None
    } else {
        let s = statuses[0];
        if is_success_status(s) {
            Some(RequestOutcome::Success)
        } else if s != TOO_MANY_REQUESTS {
            Some(RequestOutcome::Failed(s))
        } else if retry_attempt >= MAX_RETRIES {
            Some(RequestOutcome::RateLimited)
        } else {
            spec_retry_outcome(statuses.drop_first(), retry_attempt + 1)
        }
    }
}

/// How many requests the retry loop sends against a given series of response
/// statuses: one per attempt, up to and including the deciding one.
pub open spec fn spec_requests_used(statuses: Seq<u16>, retry_attempt: int) -> int
    decreases statuses.len(),
{
    if statuses.len() == 0 {
        0
    } else {
        let s = statuses[0];
        if is_success_status(s) || s != TOO_MANY_REQUESTS || retry_attempt >= MAX_RETRIES {
            1
        } else {
            1 + spec_requests_used(statuses.drop_first(), retry_attempt + 1)
        }
    }
}

/// Runs the retry protocol against a recorded series of response statuses,
/// one status per physical request: the run's outcome, and how many requests
/// it sent. The series standing in for the remote service, this is the
/// request layer with its waiting taken out.
pub fn retry_protocol_outcome(statuses: &Vec<u16>) -> (r: (Option<RequestOutcome>, usize))
    ensures
        r.0 == spec_retry_outcome(statuses@, 0),
        r.1 == spec_requests_used(statuses@, 0),
{
    let ghost all = statuses@;
    let mut i: usize = 0;
    let mut attempt: u8 = 0;
    proof {
        assert(all.skip(0) =~= all);
    }
    while i < statuses.len()
        invariant
            i <= statuses@.len(),
            all == statuses@,
            attempt as int == i,
            i <= MAX_RETRIES,
            spec_retry_outcome(all, 0) == spec_retry_outcome(all.skip(i as int), i as int),
            spec_requests_used(all, 0) == i + spec_requests_used(all.skip(i as int), i as int),
        decreases statuses@.len() - i,
    {
        let status = statuses[i];
        proof {
            assert(all.skip(i as int)[0] == all[i as int]);
            assert(all.skip(i as int).drop_first() =~= all.skip(i + 1));
        }
        match classify_response(status, attempt) {
            RetryDecision::Proceed => {
                return (Some(RequestOutcome::Success), i + 1);
            },
            RetryDecision::FailRequest => {
                return (Some(RequestOutcome::Failed(status)), i + 1);
            },
            RetryDecision::FailRateLimited => {
                return (Some(RequestOutcome::RateLimited), i + 1);
            },
            RetryDecision::RetryAfterCooldown => {
                attempt = attempt + 1;
                i += 1;
            },
        }
    }
    proof {
        assert(all.skip(i as int) =~= Seq::<u16>::empty());
    }
    (None, i)
}

/// A run that meets success within the retry budget succeeds, with one
/// request per attempt up to the successful one: too-many-requests responses
/// alone never end a run early.
pub proof fn lemma_retry_success(statuses: Seq<u16>, retry_attempt: int, k: int)
    requires
        0 <= k < statuses.len(),
        retry_attempt + k <= MAX_RETRIES,
        forall|j: int| 0 <= j < k ==> statuses[j] == TOO_MANY_REQUESTS,
        is_success_status(statuses[k]),
    ensures
        spec_retry_outcome(statuses, retry_attempt) == Some(RequestOutcome::Success),
        spec_requests_used(statuses, retry_attempt) == k + 1,
    decreases k,
{
    if k > 0 {
        assert(statuses[0] == TOO_MANY_REQUESTS);
        assert(!is_success_status(statuses[0]));
        let rest = statuses.drop_first();
        assert forall|j: int| 0 <= j < k - 1 implies rest[j] == TOO_MANY_REQUESTS by {
            assert(rest[j] == statuses[j + 1]);
        }
        assert(rest[k - 1] == statuses[k as int]);
        lemma_retry_success(rest, retry_attempt + 1, k - 1);
    }
}

/// A run that sees nothing but too-many-requests exhausts its retries and
/// stops: it sends exactly one request per allowed attempt and none beyond
/// the last.
pub proof fn lemma_retry_exhausted(statuses: Seq<u16>, retry_attempt: int)
    requires
        0 <= retry_attempt <= MAX_RETRIES,
        statuses.len() > MAX_RETRIES - retry_attempt,
        forall|j: int| 0 <= j <= MAX_RETRIES - retry_attempt ==> statuses[j] == TOO_MANY_REQUESTS,
    ensures
        spec_retry_outcome(statuses, retry_attempt) == Some(RequestOutcome::RateLimited),
        spec_requests_used(statuses, retry_attempt) == MAX_RETRIES - retry_attempt + 1,
    decreases MAX_RETRIES - retry_attempt,
{
    assert(statuses[0] == TOO_MANY_REQUESTS);
    assert(!is_success_status(statuses[0]));
    if retry_attempt < MAX_RETRIES {
        let rest = statuses.drop_first();
        assert forall|j: int| 0 <= j <= MAX_RETRIES - (retry_attempt + 1) implies rest[j]
            == TOO_MANY_REQUESTS by {
            assert(rest[j] == statuses[j + 1]);
        }
        lemma_retry_exhausted(rest, retry_attempt + 1);
    }
}

/// The fixed location of the remote service, with a path appended.
pub fn bc_path(path: &str) -> (r: String)
    ensures
        r@ == "https://bandcamp.com/"@ + path@,
{
    "https://bandcamp.com/".to_owned().concat(path)
}

/// The hexadecimal digit character for a value below sixteen.
pub open spec fn hex_digit(n: int) -> char
    recommends
        0 <= n < 16,
{
    if n < 10 {
        crate::util::dec_digit(n)
    } else if n == 10 {
        'a'
    } else if n == 11 {
        'b'
    } else if n == 12 {
        'c'
    } else if n == 13 {
        'd'
    } else if n == 14 {
        'e'
    } else {
        'f'
    }
}

/// How one character stands in a JSON string: quote and backslash escaped,
/// the named control characters by their short escapes, other control
/// characters by a four-digit escape, everything else by itself.
pub open spec fn json_escaped_char(c: char) -> Seq<char> {
    if c == '"' {
        seq!['\\', '"']
    } else if c == '\\' {
        seq!['\\', '\\']
    } else if c == '\u{8}' {
        seq!['\\', 'b']
    } else if c == '\t' {
        seq!['\\', 't']
    } else if c == '\n' {
        seq!['\\', 'n']
    } else if c == '\u{c}' {
        seq!['\\', 'f']
    } else if c == '\r' {
        seq!['\\', 'r']
    } else if (c as u32) < 0x20 {
        seq!['\\', 'u', '0', '0', hex_digit((c as u32 / 16) as int), hex_digit(
            (c as u32 % 16) as int,
        )]
    } else {
        seq![c]
    }
}

/// A whole text as it stands inside a JSON string.
pub open spec fn json_escape(s: Seq<char>) -> Seq<char>
    decreases s.len(),
{
    if s.len() == 0 {
        Seq::empty()
    } else {
        json_escaped_char(s[0]) + json_escape(s.drop_first())
    }
}

fn hex_digit_exec(n: u32) -> (r: char)
    requires
        n < 16,
    ensures
        r == hex_digit(n as int),
{
    if n == 10 {
        'a'
    } else if n == 11 {
        'b'
    } else if n == 12 {
        'c'
    } else if n == 13 {
        'd'
    } else if n == 14 {
        'e'
    } else if n == 15 {
        'f'
    } else {
        crate::util::dec_digit_exec(n as u64)
    }
}

fn push_json_escaped(out: &mut String, c: char)
    ensures
        final(out)@ == old(out)@ + json_escaped_char(c),
{
    if c == '"' {
        push_char(out, '\\');
        push_char(out, '"');
    } else if c == '\\' {
        push_char(out, '\\');
        push_char(out, '\\');
    } else if c == '\u{8}' {
        push_char(out, '\\');
        push_char(out, 'b');
    } else if c == '\t' {
        push_char(out, '\\');
        push_char(out, 't');
    } else if c == '\n' {
        push_char(out, '\\');
        push_char(out, 'n');
    } else if c == '\u{c}' {
        push_char(out, '\\');
        push_char(out, 'f');
    } else if c == '\r' {
        push_char(out, '\\');
        push_char(out, 'r');
    } else if (c as u32) < 0x20 {
        push_char(out, '\\');
        push_char(out, 'u');
        push_char(out, '0');
        push_char(out, '0');
        push_char(out, hex_digit_exec((c as u32) / 16));
        push_char(out, hex_digit_exec((c as u32) % 16));
    } else {
        push_char(out, c);
    }
    proof {
        assert(out@ =~= old(out)@ + json_escaped_char(c));
    }
}

/// Appends `s`, escaped for the inside of a JSON string, to `out`.
fn append_json_escaped(out: &mut String, s: &str)
    ensures
        final(out)@ == old(out)@ + json_escape(s@),
{
    let n = s.unicode_len();
    let mut i: usize = 0;
    proof {
        assert(s@.skip(0) =~= s@);
    }
    while i < n
        invariant
            i <= n,
            n == s@.len(),
            out@ + json_escape(s@.skip(i as int)) == old(out)@ + json_escape(s@),
        decreases n - i,
    {
        proof {
            assert(s@.skip(i as int)[0] == s@[i as int]);
            assert(s@.skip(i as int).drop_first() =~= s@.skip(i + 1));
            assert(json_escape(s@.skip(i as int)) == json_escaped_char(s@[i as int]) + json_escape(
                s@.skip(i + 1),
            ));
        }
        push_json_escaped(out, s.get_char(i));
        proof {
            assert(out@ + json_escape(s@.skip(i + 1)) =~= old(out)@ + json_escape(s@));
        }
        i += 1;
    }
    proof {
        assert(json_escape(s@.skip(n as int)) =~= Seq::<char>::empty());
        assert(out@ =~= out@ + json_escape(s@.skip(n as int)));
    }
}

/// The JSON body one pagination request posts: the fan's identity and the
/// continuation token of the page before.
pub fn collection_post_body(fan_id: &str, older_than_token: &str) -> (r: String)
    ensures
        r@ == "{\"fan_id\":\""@ + json_escape(fan_id@) + "\",\"older_than_token\":\""@
            + json_escape(older_than_token@) + "\"}"@,
{
    let mut out = "{\"fan_id\":\"".to_owned();
    append_json_escaped(&mut out, fan_id);
    let mut out = out.concat("\",\"older_than_token\":\"");
    append_json_escaped(&mut out, older_than_token);
    let out = out.concat("\"}");
    proof {
        assert(out@ =~= "{\"fan_id\":\""@ + json_escape(fan_id@)
            + "\",\"older_than_token\":\""@ + json_escape(older_than_token@) + "\"}"@);
    }
    out
}

/// A required string field of a JSON object.
pub open spec fn spec_req_string(v: JsonView, key: Seq<char>) -> Option<Seq<char>> {
    match spec_get(v, key) {
        Some(JsonView::Str(s)) => Some(s),
        _ => None,
    }
}

/// An optional string field: absent or null reads as nothing, a non-string
/// value does not parse.
pub open spec fn spec_opt_string(v: JsonView, key: Seq<char>) -> Option<Option<Seq<char>>> {
    match spec_get(v, key) {
        None => Some(None),
        Some(JsonView::Null) => Some(None),
        Some(JsonView::Str(s)) => Some(Some(s)),
        Some(_) => None,
    }
}

/// A required boolean field.
pub open spec fn spec_req_bool(v: JsonView, key: Seq<char>) -> Option<bool> {
    match spec_get(v, key) {
        Some(JsonView::Bool(b)) => Some(b),
        _ => None,
    }
}

/// An optional boolean field: absent or null reads as nothing.
pub open spec fn spec_opt_bool(v: JsonView, key: Seq<char>) -> Option<Option<bool>> {
    match spec_get(v, key) {
        None => Some(None),
        Some(JsonView::Null) => Some(None),
        Some(JsonView::Bool(b)) => Some(Some(b)),
        Some(_) => None,
    }
}

/// A required unsigned integer field.
pub open spec fn spec_req_u64(v: JsonView, key: Seq<char>) -> Option<u64> {
    match spec_get(v, key) {
        Some(JsonView::UInt(n)) => Some(n),
        _ => None,
    }
}

/// An optional pagination-sizing field: absent or null reads as nothing, and
/// the number must fit the sizing fields' width.
pub open spec fn spec_opt_u16(v: JsonView, key: Seq<char>) -> Option<Option<u16>> {
    match spec_get(v, key) {
        None => Some(None),
        Some(JsonView::Null) => Some(None),
        Some(JsonView::UInt(n)) => if n <= u16::MAX as u64 {
            Some(Some(n as u16))
        } else {
            None
        },
        Some(_) => None,
    }
}

/// A fan identity field: the service sometimes sends it as a JSON string and
/// sometimes as a number; a number is carried as its decimal digits.
pub open spec fn spec_id_string(v: JsonView, key: Seq<char>) -> Option<Seq<char>> {
    match spec_get(v, key) {
        Some(JsonView::Str(s)) => Some(s),
        Some(JsonView::UInt(n)) => Some(crate::util::dec_str(n as nat)),
        _ => None,
    }
}

pub(crate) fn req_string(v: &JsonValue, key: &str) -> (r: Result<String, ApiError>)
    ensures
        match spec_req_string(json_view(*v), key@) {
            Some(s) => r matches Ok(out) && out@ == s,
            None => r matches Err(e) && e matches ApiError::ParseFailure,
        },
{
    match v.get(key) {
        Some(f) => match f {
            JsonValue::Str(s) => Ok(s.clone()),
            _ => Err(ApiError::ParseFailure),
        },
        None => Err(ApiError::ParseFailure),
    }
}

pub(crate) fn opt_string(v: &JsonValue, key: &str) -> (r: Result<Option<String>, ApiError>)
    ensures
        match spec_opt_string(json_view(*v), key@) {
            Some(opt) => r matches Ok(out) && (match out {
                Some(o) => opt matches Some(s) && o@ == s,
                None => opt is None,
            }),
            None => r matches Err(e) && e matches ApiError::ParseFailure,
        },
{
    match v.get(key) {
        Some(f) => match f {
            JsonValue::Null => Ok(None),
            JsonValue::Str(s) => Ok(Some(s.clone())),
            _ => Err(ApiError::ParseFailure),
        },
        None => Ok(None),
    }
}

pub(crate) fn req_bool(v: &JsonValue, key: &str) -> (r: Result<bool, ApiError>)
    ensures
        match spec_req_bool(json_view(*v), key@) {
            Some(b) => r == Ok::<bool, ApiError>(b),
            None => r matches Err(e) && e matches ApiError::ParseFailure,
        },
{
    match v.get(key) {
        Some(f) => match f {
            JsonValue::Bool(b) => Ok(*b),
            _ => Err(ApiError::ParseFailure),
        },
        None => Err(ApiError::ParseFailure),
    }
}

pub(crate) fn opt_bool(v: &JsonValue, key: &str) -> (r: Result<Option<bool>, ApiError>)
    ensures
        match spec_opt_bool(json_view(*v), key@) {
            Some(opt) => r == Ok::<Option<bool>, ApiError>(opt),
            None => r matches Err(e) && e matches ApiError::ParseFailure,
        },
{
    match v.get(key) {
        Some(f) => match f {
            JsonValue::Null => Ok(None),
            JsonValue::Bool(b) => Ok(Some(*b)),
            _ => Err(ApiError::ParseFailure),
        },
        None => Ok(None),
    }
}

pub(crate) fn req_u64(v: &JsonValue, key: &str) -> (r: Result<u64, ApiError>)
    ensures
        match spec_req_u64(json_view(*v), key@) {
            Some(n) => r == Ok::<u64, ApiError>(n),
            None => r matches Err(e) && e matches ApiError::ParseFailure,
        },
{
    match v.get(key) {
        Some(f) => match f {
            JsonValue::UInt(n) => Ok(*n),
            _ => Err(ApiError::ParseFailure),
        },
        None => Err(ApiError::ParseFailure),
    }
}

pub(crate) fn opt_u16(v: &JsonValue, key: &str) -> (r: Result<Option<u16>, ApiError>)
    ensures
        match spec_opt_u16(json_view(*v), key@) {
            Some(opt) => r == Ok::<Option<u16>, ApiError>(opt),
            None => r matches Err(e) && e matches ApiError::ParseFailure,
        },
{
    match v.get(key) {
        Some(f) => match f {
            JsonValue::Null => Ok(None),
            JsonValue::UInt(n) => {
                if *n <= u16::MAX as u64 {
                    Ok(Some(*n as u16))
                } else {
                    Err(ApiError::ParseFailure)
                }
            },
            _ => Err(ApiError::ParseFailure),
        },
        None => Ok(None),
    }
}

pub(crate) fn id_string(v: &JsonValue, key: &str) -> (r: Result<String, ApiError>)
    ensures
        match spec_id_string(json_view(*v), key@) {
            Some(s) => r matches Ok(out) && out@ == s,
            None => r matches Err(e) && e matches ApiError::ParseFailure,
        },
{
    match v.get(key) {
        Some(f) => match f {
            JsonValue::Str(s) => Ok(s.clone()),
            JsonValue::UInt(n) => Ok(crate::util::u64_to_string(*n)),
            _ => Err(ApiError::ParseFailure),
        },
        None => Err(ApiError::ParseFailure),
    }
}

/// The identifier-to-URL map an object's entries denote: every value must be
/// a string, later entries overwriting earlier ones under the same
/// identifier.
pub open spec fn spec_url_entries(entries: Seq<(Seq<char>, JsonView)>) -> Option<
    Map<Seq<char>, Seq<char>>,
>
    decreases entries.len(),
{
    if entries.len() == 0 {
        Some(Map::empty())
    } else {
        match spec_url_entries(entries.drop_last()) {
            None => None,
            Some(m) => match entries.last().1 {
                JsonView::Str(url) => Some(m.insert(entries.last().0, url)),
                _ => None,
            },
        }
    }
}

/// The identifier-to-URL map a JSON value denotes: an object of strings.
pub open spec fn spec_downloads_map(v: JsonView) -> Option<Map<Seq<char>, Seq<char>>> {
    match v {
        JsonView::Obj(entries) => spec_url_entries(entries),
        _ => None,
    }
}

proof fn lemma_url_entries_none(entries: Seq<(Seq<char>, JsonView)>, i: int)
    requires
        0 <= i < entries.len(),
        !(entries[i].1 is Str),
    ensures
        spec_url_entries(entries) is None,
    decreases entries.len(),
{
    if i < entries.len() - 1 {
        assert(entries.drop_last()[i] == entries[i]);
        lemma_url_entries_none(entries.drop_last(), i);
    }
}

/// Reads an identifier-to-download-URL object: every value must be a string.
fn parse_downloads_map(v: &JsonValue) -> (r: Result<DownloadsMap, ApiError>)
    ensures
        match spec_downloads_map(json_view(*v)) {
            Some(m) => r matches Ok(dm) && dm@ == m && dm.wf(),
            None => r matches Err(e) && e matches ApiError::ParseFailure,
        },
{
    match v {
        JsonValue::Obj(entries) => {
            let ghost ev = entry_views(entries@);
            let mut m = DownloadsMap::new();
            let n = entries.len();
            let mut i: usize = 0;
            proof {
                lemma_entry_views_index(entries@, 0);
                assert(ev.take(0) =~= Seq::<(Seq<char>, JsonView)>::empty());
            }
            while i < n
                invariant
                    i <= n,
                    n == entries@.len(),
                    ev == entry_views(entries@),
                    ev.len() == n,
                    json_view(*v) == JsonView::Obj(ev),
                    m.wf(),
                    spec_url_entries(ev.take(i as int)) == Some(m@),
                decreases n - i,
            {
                let entry = &entries[i];
                proof {
                    lemma_entry_views_index(entries@, i as int);
                    assert(ev.take(i + 1).drop_last() =~= ev.take(i as int));
                    assert(ev.take(i + 1).last() == ev[i as int]);
                }
                match &entry.1 {
                    JsonValue::Str(url) => {
                        m.insert(entry.0.clone(), url.clone());
                    },
                    _ => {
                        proof {
                            lemma_url_entries_none(ev, i as int);
                        }
                        return Err(ApiError::ParseFailure);
                    },
                }
                i += 1;
            }
            proof {
                assert(ev.take(n as int) =~= ev);
            }
            Ok(m)
        },
        _ => Err(ApiError::ParseFailure),
    }
}

/// The optional identifier-to-URL map under a key: absent or null reads as
/// nothing.
pub open spec fn spec_opt_downloads(v: JsonView, key: Seq<char>) -> Option<
    Option<Map<Seq<char>, Seq<char>>>,
> {
    match spec_get(v, key) {
        None => Some(None),
        Some(JsonView::Null) => Some(None),
        Some(w) => match spec_downloads_map(w) {
            Some(m) => Some(Some(m)),
            None => None,
        },
    }
}

/// The fan data a JSON value denotes.
pub open spec fn spec_fan_data(v: JsonView) -> Option<FanDataView> {
    match spec_id_string(v, "fan_id"@) {
        None => None,
        Some(fan_id) => match spec_opt_bool(v, "is_own_page"@) {
            None => None,
            Some(is_own_page) => Some(FanDataView { fan_id, is_own_page }),
        },
    }
}

/// Reads the fan data of the landing page blob.
fn parse_fan_data(v: &JsonValue) -> (r: Result<FanData, ApiError>)
    ensures
        match spec_fan_data(json_view(*v)) {
            Some(fd) => r matches Ok(d) && d@ == fd,
            None => r matches Err(e) && e matches ApiError::ParseFailure,
        },
{
    let fan_id = match id_string(v, "fan_id") {
        Ok(x) => x,
        Err(e) => {
            return Err(e);
        },
    };
    let is_own_page = match opt_bool(v, "is_own_page") {
        Ok(x) => x,
        Err(e) => {
            return Err(e);
        },
    };
    Ok(FanData { fan_id, is_own_page })
}

/// The collection sizing, token and initial batch a JSON value denotes.
pub open spec fn spec_collection_data(v: JsonView) -> Option<CollectionDataView> {
    match spec_opt_u16(v, "batch_size"@) {
        None => None,
        Some(batch_size) => match spec_opt_u16(v, "item_count"@) {
            None => None,
            Some(item_count) => match spec_opt_string(v, "last_token"@) {
                None => None,
                Some(last_token) => match spec_opt_downloads(v, "redownload_urls"@) {
                    None => None,
                    Some(redownload_urls) => Some(
                        CollectionDataView { batch_size, item_count, last_token, redownload_urls },
                    ),
                },
            },
        },
    }
}

/// Reads one paginated collection's sizing, continuation token and initial
/// batch from the landing page blob.
fn parse_collection_data(v: &JsonValue) -> (r: Result<CollectionData, ApiError>)
    ensures
        match spec_collection_data(json_view(*v)) {
            Some(cd) => r matches Ok(d) && d@ == cd && (d.redownload_urls matches Some(m)
                ==> m.wf()),
            None => r matches Err(e) && e matches ApiError::ParseFailure,
        },
{
    let batch_size = match opt_u16(v, "batch_size") {
        Ok(x) => x,
        Err(e) => {
            return Err(e);
        },
    };
    let item_count = match opt_u16(v, "item_count") {
        Ok(x) => x,
        Err(e) => {
            return Err(e);
        },
    };
    let last_token = match opt_string(v, "last_token") {
        Ok(x) => x,
        Err(e) => {
            return Err(e);
        },
    };
    let redownload_urls = match v.get("redownload_urls") {
        Some(f) => match f {
            JsonValue::Null => None,
            _ => match parse_downloads_map(f) {
                Ok(m) => Some(m),
                Err(e) => {
                    return Err(e);
                },
            },
        },
        None => None,
    };
    Ok(CollectionData { batch_size, item_count, last_token, redownload_urls })
}

/// The item description a JSON value denotes.
pub open spec fn spec_item(v: JsonView) -> Option<ItemView> {
    match spec_req_u64(v, "sale_item_id"@) {
        None => None,
        Some(sale_item_id) => match spec_req_string(v, "sale_item_type"@) {
            None => None,
            Some(sale_item_type) => match spec_req_string(v, "band_name"@) {
                None => None,
                Some(band_name) => match spec_req_string(v, "item_title"@) {
                    None => None,
                    Some(item_title) => Some(
                        ItemView { sale_item_id, sale_item_type, band_name, item_title },
                    ),
                },
            },
        },
    }
}

/// Reads one item description of the landing page's item cache.
fn parse_item(v: &JsonValue) -> (r: Result<Item, ApiError>)
    ensures
        match spec_item(json_view(*v)) {
            Some(it) => r matches Ok(d) && d@ == it,
            None => r matches Err(e) && e matches ApiError::ParseFailure,
        },
{
    let sale_item_id = match req_u64(v, "sale_item_id") {
        Ok(x) => x,
        Err(e) => {
            return Err(e);
        },
    };
    let sale_item_type = match req_string(v, "sale_item_type") {
        Ok(x) => x,
        Err(e) => {
            return Err(e);
        },
    };
    let band_name = match req_string(v, "band_name") {
        Ok(x) => x,
        Err(e) => {
            return Err(e);
        },
    };
    let item_title = match req_string(v, "item_title") {
        Ok(x) => x,
        Err(e) => {
            return Err(e);
        },
    };
    Ok(Item { sale_item_id, sale_item_type, band_name, item_title })
}

/// The item-cache entries a sequence of object entries denotes.
pub open spec fn spec_item_entries(entries: Seq<(Seq<char>, JsonView)>) -> Option<
    Seq<(Seq<char>, ItemView)>,
>
    decreases entries.len(),
{
    if entries.len() == 0 {
        Some(Seq::empty())
    } else {
        match spec_item_entries(entries.drop_last()) {
            None => None,
            Some(s) => match spec_item(entries.last().1) {
                None => None,
                Some(it) => Some(s.push((entries.last().0, it))),
            },
        }
    }
}

proof fn lemma_item_entries_none(entries: Seq<(Seq<char>, JsonView)>, i: int)
    requires
        0 <= i < entries.len(),
        spec_item(entries[i].1) is None,
    ensures
        spec_item_entries(entries) is None,
    decreases entries.len(),
{
    if i < entries.len() - 1 {
        assert(entries.drop_last()[i] == entries[i]);
        lemma_item_entries_none(entries.drop_last(), i);
    }
}

/// The keyed item descriptions a JSON value denotes: an object of item
/// descriptions.
pub open spec fn spec_item_obj(v: JsonView) -> Option<Seq<(Seq<char>, ItemView)>> {
    match v {
        JsonView::Obj(entries) => spec_item_entries(entries),
        _ => None,
    }
}

/// Reads an object of item descriptions keyed by identifier.
fn parse_item_obj(v: &JsonValue) -> (r: Result<Vec<(String, Item)>, ApiError>)
    ensures
        match spec_item_obj(json_view(*v)) {
            Some(s) => r matches Ok(collection) && collection.deep_view() == s,
            None => r matches Err(e) && e matches ApiError::ParseFailure,
        },
{
    match v {
        JsonValue::Obj(entries) => {
            let ghost ev = entry_views(entries@);
            let mut collection: Vec<(String, Item)> = Vec::new();
            let n = entries.len();
            let mut i: usize = 0;
            proof {
                lemma_entry_views_index(entries@, 0);
                assert(ev.take(0) =~= Seq::<(Seq<char>, JsonView)>::empty());
                assert(collection.deep_view() =~= Seq::<(Seq<char>, ItemView)>::empty());
            }
            while i < n
                invariant
                    i <= n,
                    n == entries@.len(),
                    ev == entry_views(entries@),
                    ev.len() == n,
                    json_view(*v) == JsonView::Obj(ev),
                    spec_item_entries(ev.take(i as int)) == Some(collection.deep_view()),
                decreases n - i,
            {
                let entry = &entries[i];
                proof {
                    lemma_entry_views_index(entries@, i as int);
                    assert(ev.take(i + 1).drop_last() =~= ev.take(i as int));
                    assert(ev.take(i + 1).last() == ev[i as int]);
                }
                match parse_item(&entry.1) {
                    Ok(item) => {
                        let ghost cdv = collection.deep_view();
                        collection.push((entry.0.clone(), item));
                        proof {
                            assert(collection.deep_view() =~~= cdv.push((entry.0@, item@)));
                        }
                    },
                    Err(e) => {
                        proof {
                            lemma_item_entries_none(ev, i as int);
                        }
                        return Err(e);
                    },
                }
                i += 1;
            }
            proof {
                assert(ev.take(n as int) =~= ev);
            }
            Ok(collection)
        },
        _ => Err(ApiError::ParseFailure),
    }
}

/// The item cache a JSON value denotes: an object of item descriptions under
/// its `collection` key.
pub open spec fn spec_item_cache(v: JsonView) -> Option<Seq<(Seq<char>, ItemView)>> {
    match spec_get(v, "collection"@) {
        None => None,
        Some(w) => spec_item_obj(w),
    }
}

/// Reads the landing page's item cache: an object of item descriptions keyed
/// by identifier.
fn parse_item_cache(v: &JsonValue) -> (r: Result<ItemCache, ApiError>)
    ensures
        match spec_item_cache(json_view(*v)) {
            Some(s) => r matches Ok(d) && d@ == s,
            None => r matches Err(e) && e matches ApiError::ParseFailure,
        },
{
    let field = match v.get("collection") {
        Some(f) => f,
        None => {
            return Err(ApiError::ParseFailure);
        },
    };
    match parse_item_obj(field) {
        Ok(collection) => Ok(ItemCache { collection }),
        Err(e) => Err(e),
    }
}

/// The whole landing page blob a JSON value denotes: fan data, the visible
/// and the hidden collection, and the item cache.
pub open spec fn spec_fanpage(v: JsonView) -> Option<FanpageView> {
    match spec_get(v, "fan_data"@) {
        None => None,
        Some(fdv) => match spec_fan_data(fdv) {
            None => None,
            Some(fan_data) => match spec_get(v, "collection_data"@) {
                None => None,
                Some(cdv) => match spec_collection_data(cdv) {
                    None => None,
                    Some(collection_data) => match spec_get(v, "hidden_data"@) {
                        None => None,
                        Some(hdv) => match spec_collection_data(hdv) {
                            None => None,
                            Some(hidden_data) => match spec_get(v, "item_cache"@) {
                                None => None,
                                Some(icv) => match spec_item_cache(icv) {
                                    None => None,
                                    Some(item_cache) => Some(
                                        FanpageView {
                                            fan_data,
                                            collection_data,
                                            hidden_data,
                                            item_cache,
                                        },
                                    ),
                                },
                            },
                        },
                    },
                },
            },
        },
    }
}

/// The landing page data given JSON text denotes, or nothing when the text
/// is not valid JSON or not of the landing page's shape.
pub open spec fn spec_parse_fanpage(s: Seq<char>) -> Option<FanpageView> {
    match json_of(s) {
        Some(v) => spec_fanpage(v),
        None => None,
    }
}

/// Reads the whole landing page blob: fan data, the visible and the hidden
/// collection, and the item cache. Fails exactly when the text is not valid
/// JSON or a field is absent or mistyped.
pub fn parse_fanpage_blob(blob: &str) -> (r: Result<ParsedFanpageData, ApiError>)
    ensures
        match spec_parse_fanpage(blob@) {
            Some(fp) => r matches Ok(d) && d@ == fp,
            None => r matches Err(e) && e matches ApiError::ParseFailure,
        },
        r matches Ok(d) ==> (d.collection_data.redownload_urls matches Some(m) ==> m.wf()),
        r matches Ok(d) ==> (d.hidden_data.redownload_urls matches Some(m) ==> m.wf()),
{
    let v = match parse_json(blob) {
        Some(v) => v,
        None => {
            return Err(ApiError::ParseFailure);
        },
    };
    let fan_data = match v.get("fan_data") {
        Some(f) => match parse_fan_data(f) {
            Ok(d) => d,
            Err(e) => {
                return Err(e);
            },
        },
        None => {
            return Err(ApiError::ParseFailure);
        },
    };
    let collection_data = match v.get("collection_data") {
        Some(f) => match parse_collection_data(f) {
            Ok(d) => d,
            Err(e) => {
                return Err(e);
            },
        },
        None => {
            return Err(ApiError::ParseFailure);
        },
    };
    let hidden_data = match v.get("hidden_data") {
        Some(f) => match parse_collection_data(f) {
            Ok(d) => d,
            Err(e) => {
                return Err(e);
            },
        },
        None => {
            return Err(ApiError::ParseFailure);
        },
    };
    let item_cache = match v.get("item_cache") {
        Some(f) => match parse_item_cache(f) {
            Ok(d) => d,
            Err(e) => {
                return Err(e);
            },
        },
        None => {
            return Err(ApiError::ParseFailure);
        },
    };
    Ok(ParsedFanpageData { fan_data, collection_data, hidden_data, item_cache })
}

/// Extracts and reads the landing page blob out of the page's HTML. A page
/// without the blob, like one with a malformed blob, does not parse.
pub fn scrape_fanpage(html: &str) -> (r: Result<ParsedFanpageData, ApiError>)
    ensures
        match pagedata_blob_of(html@) {
            None => r matches Err(e) && e matches ApiError::ParseFailure,
            Some(blob) => match spec_parse_fanpage(blob) {
                Some(fp) => r matches Ok(d) && d@ == fp,
                None => r matches Err(e) && e matches ApiError::ParseFailure,
            },
        },
        r matches Ok(d) ==> (d.collection_data.redownload_urls matches Some(m) ==> m.wf()),
        r matches Ok(d) ==> (d.hidden_data.redownload_urls matches Some(m) ==> m.wf()),
{
    match extract_pagedata_blob(html) {
        Some(blob) => parse_fanpage_blob(blob.as_str()),
        None => Err(ApiError::ParseFailure),
    }
}

/// The item list a sequence of JSON values denotes.
pub open spec fn spec_item_list(elems: Seq<JsonView>) -> Option<Seq<ItemView>>
    decreases elems.len(),
{
    if elems.len() == 0 {
        Some(Seq::empty())
    } else {
        match spec_item_list(elems.drop_last()) {
            None => None,
            Some(s) => match spec_item(elems.last()) {
                None => None,
                Some(it) => Some(s.push(it)),
            },
        }
    }
}

proof fn lemma_item_list_none(elems: Seq<JsonView>, i: int)
    requires
        0 <= i < elems.len(),
        spec_item(elems[i]) is None,
    ensures
        spec_item_list(elems) is None,
    decreases elems.len(),
{
    if i < elems.len() - 1 {
        assert(elems.drop_last()[i] == elems[i]);
        lemma_item_list_none(elems.drop_last(), i);
    }
}

/// The item list a JSON value denotes: an array of item descriptions.
pub open spec fn spec_item_array(v: JsonView) -> Option<Seq<ItemView>> {
    match v {
        JsonView::Arr(elems) => spec_item_list(elems),
        _ => None,
    }
}

/// Reads an array of item descriptions.
fn parse_item_array(v: &JsonValue) -> (r: Result<Vec<Item>, ApiError>)
    ensures
        match spec_item_array(json_view(*v)) {
            Some(s) => r matches Ok(items) && items.deep_view() == s,
            None => r matches Err(e) && e matches ApiError::ParseFailure,
        },
{
    match v {
        JsonValue::Arr(elems) => {
            let ghost evs = json_views(elems@);
            let mut items: Vec<Item> = Vec::new();
            let n = elems.len();
            let mut i: usize = 0;
            proof {
                lemma_json_views_index(elems@, 0);
                assert(evs.take(0) =~= Seq::<JsonView>::empty());
                assert(items.deep_view() =~= Seq::<ItemView>::empty());
            }
            while i < n
                invariant
                    i <= n,
                    n == elems@.len(),
                    evs == json_views(elems@),
                    evs.len() == n,
                    json_view(*v) == JsonView::Arr(evs),
                    spec_item_list(evs.take(i as int)) == Some(items.deep_view()),
                decreases n - i,
            {
                proof {
                    lemma_json_views_index(elems@, i as int);
                    assert(evs.take(i + 1).drop_last() =~= evs.take(i as int));
                    assert(evs.take(i + 1).last() == evs[i as int]);
                }
                match parse_item(&elems[i]) {
                    Ok(item) => {
                        let ghost idv = items.deep_view();
                        items.push(item);
                        proof {
                            assert(items.deep_view() =~~= idv.push(item@));
                        }
                    },
                    Err(e) => {
                        proof {
                            lemma_item_list_none(evs, i as int);
                        }
                        return Err(e);
                    },
                }
                i += 1;
            }
            proof {
                assert(evs.take(n as int) =~= evs);
            }
            Ok(items)
        },
        _ => Err(ApiError::ParseFailure),
    }
}

/// One response of the paginated collection endpoint, as a JSON value
/// denotes it.
pub open spec fn spec_collection_page(v: JsonView) -> Option<CollectionPageView> {
    match spec_req_bool(v, "more_available"@) {
        None => None,
        Some(more_available) => match spec_req_string(v, "last_token"@) {
            None => None,
            Some(last_token) => match spec_get(v, "redownload_urls"@) {
                None => None,
                Some(rv) => match spec_downloads_map(rv) {
                    None => None,
                    Some(redownload_urls) => match spec_get(v, "items"@) {
                        None => None,
                        Some(w) => match spec_item_array(w) {
                            None => None,
                            Some(items) => Some(
                                CollectionPageView {
                                    more_available,
                                    last_token,
                                    redownload_urls,
                                    items,
                                },
                            ),
                        },
                    },
                },
            },
        },
    }
}

/// The pagination response given JSON text denotes.
pub open spec fn spec_parse_collection_page(s: Seq<char>) -> Option<CollectionPageView> {
    match json_of(s) {
        Some(v) => spec_collection_page(v),
        None => None,
    }
}

/// Reads one response of the paginated collection endpoint. Fails exactly
/// when the text is not valid JSON or a field is absent or mistyped.
pub fn parse_collection_items(text: &str) -> (r: Result<ParsedCollectionItems, ApiError>)
    ensures
        match spec_parse_collection_page(text@) {
            Some(cp) => r matches Ok(p) && p@ == cp,
            None => r matches Err(e) && e matches ApiError::ParseFailure,
        },
        r matches Ok(p) ==> p.redownload_urls.wf(),
{
    let v = match parse_json(text) {
        Some(v) => v,
        None => {
            return Err(ApiError::ParseFailure);
        },
    };
    let more_available = match req_bool(&v, "more_available") {
        Ok(x) => x,
        Err(e) => {
            return Err(e);
        },
    };
    let last_token = match req_string(&v, "last_token") {
        Ok(x) => x,
        Err(e) => {
            return Err(e);
        },
    };
    let redownload_urls = match v.get("redownload_urls") {
        Some(f) => match parse_downloads_map(f) {
            Ok(m) => m,
            Err(e) => {
                return Err(e);
            },
        },
        None => {
            return Err(ApiError::ParseFailure);
        },
    };
    let items = match v.get("items") {
        Some(f) => match parse_item_array(f) {
            Ok(items) => items,
            Err(e) => {
                return Err(e);
            },
        },
        None => {
            return Err(ApiError::ParseFailure);
        },
    };
    Ok(ParsedCollectionItems { more_available, last_token, redownload_urls, items })
}

/// The format-to-URL download entries an object's entries denote: every
/// value must be an object with a `url` string.
pub open spec fn spec_format_entries(entries: Seq<(Seq<char>, JsonView)>) -> Option<
    Seq<(Seq<char>, Seq<char>)>,
>
    decreases entries.len(),
{
    if entries.len() == 0 {
        Some(Seq::empty())
    } else {
        match spec_format_entries(entries.drop_last()) {
            None => None,
            Some(s) => match spec_req_string(entries.last().1, "url"@) {
                None => None,
                Some(url) => Some(s.push((entries.last().0, url))),
            },
        }
    }
}

proof fn lemma_format_entries_none(entries: Seq<(Seq<char>, JsonView)>, i: int)
    requires
        0 <= i < entries.len(),
        spec_req_string(entries[i].1, "url"@) is None,
    ensures
        spec_format_entries(entries) is None,
    decreases entries.len(),
{
    if i < entries.len() - 1 {
        assert(entries.drop_last()[i] == entries[i]);
        lemma_format_entries_none(entries.drop_last(), i);
    }
}

/// The format-to-URL downloads a JSON value denotes: an object whose every
/// value is an object with a `url` string.
pub open spec fn spec_format_map(v: JsonView) -> Option<Seq<(Seq<char>, Seq<char>)>> {
    match v {
        JsonView::Obj(entries) => spec_format_entries(entries),
        _ => None,
    }
}

/// The optional downloads of a release: absent or null reads as nothing; an
/// object must map each format to an object with a `url` string.
pub open spec fn spec_opt_format_downloads(v: JsonView) -> Option<
    Option<Seq<(Seq<char>, Seq<char>)>>,
> {
    match spec_get(v, "downloads"@) {
        None => Some(None),
        Some(JsonView::Null) => Some(None),
        Some(w) => match spec_format_map(w) {
            None => None,
            Some(d) => Some(Some(d)),
        },
    }
}

/// Reads an object mapping each audio format to its download description.
fn parse_format_downloads(v: &JsonValue) -> (r: Result<Vec<(String, DigitalItemDownload)>, ApiError>)
    ensures
        match spec_format_map(json_view(*v)) {
            Some(d) => r matches Ok(downloads) && downloads.deep_view() == d,
            None => r matches Err(e) && e matches ApiError::ParseFailure,
        },
{
    match v {
        JsonValue::Obj(entries) => {
            let ghost ev = entry_views(entries@);
            let mut downloads: Vec<(String, DigitalItemDownload)> = Vec::new();
            let n = entries.len();
            let mut i: usize = 0;
            proof {
                lemma_entry_views_index(entries@, 0);
                assert(ev.take(0) =~= Seq::<(Seq<char>, JsonView)>::empty());
                assert(downloads.deep_view() =~= Seq::<(Seq<char>, Seq<char>)>::empty());
            }
            while i < n
                invariant
                    i <= n,
                    n == entries@.len(),
                    ev == entry_views(entries@),
                    ev.len() == n,
                    json_view(*v) == JsonView::Obj(ev),
                    spec_format_entries(ev.take(i as int)) == Some(downloads.deep_view()),
                decreases n - i,
            {
                let entry = &entries[i];
                proof {
                    lemma_entry_views_index(entries@, i as int);
                    assert(ev.take(i + 1).drop_last() =~= ev.take(i as int));
                    assert(ev.take(i + 1).last() == ev[i as int]);
                }
                match req_string(&entry.1, "url") {
                    Ok(url) => {
                        let ghost ddv = downloads.deep_view();
                        downloads.push((entry.0.clone(), DigitalItemDownload { url }));
                        proof {
                            assert(downloads.deep_view() =~~= ddv.push(
                                (ev[i as int].0, spec_req_string(ev[i as int].1, "url"@)->Some_0),
                            ));
                        }
                    },
                    Err(e) => {
                        proof {
                            lemma_format_entries_none(ev, i as int);
                        }
                        return Err(e);
                    },
                }
                i += 1;
            }
            proof {
                assert(ev.take(n as int) =~= ev);
            }
            Ok(downloads)
        },
        _ => Err(ApiError::ParseFailure),
    }
}

/// The release a JSON value denotes.
pub open spec fn spec_digital_item(v: JsonView) -> Option<DigitalItemView> {
    match spec_opt_format_downloads(v) {
        None => None,
        Some(downloads) => match spec_opt_string(v, "package_release_date"@) {
            None => None,
            Some(package_release_date) => match spec_req_string(v, "title"@) {
                None => None,
                Some(title) => match spec_req_string(v, "artist"@) {
                    None => None,
                    Some(artist) => match spec_opt_string(v, "download_type"@) {
                        None => None,
                        Some(download_type) => match spec_req_string(v, "download_type_str"@) {
                            None => None,
                            Some(download_type_str) => match spec_req_string(v, "item_type"@) {
                                None => None,
                                Some(item_type) => Some(
                                    DigitalItemView {
                                        downloads,
                                        package_release_date,
                                        title,
                                        artist,
                                        download_type,
                                        download_type_str,
                                        item_type,
                                    },
                                ),
                            },
                        },
                    },
                },
            },
        },
    }
}

/// Reads one release from the detail page blob's list.
fn parse_digital_item(v: &JsonValue) -> (r: Result<DigitalItem, ApiError>)
    ensures
        match spec_digital_item(json_view(*v)) {
            Some(it) => r matches Ok(d) && d@ == it,
            None => r matches Err(e) && e matches ApiError::ParseFailure,
        },
{
    let downloads = match v.get("downloads") {
        Some(f) => match f {
            JsonValue::Null => None,
            _ => match parse_format_downloads(f) {
                Ok(d) => Some(d),
                Err(e) => {
                    return Err(e);
                },
            },
        },
        None => None,
    };
    let package_release_date = match opt_string(v, "package_release_date") {
        Ok(x) => x,
        Err(e) => {
            return Err(e);
        },
    };
    let title = match req_string(v, "title") {
        Ok(x) => x,
        Err(e) => {
            return Err(e);
        },
    };
    let artist = match req_string(v, "artist") {
        Ok(x) => x,
        Err(e) => {
            return Err(e);
        },
    };
    let download_type = match opt_string(v, "download_type") {
        Ok(x) => x,
        Err(e) => {
            return Err(e);
        },
    };
    let download_type_str = match req_string(v, "download_type_str") {
        Ok(x) => x,
        Err(e) => {
            return Err(e);
        },
    };
    let item_type = match req_string(v, "item_type") {
        Ok(x) => x,
        Err(e) => {
            return Err(e);
        },
    };
    Ok(
        DigitalItem {
            downloads,
            package_release_date,
            title,
            artist,
            download_type,
            download_type_str,
            item_type,
        },
    )
}

/// The release list a sequence of JSON values denotes.
pub open spec fn spec_digital_items(elems: Seq<JsonView>) -> Option<Seq<DigitalItemView>>
    decreases elems.len(),
{
    if elems.len() == 0 {
        Some(Seq::empty())
    } else {
        match spec_digital_items(elems.drop_last()) {
            None => None,
            Some(s) => match spec_digital_item(elems.last()) {
                None => None,
                Some(it) => Some(s.push(it)),
            },
        }
    }
}

proof fn lemma_digital_items_none(elems: Seq<JsonView>, i: int)
    requires
        0 <= i < elems.len(),
        spec_digital_item(elems[i]) is None,
    ensures
        spec_digital_items(elems) is None,
    decreases elems.len(),
{
    if i < elems.len() - 1 {
        assert(elems.drop_last()[i] == elems[i]);
        lemma_digital_items_none(elems.drop_last(), i);
    }
}

/// The release list a JSON value denotes: an array of releases.
pub open spec fn spec_digital_item_array(v: JsonView) -> Option<Seq<DigitalItemView>> {
    match v {
        JsonView::Arr(elems) => spec_digital_items(elems),
        _ => None,
    }
}

/// Reads an array of releases.
fn parse_digital_item_array(v: &JsonValue) -> (r: Result<Vec<DigitalItem>, ApiError>)
    ensures
        match spec_digital_item_array(json_view(*v)) {
            Some(s) => r matches Ok(items) && items.deep_view() == s,
            None => r matches Err(e) && e matches ApiError::ParseFailure,
        },
{
    match v {
        JsonValue::Arr(elems) => {
            let ghost evs = json_views(elems@);
            let mut digital_items: Vec<DigitalItem> = Vec::new();
            let n = elems.len();
            let mut i: usize = 0;
            proof {
                lemma_json_views_index(elems@, 0);
                assert(evs.take(0) =~= Seq::<JsonView>::empty());
                assert(digital_items.deep_view() =~= Seq::<DigitalItemView>::empty());
            }
            while i < n
                invariant
                    i <= n,
                    n == elems@.len(),
                    evs == json_views(elems@),
                    evs.len() == n,
                    json_view(*v) == JsonView::Arr(evs),
                    spec_digital_items(evs.take(i as int)) == Some(digital_items.deep_view()),
                decreases n - i,
            {
                proof {
                    lemma_json_views_index(elems@, i as int);
                    assert(evs.take(i + 1).drop_last() =~= evs.take(i as int));
                    assert(evs.take(i + 1).last() == evs[i as int]);
                }
                match parse_digital_item(&elems[i]) {
                    Ok(item) => {
                        let ghost dv = digital_items.deep_view();
                        digital_items.push(item);
                        proof {
                            assert(digital_items.deep_view() =~~= dv.push(item@));
                        }
                    },
                    Err(e) => {
                        proof {
                            lemma_digital_items_none(evs, i as int);
                        }
                        return Err(e);
                    },
                }
                i += 1;
            }
            proof {
                assert(evs.take(n as int) =~= evs);
            }
            Ok(digital_items)
        },
        _ => Err(ApiError::ParseFailure),
    }
}

/// The release list given JSON text denotes: the `digital_items` array of
/// the detail page blob.
pub open spec fn spec_parse_items(s: Seq<char>) -> Option<Seq<DigitalItemView>> {
    match json_of(s) {
        Some(v) => match spec_get(v, "digital_items"@) {
            None => None,
            Some(w) => spec_digital_item_array(w),
        },
        None => None,
    }
}

/// Reads the detail page blob: the list of digital items it offers. Fails
/// exactly when the text is not valid JSON or not of the documented shape.
pub fn parse_items_data(blob: &str) -> (r: Result<ParsedItemsData, ApiError>)
    ensures
        match spec_parse_items(blob@) {
            Some(items) => r matches Ok(d) && d@ == items,
            None => r matches Err(e) && e matches ApiError::ParseFailure,
        },
{
    let v = match parse_json(blob) {
        Some(v) => v,
        None => {
            return Err(ApiError::ParseFailure);
        },
    };
    let field = match v.get("digital_items") {
        Some(f) => f,
        None => {
            return Err(ApiError::ParseFailure);
        },
    };
    match parse_digital_item_array(field) {
        Ok(digital_items) => Ok(ParsedItemsData { digital_items }),
        Err(e) => Err(e),
    }
}

/// The first of a detail page's digital items, or nothing when it lists
/// none.
pub fn first_digital_item(data: ParsedItemsData) -> (r: Option<DigitalItem>)
    ensures
        data.digital_items@.len() > 0 ==> r == Some(data.digital_items@[0]),
        data.digital_items@.len() == 0 ==> r is None,
{
    let mut items = data.digital_items;
    if items.len() == 0 {
        None
    } else {
        Some(items.remove(0))
    }
}

/// Resolves a detail page to its single digital item: nothing when the page
/// carries no blob or the blob lists no item; an error exactly when a blob
/// is there but malformed, so that a missing item and a corrupt response
/// stay distinguishable.
pub fn resolve_digital_item(html: &str) -> (r: Result<Option<DigitalItem>, ApiError>)
    ensures
        match pagedata_blob_of(html@) {
            None => r matches Ok(i) && i is None,
            Some(blob) => match spec_parse_items(blob) {
                None => r matches Err(e) && e matches ApiError::ParseFailure,
                Some(items) => {
                    if items.len() == 0 {
                        r matches Ok(i) && i is None
                    } else {
                        r matches Ok(i) && i matches Some(item) && item@ == items[0]
                    }
                },
            },
        },
{
    match extract_pagedata_blob(html) {
        Some(blob) => match parse_items_data(blob.as_str()) {
            Ok(data) => {
                proof {
                    if data.digital_items@.len() > 0 {
                        assert(data@[0] == data.digital_items@[0]@);
                    }
                }
                Ok(first_digital_item(data))
            },
            Err(e) => Err(e),
        },
        None => Ok(None),
    }
}

/// The page a fan's collection landing resolves to: the full
/// identifier-to-download-URL map, and the page's display title.
pub struct BandcampPage {
    pub download_urls: DownloadsMap,
    pub page_name: String,
}

/// Whether a collection declaring this total and batch size has more items
/// than its initial batch carries, so that the rest must be paginated. An
/// unknown total needs no pagination; a known total with an unknown batch
/// size does.
pub open spec fn needs_pagination_sizes(item_count: Option<u16>, batch_size: Option<u16>) -> bool {
    match (item_count, batch_size) {
        (Some(total), Some(batch)) => total > batch,
        (Some(_), None) => true,
        (None, _) => false,
    }
}

/// Whether a collection declares more items than its initial batch carries.
pub open spec fn spec_needs_pagination(cd: CollectionData) -> bool {
    needs_pagination_sizes(cd.item_count, cd.batch_size)
}

/// Decides whether a collection's declared total exceeds its batch size.
pub fn needs_pagination(cd: &CollectionData) -> (r: bool)
    ensures
        r == spec_needs_pagination(*cd),
{
    match (&cd.item_count, &cd.batch_size) {
        (Some(total), Some(batch)) => *total > *batch,
        (Some(_), None) => true,
        (None, _) => false,
    }
}

/// What one run must fetch, decided from the landing page: the initial
/// batch, the fan identity for pagination requests, the continuation token
/// when the visible collection has more items than the batch carried, and
/// the page's display title. Hidden collection items are skipped and never
/// paginated.
pub struct CollectionFetchPlan {
    /// The initial identifier-to-download-URL batch of the landing page.
    pub initial: DownloadsMap,
    /// The fan identity every pagination request posts.
    pub fan_id: String,
    /// The first continuation token, when pagination is needed at all.
    pub pagination_token: Option<String>,
    /// The landing page's display title.
    pub page_name: String,
}

/// Turns the landing page blob into a fetch plan, or refuses the page: a
/// page that does not declare itself the authenticated fan's own cannot be
/// synchronized, which is how bad credentials surface. The page's display
/// title is handed in beside the blob and carried on the plan.
pub fn plan_collection_fetch(data: &ParsedFanpageData, page_name: String) -> (r: Result<
    CollectionFetchPlan,
    ApiError,
>)
    requires
        data.fan_data.is_own_page == Some(true) ==> (data.collection_data.redownload_urls
            matches Some(m) && m.wf()),
        (data.fan_data.is_own_page == Some(true) && spec_needs_pagination(data.collection_data))
            ==> data.collection_data.last_token is Some,
    ensures
        match r {
            Ok(p) => ({
                &&& data.fan_data.is_own_page == Some(true)
                &&& p.initial@ == data.collection_data.redownload_urls->Some_0@
                &&& p.initial.wf()
                &&& p.fan_id@ == data.fan_data.fan_id@
                &&& (spec_needs_pagination(data.collection_data) ==> (p.pagination_token
                    matches Some(t) && t@ == data.collection_data.last_token->Some_0@))
                &&& (!spec_needs_pagination(data.collection_data) ==> p.pagination_token is None)
                &&& p.page_name@ == page_name@
            }),
            Err(e) => data.fan_data.is_own_page != Some(true) && e matches ApiError::AccessDenied,
        },
{
    match &data.fan_data.is_own_page {
        Some(true) => {},
        _ => {
            return Err(ApiError::AccessDenied);
        },
    }
    let initial = match &data.collection_data.redownload_urls {
        Some(m) => m.duplicate(),
        None => {
            return Err(ApiError::AccessDenied);  // unreachable under the precondition
        },
    };
    let pagination_token = if needs_pagination(&data.collection_data) {
        match &data.collection_data.last_token {
            Some(t) => Some(t.clone()),
            None => None,  // unreachable under the precondition
        }
    } else {
        None
    };
    Ok(
        CollectionFetchPlan {
            initial,
            fan_id: data.fan_data.fan_id.clone(),
            pagination_token,
            page_name,
        },
    )
}

/// Merges one pagination response into the running map and decides whether
/// to continue: the token to post next while the service reports more items,
/// nothing once it does not.
pub fn paginate_step(acc: &mut DownloadsMap, page: &ParsedCollectionItems) -> (cont: Option<String>)
    requires
        old(acc).wf(),
        page.redownload_urls.wf(),
    ensures
        final(acc).wf(),
        final(acc)@ == old(acc)@.union_prefer_right(page.redownload_urls@),
        page.more_available ==> (cont matches Some(t) && t@ == page.last_token@),
        !page.more_available ==> cont is None,
{
    acc.extend(&page.redownload_urls);
    if page.more_available {
        Some(page.last_token.clone())
    } else {
        None
    }
}

/// The running map after the first `k` pagination responses are merged in,
/// later batches overwriting earlier entries under the same identifier.
pub open spec fn merged_maps(
    initial: Map<Seq<char>, Seq<char>>,
    pages: Seq<ParsedCollectionItems>,
    k: int,
) -> Map<Seq<char>, Seq<char>>
    decreases k,
{
    if k <= 0 {
        initial
    } else {
        merged_maps(initial, pages, k - 1).union_prefer_right(pages[k - 1].redownload_urls@)
    }
}

/// How many responses the pagination protocol consumes: up to and including
/// the first that reports no more items; nothing when every response reports
/// more.
pub open spec fn pages_consumed(pages: Seq<ParsedCollectionItems>) -> Option<int>
    decreases pages.len(),
{
    if pages.len() == 0 {
        None
    } else if !pages[0].more_available {
        Some(1)
    } else {
        match pages_consumed(pages.drop_first()) {
            Some(n) => Some(n + 1),
            None => None,
        }
    }
}

proof fn lemma_pages_consumed_is(pages: Seq<ParsedCollectionItems>, k: int)
    requires
        0 <= k < pages.len(),
        forall|j: int| 0 <= j < k ==> pages[j].more_available,
        !pages[k].more_available,
    ensures
        pages_consumed(pages) == Some(k + 1),
    decreases k,
{
    if k > 0 {
        let rest = pages.drop_first();
        assert forall|j: int| 0 <= j < k - 1 implies rest[j].more_available by {
            assert(rest[j] == pages[j + 1]);
        }
        assert(rest[k - 1] == pages[k]);
        lemma_pages_consumed_is(rest, k - 1);
    }
}

proof fn lemma_pages_consumed_none(pages: Seq<ParsedCollectionItems>)
    requires
        forall|j: int| 0 <= j < pages.len() ==> pages[j].more_available,
    ensures
        pages_consumed(pages) is None,
    decreases pages.len(),
{
    if pages.len() > 0 {
        let rest = pages.drop_first();
        assert forall|j: int| 0 <= j < rest.len() implies rest[j].more_available by {
            assert(rest[j] == pages[j + 1]);
        }
        lemma_pages_consumed_none(rest);
    }
}

/// Runs the whole pagination protocol against a recorded series of
/// responses, one response per request: the aggregated map, and the token
/// each request posted, in order. The protocol consumes responses while they
/// report more items and stops with the first that does not; a series that
/// never does exhausts the recording and yields nothing, as the real
/// protocol would never stop.
#[verifier::loop_isolation(false)]
pub fn paginate_pages(
    initial: DownloadsMap,
    first_token: String,
    pages: &Vec<ParsedCollectionItems>,
) -> (r: Option<(DownloadsMap, Vec<String>)>)
    requires
        initial.wf(),
        forall|i: int| 0 <= i < pages@.len() ==> (#[trigger] pages@[i]).redownload_urls.wf(),
    ensures
        match r {
            Some(res) => ({
                &&& pages_consumed(pages@) is Some
                &&& {
                    let k = pages_consumed(pages@)->Some_0;
                    &&& res.0.wf()
                    &&& res.0@ == merged_maps(initial@, pages@, k)
                    &&& res.1.deep_view() == seq![first_token@] + pages@.take(k - 1).map_values(
                        |p: ParsedCollectionItems| p.last_token@,
                    )
                }
            }),
            None => pages_consumed(pages@) is None,
        },
{
    let ghost initial_map = initial@;
    let mut acc = initial;
    let mut tokens: Vec<String> = Vec::new();
    tokens.push(first_token);
    let mut k: usize = 0;
    proof {
        assert(tokens.deep_view() =~= seq![first_token@] + pages@.take(0).map_values(
            |p: ParsedCollectionItems| p.last_token@,
        ));
    }
    while k < pages.len()
        invariant
            k <= pages@.len(),
            forall|i: int| 0 <= i < pages@.len() ==> (#[trigger] pages@[i]).redownload_urls.wf(),
            acc.wf(),
            acc@ == merged_maps(initial_map, pages@, k as int),
            forall|j: int| 0 <= j < k ==> pages@[j].more_available,
            tokens.deep_view() == seq![first_token@] + pages@.take(k as int).map_values(
                |p: ParsedCollectionItems| p.last_token@,
            ),
        decreases pages@.len() - k,
    {
        let page = &pages[k];
        let cont = paginate_step(&mut acc, page);
        match cont {
            None => {
                proof {
                    lemma_pages_consumed_is(pages@, k as int);
                    assert(acc@ == merged_maps(initial_map, pages@, k + 1));
                    assert(pages@.take((k + 1) - 1) =~= pages@.take(k as int));
                }
                return Some((acc, tokens));
            },
            Some(t) => {
                let ghost tdv = tokens.deep_view();
                tokens.push(t);
                proof {
                    assert(tokens.deep_view() =~= tdv.push(t@));
                    assert(tokens.deep_view() =~= seq![first_token@] + pages@.take(
                        k + 1,
                    ).map_values(|p: ParsedCollectionItems| p.last_token@));
                }
                k += 1;
            },
        }
    }
    proof {
        lemma_pages_consumed_none(pages@);
    }
    None
}

/// The aggregated map holds exactly the identifiers of the initial batch and
/// of every merged page's batch: pagination loses nothing and invents
/// nothing.
pub proof fn lemma_pagination_completeness(
    initial: Map<Seq<char>, Seq<char>>,
    pages: Seq<ParsedCollectionItems>,
    k: int,
)
    requires
        0 <= k <= pages.len(),
    ensures
        forall|id: Seq<char>|
            #[trigger] merged_maps(initial, pages, k).dom().contains(id) <==> (initial.dom().contains(
                id,
            ) || exists|j: int|
                0 <= j < k && (#[trigger] pages[j]).redownload_urls@.dom().contains(id)),
    decreases k,
{
    if k > 0 {
        lemma_pagination_completeness(initial, pages, k - 1);
        assert forall|id: Seq<char>|
            #[trigger] merged_maps(initial, pages, k).dom().contains(id) implies (initial.dom().contains(
            id,
        ) || exists|j: int|
            0 <= j < k && (#[trigger] pages[j]).redownload_urls@.dom().contains(id)) by {
            if merged_maps(initial, pages, k - 1).dom().contains(id) {
                if !initial.dom().contains(id) {
                    let w = choose|j: int|
                        0 <= j < k - 1 && (#[trigger] pages[j]).redownload_urls@.dom().contains(id);
                    assert(pages[w].redownload_urls@.dom().contains(id));
                }
            } else {
                assert(pages[k - 1].redownload_urls@.dom().contains(id));
            }
        }
        assert forall|id: Seq<char>|
            (initial.dom().contains(id) || exists|j: int|
                0 <= j < k && (#[trigger] pages[j]).redownload_urls@.dom().contains(
                    id,
                )) implies #[trigger] merged_maps(initial, pages, k).dom().contains(id) by {
            if initial.dom().contains(id) {
                assert(merged_maps(initial, pages, k - 1).dom().contains(id));
            } else {
                let w = choose|j: int|
                    0 <= j < k && (#[trigger] pages[j]).redownload_urls@.dom().contains(id);
                if w < k - 1 {
                    assert(exists|j: int|
                        0 <= j < k - 1 && (#[trigger] pages[j]).redownload_urls@.dom().contains(
                            id,
                        ));
                    assert(merged_maps(initial, pages, k - 1).dom().contains(id));
                } else {
                    assert(pages[k - 1].redownload_urls@.dom().contains(id));
                }
            }
        }
    }
}

/// The separator between the parts of a content-disposition header.
pub open spec fn disposition_separator() -> Seq<char> {
    seq![';', ' ']
}

/// The prefix of the header part that names the file.
pub open spec fn filename_prefix() -> Seq<char> {
    seq!['f', 'i', 'l', 'e', 'n', 'a', 'm', 'e', '=']
}

/// The first header part naming the file, if one is there.
pub open spec fn first_filename_part(parts: Seq<Seq<char>>) -> Option<Seq<char>>
    decreases parts.len(),
{
    if parts.len() == 0 {
        None
    } else if starts_with(parts[0], filename_prefix()) {
        Some(parts[0])
    } else {
        first_filename_part(parts.drop_first())
    }
}

/// The file name a content-disposition header carries: what follows
/// `filename=` in the first part so marked, quotes trimmed; nothing when no
/// part is so marked.
pub open spec fn spec_filename_from_disposition(header: Seq<char>) -> Option<Seq<char>> {
    match first_filename_part(split_on(header, disposition_separator())) {
        Some(part) => Some(trim_quotes(part.skip(filename_prefix().len() as int))),
        None => None,
    }
}

/// Reads the downloaded file's name out of a content-disposition header. The
/// header text may carry characters beyond ASCII; the caller decodes the raw
/// header bytes before handing them in.
pub fn filename_from_disposition(header: &str) -> (r: Option<String>)
    ensures
        match r {
            Some(name) => spec_filename_from_disposition(header@) == Some(name@),
            None => spec_filename_from_disposition(header@) is None,
        },
{
    let n = header.unicode_len();
    let mut pos: usize = 0;
    let mut done = false;
    proof {
        reveal_strlit("filename=");
        assert("filename="@ =~= filename_prefix());
        assert(header@.skip(0) =~= header@);
    }
    while !done
        invariant
            pos <= n,
            n == header@.len(),
            "filename="@ == filename_prefix(),
            !done ==> first_filename_part(split_on(header@, disposition_separator()))
                == first_filename_part(split_on(header@.skip(pos as int), disposition_separator())),
            done ==> first_filename_part(split_on(header@, disposition_separator())) is None,
        decreases n - pos + (if done {
            0int
        } else {
            1int
        }),
    {
        let ghost rest = header@.skip(pos as int);
        let mut j: usize = pos;
        let mut found = false;
        while !found && n - j > 1
            invariant
                pos <= j <= n,
                n == header@.len(),
                forall|t: int| pos <= t < j ==> !occurrence_at(header@, disposition_separator(), t),
                found ==> (j + 1 < n && header@[j as int] == ';' && header@[j + 1] == ' '),
            decreases n - j + (if found {
                0int
            } else {
                1int
            }),
        {
            if header.get_char(j) == ';' && header.get_char(j + 1) == ' ' {
                found = true;
            } else {
                proof {
                    assert(!occurrence_at(header@, disposition_separator(), j as int)) by {
                        if occurrence_at(header@, disposition_separator(), j as int) {
                            assert(header@.subrange(j as int, j + 2)[0] == header@[j as int]);
                            assert(header@.subrange(j as int, j + 2)[1] == header@[j + 1]);
                        }
                    }
                }
                j += 1;
            }
        }
        let seg_end = if found {
            j
        } else {
            n
        };
        proof {
            assert forall|t: int|
                0 <= t < seg_end - pos implies !occurrence_at(rest, disposition_separator(), t) by {
                if occurrence_at(rest, disposition_separator(), t) {
                    assert(rest.subrange(t, t + 2) =~= header@.subrange(pos + t, pos + t + 2));
                    assert(occurrence_at(header@, disposition_separator(), pos + t));
                    if !found && pos + t >= j {
                        assert(pos + t + 2 <= n);
                        assert(j + 1 >= n);
                    }
                }
            }
            if found {
                assert(rest.subrange(j - pos, j - pos + 2) =~= header@.subrange(j as int, j + 2));
                assert(header@.subrange(j as int, j + 2) =~= disposition_separator());
                assert(occurrence_at(rest, disposition_separator(), j - pos));
            }
            lemma_find_sub_is(rest, disposition_separator(), seg_end - pos);
        }
        let ghost part = rest.take(seg_end - pos);
        proof {
            if found {
                assert(split_on(rest, disposition_separator()) == seq![part] + split_on(
                    rest.skip(seg_end - pos + 2),
                    disposition_separator(),
                ));
            } else {
                assert(split_on(rest, disposition_separator()) == seq![rest]);
                assert(part =~= rest);
            }
            assert(part =~= header@.subrange(pos as int, seg_end as int));
        }
        let mut is_match = false;
        if seg_end - pos >= 9 {
            let candidate = header.substring_char(pos, pos + 9);
            if crate::util::str_eq(candidate, "filename=") {
                is_match = true;
            } else {
                proof {
                    assert(part.take(9) =~= header@.subrange(pos as int, pos + 9));
                    assert(!starts_with(part, filename_prefix()));
                }
            }
        } else {
            proof {
                assert(!starts_with(part, filename_prefix()));
            }
        }
        if is_match {
            let raw = header.substring_char(pos + 9, seg_end);
            let name = crate::util::trim_quotes_exec(raw);
            proof {
                assert(part.take(9) =~= header@.subrange(pos as int, pos + 9));
                assert(starts_with(part, filename_prefix()));
                assert(first_filename_part(split_on(rest, disposition_separator())) == Some(part));
                assert(raw@ =~= part.skip(9));
            }
            return Some(name);
        }
        proof {
            if found {
                assert((seq![part] + split_on(rest.skip(seg_end - pos + 2), disposition_separator())).drop_first()
                    =~= split_on(rest.skip(seg_end - pos + 2), disposition_separator()));
                assert(first_filename_part(split_on(rest, disposition_separator()))
                    == first_filename_part(split_on(rest.skip(seg_end - pos + 2), disposition_separator())));
                assert(rest.skip(seg_end - pos + 2) =~= header@.skip(seg_end + 2));
            } else {
                assert(seq![rest][0] == rest);
                assert(!starts_with(rest, filename_prefix()));
                assert((seq![rest]).drop_first() =~= Seq::<Seq<char>>::empty());
                assert(first_filename_part(Seq::<Seq<char>>::empty()) is None);
                assert(first_filename_part(split_on(rest, disposition_separator())) is None);
            }
        }
        if found {
            pos = j + 2;
        } else {
            done = true;
        }
    }
    None
}

/// Scrapes the landing page and turns it into a fetch plan in one step,
/// checking the blob's shape on the way: a malformed or absent blob, a blob
/// without the initial batch or without a needed continuation token, and a
/// page without a display title do not parse, and a page that is not the
/// authenticated fan's own is refused.
pub fn plan_from_landing_page(html: &str) -> (r: Result<CollectionFetchPlan, ApiError>)
    ensures
        match pagedata_blob_of(html@) {
            None => r matches Err(e) && e matches ApiError::ParseFailure,
            Some(blob) => match spec_parse_fanpage(blob) {
                None => r matches Err(e) && e matches ApiError::ParseFailure,
                Some(fp) => {
                    if fp.fan_data.is_own_page != Some(true) {
                        r matches Err(e) && e matches ApiError::AccessDenied
                    } else if fp.collection_data.redownload_urls is None {
                        r matches Err(e) && e matches ApiError::ParseFailure
                    } else if needs_pagination_sizes(
                        fp.collection_data.item_count,
                        fp.collection_data.batch_size,
                    ) && fp.collection_data.last_token is None {
                        r matches Err(e) && e matches ApiError::ParseFailure
                    } else if page_title_of(html@) is None {
                        r matches Err(e) && e matches ApiError::ParseFailure
                    } else {
                        &&& r matches Ok(p)
                        &&& p.initial@ == fp.collection_data.redownload_urls->Some_0
                        &&& p.initial.wf()
                        &&& p.fan_id@ == fp.fan_data.fan_id
                        &&& p.page_name@ == page_title_of(html@)->Some_0
                        &&& (needs_pagination_sizes(
                            fp.collection_data.item_count,
                            fp.collection_data.batch_size,
                        ) ==> (p.pagination_token matches Some(t) && t@
                            == fp.collection_data.last_token->Some_0))
                        &&& (!needs_pagination_sizes(
                            fp.collection_data.item_count,
                            fp.collection_data.batch_size,
                        ) ==> p.pagination_token is None)
                    }
                },
            },
        },
{
    let data = match scrape_fanpage(html) {
        Ok(d) => d,
        Err(e) => {
            return Err(e);
        },
    };
    match &data.fan_data.is_own_page {
        Some(true) => {},
        _ => {
            return Err(ApiError::AccessDenied);
        },
    }
    if data.collection_data.redownload_urls.is_none() {
        return Err(ApiError::ParseFailure);
    }
    if needs_pagination(&data.collection_data) && data.collection_data.last_token.is_none() {
        return Err(ApiError::ParseFailure);
    }
    let page_name = match extract_page_title(html) {
        Some(t) => t,
        None => {
            return Err(ApiError::ParseFailure);
        },
    };
    plan_collection_fetch(&data, page_name)
}

} // verus!
