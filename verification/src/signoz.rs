//! The SigNoz side of monitoring: where requests go, what responses mean,
//! planned-maintenance windows and the status summary.
use vstd::prelude::*;

use crate::device_fields::utf8_len;
use crate::device_fields::utf8_length_at_most;
use crate::dns_checks::trimmed_nonempty;
use crate::json::{
    as_array, as_str, as_u64, get, get_array, push_field, Json, JsonNumber, JsonValue, Number,
};
use crate::onboarding::{lossy_text, utf8_lossy};
use crate::split::{lemma_split_pieces_exclude, split, split_char, views};
use crate::text::{
    chars_of, decimal, lemma_trim_idempotent, lemma_trim_within, owned, push_all, push_decimal, str_eq, trim, trim_end_char, trimmed,
    trimmed_end_char,
};

verus! {

pub const RULES_PATH: &'static str = "/api/v2/rules";

pub const DOWNTIME_PATH: &'static str = "/api/v1/downtime_schedules";

/// Why a SigNoz operation was refused.
#[derive(Debug)]
pub enum SignozError {
    MissingApiKey,
    InvalidUrl,
    NotHttp,
    MissingHost,
    HttpStatus { status: String, detail: String },
    InvalidJson,
    UnrecognizedDowntimeId,
    MissingDowntimeFields,
    DowntimeInputTooLong,
    InvalidDowntimeId,
}

/// The text each refusal carries.
pub open spec fn signoz_error_text(e: SignozError) -> Seq<char> {
    match e {
        SignozError::MissingApiKey => "NEXUS_SIGNOZ_API_KEY is not configured"@,
        SignozError::InvalidUrl => "invalid NEXUS_SIGNOZ_URL"@,
        SignozError::NotHttp => "Nexus SigNoz integration currently requires an internal http URL"@,
        SignozError::MissingHost => "SigNoz URL is missing a host"@,
        SignozError::HttpStatus { status, detail } => "SigNoz API returned "@ + status@ + ": "@ + detail@,
        SignozError::InvalidJson => "SigNoz API returned invalid JSON"@,
        SignozError::UnrecognizedDowntimeId => "SigNoz did not return a recognizable downtime id"@,
        SignozError::MissingDowntimeFields => "name, timezone, start_time and end_time are required"@,
        SignozError::DowntimeInputTooLong => "planned-maintenance input exceeds the supported length"@,
        SignozError::InvalidDowntimeId => "invalid SigNoz planned-maintenance id"@,
    }
}

impl SignozError {
    pub fn message(&self) -> (r: String)
        ensures
            r@ == signoz_error_text(*self),
    {
        match self {
            SignozError::MissingApiKey => owned("NEXUS_SIGNOZ_API_KEY is not configured"),
            SignozError::InvalidUrl => owned("invalid NEXUS_SIGNOZ_URL"),
            SignozError::NotHttp => owned("Nexus SigNoz integration currently requires an internal http URL"),
            SignozError::MissingHost => owned("SigNoz URL is missing a host"),
            SignozError::HttpStatus { status, detail } => {
                let mut r = owned("SigNoz API returned ");
                push_all(&mut r, status.as_str());
                push_all(&mut r, ": ");
                push_all(&mut r, detail.as_str());
                r
            },
            SignozError::InvalidJson => owned("SigNoz API returned invalid JSON"),
            SignozError::UnrecognizedDowntimeId => owned("SigNoz did not return a recognizable downtime id"),
            SignozError::MissingDowntimeFields => owned("name, timezone, start_time and end_time are required"),
            SignozError::DowntimeInputTooLong => owned("planned-maintenance input exceeds the supported length"),
            SignozError::InvalidDowntimeId => owned("invalid SigNoz planned-maintenance id"),
        }
    }
}

// ---------------------------------------------------------------------------
// Where requests go
// ---------------------------------------------------------------------------
/// Name for what `url::Url::parse(text)` gives, read back as plain parts:
/// scheme, host (`host_str`), port (`port_or_known_default`) and path; `None`
/// when the text does not parse.
pub uninterp spec fn url_parts(text: Seq<char>) -> Option<
    (Seq<char>, Option<Seq<char>>, Option<u16>, Seq<char>),
>;

/// The parts of a parsed URL.
pub struct UrlParts {
    pub scheme: String,
    pub host: Option<String>,
    pub port: Option<u16>,
    pub path: String,
}

pub open spec fn opt_text(o: Option<String>) -> Option<Seq<char>> {
    match o {
        Some(s) => Some(s@),
        None => None,
    }
}

pub open spec fn parts_view(p: Option<UrlParts>) -> Option<
    (Seq<char>, Option<Seq<char>>, Option<u16>, Seq<char>),
> {
    match p {
        Some(u) => Some((u.scheme@, opt_text(u.host), u.port, u.path@)),
        None => None,
    }
}

/// Parses `text` with `url::Url::parse` and reads its scheme, host, port (or
/// the scheme's known default) and path. Claimed: the parts are those of the
/// name `url_parts` for `text`, so equal texts give equal parts; nothing is
/// claimed of what the parser accepts.
#[verifier::external_body]
fn parse_url(text: &str) -> (r: Option<UrlParts>)
    ensures
        parts_view(r) == url_parts(text@),
{
    match url::Url::parse(text) {
        Ok(u) => Some(
            UrlParts {
                scheme: u.scheme().to_string(),
                host: match u.host_str() {
                    Some(h) => Some(h.to_string()),
                    None => None,
                },
                port: u.port_or_known_default(),
                path: u.path().to_string(),
            },
        ),
        Err(_) => None,
    }
}

/// Where a SigNoz API request goes.
pub struct SignozTarget {
    pub host: String,
    pub port: u16,
    pub uri: String,
}

/// The target of a request for `api_path` on a SigNoz base URL with the given
/// parts: only plain `http` with a host is accepted; the port defaults to 80;
/// the request URI is the base path without trailing `/`, then `api_path`.
pub open spec fn target_spec(
    parts: Option<(Seq<char>, Option<Seq<char>>, Option<u16>, Seq<char>)>,
    api_path: Seq<char>,
) -> Result<(Seq<char>, u16, Seq<char>), SignozError> {
    match parts {
        None => Err(SignozError::InvalidUrl),
        Some((scheme, host, port, path)) => if scheme != "http"@ {
            Err(SignozError::NotHttp)
        } else {
            match host {
                None => Err(SignozError::MissingHost),
                Some(h) => Ok(
                    (
                        h,
                        match port {
                            Some(p) => p,
                            None => 80u16,
                        },
                        trim_end_char(path, '/') + api_path,
                    ),
                ),
            }
        },
    }
}

pub open spec fn target_view(r: Result<SignozTarget, SignozError>) -> Result<
    (Seq<char>, u16, Seq<char>),
    SignozError,
> {
    match r {
        Ok(t) => Ok((t.host@, t.port, t.uri@)),
        Err(e) => Err(e),
    }
}

/// The request target for `api_path` given the parsed base URL (see `target_spec`).
pub fn signoz_target_from(parts: Option<UrlParts>, api_path: &str) -> (r: Result<
    SignozTarget,
    SignozError,
>)
    ensures
        target_view(r) == target_spec(parts_view(parts), api_path@),
{
    let p = match parts {
        Some(p) => p,
        None => return Err(SignozError::InvalidUrl),
    };
    if !str_eq(p.scheme.as_str(), "http") {
        return Err(SignozError::NotHttp);
    }
    let host = match p.host {
        Some(h) => h,
        None => return Err(SignozError::MissingHost),
    };
    let port = match p.port {
        Some(n) => n,
        None => 80u16,
    };
    let mut uri = trimmed_end_char(p.path.as_str(), '/');
    push_all(&mut uri, api_path);
    Ok(SignozTarget { host, port, uri })
}

/// The request target for `api_path` on the SigNoz at `base` (see `target_spec`).
pub fn signoz_target(base: &str, api_path: &str) -> (r: Result<SignozTarget, SignozError>)
    ensures
        target_view(r) == target_spec(url_parts(base@), api_path@),
{
    signoz_target_from(parse_url(base), api_path)
}

/// The path of one planned-maintenance window.
pub open spec fn downtime_path_spec(id: Seq<char>) -> Seq<char> {
    DOWNTIME_PATH@ + "/"@ + id
}

pub fn downtime_path(id: &str) -> (r: String)
    ensures
        r@ == downtime_path_spec(id@),
{
    let mut r = owned(DOWNTIME_PATH);
    push_all(&mut r, "/");
    push_all(&mut r, id);
    r
}

// ---------------------------------------------------------------------------
// What responses mean
// ---------------------------------------------------------------------------
/// What a response holds: an error unless the status is 2xx; otherwise
/// nothing for an empty body, else the body to be read as JSON.
pub open spec fn response_spec(code: u16, status: Seq<char>, body: Seq<u8>) -> Result<
    Option<Seq<u8>>,
    (Seq<char>, Seq<char>),
> {
    if !(200 <= code <= 299) {
        Err((status, utf8_lossy(body)))
    } else if body.len() == 0 {
        Ok(None)
    } else {
        Ok(Some(body))
    }
}

/// Sorts a response by its status code `code` (shown as `status`) and body
/// (see `response_spec`).
pub fn response_body(code: u16, status: String, body: Vec<u8>) -> (r: Result<
    Option<Vec<u8>>,
    SignozError,
>)
    ensures
        match (r, response_spec(code, status@, body@)) {
            (Ok(Some(b)), Ok(Some(want))) => b@ == want,
            (Ok(None), Ok(None)) => true,
            (Err(SignozError::HttpStatus { status: s, detail: d }), Err((ws, wd))) => s@ == ws && d@
                == wd,
            _ => false,
        },
{
    if code < 200 || code > 299 {
        let detail = lossy_text(body.as_slice());
        return Err(SignozError::HttpStatus { status, detail });
    }
    if body.len() == 0 {
        Ok(None)
    } else {
        Ok(Some(body))
    }
}

/// Size of a listing: an array itself, or the first of the given members
/// that is an array.
pub open spec fn collection_count(value: Json, keys: Seq<Seq<char>>) -> Option<nat>
    decreases keys.len(),
{
    match as_array(value) {
        Some(a) => Some(a.len()),
        None => if keys.len() == 0 {
            None
        } else {
            match get_array(value, keys[0]) {
                Some(a) => Some(a.len()),
                None => collection_count(value, keys.drop_first()),
            }
        },
    }
}

pub open spec fn str_views(keys: Seq<&str>) -> Seq<Seq<char>> {
    keys.map_values(|k: &str| k@)
}

/// Size of a listing (see `collection_count`).
pub fn count_collection(value: &JsonValue, keys: &[&str]) -> (r: Option<usize>)
    ensures
        match r {
            Some(n) => collection_count(value@, str_views(keys@)) == Some(n as nat),
            None => collection_count(value@, str_views(keys@)) is None,
        },
{
    if let Some(a) = value.as_array() {
        assert(JsonValue::Array(*a)@->Array_0.len() == a.len());
        return Some(a.len());
    }
    let ghost kv = str_views(keys@);
    assert(kv.skip(0) =~= kv);
    let mut i: usize = 0;
    while i < keys.len()
        invariant
            i <= keys.len(),
            kv == str_views(keys@),
            as_array(value@) is None,
            collection_count(value@, kv) == collection_count(value@, kv.skip(i as int)),
        decreases keys.len() - i,
    {
        let ghost rest = kv.skip(i as int);
        assert(rest[0] == keys@[i as int]@);
        assert(rest.drop_first() =~= kv.skip(i + 1));
        match value.get(keys[i]) {
            Some(v) => {
                if let Some(a) = v.as_array() {
                    assert(JsonValue::Array(*a)@->Array_0.len() == a.len());
                    return Some(a.len());
                }
            },
            None => {},
        }
        i += 1;
    }
    None
}

/// `value.pointer(path)` for a path of member names.
pub open spec fn pointer(value: Json, path: Seq<Seq<char>>) -> Option<Json>
    decreases path.len(),
{
    if path.len() == 0 {
        Some(value)
    } else {
        match get(value, path[0]) {
            Some(v) => pointer(v, path.drop_first()),
            None => None,
        }
    }
}

/// Where a created downtime's id may stand, in the order they are tried.
pub open spec fn downtime_id_paths() -> Seq<Seq<Seq<char>>> {
    seq![
        seq!["id"@],
        seq!["data"@, "id"@],
        seq!["data"@, "downtimeSchedule"@, "id"@],
        seq!["downtimeSchedule"@, "id"@],
    ]
}

/// The id at one place: a string as it is, an unsigned number in decimal.
pub open spec fn id_at(value: Json, path: Seq<Seq<char>>) -> Option<Seq<char>> {
    match pointer(value, path) {
        Some(v) => match as_str(v) {
            Some(s) => Some(s),
            None => match as_u64(v) {
                Some(n) => Some(decimal(n as nat)),
                None => None,
            },
        },
        None => None,
    }
}

/// The id of a created downtime: the first place of `downtime_id_paths` that holds one.
pub open spec fn downtime_id_in(value: Json, paths: Seq<Seq<Seq<char>>>) -> Option<Seq<char>>
    decreases paths.len(),
{
    if paths.len() == 0 {
        None
    } else {
        match id_at(value, paths[0]) {
            Some(s) => Some(s),
            None => downtime_id_in(value, paths.drop_first()),
        }
    }
}

fn id_at_path(value: &JsonValue, path: &[&str]) -> (r: Option<String>)
    ensures
        match r {
            Some(s) => id_at(value@, str_views(path@)) == Some(s@),
            None => id_at(value@, str_views(path@)) is None,
        },
{
    let ghost pv = str_views(path@);
    let mut cur: &JsonValue = value;
    assert(pv.skip(0) =~= pv);
    let mut i: usize = 0;
    while i < path.len()
        invariant
            i <= path.len(),
            pv == str_views(path@),
            pointer(value@, pv) == pointer(cur@, pv.skip(i as int)),
        decreases path.len() - i,
    {
        let ghost rest = pv.skip(i as int);
        assert(rest[0] == path@[i as int]@);
        assert(rest.drop_first() =~= pv.skip(i + 1));
        match cur.get(path[i]) {
            Some(v) => {
                cur = v;
            },
            None => return None,
        }
        i += 1;
    }
    assert(pv.skip(path.len() as int) =~= Seq::<Seq<char>>::empty());
    if let Some(s) = cur.as_str() {
        return Some(owned(s.as_str()));
    }
    match cur.as_u64() {
        Some(n) => {
            let mut t = String::new();
            push_decimal(&mut t, n);
            assert(t@ =~= decimal(n as nat));
            Some(t)
        },
        None => None,
    }
}

/// The id SigNoz gave a created downtime (see `downtime_id_in`); refused when
/// none of the known places holds one.
pub fn extract_downtime_id(response: &JsonValue) -> (r: Result<String, SignozError>)
    ensures
        match r {
            Ok(s) => downtime_id_in(response@, downtime_id_paths()) == Some(s@),
            Err(e) => downtime_id_in(response@, downtime_id_paths()) is None && e
                == SignozError::UnrecognizedDowntimeId,
        },
{
    let ghost ps = downtime_id_paths();
    let p0: [&str; 1] = ["id"];
    let p1: [&str; 2] = ["data", "id"];
    let p2: [&str; 3] = ["data", "downtimeSchedule", "id"];
    let p3: [&str; 2] = ["downtimeSchedule", "id"];
    assert(str_views(p0@) =~= ps[0]);
    assert(str_views(p1@) =~= ps[1]);
    assert(str_views(p2@) =~= ps[2]);
    assert(str_views(p3@) =~= ps[3]);
    assert(ps.drop_first().drop_first().drop_first().drop_first() =~= Seq::<Seq<Seq<char>>>::empty());
    proof {
        reveal_with_fuel(downtime_id_in, 5);
    }
    if let Some(s) = id_at_path(response, &p0) {
        return Ok(s);
    }
    if let Some(s) = id_at_path(response, &p1) {
        assert(ps.drop_first()[0] == ps[1]);
        return Ok(s);
    }
    if let Some(s) = id_at_path(response, &p2) {
        assert(ps.drop_first().drop_first()[0] == ps[2]);
        return Ok(s);
    }
    if let Some(s) = id_at_path(response, &p3) {
        assert(ps.drop_first().drop_first().drop_first()[0] == ps[3]);
        return Ok(s);
    }
    assert(ps.drop_first().drop_first().drop_first()[0] == ps[3]);
    Err(SignozError::UnrecognizedDowntimeId)
}

// ---------------------------------------------------------------------------
// Planned-maintenance windows
// ---------------------------------------------------------------------------
/// Optional text, trimmed; blank text counts as none.
pub open spec fn optional_text(value: Option<Seq<char>>) -> Option<Seq<char>> {
    match value {
        Some(v) => if trim(v).len() > 0 {
            Some(trim(v))
        } else {
            None
        },
        None => None,
    }
}

pub open spec fn text_or_empty(value: Option<Seq<char>>) -> Seq<char> {
    match value {
        Some(v) => v,
        None => Seq::empty(),
    }
}

/// Optional text, trimmed, or nothing when blank (see `optional_text`).
pub fn normalize_optional_text(value: Option<String>) -> (r: Option<String>)
    ensures
        opt_text(r) == optional_text(opt_text(value)),
{
    match value {
        Some(v) => {
            let t = trimmed(v.as_str());
            if t.as_str().is_empty() {
                None
            } else {
                Some(t)
            }
        },
        None => None,
    }
}

/// Alert rule ids from a comma-separated list: each trimmed, blanks dropped.
pub open spec fn alert_ids_spec(value: Option<Seq<char>>) -> Seq<Seq<char>> {
    trimmed_nonempty(split(text_or_empty(value), ','))
}

/// The alert rule ids of a comma-separated list (see `alert_ids_spec`).
pub fn parse_alert_ids(value: Option<String>) -> (r: Vec<String>)
    ensures
        views(r@) == alert_ids_spec(opt_text(value)),
{
    let text = match value {
        Some(v) => v,
        None => String::new(),
    };
    let parts = split_char(text.as_str(), ',');
    let ghost pv = views(parts@);
    let mut out: Vec<String> = Vec::new();
    let mut i: usize = 0;
    assert(pv.take(0) =~= Seq::<Seq<char>>::empty());
    assert(views(out@) =~= trimmed_nonempty(pv.take(0)));
    while i < parts.len()
        invariant
            i <= parts.len(),
            pv == views(parts@),
            pv.len() == parts.len(),
            views(out@) == trimmed_nonempty(pv.take(i as int)),
        decreases parts.len() - i,
    {
        assert(pv.take(i + 1).drop_last() =~= pv.take(i as int));
        assert(pv.take(i + 1).last() == parts@[i as int]@);
        let t = trimmed(parts[i].as_str());
        if !t.as_str().is_empty() {
            let ghost before = views(out@);
            out.push(t);
            assert(views(out@) =~= before.push(trim(pv[i as int])));
        }
        i += 1;
    }
    assert(pv.take(parts.len() as int) =~= pv);
    out
}

proof fn lemma_trimmed_nonempty_members(ls: Seq<Seq<char>>, c: char)
    requires
        forall|j: int| 0 <= j < ls.len() ==> !(#[trigger] ls[j]).contains(c),
    ensures
        forall|i: int|
            0 <= i < trimmed_nonempty(ls).len() ==> {
                let a = #[trigger] trimmed_nonempty(ls)[i];
                a.len() > 0 && trim(a) == a && !a.contains(c)
            },
    decreases ls.len(),
{
    if ls.len() > 0 {
        let front = ls.drop_last();
        lemma_trimmed_nonempty_members(front, c);
        let t = trim(ls.last());
        lemma_trim_idempotent(ls.last());
        lemma_trim_within(ls.last(), c);
        let r = trimmed_nonempty(front);
        assert forall|i: int| 0 <= i < trimmed_nonempty(ls).len() implies {
            let a = #[trigger] trimmed_nonempty(ls)[i];
            a.len() > 0 && trim(a) == a && !a.contains(c)
        } by {
            if i < r.len() {
                assert(trimmed_nonempty(ls)[i] == r[i]);
            } else {
                assert(trimmed_nonempty(ls)[i] == t);
            }
        }
    }
}

/// Every alert id parsed from a comma-separated list is non-empty, has no
/// white space at either end, and holds no comma.
pub proof fn lemma_alert_ids_are_clean(value: Option<Seq<char>>)
    ensures
        forall|i: int|
            0 <= i < alert_ids_spec(value).len() ==> {
                let a = #[trigger] alert_ids_spec(value)[i];
                a.len() > 0 && trim(a) == a && !a.contains(',')
            },
{
    let parts = split(text_or_empty(value), ',');
    lemma_split_pieces_exclude(text_or_empty(value), ',', Seq::empty());
    lemma_trimmed_nonempty_members(parts, ',');
}

pub open spec fn str_array(items: Seq<Seq<char>>) -> Json {
    Json::Array(items.map_values(|t: Seq<char>| Json::Str(t)))
}

/// The schedule of a window.
pub open spec fn schedule_spec(timezone: Seq<char>, start: Seq<char>, end: Seq<char>) -> Json {
    Json::Object(
        seq![
            ("timezone"@, Json::Str(timezone)),
            ("startTime"@, Json::Str(start)),
            ("endTime"@, Json::Str(end)),
        ],
    )
}

/// The request body that creates a window.
pub open spec fn downtime_body(
    name: Seq<char>,
    description: Seq<char>,
    schedule: Json,
    alert_ids: Seq<Seq<char>>,
    scope: Seq<char>,
) -> Json {
    Json::Object(
        seq![
            ("name"@, Json::Str(name)),
            ("description"@, Json::Str(description)),
            ("schedule"@, schedule),
            ("alertIds"@, str_array(alert_ids)),
            ("scope"@, Json::Str(scope)),
        ],
    )
}

/// A window an operator asks for: name, timezone, start and end are required
/// (after trimming) and bounded in length (160, 128, 64 and 64 bytes); the
/// description and scope are optional, the alert ids a comma-separated list.
pub open spec fn downtime_request_spec(
    name: Seq<char>,
    timezone: Seq<char>,
    start_time: Seq<char>,
    end_time: Seq<char>,
    description: Option<Seq<char>>,
    scope: Option<Seq<char>>,
    alert_ids: Option<Seq<char>>,
) -> Result<Json, SignozError> {
    let (n, tz, st, et) = (trim(name), trim(timezone), trim(start_time), trim(end_time));
    if n.len() == 0 || tz.len() == 0 || st.len() == 0 || et.len() == 0 {
        Err(SignozError::MissingDowntimeFields)
    } else if utf8_len(n) > 160 || utf8_len(tz) > 128 || utf8_len(st) > 64 || utf8_len(et) > 64 {
        Err(SignozError::DowntimeInputTooLong)
    } else {
        Ok(
            downtime_body(
                n,
                text_or_empty(optional_text(description)),
                schedule_spec(tz, st, et),
                alert_ids_spec(alert_ids),
                text_or_empty(optional_text(scope)),
            ),
        )
    }
}

pub open spec fn json_result(r: Result<JsonValue, SignozError>) -> Result<Json, SignozError> {
    match r {
        Ok(v) => Ok(v@),
        Err(e) => Err(e),
    }
}

fn schedule(timezone: String, start: String, end: String) -> (r: JsonValue)
    ensures
        r@ == schedule_spec(timezone@, start@, end@),
{
    let mut f: Vec<(String, JsonValue)> = Vec::new();
    assert(JsonValue::Object(f)@->Object_0 =~= Seq::<(Seq<char>, Json)>::empty());
    let ghost (a, b, c) = (timezone@, start@, end@);
    push_field(&mut f, "timezone", JsonValue::Str(timezone));
    push_field(&mut f, "startTime", JsonValue::Str(start));
    push_field(&mut f, "endTime", JsonValue::Str(end));
    let r = JsonValue::Object(f);
    assert(r@->Object_0 =~= schedule_spec(a, b, c)->Object_0);
    r
}

fn string_array(items: Vec<String>) -> (r: JsonValue)
    ensures
        r@ == str_array(views(items@)),
{
    let ghost iv = views(items@);
    let mut out: Vec<JsonValue> = Vec::new();
    let mut rest = items;
    let mut i: usize = 0;
    assert(JsonValue::Array(out)@->Array_0 =~= str_array(iv.take(0))->Array_0);
    assert(views(rest@) =~= iv.skip(0));
    let count = rest.len();
    assert(iv.len() == count);
    while rest.len() > 0
        invariant
            i + rest.len() == iv.len(),
            iv.len() <= usize::MAX,
            views(rest@) == iv.skip(i as int),
            JsonValue::Array(out)@->Array_0 == str_array(iv.take(i as int))->Array_0,
        decreases rest.len(),
    {
        let ghost rv = views(rest@);
        let x = rest.remove(0);
        assert(x@ == rv[0]);
        assert(views(rest@) =~= rv.drop_first());
        let ghost before = JsonValue::Array(out)@->Array_0;
        let ghost xv = x@;
        let item = JsonValue::Str(x);
        assert(item@ == Json::Str(xv));
        let ghost old_out = out@;
        out.push(item);
        assert(out@ == old_out.push(item));
        assert(forall|k: int| 0 <= k < old_out.len() ==> out@[k] == old_out[k]);
        assert(JsonValue::Array(out)@->Array_0 =~= before.push(Json::Str(xv)));
        assert(iv[i as int] == rv[0]);
        assert(iv.take(i + 1) =~= iv.take(i as int).push(iv[i as int]));
        assert(str_array(iv.take(i + 1))->Array_0 =~= str_array(iv.take(i as int))->Array_0.push(
            Json::Str(iv[i as int]),
        ));
        assert(JsonValue::Array(out)@->Array_0 =~= str_array(iv.take(i + 1))->Array_0);
        i += 1;
        assert(iv.skip(i - 1).drop_first() =~= iv.skip(i as int));
    }
    assert(iv.take(i as int) =~= iv);
    let r = JsonValue::Array(out);
    r
}

fn downtime_json(
    name: String,
    description: String,
    schedule: JsonValue,
    alert_ids: Vec<String>,
    scope: String,
) -> (r: JsonValue)
    ensures
        r@ == downtime_body(name@, description@, schedule@, views(alert_ids@), scope@),
{
    let ghost want = downtime_body(name@, description@, schedule@, views(alert_ids@), scope@);
    let mut f: Vec<(String, JsonValue)> = Vec::new();
    assert(JsonValue::Object(f)@->Object_0 =~= Seq::<(Seq<char>, Json)>::empty());
    push_field(&mut f, "name", JsonValue::Str(name));
    push_field(&mut f, "description", JsonValue::Str(description));
    push_field(&mut f, "schedule", schedule);
    push_field(&mut f, "alertIds", string_array(alert_ids));
    push_field(&mut f, "scope", JsonValue::Str(scope));
    let r = JsonValue::Object(f);
    assert(r@->Object_0 =~= want->Object_0);
    r
}

fn text_or_empty_of(value: Option<String>) -> (r: String)
    ensures
        r@ == text_or_empty(opt_text(value)),
{
    match value {
        Some(v) => v,
        None => String::new(),
    }
}

/// The request body for the window an operator asks for (see
/// `downtime_request_spec`).
pub fn downtime_request(
    name: &str,
    timezone: &str,
    start_time: &str,
    end_time: &str,
    description: Option<String>,
    scope: Option<String>,
    alert_ids: Option<String>,
) -> (r: Result<JsonValue, SignozError>)
    ensures
        json_result(r) == downtime_request_spec(
            name@,
            timezone@,
            start_time@,
            end_time@,
            opt_text(description),
            opt_text(scope),
            opt_text(alert_ids),
        ),
{
    let n = trimmed(name);
    let tz = trimmed(timezone);
    let st = trimmed(start_time);
    let et = trimmed(end_time);
    if n.as_str().is_empty() || tz.as_str().is_empty() || st.as_str().is_empty()
        || et.as_str().is_empty() {
        return Err(SignozError::MissingDowntimeFields);
    }
    if !utf8_length_at_most(&chars_of(n.as_str()), 160) || !utf8_length_at_most(
        &chars_of(tz.as_str()),
        128,
    ) || !utf8_length_at_most(&chars_of(st.as_str()), 64) || !utf8_length_at_most(
        &chars_of(et.as_str()),
        64,
    ) {
        return Err(SignozError::DowntimeInputTooLong);
    }
    let description = text_or_empty_of(normalize_optional_text(description));
    let scope = text_or_empty_of(normalize_optional_text(scope));
    let ids = parse_alert_ids(alert_ids);
    Ok(downtime_json(n, description, schedule(tz, st, et), ids, scope))
}

/// A planned-maintenance id is plain: ASCII letters, digits and `-`, at most
/// 128 bytes, after trimming.
pub open spec fn downtime_id_spec(id: Seq<char>) -> Result<Seq<char>, SignozError> {
    let t = trim(id);
    if t.len() == 0 || utf8_len(t) > 128 || exists|i: int|
        0 <= i < t.len() && !(crate::text::is_ascii_alnum(#[trigger] t[i]) || t[i] == '-') {
        Err(SignozError::InvalidDowntimeId)
    } else {
        Ok(t)
    }
}

pub open spec fn id_result(r: Result<String, SignozError>) -> Result<Seq<char>, SignozError> {
    match r {
        Ok(s) => Ok(s@),
        Err(e) => Err(e),
    }
}

/// The trimmed planned-maintenance id, or the refusal (see `downtime_id_spec`).
pub fn validate_downtime_id(id: &str) -> (r: Result<String, SignozError>)
    ensures
        id_result(r) == downtime_id_spec(id@),
{
    let t = trimmed(id);
    let v = chars_of(t.as_str());
    if v.len() == 0 || !utf8_length_at_most(&v, 128) {
        return Err(SignozError::InvalidDowntimeId);
    }
    let mut i: usize = 0;
    while i < v.len()
        invariant
            i <= v.len(),
            v@ == t@,
            t@ == trim(id@),
            forall|j: int|
                0 <= j < i ==> (crate::text::is_ascii_alnum(#[trigger] v@[j]) || v@[j] == '-'),
        decreases v.len() - i,
    {
        if !(crate::text::alnum(v[i]) || v[i] == '-') {
            assert(!(crate::text::is_ascii_alnum(t@[i as int]) || t@[i as int] == '-'));
            return Err(SignozError::InvalidDowntimeId);
        }
        i += 1;
    }
    Ok(t)
}

/// The alert scope that selects exactly one Nexus device: its
/// `nexus_device_id` label, which every probe metric of the device carries.
pub open spec fn device_scope_spec(device_id: Seq<char>) -> Seq<char> {
    "nexus_device_id=\""@ + device_id + "\""@
}

pub fn device_scope(device_id: &str) -> (r: String)
    ensures
        r@ == device_scope_spec(device_id@),
{
    let mut r = owned("nexus_device_id=\"");
    push_all(&mut r, device_id);
    push_all(&mut r, "\"");
    r
}

/// How long a maintenance window lasts at most: ten years of seconds. The
/// window is removed as soon as the device leaves maintenance; the bound only
/// keeps a forgotten window from lasting forever.
pub const MAINTENANCE_WINDOW_SECONDS: i64 = 315360000;

/// End of the maintenance window opened at `start` (seconds since the epoch).
pub fn maintenance_window_end(start: i64) -> (r: i64)
    requires
        start + MAINTENANCE_WINDOW_SECONDS <= i64::MAX,
    ensures
        r == start + 10 * 365 * 24 * 60 * 60,
{
    start + MAINTENANCE_WINDOW_SECONDS
}

/// The window that silences one device while it is in maintenance: named after
/// the device, in UTC, for all alert rules, scoped to the device.
pub open spec fn maintenance_body(
    device_id: Seq<char>,
    device_name: Seq<char>,
    start: Seq<char>,
    end: Seq<char>,
) -> Json {
    downtime_body(
        "Nexus maintenance: "@ + device_name,
        "Automatically created by Nexus while device '"@ + device_id + "' is in Maintenance."@,
        schedule_spec("UTC"@, start, end),
        Seq::empty(),
        device_scope_spec(device_id),
    )
}

/// The request body for a device's maintenance window, from its RFC 3339
/// start and end (see `maintenance_body`).
pub fn maintenance_downtime_payload(device_id: &str, device_name: &str, start: String, end: String) -> (r:
    JsonValue)
    ensures
        r@ == maintenance_body(device_id@, device_name@, start@, end@),
{
    let mut name = owned("Nexus maintenance: ");
    push_all(&mut name, device_name);
    let mut description = owned("Automatically created by Nexus while device '");
    push_all(&mut description, device_id);
    push_all(&mut description, "' is in Maintenance.");
    let ids: Vec<String> = Vec::new();
    assert(views(ids@) =~= Seq::<Seq<char>>::empty());
    downtime_json(name, description, schedule(owned("UTC"), start, end), ids, device_scope(device_id))
}

// ---------------------------------------------------------------------------
// Status summary
// ---------------------------------------------------------------------------
pub open spec fn count_value(n: Option<nat>) -> Json {
    match n {
        Some(k) => Json::Num(Number::PosInt(k as u64)),
        None => Json::Null,
    }
}

pub open spec fn rule_keys() -> Seq<Seq<char>> {
    seq!["data"@, "rules"@]
}

pub open spec fn downtime_keys() -> Seq<Seq<char>> {
    seq!["data"@, "downtime_schedules"@, "downtimeSchedules"@]
}

/// The summary while no API key is configured.
pub open spec fn unconfigured_status_spec(url: Seq<char>) -> Json {
    Json::Object(
        seq![
            ("configured"@, Json::Bool(false)),
            ("connected"@, Json::Bool(false)),
            ("url"@, Json::Str(url)),
            ("error"@, Json::Str("NEXUS_SIGNOZ_API_KEY is not configured"@)),
        ],
    )
}

/// The summary when the rules listing failed with `error`.
pub open spec fn failed_status_spec(url: Seq<char>, error: Seq<char>) -> Json {
    Json::Object(
        seq![
            ("configured"@, Json::Bool(true)),
            ("connected"@, Json::Bool(false)),
            ("url"@, Json::Str(url)),
            ("rules_api"@, Json::Str(RULES_PATH@)),
            ("error"@, Json::Str(error)),
        ],
    )
}

/// The summary when the rules listing answered: rule and downtime counts,
/// and whether the downtime listing answered (with its error when not).
pub open spec fn connected_status_spec(url: Seq<char>, rules: Json, downtimes: Result<Json, Seq<char>>) -> Json {
    Json::Object(
        seq![
            ("configured"@, Json::Bool(true)),
            ("connected"@, Json::Bool(true)),
            ("url"@, Json::Str(url)),
            ("rules_api"@, Json::Str(RULES_PATH@)),
            ("rule_count"@, count_value(collection_count(rules, rule_keys()))),
            (
                "downtime_count"@,
                count_value(
                    match downtimes {
                        Ok(d) => collection_count(d, downtime_keys()),
                        Err(_) => None,
                    },
                ),
            ),
            ("downtime_api_connected"@, Json::Bool(downtimes is Ok)),
            (
                "downtime_error"@,
                match downtimes {
                    Ok(_) => Json::Null,
                    Err(e) => Json::Str(e),
                },
            ),
        ],
    )
}

fn count_json(n: Option<usize>) -> (r: JsonValue)
    ensures
        r@ == count_value(
            match n {
                Some(k) => Some(k as nat),
                None => None,
            },
        ),
{
    match n {
        Some(k) => JsonValue::Number(JsonNumber::PosInt(k as u64)),
        None => JsonValue::Null,
    }
}

/// The summary while no API key is configured (see `unconfigured_status_spec`).
pub fn unconfigured_status(url: String) -> (r: JsonValue)
    ensures
        r@ == unconfigured_status_spec(url@),
{
    let ghost u = url@;
    let mut f: Vec<(String, JsonValue)> = Vec::new();
    assert(JsonValue::Object(f)@->Object_0 =~= Seq::<(Seq<char>, Json)>::empty());
    push_field(&mut f, "configured", JsonValue::Bool(false));
    push_field(&mut f, "connected", JsonValue::Bool(false));
    push_field(&mut f, "url", JsonValue::Str(url));
    push_field(&mut f, "error", JsonValue::text("NEXUS_SIGNOZ_API_KEY is not configured"));
    let r = JsonValue::Object(f);
    assert(r@->Object_0 =~= unconfigured_status_spec(u)->Object_0);
    r
}

/// The summary when the rules listing failed (see `failed_status_spec`).
pub fn failed_status(url: String, error: String) -> (r: JsonValue)
    ensures
        r@ == failed_status_spec(url@, error@),
{
    let ghost (u, e) = (url@, error@);
    let mut f: Vec<(String, JsonValue)> = Vec::new();
    assert(JsonValue::Object(f)@->Object_0 =~= Seq::<(Seq<char>, Json)>::empty());
    push_field(&mut f, "configured", JsonValue::Bool(true));
    push_field(&mut f, "connected", JsonValue::Bool(false));
    push_field(&mut f, "url", JsonValue::Str(url));
    push_field(&mut f, "rules_api", JsonValue::text(RULES_PATH));
    push_field(&mut f, "error", JsonValue::Str(error));
    let r = JsonValue::Object(f);
    assert(r@->Object_0 =~= failed_status_spec(u, e)->Object_0);
    r
}

pub open spec fn listing_view(r: Result<JsonValue, String>) -> Result<Json, Seq<char>> {
    match r {
        Ok(v) => Ok(v@),
        Err(e) => Err(e@),
    }
}

/// The summary when the rules listing answered (see `connected_status_spec`).
pub fn connected_status(url: String, rules: &JsonValue, downtimes: Result<JsonValue, String>) -> (r:
    JsonValue)
    ensures
        r@ == connected_status_spec(url@, rules@, listing_view(downtimes)),
{
    let ghost want = connected_status_spec(url@, rules@, listing_view(downtimes));
    let rule_keys_list: [&str; 2] = ["data", "rules"];
    let downtime_keys_list: [&str; 3] = ["data", "downtime_schedules", "downtimeSchedules"];
    assert(str_views(rule_keys_list@) =~= rule_keys());
    assert(str_views(downtime_keys_list@) =~= downtime_keys());
    let rule_count = count_json(count_collection(rules, &rule_keys_list));
    let (downtime_count, connected, error) = match downtimes {
        Ok(d) => (count_json(count_collection(&d, &downtime_keys_list)), true, JsonValue::Null),
        Err(e) => (JsonValue::Null, false, JsonValue::Str(e)),
    };
    let mut f: Vec<(String, JsonValue)> = Vec::new();
    assert(JsonValue::Object(f)@->Object_0 =~= Seq::<(Seq<char>, Json)>::empty());
    push_field(&mut f, "configured", JsonValue::Bool(true));
    push_field(&mut f, "connected", JsonValue::Bool(true));
    push_field(&mut f, "url", JsonValue::Str(url));
    push_field(&mut f, "rules_api", JsonValue::text(RULES_PATH));
    push_field(&mut f, "rule_count", rule_count);
    push_field(&mut f, "downtime_count", downtime_count);
    push_field(&mut f, "downtime_api_connected", JsonValue::Bool(connected));
    push_field(&mut f, "downtime_error", error);
    let r = JsonValue::Object(f);
    assert(r@->Object_0 =~= want->Object_0);
    r
}

/// The rules-only summary: the rule count when the listing answered, the
/// error otherwise.
pub open spec fn rules_status_spec(url: Seq<char>, rules: Result<Json, Seq<char>>) -> Json {
    match rules {
        Ok(v) => Json::Object(
            seq![
                ("configured"@, Json::Bool(true)),
                ("connected"@, Json::Bool(true)),
                ("url"@, Json::Str(url)),
                ("rule_count"@, count_value(collection_count(v, rule_keys()))),
            ],
        ),
        Err(e) => Json::Object(
            seq![
                ("configured"@, Json::Bool(true)),
                ("connected"@, Json::Bool(false)),
                ("url"@, Json::Str(url)),
                ("error"@, Json::Str(e)),
            ],
        ),
    }
}

/// The rules-only summary (see `rules_status_spec`).
pub fn rules_status(url: String, rules: Result<JsonValue, String>) -> (r: JsonValue)
    ensures
        r@ == rules_status_spec(url@, listing_view(rules)),
{
    let ghost want = rules_status_spec(url@, listing_view(rules));
    let mut f: Vec<(String, JsonValue)> = Vec::new();
    assert(JsonValue::Object(f)@->Object_0 =~= Seq::<(Seq<char>, Json)>::empty());
    push_field(&mut f, "configured", JsonValue::Bool(true));
    match rules {
        Ok(v) => {
            let keys: [&str; 2] = ["data", "rules"];
            assert(str_views(keys@) =~= rule_keys());
            let n = count_json(count_collection(&v, &keys));
            push_field(&mut f, "connected", JsonValue::Bool(true));
            push_field(&mut f, "url", JsonValue::Str(url));
            push_field(&mut f, "rule_count", n);
        },
        Err(e) => {
            push_field(&mut f, "connected", JsonValue::Bool(false));
            push_field(&mut f, "url", JsonValue::Str(url));
            push_field(&mut f, "error", JsonValue::Str(e));
        },
    }
    let r = JsonValue::Object(f);
    assert(r@->Object_0 =~= want->Object_0);
    r
}

} // verus!
