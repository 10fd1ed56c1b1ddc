//! Validation and normalisation of the fields of a monitored device: display
//! name, stable id (slug), kind/site labels, network address and state.
use vstd::prelude::*;

use crate::domain_names::valid_label;
use crate::split::{lemma_split_nonempty, split, split_char, views};
use crate::text::{
    alnum, ascii_lowercase, chars_of, control, copy_string, is_ascii_alnum, is_control_char, lower,
    lower_ascii_char, owned, push_all, trim, trim_end_char, trimmed, trimmed_end_char,
};
use crate::domain_names::label_ok;

verus! {

/// Why a monitoring operation was refused.
#[derive(Debug)]
pub enum MonitoringError {
    NameLength,
    NameControl,
    InvalidSlug,
    LabelLength(String),
    LabelCharacters(String),
    InvalidAddress,
    InvalidState,
    MissingDevicesArray,
    DeviceNotFound(String),
    UnknownDevice,
    NoEnabledDevices,
    DeviceMissingId,
    DeviceMissingName,
    DeviceMissingAddress,
}

/// The text each refusal carries.
pub open spec fn monitoring_error_text(e: MonitoringError) -> Seq<char> {
    match e {
        MonitoringError::NameLength => "device name must contain between 1 and 80 characters"@,
        MonitoringError::NameControl => "device name contains invalid control characters"@,
        MonitoringError::InvalidSlug => "device name cannot be converted to a valid device id"@,
        MonitoringError::LabelLength(field) => field@ + " must contain between 1 and 64 characters"@,
        MonitoringError::LabelCharacters(field) => field@ + " contains invalid characters"@,
        MonitoringError::InvalidAddress => "invalid device IP address or hostname"@,
        MonitoringError::InvalidState => "state must be enabled, maintenance or disabled"@,
        MonitoringError::MissingDevicesArray => "monitoring inventory is missing a devices array"@,
        MonitoringError::DeviceNotFound(id) => "monitoring device '"@ + id@ + "' was not found"@,
        MonitoringError::UnknownDevice => "monitoring device was not found"@,
        MonitoringError::NoEnabledDevices => "no enabled devices"@,
        MonitoringError::DeviceMissingId => "monitoring device is missing id"@,
        MonitoringError::DeviceMissingName => "monitoring device is missing name"@,
        MonitoringError::DeviceMissingAddress => "monitoring device is missing address"@,
    }
}

impl MonitoringError {
    pub fn message(&self) -> (r: String)
        ensures
            r@ == monitoring_error_text(*self),
    {
        match self {
            MonitoringError::NameLength => owned("device name must contain between 1 and 80 characters"),
            MonitoringError::NameControl => owned("device name contains invalid control characters"),
            MonitoringError::InvalidSlug => owned("device name cannot be converted to a valid device id"),
            MonitoringError::LabelLength(field) => {
                let mut r = copy_string(field);
                push_all(&mut r, " must contain between 1 and 64 characters");
                r
            },
            MonitoringError::LabelCharacters(field) => {
                let mut r = copy_string(field);
                push_all(&mut r, " contains invalid characters");
                r
            },
            MonitoringError::InvalidAddress => owned("invalid device IP address or hostname"),
            MonitoringError::InvalidState => owned("state must be enabled, maintenance or disabled"),
            MonitoringError::MissingDevicesArray => owned("monitoring inventory is missing a devices array"),
            MonitoringError::DeviceNotFound(id) => {
                let mut r = owned("monitoring device '");
                push_all(&mut r, id.as_str());
                push_all(&mut r, "' was not found");
                r
            },
            MonitoringError::UnknownDevice => owned("monitoring device was not found"),
            MonitoringError::NoEnabledDevices => owned("no enabled devices"),
            MonitoringError::DeviceMissingId => owned("monitoring device is missing id"),
            MonitoringError::DeviceMissingName => owned("monitoring device is missing name"),
            MonitoringError::DeviceMissingAddress => owned("monitoring device is missing address"),
        }
    }
}

/// Number of bytes of the UTF-8 encoding of `s`, which `str::len` returns.
pub open spec fn utf8_len(s: Seq<char>) -> nat
    decreases s.len(),
{
    if s.len() == 0 {
        0
    } else {
        utf8_len(s.drop_last()) + utf8_width(s.last())
    }
}

pub open spec fn utf8_width(c: char) -> nat {
    let u = c as u32;
    if u < 0x80 {
        1
    } else if u < 0x800 {
        2
    } else if u < 0x10000 {
        3
    } else {
        4
    }
}

pub fn utf8_length(v: &Vec<char>) -> (n: usize)
    requires
        v.len() <= 0x1000_0000,
    ensures
        n == utf8_len(v@),
{
    let mut n: usize = 0;
    let mut i: usize = 0;
    while i < v.len()
        invariant
            i <= v.len() <= 0x1000_0000,
            n == utf8_len(v@.take(i as int)),
            n <= 4 * i,
        decreases v.len() - i,
    {
        let u = v[i] as u32;
        let w: usize = if u < 0x80 {
            1
        } else if u < 0x800 {
            2
        } else if u < 0x10000 {
            3
        } else {
            4
        };
        assert(v@.take(i + 1).drop_last() == v@.take(i as int));
        n = n + w;
        i += 1;
    }
    assert(v@.take(v.len() as int) == v@);
    n
}

/// Counts bytes up to `limit + 1`, enough to decide `utf8_len(v) <= limit`.
pub fn utf8_length_at_most(v: &Vec<char>, limit: usize) -> (r: bool)
    requires
        limit <= 0x1000_0000,
    ensures
        r == (utf8_len(v@) <= limit),
{
    let mut n: usize = 0;
    let mut i: usize = 0;
    while i < v.len()
        invariant
            i <= v.len(),
            limit <= 0x1000_0000,
            n == utf8_len(v@.take(i as int)),
            n <= limit,
        decreases v.len() - i,
    {
        let u = v[i] as u32;
        let w: usize = if u < 0x80 {
            1
        } else if u < 0x800 {
            2
        } else if u < 0x10000 {
            3
        } else {
            4
        };
        assert(v@.take(i + 1).drop_last() == v@.take(i as int));
        n = n + w;
        i += 1;
        if n > limit {
            proof {
                lemma_utf8_len_prefix(v@, i as int);
            }
            return false;
        }
    }
    assert(v@.take(v.len() as int) == v@);
    true
}

/// The encoding of a prefix is never longer than that of the whole.
pub proof fn lemma_utf8_len_prefix(s: Seq<char>, k: int)
    requires
        0 <= k <= s.len(),
    ensures
        utf8_len(s.take(k)) <= utf8_len(s),
    decreases s.len(),
{
    if k < s.len() {
        assert(s.drop_last().take(k) == s.take(k));
        lemma_utf8_len_prefix(s.drop_last(), k);
    } else {
        assert(s.take(k) == s);
    }
}

/// A device display name: trimmed, 1 to 80 bytes, no control characters.
pub open spec fn name_result(input: Seq<char>) -> Result<Seq<char>, MonitoringError> {
    let name = trim(input);
    if name.len() == 0 || utf8_len(name) > 80 {
        Err(MonitoringError::NameLength)
    } else if exists|i: int| 0 <= i < name.len() && is_control_char(#[trigger] name[i]) {
        Err(MonitoringError::NameControl)
    } else {
        Ok(name)
    }
}

pub open spec fn result_view<E>(r: Result<String, E>) -> Result<Seq<char>, E> {
    match r {
        Ok(s) => Ok(s@),
        Err(e) => Err(e),
    }
}

/// Trims a device display name and rejects empty, over-long or control-character names.
pub fn normalize_name(input: &str) -> (r: Result<String, MonitoringError>)
    ensures
        result_view(r) == name_result(input@),
{
    let name = trimmed(input);
    let v = chars_of(name.as_str());
    if v.len() == 0 || v.len() > 80 || !utf8_length_at_most(&v, 80) {
        proof {
            if v.len() > 80 {
                lemma_utf8_len_at_least_len(v@);
            }
        }
        return Err(MonitoringError::NameLength);
    }
    let mut i: usize = 0;
    while i < v.len()
        invariant
            i <= v.len(),
            v@ == trim(input@),
            v@.len() > 0,
            utf8_len(v@) <= 80,
            forall|j: int| 0 <= j < i ==> !is_control_char(#[trigger] v@[j]),
        decreases v.len() - i,
    {
        if control(v[i]) {
            assert(is_control_char(v@[i as int]));
            return Err(MonitoringError::NameControl);
        }
        i += 1;
    }
    Ok(name)
}

/// Each character takes at least one byte.
pub proof fn lemma_utf8_len_at_least_len(s: Seq<char>)
    ensures
        utf8_len(s) >= s.len(),
    decreases s.len(),
{
    if s.len() > 0 {
        lemma_utf8_len_at_least_len(s.drop_last());
    }
}

/// An ASCII string encodes to one byte per character.
pub proof fn lemma_utf8_len_ascii(s: Seq<char>)
    requires
        forall|i: int| 0 <= i < s.len() ==> (#[trigger] s[i] as u32) < 0x80,
    ensures
        utf8_len(s) == s.len(),
    decreases s.len(),
{
    if s.len() > 0 {
        lemma_utf8_len_ascii(s.drop_last());
    }
}

/// Slug construction: ASCII letters and digits are kept, every other run of
/// characters becomes one `-`, and no `-` starts the slug. `out` is the slug so far.
pub open spec fn slug_from(s: Seq<char>, out: Seq<char>) -> Seq<char>
    decreases s.len(),
{
    if s.len() == 0 {
        out
    } else {
        let c = s[0];
        let next = if is_ascii_alnum(c) {
            out.push(c)
        } else if out.len() > 0 && out.last() != '-' {
            out.push('-')
        } else {
            out
        };
        slug_from(s.drop_first(), next)
    }
}

/// The device id derived from a name: slug of the trimmed, lower-cased name,
/// trailing `-` removed.
pub open spec fn slug(input: Seq<char>) -> Seq<char> {
    trim_end_char(slug_from(lower(trim(input)), Seq::empty()), '-')
}

pub open spec fn slug_result(input: Seq<char>) -> Result<Seq<char>, MonitoringError> {
    let s = slug(input);
    if s.len() == 0 || s.len() > 64 {
        Err(MonitoringError::InvalidSlug)
    } else {
        Ok(s)
    }
}

/// Derives the stable device id from a name (or re-normalises an id).
pub fn normalize_slug(input: &str) -> (r: Result<String, MonitoringError>)
    ensures
        result_view(r) == slug_result(input@),
{
    let t = trimmed(input);
    let l = ascii_lowercase(t.as_str());
    let v = chars_of(l.as_str());
    let mut out = String::new();
    let mut previous_dash = false;
    let mut i: usize = 0;
    assert(v@.skip(0) == v@);
    while i < v.len()
        invariant
            i <= v.len(),
            v@ == lower(trim(input@)),
            slug_from(v@, Seq::empty()) == slug_from(v@.skip(i as int), out@),
            previous_dash == (out@.len() > 0 && out@.last() == '-'),
        decreases v.len() - i,
    {
        let ch = v[i];
        assert(v@.skip(i as int).drop_first() == v@.skip(i + 1));
        if alnum(ch) {
            out.push(ch);
            previous_dash = false;
        } else if !previous_dash && !out.as_str().is_empty() {
            out.push('-');
            previous_dash = true;
        }
        i += 1;
    }
    let output = trimmed_end_char(out.as_str(), '-');
    let ov = chars_of(output.as_str());
    if ov.len() == 0 || ov.len() > 64 {
        return Err(MonitoringError::InvalidSlug);
    }
    Ok(output)
}

/// A kind or site label: trimmed, lower-cased, 1 to 64 bytes of ASCII letters,
/// digits, `-` or `_`.
pub open spec fn label_result(input: Seq<char>, field: Seq<char>) -> Result<
    Seq<char>,
    Seq<char>,
> {
    let value = lower(trim(input));
    if value.len() == 0 || utf8_len(value) > 64 {
        Err(field + " must contain between 1 and 64 characters"@)
    } else if !(forall|i: int|
        0 <= i < value.len() ==> is_ascii_alnum(#[trigger] value[i]) || value[i] == '-'
            || value[i] == '_') {
        Err(field + " contains invalid characters"@)
    } else {
        Ok(value)
    }
}

pub open spec fn label_view(r: Result<String, MonitoringError>) -> Result<Seq<char>, Seq<char>> {
    match r {
        Ok(s) => Ok(s@),
        Err(e) => Err(monitoring_error_text(e)),
    }
}

/// Normalises a kind or site label; `field` names it in the refusal.
pub fn normalize_simple_label(input: &str, field: &str) -> (r: Result<String, MonitoringError>)
    ensures
        label_view(r) == label_result(input@, field@),
        r matches Err(e) ==> (e matches MonitoringError::LabelLength(f) && f@ == field@) || (
        e matches MonitoringError::LabelCharacters(f) && f@ == field@),
{
    let t = trimmed(input);
    let value = ascii_lowercase(t.as_str());
    let v = chars_of(value.as_str());
    if v.len() == 0 || v.len() > 64 || !utf8_length_at_most(&v, 64) {
        proof {
            if v.len() > 64 {
                lemma_utf8_len_at_least_len(v@);
            }
        }
        return Err(MonitoringError::LabelLength(owned(field)));
    }
    let mut i: usize = 0;
    while i < v.len()
        invariant
            i <= v.len(),
            v@ == lower(trim(input@)),
            v@.len() > 0,
            utf8_len(v@) <= 64,
            forall|j: int|
                0 <= j < i ==> is_ascii_alnum(#[trigger] v@[j]) || v@[j] == '-' || v@[j] == '_',
        decreases v.len() - i,
    {
        let c = v[i];
        if !(alnum(c) || c == '-' || c == '_') {
            assert(!(is_ascii_alnum(v@[i as int]) || v@[i as int] == '-' || v@[i as int] == '_'));
            return Err(MonitoringError::LabelCharacters(owned(field)));
        }
        i += 1;
    }
    Ok(value)
}

/// The text a device address is judged on: trimmed, trailing dots removed,
/// ASCII lower case.
pub open spec fn address_candidate_text(input: Seq<char>) -> Seq<char> {
    lower(trim_end_char(trim(input), '.'))
}

/// A conservative host name: at most 253 characters of dot-separated valid labels.
pub open spec fn valid_hostname(h: Seq<char>) -> bool {
    let labels = split(h, '.');
    &&& 1 <= h.len() <= 253
    &&& forall|i: int| 0 <= i < labels.len() ==> valid_label(#[trigger] labels[i])
}

/// The address that is stored for a device, given whether the candidate text
/// parses as an IP address.
pub open spec fn address_result(candidate: Seq<char>, is_ip: bool) -> Result<
    Seq<char>,
    MonitoringError,
> {
    if is_ip {
        Ok(candidate)
    } else if valid_hostname(candidate) {
        Ok(candidate)
    } else {
        Err(MonitoringError::InvalidAddress)
    }
}

/// The candidate text of a device address (see `address_candidate_text`).
pub fn address_candidate(input: &str) -> (r: String)
    ensures
        r@ == address_candidate_text(input@),
{
    let t = trimmed(input);
    let t = trimmed_end_char(t.as_str(), '.');
    ascii_lowercase(t.as_str())
}

/// Accepts the candidate when it parses as an IP address (`is_ip`, decided by
/// the caller on this very text) or is a conservative host name.
pub fn normalize_address(candidate: String, is_ip: bool) -> (r: Result<String, MonitoringError>)
    ensures
        result_view(r) == address_result(candidate@, is_ip),
{
    if is_ip {
        return Ok(candidate);
    }
    let v = chars_of(candidate.as_str());
    if v.len() == 0 || v.len() > 253 {
        return Err(MonitoringError::InvalidAddress);
    }
    let labels = split_char(candidate.as_str(), '.');
    let ghost lv = views(labels@);
    let mut i: usize = 0;
    while i < labels.len()
        invariant
            i <= labels.len(),
            lv == views(labels@),
            lv == split(candidate@, '.'),
            !is_ip,
            1 <= candidate@.len() <= 253,
            forall|j: int| 0 <= j < i ==> valid_label(#[trigger] lv[j]),
        decreases labels.len() - i,
    {
        assert(lv[i as int] == labels@[i as int]@);
        if !label_ok(&labels[i]) {
            assert(!valid_label(lv[i as int]));
            return Err(MonitoringError::InvalidAddress);
        }
        i += 1;
    }
    Ok(candidate)
}

/// The closed set of monitoring states.
pub open spec fn state_result(input: Seq<char>) -> Result<Seq<char>, MonitoringError> {
    let s = lower(trim(input));
    if s == "enabled"@ {
        Ok("enabled"@)
    } else if s == "maintenance"@ {
        Ok("maintenance"@)
    } else if s == "disabled"@ {
        Ok("disabled"@)
    } else {
        Err(MonitoringError::InvalidState)
    }
}

/// Accepts exactly `enabled`, `maintenance` or `disabled`, ignoring case and
/// surrounding white space.
pub fn normalize_state(input: &str) -> (r: Result<String, MonitoringError>)
    ensures
        result_view(r) == state_result(input@),
{
    let t = trimmed(input);
    let s = ascii_lowercase(t.as_str());
    let enabled = owned("enabled");
    let maintenance = owned("maintenance");
    let disabled = owned("disabled");
    if s == enabled {
        Ok(enabled)
    } else if s == maintenance {
        Ok(maintenance)
    } else if s == disabled {
        Ok(disabled)
    } else {
        Err(MonitoringError::InvalidState)
    }
}

/// Device states form a closed set: a state is accepted only as `enabled`,
/// `maintenance` or `disabled`, and whatever is accepted is one of these.
pub proof fn lemma_state_is_closed(input: Seq<char>)
    ensures
        state_result(input) matches Ok(s) ==> (s == "enabled"@ || s == "maintenance"@ || s
            == "disabled"@),
        state_result(input) is Ok <==> (lower(trim(input)) == "enabled"@ || lower(trim(input))
            == "maintenance"@ || lower(trim(input)) == "disabled"@),
{
}

} // verus!
