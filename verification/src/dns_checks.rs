//! Judgement of DNS lookups (`dig +short` output) and of a domain validation
//! result: TXT record counts, MX ownership, record fingerprints and the
//! required health checks.
use vstd::prelude::*;

use crate::json::{
    as_bool, as_str, get, get_bool, get_str, Json, JsonValue,
};
use crate::sorting::{
    count_where, lemma_count_where_permutation, lemma_sort_by_sorted, lemma_sorted_unique, lower_key,
    sort_by, sort_lines_by_lowercase,
};
use crate::split::{join, join_with, lines, lines_of, views, words, words_of};
use crate::text::{
    ascii_lowercase, chars_of, eq_ignore_case, equal_ignore_case, has_prefix, has_substring,
    lower, owned, starts_with, trim, trim_char, trim_end_char, trimmed, trimmed_char,
    trimmed_end_char,
};

verus! {

/// `o.and_then(|v| v.get(key))`.
pub open spec fn get_in(o: Option<Json>, key: Seq<char>) -> Option<Json> {
    match o {
        Some(j) => get(j, key),
        None => None,
    }
}

/// The text a lookup returned (`{"value": ...}`).
pub open spec fn record_text(detail: Json) -> Option<Seq<char>> {
    get_str(detail, "value"@)
}

/// The looked-up text contains `needle`, ignoring ASCII case.
pub open spec fn txt_contains_spec(detail: Json, needle: Seq<char>) -> bool {
    match record_text(detail) {
        Some(v) => crate::text::contains(lower(v), lower(needle)),
        None => false,
    }
}

/// A TXT line, without its surrounding quotes and ASCII-lower-cased, starts with `lp`.
pub open spec fn prefixed(line: Seq<char>, lp: Seq<char>) -> bool {
    starts_with(lower(trim_char(line, '"')), lp)
}

/// Number of lines that are `prefixed` by `lp`.
pub open spec fn count_prefixed(ls: Seq<Seq<char>>, lp: Seq<char>) -> nat
    decreases ls.len(),
{
    if ls.len() == 0 {
        0
    } else {
        count_prefixed(ls.drop_last(), lp) + if prefixed(ls.last(), lp) {
            1nat
        } else {
            0nat
        }
    }
}

/// Lines that are `prefixed` by `lp`, in order.
pub open spec fn keep_prefixed(ls: Seq<Seq<char>>, lp: Seq<char>) -> Seq<Seq<char>>
    decreases ls.len(),
{
    if ls.len() == 0 {
        ls
    } else {
        let r = keep_prefixed(ls.drop_last(), lp);
        if prefixed(ls.last(), lp) {
            r.push(ls.last())
        } else {
            r
        }
    }
}

/// Number of TXT records of the lookup whose text starts with `prefix`, ignoring
/// ASCII case and the quotes around each record.
pub open spec fn prefix_count(detail: Json, prefix: Seq<char>) -> nat {
    match record_text(detail) {
        Some(v) => count_prefixed(lines(v), lower(prefix)),
        None => 0,
    }
}

/// Lines that are not blank, in order.
pub open spec fn nonblank(ls: Seq<Seq<char>>) -> Seq<Seq<char>>
    decreases ls.len(),
{
    if ls.len() == 0 {
        ls
    } else {
        let r = nonblank(ls.drop_last());
        if trim(ls.last()).len() > 0 {
            r.push(ls.last())
        } else {
            r
        }
    }
}

/// The MX lookup holds exactly one record, and its exchange (second word) is
/// `host`, ignoring ASCII case and a trailing dot.
pub open spec fn mx_only_to(detail: Json, host: Seq<char>) -> bool {
    match record_text(detail) {
        None => false,
        Some(v) => {
            let ls = nonblank(lines(v));
            &&& ls.len() == 1
            &&& words(ls[0]).len() >= 2
            &&& eq_ignore_case(trim_end_char(words(ls[0])[1], '.'), host)
        },
    }
}

/// Trimmed lines with the blank ones removed, in order.
pub open spec fn trimmed_nonempty(ls: Seq<Seq<char>>) -> Seq<Seq<char>>
    decreases ls.len(),
{
    if ls.len() == 0 {
        ls
    } else {
        let r = trimmed_nonempty(ls.drop_last());
        let t = trim(ls.last());
        if t.len() > 0 {
            r.push(t)
        } else {
            r
        }
    }
}

/// Order-independent text of a set of records: trimmed, blank lines removed,
/// stably sorted by lower-cased text, joined by newlines.
pub open spec fn canonical(ls: Seq<Seq<char>>) -> Seq<char> {
    join(sort_by(trimmed_nonempty(ls), lower_key()), "\n"@)
}

/// Which lines of a record count for its fingerprint: every line of an MX
/// lookup, the lines with the record's tag for SPF, DKIM and DMARC, and no
/// fingerprint at all for any other check.
pub open spec fn fingerprint_prefix(key: Seq<char>) -> Option<Option<Seq<char>>> {
    if key == "spf"@ {
        Some(Some("v=spf1"@))
    } else if key == "dkim"@ {
        Some(Some("v=dkim1"@))
    } else if key == "dmarc"@ {
        Some(Some("v=dmarc1"@))
    } else if key == "mx"@ {
        Some(None)
    } else {
        None
    }
}

/// The record text that a validation result holds for check `key`.
pub open spec fn detail_value(result: Json, key: Seq<char>) -> Option<Seq<char>> {
    match get_in(get_in(get_in(get(result, "checks"@), key), "detail"@), "value"@) {
        Some(v) => as_str(v),
        None => None,
    }
}

/// Canonical text of the records that check `key` of a validation result saw.
pub open spec fn fingerprint(result: Json, key: Seq<char>) -> Option<Seq<char>> {
    match detail_value(result, key) {
        None => None,
        Some(v) => match fingerprint_prefix(key) {
            None => None,
            Some(p) => {
                let kept = match p {
                    None => lines(v),
                    Some(lp) => keep_prefixed(lines(v), lp),
                };
                let f = canonical(kept);
                if f.len() == 0 {
                    None
                } else {
                    Some(f)
                }
            },
        },
    }
}

/// The checks whose live records can be adopted as they are.
pub open spec fn adoptable_keys() -> Seq<Seq<char>> {
    seq!["mx"@, "spf"@, "dkim"@, "dmarc"@]
}

/// The checks that must all pass for a domain to be healthy.
pub open spec fn required_keys() -> Seq<Seq<char>> {
    seq![
        "mail_a"@,
        "mx"@,
        "spf"@,
        "dkim"@,
        "dmarc"@,
        "smtp_submission"@,
        "imap_tls"@,
        "webmail_tunnel_dns"@,
        "webmail_tls"@,
    ]
}

/// The snapshot field of check `key`, if it has a fingerprint.
pub open spec fn snapshot_field(result: Json, key: Seq<char>) -> Seq<(Seq<char>, Json)> {
    match fingerprint(result, key) {
        Some(f) => seq![(key, Json::Str(f))],
        None => Seq::empty(),
    }
}

/// The fingerprints of the adoptable checks, as the fields of an object.
pub open spec fn snapshot_fields(result: Json) -> Seq<(Seq<char>, Json)> {
    snapshot_field(result, "mx"@) + snapshot_field(result, "spf"@) + snapshot_field(result, "dkim"@)
        + snapshot_field(result, "dmarc"@)
}

/// Check `key` of a validation result reports `ok: true`.
pub open spec fn check_ok(result: Json, key: Seq<char>) -> bool {
    match get_in(get_in(get(result, "checks"@), key), "ok"@) {
        Some(v) => as_bool(v) == Some(true),
        None => false,
    }
}

/// Every required check reports `ok: true`.
pub open spec fn all_required_healthy(result: Json) -> bool {
    forall|i: int| 0 <= i < required_keys().len() ==> check_ok(result, #[trigger] required_keys()[i])
}

/// Live records exist that Nexus does not manage: an adoptable check failed
/// although records are present, or the inventory marks the domain as not
/// mail-managed while any adoptable record is present.
pub open spec fn existing_detected(result: Json, entry: Option<Json>) -> bool {
    let failed_existing = exists|i: int|
        0 <= i < 4 && !check_ok(result, #[trigger] adoptable_keys()[i]) && fingerprint(
            result,
            adoptable_keys()[i],
        ) is Some;
    let unmanaged_mail = match entry {
        Some(e) => get_bool(e, "mail"@) != Some(true),
        None => false,
    } && exists|i: int| 0 <= i < 4 && fingerprint(result, #[trigger] adoptable_keys()[i]) is Some;
    failed_existing || unmanaged_mail
}

// ---------------------------------------------------------------------------
// Executable checks
// ---------------------------------------------------------------------------
fn line_prefixed(line: &String, lp: &Vec<char>) -> (r: bool)
    ensures
        r == prefixed(line@, lp@),
{
    let t = trimmed_char(line.as_str(), '"');
    let l = ascii_lowercase(t.as_str());
    let lv = chars_of(l.as_str());
    has_prefix(&lv, lp)
}

/// Number of `lines` that are `prefixed` by `lp`.
fn count_lines_prefixed(ls: &Vec<String>, lp: &Vec<char>) -> (n: usize)
    ensures
        n == count_prefixed(views(ls@), lp@),
{
    let mut n: usize = 0;
    let mut i: usize = 0;
    let ghost lv = views(ls@);
    while i < ls.len()
        invariant
            i <= ls.len(),
            lv == views(ls@),
            n == count_prefixed(lv.take(i as int), lp@),
            n <= i,
        decreases ls.len() - i,
    {
        assert(lv.take(i + 1).drop_last() =~= lv.take(i as int));
        assert(lv[i as int] == ls@[i as int]@);
        if line_prefixed(&ls[i], lp) {
            n += 1;
        }
        i += 1;
    }
    assert(lv.take(ls.len() as int) =~= lv);
    n
}

/// The lines of `ls` that are `prefixed` by `lp`.
fn keep_lines_prefixed(ls: &Vec<String>, lp: &Vec<char>) -> (r: Vec<String>)
    ensures
        views(r@) == keep_prefixed(views(ls@), lp@),
{
    let mut r: Vec<String> = Vec::new();
    let mut i: usize = 0;
    let ghost lv = views(ls@);
    assert(views(r@) =~= keep_prefixed(lv.take(0), lp@));
    while i < ls.len()
        invariant
            i <= ls.len(),
            lv == views(ls@),
            views(r@) == keep_prefixed(lv.take(i as int), lp@),
        decreases ls.len() - i,
    {
        assert(lv.take(i + 1).drop_last() =~= lv.take(i as int));
        assert(lv[i as int] == ls@[i as int]@);
        if line_prefixed(&ls[i], lp) {
            let ghost before = views(r@);
            r.push(ls[i].clone());
            assert(views(r@) =~= before.push(lv[i as int]));
        }
        i += 1;
    }
    assert(lv.take(ls.len() as int) =~= lv);
    r
}

/// `value.get("value").and_then(Value::as_str)`, lower-cased, contains `needle`
/// lower-cased.
pub fn txt_contains(value: &JsonValue, needle: &str) -> (r: bool)
    ensures
        r == txt_contains_spec(value@, needle@),
{
    match value.get_str("value") {
        Some(v) => {
            let lv = ascii_lowercase(v.as_str());
            let ln = ascii_lowercase(needle);
            has_substring(&chars_of(lv.as_str()), &chars_of(ln.as_str()))
        },
        None => false,
    }
}

/// Number of looked-up TXT records starting with `prefix`, ignoring ASCII case
/// and quotes (see `prefix_count`).
pub fn txt_prefix_count(value: &JsonValue, prefix: &str) -> (n: usize)
    ensures
        n == prefix_count(value@, prefix@),
{
    match value.get_str("value") {
        Some(v) => {
            let ls = lines_of(v.as_str());
            let lp = ascii_lowercase(prefix);
            count_lines_prefixed(&ls, &chars_of(lp.as_str()))
        },
        None => 0,
    }
}

/// The non-blank lines of `ls`.
fn nonblank_lines(ls: &Vec<String>) -> (r: Vec<String>)
    ensures
        views(r@) == nonblank(views(ls@)),
{
    let mut r: Vec<String> = Vec::new();
    let mut i: usize = 0;
    let ghost lv = views(ls@);
    assert(views(r@) =~= nonblank(lv.take(0)));
    while i < ls.len()
        invariant
            i <= ls.len(),
            lv == views(ls@),
            views(r@) == nonblank(lv.take(i as int)),
        decreases ls.len() - i,
    {
        assert(lv.take(i + 1).drop_last() =~= lv.take(i as int));
        assert(lv[i as int] == ls@[i as int]@);
        let t = trimmed(ls[i].as_str());
        if !t.as_str().is_empty() {
            let ghost before = views(r@);
            r.push(ls[i].clone());
            assert(views(r@) =~= before.push(lv[i as int]));
        }
        i += 1;
    }
    assert(lv.take(ls.len() as int) =~= lv);
    r
}

/// The MX lookup names exactly one exchange, `expected_host` (see `mx_only_to`).
pub fn mx_points_only_to(value: &JsonValue, expected_host: &str) -> (r: bool)
    ensures
        r == mx_only_to(value@, expected_host@),
{
    let v = match value.get_str("value") {
        Some(v) => v,
        None => return false,
    };
    let all = lines_of(v.as_str());
    let ls = nonblank_lines(&all);
    if ls.len() != 1 {
        return false;
    }
    let ws = words_of(ls[0].as_str());
    assert(views(ws@).len() == ws@.len());
    if ws.len() < 2 {
        return false;
    }
    assert(views(ls@)[0] == ls@[0]@);
    assert(views(ws@)[1] == ws@[1]@);
    let target = trimmed_end_char(ws[1].as_str(), '.');
    equal_ignore_case(&chars_of(target.as_str()), &chars_of(expected_host))
}

/// The trimmed, non-blank lines of `ls`.
fn trimmed_nonempty_lines(ls: &Vec<String>) -> (r: Vec<String>)
    ensures
        views(r@) == trimmed_nonempty(views(ls@)),
{
    let mut r: Vec<String> = Vec::new();
    let mut i: usize = 0;
    let ghost lv = views(ls@);
    assert(views(r@) =~= trimmed_nonempty(lv.take(0)));
    while i < ls.len()
        invariant
            i <= ls.len(),
            lv == views(ls@),
            views(r@) == trimmed_nonempty(lv.take(i as int)),
        decreases ls.len() - i,
    {
        assert(lv.take(i + 1).drop_last() =~= lv.take(i as int));
        assert(lv[i as int] == ls@[i as int]@);
        let t = trimmed(ls[i].as_str());
        if !t.as_str().is_empty() {
            let ghost before = views(r@);
            let ghost tv = t@;
            r.push(t);
            assert(views(r@) =~= before.push(tv));
        }
        i += 1;
    }
    assert(lv.take(ls.len() as int) =~= lv);
    r
}

/// The `canonical` text of a set of record lines.
pub fn canonical_dns_lines(lines: &Vec<String>) -> (r: String)
    ensures
        r@ == canonical(views(lines@)),
{
    let kept = trimmed_nonempty_lines(lines);
    let sorted = sort_lines_by_lowercase(kept);
    join_with(&sorted, "\n")
}

/// `result["checks"][key]["detail"]["value"]` as text.
fn detail_text<'a>(result: &'a JsonValue, key: &str) -> (r: Option<&'a String>)
    ensures
        match r {
            Some(s) => detail_value(result@, key@) == Some(s@),
            None => detail_value(result@, key@) is None,
        },
{
    let checks = result.get("checks")?;
    let check = checks.get(key)?;
    let detail = check.get("detail")?;
    let value = detail.get("value")?;
    value.as_str()
}

/// The `fingerprint` of check `key` of a validation result.
pub fn record_fingerprint(result: &JsonValue, key: &str) -> (r: Option<String>)
    ensures
        match r {
            Some(s) => fingerprint(result@, key@) == Some(s@),
            None => fingerprint(result@, key@) is None,
        },
{
    let value = detail_text(result, key)?;
    let ls = lines_of(value.as_str());
    let kept = if crate::text::str_eq(key, "spf") {
        keep_lines_prefixed(&ls, &chars_of("v=spf1"))
    } else if crate::text::str_eq(key, "dkim") {
        keep_lines_prefixed(&ls, &chars_of("v=dkim1"))
    } else if crate::text::str_eq(key, "dmarc") {
        keep_lines_prefixed(&ls, &chars_of("v=dmarc1"))
    } else if crate::text::str_eq(key, "mx") {
        ls
    } else {
        return None;
    };
    let f = canonical_dns_lines(&kept);
    if f.as_str().is_empty() {
        None
    } else {
        Some(f)
    }
}

/// `key` of `adoptable_keys()`.
pub fn adoptable_key(i: usize) -> (r: &'static str)
    requires
        i < 4,
    ensures
        r@ == adoptable_keys()[i as int],
{
    if i == 0 {
        "mx"
    } else if i == 1 {
        "spf"
    } else if i == 2 {
        "dkim"
    } else {
        "dmarc"
    }
}

/// `key` of `required_keys()`.
pub fn required_key(i: usize) -> (r: &'static str)
    requires
        i < 9,
    ensures
        r@ == required_keys()[i as int],
{
    if i == 0 {
        "mail_a"
    } else if i == 1 {
        "mx"
    } else if i == 2 {
        "spf"
    } else if i == 3 {
        "dkim"
    } else if i == 4 {
        "dmarc"
    } else if i == 5 {
        "smtp_submission"
    } else if i == 6 {
        "imap_tls"
    } else if i == 7 {
        "webmail_tunnel_dns"
    } else {
        "webmail_tls"
    }
}

/// Appends the snapshot field of check `key`.
fn push_snapshot(fields: &mut Vec<(String, JsonValue)>, result: &JsonValue, key: &str)
    ensures
        JsonValue::Object(*final(fields))@->Object_0 == JsonValue::Object(*old(fields))@->Object_0
            + snapshot_field(result@, key@),
{
    let ghost before = JsonValue::Object(*fields)@->Object_0;
    match record_fingerprint(result, key) {
        Some(f) => {
            let ghost fv = f@;
            let k = owned(key);
            let v = JsonValue::Str(f);
            assert(v@ == Json::Str(fv));
            fields.push((k, v));
            let ghost after = JsonValue::Object(*fields)@->Object_0;
            assert(after.len() == before.len() + 1);
            assert(after[before.len() as int] == (key@, Json::Str(fv)));
            assert(after =~= before + seq![(key@, Json::Str(fv))]);
        },
        None => {
            assert(before + snapshot_field(result@, key@) =~= before);
        },
    }
}

/// The fingerprints of the adoptable checks, as an object (see `snapshot_fields`).
pub fn adopted_dns_snapshots(result: &JsonValue) -> (r: JsonValue)
    ensures
        r@ == Json::Object(snapshot_fields(result@)),
{
    let mut fields: Vec<(String, JsonValue)> = Vec::new();
    assert(JsonValue::Object(fields)@->Object_0 =~= Seq::<(Seq<char>, Json)>::empty());
    push_snapshot(&mut fields, result, "mx");
    push_snapshot(&mut fields, result, "spf");
    push_snapshot(&mut fields, result, "dkim");
    push_snapshot(&mut fields, result, "dmarc");
    let r = JsonValue::Object(fields);
    assert(r@->Object_0 =~= snapshot_fields(result@));
    r
}

/// Check `key` reports `ok: true` (see `check_ok`).
pub fn check_is_ok(result: &JsonValue, key: &str) -> (r: bool)
    ensures
        r == check_ok(result@, key@),
{
    let checks = match result.get("checks") {
        Some(c) => c,
        None => return false,
    };
    let check = match checks.get(key) {
        Some(c) => c,
        None => return false,
    };
    match check.get("ok") {
        Some(v) => v.as_bool() == Some(true),
        None => false,
    }
}

/// Every required check reports `ok: true`.
pub fn all_required_checks_healthy(result: &JsonValue) -> (r: bool)
    ensures
        r == all_required_healthy(result@),
{
    let mut i: usize = 0;
    while i < 9
        invariant
            i <= 9,
            forall|j: int| 0 <= j < i ==> check_ok(result@, #[trigger] required_keys()[j]),
        decreases 9 - i,
    {
        if !check_is_ok(result, required_key(i)) {
            return false;
        }
        i += 1;
    }
    true
}

/// Live records exist that Nexus does not manage (see `existing_detected`).
pub fn existing_configuration_detected(result: &JsonValue, domain_entry: Option<&JsonValue>) -> (r:
    bool)
    ensures
        r == existing_detected(
            result@,
            match domain_entry {
                Some(e) => Some(e@),
                None => None,
            },
        ),
{
    let mut failed_existing = false;
    let mut any_record = false;
    let mut i: usize = 0;
    while i < 4
        invariant
            i <= 4,
            failed_existing == exists|j: int|
                0 <= j < i && !check_ok(result@, #[trigger] adoptable_keys()[j]) && fingerprint(
                    result@,
                    adoptable_keys()[j],
                ) is Some,
            any_record == exists|j: int|
                0 <= j < i && fingerprint(result@, #[trigger] adoptable_keys()[j]) is Some,
        decreases 4 - i,
    {
        let key = adoptable_key(i);
        let present = record_fingerprint(result, key).is_some();
        if present {
            any_record = true;
            if !check_is_ok(result, key) {
                failed_existing = true;
            }
        }
        i += 1;
    }
    let unmanaged = match domain_entry {
        Some(entry) => entry.get_bool("mail") != Some(true),
        None => false,
    };
    failed_existing || (unmanaged && any_record)
}

// ---------------------------------------------------------------------------
// Laws
// ---------------------------------------------------------------------------
proof fn lemma_trimmed_nonempty_count(ls: Seq<Seq<char>>, t: Seq<char>)
    ensures
        trimmed_nonempty(ls).to_multiset().count(t) == if t.len() > 0 {
            count_where(ls, |x: Seq<char>| trim(x) == t)
        } else {
            0
        },
    decreases ls.len(),
{
    broadcast use vstd::multiset::group_multiset_axioms;

    let p = |x: Seq<char>| trim(x) == t;
    if ls.len() == 0 {
        trimmed_nonempty(ls).to_multiset_ensures();
    } else {
        let front = ls.drop_last();
        lemma_trimmed_nonempty_count(front, t);
        let r = trimmed_nonempty(front);
        r.to_multiset_ensures();
        let u = trim(ls.last());
        if u.len() > 0 {
            assert(trimmed_nonempty(ls) == r.push(u));
        } else {
            assert(trimmed_nonempty(ls) == r);
        }
    }
}

/// The fingerprint text of a set of records does not depend on the order of
/// its lines, on blank lines, or on white space around lines, as long as no
/// two distinct lines differ only in ASCII letter case.
pub proof fn lemma_canonical_order_independent(ls1: Seq<Seq<char>>, ls2: Seq<Seq<char>>)
    requires
        ls1.to_multiset() == ls2.to_multiset(),
        forall|i: int, j: int|
            0 <= i < trimmed_nonempty(ls1).len() && 0 <= j < trimmed_nonempty(ls1).len() && lower(
                #[trigger] trimmed_nonempty(ls1)[i],
            ) == lower(#[trigger] trimmed_nonempty(ls1)[j]) ==> trimmed_nonempty(ls1)[i]
                == trimmed_nonempty(ls1)[j],
    ensures
        canonical(ls1) == canonical(ls2),
{
    broadcast use vstd::multiset::group_multiset_axioms;

    let t1 = trimmed_nonempty(ls1);
    let t2 = trimmed_nonempty(ls2);
    assert forall|t: Seq<char>| t1.to_multiset().count(t) == t2.to_multiset().count(t) by {
        lemma_trimmed_nonempty_count(ls1, t);
        lemma_trimmed_nonempty_count(ls2, t);
        lemma_count_where_permutation(ls1, ls2, |x: Seq<char>| trim(x) == t);
    }
    assert(t1.to_multiset() =~= t2.to_multiset());
    let s1 = sort_by(t1, lower_key());
    let s2 = sort_by(t2, lower_key());
    lemma_sort_by_sorted(t1, lower_key());
    lemma_sort_by_sorted(t2, lower_key());
    s1.to_multiset_ensures();
    t1.to_multiset_ensures();
    assert forall|i: int, j: int|
        0 <= i < s1.len() && 0 <= j < s1.len() && #[trigger] (lower_key())(s1[i]) == #[trigger] (
        lower_key())(s1[j]) implies s1[i] == s1[j] by {
        assert(s1.contains(s1[i]));
        assert(s1.contains(s1[j]));
        assert(s1.to_multiset().count(s1[i]) > 0);
        assert(s1.to_multiset().count(s1[j]) > 0);
        assert(t1.contains(s1[i]));
        assert(t1.contains(s1[j]));
        let a = choose|a: int| 0 <= a < t1.len() && t1[a] == s1[i];
        let b = choose|b: int| 0 <= b < t1.len() && t1[b] == s1[j];
        assert(lower(t1[a]) == lower(t1[b]));
    }
    lemma_sorted_unique(s1, s2, lower_key());
}

} // verus!
