//! The live probes of a domain (DNS lookups, TLS handshakes) and the
//! assembly of their outcomes into a validation result.
use vstd::prelude::*;

use crate::dns_checks::{
    mx_only_to, mx_points_only_to, prefix_count, txt_contains, txt_contains_spec,
    txt_prefix_count,
};
use crate::json::{assignable, get_bool, push_field, Json, JsonNumber, JsonValue, Number};
use crate::text::{
    chars_of, contains, copy_string, decimal, has_substring, owned, push_all, push_decimal,
    trim_end_char, trimmed_end_char,
};

verus! {

/// Outcome of a `dig +short` lookup: the trimmed output, or the failure text.
pub open spec fn dig_json(output: Result<Seq<char>, Seq<char>>) -> Json {
    match output {
        Ok(o) => if o.len() > 0 {
            Json::Object(seq![("ok"@, Json::Bool(true)), ("value"@, Json::Str(o))])
        } else {
            Json::Object(
                seq![
                    ("ok"@, Json::Bool(false)),
                    ("value"@, Json::Str(Seq::empty())),
                    ("error"@, Json::Str("record not found"@)),
                ],
            )
        },
        Err(e) => Json::Object(
            seq![
                ("ok"@, Json::Bool(false)),
                ("value"@, Json::Str(Seq::empty())),
                ("error"@, Json::Str(e)),
            ],
        ),
    }
}

pub open spec fn text_result(r: Result<String, String>) -> Result<Seq<char>, Seq<char>> {
    match r {
        Ok(s) => Ok(s@),
        Err(e) => Err(e@),
    }
}

/// The lookup record of a `dig` run (see `dig_json`).
pub fn dig_value(output: Result<String, String>) -> (r: JsonValue)
    ensures
        r@ == dig_json(text_result(output)),
{
    let ghost out = text_result(output);
    let mut f: Vec<(String, JsonValue)> = Vec::new();
    assert(JsonValue::Object(f)@->Object_0 =~= Seq::<(Seq<char>, Json)>::empty());
    match output {
        Ok(o) => {
            if !o.as_str().is_empty() {
                push_field(&mut f, "ok", JsonValue::Bool(true));
                push_field(&mut f, "value", JsonValue::Str(o));
            } else {
                push_field(&mut f, "ok", JsonValue::Bool(false));
                push_field(&mut f, "value", JsonValue::Str(String::new()));
                push_field(&mut f, "error", JsonValue::text("record not found"));
            }
        },
        Err(e) => {
            push_field(&mut f, "ok", JsonValue::Bool(false));
            push_field(&mut f, "value", JsonValue::Str(String::new()));
            push_field(&mut f, "error", JsonValue::Str(e));
        },
    }
    let r = JsonValue::Object(f);
    assert(r@->Object_0 =~= dig_json(out)->Object_0);
    r
}

/// `host:port`.
pub open spec fn endpoint_text(host: Seq<char>, port: u16) -> Seq<char> {
    host + ":"@ + decimal(port as nat)
}

pub fn endpoint(host: &str, port: u16) -> (r: String)
    ensures
        r@ == endpoint_text(host@, port),
{
    let mut s = owned(host);
    push_all(&mut s, ":");
    push_decimal(&mut s, port as u64);
    s
}

/// Arguments of the `openssl s_client` run that checks a TLS endpoint, with a
/// STARTTLS protocol when one is given.
pub open spec fn openssl_args(host: Seq<char>, port: u16, starttls: Option<Seq<char>>) -> Seq<Seq<char>> {
    let base = seq![
        "s_client"@,
        "-connect"@,
        endpoint_text(host, port),
        "-servername"@,
        host,
        "-verify_return_error"@,
        "-brief"@,
    ];
    match starttls {
        Some(p) => base + seq!["-starttls"@, p],
        None => base,
    }
}

pub fn openssl_arguments(host: &str, port: u16, starttls: Option<&str>) -> (r: Vec<String>)
    ensures
        crate::split::views(r@) == openssl_args(
            host@,
            port,
            match starttls {
                Some(p) => Some(p@),
                None => None,
            },
        ),
{
    let mut args: Vec<String> = Vec::new();
    args.push(owned("s_client"));
    args.push(owned("-connect"));
    args.push(endpoint(host, port));
    args.push(owned("-servername"));
    args.push(owned(host));
    args.push(owned("-verify_return_error"));
    args.push(owned("-brief"));
    match starttls {
        Some(p) => {
            args.push(owned("-starttls"));
            args.push(owned(p));
        },
        None => {},
    }
    let ghost sv = match starttls {
        Some(p) => Some(p@),
        None => None,
    };
    assert(crate::split::views(args@) =~= openssl_args(host@, port, sv));
    args
}

/// Outcome of a TLS check of `host:port`: the handshake summary, or the failure text.
pub open spec fn openssl_json(host: Seq<char>, port: u16, output: Result<Seq<char>, Seq<char>>) -> Json {
    match output {
        Ok(o) => Json::Object(
            seq![
                ("ok"@, Json::Bool(true)),
                ("endpoint"@, Json::Str(endpoint_text(host, port))),
                ("summary"@, Json::Str(o)),
            ],
        ),
        Err(e) => Json::Object(
            seq![
                ("ok"@, Json::Bool(false)),
                ("endpoint"@, Json::Str(endpoint_text(host, port))),
                ("error"@, Json::Str(e)),
            ],
        ),
    }
}

/// The check record of a TLS probe (see `openssl_json`).
pub fn openssl_value(host: &str, port: u16, output: Result<String, String>) -> (r: JsonValue)
    ensures
        r@ == openssl_json(host@, port, text_result(output)),
{
    let ghost out = text_result(output);
    let mut f: Vec<(String, JsonValue)> = Vec::new();
    assert(JsonValue::Object(f)@->Object_0 =~= Seq::<(Seq<char>, Json)>::empty());
    match output {
        Ok(o) => {
            push_field(&mut f, "ok", JsonValue::Bool(true));
            push_field(&mut f, "endpoint", JsonValue::Str(endpoint(host, port)));
            push_field(&mut f, "summary", JsonValue::Str(o));
        },
        Err(e) => {
            push_field(&mut f, "ok", JsonValue::Bool(false));
            push_field(&mut f, "endpoint", JsonValue::Str(endpoint(host, port)));
            push_field(&mut f, "error", JsonValue::Str(e));
        },
    }
    let r = JsonValue::Object(f);
    assert(r@->Object_0 =~= openssl_json(host@, port, out)->Object_0);
    r
}

/// The host names a domain's validation probes.
pub struct ProbeHosts {
    pub mail: String,
    pub webmail: String,
    pub dmarc: String,
    pub dkim: String,
}

/// `mail.<domain>`, `webmail.<domain>`, `_dmarc.<domain>` and
/// `mail._domainkey.<domain>`.
pub fn probe_hosts(domain: &str) -> (r: ProbeHosts)
    ensures
        r.mail@ == "mail."@ + domain@,
        r.webmail@ == "webmail."@ + domain@,
        r.dmarc@ == "_dmarc."@ + domain@,
        r.dkim@ == "mail._domainkey."@ + domain@,
{
    let mut mail = owned("mail.");
    push_all(&mut mail, domain);
    let mut webmail = owned("webmail.");
    push_all(&mut webmail, domain);
    let mut dmarc = owned("_dmarc.");
    push_all(&mut dmarc, domain);
    let mut dkim = owned("mail._domainkey.");
    push_all(&mut dkim, domain);
    ProbeHosts { mail, webmail, dmarc, dkim }
}

/// The outcomes of the nine probes of a domain.
pub struct DomainProbes {
    pub mail_a: JsonValue,
    pub webmail_dns: JsonValue,
    pub mx: JsonValue,
    pub spf: JsonValue,
    pub dkim_txt: JsonValue,
    pub dmarc_txt: JsonValue,
    pub smtp: JsonValue,
    pub imap: JsonValue,
    pub webmail_tls: JsonValue,
}

/// The probe reported `ok: true`.
pub open spec fn probe_ok(p: Json) -> bool {
    get_bool(p, "ok"@) == Some(true)
}

/// The validation result of a domain from its probe outcomes, given whether
/// the MX lookup is accepted.
pub open spec fn validation_json_with(domain: Seq<char>, p: DomainProbes, mx_ok: bool) -> Json {
    let spf_count = prefix_count(p.spf@, "v=spf1"@);
    let spf_ok = spf_count == 1;
    let dkim_ok = txt_contains_spec(p.dkim_txt@, "p="@);
    let dmarc_ok = prefix_count(p.dmarc_txt@, "v=dmarc1"@) == 1;
    let healthy = probe_ok(p.mail_a@) && probe_ok(p.webmail_dns@) && mx_ok && spf_ok && dkim_ok
        && dmarc_ok && probe_ok(p.smtp@) && probe_ok(p.imap@) && probe_ok(p.webmail_tls@);
    Json::Object(
        seq![
            ("domain"@, Json::Str(domain)),
            ("healthy"@, Json::Bool(healthy)),
            (
                "checks"@,
                Json::Object(
                    seq![
                        ("mail_a"@, p.mail_a@),
                        ("webmail_tunnel_dns"@, p.webmail_dns@),
                        ("mx"@, Json::Object(seq![("ok"@, Json::Bool(mx_ok)), ("detail"@, p.mx@)])),
                        (
                            "spf"@,
                            Json::Object(
                                seq![
                                    ("ok"@, Json::Bool(spf_ok)),
                                    ("count"@, Json::Num(Number::PosInt(spf_count as u64))),
                                    ("detail"@, p.spf@),
                                ],
                            ),
                        ),
                        (
                            "dkim"@,
                            Json::Object(
                                seq![("ok"@, Json::Bool(dkim_ok)), ("detail"@, p.dkim_txt@)],
                            ),
                        ),
                        (
                            "dmarc"@,
                            Json::Object(
                                seq![("ok"@, Json::Bool(dmarc_ok)), ("detail"@, p.dmarc_txt@)],
                            ),
                        ),
                        ("smtp_submission"@, p.smtp@),
                        ("imap_tls"@, p.imap@),
                        ("webmail_tls"@, p.webmail_tls@),
                    ],
                ),
            ),
        ],
    )
}

/// The validation result, where MX is accepted only when it names exactly
/// `mail.<domain>`.
pub open spec fn validation_json(domain: Seq<char>, p: DomainProbes) -> Json {
    validation_json_with(domain, p, mx_only_to(p.mx@, "mail."@ + domain))
}

/// Lenient MX acceptance: the text, trailing dots removed, mentions
/// `mail.<domain>` anywhere.
pub open spec fn mx_mentions(mx: Json, mail: Seq<char>) -> bool {
    match crate::dns_checks::record_text(mx) {
        Some(v) => contains(trim_end_char(v, '.'), mail),
        None => false,
    }
}

/// The validation result with lenient MX acceptance.
pub open spec fn lenient_validation_json(domain: Seq<char>, p: DomainProbes) -> Json {
    validation_json_with(domain, p, mx_mentions(p.mx@, "mail."@ + domain))
}

fn bool_of(v: &JsonValue) -> (r: bool)
    ensures
        r == probe_ok(v@),
{
    v.get_bool("ok") == Some(true)
}

fn check_object(ok: bool, detail: JsonValue) -> (r: JsonValue)
    ensures
        r@ == Json::Object(seq![("ok"@, Json::Bool(ok)), ("detail"@, detail@)]),
{
    let ghost dv = detail@;
    let mut f: Vec<(String, JsonValue)> = Vec::new();
    assert(JsonValue::Object(f)@->Object_0 =~= Seq::<(Seq<char>, Json)>::empty());
    push_field(&mut f, "ok", JsonValue::Bool(ok));
    push_field(&mut f, "detail", detail);
    let r = JsonValue::Object(f);
    assert(r@->Object_0 =~= seq![("ok"@, Json::Bool(ok)), ("detail"@, dv)]);
    r
}

fn assemble(domain: &str, p: DomainProbes, mx_ok: bool) -> (r: JsonValue)
    ensures
        r@ == validation_json_with(domain@, p, mx_ok),
{
    let ghost pv = p;
    let spf_count = txt_prefix_count(&p.spf, "v=spf1");
    let spf_ok = spf_count == 1;
    let dkim_ok = txt_contains(&p.dkim_txt, "p=");
    let dmarc_ok = txt_prefix_count(&p.dmarc_txt, "v=dmarc1") == 1;
    let healthy = bool_of(&p.mail_a) && bool_of(&p.webmail_dns) && mx_ok && spf_ok && dkim_ok
        && dmarc_ok && bool_of(&p.smtp) && bool_of(&p.imap) && bool_of(&p.webmail_tls);
    let DomainProbes { mail_a, webmail_dns, mx, spf, dkim_txt, dmarc_txt, smtp, imap, webmail_tls } =
        p;
    let mut sf: Vec<(String, JsonValue)> = Vec::new();
    assert(JsonValue::Object(sf)@->Object_0 =~= Seq::<(Seq<char>, Json)>::empty());
    push_field(&mut sf, "ok", JsonValue::Bool(spf_ok));
    push_field(&mut sf, "count", JsonValue::Number(JsonNumber::PosInt(spf_count as u64)));
    push_field(&mut sf, "detail", spf);
    let spf_check = JsonValue::Object(sf);
    let mut c: Vec<(String, JsonValue)> = Vec::new();
    assert(JsonValue::Object(c)@->Object_0 =~= Seq::<(Seq<char>, Json)>::empty());
    push_field(&mut c, "mail_a", mail_a);
    push_field(&mut c, "webmail_tunnel_dns", webmail_dns);
    push_field(&mut c, "mx", check_object(mx_ok, mx));
    push_field(&mut c, "spf", spf_check);
    push_field(&mut c, "dkim", check_object(dkim_ok, dkim_txt));
    push_field(&mut c, "dmarc", check_object(dmarc_ok, dmarc_txt));
    push_field(&mut c, "smtp_submission", smtp);
    push_field(&mut c, "imap_tls", imap);
    push_field(&mut c, "webmail_tls", webmail_tls);
    let checks = JsonValue::Object(c);
    let mut top: Vec<(String, JsonValue)> = Vec::new();
    assert(JsonValue::Object(top)@->Object_0 =~= Seq::<(Seq<char>, Json)>::empty());
    push_field(&mut top, "domain", JsonValue::text(domain));
    push_field(&mut top, "healthy", JsonValue::Bool(healthy));
    push_field(&mut top, "checks", checks);
    let r = JsonValue::Object(top);
    let ghost want = validation_json_with(domain@, pv, mx_ok);
    assert(spf_check@->Object_0 =~= want->Object_0[2].1->Object_0[3].1->Object_0);
    assert(checks@->Object_0 =~= want->Object_0[2].1->Object_0);
    assert(r@->Object_0 =~= want->Object_0);
    r
}

/// The validation result of a domain from its probe outcomes (see `validation_json`).
pub fn validation_result(domain: &str, probes: DomainProbes) -> (r: JsonValue)
    ensures
        r@ == validation_json(domain@, probes),
{
    let hosts = probe_hosts(domain);
    let mx_ok = mx_points_only_to(&probes.mx, hosts.mail.as_str());
    assemble(domain, probes, mx_ok)
}

/// The validation result with lenient MX acceptance (see
/// `lenient_validation_json`).
pub fn lenient_validation_result(domain: &str, probes: DomainProbes) -> (r: JsonValue)
    ensures
        r@ == lenient_validation_json(domain@, probes),
{
    let hosts = probe_hosts(domain);
    let mx_ok = match probes.mx.get_str("value") {
        Some(v) => {
            let t = trimmed_end_char(v.as_str(), '.');
            has_substring(&chars_of(t.as_str()), &chars_of(hosts.mail.as_str()))
        },
        None => false,
    };
    assemble(domain, probes, mx_ok)
}

/// The lookup and handshake records of the probes can take new fields, as
/// every record a probe produces (an object) can.
pub open spec fn probes_assignable(p: DomainProbes) -> bool {
    &&& assignable(p.mail_a@)
    &&& assignable(p.webmail_dns@)
    &&& assignable(p.smtp@)
    &&& assignable(p.imap@)
    &&& assignable(p.webmail_tls@)
}

/// What the nine probe runs of a domain printed: the `dig +short` lookups of
/// `mail.` and `webmail.` (A), the domain (MX, TXT), the DKIM and DMARC names
/// (TXT), then the TLS handshakes of SMTP submission, IMAPS and webmail.
pub struct ProbeOutputs {
    pub mail_a: Result<String, String>,
    pub webmail_a: Result<String, String>,
    pub mx: Result<String, String>,
    pub spf: Result<String, String>,
    pub dkim: Result<String, String>,
    pub dmarc: Result<String, String>,
    pub smtp: Result<String, String>,
    pub imap: Result<String, String>,
    pub webmail_tls: Result<String, String>,
}

/// The probe records of a domain from what its probe runs printed: a lookup
/// record for each `dig` run (see `dig_json`) and a handshake record for each
/// TLS run (see `openssl_json`), at `mail.<domain>:587`, `mail.<domain>:993`
/// and `webmail.<domain>:443`.
pub fn probes_from_outputs(domain: &str, o: ProbeOutputs) -> (r: DomainProbes)
    ensures
        r.mail_a@ == dig_json(text_result(o.mail_a)),
        r.webmail_dns@ == dig_json(text_result(o.webmail_a)),
        r.mx@ == dig_json(text_result(o.mx)),
        r.spf@ == dig_json(text_result(o.spf)),
        r.dkim_txt@ == dig_json(text_result(o.dkim)),
        r.dmarc_txt@ == dig_json(text_result(o.dmarc)),
        r.smtp@ == openssl_json("mail."@ + domain@, 587, text_result(o.smtp)),
        r.imap@ == openssl_json("mail."@ + domain@, 993, text_result(o.imap)),
        r.webmail_tls@ == openssl_json("webmail."@ + domain@, 443, text_result(o.webmail_tls)),
        probes_assignable(r),
{
    let hosts = probe_hosts(domain);
    let ProbeOutputs { mail_a, webmail_a, mx, spf, dkim, dmarc, smtp, imap, webmail_tls } = o;
    DomainProbes {
        mail_a: dig_value(mail_a),
        webmail_dns: dig_value(webmail_a),
        mx: dig_value(mx),
        spf: dig_value(spf),
        dkim_txt: dig_value(dkim),
        dmarc_txt: dig_value(dmarc),
        smtp: openssl_value(hosts.mail.as_str(), 587, smtp),
        imap: openssl_value(hosts.mail.as_str(), 993, imap),
        webmail_tls: openssl_value(hosts.webmail.as_str(), 443, webmail_tls),
    }
}

/// A domain must publish exactly one SPF record: the SPF check of a
/// validation is ok exactly when the SPF lookup holds one record starting
/// with `v=spf1` (in any case), and with none or several the domain is not
/// healthy.
pub proof fn lemma_spf_needs_exactly_one_record(domain: Seq<char>, p: DomainProbes, mx_ok: bool)
    ensures
        ({
            let v = validation_json_with(domain, p, mx_ok);
            &&& crate::json::get(v, "checks"@) matches Some(checks) && crate::json::get(checks, "spf"@)
                matches Some(spf) && crate::json::get(spf, "ok"@) == Some(
                Json::Bool(prefix_count(p.spf@, "v=spf1"@) == 1),
            )
            &&& prefix_count(p.spf@, "v=spf1"@) != 1 ==> crate::json::get(v, "healthy"@) == Some(
                Json::Bool(false),
            )
        }),
{
    let v = validation_json_with(domain, p, mx_ok);
    reveal_strlit("domain");
    reveal_strlit("healthy");
    reveal_strlit("checks");
    reveal_strlit("mail_a");
    reveal_strlit("webmail_tunnel_dns");
    reveal_strlit("mx");
    reveal_strlit("spf");
    assert("domain"@[0] != "checks"@[0] && "healthy"@[0] != "checks"@[0] && "domain"@[0] != "healthy"@[0]);
    assert("mail_a"@[0] != "spf"@[0] && "webmail_tunnel_dns"@[0] != "spf"@[0] && "mx"@[0] != "spf"@[0]);
    crate::json::lemma_field_index_at(v->Object_0, "checks"@, 2);
    crate::json::lemma_field_index_at(v->Object_0, "healthy"@, 1);
    let checks = v->Object_0[2].1;
    crate::json::lemma_field_index_at(checks->Object_0, "spf"@, 3);
    let spf = checks->Object_0[3].1;
    crate::json::lemma_field_index_at(spf->Object_0, "ok"@, 0);
}

} // verus!
