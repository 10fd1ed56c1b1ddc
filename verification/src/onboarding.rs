//! Decisions of domain onboarding around the privileged helper: which action
//! to run, how a helper run is judged, when it is retried, and what is written
//! to the audit log.
use vstd::prelude::*;

use crate::domain_names::{valid_hestia_user, validate_hestia_user, DomainError};
use crate::json::{push_field, Json, JsonValue};
use crate::text::{
    copy_string, decimal, i64_text, is_space, owned, push_all, push_decimal, signed_decimal,
    trim, trimmed,
};

verus! {

/// Name for what `String::from_utf8_lossy` returns for `bytes`.
pub uninterp spec fn utf8_lossy(bytes: Seq<u8>) -> Seq<char>;

/// `String::from_utf8_lossy(bytes)`, owned. Its documentation promises that
/// valid UTF-8 is decoded as it is; invalid sequences become U+FFFD, which is
/// left to the name `utf8_lossy`.
#[verifier::external_body]
pub(crate) fn lossy_text(bytes: &[u8]) -> (r: String)
    ensures
        r@ == utf8_lossy(bytes@),
        vstd::utf8::valid_utf8(bytes@) ==> r@ == vstd::utf8::decode_utf8(bytes@),
{
    String::from_utf8_lossy(bytes).into_owned()
}

/// Number of helper runs before onboarding gives up.
pub const HELPER_RECONCILE_ATTEMPTS: usize = 3;

/// Exit codes by which the helper reports a configuration conflict or an
/// invalid request; rerunning cannot help.
pub open spec fn conflict_code(code: Option<i32>) -> bool {
    code == Some(3i32) || code == Some(5i32) || code == Some(42i32) || code == Some(43i32)
}

/// A failed helper run is worth repeating unless it reported a conflict.
pub fn helper_exit_code_is_retryable(code: Option<i32>) -> (r: bool)
    ensures
        r == !conflict_code(code),
{
    !matches!(code, Some(3) | Some(5) | Some(42) | Some(43))
}

/// What a failed helper run is reported with: its trimmed standard error, else
/// its trimmed standard output, else its exit status.
pub open spec fn failure_detail(stdout: Seq<u8>, stderr: Seq<u8>, code: Option<i32>) -> Seq<char> {
    let e = trim(utf8_lossy(stderr));
    let o = trim(utf8_lossy(stdout));
    if e.len() > 0 {
        e
    } else if o.len() > 0 {
        o
    } else {
        match code {
            Some(c) => "helper exited with code "@ + signed_decimal(c as int)
                + " without diagnostic output"@,
            None => "helper terminated without diagnostic output"@,
        }
    }
}

/// The report of a failed helper run (see `failure_detail`).
pub fn helper_failure_detail(stdout: &[u8], stderr: &[u8], code: Option<i32>) -> (r: String)
    ensures
        r@ == failure_detail(stdout@, stderr@, code),
{
    let e = trimmed(lossy_text(stderr).as_str());
    if !e.as_str().is_empty() {
        return e;
    }
    let o = trimmed(lossy_text(stdout).as_str());
    if !o.as_str().is_empty() {
        return o;
    }
    match code {
        Some(c) => {
            let mut s = owned("helper exited with code ");
            let n = i64_text(c as i64);
            push_all(&mut s, n.as_str());
            push_all(&mut s, " without diagnostic output");
            s
        },
        None => owned("helper terminated without diagnostic output"),
    }
}

/// The text a command run yields: on success its trimmed standard output, or
/// its trimmed standard error when the output is empty; on failure an error
/// naming the program with its trimmed standard error.
pub open spec fn command_text_spec(program: Seq<char>, success: bool, stdout: Seq<u8>, stderr: Seq<u8>) -> Result<
    Seq<char>,
    Seq<char>,
> {
    if !success {
        Err(program + " failed: "@ + trim(utf8_lossy(stderr)))
    } else if trim(utf8_lossy(stdout)).len() > 0 {
        Ok(trim(utf8_lossy(stdout)))
    } else {
        Ok(trim(utf8_lossy(stderr)))
    }
}

/// The text of a finished command run (see `command_text_spec`).
pub fn command_text(program: &str, success: bool, stdout: &[u8], stderr: &[u8]) -> (r: Result<
    String,
    String,
>)
    ensures
        crate::domain_probe::text_result(r) == command_text_spec(program@, success, stdout@, stderr@),
{
    if !success {
        let e = trimmed(lossy_text(stderr).as_str());
        let mut m = owned(program);
        push_all(&mut m, " failed: ");
        push_all(&mut m, e.as_str());
        return Err(m);
    }
    let o = trimmed(lossy_text(stdout).as_str());
    if !o.as_str().is_empty() {
        return Ok(o);
    }
    Ok(trimmed(lossy_text(stderr).as_str()))
}

/// Audit text with line breaks and tabs replaced by spaces.
pub open spec fn audit_safe(s: Seq<char>) -> Seq<char> {
    s.map_values(|c: char| if c == '\n' || c == '\r' || c == '\t' { ' ' } else { c })
}

/// One audit log line.
pub open spec fn audit_line_text(epoch: i64, action: Seq<char>, domain: Seq<char>, outcome: Seq<char>) -> Seq<char> {
    signed_decimal(epoch as int) + "\taction="@ + action + "\tdomain="@ + domain + "\toutcome="@
        + audit_safe(outcome) + "\n"@
}

/// One audit log line (see `audit_line_text`).
pub fn audit_line(epoch: i64, action: &str, domain: &str, outcome: &str) -> (r: String)
    ensures
        r@ == audit_line_text(epoch, action@, domain@, outcome@),
{
    let mut s = i64_text(epoch);
    push_all(&mut s, "\taction=");
    push_all(&mut s, action);
    push_all(&mut s, "\tdomain=");
    push_all(&mut s, domain);
    push_all(&mut s, "\toutcome=");
    let v = crate::text::chars_of(outcome);
    let ghost start = s@;
    let mut i: usize = 0;
    while i < v.len()
        invariant
            i <= v.len(),
            v@ == outcome@,
            s@ == start + audit_safe(v@.take(i as int)),
        decreases v.len() - i,
    {
        let c = v[i];
        let d = if c == '\n' || c == '\r' || c == '\t' {
            ' '
        } else {
            c
        };
        s.push(d);
        i += 1;
        assert(audit_safe(v@.take(i as int)) =~= audit_safe(v@.take(i - 1)).push(d));
    }
    assert(v@.take(v.len() as int) == v@);
    push_all(&mut s, "\n");
    s
}

/// The Hestia account onboarding runs under: the requested one, `admin` by default.
pub open spec fn onboarding_user_spec(requested: Option<Seq<char>>) -> Seq<char> {
    match requested {
        Some(u) => u,
        None => "admin"@,
    }
}

/// The Hestia account for onboarding, refused unless it is a valid account name.
pub fn onboarding_user(hestia_user: Option<String>) -> (r: Result<String, DomainError>)
    ensures
        ({
            let u = onboarding_user_spec(
                match hestia_user {
                    Some(s) => Some(s@),
                    None => None,
                },
            );
            &&& valid_hestia_user(u) ==> (r matches Ok(s) && s@ == u)
            &&& !valid_hestia_user(u) ==> r == Err::<String, DomainError>(
                DomainError::InvalidHestiaUser,
            )
        }),
{
    let user = match hestia_user {
        Some(u) => u,
        None => owned("admin"),
    };
    match validate_hestia_user(user.as_str()) {
        Ok(()) => Ok(user),
        Err(e) => Err(e),
    }
}

/// The helper action and the audit action: `migrate` when existing
/// conflicting records are to be replaced, `onboard` otherwise.
pub fn onboarding_action(replace_existing: Option<bool>) -> (r: &'static str)
    ensures
        r@ == (if replace_existing == Some(true) {
            "migrate"@
        } else {
            "onboard"@
        }),
{
    if replace_existing == Some(true) {
        "migrate"
    } else {
        "onboard"
    }
}

/// How one helper run ended.
pub enum HelperRun {
    /// The run did not finish in time.
    TimedOut,
    /// The helper exited.
    Exited { success: bool, code: Option<i32>, stdout: Vec<u8>, stderr: Vec<u8> },
}

/// What onboarding does after a helper run.
#[derive(Debug)]
pub enum HelperStep {
    /// Wait, then run the helper again; `audit` is the `onboard-retry` outcome
    /// to record first, if any.
    Retry { audit: Option<String>, last_failure: String },
    /// Record `audit` under the onboarding action, then fail with `message`.
    Fail { audit: String, message: String },
    /// The helper succeeded with this (trimmed) output; `audit` is the
    /// `onboard-retry` outcome to record, if this was not the first attempt.
    Succeeded { output: String, audit: Option<String> },
}

/// `attempt/3`.
pub open spec fn attempt_text(attempt: usize) -> Seq<char> {
    decimal(attempt as nat) + "/"@ + decimal(HELPER_RECONCILE_ATTEMPTS as nat)
}

pub open spec fn timeout_failure(attempt: usize) -> Seq<char> {
    "helper timed out on attempt "@ + attempt_text(attempt)
}

pub open spec fn fail_audit(last: Seq<char>) -> Seq<char> {
    "failed: "@ + last
}

pub open spec fn fail_message(last: Seq<char>) -> Seq<char> {
    "domain onboarding failed: "@ + last
}

pub open spec fn retry_audit(attempt: usize, last: Seq<char>) -> Seq<char> {
    "attempt "@ + attempt_text(attempt) + " failed; retrying: "@ + last
}

pub open spec fn recovered_audit(attempt: usize) -> Seq<char> {
    "recovered on attempt "@ + attempt_text(attempt)
}

pub open spec fn opt_text(o: Option<String>) -> Option<Seq<char>> {
    match o {
        Some(s) => Some(s@),
        None => None,
    }
}

/// The step after helper run number `attempt` (1-based) ended as `run`: a
/// timeout or a failure that is not a conflict is retried while attempts
/// remain (a failure is recorded first); a conflict, or any failure of the
/// last attempt, fails onboarding; success ends the runs.
pub open spec fn helper_step_ok(attempt: usize, run: HelperRun, step: HelperStep) -> bool {
    match run {
        HelperRun::TimedOut => {
            let last = timeout_failure(attempt);
            if attempt < HELPER_RECONCILE_ATTEMPTS {
                step matches HelperStep::Retry { audit, last_failure } && audit is None
                    && last_failure@ == last
            } else {
                step matches HelperStep::Fail { audit, message } && audit@ == fail_audit(last)
                    && message@ == fail_message(last)
            }
        },
        HelperRun::Exited { success, code, stdout, stderr } => {
            if success {
                step matches HelperStep::Succeeded { output, audit } && output@ == trim(
                    utf8_lossy(stdout@),
                ) && opt_text(audit) == (if attempt > 1 {
                    Some(recovered_audit(attempt))
                } else {
                    None
                })
            } else {
                let last = failure_detail(stdout@, stderr@, code);
                if !conflict_code(code) && attempt < HELPER_RECONCILE_ATTEMPTS {
                    step matches HelperStep::Retry { audit, last_failure } && opt_text(audit) == Some(
                        retry_audit(attempt, last),
                    ) && last_failure@ == last
                } else {
                    step matches HelperStep::Fail { audit, message } && audit@ == fail_audit(last)
                        && message@ == fail_message(last)
                }
            }
        },
    }
}

fn attempt_string(attempt: usize) -> (r: String)
    ensures
        r@ == attempt_text(attempt),
{
    let mut s = String::new();
    push_decimal(&mut s, attempt as u64);
    push_all(&mut s, "/");
    push_decimal(&mut s, HELPER_RECONCILE_ATTEMPTS as u64);
    s
}

fn prefixed_text(prefix: &str, rest: &str) -> (r: String)
    ensures
        r@ == prefix@ + rest@,
{
    let mut s = owned(prefix);
    push_all(&mut s, rest);
    s
}

fn failing(last: &String) -> (r: HelperStep)
    ensures
        r matches HelperStep::Fail { audit, message } && audit@ == fail_audit(last@) && message@
            == fail_message(last@),
{
    HelperStep::Fail {
        audit: prefixed_text("failed: ", last.as_str()),
        message: prefixed_text("domain onboarding failed: ", last.as_str()),
    }
}

/// The step after a helper run (see `helper_step_ok`).
pub fn next_helper_step(attempt: usize, run: HelperRun) -> (r: HelperStep)
    ensures
        helper_step_ok(attempt, run, r),
{
    match run {
        HelperRun::TimedOut => {
            let n = attempt_string(attempt);
            let last = prefixed_text("helper timed out on attempt ", n.as_str());
            if attempt < HELPER_RECONCILE_ATTEMPTS {
                HelperStep::Retry { audit: None, last_failure: last }
            } else {
                failing(&last)
            }
        },
        HelperRun::Exited { success, code, stdout, stderr } => {
            if success {
                let output = trimmed(lossy_text(stdout.as_slice()).as_str());
                let audit = if attempt > 1 {
                    let n = attempt_string(attempt);
                    Some(prefixed_text("recovered on attempt ", n.as_str()))
                } else {
                    None
                };
                HelperStep::Succeeded { output, audit }
            } else {
                let last = helper_failure_detail(stdout.as_slice(), stderr.as_slice(), code);
                if helper_exit_code_is_retryable(code) && attempt < HELPER_RECONCILE_ATTEMPTS {
                    let n = attempt_string(attempt);
                    let mut a = prefixed_text("attempt ", n.as_str());
                    push_all(&mut a, " failed; retrying: ");
                    push_all(&mut a, last.as_str());
                    HelperStep::Retry { audit: Some(a), last_failure: last }
                } else {
                    failing(&last)
                }
            }
        },
    }
}

/// The audit outcome when the providers were configured but the inventory
/// could not be written.
pub open spec fn persistence_failure_text(error: Seq<char>) -> Seq<char> {
    "providers completed; inventory persistence failed: "@ + error
}

pub fn persistence_failure_audit(error: &str) -> (r: String)
    ensures
        r@ == persistence_failure_text(error@),
{
    prefixed_text("providers completed; inventory persistence failed: ", error)
}

/// A single helper run that failed: the audit outcome and the refusal, both
/// carrying the trimmed standard error.
pub fn single_run_failure(stderr: &[u8]) -> (r: HelperStep)
    ensures
        r matches HelperStep::Fail { audit, message } && audit@ == fail_audit(
            trim(utf8_lossy(stderr@)),
        ) && message@ == fail_message(trim(utf8_lossy(stderr@))),
{
    let e = trimmed(lossy_text(stderr).as_str());
    failing(&e)
}

/// Whether a validation came out healthy, as the audit log words it.
pub open spec fn health_outcome(healthy: bool) -> Seq<char> {
    if healthy {
        "healthy"@
    } else {
        "degraded"@
    }
}

pub fn health_outcome_text(healthy: bool) -> (r: &'static str)
    ensures
        r@ == health_outcome(healthy),
{
    if healthy {
        "healthy"
    } else {
        "degraded"
    }
}

/// The answer to an onboarding: the domain, what the helper reported, and the
/// validation that followed.
pub open spec fn onboarding_answer(domain: Seq<char>, result: Json, validation: Json) -> Json {
    Json::Object(
        seq![("domain"@, Json::Str(domain)), ("result"@, result), ("validation"@, validation)],
    )
}

pub fn onboarding_response(domain: &str, result: JsonValue, validation: JsonValue) -> (r: JsonValue)
    ensures
        r@ == onboarding_answer(domain@, result@, validation@),
{
    let ghost want = onboarding_answer(domain@, result@, validation@);
    let mut f: Vec<(String, JsonValue)> = Vec::new();
    assert(JsonValue::Object(f)@->Object_0 =~= Seq::<(Seq<char>, Json)>::empty());
    push_field(&mut f, "domain", JsonValue::text(domain));
    push_field(&mut f, "result", result);
    push_field(&mut f, "validation", validation);
    let r = JsonValue::Object(f);
    assert(r@->Object_0 =~= want->Object_0);
    r
}

/// The answer to adopting a domain's existing configuration.
pub open spec fn adoption_answer(domain: Seq<char>, validation: Json) -> Json {
    Json::Object(
        seq![
            ("domain"@, Json::Str(domain)),
            ("configuration_mode"@, Json::Str("existing"@)),
            ("validation"@, validation),
        ],
    )
}

pub fn adoption_response(domain: &str, validation: JsonValue) -> (r: JsonValue)
    ensures
        r@ == adoption_answer(domain@, validation@),
{
    let ghost want = adoption_answer(domain@, validation@);
    let mut f: Vec<(String, JsonValue)> = Vec::new();
    assert(JsonValue::Object(f)@->Object_0 =~= Seq::<(Seq<char>, Json)>::empty());
    push_field(&mut f, "domain", JsonValue::text(domain));
    push_field(&mut f, "configuration_mode", JsonValue::text("existing"));
    push_field(&mut f, "validation", validation);
    let r = JsonValue::Object(f);
    assert(r@->Object_0 =~= want->Object_0);
    r
}

/// Retries are bounded and fail closed: no run is retried once the last
/// attempt is reached, a reported conflict is never retried, and any other
/// failure before the last attempt is.
pub proof fn lemma_retries_are_bounded(attempt: usize, run: HelperRun, step: HelperStep)
    requires
        helper_step_ok(attempt, run, step),
    ensures
        attempt >= HELPER_RECONCILE_ATTEMPTS ==> !(step is Retry),
        (run matches HelperRun::Exited { success, code, .. } && !success && conflict_code(code))
            ==> step is Fail,
        (run matches HelperRun::Exited { success, code, .. } && !success && !conflict_code(code))
            && attempt < HELPER_RECONCILE_ATTEMPTS ==> step is Retry,
        (run matches HelperRun::Exited { success, .. } && success) ==> step is Succeeded,
{
}

} // verus!
