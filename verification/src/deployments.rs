//! The deployments page: which remote tasks are guest deployments, how they
//! are shown, and how the task lists of all remotes are combined.
use vstd::prelude::*;

use crate::json::{as_str, get, get_str, Json, JsonNumber, JsonValue, Number};
use crate::split::{join, join_with, views};
use crate::text::{copy_string, decimal, owned, push_all, push_decimal, signed_decimal, str_eq};

verus! {

/// How a JSON value is shown in a table cell.
pub enum Shown {
    Text(String),
    /// An array or object: shown as its JSON text.
    Json,
}

pub open spec fn shown_view(s: Shown) -> Option<Seq<char>> {
    match s {
        Shown::Text(t) => Some(t@),
        Shown::Json => None,
    }
}

/// Text as it is, numbers in decimal (a float as it was written), flags as
/// `true`/`false`, a dash for null or nothing; arrays and objects as JSON.
pub open spec fn shown_spec(value: Option<Json>) -> Option<Seq<char>> {
    match value {
        None => Some("—"@),
        Some(Json::Null) => Some("—"@),
        Some(Json::Str(s)) => Some(s),
        Some(Json::Num(Number::PosInt(n))) => Some(decimal(n as nat)),
        Some(Json::Num(Number::NegInt(n))) => Some(signed_decimal(n as int)),
        Some(Json::Num(Number::Float(t))) => Some(t),
        Some(Json::Bool(b)) => Some(
            if b {
                "true"@
            } else {
                "false"@
            },
        ),
        _ => None,
    }
}

pub open spec fn opt_json(o: Option<&JsonValue>) -> Option<Json> {
    match o {
        Some(v) => Some(v@),
        None => None,
    }
}

/// How a value is shown (see `shown_spec`).
pub fn json_display(value: Option<&JsonValue>) -> (r: Shown)
    ensures
        shown_view(r) == shown_spec(opt_json(value)),
{
    match value {
        None => Shown::Text(owned("—")),
        Some(JsonValue::Null) => Shown::Text(owned("—")),
        Some(JsonValue::Str(s)) => Shown::Text(copy_string(s)),
        Some(JsonValue::Number(JsonNumber::PosInt(n))) => {
            let mut t = String::new();
            push_decimal(&mut t, *n);
            Shown::Text(t)
        },
        Some(JsonValue::Number(JsonNumber::NegInt(n))) => Shown::Text(crate::text::i64_text(*n)),
        Some(JsonValue::Number(JsonNumber::Float(t))) => Shown::Text(copy_string(t)),
        Some(JsonValue::Bool(b)) => if *b {
            Shown::Text(owned("true"))
        } else {
            Shown::Text(owned("false"))
        },
        _ => Shown::Json,
    }
}

/// A guest deployment task of a remote.
pub struct DeploymentTask {
    pub remote: String,
    pub node: String,
    pub kind: String,
    pub id: Shown,
    pub status: String,
    pub upid: String,
}

/// The task types that create or clone a guest.
pub open spec fn deployment_kind(kind: Seq<char>) -> bool {
    kind == "qmcreate"@ || kind == "vzcreate"@ || kind == "qmclone"@ || kind == "vzclone"@
}

pub open spec fn text_or(o: Option<Seq<char>>, default: Seq<char>) -> Seq<char> {
    match o {
        Some(s) => s,
        None => default,
    }
}

/// The deployment a task stands for: only guest creation and cloning tasks
/// count; node and UPID default to a dash, the status to `Running`.
pub open spec fn task_spec(remote: Seq<char>, value: Json) -> Option<
    (Seq<char>, Seq<char>, Seq<char>, Option<Seq<char>>, Seq<char>, Seq<char>),
> {
    match get_str(value, "type"@) {
        Some(kind) => if deployment_kind(kind) {
            Some(
                (
                    remote,
                    text_or(get_str(value, "node"@), "—"@),
                    kind,
                    shown_spec(get(value, "id"@)),
                    text_or(get_str(value, "status"@), "Running"@),
                    text_or(get_str(value, "upid"@), "—"@),
                ),
            )
        } else {
            None
        },
        None => None,
    }
}

pub open spec fn task_view(t: DeploymentTask) -> (
    Seq<char>,
    Seq<char>,
    Seq<char>,
    Option<Seq<char>>,
    Seq<char>,
    Seq<char>,
) {
    (t.remote@, t.node@, t.kind@, shown_view(t.id), t.status@, t.upid@)
}

fn member_or(value: &JsonValue, key: &str, default: &str) -> (r: String)
    ensures
        r@ == text_or(get_str(value@, key@), default@),
{
    match value.get_str(key) {
        Some(s) => copy_string(s),
        None => owned(default),
    }
}

/// The deployment a task stands for, if any (see `task_spec`).
pub fn task_from_value(remote: &str, value: &JsonValue) -> (r: Option<DeploymentTask>)
    ensures
        match r {
            Some(t) => task_spec(remote@, value@) == Some(task_view(t)),
            None => task_spec(remote@, value@) is None,
        },
{
    let kind = match value.get_str("type") {
        Some(k) => copy_string(k),
        None => return None,
    };
    let k = kind.as_str();
    if !(str_eq(k, "qmcreate") || str_eq(k, "vzcreate") || str_eq(k, "qmclone") || str_eq(
        k,
        "vzclone",
    )) {
        return None;
    }
    Some(
        DeploymentTask {
            remote: owned(remote),
            node: member_or(value, "node", "—"),
            kind,
            id: json_display(value.get("id")),
            status: member_or(value, "status", "Running"),
            upid: member_or(value, "upid", "—"),
        },
    )
}

/// Most deployments shown.
pub const MAX_TASKS: usize = 30;

/// The deployments of one remote's task list, in order.
pub open spec fn tasks_of(remote: Seq<char>, values: Seq<Json>) -> Seq<
    (Seq<char>, Seq<char>, Seq<char>, Option<Seq<char>>, Seq<char>, Seq<char>),
>
    decreases values.len(),
{
    if values.len() == 0 {
        Seq::empty()
    } else {
        let r = tasks_of(remote, values.drop_last());
        match task_spec(remote, values.last()) {
            Some(t) => r.push(t),
            None => r,
        }
    }
}

pub open spec fn listing_view(r: Result<Vec<JsonValue>, String>) -> Result<Seq<Json>, Seq<char>> {
    match r {
        Ok(v) => Ok(JsonValue::Array(v)@->Array_0),
        Err(e) => Err(e@),
    }
}

/// All remotes' deployments and their listing errors, in order.
pub open spec fn gathered(results: Seq<(Seq<char>, Result<Seq<Json>, Seq<char>>)>) -> (
    Seq<(Seq<char>, Seq<char>, Seq<char>, Option<Seq<char>>, Seq<char>, Seq<char>)>,
    Seq<Seq<char>>,
)
    decreases results.len(),
{
    if results.len() == 0 {
        (Seq::empty(), Seq::empty())
    } else {
        let (ts, es) = gathered(results.drop_last());
        let (remote, r) = results.last();
        match r {
            Ok(values) => (ts + tasks_of(remote, values), es),
            Err(e) => (ts, es.push(remote + ": "@ + e)),
        }
    }
}

/// The deployments shown: when no remote listed any deployment but some
/// listing failed, the failures joined by ` · `; otherwise the first 30
/// deployments.
pub open spec fn combined_spec(results: Seq<(Seq<char>, Result<Seq<Json>, Seq<char>>)>) -> Result<
    Seq<(Seq<char>, Seq<char>, Seq<char>, Option<Seq<char>>, Seq<char>, Seq<char>)>,
    Seq<char>,
> {
    let (ts, es) = gathered(results);
    if ts.len() == 0 && es.len() > 0 {
        Err(join(es, " · "@))
    } else if ts.len() > MAX_TASKS {
        Ok(ts.take(MAX_TASKS as int))
    } else {
        Ok(ts)
    }
}

pub open spec fn results_view(r: Seq<(String, Result<Vec<JsonValue>, String>)>) -> Seq<
    (Seq<char>, Result<Seq<Json>, Seq<char>>),
> {
    r.map_values(|p: (String, Result<Vec<JsonValue>, String>)| (p.0@, listing_view(p.1)))
}

pub open spec fn tasks_view(v: Seq<DeploymentTask>) -> Seq<
    (Seq<char>, Seq<char>, Seq<char>, Option<Seq<char>>, Seq<char>, Seq<char>),
> {
    v.map_values(|t: DeploymentTask| task_view(t))
}

fn append_tasks(out: &mut Vec<DeploymentTask>, remote: &String, values: &Vec<JsonValue>)
    ensures
        tasks_view(final(out)@) == tasks_view(old(out)@) + tasks_of(
            remote@,
            JsonValue::Array(*values)@->Array_0,
        ),
{
    let ghost start = tasks_view(out@);
    let ghost vv = JsonValue::Array(*values)@->Array_0;
    let mut i: usize = 0;
    assert(vv.take(0) =~= Seq::<Json>::empty());
    assert(tasks_view(out@) =~= start + tasks_of(remote@, vv.take(0)));
    while i < values.len()
        invariant
            i <= values.len(),
            vv == JsonValue::Array(*values)@->Array_0,
            tasks_view(out@) == start + tasks_of(remote@, vv.take(i as int)),
        decreases values.len() - i,
    {
        assert(vv[i as int] == values@[i as int]@);
        assert(vv.take(i + 1).drop_last() =~= vv.take(i as int));
        match task_from_value(remote.as_str(), &values[i]) {
            Some(t) => {
                let ghost before = tasks_view(out@);
                let ghost tv = task_view(t);
                out.push(t);
                assert(tasks_view(out@) =~= before.push(tv));
            },
            None => {},
        }
        i += 1;
    }
    assert(vv.take(values.len() as int) =~= vv);
}

/// The deployments of all remotes from their task listings (see `combined_spec`).
pub fn combine_tasks(results: &Vec<(String, Result<Vec<JsonValue>, String>)>) -> (r: Result<
    Vec<DeploymentTask>,
    String,
>)
    ensures
        match r {
            Ok(ts) => combined_spec(results_view(results@)) == Ok::<
                Seq<(Seq<char>, Seq<char>, Seq<char>, Option<Seq<char>>, Seq<char>, Seq<char>)>,
                Seq<char>,
            >(tasks_view(ts@)),
            Err(e) => combined_spec(results_view(results@)) == Err::<
                Seq<(Seq<char>, Seq<char>, Seq<char>, Option<Seq<char>>, Seq<char>, Seq<char>)>,
                Seq<char>,
            >(e@),
        },
{
    let ghost rv = results_view(results@);
    let mut tasks: Vec<DeploymentTask> = Vec::new();
    let mut errors: Vec<String> = Vec::new();
    let mut i: usize = 0;
    assert(rv.take(0) =~= Seq::<(Seq<char>, Result<Seq<Json>, Seq<char>>)>::empty());
    assert(tasks_view(tasks@) =~= Seq::<
        (Seq<char>, Seq<char>, Seq<char>, Option<Seq<char>>, Seq<char>, Seq<char>),
    >::empty());
    assert(views(errors@) =~= Seq::<Seq<char>>::empty());
    while i < results.len()
        invariant
            i <= results.len(),
            rv == results_view(results@),
            (tasks_view(tasks@), views(errors@)) == gathered(rv.take(i as int)),
        decreases results.len() - i,
    {
        assert(rv.take(i + 1).drop_last() =~= rv.take(i as int));
        assert(rv.take(i + 1).last() == rv[i as int]);
        let (remote, r) = &results[i];
        match r {
            Ok(values) => {
                append_tasks(&mut tasks, remote, values);
            },
            Err(e) => {
                let ghost before = views(errors@);
                let mut m = copy_string(remote);
                push_all(&mut m, ": ");
                push_all(&mut m, e.as_str());
                errors.push(m);
                assert(views(errors@) =~= before.push(remote@ + ": "@ + e@));
            },
        }
        i += 1;
    }
    assert(rv.take(results.len() as int) =~= rv);
    if tasks.len() == 0 && errors.len() > 0 {
        return Err(join_with(&errors, " · "));
    }
    if tasks.len() > MAX_TASKS {
        let ghost before = tasks_view(tasks@);
        tasks.truncate(MAX_TASKS);
        assert(tasks_view(tasks@) =~= before.take(MAX_TASKS as int));
    }
    Ok(tasks)
}

/// The selected value, or the first offered one when nothing is selected.
pub open spec fn selected_or_first_spec(selected: Seq<char>, values: Seq<Seq<char>>) -> Seq<char> {
    if selected.len() > 0 {
        selected
    } else if values.len() > 0 {
        values[0]
    } else {
        Seq::empty()
    }
}

pub fn selected_or_first(selected: &str, values: &Vec<String>) -> (r: String)
    ensures
        r@ == selected_or_first_spec(selected@, views(values@)),
{
    if !selected.is_empty() {
        return owned(selected);
    }
    if values.len() > 0 {
        values[0].clone()
    } else {
        String::new()
    }
}

} // verus!
