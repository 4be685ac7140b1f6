//! The hook relay's part: what it forwards for one hook invocation.
use vstd::prelude::*;
use crate::text::{chars_of, string_of, copy_range, trim, trim_exec, dec, dec_exec};
use crate::json::{Json, JsonValue, jv, jv_fields, jget, lemma_jv_object};
use crate::hook_config::json_text;

verus! {

broadcast use vstd::string::group_string_axioms;

/// Position of the first character from `i` on that is not a byte order
/// mark.
pub open spec fn skip_boms(s: Seq<char>, i: int) -> int
    decreases s.len() - i,
{
    if i < 0 || i >= s.len() || s[i] != '\u{feff}' {
        i
    } else {
        skip_boms(s, i + 1)
    }
}

proof fn lemma_skip_boms(s: Seq<char>, i: int)
    requires
        0 <= i <= s.len(),
    ensures
        i <= skip_boms(s, i) <= s.len(),
    decreases s.len() - i,
{
    if i < s.len() && s[i] == '\u{feff}' {
        lemma_skip_boms(s, i + 1);
    }
}

/// Hook input without surrounding whitespace and leading byte order marks
/// (Cursor on Windows may start it with one, which JSON readers reject).
pub open spec fn spec_strip_hook_stdin(s: Seq<char>) -> Seq<char> {
    let t = trim(s);
    t.skip(skip_boms(t, 0))
}

pub fn strip_hook_stdin(s: &str) -> (r: String)
    ensures
        r@ == spec_strip_hook_stdin(s@),
{
    let t = trim_exec(chars_of(s).as_slice());
    let mut i: usize = 0;
    proof {
        lemma_skip_boms(t@, 0);
    }
    while i < t.len() && t[i] == '\u{feff}'
        invariant
            i <= t@.len(),
            skip_boms(t@, i as int) == skip_boms(t@, 0),
        decreases t.len() - i,
    {
        i += 1;
    }
    let rest = copy_range(t.as_slice(), i, t.len());
    assert(rest@ =~= t@.skip(i as int));
    string_of(rest.as_slice())
}

/// The event name: the first command-line argument when there is a nonempty
/// one, else the input's `hook_event_name`, else `unknown`.
pub open spec fn spec_event_name(arg: Option<Seq<char>>, input: Option<Json>) -> Seq<char> {
    match arg {
        Some(a) if a.len() > 0 => a,
        _ => match input {
            Some(doc) => match jget(doc, "hook_event_name"@) {
                Some(Json::Str(n)) => n,
                _ => "unknown"@,
            },
            None => "unknown"@,
        },
    }
}

/// Picks the event name; `input` is the hook input read as JSON, when it is
/// JSON.
pub fn event_name(arg: Option<String>, input: Option<&JsonValue>) -> (r: String)
    ensures
        r@ == spec_event_name(
            match arg {
                Some(a) => Some(a@),
                None => None,
            },
            match input {
                Some(d) => Some(jv(*d)),
                None => None,
            },
        ),
{
    match arg {
        Some(a) => {
            if !a.as_str().is_empty() {
                return a;
            }
        },
        None => {},
    }
    match input {
        Some(doc) => match doc.get("hook_event_name") {
            Some(x) => match x.as_str() {
                Some(n) => n.clone(),
                None => "unknown".to_string(),
            },
            None => "unknown".to_string(),
        },
        None => "unknown".to_string(),
    }
}

/// The payload forwarded for the (stripped) input `s`: null when empty, the
/// input read as JSON when it is JSON, else the input as a string.
pub open spec fn spec_hook_payload(s: Seq<char>, parsed: Option<Json>) -> Json {
    if s.len() == 0 {
        Json::Null
    } else {
        match parsed {
            Some(v) => v,
            None => Json::Str(s),
        }
    }
}

pub fn hook_payload(s: &str, parsed: Option<JsonValue>) -> (r: JsonValue)
    ensures
        jv(r) == spec_hook_payload(
            s@,
            match parsed {
                Some(v) => Some(jv(v)),
                None => None,
            },
        ),
{
    if s.is_empty() {
        return JsonValue::Null;
    }
    match parsed {
        Some(v) => v,
        None => json_text(s),
    }
}

/// The decimal text of a number.
pub open spec fn number(n: nat) -> Json {
    Json::Number(dec(n))
}

/// What the relay posts to the overlay: the event, its payload, the time,
/// and the relay's own and parent process ids.
pub open spec fn spec_envelope(
    event: Seq<char>,
    payload: Json,
    ts: u64,
    hook_pid: u32,
    parent_pid: u32,
) -> Json {
    Json::Object(
        seq![
            ("event"@, Json::Str(event)),
            ("hook_pid"@, number(hook_pid as nat)),
            ("parent_pid"@, number(parent_pid as nat)),
            ("payload"@, payload),
            ("ts"@, number(ts as nat)),
        ],
    )
}

fn number_exec(n: u64) -> (r: JsonValue)
    ensures
        jv(r) == number(n as nat),
{
    JsonValue::Number(string_of(dec_exec(n).as_slice()))
}

pub fn envelope(event: &str, payload: JsonValue, ts: u64, hook_pid: u32, parent_pid: u32) -> (r:
    JsonValue)
    ensures
        jv(r) == spec_envelope(event@, jv(payload), ts, hook_pid, parent_pid),
{
    let ghost pj = jv(payload);
    let mut f: Vec<(String, JsonValue)> = Vec::new();
    f.push(("event".to_string(), json_text(event)));
    f.push(("hook_pid".to_string(), number_exec(hook_pid as u64)));
    f.push(("parent_pid".to_string(), number_exec(parent_pid as u64)));
    f.push(("payload".to_string(), payload));
    f.push(("ts".to_string(), number_exec(ts)));
    proof {
        lemma_jv_object(f);
        assert(jv_fields(f@) =~= seq![
            ("event"@, Json::Str(event@)),
            ("hook_pid"@, number(hook_pid as nat)),
            ("parent_pid"@, number(parent_pid as nat)),
            ("payload"@, pj),
            ("ts"@, number(ts as nat)),
        ]);
    }
    JsonValue::Object(f)
}

} // verus!
