//! Applying hook events to sessions: prompts, tool calls, tool output, stop.
use vstd::prelude::*;
use crate::text::{
    chars_of, string_of, copy_range, copy_all, push_all, push_str, lit_then, eq_lit, str_eq, trim,
    trim_exec, truncate, truncate_exec, dec, dec_exec, starts_with, starts_with_lit,
    starts_with_exec, starts_with_char, starts_with_ch, find_from, find_from_exec,
    lemma_find_from_bounds, lines, lines_exec, vv, is_ws, is_whitespace, utf8_len, utf8_byte_len,
    lemma_trim_len, is_infix, lemma_infix_subrange, skip_ws, back_ws, lemma_skip_ws,
};
use crate::json::{JsonValue, json_get, json_str, get_str, get_str_or, get_str2};
use crate::bash::{spec_describe_bash, describe_bash_chars};
use crate::session::{Session, SessionView, ActivityKind, DiffStat, MAX_PROMPT_CHARS};

verus! {

broadcast use vstd::string::group_string_axioms;

// ───────────────────────── summaries ─────────────────────────

/// Last whitespace position before `j`, or -1.
pub open spec fn last_ws_before(s: Seq<char>, j: int) -> int
    decreases j,
{
    if j <= 0 || j > s.len() {
        -1
    } else if is_ws(s[j - 1]) {
        j - 1
    } else {
        last_ws_before(s, j - 1)
    }
}

pub proof fn lemma_last_ws(s: Seq<char>, j: int)
    requires
        0 <= j <= s.len(),
    ensures
        -1 <= last_ws_before(s, j) < j,
    decreases j,
{
    if j > 0 && !is_ws(s[j - 1]) {
        lemma_last_ws(s, j - 1);
    }
}

/// At most `max` characters, cut at the last whitespace when it lies past
/// the middle. The whitespace position is counted in UTF-8 bytes and then
/// used as a character count (the same number for ASCII text).
pub open spec fn spec_truncate_at_word_boundary(s: Seq<char>, max: int) -> Seq<char> {
    if s.len() <= max {
        s
    } else {
        let t = s.take(max);
        let k = last_ws_before(t, t.len() as int);
        let pos = utf8_len(t.take(k)) as int;
        if cuts_at_word(s, max) {
            let keep = if pos <= t.len() {
                pos
            } else {
                t.len() as int
            };
            trim(t.take(keep).push('\u{2026}'))
        } else {
            s.take(
                if max > 0 {
                    max - 1
                } else {
                    0
                },
            ).push('\u{2026}')
        }
    }
}

/// Whether text longer than `max` is cut at its last whitespace within the
/// first `max` characters (that whitespace lies past the middle).
pub open spec fn cuts_at_word(s: Seq<char>, max: int) -> bool {
    let t = s.take(max);
    let k = last_ws_before(t, t.len() as int);
    k >= 0 && utf8_len(t.take(k)) as int > max / 2
}

/// Every character is ASCII.
pub open spec fn is_ascii_text(s: Seq<char>) -> bool {
    forall|i: int| 0 <= i < s.len() ==> (#[trigger] s[i] as u32) < 0x80
}

proof fn lemma_utf8_len_ascii(s: Seq<char>)
    requires
        is_ascii_text(s),
    ensures
        utf8_len(s) == s.len(),
    decreases s.len(),
{
    if s.len() > 0 {
        assert forall|i: int| 0 <= i < s.drop_last().len() implies (#[trigger] s.drop_last()[i] as u32) < 0x80 by {
            assert(s.drop_last()[i] == s[i]);
        }
        lemma_utf8_len_ascii(s.drop_last());
        assert((s[s.len() - 1] as u32) < 0x80);
    }
}

/// On ASCII text with room for at least one character: the result fits in
/// `max` characters; text that fits is kept as it is; longer text ends with
/// `…` after a piece of the text, and that piece is a prefix of the text
/// except when the text starts with whitespace and is cut at a word
/// boundary (that cut is trimmed, so the leading whitespace goes).
pub proof fn lemma_truncate_at_word_boundary_bounds(s: Seq<char>, max: int)
    requires
        is_ascii_text(s),
        max >= 1,
    ensures
        ({
            let r = spec_truncate_at_word_boundary(s, max);
            &&& r.len() <= max
            &&& s.len() <= max ==> r == s
            &&& s.len() > max ==> r.len() > 0 && r.last() == '\u{2026}' && is_infix(r.drop_last(), s)
            &&& s.len() > max && !(is_ws(s[0]) && cuts_at_word(s, max)) ==> r.drop_last() == s.take(
                r.len() - 1,
            )
        }),
{
    let r = spec_truncate_at_word_boundary(s, max);
    if s.len() > max {
        let t = s.take(max);
        let k = last_ws_before(t, t.len() as int);
        lemma_last_ws(t, t.len() as int);
        if k >= 0 {
            assert forall|i: int| 0 <= i < t.take(k).len() implies (#[trigger] t.take(k)[i] as u32) < 0x80 by {
                assert(t.take(k)[i] == s[i]);
            }
            lemma_utf8_len_ascii(t.take(k));
        }
        let pos = utf8_len(t.take(k)) as int;
        assert(!is_ws('\u{2026}')) by {
            assert(('\u{2026}' as u32) == 0x2026);
        }
        if k >= 0 && pos > max / 2 {
            assert(pos == k);
            let u = t.take(k).push('\u{2026}');
            lemma_skip_ws(u, 0);
            let a = skip_ws(u, 0);
            if a > k {
                assert(is_ws(u[k]));
            }
            let v = u.skip(a);
            assert(v.len() > 0 && v[v.len() - 1] == '\u{2026}');
            assert(back_ws(v, v.len() as int) == v.len());
            assert(r =~= u.subrange(a, k + 1));
            assert(r.drop_last() =~= s.subrange(a, k));
            lemma_infix_subrange(s, a, k);
            if !is_ws(s[0]) {
                assert(k >= 1);
                assert(u[0] == s[0]);
                assert(a == 0);
                assert(r.drop_last() =~= s.take(r.len() - 1));
            }
        } else {
            assert(r.drop_last() =~= s.take(max - 1));
            assert(r.drop_last() =~= s.subrange(0, max - 1));
            lemma_infix_subrange(s, 0, max - 1);
        }
    }
}

pub fn truncate_at_word_boundary(s: &[char], max_chars: usize) -> (r: Vec<char>)
    ensures
        r@ == spec_truncate_at_word_boundary(s@, max_chars as int),
{
    if s.len() <= max_chars {
        return copy_all(s);
    }
    let t = copy_range(s, 0, max_chars);
    let mut j = t.len();
    while j > 0 && !is_whitespace(t[j - 1])
        invariant
            j <= t@.len(),
            last_ws_before(t@, j as int) == last_ws_before(t@, t@.len() as int),
        decreases j,
    {
        j -= 1;
    }
    if j > 0 {
        let k = j - 1;
        let head = copy_range(t.as_slice(), 0, k);
        let pos = utf8_byte_len(head.as_slice());
        if pos > (max_chars / 2) as u128 {
            let keep: usize = if pos <= t.len() as u128 {
                pos as usize
            } else {
                t.len()
            };
            let mut out = copy_range(t.as_slice(), 0, keep);
            out.push('\u{2026}');
            return trim_exec(out.as_slice());
        }
    }
    let keep = if max_chars > 0 {
        max_chars - 1
    } else {
        0
    };
    let mut out = copy_range(s, 0, keep);
    out.push('\u{2026}');
    out
}

/// First nonempty trimmed line from `i` on (empty when there is none).
pub open spec fn first_nonempty_line(ls: Seq<Seq<char>>, i: int) -> Seq<char>
    decreases ls.len() - i,
{
    if i < 0 || i >= ls.len() {
        seq![]
    } else if trim(ls[i]).len() > 0 {
        trim(ls[i])
    } else {
        first_nonempty_line(ls, i + 1)
    }
}

/// One-line summary of the assistant's last message: its first nonempty line,
/// cut at a word boundary to 100 characters.
pub open spec fn spec_extract_done_summary(msg: Seq<char>) -> Seq<char> {
    let first = first_nonempty_line(lines(trim(msg)), 0);
    if first.len() == 0 {
        seq![]
    } else {
        spec_truncate_at_word_boundary(first, 100)
    }
}

pub fn extract_done_summary(msg: &[char]) -> (r: Vec<char>)
    ensures
        r@ == spec_extract_done_summary(msg@),
{
    let t = trim_exec(msg);
    let ls = lines_exec(t.as_slice());
    let mut i: usize = 0;
    while i < ls.len()
        invariant
            first_nonempty_line(vv(ls@), i as int) == first_nonempty_line(vv(ls@), 0),
            vv(ls@) == lines(trim(msg@)),
        decreases ls.len() - i,
    {
        let l = trim_exec(ls[i].as_slice());
        if l.len() > 0 {
            return truncate_at_word_boundary(l.as_slice(), 100);
        }
        i += 1;
    }
    Vec::new()
}

/// The prompt kept for the hover card: at most 4000 characters.
pub open spec fn spec_truncate_prompt(s: Seq<char>) -> Seq<char> {
    truncate(s, MAX_PROMPT_CHARS as int)
}

pub fn truncate_prompt(s: &[char]) -> (r: Vec<char>)
    ensures
        r@ == spec_truncate_prompt(s@),
{
    truncate_exec(s, MAX_PROMPT_CHARS)
}

// ───────────────────────── tool names and patches ─────────────────────────

/// Every occurrence of a nonempty `from` at or after `i`, left to right,
/// replaced by `to`.
pub open spec fn replace_from(s: Seq<char>, from: Seq<char>, to: Seq<char>, i: int) -> Seq<char>
    decreases s.len() - i + 1,
{
    if i < 0 || i > s.len() || from.len() == 0 {
        seq![]
    } else {
        let j = find_from(s, from, i);
        if j < 0 {
            s.skip(i)
        } else {
            proof {
                lemma_find_from_bounds(s, from, i);
            }
            s.subrange(i, j) + to + replace_from(s, from, to, j + from.len())
        }
    }
}

/// MCP tools (`mcp__server__tool`) are shown as `server · tool`.
pub open spec fn spec_humanize_tool(name: Seq<char>) -> Seq<char> {
    if starts_with(name, "mcp__"@) {
        replace_from(name, "__"@, " \u{b7} "@, "mcp__"@.len() as int)
    } else {
        name
    }
}

pub fn humanize_tool(name: &[char]) -> (r: Vec<char>)
    ensures
        r@ == spec_humanize_tool(name@),
{
    if !starts_with_lit(name, "mcp__") {
        return copy_all(name);
    }
    let pfx = chars_of("mcp__");
    let from = chars_of("__");
    let to = chars_of(" \u{b7} ");
    proof {
        reveal_strlit("__");
    }
    let mut out: Vec<char> = Vec::new();
    let mut i = pfx.len();
    loop
        invariant
            i <= name@.len(),
            from@ == "__"@,
            from@.len() == 2,
            to@ == " \u{b7} "@,
            pfx@ == "mcp__"@,
            starts_with(name@, "mcp__"@),
            out@ + replace_from(name@, from@, to@, i as int) == replace_from(
                name@,
                from@,
                to@,
                pfx@.len() as int,
            ),
        decreases name@.len() - i,
    {
        match find_from_exec(name, from.as_slice(), i) {
            None => {
                let tail = copy_range(name, i, name.len());
                let ghost before = out@;
                push_all(&mut out, tail.as_slice());
                assert(tail@ =~= name@.skip(i as int));
                assert(out@ == before + replace_from(name@, from@, to@, i as int));
                return out;
            },
            Some(j) => {
                assert(j + 2 <= name.len());
                let ghost before = out@;
                let mid = copy_range(name, i, j);
                push_all(&mut out, mid.as_slice());
                push_all(&mut out, to.as_slice());
                assert(out@ + replace_from(name@, from@, to@, j + 2) =~= before + replace_from(
                    name@,
                    from@,
                    to@,
                    i as int,
                ));
                i = j + 2;
            },
        }
    }
}

/// The path of a `Update File:` / `Add File:` / `Delete File:` patch header.
pub open spec fn spec_parse_patch_header(rest: Seq<char>) -> Option<Seq<char>> {
    if starts_with(rest, "Update File:"@) {
        Some(trim(rest.skip("Update File:"@.len() as int)))
    } else if starts_with(rest, "Add File:"@) {
        Some(trim(rest.skip("Add File:"@.len() as int)))
    } else if starts_with(rest, "Delete File:"@) {
        Some(trim(rest.skip("Delete File:"@.len() as int)))
    } else {
        None
    }
}

pub(crate) fn after_prefix(s: &[char], lit: &str) -> (r: Option<Vec<char>>)
    ensures
        match r {
            Some(v) => starts_with(s@, lit@) && v@ == s@.skip(lit@.len() as int),
            None => !starts_with(s@, lit@),
        },
{
    let p = chars_of(lit);
    if starts_with_exec(s, p.as_slice()) {
        Some(copy_range(s, p.len(), s.len()))
    } else {
        None
    }
}

pub fn parse_patch_header(rest: &[char]) -> (r: Option<Vec<char>>)
    ensures
        match r {
            Some(v) => spec_parse_patch_header(rest@) == Some(v@),
            None => spec_parse_patch_header(rest@) is None,
        },
{
    if let Some(p) = after_prefix(rest, "Update File:") {
        return Some(trim_exec(p.as_slice()));
    }
    if let Some(p) = after_prefix(rest, "Add File:") {
        return Some(trim_exec(p.as_slice()));
    }
    if let Some(p) = after_prefix(rest, "Delete File:") {
        return Some(trim_exec(p.as_slice()));
    }
    None
}

/// The first patch header from line `i` on, with the verb shown for it.
pub open spec fn patch_target_scan(ls: Seq<Seq<char>>, i: int) -> Option<(Seq<char>, Seq<char>)>
    decreases ls.len() - i,
{
    if i < 0 || i >= ls.len() {
        None
    } else if starts_with(ls[i], "*** "@) {
        let rest = ls[i].skip("*** "@.len() as int);
        if starts_with(rest, "Update File:"@) {
            Some(("Editing"@, trim(rest.skip("Update File:"@.len() as int))))
        } else if starts_with(rest, "Add File:"@) {
            Some(("Creating"@, trim(rest.skip("Add File:"@.len() as int))))
        } else if starts_with(rest, "Delete File:"@) {
            Some(("Deleting"@, trim(rest.skip("Delete File:"@.len() as int))))
        } else {
            patch_target_scan(ls, i + 1)
        }
    } else {
        patch_target_scan(ls, i + 1)
    }
}

pub open spec fn spec_first_patch_target(patch: Seq<char>) -> Option<(Seq<char>, Seq<char>)> {
    patch_target_scan(lines(patch), 0)
}

pub fn first_patch_target(patch: &[char]) -> (r: Option<(Vec<char>, Vec<char>)>)
    ensures
        match r {
            Some((v, p)) => spec_first_patch_target(patch@) == Some((v@, p@)),
            None => spec_first_patch_target(patch@) is None,
        },
{
    let ls = lines_exec(patch);
    let mut i: usize = 0;
    while i < ls.len()
        invariant
            patch_target_scan(vv(ls@), i as int) == patch_target_scan(vv(ls@), 0),
            vv(ls@) == lines(patch@),
        decreases ls.len() - i,
    {
        if let Some(rest) = after_prefix(ls[i].as_slice(), "*** ") {
            if let Some(p) = after_prefix(rest.as_slice(), "Update File:") {
                return Some((chars_of("Editing"), trim_exec(p.as_slice())));
            }
            if let Some(p) = after_prefix(rest.as_slice(), "Add File:") {
                return Some((chars_of("Creating"), trim_exec(p.as_slice())));
            }
            if let Some(p) = after_prefix(rest.as_slice(), "Delete File:") {
                return Some((chars_of("Deleting"), trim_exec(p.as_slice())));
            }
        }
        i += 1;
    }
    None
}

/// `l` starts with `a + b` exactly when it starts with `a` and what follows
/// `a` starts with `b`.
pub proof fn lemma_starts_with_concat(l: Seq<char>, a: Seq<char>, b: Seq<char>)
    ensures
        starts_with(l, a + b) == (starts_with(l, a) && starts_with(l.skip(a.len() as int), b)),
{
    if starts_with(l, a + b) {
        assert(l.take(a.len() as int) =~= (a + b).take(a.len() as int));
        assert((a + b).take(a.len() as int) =~= a);
        assert(l.skip(a.len() as int).take(b.len() as int) =~= l.take((a + b).len() as int).skip(
            a.len() as int,
        ));
        assert((a + b).skip(a.len() as int) =~= b);
    }
    if starts_with(l, a) && starts_with(l.skip(a.len() as int), b) {
        assert(l.take((a + b).len() as int) =~= l.take(a.len() as int) + l.skip(
            a.len() as int,
        ).take(b.len() as int));
    }
}

/// A patch line that names a file: `*** Update File:`, `*** Add File:` or
/// `*** Delete File:`.
pub open spec fn is_file_header(l: Seq<char>) -> bool {
    starts_with(l, "*** Update File:"@) || starts_with(l, "*** Add File:"@) || starts_with(
        l,
        "*** Delete File:"@,
    )
}

proof fn lemma_scan_skips_plain_lines(ls: Seq<Seq<char>>, i: int, k: int)
    requires
        0 <= i <= k < ls.len(),
        forall|j: int| 0 <= j < k ==> !is_file_header(#[trigger] ls[j]),
    ensures
        patch_target_scan(ls, i) == patch_target_scan(ls, k),
    decreases k - i,
{
    if i < k {
        reveal_strlit("*** ");
        reveal_strlit("Update File:");
        reveal_strlit("Add File:");
        reveal_strlit("Delete File:");
        reveal_strlit("*** Update File:");
        reveal_strlit("*** Add File:");
        reveal_strlit("*** Delete File:");
        assert("*** Update File:"@ =~= "*** "@ + "Update File:"@);
        assert("*** Add File:"@ =~= "*** "@ + "Add File:"@);
        assert("*** Delete File:"@ =~= "*** "@ + "Delete File:"@);
        lemma_starts_with_concat(ls[i], "*** "@, "Update File:"@);
        lemma_starts_with_concat(ls[i], "*** "@, "Add File:"@);
        lemma_starts_with_concat(ls[i], "*** "@, "Delete File:"@);
        assert(!is_file_header(ls[i]));
        lemma_scan_skips_plain_lines(ls, i + 1, k);
    }
}

/// The first file header of a patch names the target and its verb:
/// `*** Update File: P` is "Editing" P, `*** Add File: P` "Creating" P and
/// `*** Delete File: P` "Deleting" P, with P trimmed.
pub proof fn lemma_first_patch_target_verb(patch: Seq<char>, k: int)
    requires
        0 <= k < lines(patch).len(),
        forall|j: int| 0 <= j < k ==> !is_file_header(#[trigger] lines(patch)[j]),
    ensures
        starts_with(lines(patch)[k], "*** Update File:"@) ==> spec_first_patch_target(patch) == Some(
            ("Editing"@, trim(lines(patch)[k].skip(16))),
        ),
        starts_with(lines(patch)[k], "*** Add File:"@) ==> spec_first_patch_target(patch) == Some(
            ("Creating"@, trim(lines(patch)[k].skip(13))),
        ),
        starts_with(lines(patch)[k], "*** Delete File:"@) ==> spec_first_patch_target(patch) == Some(
            ("Deleting"@, trim(lines(patch)[k].skip(16))),
        ),
{
    let ls = lines(patch);
    let l = ls[k];
    lemma_scan_skips_plain_lines(ls, 0, k);
    reveal_strlit("*** ");
    reveal_strlit("Update File:");
    reveal_strlit("Add File:");
    reveal_strlit("Delete File:");
    reveal_strlit("*** Update File:");
    reveal_strlit("*** Add File:");
    reveal_strlit("*** Delete File:");
    assert("*** Update File:"@ =~= "*** "@ + "Update File:"@);
    assert("*** Add File:"@ =~= "*** "@ + "Add File:"@);
    assert("*** Delete File:"@ =~= "*** "@ + "Delete File:"@);
    lemma_starts_with_concat(l, "*** "@, "Update File:"@);
    lemma_starts_with_concat(l, "*** "@, "Add File:"@);
    lemma_starts_with_concat(l, "*** "@, "Delete File:"@);
    let rest = l.skip(4);
    if starts_with(l, "*** Update File:"@) || starts_with(l, "*** Delete File:"@) {
        assert(rest.skip(12) =~= l.skip(16));
    }
    if starts_with(l, "*** Add File:"@) {
        assert(rest.skip(9) =~= l.skip(13));
    }
    if starts_with(l, "*** Add File:"@) || starts_with(l, "*** Delete File:"@) {
        assert(rest[0] == l[4]);
        assert(l[4] == 'A' || l[4] == 'D') by {
            if starts_with(l, "*** Add File:"@) {
                assert(l.take(13)[4] == l[4]);
            } else {
                assert(l.take(16)[4] == l[4]);
            }
        }
        assert(!starts_with(rest, "Update File:"@)) by {
            if starts_with(rest, "Update File:"@) {
                assert(rest.take(12)[0] == rest[0]);
            }
        }
    }
    if starts_with(l, "*** Delete File:"@) {
        assert(!starts_with(rest, "Add File:"@)) by {
            if starts_with(rest, "Add File:"@) {
                assert(rest.take(9)[0] == rest[0]);
                assert(l.take(16)[4] == l[4]);
            }
        }
    }
}

/// A patch with no file header has no target.
pub proof fn lemma_no_header_no_target(patch: Seq<char>)
    requires
        forall|j: int| 0 <= j < lines(patch).len() ==> !is_file_header(#[trigger] lines(patch)[j]),
    ensures
        spec_first_patch_target(patch) is None,
{
    let ls = lines(patch);
    assert forall|i: int| 0 <= i <= ls.len() implies #[trigger] patch_target_scan(ls, ls.len() - i) is None by {
        lemma_scan_none_from(ls, ls.len() - i);
    }
    assert(patch_target_scan(ls, ls.len() - ls.len()) is None);
}

proof fn lemma_scan_none_from(ls: Seq<Seq<char>>, i: int)
    requires
        0 <= i <= ls.len(),
        forall|j: int| 0 <= j < ls.len() ==> !is_file_header(#[trigger] ls[j]),
    ensures
        patch_target_scan(ls, i) is None,
    decreases ls.len() - i,
{
    if i < ls.len() {
        reveal_strlit("*** ");
        reveal_strlit("Update File:");
        reveal_strlit("Add File:");
        reveal_strlit("Delete File:");
        reveal_strlit("*** Update File:");
        reveal_strlit("*** Add File:");
        reveal_strlit("*** Delete File:");
        assert("*** Update File:"@ =~= "*** "@ + "Update File:"@);
        assert("*** Add File:"@ =~= "*** "@ + "Add File:"@);
        assert("*** Delete File:"@ =~= "*** "@ + "Delete File:"@);
        lemma_starts_with_concat(ls[i], "*** "@, "Update File:"@);
        lemma_starts_with_concat(ls[i], "*** "@, "Add File:"@);
        lemma_starts_with_concat(ls[i], "*** "@, "Delete File:"@);
        assert(!is_file_header(ls[i]));
        lemma_scan_none_from(ls, i + 1);
    }
}

// ───────────────────────── payload fields ─────────────────────────

/// `tool_input.command` of a payload, or empty.
pub open spec fn tool_command(p: JsonValue) -> Seq<char> {
    match get_str2(p, "tool_input"@, "command"@) {
        Some(c) => c,
        None => seq![],
    }
}

pub(crate) fn get_str_exec(v: &JsonValue, key: &str) -> (r: Option<Vec<char>>)
    ensures
        match r {
            Some(s) => get_str(*v, key@) == Some(s@),
            None => get_str(*v, key@) is None,
        },
{
    match v.get(key) {
        Some(x) => match x.as_str() {
            Some(s) => Some(chars_of(s.as_str())),
            None => None,
        },
        None => None,
    }
}

pub(crate) fn get_str_or_exec(v: &JsonValue, key: &str, dflt: &str) -> (r: Vec<char>)
    ensures
        r@ == get_str_or(*v, key@, dflt@),
{
    match get_str_exec(v, key) {
        Some(s) => s,
        None => chars_of(dflt),
    }
}

pub(crate) fn tool_command_exec(p: &JsonValue) -> (r: Vec<char>)
    ensures
        r@ == tool_command(*p),
{
    match p.get("tool_input") {
        Some(x) => match get_str_exec(x, "command") {
            Some(c) => c,
            None => Vec::new(),
        },
        None => Vec::new(),
    }
}

// ───────────────────────── Codex and Cursor payloads ─────────────────────────

/// The shell tool: Codex's `Bash`, Cursor's `Shell`.
pub open spec fn is_shell_tool(tool: Seq<char>) -> bool {
    tool == "Bash"@ || tool == "Shell"@
}

pub fn is_shell_tool_exec(tool: &[char]) -> (r: bool)
    ensures
        r == is_shell_tool(tool@),
{
    eq_lit(tool, "Bash") || eq_lit(tool, "Shell")
}

/// The string member `key`, or (when it is missing, not a string or empty)
/// the string member `alias`, or empty: Codex and Cursor name some fields
/// differently.
pub open spec fn str_or_alias(p: JsonValue, key: Seq<char>, alias: Seq<char>) -> Seq<char> {
    let a = get_str_or(p, key, ""@);
    if a.len() > 0 {
        a
    } else {
        get_str_or(p, alias, ""@)
    }
}

pub fn str_or_alias_exec(p: &JsonValue, key: &str, alias: &str) -> (r: Vec<char>)
    ensures
        r@ == str_or_alias(*p, key@, alias@),
{
    proof {
        reveal_strlit("");
    }
    let a = get_str_or_exec(p, key, "");
    if a.len() > 0 {
        a
    } else {
        get_str_or_exec(p, alias, "")
    }
}

/// The project root of an event: `cwd`, else (Cursor) the first of
/// `workspace_roots` when it is a string, else empty.
pub open spec fn event_cwd(p: JsonValue) -> Seq<char> {
    let c = get_str_or(p, "cwd"@, ""@);
    if c.len() > 0 {
        c
    } else {
        match json_get(p, "workspace_roots"@) {
            Some(JsonValue::Array(a)) => if a@.len() > 0 {
                match json_str(a@[0]) {
                    Some(x) => x,
                    None => ""@,
                }
            } else {
                ""@
            },
            _ => ""@,
        }
    }
}

pub fn event_cwd_exec(p: &JsonValue) -> (r: Vec<char>)
    ensures
        r@ == event_cwd(*p),
{
    proof {
        reveal_strlit("");
    }
    let c = get_str_or_exec(p, "cwd", "");
    if c.len() > 0 {
        return c;
    }
    match p.get("workspace_roots") {
        Some(JsonValue::Array(a)) => {
            if a.len() > 0 {
                match a[0].as_str() {
                    Some(x) => chars_of(x.as_str()),
                    None => Vec::new(),
                }
            } else {
                Vec::new()
            }
        },
        _ => Vec::new(),
    }
}

/// The conversation a payload belongs to: its `conversation_id` (Cursor),
/// else its `session_id`; empty when that member is not a string.
pub open spec fn raw_conversation_id(p: JsonValue) -> Seq<char> {
    match json_get(p, "conversation_id"@) {
        Some(v) => match json_str(v) {
            Some(x) => x,
            None => ""@,
        },
        None => get_str_or(p, "session_id"@, ""@),
    }
}

pub fn raw_conversation_id_exec(p: &JsonValue) -> (r: String)
    ensures
        r@ == raw_conversation_id(*p),
{
    proof {
        reveal_strlit("");
    }
    match p.get("conversation_id") {
        Some(v) => match v.as_str() {
            Some(x) => x.clone(),
            None => String::new(),
        },
        None => string_of(get_str_or_exec(p, "session_id", "").as_slice()),
    }
}

/// The internal event name for a hook event: Cursor's camelCase names map
/// onto the ones Codex uses (`beforeSubmitPrompt` is a prompt submit);
/// other names are kept.
pub open spec fn internal_event(e: Seq<char>) -> Seq<char> {
    if e == "sessionStart"@ {
        "SessionStart"@
    } else if e == "sessionEnd"@ {
        "SessionEnd"@
    } else if e == "stop"@ {
        "Stop"@
    } else if e == "preToolUse"@ {
        "PreToolUse"@
    } else if e == "postToolUse"@ {
        "PostToolUse"@
    } else if e == "beforeSubmitPrompt"@ {
        "UserPromptSubmit"@
    } else if e == "afterFileEdit"@ {
        "AfterFileEdit"@
    } else if e == "subagentStart"@ {
        "SubagentStart"@
    } else if e == "subagentStop"@ {
        "SubagentStop"@
    } else {
        e
    }
}

pub fn internal_event_exec(e: &str) -> (r: String)
    ensures
        r@ == internal_event(e@),
{
    let c = chars_of(e);
    let x = c.as_slice();
    let out = if eq_lit(x, "sessionStart") {
        "SessionStart"
    } else if eq_lit(x, "sessionEnd") {
        "SessionEnd"
    } else if eq_lit(x, "stop") {
        "Stop"
    } else if eq_lit(x, "preToolUse") {
        "PreToolUse"
    } else if eq_lit(x, "postToolUse") {
        "PostToolUse"
    } else if eq_lit(x, "beforeSubmitPrompt") {
        "UserPromptSubmit"
    } else if eq_lit(x, "afterFileEdit") {
        "AfterFileEdit"
    } else if eq_lit(x, "subagentStart") {
        "SubagentStart"
    } else if eq_lit(x, "subagentStop") {
        "SubagentStop"
    } else {
        return e.to_string();
    };
    out.to_string()
}

/// Label of the tool call a `PreToolUse` payload announces.
pub open spec fn spec_describe_pre_tool(p: JsonValue) -> Seq<char> {
    let tool = get_str_or(p, "tool_name"@, "Tool"@);
    if is_shell_tool(tool) {
        let cmd = tool_command(p);
        if cmd.len() == 0 {
            "Running command"@
        } else {
            spec_describe_bash(cmd)
        }
    } else if tool == "apply_patch"@ {
        match spec_first_patch_target(tool_command(p)) {
            Some((verb, path)) => verb + " "@ + truncate(path, 56),
            None => "Editing files"@,
        }
    } else {
        "Calling tool: "@ + spec_humanize_tool(tool)
    }
}

pub fn describe_pre_tool(p: &JsonValue) -> (r: Vec<char>)
    ensures
        r@ == spec_describe_pre_tool(*p),
{
    let tool = get_str_or_exec(p, "tool_name", "Tool");
    if is_shell_tool_exec(tool.as_slice()) {
        let cmd = tool_command_exec(p);
        if cmd.len() == 0 {
            chars_of("Running command")
        } else {
            describe_bash_chars(cmd.as_slice())
        }
    } else if eq_lit(tool.as_slice(), "apply_patch") {
        let cmd = tool_command_exec(p);
        match first_patch_target(cmd.as_slice()) {
            Some((verb, path)) => {
                let mut out = copy_all(verb.as_slice());
                push_str(&mut out, " ");
                let t = truncate_exec(path.as_slice(), 56);
                push_all(&mut out, t.as_slice());
                out
            },
            None => chars_of("Editing files"),
        }
    } else {
        let h = humanize_tool(tool.as_slice());
        lit_then("Calling tool: ", h.as_slice())
    }
}

// ───────────────────────── user prompt ─────────────────────────

pub open spec fn or_get(prev: Option<JsonValue>, p: JsonValue, key: Seq<char>) -> Option<JsonValue> {
    match prev {
        Some(x) => Some(x),
        None => json_get(p, key),
    }
}

/// The first of `input`, `content`, `prompt`, `user_input`, `user_message`,
/// `message`, `text` that the payload has.
pub open spec fn prompt_field(p: JsonValue) -> Option<JsonValue> {
    or_get(
        or_get(
            or_get(
                or_get(or_get(or_get(json_get(p, "input"@), p, "content"@), p, "prompt"@), p, "user_input"@),
                p,
                "user_message"@,
            ),
            p,
            "message"@,
        ),
        p,
        "text"@,
    )
}

pub open spec fn is_structural_key(k: Seq<char>) -> bool {
    k == "session_id"@ || k == "cwd"@ || k == "hook_event_name"@
}

/// Longest (in UTF-8 bytes; the last of equals) string member from `i` on
/// whose key is not structural.
pub open spec fn longest_string_from(
    fields: Seq<(String, JsonValue)>,
    i: int,
    best: Option<Seq<char>>,
) -> Option<Seq<char>>
    decreases fields.len() - i,
{
    if i < 0 || i >= fields.len() {
        best
    } else {
        let nb = match json_str(fields[i].1) {
            Some(s) => if !is_structural_key(fields[i].0@) && (best is None || utf8_len(s)
                >= utf8_len(best->0)) {
                Some(s)
            } else {
                best
            },
            None => best,
        };
        longest_string_from(fields, i + 1, nb)
    }
}

/// Fallback prompt: the longest non-structural string member, if longer than
/// three bytes.
pub open spec fn prompt_fallback(p: JsonValue) -> Option<Seq<char>> {
    match p {
        JsonValue::Object(fields) => match longest_string_from(fields@, 0, None) {
            Some(s) => if utf8_len(s) > 3 {
                Some(s)
            } else {
                None
            },
            None => None,
        },
        _ => None,
    }
}

/// The user's prompt from a `UserPromptSubmit` payload.
pub open spec fn spec_extract_user_prompt(p: JsonValue) -> Option<Seq<char>> {
    match prompt_field(p) {
        Some(v) => match json_str(v) {
            Some(s) => Some(s),
            None => match v {
                JsonValue::Object(_) => match get_str(v, "text"@) {
                    Some(s) => Some(s),
                    None => match get_str(v, "content"@) {
                        Some(s) => Some(s),
                        None => match get_str(v, "value"@) {
                            Some(s) => Some(s),
                            None => prompt_fallback(p),
                        },
                    },
                },
                _ => prompt_fallback(p),
            },
        },
        None => prompt_fallback(p),
    }
}

fn or_get_exec<'a>(prev: Option<&'a JsonValue>, p: &'a JsonValue, key: &str) -> (r: Option<&'a JsonValue>)
    ensures
        match r {
            Some(x) => or_get(
                match prev {
                    Some(y) => Some(*y),
                    None => None,
                },
                *p,
                key@,
            ) == Some(*x),
            None => or_get(
                match prev {
                    Some(y) => Some(*y),
                    None => None,
                },
                *p,
                key@,
            ) is None,
        },
{
    match prev {
        Some(x) => Some(x),
        None => p.get(key),
    }
}

fn prompt_fallback_exec(p: &JsonValue) -> (r: Option<Vec<char>>)
    ensures
        match r {
            Some(s) => prompt_fallback(*p) == Some(s@),
            None => prompt_fallback(*p) is None,
        },
{
    match p {
        JsonValue::Object(fields) => {
            let mut best: Option<Vec<char>> = None;
            let mut best_len: u128 = 0;
            let mut i: usize = 0;
            while i < fields.len()
                invariant
                    *p == JsonValue::Object(*fields),
                    longest_string_from(
                        fields@,
                        i as int,
                        match best {
                            Some(b) => Some(b@),
                            None => None,
                        },
                    ) == longest_string_from(fields@, 0, None),
                    best matches Some(b) ==> best_len == utf8_len(b@),
                decreases fields.len() - i,
            {
                match fields[i].1.as_str() {
                    Some(s) => {
                        let key = chars_of(fields[i].0.as_str());
                        let k = key.as_slice();
                        let structural = eq_lit(k, "session_id") || eq_lit(k, "cwd") || eq_lit(
                            k,
                            "hook_event_name",
                        );
                        let sc = chars_of(s.as_str());
                        let l = utf8_byte_len(sc.as_slice());
                        if !structural && (best.is_none() || l >= best_len) {
                            best = Some(sc);
                            best_len = l;
                        }
                    },
                    None => {},
                }
                i += 1;
            }
            match best {
                Some(b) => if best_len > 3 {
                    Some(b)
                } else {
                    None
                },
                None => None,
            }
        },
        _ => None,
    }
}

pub fn extract_user_prompt(p: &JsonValue) -> (r: Option<Vec<char>>)
    ensures
        match r {
            Some(s) => spec_extract_user_prompt(*p) == Some(s@),
            None => spec_extract_user_prompt(*p) is None,
        },
{
    let v = p.get("input");
    let v = or_get_exec(v, p, "content");
    let v = or_get_exec(v, p, "prompt");
    let v = or_get_exec(v, p, "user_input");
    let v = or_get_exec(v, p, "user_message");
    let v = or_get_exec(v, p, "message");
    let v = or_get_exec(v, p, "text");
    if let Some(v) = v {
        if let Some(s) = v.as_str() {
            return Some(chars_of(s.as_str()));
        }
        if let JsonValue::Object(_) = v {
            if let Some(s) = get_str_exec(v, "text") {
                return Some(s);
            }
            if let Some(s) = get_str_exec(v, "content") {
                return Some(s);
            }
            if let Some(s) = get_str_exec(v, "value") {
                return Some(s);
            }
        }
    }
    prompt_fallback_exec(p)
}

} // verus!
