//! Parsers for the output of shell tools (`PostToolUse`): test counts, commit
//! hashes, `gh` JSON, ripgrep matches, `git log`, `git blame`, node probes.
use vstd::prelude::*;
use crate::text::{
    chars_of, string_of, copy_range, copy_all, push_all, push_str, lit_then, eq_lit, trim, trim_exec,
    trim_start, trim_start_exec, trim_end, trim_end_exec, truncate, truncate_exec, dec, dec_exec,
    lower_seq, lower_all, contains, contains_lit, contains_char, contains_ch, find, find_from,
    find_exec, find_lit, find_char, find_from_exec, lemma_find_from_bounds, occurs_at, starts_with,
    starts_with_lit, starts_with_char, starts_with_ch, ends_with_char, ends_with_ch, is_digit,
    is_hex, is_ascii_digit, is_ascii_hexdigit, all_digits, parse_u32, parse_u32_exec, skip_word,
    skip_word_exec, lines, lines_exec, vv, lines_from, is_infix, lemma_infix_subrange, lemma_infix_trans,
    lemma_trim_infix, lemma_lines_infix, lemma_words_infix,
};
use crate::bash::{
    spec_strip_shell_noise, strip_shell_noise, spec_looks_like_path, looks_like_path, spec_basename,
    basename, skip_digits, skip_non_digits, lemma_skip_digits, lemma_skip_non_digits,
};
use crate::session::{Session, SessionView, ActivityKind, push_activity_spec};

verus! {

broadcast use vstd::string::group_string_axioms;

// ───────────────────────── small helpers ─────────────────────────

/// At most the first `n` elements.
pub open spec fn take_upto(s: Seq<char>, n: int) -> Seq<char> {
    if s.len() <= n {
        s
    } else {
        s.take(n)
    }
}

pub fn take_upto_exec(s: &[char], n: usize) -> (r: Vec<char>)
    ensures
        r@ == take_upto(s@, n as int),
{
    if s.len() <= n {
        copy_all(s)
    } else {
        copy_range(s, 0, n)
    }
}

pub open spec fn all_hex(s: Seq<char>) -> bool {
    forall|i: int| 0 <= i < s.len() ==> is_hex(#[trigger] s[i])
}

pub fn all_hex_exec(s: &[char]) -> (r: bool)
    ensures
        r == all_hex(s@),
{
    let mut k: usize = 0;
    while k < s.len()
        invariant
            k <= s@.len(),
            forall|i: int| 0 <= i < k ==> is_hex(#[trigger] s@[i]),
        decreases s.len() - k,
    {
        if !is_ascii_hexdigit(s[k]) {
            return false;
        }
        k += 1;
    }
    true
}

/// First index at or after `i` that is not a hex digit.
pub open spec fn skip_hex(s: Seq<char>, i: int) -> int
    decreases s.len() - i,
{
    if 0 <= i < s.len() && is_hex(s[i]) {
        skip_hex(s, i + 1)
    } else {
        i
    }
}

pub proof fn lemma_skip_hex(s: Seq<char>, i: int)
    requires
        0 <= i <= s.len(),
    ensures
        i <= skip_hex(s, i) <= s.len(),
    decreases s.len() - i,
{
    if i < s.len() && is_hex(s[i]) {
        lemma_skip_hex(s, i + 1);
    }
}

/// The hex digits of `s`, in order.
pub open spec fn hex_filter(s: Seq<char>) -> Seq<char>
    decreases s.len(),
{
    if s.len() == 0 {
        seq![]
    } else if is_hex(s.last()) {
        hex_filter(s.drop_last()).push(s.last())
    } else {
        hex_filter(s.drop_last())
    }
}

pub fn hex_filter_exec(s: &[char]) -> (r: Vec<char>)
    ensures
        r@ == hex_filter(s@),
{
    let mut out: Vec<char> = Vec::new();
    let mut k: usize = 0;
    while k < s.len()
        invariant
            k <= s@.len(),
            out@ == hex_filter(s@.take(k as int)),
        decreases s.len() - k,
    {
        assert(s@.take(k + 1).drop_last() == s@.take(k as int));
        if is_ascii_hexdigit(s[k]) {
            out.push(s[k]);
        }
        k += 1;
    }
    assert(s@.take(s@.len() as int) == s@);
    out
}

// ───────────────────────── ANSI colours and test counts ─────────────────────────

/// Text without ANSI escape sequences: an ESC drops everything up to and
/// including the next `m`.
pub open spec fn strip_ansi_from(s: Seq<char>, i: int) -> Seq<char>
    decreases s.len() - i,
{
    if i < 0 || i >= s.len() {
        seq![]
    } else if s[i] == '\u{1b}' {
        let j = find_from(s, seq!['m'], i + 1);
        if j < 0 {
            seq![]
        } else {
            proof {
                lemma_find_from_bounds(s, seq!['m'], i + 1);
            }
            strip_ansi_from(s, j + 1)
        }
    } else {
        seq![s[i]] + strip_ansi_from(s, i + 1)
    }
}

pub open spec fn spec_strip_ansi(s: Seq<char>) -> Seq<char> {
    strip_ansi_from(s, 0)
}

pub fn strip_ansi(s: &[char]) -> (r: Vec<char>)
    ensures
        r@ == spec_strip_ansi(s@),
{
    let m = vec!['m'];
    assert(m@ == seq!['m']);
    let mut out: Vec<char> = Vec::new();
    let mut i: usize = 0;
    while i < s.len()
        invariant
            i <= s@.len(),
            m@ == seq!['m'],
            out@ + strip_ansi_from(s@, i as int) == spec_strip_ansi(s@),
        decreases s.len() - i,
    {
        if s[i] == '\u{1b}' {
            match find_from_exec(s, m.as_slice(), i + 1) {
                None => {
                    assert(strip_ansi_from(s@, i as int) == Seq::<char>::empty());
                    assert(out@ + Seq::<char>::empty() == out@);
                    return out;
                },
                Some(j) => {
                    i = j + 1;
                },
            }
        } else {
            let ghost before = out@;
            out.push(s[i]);
            assert(out@ + strip_ansi_from(s@, i + 1) =~= before + strip_ansi_from(s@, i as int));
            i += 1;
        }
    }
    assert(out@ + strip_ansi_from(s@, i as int) =~= out@);
    out
}

/// Start of the run of digits that ends at `j`.
pub open spec fn back_digits(s: Seq<char>, j: int) -> int
    decreases j,
{
    if 0 < j <= s.len() && is_digit(s[j - 1]) {
        back_digits(s, j - 1)
    } else {
        j
    }
}

pub proof fn lemma_back_digits(s: Seq<char>, j: int)
    requires
        0 <= j <= s.len(),
    ensures
        0 <= back_digits(s, j) <= j,
    decreases j,
{
    if j > 0 && is_digit(s[j - 1]) {
        lemma_back_digits(s, j - 1);
    }
}

/// The number written just before the first `suffix` (`12 passed`).
pub open spec fn spec_parse_digits_before(s: Seq<char>, suffix: Seq<char>) -> Option<u32> {
    let idx = find(s, suffix);
    if idx < 0 {
        None
    } else {
        let before = trim_end(s.take(idx));
        let num = before.skip(back_digits(before, before.len() as int));
        if num.len() == 0 {
            None
        } else {
            parse_u32(num)
        }
    }
}

pub fn parse_digits_before(s: &[char], suffix: &str) -> (r: Option<u32>)
    ensures
        r == spec_parse_digits_before(s@, suffix@),
{
    let idx = match find_lit(s, suffix) {
        Some(i) => i,
        None => return None,
    };
    proof {
        lemma_find_from_bounds(s@, suffix@, 0);
    }
    let head = copy_range(s, 0, idx);
    let before = trim_end_exec(head.as_slice());
    let mut j = before.len();
    while j > 0 && is_ascii_digit(before[j - 1])
        invariant
            j <= before@.len(),
            back_digits(before@, j as int) == back_digits(before@, before@.len() as int),
        decreases j,
    {
        j -= 1;
    }
    let num = copy_range(before.as_slice(), j, before.len());
    if num.len() == 0 {
        return None;
    }
    parse_u32_exec(num.as_slice())
}

/// Passed and failed test counts found in a test runner's output.
pub open spec fn spec_parse_test_result(response: Seq<char>) -> Option<(u32, u32)> {
    let s = spec_strip_ansi(response);
    let passed = spec_parse_digits_before(s, " passed"@);
    let failed = spec_parse_digits_before(s, " failed"@);
    match (passed, failed) {
        (Some(p), f) => Some(
            (
                p,
                match f {
                    Some(x) => x,
                    None => 0,
                },
            ),
        ),
        (None, Some(f)) => Some((0, f)),
        _ => None,
    }
}

pub fn parse_test_result(response: &[char]) -> (r: Option<(u32, u32)>)
    ensures
        r == spec_parse_test_result(response@),
{
    let s = strip_ansi(response);
    let passed = parse_digits_before(s.as_slice(), " passed");
    let failed = parse_digits_before(s.as_slice(), " failed");
    match (passed, failed) {
        (Some(p), f) => Some(
            (
                p,
                match f {
                    Some(x) => x,
                    None => 0,
                },
            ),
        ),
        (None, Some(f)) => Some((0, f)),
        _ => None,
    }
}

// ───────────────────────── commit hashes ─────────────────────────

/// Whether the last shell command can print a new commit hash.
pub open spec fn spec_should_parse_commit_hash(last_cmd: Seq<char>) -> bool {
    if last_cmd.len() == 0 {
        false
    } else {
        let c = lower_seq(spec_strip_shell_noise(last_cmd));
        contains(c, "git commit"@) || contains(c, "git push"@) || contains(c, "git cherry-pick"@)
            || contains(c, "git merge"@) || contains(c, "git rebase"@) || contains(c, "git am"@)
    }
}

pub fn should_parse_commit_hash_chars(last_cmd: &[char]) -> (r: bool)
    ensures
        r == spec_should_parse_commit_hash(last_cmd@),
{
    if last_cmd.len() == 0 {
        return false;
    }
    let s = strip_shell_noise(last_cmd);
    let c = lower_all(s.as_slice());
    let c = c.as_slice();
    contains_lit(c, "git commit") || contains_lit(c, "git push") || contains_lit(c, "git cherry-pick")
        || contains_lit(c, "git merge") || contains_lit(c, "git rebase") || contains_lit(c, "git am")
}

/// Whether the last shell command can print a new commit hash (commit, push,
/// cherry-pick, merge, rebase, am).
pub fn should_parse_commit_hash(last_cmd: &str) -> (r: bool)
    ensures
        r == spec_should_parse_commit_hash(last_cmd@),
{
    let c = chars_of(last_cmd);
    should_parse_commit_hash_chars(c.as_slice())
}

/// Commands that can print a new commit hash: a last command whose text,
/// shell noise stripped and lower-cased, contains `git commit`, `git push`,
/// `git cherry-pick`, `git merge`, `git rebase` or `git am` has its output
/// read for a hash, and no other command does.
pub proof fn lemma_commit_making_commands(cmd: Seq<char>)
    ensures
        contains(lower_seq(spec_strip_shell_noise(cmd)), "git commit"@) ==> spec_should_parse_commit_hash(cmd),
        contains(lower_seq(spec_strip_shell_noise(cmd)), "git push"@) ==> spec_should_parse_commit_hash(cmd),
        contains(lower_seq(spec_strip_shell_noise(cmd)), "git cherry-pick"@) ==> spec_should_parse_commit_hash(cmd),
        contains(lower_seq(spec_strip_shell_noise(cmd)), "git merge"@) ==> spec_should_parse_commit_hash(cmd),
        contains(lower_seq(spec_strip_shell_noise(cmd)), "git rebase"@) ==> spec_should_parse_commit_hash(cmd),
        contains(lower_seq(spec_strip_shell_noise(cmd)), "git am"@) ==> spec_should_parse_commit_hash(cmd),
        spec_should_parse_commit_hash(cmd) ==> {
            let shown = lower_seq(spec_strip_shell_noise(cmd));
            ||| contains(shown, "git commit"@)
            ||| contains(shown, "git push"@)
            ||| contains(shown, "git cherry-pick"@)
            ||| contains(shown, "git merge"@)
            ||| contains(shown, "git rebase"@)
            ||| contains(shown, "git am"@)
        },
{
    if cmd.len() == 0 {
        crate::bash::lemma_strip_shell_noise_is_trimmed_infix(cmd);
        let s = spec_strip_shell_noise(cmd);
        let (i, j) = choose|i: int, j: int| 0 <= i <= j <= cmd.len() && s == #[trigger] cmd.subrange(i, j);
        assert(s.len() == 0);
        assert(lower_seq(s).len() == 0);
        reveal_strlit("git commit");
        reveal_strlit("git push");
        reveal_strlit("git cherry-pick");
        reveal_strlit("git merge");
        reveal_strlit("git rebase");
        reveal_strlit("git am");
    }
}

/// Scan of the output lines from `i` on for a commit hash: a `[branch hash]`
/// line (6 to 12 hex digits) or a line that starts with 7 to 12 hex digits.
/// A bracketed line with fewer than two words ends the scan.
pub open spec fn commit_hash_scan(ls: Seq<Seq<char>>, i: int) -> Option<Seq<char>>
    decreases ls.len() - i,
{
    if i < 0 || i >= ls.len() {
        None
    } else {
        let line = trim(ls[i]);
        if starts_with_char(line, '[') && ends_with_char(line, ']') {
            let ps = crate::text::words(line.subrange(1, line.len() - 1));
            if ps.len() < 2 {
                None
            } else if 6 <= ps[1].len() <= 12 && all_hex(ps[1]) {
                Some(take_upto(ps[1], 8))
            } else {
                commit_hash_scan(ls, i + 1)
            }
        } else {
            let h = line.take(skip_hex(line, 0));
            if 7 <= h.len() <= 12 {
                Some(take_upto(h, 8))
            } else {
                commit_hash_scan(ls, i + 1)
            }
        }
    }
}

pub open spec fn spec_parse_commit_hash(response: Seq<char>) -> Option<Seq<char>> {
    commit_hash_scan(lines(response), 0)
}

proof fn lemma_skip_hex_all(s: Seq<char>, i: int)
    requires
        0 <= i <= s.len(),
    ensures
        forall|k: int| i <= k < skip_hex(s, i) ==> is_hex(#[trigger] s[k]),
    decreases s.len() - i,
{
    if i < s.len() && is_hex(s[i]) {
        lemma_skip_hex_all(s, i + 1);
    }
}

proof fn lemma_take_upto_shape(h: Seq<char>, src: Seq<char>)
    requires
        6 <= h.len() <= 12,
        all_hex(h),
        is_infix(h, src),
    ensures
        6 <= take_upto(h, 8).len() <= 8,
        all_hex(take_upto(h, 8)),
        is_infix(take_upto(h, 8), src),
{
    let t = take_upto(h, 8);
    assert(t =~= h.subrange(0, t.len() as int));
    lemma_infix_subrange(h, 0, t.len() as int);
    lemma_infix_trans(t, h, src);
    assert forall|i: int| 0 <= i < t.len() implies is_hex(#[trigger] t[i]) by {
        assert(t[i] == h[i]);
    }
}

proof fn lemma_commit_hash_scan_shape(ls: Seq<Seq<char>>, i: int, response: Seq<char>)
    requires
        0 <= i,
        forall|k: int| 0 <= k < ls.len() ==> is_infix(#[trigger] ls[k], response),
    ensures
        match commit_hash_scan(ls, i) {
            Some(h) => 6 <= h.len() <= 8 && all_hex(h) && is_infix(h, response),
            None => true,
        },
    decreases ls.len() - i,
{
    if i < ls.len() {
        let line = trim(ls[i]);
        lemma_trim_infix(ls[i]);
        assert(is_infix(ls[i], response));
        lemma_infix_trans(line, ls[i], response);
        if starts_with_char(line, '[') && ends_with_char(line, ']') {
            let inner = line.subrange(1, line.len() - 1);
            lemma_infix_subrange(line, 1, line.len() - 1);
            lemma_infix_trans(inner, line, response);
            let ps = crate::text::words(inner);
            lemma_words_infix(inner, 0);
            if ps.len() >= 2 && 6 <= ps[1].len() <= 12 && all_hex(ps[1]) {
                lemma_infix_trans(ps[1], inner, response);
                lemma_take_upto_shape(ps[1], response);
            } else if ps.len() >= 2 {
                lemma_commit_hash_scan_shape(ls, i + 1, response);
            }
        } else {
            crate::post::lemma_skip_hex(line, 0);
            lemma_skip_hex_all(line, 0);
            let h = line.take(skip_hex(line, 0));
            if 7 <= h.len() <= 12 {
                assert(h =~= line.subrange(0, skip_hex(line, 0)));
                lemma_infix_subrange(line, 0, skip_hex(line, 0));
                lemma_infix_trans(h, line, response);
                assert forall|k: int| 0 <= k < h.len() implies is_hex(#[trigger] h[k]) by {
                    assert(h[k] == line[k]);
                }
                lemma_take_upto_shape(h, response);
            } else {
                lemma_commit_hash_scan_shape(ls, i + 1, response);
            }
        }
    }
}

/// A commit hash read from a command's output is 6 to 8 hex digits that
/// occur in that output.
pub proof fn lemma_commit_hash_shape(response: Seq<char>)
    ensures
        match spec_parse_commit_hash(response) {
            Some(h) => 6 <= h.len() <= 8 && all_hex(h) && is_infix(h, response),
            None => true,
        },
{
    lemma_lines_infix(response, 0);
    lemma_commit_hash_scan_shape(lines(response), 0, response);
}

pub fn parse_commit_hash_chars(response: &[char]) -> (r: Option<Vec<char>>)
    ensures
        match r {
            Some(h) => spec_parse_commit_hash(response@) == Some(h@),
            None => spec_parse_commit_hash(response@) is None,
        },
{
    let ls = lines_exec(response);
    let mut i: usize = 0;
    while i < ls.len()
        invariant
            commit_hash_scan(vv(ls@), i as int) == commit_hash_scan(vv(ls@), 0),
            vv(ls@) == lines(response@),
        decreases ls.len() - i,
    {
        let line = trim_exec(ls[i].as_slice());
        let l = line.as_slice();
        if starts_with_ch(l, '[') && ends_with_ch(l, ']') {
            let inner = copy_range(l, 1, l.len() - 1);
            let ps = crate::text::words_exec(inner.as_slice());
            if ps.len() < 2 {
                return None;
            }
            assert(vv(ps@)[1] == ps@[1]@);
            let h = ps[1].as_slice();
            if 6 <= h.len() && h.len() <= 12 && all_hex_exec(h) {
                return Some(take_upto_exec(h, 8));
            }
        } else {
            let mut k: usize = 0;
            while k < l.len() && is_ascii_hexdigit(l[k])
                invariant
                    k <= l@.len(),
                    skip_hex(l@, k as int) == skip_hex(l@, 0),
                decreases l.len() - k,
            {
                k += 1;
            }
            let h = copy_range(l, 0, k);
            if 7 <= h.len() && h.len() <= 12 {
                return Some(take_upto_exec(h.as_slice(), 8));
            }
        }
        i += 1;
    }
    None
}

/// A commit hash (first 8 hex digits) found in a command's output.
pub fn parse_commit_hash(response: &str) -> (r: Option<String>)
    ensures
        match r {
            Some(h) => spec_parse_commit_hash(response@) == Some(h@),
            None => spec_parse_commit_hash(response@) is None,
        },
{
    let c = chars_of(response);
    match parse_commit_hash_chars(c.as_slice()) {
        Some(h) => Some(string_of(h.as_slice())),
        None => None,
    }
}

// ───────────────────────── `gh` JSON ─────────────────────────

/// The digits that follow `key` (after any non-digits).
pub open spec fn spec_extract_json_u32(s: Seq<char>, key: Seq<char>) -> Option<u32> {
    let idx = find(s, key);
    if idx < 0 {
        None
    } else {
        let rest = trim_start(s.skip(idx + key.len()));
        let from = rest.skip(skip_non_digits(rest, 0));
        parse_u32(from.take(skip_digits(from, 0)))
    }
}

/// The quoted string that follows `key`.
pub open spec fn spec_extract_json_string(s: Seq<char>, key: Seq<char>) -> Option<Seq<char>> {
    let idx = find(s, key);
    if idx < 0 {
        None
    } else {
        let rest = trim_start(s.skip(idx + key.len()));
        if !starts_with_char(rest, '"') {
            None
        } else {
            let r2 = rest.drop_first();
            let end = find(r2, seq!['"']);
            if end < 0 {
                None
            } else {
                Some(r2.take(end))
            }
        }
    }
}

/// The first `"name":"…"` after `"labels"`, when nonempty.
pub open spec fn spec_extract_first_label_name(s: Seq<char>) -> Option<Seq<char>> {
    let li = find(s, "\"labels\""@);
    if li < 0 {
        None
    } else {
        let slice = s.skip(li);
        let ni = find(slice, "\"name\":\""@);
        if ni < 0 {
            None
        } else {
            let rest = slice.skip(ni + "\"name\":\""@.len());
            let end = find(rest, seq!['"']);
            if end < 0 {
                None
            } else if end == 0 {
                None
            } else {
                Some(rest.take(end))
            }
        }
    }
}

fn after_key(s: &[char], key: &str) -> (r: Option<Vec<char>>)
    ensures
        match r {
            Some(rest) => find(s@, key@) >= 0 && rest@ == trim_start(s@.skip(find(s@, key@) + key@.len())),
            None => find(s@, key@) < 0,
        },
{
    let k = chars_of(key);
    match find_exec(s, k.as_slice()) {
        None => None,
        Some(idx) => {
            proof {
                lemma_find_from_bounds(s@, key@, 0);
            }
            assert(idx + k.len() <= s.len());
            let r = copy_range(s, idx + k.len(), s.len());
            Some(trim_start_exec(r.as_slice()))
        },
    }
}

pub fn extract_json_u32(s: &[char], key: &str) -> (r: Option<u32>)
    ensures
        r == spec_extract_json_u32(s@, key@),
{
    let rest = match after_key(s, key) {
        Some(r) => r,
        None => return None,
    };
    let mut a: usize = 0;
    while a < rest.len() && !is_ascii_digit(rest[a])
        invariant
            a <= rest@.len(),
            skip_non_digits(rest@, a as int) == skip_non_digits(rest@, 0),
        decreases rest.len() - a,
    {
        a += 1;
    }
    let from = copy_range(rest.as_slice(), a, rest.len());
    let mut b: usize = 0;
    while b < from.len() && is_ascii_digit(from[b])
        invariant
            b <= from@.len(),
            skip_digits(from@, b as int) == skip_digits(from@, 0),
        decreases from.len() - b,
    {
        b += 1;
    }
    let num = copy_range(from.as_slice(), 0, b);
    parse_u32_exec(num.as_slice())
}

pub fn extract_json_string(s: &[char], key: &str) -> (r: Option<Vec<char>>)
    ensures
        match r {
            Some(v) => spec_extract_json_string(s@, key@) == Some(v@),
            None => spec_extract_json_string(s@, key@) is None,
        },
{
    let rest = match after_key(s, key) {
        Some(r) => r,
        None => return None,
    };
    if !starts_with_ch(rest.as_slice(), '"') {
        return None;
    }
    let r2 = copy_range(rest.as_slice(), 1, rest.len());
    assert(r2@ == rest@.drop_first());
    match find_char(r2.as_slice(), '"') {
        None => None,
        Some(end) => {
            proof {
                lemma_find_from_bounds(r2@, seq!['"'], 0);
            }
            Some(copy_range(r2.as_slice(), 0, end))
        },
    }
}

pub fn extract_first_label_name(s: &[char]) -> (r: Option<Vec<char>>)
    ensures
        match r {
            Some(v) => spec_extract_first_label_name(s@) == Some(v@),
            None => spec_extract_first_label_name(s@) is None,
        },
{
    let li = match find_lit(s, "\"labels\"") {
        Some(i) => i,
        None => return None,
    };
    proof {
        lemma_find_from_bounds(s@, "\"labels\""@, 0);
    }
    let slice = copy_range(s, li, s.len());
    let key = chars_of("\"name\":\"");
    let ni = match find_exec(slice.as_slice(), key.as_slice()) {
        Some(i) => i,
        None => return None,
    };
    proof {
        lemma_find_from_bounds(slice@, key@, 0);
    }
    assert(ni + key.len() <= slice.len());
    let rest = copy_range(slice.as_slice(), ni + key.len(), slice.len());
    match find_char(rest.as_slice(), '"') {
        None => None,
        Some(end) => {
            proof {
                lemma_find_from_bounds(rest@, seq!['"'], 0);
            }
            if end == 0 {
                None
            } else {
                Some(copy_range(rest.as_slice(), 0, end))
            }
        },
    }
}

/// Session after `gh pr view --json` output: `PR #N · label` on the feed, and
/// the head commit (first 8 hex digits) as the commit hash when none is known.
pub open spec fn gh_pr_post_spec(s: SessionView, response: Seq<char>, at_ms: u64) -> SessionView {
    let t = trim(response);
    if !contains(t, "\"number\":"@) || !contains(t, "\"headRefOid\":"@) {
        s
    } else {
        match spec_extract_json_u32(t, "\"number\":"@) {
            None => s,
            Some(n) => {
                let s1 = match spec_extract_json_string(t, "\"headRefOid\":"@) {
                    Some(oid) => {
                        let short = take_upto(hex_filter(oid), 8);
                        if short.len() >= 7 && s.last_commit_hash is None {
                            SessionView { last_commit_hash: Some(short), ..s }
                        } else {
                            s
                        }
                    },
                    None => s,
                };
                let summary = match spec_extract_first_label_name(t) {
                    Some(label) => "PR #"@ + dec(n as nat) + " \u{b7} "@ + label,
                    None => "PR #"@ + dec(n as nat),
                };
                push_activity_spec(s1, summary, at_ms, ActivityKind::Normal, seq![])
            },
        }
    }
}

pub fn parse_gh_pr_post(entry: &mut Session, response: &str, at_ms: u64)
    ensures
        final(entry)@ == gh_pr_post_spec(old(entry)@, response@, at_ms),
        old(entry).wf() ==> final(entry).wf(),
{
    let r = chars_of(response);
    let t = trim_exec(r.as_slice());
    let ts = t.as_slice();
    if !contains_lit(ts, "\"number\":") || !contains_lit(ts, "\"headRefOid\":") {
        return;
    }
    let number = extract_json_u32(ts, "\"number\":");
    let oid = extract_json_string(ts, "\"headRefOid\":");
    let n = match number {
        Some(n) => n,
        None => return,
    };
    if let Some(oid_full) = oid {
        let hx = hex_filter_exec(oid_full.as_slice());
        let short = take_upto_exec(hx.as_slice(), 8);
        if short.len() >= 7 && entry.last_commit_hash.is_none() {
            entry.last_commit_hash = Some(string_of(short.as_slice()));
        }
    }
    let d = dec_exec(n as u64);
    let mut summary = lit_then("PR #", d.as_slice());
    if let Some(label) = extract_first_label_name(ts) {
        push_str(&mut summary, " \u{b7} ");
        push_all(&mut summary, label.as_slice());
    }
    proof {
        reveal_strlit("");
    }
    entry.push_activity_with_kind(string_of(summary.as_slice()), at_ms, ActivityKind::Normal, "");
}

/// `Issue #N · state · title` for `gh issue view --json` output.
pub open spec fn gh_issue_summary(response: Seq<char>) -> Option<Seq<char>> {
    let t = trim(response);
    if !contains(t, "\"title\":"@) || !contains(t, "\"state\":"@) {
        None
    } else if contains(t, "\"headRefOid\":"@) {
        None
    } else {
        let base = match spec_extract_json_u32(t, "\"number\":"@) {
            Some(n) => "Issue #"@ + dec(n as nat),
            None => "Issue"@,
        };
        let with_state = match spec_extract_json_string(t, "\"state\":"@) {
            Some(st) => base + " \u{b7} "@ + st,
            None => base,
        };
        Some(
            match spec_extract_json_string(t, "\"title\":"@) {
                Some(title) => with_state + " \u{b7} "@ + truncate(title, 40),
                None => with_state,
            },
        )
    }
}

/// The session after a summary (if any) is pushed as a normal line.
pub open spec fn push_opt(s: SessionView, summary: Option<Seq<char>>, at_ms: u64, kind: ActivityKind) -> SessionView {
    match summary {
        Some(x) => push_activity_spec(s, x, at_ms, kind, seq![]),
        None => s,
    }
}

fn push_opt_exec(entry: &mut Session, summary: Option<Vec<char>>, at_ms: u64, kind: ActivityKind)
    ensures
        old(entry).wf() ==> final(entry).wf(),
        final(entry)@ == push_opt(
            old(entry)@,
            match summary {
                Some(v) => Some(v@),
                None => None,
            },
            at_ms,
            kind,
        ),
{
    proof {
        reveal_strlit("");
    }
    if let Some(x) = summary {
        entry.push_activity_with_kind(string_of(x.as_slice()), at_ms, kind, "");
    }
}

pub fn gh_issue_summary_chars(response: &[char]) -> (r: Option<Vec<char>>)
    ensures
        match r {
            Some(v) => gh_issue_summary(response@) == Some(v@),
            None => gh_issue_summary(response@) is None,
        },
{
    let t = trim_exec(response);
    let ts = t.as_slice();
    if !contains_lit(ts, "\"title\":") || !contains_lit(ts, "\"state\":") {
        return None;
    }
    if contains_lit(ts, "\"headRefOid\":") {
        return None;
    }
    let mut summary = match extract_json_u32(ts, "\"number\":") {
        Some(n) => {
            let d = dec_exec(n as u64);
            lit_then("Issue #", d.as_slice())
        },
        None => chars_of("Issue"),
    };
    if let Some(st) = extract_json_string(ts, "\"state\":") {
        push_str(&mut summary, " \u{b7} ");
        push_all(&mut summary, st.as_slice());
    }
    if let Some(title) = extract_json_string(ts, "\"title\":") {
        push_str(&mut summary, " \u{b7} ");
        let tt = truncate_exec(title.as_slice(), 40);
        push_all(&mut summary, tt.as_slice());
    }
    Some(summary)
}

pub fn parse_gh_issue_post(entry: &mut Session, response: &str, at_ms: u64)
    ensures
        final(entry)@ == push_opt(old(entry)@, gh_issue_summary(response@), at_ms, ActivityKind::Normal),
        old(entry).wf() ==> final(entry).wf(),
{
    let r = chars_of(response);
    let summary = gh_issue_summary_chars(r.as_slice());
    push_opt_exec(entry, summary, at_ms, ActivityKind::Normal);
}

// ───────────────────────── ripgrep ─────────────────────────

/// `path:line:` or a line that starts with a digit and holds a colon.
pub open spec fn spec_is_rg_match_line(line: Seq<char>) -> bool {
    (line.len() > 0 && is_digit(line[0]) && contains_char(line, ':')) || {
        let c1 = find(line, seq![':']);
        c1 >= 0 && {
            let c2 = find_from(line, seq![':'], c1 + 1);
            let end = if c2 < 0 {
                line.len() as int
            } else {
                c2
            };
            let p = line.subrange(c1 + 1, end);
            p.len() > 0 && all_digits(p)
        }
    }
}

pub fn is_rg_match_line(line: &[char]) -> (r: bool)
    ensures
        r == spec_is_rg_match_line(line@),
{
    if line.len() > 0 && is_ascii_digit(line[0]) && contains_ch(line, ':') {
        return true;
    }
    let colon = vec![':'];
    assert(colon@ == seq![':']);
    let c1 = match find_exec(line, colon.as_slice()) {
        Some(c) => c,
        None => return false,
    };
    proof {
        lemma_find_from_bounds(line@, seq![':'], 0);
    }
    let end = match find_from_exec(line, colon.as_slice(), c1 + 1) {
        Some(c2) => c2,
        None => line.len(),
    };
    let p = copy_range(line, c1 + 1, end);
    p.len() > 0 && crate::text::all_digits_exec(p.as_slice())
}

/// The trimmed, nonempty output lines from `i` on that look like matches.
pub open spec fn rg_matches_from(ls: Seq<Seq<char>>, i: int) -> Seq<Seq<char>>
    decreases ls.len() - i,
{
    if i < 0 || i >= ls.len() {
        seq![]
    } else {
        let line = trim(ls[i]);
        if line.len() > 0 && spec_is_rg_match_line(line) {
            seq![line] + rg_matches_from(ls, i + 1)
        } else {
            rg_matches_from(ls, i + 1)
        }
    }
}

/// `Match: …` for one match, `Found N matches` for several.
pub open spec fn rg_summary(response: Seq<char>) -> Option<Seq<char>> {
    let m = rg_matches_from(lines(response), 0);
    if m.len() == 0 {
        None
    } else if m.len() == 1 {
        let l = m[0];
        let c = find(l, seq![':']);
        let content = if c < 0 {
            l
        } else {
            trim(l.skip(c + 1))
        };
        Some("Match: "@ + truncate(content, 60))
    } else {
        Some("Found "@ + dec(m.len()) + " matches"@)
    }
}

pub fn rg_summary_chars(response: &[char]) -> (r: Option<Vec<char>>)
    ensures
        match r {
            Some(v) => rg_summary(response@) == Some(v@),
            None => rg_summary(response@) is None,
        },
{
    let ls = lines_exec(response);
    let mut matches: Vec<Vec<char>> = Vec::new();
    let mut i = ls.len();
    while i > 0
        invariant
            i <= ls@.len(),
            vv(matches@) == rg_matches_from(vv(ls@), i as int),
        decreases i,
    {
        i -= 1;
        let line = trim_exec(ls[i].as_slice());
        if line.len() > 0 && is_rg_match_line(line.as_slice()) {
            let ghost before = matches@;
            matches.insert(0, line);
            assert(vv(matches@) =~= seq![line@] + vv(before));
        }
    }
    assert(vv(ls@) == lines(response@));
    if matches.len() == 0 {
        return None;
    }
    if matches.len() == 1 {
        assert(vv(matches@)[0] == matches@[0]@);
        let l = matches[0].as_slice();
        let content = match find_char(l, ':') {
            Some(c) => {
                proof {
                    lemma_find_from_bounds(l@, seq![':'], 0);
                }
                assert(c < l.len());
                let after = copy_range(l, c + 1, l.len());
                trim_exec(after.as_slice())
            },
            None => copy_all(l),
        };
        let t = truncate_exec(content.as_slice(), 60);
        return Some(lit_then("Match: ", t.as_slice()));
    }
    let d = dec_exec(matches.len() as u64);
    let mut out = lit_then("Found ", d.as_slice());
    push_str(&mut out, " matches");
    Some(out)
}

pub fn parse_rg_post(entry: &mut Session, response: &str, at_ms: u64)
    ensures
        final(entry)@ == push_opt(old(entry)@, rg_summary(response@), at_ms, ActivityKind::Normal),
        old(entry).wf() ==> final(entry).wf(),
{
    let r = chars_of(response);
    let summary = rg_summary_chars(r.as_slice());
    push_opt_exec(entry, summary, at_ms, ActivityKind::Normal);
}

// ───────────────────────── git log / blame, node probes ─────────────────────────

/// A `git log --oneline` line: 7 to 12 hex digits, then whitespace.
pub open spec fn is_log_line(line: Seq<char>) -> bool {
    let t = trim(line);
    let w = skip_word(t, 0);
    t.len() > 0 && w < t.len() && 7 <= w <= 12 && all_hex(t.take(w))
}

pub open spec fn log_count_from(ls: Seq<Seq<char>>, i: int) -> nat
    decreases ls.len() - i,
{
    if i < 0 || i >= ls.len() {
        0
    } else if is_log_line(ls[i]) {
        1 + log_count_from(ls, i + 1)
    } else {
        log_count_from(ls, i + 1)
    }
}

/// `Git history (N commits)`; the count is a 32-bit counter.
pub open spec fn git_log_summary(response: Seq<char>) -> Option<Seq<char>> {
    let c = log_count_from(lines(response), 0) % 0x1_0000_0000;
    if c == 0 {
        None
    } else {
        Some("Git history ("@ + dec(c) + " commits)"@)
    }
}

pub fn git_log_summary_chars(response: &[char]) -> (r: Option<Vec<char>>)
    ensures
        match r {
            Some(v) => git_log_summary(response@) == Some(v@),
            None => git_log_summary(response@) is None,
        },
{
    let ls = lines_exec(response);
    let mut commits: u32 = 0;
    let mut i = ls.len();
    while i > 0
        invariant
            i <= ls@.len(),
            commits == log_count_from(vv(ls@), i as int) % 0x1_0000_0000,
        decreases i,
    {
        i -= 1;
        let t = trim_exec(ls[i].as_slice());
        let w = skip_word_exec(t.as_slice(), 0);
        let h = copy_range(t.as_slice(), 0, w);
        if t.len() > 0 && w < t.len() && 7 <= w && w <= 12 && all_hex_exec(h.as_slice()) {
            commits = if commits == u32::MAX {
                0
            } else {
                commits + 1
            };
        }
    }
    assert(vv(ls@) == lines(response@));
    if commits == 0 {
        return None;
    }
    let d = dec_exec(commits as u64);
    let mut out = lit_then("Git history (", d.as_slice());
    push_str(&mut out, " commits)");
    Some(out)
}

pub fn parse_git_log_post(entry: &mut Session, response: &str, at_ms: u64)
    ensures
        final(entry)@ == push_opt(old(entry)@, git_log_summary(response@), at_ms, ActivityKind::Normal),
        old(entry).wf() ==> final(entry).wf(),
{
    let r = chars_of(response);
    let summary = git_log_summary_chars(r.as_slice());
    push_opt_exec(entry, summary, at_ms, ActivityKind::Normal);
}

/// First trimmed output line from `i` on that looks like a path.
pub open spec fn first_path_line(ls: Seq<Seq<char>>, i: int) -> Option<Seq<char>>
    decreases ls.len() - i,
{
    if i < 0 || i >= ls.len() {
        None
    } else if spec_looks_like_path(trim(ls[i])) {
        Some(trim(ls[i]))
    } else {
        first_path_line(ls, i + 1)
    }
}

/// `Blamed lines in <file>` for `git blame` output.
pub open spec fn git_blame_summary(response: Seq<char>) -> Option<Seq<char>> {
    if !contains_char(response, '(') || !contains(lower_seq(response), "author"@) {
        None
    } else {
        let path = match first_path_line(lines(response), 0) {
            Some(l) => spec_basename(l),
            None => "file"@,
        };
        Some("Blamed lines in "@ + path)
    }
}

pub fn git_blame_summary_chars(response: &[char]) -> (r: Option<Vec<char>>)
    ensures
        match r {
            Some(v) => git_blame_summary(response@) == Some(v@),
            None => git_blame_summary(response@) is None,
        },
{
    let low = lower_all(response);
    if !contains_ch(response, '(') || !contains_lit(low.as_slice(), "author") {
        return None;
    }
    let ls = lines_exec(response);
    let mut i: usize = 0;
    while i < ls.len()
        invariant
            first_path_line(vv(ls@), i as int) == first_path_line(vv(ls@), 0),
            vv(ls@) == lines(response@),
            contains_char(response@, '('),
            contains(lower_seq(response@), "author"@),
        decreases ls.len() - i,
    {
        let t = trim_exec(ls[i].as_slice());
        if looks_like_path(t.as_slice()) {
            let b = basename(t.as_slice());
            return Some(lit_then("Blamed lines in ", b.as_slice()));
        }
        i += 1;
    }
    let f = chars_of("file");
    Some(lit_then("Blamed lines in ", f.as_slice()))
}

pub fn parse_git_blame_post(entry: &mut Session, response: &str, at_ms: u64)
    ensures
        final(entry)@ == push_opt(old(entry)@, git_blame_summary(response@), at_ms, ActivityKind::Normal),
        old(entry).wf() ==> final(entry).wf(),
{
    let r = chars_of(response);
    let summary = git_blame_summary_chars(r.as_slice());
    push_opt_exec(entry, summary, at_ms, ActivityKind::Normal);
}

/// First `CASE: <name>` line from `i` on with a nonempty name.
pub open spec fn probe_scan(ls: Seq<Seq<char>>, i: int) -> Option<Seq<char>>
    decreases ls.len() - i,
{
    if i < 0 || i >= ls.len() {
        None
    } else {
        let t = trim(ls[i]);
        if starts_with(t, "CASE:"@) && trim(t.skip("CASE:"@.len() as int)).len() > 0 {
            Some("Type check: "@ + truncate(trim(t.skip("CASE:"@.len() as int)), 48))
        } else {
            probe_scan(ls, i + 1)
        }
    }
}

pub open spec fn node_probe_summary(response: Seq<char>) -> Option<Seq<char>> {
    probe_scan(lines(response), 0)
}

pub fn node_probe_summary_chars(response: &[char]) -> (r: Option<Vec<char>>)
    ensures
        match r {
            Some(v) => node_probe_summary(response@) == Some(v@),
            None => node_probe_summary(response@) is None,
        },
{
    let ls = lines_exec(response);
    let pfx = chars_of("CASE:");
    let mut i: usize = 0;
    while i < ls.len()
        invariant
            pfx@ == "CASE:"@,
            probe_scan(vv(ls@), i as int) == probe_scan(vv(ls@), 0),
            vv(ls@) == lines(response@),
        decreases ls.len() - i,
    {
        let t = trim_exec(ls[i].as_slice());
        if crate::text::starts_with_exec(t.as_slice(), pfx.as_slice()) {
            let after = copy_range(t.as_slice(), pfx.len(), t.len());
            let name = trim_exec(after.as_slice());
            if name.len() > 0 {
                let tt = truncate_exec(name.as_slice(), 48);
                return Some(lit_then("Type check: ", tt.as_slice()));
            }
        }
        i += 1;
    }
    None
}

pub fn parse_node_probe_post(entry: &mut Session, response: &str, at_ms: u64)
    ensures
        final(entry)@ == push_opt(old(entry)@, node_probe_summary(response@), at_ms, ActivityKind::Success),
        old(entry).wf() ==> final(entry).wf(),
{
    let r = chars_of(response);
    let summary = node_probe_summary_chars(r.as_slice());
    push_opt_exec(entry, summary, at_ms, ActivityKind::Success);
}

} // verus!
