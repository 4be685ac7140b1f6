//! Bash command summarizer: turns a raw shell command into a short label.
//!
//! Two phases: `strip_shell_noise` removes PowerShell preambles, `cd X &&`
//! prefixes, `timeout N` and interpreter wrappers; `classify_bash` then maps the
//! first real word to a label through a fixed table.
use vstd::prelude::*;
use crate::text::{is_ws, is_digit, is_hex, is_upper, lower, lower_seq, eq_ic, char_utf8_len, utf8_len, is_whitespace, is_ascii_digit, is_ascii_hexdigit, to_lower, char_len_utf8, chars_of, string_of, copy_range, push_all, push_str, concat, lit_then, seq_eq, eq_lit, lower_all, eq_ignore_case, eq_ignore_case_lit, utf8_byte_len, starts_with, ends_with, starts_with_char, ends_with_char, occurs_at, find_from, find, contains, contains_char, rfind_char_before, rfind_char, lemma_find_from_bounds, lemma_rfind_bounds, starts_with_exec, starts_with_lit, ends_with_exec, ends_with_lit, starts_with_ch, ends_with_ch, occurs_at_exec, find_exec, find_from_exec, find_lit, contains_lit, find_char, contains_ch, rfind_ch, skip_ws, skip_word, back_ws, trim_start, trim_end, trim, is_infix, lemma_infix_subrange, lemma_infix_refl, lemma_infix_trans, lemma_trim_infix, lemma_skip_ws, lemma_skip_word, lemma_back_ws, skip_ws_exec, skip_word_exec, back_ws_exec, trim_start_exec, trim_end_exec, trim_exec, words_from, words, vv, lemma_words_step, lemma_words_end, lemma_words_len, lemma_trim_len, words_exec, join, join_exec, digit_char, dec, dec_exec, digits_val, all_digits, parse_u32, lemma_digits_val_nonneg, parse_u32_exec, truncate, truncate_exec};

verus! {

broadcast use vstd::string::group_string_axioms;

// ───────────────────────── path and word helpers ─────────────────────────

pub open spec fn is_sep(c: char) -> bool {
    c == '/' || c == '\\'
}

/// Index of the last path separator before `j`, or -1.
pub open spec fn last_sep_before(p: Seq<char>, j: int) -> int
    decreases j,
{
    if j <= 0 || j > p.len() {
        -1
    } else if is_sep(p[j - 1]) {
        j - 1
    } else {
        last_sep_before(p, j - 1)
    }
}

/// Last path component; both `/` and `\` separate components.
pub open spec fn spec_basename(p: Seq<char>) -> Seq<char> {
    p.skip(last_sep_before(p, p.len() as int) + 1)
}

pub proof fn lemma_last_sep(p: Seq<char>, j: int)
    requires
        0 <= j <= p.len(),
    ensures
        -1 <= last_sep_before(p, j) < j,
    decreases j,
{
    if j > 0 && !is_sep(p[j - 1]) {
        lemma_last_sep(p, j - 1);
    }
}

/// Last path component of a file path (handles both `/` and `\`).
pub fn basename(p: &[char]) -> (r: Vec<char>)
    ensures
        r@ == spec_basename(p@),
{
    let mut j = p.len();
    while j > 0 && !(p[j - 1] == '/' || p[j - 1] == '\\')
        invariant
            j <= p@.len(),
            last_sep_before(p@, j as int) == last_sep_before(p@, p@.len() as int),
        decreases j,
    {
        j -= 1;
    }
    copy_range(p, j, p.len())
}

/// Heuristic: does this token look like a file or directory path?
pub open spec fn spec_looks_like_path(s: Seq<char>) -> bool {
    s.len() > 0 && (contains_char(s, '.') || starts_with_char(s, '/') || starts_with_char(s, '\\')
        || starts_with(s, ".."@) || contains_char(s, '/') || contains_char(s, '\\'))
}

pub fn looks_like_path(s: &[char]) -> (r: bool)
    ensures
        r == spec_looks_like_path(s@),
{
    s.len() > 0 && (contains_ch(s, '.') || starts_with_ch(s, '/') || starts_with_ch(s, '\\')
        || starts_with_lit(s, "..") || contains_ch(s, '/') || contains_ch(s, '\\'))
}

/// First word at or after position `i` that does not start with `-`.
pub open spec fn first_non_flag_from(ws: Seq<Seq<char>>, i: int) -> Seq<char>
    decreases ws.len() - i,
{
    if i < 0 || i >= ws.len() {
        seq![]
    } else if !starts_with_char(ws[i], '-') {
        ws[i]
    } else {
        first_non_flag_from(ws, i + 1)
    }
}

/// First whitespace-delimited token that does not start with `-` (or empty).
pub open spec fn spec_first_non_flag(s: Seq<char>) -> Seq<char> {
    first_non_flag_from(words(s), 0)
}

pub proof fn lemma_first_non_flag_from(ws: Seq<Seq<char>>, i: int, bound: int)
    requires
        forall|k: int| 0 <= k < ws.len() ==> (#[trigger] ws[k]).len() <= bound,
        0 <= bound,
    ensures
        first_non_flag_from(ws, i).len() <= bound,
    decreases ws.len() - i,
{
    if 0 <= i < ws.len() && starts_with_char(ws[i], '-') {
        lemma_first_non_flag_from(ws, i + 1, bound);
    }
}

pub proof fn lemma_first_non_flag_len(s: Seq<char>)
    ensures
        spec_first_non_flag(s).len() <= s.len(),
{
    lemma_words_len(s, 0);
    lemma_first_non_flag_from(words(s), 0, s.len() as int);
}

pub fn first_non_flag_in(ws: &[Vec<char>], i: usize) -> (r: Vec<char>)
    ensures
        r@ == first_non_flag_from(vv(ws@), i as int),
{
    let mut k = i;
    while k < ws.len()
        invariant
            i <= k,
            first_non_flag_from(vv(ws@), k as int) == first_non_flag_from(vv(ws@), i as int),
        decreases ws.len() - k,
    {
        if !starts_with_ch(ws[k].as_slice(), '-') {
            return copy_range(ws[k].as_slice(), 0, ws[k].len());
        }
        k += 1;
    }
    Vec::new()
}

pub fn first_non_flag(s: &[char]) -> (r: Vec<char>)
    ensures
        r@ == spec_first_non_flag(s@),
{
    let ws = words_exec(s);
    first_non_flag_in(ws.as_slice(), 0)
}

/// What follows the first token, trimmed.
pub open spec fn spec_rest_after_first_token(s: Seq<char>) -> Seq<char> {
    let t = trim(s);
    trim(t.skip(skip_word(t, 0)))
}

pub proof fn lemma_rest_after_first_token_len(s: Seq<char>)
    requires
        s.len() > 0,
    ensures
        spec_rest_after_first_token(s).len() < s.len(),
{
    lemma_trim_len(s);
    let t = trim(s);
    lemma_skip_word(t, 0);
    lemma_trim_len(t.skip(skip_word(t, 0)));
    if t.len() > 0 {
        assert(skip_word(t, 0) == skip_word(t, 1));
        lemma_skip_word(t, 1);
    }
}

pub fn rest_after_first_token(s: &[char]) -> (r: Vec<char>)
    ensures
        r@ == spec_rest_after_first_token(s@),
{
    let t = trim_exec(s);
    let pos = skip_word_exec(t.as_slice(), 0);
    let after = copy_range(t.as_slice(), pos, t.len());
    trim_exec(after.as_slice())
}

/// The first token and what follows it (`None` when only whitespace is left).
pub open spec fn spec_next_token(s: Seq<char>) -> Option<(Seq<char>, Seq<char>)> {
    let t = trim_start(s);
    if t.len() == 0 {
        None
    } else {
        let e = skip_word(t, 0);
        Some((t.take(e), trim_start(t.skip(e))))
    }
}

pub proof fn lemma_next_token(s: Seq<char>)
    ensures
        spec_next_token(s) matches Some((tok, rem)) ==> rem.len() < s.len() && tok.len() > 0,
{
    lemma_trim_len(s);
    let t = trim_start(s);
    if t.len() > 0 {
        assert(skip_word(t, 0) == skip_word(t, 1));
        lemma_skip_word(t, 1);
        lemma_trim_len(t.skip(skip_word(t, 0)));
    }
}

pub fn next_token(s: &[char]) -> (r: Option<(Vec<char>, Vec<char>)>)
    ensures
        match r {
            None => spec_next_token(s@) is None,
            Some((a, b)) => spec_next_token(s@) == Some((a@, b@)),
        },
{
    let t = trim_start_exec(s);
    if t.len() == 0 {
        return None;
    }
    let e = skip_word_exec(t.as_slice(), 0);
    let head = copy_range(t.as_slice(), 0, e);
    let after = copy_range(t.as_slice(), e, t.len());
    let rem = trim_start_exec(after.as_slice());
    Some((head, rem))
}

/// Drops leading `-C <dir>`, `--filter <pat>`, `--workspace-root` and `-w`.
pub open spec fn spec_strip_npm_workspace_flags(rest: Seq<char>) -> Seq<char>
    decreases rest.len(),
{
    match spec_next_token(rest) {
        None => rest,
        Some((token, remainder)) => {
            if token == "-C"@ || token == "--filter"@ {
                let after_arg = match spec_next_token(remainder) {
                    Some((_, a)) => a,
                    None => remainder,
                };
                proof {
                    lemma_next_token(rest);
                    lemma_next_token(remainder);
                }
                spec_strip_npm_workspace_flags(after_arg)
            } else if token == "--workspace-root"@ || token == "-w"@ {
                proof {
                    lemma_next_token(rest);
                }
                spec_strip_npm_workspace_flags(remainder)
            } else {
                rest
            }
        },
    }
}

pub proof fn lemma_strip_npm_len(rest: Seq<char>)
    ensures
        spec_strip_npm_workspace_flags(rest).len() <= rest.len(),
    decreases rest.len(),
{
    lemma_next_token(rest);
    match spec_next_token(rest) {
        None => {},
        Some((token, remainder)) => {
            lemma_next_token(remainder);
            if token == "-C"@ || token == "--filter"@ {
                let after_arg = match spec_next_token(remainder) {
                    Some((_, a)) => a,
                    None => remainder,
                };
                lemma_strip_npm_len(after_arg);
            } else if token == "--workspace-root"@ || token == "-w"@ {
                lemma_strip_npm_len(remainder);
            }
        },
    }
}

pub fn strip_npm_workspace_flags(rest0: &[char]) -> (r: Vec<char>)
    ensures
        r@ == spec_strip_npm_workspace_flags(rest0@),
{
    let mut rest = copy_range(rest0, 0, rest0.len());
    assert(rest0@.subrange(0, rest0@.len() as int) == rest0@);
    loop
        invariant
            spec_strip_npm_workspace_flags(rest@) == spec_strip_npm_workspace_flags(rest0@),
        decreases rest@.len(),
    {
        proof {
            lemma_next_token(rest@);
        }
        let (token, remainder) = match next_token(rest.as_slice()) {
            Some(t) => t,
            None => return rest,
        };
        proof {
            lemma_next_token(remainder@);
        }
        if eq_lit(token.as_slice(), "-C") || eq_lit(token.as_slice(), "--filter") {
            let after_arg = match next_token(remainder.as_slice()) {
                Some((_, a)) => a,
                None => remainder,
            };
            rest = after_arg;
        } else if eq_lit(token.as_slice(), "--workspace-root") || eq_lit(token.as_slice(), "-w") {
            rest = remainder;
        } else {
            return rest;
        }
    }
}

// ───────────────────────── fixed tables ─────────────────────────

pub open spec fn spec_classify_nx(sub: Seq<char>) -> Seq<char> {
    if sub == "typecheck"@ || sub == "type-check"@ {
        "Type checking"@
    } else if sub == "lint"@ {
        "Linting"@
    } else if sub == "test"@ {
        "Running tests"@
    } else if sub == "build"@ {
        "Building"@
    } else if sub == "serve"@ || sub == "dev"@ {
        "Starting dev server"@
    } else {
        "Running: "@ + truncate(sub, 24)
    }
}

pub fn classify_nx(sub: &[char]) -> (r: Vec<char>)
    ensures
        r@ == spec_classify_nx(sub@),
{
    if eq_lit(sub, "typecheck") || eq_lit(sub, "type-check") {
        chars_of("Type checking")
    } else if eq_lit(sub, "lint") {
        chars_of("Linting")
    } else if eq_lit(sub, "test") {
        chars_of("Running tests")
    } else if eq_lit(sub, "build") {
        chars_of("Building")
    } else if eq_lit(sub, "serve") || eq_lit(sub, "dev") {
        chars_of("Starting dev server")
    } else {
        let t = truncate_exec(sub, 24);
        lit_then("Running: ", t.as_slice())
    }
}

pub open spec fn spec_classify_cargo(sub: Seq<char>) -> Seq<char> {
    if sub == "test"@ {
        "Running tests"@
    } else if sub == "build"@ || sub == "b"@ {
        "Building with Cargo"@
    } else if sub == "run"@ || sub == "r"@ {
        "Running Rust binary"@
    } else if sub == "check"@ || sub == "c"@ {
        "Checking Rust code"@
    } else if sub == "clippy"@ {
        "Linting Rust code"@
    } else if sub == "fmt"@ {
        "Formatting Rust code"@
    } else if sub == "doc"@ {
        "Generating docs"@
    } else if sub == "publish"@ {
        "Publishing crate"@
    } else if sub == "install"@ {
        "Installing Rust binary"@
    } else if sub == "bench"@ {
        "Running benchmarks"@
    } else {
        "Running Cargo"@
    }
}

pub fn classify_cargo(sub: &[char]) -> (r: Vec<char>)
    ensures
        r@ == spec_classify_cargo(sub@),
{
    if eq_lit(sub, "test") {
        chars_of("Running tests")
    } else if eq_lit(sub, "build") || eq_lit(sub, "b") {
        chars_of("Building with Cargo")
    } else if eq_lit(sub, "run") || eq_lit(sub, "r") {
        chars_of("Running Rust binary")
    } else if eq_lit(sub, "check") || eq_lit(sub, "c") {
        chars_of("Checking Rust code")
    } else if eq_lit(sub, "clippy") {
        chars_of("Linting Rust code")
    } else if eq_lit(sub, "fmt") {
        chars_of("Formatting Rust code")
    } else if eq_lit(sub, "doc") {
        chars_of("Generating docs")
    } else if eq_lit(sub, "publish") {
        chars_of("Publishing crate")
    } else if eq_lit(sub, "install") {
        chars_of("Installing Rust binary")
    } else if eq_lit(sub, "bench") {
        chars_of("Running benchmarks")
    } else {
        chars_of("Running Cargo")
    }
}

pub open spec fn spec_classify_go(sub: Seq<char>) -> Seq<char> {
    if sub == "test"@ {
        "Running Go tests"@
    } else if sub == "build"@ {
        "Building Go binary"@
    } else if sub == "run"@ {
        "Running Go program"@
    } else if sub == "fmt"@ {
        "Formatting Go code"@
    } else if sub == "vet"@ {
        "Checking Go code"@
    } else if sub == "get"@ || sub == "install"@ {
        "Installing Go package"@
    } else if sub == "mod"@ {
        "Managing Go modules"@
    } else {
        "Running Go"@
    }
}

pub fn classify_go(sub: &[char]) -> (r: Vec<char>)
    ensures
        r@ == spec_classify_go(sub@),
{
    if eq_lit(sub, "test") {
        chars_of("Running Go tests")
    } else if eq_lit(sub, "build") {
        chars_of("Building Go binary")
    } else if eq_lit(sub, "run") {
        chars_of("Running Go program")
    } else if eq_lit(sub, "fmt") {
        chars_of("Formatting Go code")
    } else if eq_lit(sub, "vet") {
        chars_of("Checking Go code")
    } else if eq_lit(sub, "get") || eq_lit(sub, "install") {
        chars_of("Installing Go package")
    } else if eq_lit(sub, "mod") {
        chars_of("Managing Go modules")
    } else {
        chars_of("Running Go")
    }
}

pub open spec fn spec_classify_dotnet(sub: Seq<char>) -> Seq<char> {
    if sub == "test"@ {
        "Running tests"@
    } else if sub == "build"@ {
        "Building .NET"@
    } else if sub == "run"@ {
        "Running .NET app"@
    } else if sub == "publish"@ {
        "Publishing .NET"@
    } else if sub == "restore"@ {
        "Restoring packages"@
    } else if sub == "format"@ {
        "Formatting .NET code"@
    } else {
        "Running dotnet"@
    }
}

pub fn classify_dotnet(sub: &[char]) -> (r: Vec<char>)
    ensures
        r@ == spec_classify_dotnet(sub@),
{
    if eq_lit(sub, "test") {
        chars_of("Running tests")
    } else if eq_lit(sub, "build") {
        chars_of("Building .NET")
    } else if eq_lit(sub, "run") {
        chars_of("Running .NET app")
    } else if eq_lit(sub, "publish") {
        chars_of("Publishing .NET")
    } else if eq_lit(sub, "restore") {
        chars_of("Restoring packages")
    } else if eq_lit(sub, "format") {
        chars_of("Formatting .NET code")
    } else {
        chars_of("Running dotnet")
    }
}

pub open spec fn spec_classify_pip(rest: Seq<char>) -> Seq<char> {
    let sub = spec_first_non_flag(rest);
    if sub == "install"@ {
        "Installing dependencies"@
    } else if sub == "uninstall"@ {
        "Removing package"@
    } else if sub == "freeze"@ || sub == "list"@ {
        "Listing packages"@
    } else if sub == "show"@ {
        "Checking package info"@
    } else {
        "Running pip"@
    }
}

pub fn classify_pip(rest: &[char]) -> (r: Vec<char>)
    ensures
        r@ == spec_classify_pip(rest@),
{
    let sub = first_non_flag(rest);
    let sub = sub.as_slice();
    if eq_lit(sub, "install") {
        chars_of("Installing dependencies")
    } else if eq_lit(sub, "uninstall") {
        chars_of("Removing package")
    } else if eq_lit(sub, "freeze") || eq_lit(sub, "list") {
        chars_of("Listing packages")
    } else if eq_lit(sub, "show") {
        chars_of("Checking package info")
    } else {
        chars_of("Running pip")
    }
}

pub open spec fn spec_classify_docker(sub: Seq<char>) -> Seq<char> {
    if sub == "build"@ {
        "Building Docker image"@
    } else if sub == "run"@ {
        "Running container"@
    } else if sub == "ps"@ {
        "Listing containers"@
    } else if sub == "pull"@ {
        "Pulling image"@
    } else if sub == "push"@ {
        "Pushing image"@
    } else if sub == "exec"@ {
        "Running in container"@
    } else if sub == "logs"@ {
        "Reading container logs"@
    } else if sub == "compose"@ {
        "Docker Compose operation"@
    } else if sub == "stop"@ || sub == "kill"@ || sub == "rm"@ || sub == "rmi"@ {
        "Managing containers"@
    } else {
        "Docker operation"@
    }
}

pub fn classify_docker(sub: &[char]) -> (r: Vec<char>)
    ensures
        r@ == spec_classify_docker(sub@),
{
    if eq_lit(sub, "build") {
        chars_of("Building Docker image")
    } else if eq_lit(sub, "run") {
        chars_of("Running container")
    } else if eq_lit(sub, "ps") {
        chars_of("Listing containers")
    } else if eq_lit(sub, "pull") {
        chars_of("Pulling image")
    } else if eq_lit(sub, "push") {
        chars_of("Pushing image")
    } else if eq_lit(sub, "exec") {
        chars_of("Running in container")
    } else if eq_lit(sub, "logs") {
        chars_of("Reading container logs")
    } else if eq_lit(sub, "compose") {
        chars_of("Docker Compose operation")
    } else if eq_lit(sub, "stop") || eq_lit(sub, "kill") || eq_lit(sub, "rm") || eq_lit(sub, "rmi") {
        chars_of("Managing containers")
    } else {
        chars_of("Docker operation")
    }
}

/// The word at position `i`, or the empty word.
pub open spec fn word_or_empty(ws: Seq<Seq<char>>, i: int) -> Seq<char> {
    if 0 <= i < ws.len() {
        ws[i]
    } else {
        seq![]
    }
}

pub fn word_at(ws: &[Vec<char>], i: usize) -> (r: Vec<char>)
    ensures
        r@ == word_or_empty(vv(ws@), i as int),
{
    if i < ws.len() {
        copy_range(ws[i].as_slice(), 0, ws[i].len())
    } else {
        Vec::new()
    }
}

pub open spec fn spec_classify_python(rest: Seq<char>) -> Seq<char> {
    let ws = words(rest);
    let arg1 = word_or_empty(ws, 0);
    let arg2 = word_or_empty(ws, 1);
    if arg1 == "-m"@ {
        if arg2 == "pytest"@ || arg2 == "unittest"@ || arg2 == "nose"@ || arg2 == "nose2"@ {
            "Running Python tests"@
        } else if arg2 == "pip"@ {
            spec_classify_pip(word_or_empty(ws, 2))
        } else if arg2 == "http.server"@ || arg2 == "SimpleHTTPServer"@ {
            "Starting HTTP server"@
        } else if arg2 == "black"@ || arg2 == "ruff"@ {
            "Formatting Python"@
        } else if arg2 == "mypy"@ || arg2 == "pyright"@ {
            "Type checking"@
        } else {
            "Running: "@ + truncate(arg2, 24)
        }
    } else if arg1 == "-c"@ {
        "Running inline script"@
    } else if ends_with(arg1, ".py"@) {
        "Running: "@ + spec_basename(arg1)
    } else {
        "Running Python"@
    }
}

pub fn classify_python(rest: &[char]) -> (r: Vec<char>)
    ensures
        r@ == spec_classify_python(rest@),
{
    let ws = words_exec(rest);
    let arg1 = word_at(ws.as_slice(), 0);
    let arg2 = word_at(ws.as_slice(), 1);
    let a1 = arg1.as_slice();
    let a2 = arg2.as_slice();
    if eq_lit(a1, "-m") {
        if eq_lit(a2, "pytest") || eq_lit(a2, "unittest") || eq_lit(a2, "nose") || eq_lit(a2, "nose2") {
            chars_of("Running Python tests")
        } else if eq_lit(a2, "pip") {
            let arg3 = word_at(ws.as_slice(), 2);
            classify_pip(arg3.as_slice())
        } else if eq_lit(a2, "http.server") || eq_lit(a2, "SimpleHTTPServer") {
            chars_of("Starting HTTP server")
        } else if eq_lit(a2, "black") || eq_lit(a2, "ruff") {
            chars_of("Formatting Python")
        } else if eq_lit(a2, "mypy") || eq_lit(a2, "pyright") {
            chars_of("Type checking")
        } else {
            let t = truncate_exec(a2, 24);
            lit_then("Running: ", t.as_slice())
        }
    } else if eq_lit(a1, "-c") {
        chars_of("Running inline script")
    } else if ends_with_lit(a1, ".py") {
        let b = basename(a1);
        lit_then("Running: ", b.as_slice())
    } else {
        chars_of("Running Python")
    }
}

pub open spec fn spec_classify_node(rest: Seq<char>) -> Seq<char> {
    let arg = spec_first_non_flag(rest);
    if ends_with(arg, ".js"@) || ends_with(arg, ".ts"@) || ends_with(arg, ".mjs"@) || ends_with(
        arg,
        ".cjs"@,
    ) {
        "Running: "@ + spec_basename(arg)
    } else if arg == "-e"@ || arg == "--eval"@ {
        "Running inline script"@
    } else {
        "Running Node"@
    }
}

pub fn classify_node(rest: &[char]) -> (r: Vec<char>)
    ensures
        r@ == spec_classify_node(rest@),
{
    let arg = first_non_flag(rest);
    let a = arg.as_slice();
    if ends_with_lit(a, ".js") || ends_with_lit(a, ".ts") || ends_with_lit(a, ".mjs")
        || ends_with_lit(a, ".cjs") {
        let b = basename(a);
        lit_then("Running: ", b.as_slice())
    } else if eq_lit(a, "-e") || eq_lit(a, "--eval") {
        chars_of("Running inline script")
    } else {
        chars_of("Running Node")
    }
}

pub open spec fn spec_classify_script(rest: Seq<char>) -> Seq<char> {
    let arg = spec_first_non_flag(rest);
    if ends_with(arg, ".sh"@) {
        "Running script: "@ + spec_basename(arg)
    } else if ends_with(arg, ".ps1"@) {
        "Running script: "@ + spec_basename(arg)
    } else if ends_with(arg, ".py"@) {
        "Running: "@ + spec_basename(arg)
    } else if arg == "-c"@ || arg == "-Command"@ || arg == "-command"@ {
        "Running command"@
    } else {
        "Running script"@
    }
}

pub fn classify_script(rest: &[char]) -> (r: Vec<char>)
    ensures
        r@ == spec_classify_script(rest@),
{
    let arg = first_non_flag(rest);
    let a = arg.as_slice();
    if ends_with_lit(a, ".sh") {
        let b = basename(a);
        lit_then("Running script: ", b.as_slice())
    } else if ends_with_lit(a, ".ps1") {
        let b = basename(a);
        lit_then("Running script: ", b.as_slice())
    } else if ends_with_lit(a, ".py") {
        let b = basename(a);
        lit_then("Running: ", b.as_slice())
    } else if eq_lit(a, "-c") || eq_lit(a, "-Command") || eq_lit(a, "-command") {
        chars_of("Running command")
    } else {
        chars_of("Running script")
    }
}

// ───────────────────────── token scans ─────────────────────────

/// Some word equals `lit` ignoring ASCII case.
pub open spec fn any_eq_ic(ws: Seq<Seq<char>>, lit: Seq<char>) -> bool {
    exists|k: int| 0 <= k < ws.len() && eq_ic(#[trigger] ws[k], lit)
}

/// Some word equals `lit`.
pub open spec fn any_eq(ws: Seq<Seq<char>>, lit: Seq<char>) -> bool {
    exists|k: int| 0 <= k < ws.len() && #[trigger] ws[k] == lit
}

pub fn any_eq_ic_exec(ws: &[Vec<char>], lit: &str) -> (r: bool)
    ensures
        r == any_eq_ic(vv(ws@), lit@),
{
    let mut k: usize = 0;
    while k < ws.len()
        invariant
            k <= ws@.len(),
            forall|j: int| 0 <= j < k ==> !eq_ic(#[trigger] vv(ws@)[j], lit@),
        decreases ws.len() - k,
    {
        if eq_ignore_case_lit(ws[k].as_slice(), lit) {
            assert(eq_ic(vv(ws@)[k as int], lit@));
            return true;
        }
        k += 1;
    }
    false
}

pub fn any_eq_exec(ws: &[Vec<char>], lit: &str) -> (r: bool)
    ensures
        r == any_eq(vv(ws@), lit@),
{
    let mut k: usize = 0;
    while k < ws.len()
        invariant
            k <= ws@.len(),
            forall|j: int| 0 <= j < k ==> #[trigger] vv(ws@)[j] != lit@,
        decreases ws.len() - k,
    {
        if eq_lit(ws[k].as_slice(), lit) {
            assert(vv(ws@)[k as int] == lit@);
            return true;
        }
        k += 1;
    }
    false
}

/// Scanning from the end, the last word before `j` that looks like a path
/// and (when `no_flag`) does not start with `-`.
pub open spec fn last_path_before(ts: Seq<Seq<char>>, j: int, no_flag: bool) -> Option<Seq<char>>
    decreases j,
{
    if j <= 0 || j > ts.len() {
        None
    } else if (!no_flag || !starts_with_char(ts[j - 1], '-')) && spec_looks_like_path(ts[j - 1]) {
        Some(ts[j - 1])
    } else {
        last_path_before(ts, j - 1, no_flag)
    }
}

pub fn last_path(ts: &[Vec<char>], no_flag: bool) -> (r: Option<Vec<char>>)
    ensures
        match r {
            Some(p) => last_path_before(vv(ts@), ts@.len() as int, no_flag) == Some(p@),
            None => last_path_before(vv(ts@), ts@.len() as int, no_flag) is None,
        },
{
    let mut j = ts.len();
    while j > 0
        invariant
            j <= ts@.len(),
            last_path_before(vv(ts@), j as int, no_flag) == last_path_before(vv(ts@), ts@.len() as int, no_flag),
        decreases j,
    {
        let t = ts[j - 1].as_slice();
        if (!no_flag || !starts_with_ch(t, '-')) && looks_like_path(t) {
            return Some(copy_range(t, 0, t.len()));
        }
        j -= 1;
    }
    None
}

// ───────────────────────── git ─────────────────────────

/// Scan for the blamed path: the first path-like word after `--`.
pub open spec fn blame_scan(ts: Seq<Seq<char>>, i: int, after_dashes: bool) -> Option<Seq<char>>
    decreases ts.len() - i,
{
    if i < 0 || i >= ts.len() {
        None
    } else if ts[i] == "--"@ {
        blame_scan(ts, i + 1, true)
    } else if after_dashes && !starts_with_char(ts[i], '-') && spec_looks_like_path(ts[i]) {
        Some(ts[i])
    } else {
        blame_scan(ts, i + 1, after_dashes)
    }
}

pub open spec fn spec_git_blame_path(sub: Seq<char>) -> Option<Seq<char>> {
    let ts = words(sub);
    match blame_scan(ts, 1, false) {
        Some(p) => Some(p),
        None => last_path_before(ts, ts.len() as int, true),
    }
}

pub fn git_blame_path(sub: &[char]) -> (r: Option<Vec<char>>)
    ensures
        match r {
            Some(p) => spec_git_blame_path(sub@) == Some(p@),
            None => spec_git_blame_path(sub@) is None,
        },
{
    let ts = words_exec(sub);
    let mut after_dashes = false;
    let mut i: usize = 1;
    while i < ts.len()
        invariant
            1 <= i,
            vv(ts@) == words(sub@),
            blame_scan(vv(ts@), i as int, after_dashes) == blame_scan(vv(ts@), 1, false),
        decreases ts.len() - i,
    {
        let t = ts[i].as_slice();
        if eq_lit(t, "--") {
            after_dashes = true;
        } else if after_dashes && !starts_with_ch(t, '-') && looks_like_path(t) {
            return Some(copy_range(t, 0, t.len()));
        }
        i += 1;
    }
    last_path(ts.as_slice(), true)
}

/// First word at or after `j` that does not start with `-` and is nonempty.
pub open spec fn first_plain_from(ts: Seq<Seq<char>>, j: int) -> Option<Seq<char>>
    decreases ts.len() - j,
{
    if j < 0 || j >= ts.len() {
        None
    } else if !starts_with_char(ts[j], '-') && ts[j].len() > 0 {
        Some(ts[j])
    } else {
        first_plain_from(ts, j + 1)
    }
}

pub open spec fn is_delete_flag(t: Seq<char>) -> bool {
    t == "-d"@ || t == "-D"@
}

pub open spec fn branch_after_delete(ts: Seq<Seq<char>>, i: int) -> Option<Seq<char>>
    decreases ts.len() - i,
{
    if i < 0 || i >= ts.len() {
        None
    } else if is_delete_flag(ts[i]) {
        match first_plain_from(ts, i + 1) {
            Some(x) => Some(x),
            None => branch_after_delete(ts, i + 1),
        }
    } else {
        branch_after_delete(ts, i + 1)
    }
}

/// Scanning from the end, the last word before `j` that is neither a flag nor `branch`.
pub open spec fn last_branch_word(ts: Seq<Seq<char>>, j: int) -> Option<Seq<char>>
    decreases j,
{
    if j <= 0 || j > ts.len() {
        None
    } else if !starts_with_char(ts[j - 1], '-') && ts[j - 1] != "branch"@ {
        Some(ts[j - 1])
    } else {
        last_branch_word(ts, j - 1)
    }
}

pub open spec fn spec_git_branch_name_after_delete_flag(rest: Seq<char>) -> Option<Seq<char>> {
    let ts = words(rest);
    match branch_after_delete(ts, 0) {
        Some(x) => Some(x),
        None => last_branch_word(ts, ts.len() as int),
    }
}

fn first_plain(ts: &[Vec<char>], j0: usize) -> (r: Option<Vec<char>>)
    ensures
        match r {
            Some(p) => first_plain_from(vv(ts@), j0 as int) == Some(p@),
            None => first_plain_from(vv(ts@), j0 as int) is None,
        },
{
    let mut j = j0;
    while j < ts.len()
        invariant
            j0 <= j,
            first_plain_from(vv(ts@), j as int) == first_plain_from(vv(ts@), j0 as int),
        decreases ts.len() - j,
    {
        let t = ts[j].as_slice();
        if !starts_with_ch(t, '-') && t.len() > 0 {
            return Some(copy_range(t, 0, t.len()));
        }
        j += 1;
    }
    None
}

pub fn git_branch_name_after_delete_flag(rest: &[char]) -> (r: Option<Vec<char>>)
    ensures
        match r {
            Some(p) => spec_git_branch_name_after_delete_flag(rest@) == Some(p@),
            None => spec_git_branch_name_after_delete_flag(rest@) is None,
        },
{
    let ts = words_exec(rest);
    let mut i: usize = 0;
    while i < ts.len()
        invariant
            vv(ts@) == words(rest@),
            branch_after_delete(vv(ts@), i as int) == branch_after_delete(vv(ts@), 0),
        decreases ts.len() - i,
    {
        let t = ts[i].as_slice();
        if eq_lit(t, "-d") || eq_lit(t, "-D") {
            match first_plain(ts.as_slice(), i + 1) {
                Some(x) => return Some(x),
                None => {},
            }
        }
        i += 1;
    }
    let mut j = ts.len();
    while j > 0
        invariant
            j <= ts@.len(),
            vv(ts@) == words(rest@),
            branch_after_delete(vv(ts@), 0) is None,
            last_branch_word(vv(ts@), j as int) == last_branch_word(vv(ts@), ts@.len() as int),
        decreases j,
    {
        let t = ts[j - 1].as_slice();
        if !starts_with_ch(t, '-') && !eq_lit(t, "branch") {
            return Some(copy_range(t, 0, t.len()));
        }
        j -= 1;
    }
    None
}

pub open spec fn spec_classify_git_branch(rest: Seq<char>) -> Seq<char> {
    let ts = words(rest);
    if any_eq(ts, "-d"@) || any_eq(ts, "-D"@) {
        match spec_git_branch_name_after_delete_flag(rest) {
            Some(name) => "Deleting branch "@ + truncate(name, 40),
            None => "Deleting branch"@,
        }
    } else if any_eq(ts, "-f"@) || any_eq(ts, "-M"@) || any_eq(ts, "-m"@) {
        "Updating branch"@
    } else {
        "Listing branches"@
    }
}

pub fn classify_git_branch(rest: &[char]) -> (r: Vec<char>)
    ensures
        r@ == spec_classify_git_branch(rest@),
{
    let ts = words_exec(rest);
    if any_eq_exec(ts.as_slice(), "-d") || any_eq_exec(ts.as_slice(), "-D") {
        match git_branch_name_after_delete_flag(rest) {
            Some(name) => {
                let t = truncate_exec(name.as_slice(), 40);
                lit_then("Deleting branch ", t.as_slice())
            },
            None => chars_of("Deleting branch"),
        }
    } else if any_eq_exec(ts.as_slice(), "-f") || any_eq_exec(ts.as_slice(), "-M") || any_eq_exec(
        ts.as_slice(),
        "-m",
    ) {
        chars_of("Updating branch")
    } else {
        chars_of("Listing branches")
    }
}

pub open spec fn spec_classify_git(sub: Seq<char>) -> Seq<char> {
    let lc = lower_seq(sub);
    let ws = words(sub);
    if starts_with(lc, "log"@) && any_eq_ic(ws, "-s"@) {
        "Searching git history"@
    } else if starts_with(lc, "blame"@) && any_eq_ic(ws, "-l"@) {
        match spec_git_blame_path(sub) {
            Some(path) => "Blaming lines in "@ + spec_basename(path),
            None => "Blaming lines"@,
        }
    } else {
        let verb = spec_first_non_flag(sub);
        if verb == "status"@ || verb == "diff"@ || verb == "log"@ || verb == "show"@ || verb
            == "blame"@ || verb == "shortlog"@ {
            "Checking git state"@
        } else if verb == "branch"@ {
            spec_classify_git_branch(sub)
        } else if verb == "add"@ || verb == "commit"@ {
            "Committing changes"@
        } else if verb == "push"@ {
            "Pushing to remote"@
        } else if verb == "pull"@ || verb == "fetch"@ {
            "Fetching from remote"@
        } else if verb == "clone"@ {
            "Cloning repository"@
        } else if verb == "checkout"@ || verb == "switch"@ {
            "Switching branch"@
        } else if verb == "merge"@ || verb == "rebase"@ || verb == "cherry-pick"@ {
            "Merging branches"@
        } else if verb == "stash"@ {
            "Stashing changes"@
        } else if verb == "reset"@ || verb == "revert"@ {
            "Undoing changes"@
        } else if verb == "tag"@ {
            "Tagging commit"@
        } else if verb == "remote"@ {
            "Managing remotes"@
        } else {
            "Git operation"@
        }
    }
}

pub fn classify_git(sub: &[char]) -> (r: Vec<char>)
    ensures
        r@ == spec_classify_git(sub@),
{
    let lc = lower_all(sub);
    let ws = words_exec(sub);
    if starts_with_lit(lc.as_slice(), "log") && any_eq_ic_exec(ws.as_slice(), "-s") {
        return chars_of("Searching git history");
    }
    if starts_with_lit(lc.as_slice(), "blame") && any_eq_ic_exec(ws.as_slice(), "-l") {
        return match git_blame_path(sub) {
            Some(path) => {
                let b = basename(path.as_slice());
                lit_then("Blaming lines in ", b.as_slice())
            },
            None => chars_of("Blaming lines"),
        };
    }
    let verb = first_non_flag(sub);
    let v = verb.as_slice();
    if eq_lit(v, "status") || eq_lit(v, "diff") || eq_lit(v, "log") || eq_lit(v, "show") || eq_lit(
        v,
        "blame",
    ) || eq_lit(v, "shortlog") {
        chars_of("Checking git state")
    } else if eq_lit(v, "branch") {
        classify_git_branch(sub)
    } else if eq_lit(v, "add") || eq_lit(v, "commit") {
        chars_of("Committing changes")
    } else if eq_lit(v, "push") {
        chars_of("Pushing to remote")
    } else if eq_lit(v, "pull") || eq_lit(v, "fetch") {
        chars_of("Fetching from remote")
    } else if eq_lit(v, "clone") {
        chars_of("Cloning repository")
    } else if eq_lit(v, "checkout") || eq_lit(v, "switch") {
        chars_of("Switching branch")
    } else if eq_lit(v, "merge") || eq_lit(v, "rebase") || eq_lit(v, "cherry-pick") {
        chars_of("Merging branches")
    } else if eq_lit(v, "stash") {
        chars_of("Stashing changes")
    } else if eq_lit(v, "reset") || eq_lit(v, "revert") {
        chars_of("Undoing changes")
    } else if eq_lit(v, "tag") {
        chars_of("Tagging commit")
    } else if eq_lit(v, "remote") {
        chars_of("Managing remotes")
    } else {
        chars_of("Git operation")
    }
}

/// A text that opens with a word character other than `-` has that word as
/// its first non-flag word, so the word starts with the text's first character.
pub proof fn lemma_first_non_flag_opens_text(s: Seq<char>)
    requires
        s.len() > 0,
        !is_ws(s[0]),
        s[0] != '-',
    ensures
        spec_first_non_flag(s).len() > 0,
        spec_first_non_flag(s)[0] == s[0],
        spec_first_non_flag(s) == s.take(spec_first_non_flag(s).len() as int),
{
    assert(skip_ws(s, 0) == 0);
    lemma_skip_word(s, 1);
    let b = skip_word(s, 0);
    assert(b == skip_word(s, 1));
    assert(1 <= b <= s.len());
    let ws = words(s);
    assert(ws == seq![s.subrange(0, b)] + words_from(s, b));
    assert(ws[0] == s.subrange(0, b));
    assert(ws[0][0] == s[0]);
    assert(first_non_flag_from(ws, 0) == ws[0]);
}

/// The label of a git subcommand follows its first non-flag word: `push` is
/// a push, `pull` / `fetch` a fetch, `add` / `commit` a commit, and so on
/// through the table; `log -S` and `blame -L` searches are the only
/// exceptions, and neither starts with one of these words. A `log` with `-S`
/// (any case) is a history search; `branch` deletes with `-d` / `-D`,
/// updates with `-f` / `-M` / `-m`, and otherwise lists.
pub proof fn lemma_git_label_by_verb(sub: Seq<char>)
    ensures
        spec_first_non_flag(sub) == "push"@ ==> spec_classify_git(sub) == "Pushing to remote"@,
        spec_first_non_flag(sub) == "pull"@ ==> spec_classify_git(sub) == "Fetching from remote"@,
        spec_first_non_flag(sub) == "fetch"@ ==> spec_classify_git(sub) == "Fetching from remote"@,
        spec_first_non_flag(sub) == "add"@ ==> spec_classify_git(sub) == "Committing changes"@,
        spec_first_non_flag(sub) == "commit"@ ==> spec_classify_git(sub) == "Committing changes"@,
        spec_first_non_flag(sub) == "clone"@ ==> spec_classify_git(sub) == "Cloning repository"@,
        spec_first_non_flag(sub) == "checkout"@ ==> spec_classify_git(sub) == "Switching branch"@,
        spec_first_non_flag(sub) == "switch"@ ==> spec_classify_git(sub) == "Switching branch"@,
        spec_first_non_flag(sub) == "merge"@ ==> spec_classify_git(sub) == "Merging branches"@,
        spec_first_non_flag(sub) == "rebase"@ ==> spec_classify_git(sub) == "Merging branches"@,
        spec_first_non_flag(sub) == "cherry-pick"@ ==> spec_classify_git(sub) == "Merging branches"@,
        spec_first_non_flag(sub) == "stash"@ ==> spec_classify_git(sub) == "Stashing changes"@,
        spec_first_non_flag(sub) == "reset"@ ==> spec_classify_git(sub) == "Undoing changes"@,
        spec_first_non_flag(sub) == "revert"@ ==> spec_classify_git(sub) == "Undoing changes"@,
        spec_first_non_flag(sub) == "tag"@ ==> spec_classify_git(sub) == "Tagging commit"@,
        spec_first_non_flag(sub) == "remote"@ ==> spec_classify_git(sub) == "Managing remotes"@,
        spec_first_non_flag(sub) == "status"@ ==> spec_classify_git(sub) == "Checking git state"@,
        spec_first_non_flag(sub) == "diff"@ ==> spec_classify_git(sub) == "Checking git state"@,
        spec_first_non_flag(sub) == "show"@ ==> spec_classify_git(sub) == "Checking git state"@,
        starts_with(lower_seq(sub), "log"@) && any_eq_ic(words(sub), "-s"@) ==> spec_classify_git(sub)
            == "Searching git history"@,
        spec_first_non_flag(sub) == "branch"@ && (any_eq(words(sub), "-d"@) || any_eq(words(sub), "-D"@))
            ==> starts_with(spec_classify_git(sub), "Deleting branch"@),
        spec_first_non_flag(sub) == "branch"@ && !any_eq(words(sub), "-d"@) && !any_eq(words(sub), "-D"@)
            && (any_eq(words(sub), "-f"@) || any_eq(words(sub), "-M"@) || any_eq(words(sub), "-m"@))
            ==> spec_classify_git(sub) == "Updating branch"@,
        spec_first_non_flag(sub) == "branch"@ && !any_eq(words(sub), "-d"@) && !any_eq(words(sub), "-D"@)
            && !any_eq(words(sub), "-f"@) && !any_eq(words(sub), "-M"@) && !any_eq(words(sub), "-m"@)
            ==> spec_classify_git(sub) == "Listing branches"@,
{
    reveal_strlit("log");
    reveal_strlit("blame");
    reveal_strlit("status");
    reveal_strlit("diff");
    reveal_strlit("show");
    reveal_strlit("shortlog");
    reveal_strlit("branch");
    reveal_strlit("add");
    reveal_strlit("commit");
    reveal_strlit("push");
    reveal_strlit("pull");
    reveal_strlit("fetch");
    reveal_strlit("clone");
    reveal_strlit("checkout");
    reveal_strlit("switch");
    reveal_strlit("merge");
    reveal_strlit("rebase");
    reveal_strlit("cherry-pick");
    reveal_strlit("stash");
    reveal_strlit("reset");
    reveal_strlit("revert");
    reveal_strlit("tag");
    reveal_strlit("remote");
    let verb = spec_first_non_flag(sub);
    let lc = lower_seq(sub);
    // A text that starts with `log` or `blame` (any case) has a first word
    // starting with `l` / `L` or `b` / `B`.
    if starts_with(lc, "log"@) || starts_with(lc, "blame"@) {
        let c = sub[0];
        assert(lc[0] == lower(c));
        if starts_with(lc, "log"@) {
            assert(lc.take(3)[0] == lc[0]);
        } else {
            assert(lc.take(5)[0] == lc[0]);
        }
        assert(lower(c) == 'l' || lower(c) == 'b');
        assert(!is_ws(c) && c != '-') by {
            if !is_upper(c) {
                assert(c == 'l' || c == 'b');
            }
        }
        lemma_first_non_flag_opens_text(sub);
        assert(lower(verb[0]) == 'l' || lower(verb[0]) == 'b');
        assert(verb != "branch"@) by {
            if verb == "branch"@ {
                assert(verb[0] == 'b');
                assert(sub.take(6)[1] == sub[1]);
                assert(lower(sub[1]) == 'r');
                assert(lc.take(5)[1] == lc[1]);
                assert(lc[1] == lower(sub[1]));
            }
        }
        assert(verb != "push"@ && verb != "pull"@) by {
            if verb == "push"@ || verb == "pull"@ {
                assert(verb[0] == 'p');
                assert(lower('p') == 'p');
            }
        }
    } else {
        if verb == "branch"@ {
            assert("branch"@[0] != "status"@[0]);
            assert("branch"@.len() != "diff"@.len());
            assert("branch"@.len() != "log"@.len());
            assert("branch"@.len() != "show"@.len());
            assert("branch"@.len() != "blame"@.len());
            assert("branch"@.len() != "shortlog"@.len());
            reveal_strlit("Deleting branch");
            reveal_strlit("Deleting branch ");
            let r = spec_classify_git(sub);
            if any_eq(words(sub), "-d"@) || any_eq(words(sub), "-D"@) {
                match spec_git_branch_name_after_delete_flag(sub) {
                    Some(name) => {
                        assert(r.take(15) =~= "Deleting branch"@);
                    },
                    None => {
                        assert(r.take(15) =~= "Deleting branch"@);
                    },
                }
            }
        }
        if verb == "push"@ {
            assert("push"@.len() != "status"@.len());
            assert("push"@[0] != "diff"@[0]);
            assert("push"@.len() != "log"@.len());
            assert("push"@[0] != "show"@[0]);
            assert("push"@.len() != "blame"@.len());
            assert("push"@.len() != "shortlog"@.len());
            assert("push"@.len() != "branch"@.len());
            assert("push"@.len() != "add"@.len());
            assert("push"@.len() != "commit"@.len());
        }
        if verb == "pull"@ {
            assert("pull"@.len() != "status"@.len());
            assert("pull"@[0] != "diff"@[0]);
            assert("pull"@.len() != "log"@.len());
            assert("pull"@[0] != "show"@[0]);
            assert("pull"@.len() != "blame"@.len());
            assert("pull"@.len() != "shortlog"@.len());
            assert("pull"@.len() != "branch"@.len());
            assert("pull"@.len() != "add"@.len());
            assert("pull"@.len() != "commit"@.len());
            assert("pull"@[2] != "push"@[2]);
        }
        if verb == "fetch"@ {
            assert("fetch"@.len() != "status"@.len());
            assert("fetch"@.len() != "diff"@.len());
            assert("fetch"@.len() != "log"@.len());
            assert("fetch"@.len() != "show"@.len());
            assert("fetch"@[0] != "blame"@[0]);
            assert("fetch"@.len() != "shortlog"@.len());
            assert("fetch"@.len() != "branch"@.len());
            assert("fetch"@.len() != "add"@.len());
            assert("fetch"@.len() != "commit"@.len());
            assert("fetch"@.len() != "push"@.len());
            assert("fetch"@.len() != "pull"@.len());
        }
        if verb == "add"@ {
            assert("add"@.len() != "status"@.len());
            assert("add"@.len() != "diff"@.len());
            assert("add"@[0] != "log"@[0]);
            assert("add"@.len() != "show"@.len());
            assert("add"@.len() != "blame"@.len());
            assert("add"@.len() != "shortlog"@.len());
            assert("add"@.len() != "branch"@.len());
        }
        if verb == "commit"@ {
            assert("commit"@[0] != "status"@[0]);
            assert("commit"@.len() != "diff"@.len());
            assert("commit"@.len() != "log"@.len());
            assert("commit"@.len() != "show"@.len());
            assert("commit"@.len() != "blame"@.len());
            assert("commit"@.len() != "shortlog"@.len());
            assert("commit"@[0] != "branch"@[0]);
            assert("commit"@.len() != "add"@.len());
        }
        if verb == "clone"@ {
            assert("clone"@.len() != "status"@.len());
            assert("clone"@.len() != "diff"@.len());
            assert("clone"@.len() != "log"@.len());
            assert("clone"@.len() != "show"@.len());
            assert("clone"@[0] != "blame"@[0]);
            assert("clone"@.len() != "shortlog"@.len());
            assert("clone"@.len() != "branch"@.len());
            assert("clone"@.len() != "add"@.len());
            assert("clone"@.len() != "commit"@.len());
            assert("clone"@.len() != "push"@.len());
            assert("clone"@.len() != "pull"@.len());
            assert("clone"@[0] != "fetch"@[0]);
        }
        if verb == "checkout"@ {
            assert("checkout"@.len() != "status"@.len());
            assert("checkout"@.len() != "diff"@.len());
            assert("checkout"@.len() != "log"@.len());
            assert("checkout"@.len() != "show"@.len());
            assert("checkout"@.len() != "blame"@.len());
            assert("checkout"@[0] != "shortlog"@[0]);
            assert("checkout"@.len() != "branch"@.len());
            assert("checkout"@.len() != "add"@.len());
            assert("checkout"@.len() != "commit"@.len());
            assert("checkout"@.len() != "push"@.len());
            assert("checkout"@.len() != "pull"@.len());
            assert("checkout"@.len() != "fetch"@.len());
            assert("checkout"@.len() != "clone"@.len());
        }
        if verb == "switch"@ {
            assert("switch"@[1] != "status"@[1]);
            assert("switch"@.len() != "diff"@.len());
            assert("switch"@.len() != "log"@.len());
            assert("switch"@.len() != "show"@.len());
            assert("switch"@.len() != "blame"@.len());
            assert("switch"@.len() != "shortlog"@.len());
            assert("switch"@[0] != "branch"@[0]);
            assert("switch"@.len() != "add"@.len());
            assert("switch"@[0] != "commit"@[0]);
            assert("switch"@.len() != "push"@.len());
            assert("switch"@.len() != "pull"@.len());
            assert("switch"@.len() != "fetch"@.len());
            assert("switch"@.len() != "clone"@.len());
            assert("switch"@.len() != "checkout"@.len());
        }
        if verb == "merge"@ {
            assert("merge"@.len() != "status"@.len());
            assert("merge"@.len() != "diff"@.len());
            assert("merge"@.len() != "log"@.len());
            assert("merge"@.len() != "show"@.len());
            assert("merge"@[0] != "blame"@[0]);
            assert("merge"@.len() != "shortlog"@.len());
            assert("merge"@.len() != "branch"@.len());
            assert("merge"@.len() != "add"@.len());
            assert("merge"@.len() != "commit"@.len());
            assert("merge"@.len() != "push"@.len());
            assert("merge"@.len() != "pull"@.len());
            assert("merge"@[0] != "fetch"@[0]);
            assert("merge"@[0] != "clone"@[0]);
            assert("merge"@.len() != "checkout"@.len());
            assert("merge"@.len() != "switch"@.len());
        }
        if verb == "rebase"@ {
            assert("rebase"@[0] != "status"@[0]);
            assert("rebase"@.len() != "diff"@.len());
            assert("rebase"@.len() != "log"@.len());
            assert("rebase"@.len() != "show"@.len());
            assert("rebase"@.len() != "blame"@.len());
            assert("rebase"@.len() != "shortlog"@.len());
            assert("rebase"@[0] != "branch"@[0]);
            assert("rebase"@.len() != "add"@.len());
            assert("rebase"@[0] != "commit"@[0]);
            assert("rebase"@.len() != "push"@.len());
            assert("rebase"@.len() != "pull"@.len());
            assert("rebase"@.len() != "fetch"@.len());
            assert("rebase"@.len() != "clone"@.len());
            assert("rebase"@.len() != "checkout"@.len());
            assert("rebase"@[0] != "switch"@[0]);
            assert("rebase"@.len() != "merge"@.len());
        }
        if verb == "cherry-pick"@ {
            assert("cherry-pick"@.len() != "status"@.len());
            assert("cherry-pick"@.len() != "diff"@.len());
            assert("cherry-pick"@.len() != "log"@.len());
            assert("cherry-pick"@.len() != "show"@.len());
            assert("cherry-pick"@.len() != "blame"@.len());
            assert("cherry-pick"@.len() != "shortlog"@.len());
            assert("cherry-pick"@.len() != "branch"@.len());
            assert("cherry-pick"@.len() != "add"@.len());
            assert("cherry-pick"@.len() != "commit"@.len());
            assert("cherry-pick"@.len() != "push"@.len());
            assert("cherry-pick"@.len() != "pull"@.len());
            assert("cherry-pick"@.len() != "fetch"@.len());
            assert("cherry-pick"@.len() != "clone"@.len());
            assert("cherry-pick"@.len() != "checkout"@.len());
            assert("cherry-pick"@.len() != "switch"@.len());
            assert("cherry-pick"@.len() != "merge"@.len());
            assert("cherry-pick"@.len() != "rebase"@.len());
        }
        if verb == "stash"@ {
            assert("stash"@.len() != "status"@.len());
            assert("stash"@.len() != "diff"@.len());
            assert("stash"@.len() != "log"@.len());
            assert("stash"@.len() != "show"@.len());
            assert("stash"@[0] != "blame"@[0]);
            assert("stash"@.len() != "shortlog"@.len());
            assert("stash"@.len() != "branch"@.len());
            assert("stash"@.len() != "add"@.len());
            assert("stash"@.len() != "commit"@.len());
            assert("stash"@.len() != "push"@.len());
            assert("stash"@.len() != "pull"@.len());
            assert("stash"@[0] != "fetch"@[0]);
            assert("stash"@[0] != "clone"@[0]);
            assert("stash"@.len() != "checkout"@.len());
            assert("stash"@.len() != "switch"@.len());
            assert("stash"@[0] != "merge"@[0]);
            assert("stash"@.len() != "rebase"@.len());
            assert("stash"@.len() != "cherry-pick"@.len());
        }
        if verb == "reset"@ {
            assert("reset"@.len() != "status"@.len());
            assert("reset"@.len() != "diff"@.len());
            assert("reset"@.len() != "log"@.len());
            assert("reset"@.len() != "show"@.len());
            assert("reset"@[0] != "blame"@[0]);
            assert("reset"@.len() != "shortlog"@.len());
            assert("reset"@.len() != "branch"@.len());
            assert("reset"@.len() != "add"@.len());
            assert("reset"@.len() != "commit"@.len());
            assert("reset"@.len() != "push"@.len());
            assert("reset"@.len() != "pull"@.len());
            assert("reset"@[0] != "fetch"@[0]);
            assert("reset"@[0] != "clone"@[0]);
            assert("reset"@.len() != "checkout"@.len());
            assert("reset"@.len() != "switch"@.len());
            assert("reset"@[0] != "merge"@[0]);
            assert("reset"@.len() != "rebase"@.len());
            assert("reset"@.len() != "cherry-pick"@.len());
            assert("reset"@[0] != "stash"@[0]);
        }
        if verb == "revert"@ {
            assert("revert"@[0] != "status"@[0]);
            assert("revert"@.len() != "diff"@.len());
            assert("revert"@.len() != "log"@.len());
            assert("revert"@.len() != "show"@.len());
            assert("revert"@.len() != "blame"@.len());
            assert("revert"@.len() != "shortlog"@.len());
            assert("revert"@[0] != "branch"@[0]);
            assert("revert"@.len() != "add"@.len());
            assert("revert"@[0] != "commit"@[0]);
            assert("revert"@.len() != "push"@.len());
            assert("revert"@.len() != "pull"@.len());
            assert("revert"@.len() != "fetch"@.len());
            assert("revert"@.len() != "clone"@.len());
            assert("revert"@.len() != "checkout"@.len());
            assert("revert"@[0] != "switch"@[0]);
            assert("revert"@.len() != "merge"@.len());
            assert("revert"@[2] != "rebase"@[2]);
            assert("revert"@.len() != "cherry-pick"@.len());
            assert("revert"@.len() != "stash"@.len());
            assert("revert"@.len() != "reset"@.len());
        }
        if verb == "tag"@ {
            assert("tag"@.len() != "status"@.len());
            assert("tag"@.len() != "diff"@.len());
            assert("tag"@[0] != "log"@[0]);
            assert("tag"@.len() != "show"@.len());
            assert("tag"@.len() != "blame"@.len());
            assert("tag"@.len() != "shortlog"@.len());
            assert("tag"@.len() != "branch"@.len());
            assert("tag"@[0] != "add"@[0]);
            assert("tag"@.len() != "commit"@.len());
            assert("tag"@.len() != "push"@.len());
            assert("tag"@.len() != "pull"@.len());
            assert("tag"@.len() != "fetch"@.len());
            assert("tag"@.len() != "clone"@.len());
            assert("tag"@.len() != "checkout"@.len());
            assert("tag"@.len() != "switch"@.len());
            assert("tag"@.len() != "merge"@.len());
            assert("tag"@.len() != "rebase"@.len());
            assert("tag"@.len() != "cherry-pick"@.len());
            assert("tag"@.len() != "stash"@.len());
            assert("tag"@.len() != "reset"@.len());
            assert("tag"@.len() != "revert"@.len());
        }
        if verb == "remote"@ {
            assert("remote"@[0] != "status"@[0]);
            assert("remote"@.len() != "diff"@.len());
            assert("remote"@.len() != "log"@.len());
            assert("remote"@.len() != "show"@.len());
            assert("remote"@.len() != "blame"@.len());
            assert("remote"@.len() != "shortlog"@.len());
            assert("remote"@[0] != "branch"@[0]);
            assert("remote"@.len() != "add"@.len());
            assert("remote"@[0] != "commit"@[0]);
            assert("remote"@.len() != "push"@.len());
            assert("remote"@.len() != "pull"@.len());
            assert("remote"@.len() != "fetch"@.len());
            assert("remote"@.len() != "clone"@.len());
            assert("remote"@.len() != "checkout"@.len());
            assert("remote"@[0] != "switch"@[0]);
            assert("remote"@.len() != "merge"@.len());
            assert("remote"@[2] != "rebase"@[2]);
            assert("remote"@.len() != "cherry-pick"@.len());
            assert("remote"@.len() != "stash"@.len());
            assert("remote"@.len() != "reset"@.len());
            assert("remote"@[2] != "revert"@[2]);
            assert("remote"@.len() != "tag"@.len());
        }
        if verb == "diff"@ {
            assert("diff"@.len() != "status"@.len());
        }
        if verb == "show"@ {
            assert("show"@.len() != "status"@.len());
            assert("show"@[0] != "diff"@[0]);
            assert("show"@.len() != "log"@.len());
        }
    }
}

// ───────────────────────── Get-Content and ripgrep ─────────────────────────

/// `-Skip` / `-First` values seen while scanning the words from `i` on.
pub open spec fn get_content_scan(ts: Seq<Seq<char>>, i: int, skip: Option<u32>, first: Option<u32>) -> (Option<u32>, Option<u32>)
    decreases ts.len() - i,
{
    if i < 0 || i >= ts.len() {
        (skip, first)
    } else if lower_seq(ts[i]) == "-skip"@ && i + 1 < ts.len() {
        get_content_scan(ts, i + 2, parse_u32(ts[i + 1]), first)
    } else if lower_seq(ts[i]) == "-first"@ && i + 1 < ts.len() {
        get_content_scan(ts, i + 2, skip, parse_u32(ts[i + 1]))
    } else {
        get_content_scan(ts, i + 1, skip, first)
    }
}

/// 32-bit wrapping sum.
pub open spec fn wrap32(x: int) -> int {
    x % 0x1_0000_0000
}

pub open spec fn spec_classify_get_content(rest: Seq<char>) -> Seq<char> {
    let ts = words(rest);
    let (skip, first) = get_content_scan(ts, 0, None, None);
    let path = match last_path_before(ts, ts.len() as int, false) {
        Some(p) => spec_basename(p),
        None => "file"@,
    };
    match (skip, first) {
        (Some(s), Some(f)) => "Reading lines "@ + dec(wrap32(s + 1) as nat) + "\u{2013}"@ + dec(
            wrap32(s + f) as nat,
        ) + " of "@ + path,
        (Some(s), None) => "Reading from line "@ + dec(wrap32(s + 1) as nat) + " of "@ + path,
        _ => "Reading: "@ + path,
    }
}

pub fn classify_get_content(rest: &[char]) -> (r: Vec<char>)
    ensures
        r@ == spec_classify_get_content(rest@),
{
    let ts = words_exec(rest);
    let mut skip: Option<u32> = None;
    let mut first: Option<u32> = None;
    let mut i: usize = 0;
    while i < ts.len()
        invariant
            get_content_scan(vv(ts@), i as int, skip, first) == get_content_scan(vv(ts@), 0, None, None),
        decreases ts.len() - i,
    {
        let t = lower_all(ts[i].as_slice());
        if eq_lit(t.as_slice(), "-skip") && i + 1 < ts.len() {
            skip = parse_u32_exec(ts[i + 1].as_slice());
            i += 2;
            continue;
        }
        if eq_lit(t.as_slice(), "-first") && i + 1 < ts.len() {
            first = parse_u32_exec(ts[i + 1].as_slice());
            i += 2;
            continue;
        }
        i += 1;
    }
    let path = match last_path(ts.as_slice(), false) {
        Some(p) => basename(p.as_slice()),
        None => chars_of("file"),
    };
    match (skip, first) {
        (Some(s), Some(f)) => {
            let start = ((s as u64 + 1) % 0x1_0000_0000) as u64;
            let end = ((s as u64 + f as u64) % 0x1_0000_0000) as u64;
            let mut out = chars_of("Reading lines ");
            let a = dec_exec(start);
            push_all(&mut out, a.as_slice());
            push_str(&mut out, "\u{2013}");
            let b = dec_exec(end);
            push_all(&mut out, b.as_slice());
            push_str(&mut out, " of ");
            push_all(&mut out, path.as_slice());
            out
        },
        (Some(s), None) => {
            let start = ((s as u64 + 1) % 0x1_0000_0000) as u64;
            let mut out = chars_of("Reading from line ");
            let a = dec_exec(start);
            push_all(&mut out, a.as_slice());
            push_str(&mut out, " of ");
            push_all(&mut out, path.as_slice());
            out
        },
        _ => lit_then("Reading: ", path.as_slice()),
    }
}

pub open spec fn spec_classify_rg(rest: Seq<char>) -> Seq<char> {
    let ts = words(rest);
    match last_path_before(ts, ts.len() as int, false) {
        Some(p) => "Searching "@ + spec_basename(p),
        None => "Searching code"@,
    }
}

pub fn classify_rg(rest: &[char]) -> (r: Vec<char>)
    ensures
        r@ == spec_classify_rg(rest@),
{
    let ts = words_exec(rest);
    match last_path(ts.as_slice(), false) {
        Some(p) => {
            let b = basename(p.as_slice());
            lit_then("Searching ", b.as_slice())
        },
        None => chars_of("Searching code"),
    }
}

// ───────────────────────── GitHub CLI ─────────────────────────

/// First index at or after `i` that is not a decimal digit.
pub open spec fn skip_digits(s: Seq<char>, i: int) -> int
    decreases s.len() - i,
{
    if 0 <= i < s.len() && is_digit(s[i]) {
        skip_digits(s, i + 1)
    } else {
        i
    }
}

/// First index at or after `i` that is a decimal digit.
pub open spec fn skip_non_digits(s: Seq<char>, i: int) -> int
    decreases s.len() - i,
{
    if 0 <= i < s.len() && !is_digit(s[i]) {
        skip_non_digits(s, i + 1)
    } else {
        i
    }
}

/// Start of the run of non-digits that ends at `j`.
pub open spec fn back_non_digits(s: Seq<char>, j: int) -> int
    decreases j,
{
    if 0 < j <= s.len() && !is_digit(s[j - 1]) {
        back_non_digits(s, j - 1)
    } else {
        j
    }
}

/// Leading digits (`take_while(is_ascii_digit)`).
pub open spec fn leading_digits(s: Seq<char>) -> Seq<char> {
    s.take(skip_digits(s, 0))
}

/// `trim_matches(|c| !c.is_ascii_digit())`.
pub open spec fn trim_non_digits(s: Seq<char>) -> Seq<char> {
    let t = s.skip(skip_non_digits(s, 0));
    t.take(back_non_digits(t, t.len() as int))
}

pub proof fn lemma_skip_digits(s: Seq<char>, i: int)
    requires
        0 <= i <= s.len(),
    ensures
        i <= skip_digits(s, i) <= s.len(),
    decreases s.len() - i,
{
    if i < s.len() && is_digit(s[i]) {
        lemma_skip_digits(s, i + 1);
    }
}

pub proof fn lemma_skip_non_digits(s: Seq<char>, i: int)
    requires
        0 <= i <= s.len(),
    ensures
        i <= skip_non_digits(s, i) <= s.len(),
    decreases s.len() - i,
{
    if i < s.len() && !is_digit(s[i]) {
        lemma_skip_non_digits(s, i + 1);
    }
}

pub proof fn lemma_back_non_digits(s: Seq<char>, j: int)
    requires
        0 <= j <= s.len(),
    ensures
        0 <= back_non_digits(s, j) <= j,
    decreases j,
{
    if j > 0 && !is_digit(s[j - 1]) {
        lemma_back_non_digits(s, j - 1);
    }
}

pub fn leading_digits_exec(s: &[char]) -> (r: Vec<char>)
    ensures
        r@ == leading_digits(s@),
{
    let mut k: usize = 0;
    while k < s.len() && is_ascii_digit(s[k])
        invariant
            k <= s@.len(),
            skip_digits(s@, k as int) == skip_digits(s@, 0),
        decreases s.len() - k,
    {
        k += 1;
    }
    copy_range(s, 0, k)
}

pub fn trim_non_digits_exec(s: &[char]) -> (r: Vec<char>)
    ensures
        r@ == trim_non_digits(s@),
{
    let mut a: usize = 0;
    while a < s.len() && !is_ascii_digit(s[a])
        invariant
            a <= s@.len(),
            skip_non_digits(s@, a as int) == skip_non_digits(s@, 0),
        decreases s.len() - a,
    {
        a += 1;
    }
    let t = copy_range(s, a, s.len());
    let mut b = t.len();
    while b > 0 && !is_ascii_digit(t[b - 1])
        invariant
            b <= t@.len(),
            back_non_digits(t@, b as int) == back_non_digits(t@, t@.len() as int),
        decreases b,
    {
        b -= 1;
    }
    copy_range(t.as_slice(), 0, b)
}

/// Number after `key` in the lower-cased command (`issues/123`, `pulls/45`).
pub open spec fn number_after_key(lower: Seq<char>, key: Seq<char>) -> Option<u32> {
    parse_u32(leading_digits(lower.skip(find(lower, key) + key.len())))
}

pub open spec fn issue_scan(ts: Seq<Seq<char>>, i: int) -> Option<u32>
    decreases ts.len() - i,
{
    if i < 0 || i >= ts.len() {
        None
    } else if eq_ic(ts[i], "issue"@) && i + 1 < ts.len() && eq_ic(ts[i + 1], "view"@) && i + 2
        < ts.len() {
        match parse_u32(trim_non_digits(ts[i + 2])) {
            Some(n) => Some(n),
            None => issue_scan(ts, i + 1),
        }
    } else {
        issue_scan(ts, i + 1)
    }
}

pub open spec fn spec_parse_gh_issue_number(cmd: Seq<char>) -> Option<u32> {
    let lower = lower_seq(cmd);
    if find(lower, "issues/"@) >= 0 {
        number_after_key(lower, "issues/"@)
    } else {
        issue_scan(words(cmd), 0)
    }
}

pub open spec fn is_pr_sub(sub: Seq<char>) -> bool {
    let l = lower_seq(sub);
    l == "view"@ || l == "edit"@ || l == "comment"@
}

pub open spec fn pr_scan(ts: Seq<Seq<char>>, i: int) -> Option<u32>
    decreases ts.len() - i,
{
    if i < 0 || i >= ts.len() {
        None
    } else if eq_ic(ts[i], "pr"@) && i + 1 < ts.len() && is_pr_sub(ts[i + 1]) && i + 2 < ts.len() {
        match parse_u32(trim_non_digits(ts[i + 2])) {
            Some(n) => Some(n),
            None => pr_scan(ts, i + 1),
        }
    } else {
        pr_scan(ts, i + 1)
    }
}

pub open spec fn spec_parse_gh_pr_number(cmd: Seq<char>) -> Option<u32> {
    let lower = lower_seq(cmd);
    if find(lower, "pulls/"@) >= 0 {
        number_after_key(lower, "pulls/"@)
    } else {
        pr_scan(words(cmd), 0)
    }
}

fn number_after_key_exec(lower: &[char], key: &str, idx: usize) -> (r: Option<u32>)
    requires
        idx == find(lower@, key@),
        idx >= 0,
    ensures
        r == number_after_key(lower@, key@),
{
    let k = chars_of(key);
    proof {
        lemma_find_from_bounds(lower@, key@, 0);
        assert(occurs_at(lower@, key@, idx as int));
        assert(k@.len() == key@.len());
        assert(idx + k@.len() <= lower@.len());
    }
    assert(idx + k.len() <= lower.len());
    let rest = copy_range(lower, idx + k.len(), lower.len());
    let num = leading_digits_exec(rest.as_slice());
    parse_u32_exec(num.as_slice())
}

pub fn parse_gh_issue_number(cmd: &[char]) -> (r: Option<u32>)
    ensures
        r == spec_parse_gh_issue_number(cmd@),
{
    let lower = lower_all(cmd);
    if let Some(idx) = find_lit(lower.as_slice(), "issues/") {
        return number_after_key_exec(lower.as_slice(), "issues/", idx);
    }
    let ts = words_exec(cmd);
    let mut i: usize = 0;
    while i < ts.len()
        invariant
            issue_scan(vv(ts@), i as int) == issue_scan(vv(ts@), 0),
            vv(ts@) == words(cmd@),
            find(lower_seq(cmd@), "issues/"@) < 0,
        decreases ts.len() - i,
    {
        if eq_ignore_case_lit(ts[i].as_slice(), "issue") && i + 1 < ts.len() && eq_ignore_case_lit(
            ts[i + 1].as_slice(),
            "view",
        ) && i + 2 < ts.len() {
            let n = trim_non_digits_exec(ts[i + 2].as_slice());
            if let Some(num) = parse_u32_exec(n.as_slice()) {
                return Some(num);
            }
        }
        i += 1;
    }
    None
}

pub fn parse_gh_pr_number(cmd: &[char]) -> (r: Option<u32>)
    ensures
        r == spec_parse_gh_pr_number(cmd@),
{
    let lower = lower_all(cmd);
    if let Some(idx) = find_lit(lower.as_slice(), "pulls/") {
        return number_after_key_exec(lower.as_slice(), "pulls/", idx);
    }
    let ts = words_exec(cmd);
    let mut i: usize = 0;
    while i < ts.len()
        invariant
            pr_scan(vv(ts@), i as int) == pr_scan(vv(ts@), 0),
            vv(ts@) == words(cmd@),
            find(lower_seq(cmd@), "pulls/"@) < 0,
        decreases ts.len() - i,
    {
        if eq_ignore_case_lit(ts[i].as_slice(), "pr") && i + 1 < ts.len() {
            let sub = lower_all(ts[i + 1].as_slice());
            let s = sub.as_slice();
            if (eq_lit(s, "view") || eq_lit(s, "edit") || eq_lit(s, "comment")) && i + 2 < ts.len() {
                let n = trim_non_digits_exec(ts[i + 2].as_slice());
                if let Some(num) = parse_u32_exec(n.as_slice()) {
                    return Some(num);
                }
            }
        }
        i += 1;
    }
    None
}

pub open spec fn repo_scan(ts: Seq<Seq<char>>, i: int) -> Option<Seq<char>>
    decreases ts.len() - i,
{
    if i < 0 || i >= ts.len() {
        None
    } else if ts[i] == "--repo"@ && i + 1 < ts.len() {
        Some(ts[i + 1])
    } else {
        repo_scan(ts, i + 1)
    }
}

pub open spec fn spec_extract_gh_repo_flag(cmd: Seq<char>) -> Option<Seq<char>> {
    repo_scan(words(cmd), 0)
}

pub fn extract_gh_repo_flag(cmd: &[char]) -> (r: Option<Vec<char>>)
    ensures
        match r {
            Some(p) => spec_extract_gh_repo_flag(cmd@) == Some(p@),
            None => spec_extract_gh_repo_flag(cmd@) is None,
        },
{
    let ts = words_exec(cmd);
    let mut i: usize = 0;
    while i < ts.len()
        invariant
            repo_scan(vv(ts@), i as int) == repo_scan(vv(ts@), 0),
            vv(ts@) == words(cmd@),
        decreases ts.len() - i,
    {
        if eq_lit(ts[i].as_slice(), "--repo") && i + 1 < ts.len() {
            return Some(copy_range(ts[i + 1].as_slice(), 0, ts[i + 1].len()));
        }
        i += 1;
    }
    None
}

pub open spec fn spec_classify_gh(cmd: Seq<char>) -> Seq<char> {
    let lower = lower_seq(cmd);
    if contains(lower, "pr create"@) {
        "Creating PR"@
    } else if contains(lower, "pr view"@) {
        match spec_parse_gh_pr_number(cmd) {
            Some(n) => "Viewing PR #"@ + dec(n as nat),
            None => "Viewing PR"@,
        }
    } else if contains(lower, "issue view"@) {
        match spec_parse_gh_issue_number(cmd) {
            Some(n) => match spec_extract_gh_repo_flag(cmd) {
                Some(repo) => "Viewing issue #"@ + dec(n as nat) + " \u{b7} "@ + truncate(repo, 40),
                None => "Viewing issue #"@ + dec(n as nat),
            },
            None => "Viewing issue"@,
        }
    } else if contains(lower, "pr edit"@) {
        match spec_parse_gh_pr_number(cmd) {
            Some(n) => "Updating PR #"@ + dec(n as nat),
            None => "Updating PR"@,
        }
    } else if contains(lower, "api"@) {
        if contains(lower, "requested_reviewers"@) {
            "Requesting PR review"@
        } else {
            match spec_parse_gh_pr_number(cmd) {
                Some(n) => "GitHub API \u{b7} PR #"@ + dec(n as nat),
                None => "GitHub API"@,
            }
        }
    } else {
        "GitHub CLI"@
    }
}

pub fn classify_gh(cmd: &[char]) -> (r: Vec<char>)
    ensures
        r@ == spec_classify_gh(cmd@),
{
    let lower = lower_all(cmd);
    let l = lower.as_slice();
    if contains_lit(l, "pr create") {
        return chars_of("Creating PR");
    }
    if contains_lit(l, "pr view") {
        if let Some(n) = parse_gh_pr_number(cmd) {
            let d = dec_exec(n as u64);
            return lit_then("Viewing PR #", d.as_slice());
        }
        return chars_of("Viewing PR");
    }
    if contains_lit(l, "issue view") {
        if let Some(n) = parse_gh_issue_number(cmd) {
            let d = dec_exec(n as u64);
            let mut label = lit_then("Viewing issue #", d.as_slice());
            if let Some(repo) = extract_gh_repo_flag(cmd) {
                push_str(&mut label, " \u{b7} ");
                let t = truncate_exec(repo.as_slice(), 40);
                push_all(&mut label, t.as_slice());
            }
            return label;
        }
        return chars_of("Viewing issue");
    }
    if contains_lit(l, "pr edit") {
        if let Some(n) = parse_gh_pr_number(cmd) {
            let d = dec_exec(n as u64);
            return lit_then("Updating PR #", d.as_slice());
        }
        return chars_of("Updating PR");
    }
    if contains_lit(l, "api") {
        if contains_lit(l, "requested_reviewers") {
            return chars_of("Requesting PR review");
        }
        if let Some(n) = parse_gh_pr_number(cmd) {
            let d = dec_exec(n as u64);
            return lit_then("GitHub API \u{b7} PR #", d.as_slice());
        }
        return chars_of("GitHub API");
    }
    chars_of("GitHub CLI")
}

// ───────────────────────── shell noise ─────────────────────────

/// A PowerShell-style `$x = ...` segment or a `set KEY=VALUE` segment.
pub open spec fn is_assignment(seg: Seq<char>) -> bool {
    (starts_with_char(seg, '$') && {
        let e = find(seg, seq!['=']);
        e > 0 && e <= skip_word(seg, 0)
    }) || (starts_with(seg, "set "@) && contains_char(seg, '='))
}

pub fn is_assignment_exec(seg: &[char]) -> (r: bool)
    ensures
        r == is_assignment(seg@),
{
    let dollar = if starts_with_ch(seg, '$') {
        match find_char(seg, '=') {
            Some(e) => e > 0 && e <= skip_word_exec(seg, 0),
            None => false,
        }
    } else {
        false
    };
    dollar || (starts_with_lit(seg, "set ") && contains_ch(seg, '='))
}

/// A PowerShell `Set-Location` (Cursor's shell tool often starts with one),
/// in any letter case.
pub open spec fn is_set_location(seg: Seq<char>) -> bool {
    starts_with(lower_seq(seg), "set-location "@)
}

pub fn is_set_location_exec(seg: &[char]) -> (r: bool)
    ensures
        r == is_set_location(seg@),
{
    let l = lower_all(seg);
    starts_with_lit(l.as_slice(), "set-location ")
}

/// A segment that only prepares the command: an assignment or a
/// `Set-Location`.
pub open spec fn is_preamble(seg: Seq<char>) -> bool {
    is_assignment(seg) || is_set_location(seg)
}

/// The first `;`-separated segment from position `i` on that is neither empty
/// nor a preamble (trimmed); `dflt` when there is none.
pub open spec fn first_command_segment(s: Seq<char>, i: int, dflt: Seq<char>) -> Seq<char>
    decreases s.len() - i + 1,
{
    if i < 0 || i > s.len() {
        dflt
    } else {
        let j = find_from(s, seq![';'], i);
        let end = if j < 0 {
            s.len() as int
        } else {
            j
        };
        let seg = trim(s.subrange(i, end));
        if seg.len() > 0 && !is_preamble(seg) {
            seg
        } else if j < 0 {
            dflt
        } else {
            proof {
                lemma_find_from_bounds(s, seq![';'], i);
            }
            first_command_segment(s, j + 1, dflt)
        }
    }
}

pub open spec fn cd_step(s: Seq<char>) -> Seq<char> {
    if starts_with(s, "cd "@) && find(s, " && "@) >= 0 {
        trim(s.skip(find(s, " && "@) + " && "@.len()))
    } else {
        s
    }
}

/// `timeout N cmd`: what follows the second whitespace character.
pub open spec fn timeout_step(s: Seq<char>) -> Seq<char> {
    if starts_with(s, "timeout "@) {
        let j1 = skip_word(s, 0);
        let j2 = skip_word(s, j1 + 1);
        if j1 < s.len() && j2 < s.len() {
            trim(s.skip(j2 + 1))
        } else {
            s
        }
    } else {
        s
    }
}

pub open spec fn is_shell_verb(v: Seq<char>) -> bool {
    v == "bash"@ || v == "sh"@ || v == "zsh"@ || v == "powershell"@ || v == "pwsh"@
}

/// Strips one pair of matching double or single quotes.
pub open spec fn unquote(a: Seq<char>) -> Seq<char> {
    if a.len() >= 2 && a[0] == '"' && a[a.len() - 1] == '"' {
        a.subrange(1, a.len() - 1)
    } else if a.len() >= 2 && a[0] == '\'' && a[a.len() - 1] == '\'' {
        a.subrange(1, a.len() - 1)
    } else {
        a
    }
}

/// `bash -c 'inner'`, `powershell -Command "inner"`: the inner command.
pub open spec fn wrapper_step(s: Seq<char>) -> Seq<char> {
    let verb = word_or_empty(words(s), 0);
    let p1 = find(s, " -c "@);
    let p2 = find(s, " -Command "@);
    if is_shell_verb(verb) && (p1 >= 0 || p2 >= 0) {
        let after = if p1 >= 0 {
            trim(s.skip(p1 + " -c "@.len()))
        } else {
            trim(s.skip(p2 + " -Command "@.len()))
        };
        let inner = unquote(after);
        if inner.len() > 0 {
            inner
        } else {
            s
        }
    } else {
        s
    }
}

/// Strip PowerShell preamble, `cd X &&` prefixes, `timeout N` and interpreter wrappers.
pub open spec fn spec_strip_shell_noise(raw: Seq<char>) -> Seq<char> {
    let s0 = trim(raw);
    let s1 = first_command_segment(s0, 0, s0);
    trim(wrapper_step(timeout_step(cd_step(s1))))
}

proof fn lemma_first_segment_infix(s: Seq<char>, i: int)
    requires
        0 <= i,
    ensures
        is_infix(first_command_segment(s, i, s), s),
    decreases s.len() - i + 1,
{
    if i > s.len() {
        lemma_infix_refl(s);
    } else {
        let j = find_from(s, seq![';'], i);
        lemma_find_from_bounds(s, seq![';'], i);
        let end = if j < 0 {
            s.len() as int
        } else {
            j
        };
        let seg = trim(s.subrange(i, end));
        if seg.len() > 0 && !is_preamble(seg) {
            lemma_trim_infix(s.subrange(i, end));
            lemma_infix_subrange(s, i, end);
            lemma_infix_trans(seg, s.subrange(i, end), s);
        } else if j < 0 {
            lemma_infix_refl(s);
        } else {
            lemma_first_segment_infix(s, j + 1);
        }
    }
}

/// `trim(s.skip(k))` is a piece of `s`.
proof fn lemma_trim_skip_infix(s: Seq<char>, k: int)
    requires
        0 <= k <= s.len(),
    ensures
        is_infix(trim(s.skip(k)), s),
{
    lemma_trim_infix(s.skip(k));
    assert(s.skip(k) =~= s.subrange(k, s.len() as int));
    lemma_infix_subrange(s, k, s.len() as int);
    lemma_infix_trans(trim(s.skip(k)), s.skip(k), s);
}

/// The stripped command is a trimmed piece of the raw command line: every
/// step only cuts text away.
pub proof fn lemma_strip_shell_noise_is_trimmed_infix(raw: Seq<char>)
    ensures
        is_infix(spec_strip_shell_noise(raw), raw),
        trim(spec_strip_shell_noise(raw)) == spec_strip_shell_noise(raw),
{
    let s0 = trim(raw);
    lemma_trim_infix(raw);
    let s1 = first_command_segment(s0, 0, s0);
    lemma_first_segment_infix(s0, 0);
    lemma_infix_trans(s1, s0, raw);
    let s2 = cd_step(s1);
    if starts_with(s1, "cd "@) && find(s1, " && "@) >= 0 {
        lemma_find_from_bounds(s1, " && "@, 0);
        lemma_trim_skip_infix(s1, find(s1, " && "@) + " && "@.len());
    } else {
        lemma_infix_refl(s1);
    }
    lemma_infix_trans(s2, s1, raw);
    let s3 = timeout_step(s2);
    if starts_with(s2, "timeout "@) {
        let j1 = skip_word(s2, 0);
        let j2 = skip_word(s2, j1 + 1);
        if j1 < s2.len() && j2 < s2.len() {
            lemma_skip_word(s2, 0);
            lemma_skip_word(s2, j1 + 1);
            lemma_trim_skip_infix(s2, j2 + 1);
        } else {
            lemma_infix_refl(s2);
        }
    } else {
        lemma_infix_refl(s2);
    }
    lemma_infix_trans(s3, s2, raw);
    let s4 = wrapper_step(s3);
    let p1 = find(s3, " -c "@);
    let p2 = find(s3, " -Command "@);
    if is_shell_verb(word_or_empty(words(s3), 0)) && (p1 >= 0 || p2 >= 0) {
        lemma_find_from_bounds(s3, " -c "@, 0);
        lemma_find_from_bounds(s3, " -Command "@, 0);
        let after = if p1 >= 0 {
            trim(s3.skip(p1 + " -c "@.len()))
        } else {
            trim(s3.skip(p2 + " -Command "@.len()))
        };
        if p1 >= 0 {
            lemma_trim_skip_infix(s3, p1 + " -c "@.len());
        } else {
            lemma_trim_skip_infix(s3, p2 + " -Command "@.len());
        }
        let inner = unquote(after);
        if inner.len() > 0 {
            if after.len() >= 2 && (after[0] == '"' && after[after.len() - 1] == '"' || after[0] == '\''
                && after[after.len() - 1] == '\'') {
                lemma_infix_subrange(after, 1, after.len() - 1);
            } else {
                lemma_infix_refl(after);
            }
            lemma_infix_trans(inner, after, s3);
        } else {
            lemma_infix_refl(s3);
        }
    } else {
        lemma_infix_refl(s3);
    }
    lemma_infix_trans(s4, s3, raw);
    lemma_trim_infix(s4);
    lemma_infix_trans(trim(s4), s4, raw);
}

fn first_command_segment_exec(s: &[char]) -> (r: Vec<char>)
    ensures
        r@ == first_command_segment(s@, 0, s@),
{
    let semi = vec![';'];
    assert(semi@ == seq![';']);
    let mut i: usize = 0;
    loop
        invariant
            i <= s@.len(),
            semi@ == seq![';'],
            first_command_segment(s@, i as int, s@) == first_command_segment(s@, 0, s@),
        decreases s@.len() - i,
    {
        let j = find_from_exec(s, semi.as_slice(), i);
        let end = match j {
            Some(j) => j,
            None => s.len(),
        };
        let piece = copy_range(s, i, end);
        let seg = trim_exec(piece.as_slice());
        if seg.len() > 0 && !(is_assignment_exec(seg.as_slice()) || is_set_location_exec(seg.as_slice())) {
            return seg;
        }
        match j {
            None => {
                let all = copy_range(s, 0, s.len());
                assert(s@.subrange(0, s@.len() as int) == s@);
                return all;
            },
            Some(j) => {
                assert(j + 1 <= s.len());
                i = j + 1;
            },
        }
    }
}

fn cd_step_exec(s: Vec<char>) -> (r: Vec<char>)
    ensures
        r@ == cd_step(s@),
{
    if starts_with_lit(s.as_slice(), "cd ") {
        if let Some(pos) = find_lit(s.as_slice(), " && ") {
            let pat = chars_of(" && ");
            proof {
                lemma_find_from_bounds(s@, " && "@, 0);
                assert(pos + pat@.len() <= s@.len());
            }
            assert(pos + pat.len() <= s.len());
            let after = copy_range(s.as_slice(), pos + pat.len(), s.len());
            return trim_exec(after.as_slice());
        }
    }
    s
}

fn timeout_step_exec(s: Vec<char>) -> (r: Vec<char>)
    ensures
        r@ == timeout_step(s@),
{
    if starts_with_lit(s.as_slice(), "timeout ") {
        let j1 = skip_word_exec(s.as_slice(), 0);
        if j1 < s.len() {
            let j2 = skip_word_exec(s.as_slice(), j1 + 1);
            if j2 < s.len() {
                let after = copy_range(s.as_slice(), j2 + 1, s.len());
                return trim_exec(after.as_slice());
            }
        }
    }
    s
}

fn unquote_exec(a: &[char]) -> (r: Vec<char>)
    ensures
        r@ == unquote(a@),
{
    let n = a.len();
    if n >= 2 && a[0] == '"' && a[n - 1] == '"' {
        copy_range(a, 1, n - 1)
    } else if n >= 2 && a[0] == '\'' && a[n - 1] == '\'' {
        copy_range(a, 1, n - 1)
    } else {
        copy_range(a, 0, n)
    }
}

fn wrapper_step_exec(s: Vec<char>) -> (r: Vec<char>)
    ensures
        r@ == wrapper_step(s@),
{
    let ws = words_exec(s.as_slice());
    let verb = word_at(ws.as_slice(), 0);
    let v = verb.as_slice();
    let shell = eq_lit(v, "bash") || eq_lit(v, "sh") || eq_lit(v, "zsh") || eq_lit(v, "powershell")
        || eq_lit(v, "pwsh");
    if !shell {
        return s;
    }
    let p1 = find_lit(s.as_slice(), " -c ");
    let p2 = find_lit(s.as_slice(), " -Command ");
    let after = match p1 {
        Some(p) => {
            let pat = chars_of(" -c ");
            proof {
                lemma_find_from_bounds(s@, " -c "@, 0);
                assert(p + pat@.len() <= s@.len());
            }
            assert(p + pat.len() <= s.len());
            let a = copy_range(s.as_slice(), p + pat.len(), s.len());
            trim_exec(a.as_slice())
        },
        None => match p2 {
            Some(p) => {
                let pat = chars_of(" -Command ");
                proof {
                    lemma_find_from_bounds(s@, " -Command "@, 0);
                    assert(p + pat@.len() <= s@.len());
                }
                assert(p + pat.len() <= s.len());
                let a = copy_range(s.as_slice(), p + pat.len(), s.len());
                trim_exec(a.as_slice())
            },
            None => {
                return s;
            },
        },
    };
    let inner = unquote_exec(after.as_slice());
    if inner.len() > 0 {
        inner
    } else {
        s
    }
}

/// Strip PowerShell preamble, `cd X &&` prefixes and interpreter wrappers.
pub fn strip_shell_noise(raw: &[char]) -> (r: Vec<char>)
    ensures
        r@ == spec_strip_shell_noise(raw@),
{
    let s0 = trim_exec(raw);
    let s1 = first_command_segment_exec(s0.as_slice());
    let s2 = cd_step_exec(s1);
    let s3 = timeout_step_exec(s2);
    let s4 = wrapper_step_exec(s3);
    trim_exec(s4.as_slice())
}

// ───────────────────────── classification ─────────────────────────

pub open spec fn is_node_verb(v: Seq<char>) -> bool {
    v == "node"@ || v == "ts-node"@ || v == "tsx"@ || v == "deno"@
}

/// Heredocs and pipes into an interpreter (`@'...'@ | node`).
pub open spec fn spec_classify_pipeline_or_heredoc(raw: Seq<char>) -> Option<Seq<char>> {
    let t = trim(raw);
    let heredoc = starts_with(t, "@'"@) || contains(t, "'@ |"@) || contains(t, "'@|"@);
    if heredoc || contains_char(t, '|') {
        let rhs = spec_strip_shell_noise(trim(t.skip(rfind_char(t, '|') + 1)));
        let ws = words(rhs);
        if ws.len() == 0 {
            None
        } else {
            let verb = lower_seq(ws[0]);
            if is_node_verb(verb) {
                Some(spec_classify_node(trim(rhs.skip(verb.len() as int))))
            } else if heredoc {
                Some("Running inline script"@)
            } else {
                None
            }
        }
    } else {
        None
    }
}

pub fn classify_pipeline_or_heredoc(raw: &[char]) -> (r: Option<Vec<char>>)
    ensures
        match r {
            Some(l) => spec_classify_pipeline_or_heredoc(raw@) == Some(l@),
            None => spec_classify_pipeline_or_heredoc(raw@) is None,
        },
{
    let t = trim_exec(raw);
    let ts = t.as_slice();
    let heredoc = starts_with_lit(ts, "@'") || contains_lit(ts, "'@ |") || contains_lit(ts, "'@|");
    if heredoc || contains_ch(ts, '|') {
        proof {
            lemma_rfind_bounds(t@, '|', t@.len() as int);
        }
        let start = match rfind_ch(ts, '|') {
            Some(k) => {
                assert(k < ts.len());
                k + 1
            },
            None => 0,
        };
        let piece = copy_range(ts, start, t.len());
        let piece_t = trim_exec(piece.as_slice());
        let rhs = strip_shell_noise(piece_t.as_slice());
        let ws = words_exec(rhs.as_slice());
        if ws.len() == 0 {
            return None;
        }
        let verb = lower_all(ws[0].as_slice());
        let v = verb.as_slice();
        if eq_lit(v, "node") || eq_lit(v, "ts-node") || eq_lit(v, "tsx") || eq_lit(v, "deno") {
            proof {
                lemma_words_len(rhs@, 0);
                assert(vv(ws@)[0] == ws@[0]@);
            }
            let after = copy_range(rhs.as_slice(), verb.len(), rhs.len());
            let rest = trim_exec(after.as_slice());
            return Some(classify_node(rest.as_slice()));
        }
        if heredoc {
            return Some(chars_of("Running inline script"));
        }
        return None;
    }
    None
}

/// The script name of `npm run <script>`: the first word that is neither a
/// flag nor `run`.
pub open spec fn run_script_from(ts: Seq<Seq<char>>, i: int) -> Seq<char>
    decreases ts.len() - i,
{
    if i < 0 || i >= ts.len() {
        seq![]
    } else if starts_with_char(ts[i], '-') || ts[i] == "run"@ {
        run_script_from(ts, i + 1)
    } else {
        ts[i]
    }
}

pub open spec fn spec_npm_run_label(script: Seq<char>) -> Seq<char> {
    if script == "dev"@ || script == "start"@ || script == "serve"@ || script == "preview"@ {
        "Starting dev server"@
    } else if script == "build"@ {
        "Building"@
    } else if script == "test"@ || script == "jest"@ || script == "vitest"@ {
        "Running tests"@
    } else if script == "lint"@ || script == "check"@ {
        "Linting"@
    } else if script == "format"@ || script == "fmt"@ || script == "prettier"@ {
        "Formatting code"@
    } else if script == "typecheck"@ || script == "type-check"@ || script == "tsc"@ || script
        == "ts"@ {
        "Type checking"@
    } else if script == "migrate"@ || script == "db:migrate"@ || script == "migration"@ {
        "Running migration"@
    } else if script == "seed"@ || script == "db:seed"@ {
        "Seeding database"@
    } else if script == "storybook"@ {
        "Starting Storybook"@
    } else if script.len() == 0 {
        "Running npm"@
    } else {
        "Running: "@ + truncate(script, 24)
    }
}

/// Label of an `npm`/`yarn`/`pnpm`/`bun` invocation (what follows the verb).
pub open spec fn spec_classify_npm(rest0: Seq<char>) -> Seq<char>
    decreases rest0.len(), 0int,
{
    let rest = spec_strip_npm_workspace_flags(rest0);
    let sub = spec_first_non_flag(rest);
    if sub == "test"@ {
        "Running tests"@
    } else if sub == "build"@ {
        "Building"@
    } else if sub == "install"@ || sub == "i"@ || sub == "ci"@ || sub == "add"@ {
        "Installing dependencies"@
    } else if sub == "start"@ {
        "Starting server"@
    } else if sub == "publish"@ {
        "Publishing package"@
    } else if sub == "lint"@ {
        "Linting"@
    } else if sub == "run"@ {
        spec_npm_run_label(run_script_from(words(rest), 0))
    } else if sub == "nx"@ || sub == "turbo"@ {
        spec_classify_nx(spec_first_non_flag(spec_rest_after_first_token(rest)))
    } else if sub == "exec"@ || sub == "x"@ {
        proof {
            reveal_strlit("exec");
            reveal_strlit("x");
            lemma_strip_npm_len(rest0);
            lemma_first_non_flag_len(rest);
            lemma_rest_after_first_token_len(rest);
            lemma_first_non_flag_len(spec_rest_after_first_token(rest));
        }
        spec_classify_bash(spec_first_non_flag(spec_rest_after_first_token(rest)))
    } else {
        "Running npm"@
    }
}

pub open spec fn is_script_path(verb: Seq<char>) -> bool {
    ends_with(verb, ".sh"@) || ends_with(verb, ".ps1"@) || ends_with(verb, ".py"@) || starts_with(
        verb,
        "./"@,
    ) || starts_with(verb, ".\\"@)
}

/// Classify a noise-stripped command into a human label.
pub open spec fn spec_classify_bash(cmd: Seq<char>) -> Seq<char>
    decreases cmd.len(), 1int,
{
    let ws = words(cmd);
    if ws.len() == 0 {
        "Running command"@
    } else {
        let verb = ws[0];
        let v = lower_seq(verb);
        let rest = trim(cmd.skip(verb.len() as int));
        if v == "pytest"@ || v == "py.test"@ {
            "Running Python tests"@
        } else if v == "jest"@ || v == "vitest"@ || v == "mocha"@ || v == "jasmine"@ || v == "ava"@ {
            "Running JS tests"@
        } else if v == "rspec"@ {
            "Running Ruby tests"@
        } else if v == "phpunit"@ {
            "Running PHP tests"@
        } else if v == "npm"@ || v == "yarn"@ || v == "pnpm"@ || v == "bun"@ {
            proof {
                lemma_words_len(cmd, 0);
                lemma_trim_len(cmd.skip(verb.len() as int));
            }
            spec_classify_npm(rest)
        } else if v == "npx"@ || v == "bunx"@ {
            let f = spec_first_non_flag(rest);
            let target = if f.len() > 0 {
                f
            } else {
                rest
            };
            "Running: "@ + spec_basename(target)
        } else if v == "cargo"@ {
            spec_classify_cargo(spec_first_non_flag(rest))
        } else if v == "go"@ {
            spec_classify_go(spec_first_non_flag(rest))
        } else if v == "dotnet"@ {
            spec_classify_dotnet(spec_first_non_flag(rest))
        } else if v == "make"@ || v == "cmake"@ || v == "ninja"@ {
            "Building"@
        } else if v == "msbuild"@ {
            "Building .NET"@
        } else if v == "gradle"@ || v == "mvn"@ || v == "ant"@ {
            "Building"@
        } else if v == "python"@ || v == "python3"@ || v == "py"@ {
            spec_classify_python(rest)
        } else if is_node_verb(v) {
            spec_classify_node(rest)
        } else if v == "bash"@ || v == "sh"@ || v == "zsh"@ || v == "fish"@ {
            spec_classify_script(rest)
        } else if v == "powershell"@ || v == "pwsh"@ {
            spec_classify_script(rest)
        } else if v == "git"@ {
            spec_classify_git(rest)
        } else if v == "gh"@ {
            spec_classify_gh(cmd)
        } else if v == "cat"@ || v == "type"@ || v == "head"@ || v == "tail"@ || v == "less"@ || v
            == "more"@ {
            let target = spec_first_non_flag(rest);
            if spec_looks_like_path(target) {
                "Reading: "@ + spec_basename(target)
            } else {
                "Reading file"@
            }
        } else if v == "get-content"@ || v == "gc"@ {
            spec_classify_get_content(rest)
        } else if v == "ls"@ || v == "dir"@ || v == "get-childitem"@ || v == "gci"@ || v == "exa"@
            || v == "lsd"@ {
            "Listing directory"@
        } else if v == "grep"@ || v == "ag"@ || v == "ack"@ || v == "fgrep"@ || v == "egrep"@ {
            "Searching code"@
        } else if v == "rg"@ || v == "ripgrep"@ {
            spec_classify_rg(rest)
        } else if v == "find"@ {
            "Searching files"@
        } else if v == "mkdir"@ || v == "md"@ || v == "new-item"@ {
            "Creating directory"@
        } else if v == "rm"@ || v == "del"@ || v == "remove-item"@ || v == "ri"@ {
            "Removing files"@
        } else if v == "cp"@ || v == "copy"@ || v == "copy-item"@ {
            "Copying files"@
        } else if v == "mv"@ || v == "move"@ || v == "move-item"@ {
            "Moving files"@
        } else if v == "touch"@ || v == "new-file"@ {
            "Creating file"@
        } else if v == "chmod"@ || v == "chown"@ || v == "attrib"@ {
            "Setting permissions"@
        } else if v == "rename"@ || v == "ren"@ {
            "Renaming file"@
        } else if v == "eslint"@ || v == "tslint"@ || v == "oxlint"@ {
            "Linting JS"@
        } else if v == "prettier"@ {
            "Formatting code"@
        } else if v == "black"@ || v == "ruff"@ || v == "autopep8"@ || v == "isort"@ {
            "Formatting Python"@
        } else if v == "flake8"@ || v == "pylint"@ || v == "bandit"@ {
            "Linting Python"@
        } else if v == "mypy"@ || v == "pyright"@ || v == "pytype"@ {
            "Type checking"@
        } else if v == "tsc"@ {
            if contains(rest, "--noEmit"@) || contains(rest, "--check"@) {
                "Type checking"@
            } else {
                "Compiling TypeScript"@
            }
        } else if v == "cargo-fmt"@ || v == "gofmt"@ || v == "rustfmt"@ {
            "Formatting code"@
        } else if v == "pip"@ || v == "pip3"@ || v == "poetry"@ || v == "uv"@ || v == "pipenv"@ || v
            == "conda"@ {
            spec_classify_pip(rest)
        } else if v == "docker"@ {
            spec_classify_docker(spec_first_non_flag(rest))
        } else if v == "docker-compose"@ || v == "podman"@ || v == "kubectl"@ {
            "Container operation"@
        } else if v == "curl"@ || v == "wget"@ || v == "http"@ || v == "httpie"@ {
            "Fetching URL"@
        } else if v == "ping"@ {
            "Checking connectivity"@
        } else if v == "which"@ || v == "where"@ || v == "command"@ {
            "Checking tool availability"@
        } else if v == "env"@ || v == "printenv"@ || v == "set"@ {
            "Checking environment"@
        } else if v == "ps"@ || v == "top"@ || v == "htop"@ || v == "tasklist"@ {
            "Checking processes"@
        } else if v == "kill"@ || v == "taskkill"@ || v == "stop-process"@ {
            "Stopping process"@
        } else if v == "echo"@ || v == "printf"@ || v == "write-output"@ || v == "write-host"@ {
            "Running command"@
        } else if is_script_path(verb) {
            "Running script: "@ + spec_basename(verb)
        } else {
            "Running: "@ + truncate(verb, 32)
        }
    }
}

fn classify_exec(binary: &[char]) -> (r: Vec<char>)
    ensures
        r@ == spec_classify_bash(binary@),
    decreases binary@.len(), 2int,
{
    classify_bash(binary)
}

pub fn classify_npm(rest0: &[char]) -> (r: Vec<char>)
    ensures
        r@ == spec_classify_npm(rest0@),
    decreases rest0@.len(), 0int,
{
    let rest = strip_npm_workspace_flags(rest0);
    let sub = first_non_flag(rest.as_slice());
    let s = sub.as_slice();
    if eq_lit(s, "test") {
        chars_of("Running tests")
    } else if eq_lit(s, "build") {
        chars_of("Building")
    } else if eq_lit(s, "install") || eq_lit(s, "i") || eq_lit(s, "ci") || eq_lit(s, "add") {
        chars_of("Installing dependencies")
    } else if eq_lit(s, "start") {
        chars_of("Starting server")
    } else if eq_lit(s, "publish") {
        chars_of("Publishing package")
    } else if eq_lit(s, "lint") {
        chars_of("Linting")
    } else if eq_lit(s, "run") {
        let ts = words_exec(rest.as_slice());
        let mut i: usize = 0;
        while i < ts.len() && (starts_with_ch(ts[i].as_slice(), '-') || eq_lit(ts[i].as_slice(), "run"))
            invariant
                run_script_from(vv(ts@), i as int) == run_script_from(vv(ts@), 0),
            decreases ts.len() - i,
        {
            i += 1;
        }
        let script = word_at(ts.as_slice(), i);
        let sc = script.as_slice();
        if eq_lit(sc, "dev") || eq_lit(sc, "start") || eq_lit(sc, "serve") || eq_lit(sc, "preview") {
            chars_of("Starting dev server")
        } else if eq_lit(sc, "build") {
            chars_of("Building")
        } else if eq_lit(sc, "test") || eq_lit(sc, "jest") || eq_lit(sc, "vitest") {
            chars_of("Running tests")
        } else if eq_lit(sc, "lint") || eq_lit(sc, "check") {
            chars_of("Linting")
        } else if eq_lit(sc, "format") || eq_lit(sc, "fmt") || eq_lit(sc, "prettier") {
            chars_of("Formatting code")
        } else if eq_lit(sc, "typecheck") || eq_lit(sc, "type-check") || eq_lit(sc, "tsc") || eq_lit(sc, "ts") {
            chars_of("Type checking")
        } else if eq_lit(sc, "migrate") || eq_lit(sc, "db:migrate") || eq_lit(sc, "migration") {
            chars_of("Running migration")
        } else if eq_lit(sc, "seed") || eq_lit(sc, "db:seed") {
            chars_of("Seeding database")
        } else if eq_lit(sc, "storybook") {
            chars_of("Starting Storybook")
        } else if sc.len() == 0 {
            chars_of("Running npm")
        } else {
            let t = truncate_exec(sc, 24);
            lit_then("Running: ", t.as_slice())
        }
    } else if eq_lit(s, "nx") || eq_lit(s, "turbo") {
        let after = rest_after_first_token(rest.as_slice());
        let target = first_non_flag(after.as_slice());
        classify_nx(target.as_slice())
    } else if eq_lit(s, "exec") || eq_lit(s, "x") {
        let after = rest_after_first_token(rest.as_slice());
        let binary = first_non_flag(after.as_slice());
        proof {
            reveal_strlit("exec");
            reveal_strlit("x");
            lemma_strip_npm_len(rest0@);
            lemma_first_non_flag_len(rest@);
            lemma_rest_after_first_token_len(rest@);
            lemma_first_non_flag_len(after@);
        }
        classify_exec(binary.as_slice())
    } else {
        chars_of("Running npm")
    }
}

/// Classify a noise-stripped command into a human label.
pub fn classify_bash(cmd: &[char]) -> (r: Vec<char>)
    ensures
        r@ == spec_classify_bash(cmd@),
    decreases cmd@.len(), 1int,
{
    let ws = words_exec(cmd);
    if ws.len() == 0 {
        return chars_of("Running command");
    }
    proof {
        lemma_words_len(cmd@, 0);
        assert(vv(ws@)[0] == ws@[0]@);
    }
    let verb = ws[0].as_slice();
    assert(verb@ == words(cmd@)[0]);
    let vl = lower_all(verb);
    let v = vl.as_slice();
    let after = copy_range(cmd, verb.len(), cmd.len());
    let rest_v = trim_exec(after.as_slice());
    let rest = rest_v.as_slice();
    assert(rest@ == trim(cmd@.skip(verb@.len() as int)));
    assert(v@ == lower_seq(words(cmd@)[0]));
    if eq_lit(v, "pytest") || eq_lit(v, "py.test") {
        chars_of("Running Python tests")
    } else if eq_lit(v, "jest") || eq_lit(v, "vitest") || eq_lit(v, "mocha") || eq_lit(v, "jasmine") || eq_lit(v, "ava") {
        chars_of("Running JS tests")
    } else if eq_lit(v, "rspec") {
        chars_of("Running Ruby tests")
    } else if eq_lit(v, "phpunit") {
        chars_of("Running PHP tests")
    } else if eq_lit(v, "npm") || eq_lit(v, "yarn") || eq_lit(v, "pnpm") || eq_lit(v, "bun") {
        proof {
            lemma_trim_len(after@);
        }
        classify_npm(rest)
    } else if eq_lit(v, "npx") || eq_lit(v, "bunx") {
        let f = first_non_flag(rest);
        let target = if f.len() > 0 {
            f
        } else {
            assert(rest@.subrange(0, rest@.len() as int) == rest@);
            copy_range(rest, 0, rest.len())
        };
        let b = basename(target.as_slice());
        lit_then("Running: ", b.as_slice())
    } else if eq_lit(v, "cargo") {
        let f = first_non_flag(rest);
        classify_cargo(f.as_slice())
    } else if eq_lit(v, "go") {
        let f = first_non_flag(rest);
        classify_go(f.as_slice())
    } else if eq_lit(v, "dotnet") {
        let f = first_non_flag(rest);
        classify_dotnet(f.as_slice())
    } else if eq_lit(v, "make") || eq_lit(v, "cmake") || eq_lit(v, "ninja") {
        chars_of("Building")
    } else if eq_lit(v, "msbuild") {
        chars_of("Building .NET")
    } else if eq_lit(v, "gradle") || eq_lit(v, "mvn") || eq_lit(v, "ant") {
        chars_of("Building")
    } else if eq_lit(v, "python") || eq_lit(v, "python3") || eq_lit(v, "py") {
        classify_python(rest)
    } else if eq_lit(v, "node") || eq_lit(v, "ts-node") || eq_lit(v, "tsx") || eq_lit(v, "deno") {
        classify_node(rest)
    } else if eq_lit(v, "bash") || eq_lit(v, "sh") || eq_lit(v, "zsh") || eq_lit(v, "fish") {
        classify_script(rest)
    } else if eq_lit(v, "powershell") || eq_lit(v, "pwsh") {
        classify_script(rest)
    } else if eq_lit(v, "git") {
        classify_git(rest)
    } else if eq_lit(v, "gh") {
        classify_gh(cmd)
    } else if eq_lit(v, "cat") || eq_lit(v, "type") || eq_lit(v, "head") || eq_lit(v, "tail") || eq_lit(v, "less") || eq_lit(v, "more") {
        let target = first_non_flag(rest);
        if looks_like_path(target.as_slice()) {
            let b = basename(target.as_slice());
            lit_then("Reading: ", b.as_slice())
        } else {
            chars_of("Reading file")
        }
    } else if eq_lit(v, "get-content") || eq_lit(v, "gc") {
        classify_get_content(rest)
    } else if eq_lit(v, "ls") || eq_lit(v, "dir") || eq_lit(v, "get-childitem") || eq_lit(v, "gci") || eq_lit(v, "exa") || eq_lit(v, "lsd") {
        chars_of("Listing directory")
    } else if eq_lit(v, "grep") || eq_lit(v, "ag") || eq_lit(v, "ack") || eq_lit(v, "fgrep") || eq_lit(v, "egrep") {
        chars_of("Searching code")
    } else if eq_lit(v, "rg") || eq_lit(v, "ripgrep") {
        classify_rg(rest)
    } else if eq_lit(v, "find") {
        chars_of("Searching files")
    } else if eq_lit(v, "mkdir") || eq_lit(v, "md") || eq_lit(v, "new-item") {
        chars_of("Creating directory")
    } else if eq_lit(v, "rm") || eq_lit(v, "del") || eq_lit(v, "remove-item") || eq_lit(v, "ri") {
        chars_of("Removing files")
    } else if eq_lit(v, "cp") || eq_lit(v, "copy") || eq_lit(v, "copy-item") {
        chars_of("Copying files")
    } else if eq_lit(v, "mv") || eq_lit(v, "move") || eq_lit(v, "move-item") {
        chars_of("Moving files")
    } else if eq_lit(v, "touch") || eq_lit(v, "new-file") {
        chars_of("Creating file")
    } else if eq_lit(v, "chmod") || eq_lit(v, "chown") || eq_lit(v, "attrib") {
        chars_of("Setting permissions")
    } else if eq_lit(v, "rename") || eq_lit(v, "ren") {
        chars_of("Renaming file")
    } else if eq_lit(v, "eslint") || eq_lit(v, "tslint") || eq_lit(v, "oxlint") {
        chars_of("Linting JS")
    } else if eq_lit(v, "prettier") {
        chars_of("Formatting code")
    } else if eq_lit(v, "black") || eq_lit(v, "ruff") || eq_lit(v, "autopep8") || eq_lit(v, "isort") {
        chars_of("Formatting Python")
    } else if eq_lit(v, "flake8") || eq_lit(v, "pylint") || eq_lit(v, "bandit") {
        chars_of("Linting Python")
    } else if eq_lit(v, "mypy") || eq_lit(v, "pyright") || eq_lit(v, "pytype") {
        chars_of("Type checking")
    } else if eq_lit(v, "tsc") {
        if contains_lit(rest, "--noEmit") || contains_lit(rest, "--check") {
            chars_of("Type checking")
        } else {
            chars_of("Compiling TypeScript")
        }
    } else if eq_lit(v, "cargo-fmt") || eq_lit(v, "gofmt") || eq_lit(v, "rustfmt") {
        chars_of("Formatting code")
    } else if eq_lit(v, "pip") || eq_lit(v, "pip3") || eq_lit(v, "poetry") || eq_lit(v, "uv") || eq_lit(v, "pipenv") || eq_lit(v, "conda") {
        classify_pip(rest)
    } else if eq_lit(v, "docker") {
        let f = first_non_flag(rest);
        classify_docker(f.as_slice())
    } else if eq_lit(v, "docker-compose") || eq_lit(v, "podman") || eq_lit(v, "kubectl") {
        chars_of("Container operation")
    } else if eq_lit(v, "curl") || eq_lit(v, "wget") || eq_lit(v, "http") || eq_lit(v, "httpie") {
        chars_of("Fetching URL")
    } else if eq_lit(v, "ping") {
        chars_of("Checking connectivity")
    } else if eq_lit(v, "which") || eq_lit(v, "where") || eq_lit(v, "command") {
        chars_of("Checking tool availability")
    } else if eq_lit(v, "env") || eq_lit(v, "printenv") || eq_lit(v, "set") {
        chars_of("Checking environment")
    } else if eq_lit(v, "ps") || eq_lit(v, "top") || eq_lit(v, "htop") || eq_lit(v, "tasklist") {
        chars_of("Checking processes")
    } else if eq_lit(v, "kill") || eq_lit(v, "taskkill") || eq_lit(v, "stop-process") {
        chars_of("Stopping process")
    } else if eq_lit(v, "echo") || eq_lit(v, "printf") || eq_lit(v, "write-output") || eq_lit(v, "write-host") {
        chars_of("Running command")
    } else if ends_with_lit(verb, ".sh") || ends_with_lit(verb, ".ps1") || ends_with_lit(verb, ".py") || starts_with_lit(verb, "./") || starts_with_lit(verb, ".\\") {
        let b = basename(verb);
        lit_then("Running script: ", b.as_slice())
    } else {
        let t = truncate_exec(verb, 32);
        lit_then("Running: ", t.as_slice())
    }
}

/// Label for a raw shell command.
pub open spec fn spec_describe_bash(raw: Seq<char>) -> Seq<char> {
    match spec_classify_pipeline_or_heredoc(raw) {
        Some(label) => label,
        None => spec_classify_bash(spec_strip_shell_noise(raw)),
    }
}

pub fn describe_bash_chars(raw: &[char]) -> (r: Vec<char>)
    ensures
        r@ == spec_describe_bash(raw@),
{
    if let Some(label) = classify_pipeline_or_heredoc(raw) {
        return label;
    }
    let cmd = strip_shell_noise(raw);
    classify_bash(cmd.as_slice())
}

/// Human label for a raw shell command, e.g. `git log -S foo` is
/// `Searching git history`.
pub fn describe_bash(raw: &str) -> (r: String)
    ensures
        r@ == spec_describe_bash(raw@),
{
    let c = chars_of(raw);
    let l = describe_bash_chars(c.as_slice());
    string_of(l.as_slice())
}

/// Normalized form of a shell command used to dedupe activity within a turn.
pub open spec fn spec_activity_dedupe_key(raw: Seq<char>) -> Seq<char> {
    lower_seq(join(words(spec_strip_shell_noise(raw)), " "@))
}

pub fn activity_dedupe_key_chars(raw: &[char]) -> (r: Vec<char>)
    ensures
        r@ == spec_activity_dedupe_key(raw@),
{
    let s = strip_shell_noise(raw);
    let ws = words_exec(s.as_slice());
    let sep = chars_of(" ");
    let j = join_exec(ws.as_slice(), sep.as_slice());
    lower_all(j.as_slice())
}

/// Normalized form of a shell command (noise stripped, whitespace collapsed,
/// ASCII lower case).
pub fn activity_dedupe_key(raw: &str) -> (r: String)
    ensures
        r@ == spec_activity_dedupe_key(raw@),
{
    let c = chars_of(raw);
    let k = activity_dedupe_key_chars(c.as_slice());
    string_of(k.as_slice())
}

} // verus!
