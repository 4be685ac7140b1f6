//! Text primitives over sequences of characters.
//!
//! Every label the library produces is computed over `Seq<char>`: trimming,
//! searching, splitting on whitespace, ASCII case folding, decimal numbers and
//! truncation with an ellipsis. Each executable helper is tied to the spec
//! function of the same meaning.
use vstd::prelude::*;

verus! {

broadcast use vstd::string::group_string_axioms;

// ───────────────────────── characters ─────────────────────────

/// Unicode `White_Space`, the set that `char::is_whitespace` tests.
pub open spec fn is_ws(c: char) -> bool {
    let u = c as u32;
    ||| (0x09 <= u && u <= 0x0d)
    ||| u == 0x20
    ||| u == 0x85
    ||| u == 0xa0
    ||| u == 0x1680
    ||| (0x2000 <= u && u <= 0x200a)
    ||| u == 0x2028
    ||| u == 0x2029
    ||| u == 0x202f
    ||| u == 0x205f
    ||| u == 0x3000
}

pub open spec fn is_digit(c: char) -> bool {
    48 <= (c as u32) && (c as u32) <= 57
}

pub open spec fn is_hex(c: char) -> bool {
    is_digit(c) || (97 <= (c as u32) && (c as u32) <= 102) || (65 <= (c as u32) && (c as u32)
        <= 70)
}

pub open spec fn is_upper(c: char) -> bool {
    65 <= (c as u32) && (c as u32) <= 90
}

/// ASCII lower-casing of one character.
pub open spec fn lower(c: char) -> char {
    if is_upper(c) {
        ((c as u32) + 32) as char
    } else {
        c
    }
}

pub open spec fn lower_seq(s: Seq<char>) -> Seq<char> {
    s.map_values(|c: char| lower(c))
}

/// `eq_ignore_ascii_case`.
pub open spec fn eq_ic(a: Seq<char>, b: Seq<char>) -> bool {
    lower_seq(a) == lower_seq(b)
}

/// Number of bytes of the UTF-8 encoding of one character.
pub open spec fn char_utf8_len(c: char) -> nat {
    let u = c as u32;
    if u < 0x80 {
        1
    } else if u < 0x800 {
        2
    } else if u < 0x10000 {
        3
    } else {
        4
    }
}

/// Number of bytes of the UTF-8 encoding of a string.
pub open spec fn utf8_len(s: Seq<char>) -> nat
    decreases s.len(),
{
    if s.len() == 0 {
        0
    } else {
        utf8_len(s.drop_last()) + char_utf8_len(s.last())
    }
}

pub fn is_whitespace(c: char) -> (b: bool)
    ensures
        b == is_ws(c),
{
    let u = c as u32;
    (0x09 <= u && u <= 0x0d) || u == 0x20 || u == 0x85 || u == 0xa0 || u == 0x1680 || (0x2000
        <= u && u <= 0x200a) || u == 0x2028 || u == 0x2029 || u == 0x202f || u == 0x205f || u
        == 0x3000
}

pub fn is_ascii_digit(c: char) -> (b: bool)
    ensures
        b == is_digit(c),
{
    let u = c as u32;
    48 <= u && u <= 57
}

pub fn is_ascii_hexdigit(c: char) -> (b: bool)
    ensures
        b == is_hex(c),
{
    let u = c as u32;
    (48 <= u && u <= 57) || (97 <= u && u <= 102) || (65 <= u && u <= 70)
}

pub fn to_lower(c: char) -> (r: char)
    ensures
        r == lower(c),
{
    let u = c as u32;
    if 65 <= u && u <= 90 {
        let b = c as u8;
        (b + 32) as char
    } else {
        c
    }
}

pub fn char_len_utf8(c: char) -> (n: usize)
    ensures
        n == char_utf8_len(c),
{
    let u = c as u32;
    if u < 0x80 {
        1
    } else if u < 0x800 {
        2
    } else if u < 0x10000 {
        3
    } else {
        4
    }
}

// ───────────────────────── conversions ─────────────────────────

/// The characters of a string slice.
pub fn chars_of(s: &str) -> (r: Vec<char>)
    ensures
        r@ == s@,
{
    let mut v: Vec<char> = Vec::new();
    for c in it: s.chars()
        invariant
            v@ == it.seq().take(it.index() as int),
    {
        v.push(c);
    }
    v
}

/// `String::push` (std gives it no specification in vstd).
#[verifier::external_body]
fn string_push(s: &mut String, c: char)
    ensures
        final(s)@ == old(s)@.push(c),
{
    s.push(c);
}

/// A `String` holding exactly the given characters.
pub fn string_of(v: &[char]) -> (r: String)
    ensures
        r@ == v@,
{
    let mut s = String::new();
    let mut i: usize = 0;
    while i < v.len()
        invariant
            i <= v.len(),
            s@ == v@.take(i as int),
        decreases v.len() - i,
    {
        string_push(&mut s, v[i]);
        assert(v@.take(i + 1) == v@.take(i as int).push(v@[i as int]));
        i += 1;
    }
    assert(v@.take(v.len() as int) == v@);
    s
}

// ───────────────────────── sequences ─────────────────────────

pub fn copy_range(s: &[char], i: usize, j: usize) -> (r: Vec<char>)
    requires
        i <= j <= s@.len(),
    ensures
        r@ == s@.subrange(i as int, j as int),
{
    let mut v: Vec<char> = Vec::new();
    let mut k = i;
    while k < j
        invariant
            i <= k <= j <= s@.len(),
            v@ == s@.subrange(i as int, k as int),
        decreases j - k,
    {
        v.push(s[k]);
        assert(s@.subrange(i as int, k + 1) == s@.subrange(i as int, k as int).push(s@[k as int]));
        k += 1;
    }
    v
}

/// A copy of the whole slice.
pub fn copy_all(s: &[char]) -> (r: Vec<char>)
    ensures
        r@ == s@,
{
    let r = copy_range(s, 0, s.len());
    assert(s@.subrange(0, s@.len() as int) =~= s@);
    r
}

pub fn push_all(out: &mut Vec<char>, s: &[char])
    ensures
        final(out)@ == old(out)@ + s@,
{
    let mut k: usize = 0;
    while k < s.len()
        invariant
            k <= s@.len(),
            out@ == old(out)@ + s@.take(k as int),
        decreases s.len() - k,
    {
        out.push(s[k]);
        assert(s@.take(k + 1) == s@.take(k as int).push(s@[k as int]));
        k += 1;
    }
    assert(s@.take(s@.len() as int) == s@);
}

pub fn push_str(out: &mut Vec<char>, s: &str)
    ensures
        final(out)@ == old(out)@ + s@,
{
    let v = chars_of(s);
    push_all(out, v.as_slice());
}

pub fn concat(a: &[char], b: &[char]) -> (r: Vec<char>)
    ensures
        r@ == a@ + b@,
{
    let mut out = copy_range(a, 0, a.len());
    assert(a@.subrange(0, a@.len() as int) == a@);
    push_all(&mut out, b);
    out
}

/// `lit` followed by `b`.
pub fn lit_then(lit: &str, b: &[char]) -> (r: Vec<char>)
    ensures
        r@ == lit@ + b@,
{
    let mut out = chars_of(lit);
    push_all(&mut out, b);
    out
}

pub fn seq_eq(a: &[char], b: &[char]) -> (r: bool)
    ensures
        r == (a@ == b@),
{
    if a.len() != b.len() {
        return false;
    }
    let mut k: usize = 0;
    while k < a.len()
        invariant
            a@.len() == b@.len(),
            k <= a@.len(),
            a@.take(k as int) == b@.take(k as int),
        decreases a.len() - k,
    {
        if a[k] != b[k] {
            assert(a@[k as int] != b@[k as int]);
            return false;
        }
        assert(a@.take(k + 1) == a@.take(k as int).push(a@[k as int]));
        assert(b@.take(k + 1) == b@.take(k as int).push(b@[k as int]));
        k += 1;
    }
    assert(a@.take(a@.len() as int) == a@);
    assert(b@.take(b@.len() as int) == b@);
    true
}

/// Equality of two string slices.
pub fn str_eq(a: &str, b: &str) -> (r: bool)
    ensures
        r == (a@ == b@),
{
    let x = chars_of(a);
    let y = chars_of(b);
    seq_eq(x.as_slice(), y.as_slice())
}

/// Equality with a string literal.
pub fn eq_lit(a: &[char], lit: &str) -> (r: bool)
    ensures
        r == (a@ == lit@),
{
    let b = chars_of(lit);
    seq_eq(a, b.as_slice())
}

pub fn lower_all(s: &[char]) -> (r: Vec<char>)
    ensures
        r@ == lower_seq(s@),
{
    let mut v: Vec<char> = Vec::new();
    let mut k: usize = 0;
    while k < s.len()
        invariant
            k <= s@.len(),
            v@ == lower_seq(s@.take(k as int)),
        decreases s.len() - k,
    {
        v.push(to_lower(s[k]));
        assert(lower_seq(s@.take(k + 1)) == lower_seq(s@.take(k as int)).push(lower(s@[k as int])));
        k += 1;
    }
    assert(s@.take(s@.len() as int) == s@);
    v
}

pub fn eq_ignore_case(a: &[char], b: &[char]) -> (r: bool)
    ensures
        r == eq_ic(a@, b@),
{
    let la = lower_all(a);
    let lb = lower_all(b);
    seq_eq(la.as_slice(), lb.as_slice())
}

pub fn eq_ignore_case_lit(a: &[char], lit: &str) -> (r: bool)
    ensures
        r == eq_ic(a@, lit@),
{
    let b = chars_of(lit);
    eq_ignore_case(a, b.as_slice())
}

pub fn utf8_byte_len(s: &[char]) -> (n: u128)
    ensures
        n == utf8_len(s@),
{
    let mut n: u128 = 0;
    let mut k: usize = 0;
    while k < s.len()
        invariant
            k <= s@.len(),
            n == utf8_len(s@.take(k as int)),
            n <= 4 * k,
        decreases s.len() - k,
    {
        assert(s@.take(k + 1).drop_last() == s@.take(k as int));
        n = n + char_len_utf8(s[k]) as u128;
        k += 1;
    }
    assert(s@.take(s@.len() as int) == s@);
    n
}

// ───────────────────────── prefixes, suffixes, search ─────────────────────────

pub open spec fn starts_with(s: Seq<char>, p: Seq<char>) -> bool {
    p.len() <= s.len() && s.take(p.len() as int) == p
}

pub open spec fn ends_with(s: Seq<char>, p: Seq<char>) -> bool {
    p.len() <= s.len() && s.skip(s.len() - p.len()) == p
}

pub open spec fn starts_with_char(s: Seq<char>, c: char) -> bool {
    s.len() > 0 && s[0] == c
}

pub open spec fn ends_with_char(s: Seq<char>, c: char) -> bool {
    s.len() > 0 && s.last() == c
}

pub open spec fn occurs_at(s: Seq<char>, p: Seq<char>, i: int) -> bool {
    0 <= i && i + p.len() <= s.len() && s.subrange(i, i + p.len()) == p
}

/// First position at or after `i` where `p` occurs, or -1.
pub open spec fn find_from(s: Seq<char>, p: Seq<char>, i: int) -> int
    decreases s.len() + 1 - i,
{
    if i < 0 || i + p.len() > s.len() {
        -1
    } else if occurs_at(s, p, i) {
        i
    } else {
        find_from(s, p, i + 1)
    }
}

/// `str::find`, counted in characters; -1 when absent.
pub open spec fn find(s: Seq<char>, p: Seq<char>) -> int {
    find_from(s, p, 0)
}

pub open spec fn contains(s: Seq<char>, p: Seq<char>) -> bool {
    find(s, p) >= 0
}

pub open spec fn contains_char(s: Seq<char>, c: char) -> bool {
    exists|i: int| 0 <= i < s.len() && s[i] == c
}

/// Last position before `j` holding `c`, or -1.
pub open spec fn rfind_char_before(s: Seq<char>, c: char, j: int) -> int
    decreases j,
{
    if j <= 0 || j > s.len() {
        -1
    } else if s[j - 1] == c {
        j - 1
    } else {
        rfind_char_before(s, c, j - 1)
    }
}

pub open spec fn rfind_char(s: Seq<char>, c: char) -> int {
    rfind_char_before(s, c, s.len() as int)
}

pub proof fn lemma_find_from_bounds(s: Seq<char>, p: Seq<char>, i: int)
    requires
        0 <= i,
    ensures
        find_from(s, p, i) == -1 || (i <= find_from(s, p, i) && occurs_at(
            s,
            p,
            find_from(s, p, i),
        )),
        forall|k: int| i <= k && (k < find_from(s, p, i) || find_from(s, p, i) == -1) ==> !occurs_at(s, p, k),
    decreases s.len() + 1 - i,
{
    if i < 0 || i + p.len() > s.len() {
    } else if occurs_at(s, p, i) {
    } else {
        lemma_find_from_bounds(s, p, i + 1);
        assert forall|k: int| i <= k && (k < find_from(s, p, i) || find_from(s, p, i) == -1) implies !occurs_at(s, p, k) by {
            if k > i {
            }
        }
    }
}

pub proof fn lemma_rfind_bounds(s: Seq<char>, c: char, j: int)
    ensures
        rfind_char_before(s, c, j) == -1 || (0 <= rfind_char_before(s, c, j) < j && s[rfind_char_before(s, c, j)] == c),
        0 <= j <= s.len() ==> forall|k: int| rfind_char_before(s, c, j) < k < j ==> s[k] != c,
    decreases j,
{
    if j <= 0 || j > s.len() {
    } else if s[j - 1] == c {
    } else {
        lemma_rfind_bounds(s, c, j - 1);
    }
}

pub fn starts_with_exec(s: &[char], p: &[char]) -> (r: bool)
    ensures
        r == starts_with(s@, p@),
{
    if p.len() > s.len() {
        return false;
    }
    let head = copy_range(s, 0, p.len());
    seq_eq(head.as_slice(), p)
}

pub fn starts_with_lit(s: &[char], lit: &str) -> (r: bool)
    ensures
        r == starts_with(s@, lit@),
{
    let p = chars_of(lit);
    starts_with_exec(s, p.as_slice())
}

pub fn ends_with_exec(s: &[char], p: &[char]) -> (r: bool)
    ensures
        r == ends_with(s@, p@),
{
    if p.len() > s.len() {
        return false;
    }
    let tail = copy_range(s, s.len() - p.len(), s.len());
    seq_eq(tail.as_slice(), p)
}

pub fn ends_with_lit(s: &[char], lit: &str) -> (r: bool)
    ensures
        r == ends_with(s@, lit@),
{
    let p = chars_of(lit);
    ends_with_exec(s, p.as_slice())
}

pub fn starts_with_ch(s: &[char], c: char) -> (r: bool)
    ensures
        r == starts_with_char(s@, c),
{
    s.len() > 0 && s[0] == c
}

pub fn ends_with_ch(s: &[char], c: char) -> (r: bool)
    ensures
        r == ends_with_char(s@, c),
{
    s.len() > 0 && s[s.len() - 1] == c
}

pub fn occurs_at_exec(s: &[char], p: &[char], i: usize) -> (r: bool)
    ensures
        r == occurs_at(s@, p@, i as int),
{
    if i > s.len() || p.len() > s.len() - i {
        return false;
    }
    let part = copy_range(s, i, i + p.len());
    seq_eq(part.as_slice(), p)
}

/// `str::find` with a string pattern.
pub fn find_exec(s: &[char], p: &[char]) -> (r: Option<usize>)
    ensures
        match r {
            Some(i) => i == find(s@, p@) && i >= 0,
            None => find(s@, p@) == -1,
        },
{
    if p.len() > s.len() {
        return None;
    }
    let limit = s.len() - p.len();
    let mut i: usize = 0;
    loop
        invariant
            p@.len() <= s@.len(),
            limit == s@.len() - p@.len(),
            i <= limit,
            find_from(s@, p@, i as int) == find_from(s@, p@, 0),
        decreases limit - i,
    {
        if occurs_at_exec(s, p, i) {
            return Some(i);
        }
        if i == limit {
            assert(find_from(s@, p@, i + 1) == -1);
            return None;
        }
        i += 1;
    }
}

/// `find` starting at position `i`.
pub fn find_from_exec(s: &[char], p: &[char], i0: usize) -> (r: Option<usize>)
    requires
        i0 <= s@.len(),
    ensures
        match r {
            Some(i) => i == find_from(s@, p@, i0 as int) && i0 <= i && i + p@.len() <= s@.len(),
            None => find_from(s@, p@, i0 as int) == -1,
        },
{
    if p.len() > s.len() || i0 > s.len() - p.len() {
        return None;
    }
    let limit = s.len() - p.len();
    let mut i: usize = i0;
    loop
        invariant
            p@.len() <= s@.len(),
            limit == s@.len() - p@.len(),
            i0 <= i <= limit,
            find_from(s@, p@, i as int) == find_from(s@, p@, i0 as int),
        decreases limit - i,
    {
        if occurs_at_exec(s, p, i) {
            return Some(i);
        }
        if i == limit {
            assert(find_from(s@, p@, i + 1) == -1);
            return None;
        }
        i += 1;
    }
}

pub fn find_lit(s: &[char], lit: &str) -> (r: Option<usize>)
    ensures
        match r {
            Some(i) => i == find(s@, lit@) && i >= 0,
            None => find(s@, lit@) == -1,
        },
{
    let p = chars_of(lit);
    find_exec(s, p.as_slice())
}

pub fn contains_lit(s: &[char], lit: &str) -> (r: bool)
    ensures
        r == contains(s@, lit@),
{
    find_lit(s, lit).is_some()
}

pub fn find_char(s: &[char], c: char) -> (r: Option<usize>)
    ensures
        match r {
            Some(i) => i == find(s@, seq![c]) && i >= 0,
            None => find(s@, seq![c]) == -1,
        },
{
    let p = vec![c];
    assert(p@ == seq![c]);
    find_exec(s, p.as_slice())
}

pub fn contains_ch(s: &[char], c: char) -> (r: bool)
    ensures
        r == contains_char(s@, c),
{
    let mut k: usize = 0;
    while k < s.len()
        invariant
            k <= s@.len(),
            forall|j: int| 0 <= j < k ==> s@[j] != c,
        decreases s.len() - k,
    {
        if s[k] == c {
            return true;
        }
        k += 1;
    }
    false
}

pub fn rfind_ch(s: &[char], c: char) -> (r: Option<usize>)
    ensures
        match r {
            Some(i) => i == rfind_char(s@, c) && i >= 0,
            None => rfind_char(s@, c) == -1,
        },
{
    let mut j = s.len();
    while j > 0
        invariant
            j <= s@.len(),
            rfind_char_before(s@, c, j as int) == rfind_char(s@, c),
        decreases j,
    {
        if s[j - 1] == c {
            return Some(j - 1);
        }
        j -= 1;
    }
    None
}

// ───────────────────────── whitespace ─────────────────────────

/// First index at or after `i` that is not whitespace (or the length).
pub open spec fn skip_ws(s: Seq<char>, i: int) -> int
    decreases s.len() - i,
{
    if 0 <= i < s.len() && is_ws(s[i]) {
        skip_ws(s, i + 1)
    } else {
        i
    }
}

/// First index at or after `i` that is whitespace (or the length).
pub open spec fn skip_word(s: Seq<char>, i: int) -> int
    decreases s.len() - i,
{
    if 0 <= i < s.len() && !is_ws(s[i]) {
        skip_word(s, i + 1)
    } else {
        i
    }
}

/// Start of the trailing whitespace run that ends at `j`.
pub open spec fn back_ws(s: Seq<char>, j: int) -> int
    decreases j,
{
    if 0 < j <= s.len() && is_ws(s[j - 1]) {
        back_ws(s, j - 1)
    } else {
        j
    }
}

pub open spec fn trim_start(s: Seq<char>) -> Seq<char> {
    s.skip(skip_ws(s, 0))
}

pub open spec fn trim_end(s: Seq<char>) -> Seq<char> {
    s.take(back_ws(s, s.len() as int))
}

/// `str::trim`.
pub open spec fn trim(s: Seq<char>) -> Seq<char> {
    trim_end(trim_start(s))
}

pub proof fn lemma_skip_ws(s: Seq<char>, i: int)
    requires
        0 <= i <= s.len(),
    ensures
        i <= skip_ws(s, i) <= s.len(),
        skip_ws(s, i) < s.len() ==> !is_ws(s[skip_ws(s, i)]),
        forall|k: int| i <= k < skip_ws(s, i) ==> is_ws(#[trigger] s[k]),
    decreases s.len() - i,
{
    if i < s.len() && is_ws(s[i]) {
        lemma_skip_ws(s, i + 1);
    }
}

pub proof fn lemma_skip_word(s: Seq<char>, i: int)
    requires
        0 <= i <= s.len(),
    ensures
        i <= skip_word(s, i) <= s.len(),
        skip_word(s, i) < s.len() ==> is_ws(s[skip_word(s, i)]),
        forall|k: int| i <= k < skip_word(s, i) ==> !is_ws(#[trigger] s[k]),
    decreases s.len() - i,
{
    if i < s.len() && !is_ws(s[i]) {
        lemma_skip_word(s, i + 1);
    }
}

pub proof fn lemma_back_ws(s: Seq<char>, j: int)
    requires
        0 <= j <= s.len(),
    ensures
        0 <= back_ws(s, j) <= j,
        back_ws(s, j) > 0 ==> !is_ws(s[back_ws(s, j) - 1]),
        forall|k: int| back_ws(s, j) <= k < j ==> is_ws(#[trigger] s[k]),
    decreases j,
{
    if 0 < j && is_ws(s[j - 1]) {
        lemma_back_ws(s, j - 1);
    }
}

pub fn skip_ws_exec(s: &[char], i: usize) -> (r: usize)
    requires
        i <= s@.len(),
    ensures
        r == skip_ws(s@, i as int),
        i <= r <= s@.len(),
{
    let mut k = i;
    while k < s.len() && is_whitespace(s[k])
        invariant
            i <= k <= s@.len(),
            skip_ws(s@, k as int) == skip_ws(s@, i as int),
        decreases s.len() - k,
    {
        k += 1;
    }
    k
}

pub fn skip_word_exec(s: &[char], i: usize) -> (r: usize)
    requires
        i <= s@.len(),
    ensures
        r == skip_word(s@, i as int),
        i <= r <= s@.len(),
{
    let mut k = i;
    while k < s.len() && !is_whitespace(s[k])
        invariant
            i <= k <= s@.len(),
            skip_word(s@, k as int) == skip_word(s@, i as int),
        decreases s.len() - k,
    {
        k += 1;
    }
    k
}

pub fn back_ws_exec(s: &[char], j: usize) -> (r: usize)
    requires
        j <= s@.len(),
    ensures
        r == back_ws(s@, j as int),
        r <= j,
{
    let mut k = j;
    while k > 0 && is_whitespace(s[k - 1])
        invariant
            k <= j <= s@.len(),
            back_ws(s@, k as int) == back_ws(s@, j as int),
        decreases k,
    {
        k -= 1;
    }
    k
}

pub fn trim_start_exec(s: &[char]) -> (r: Vec<char>)
    ensures
        r@ == trim_start(s@),
{
    let a = skip_ws_exec(s, 0);
    copy_range(s, a, s.len())
}

pub fn trim_end_exec(s: &[char]) -> (r: Vec<char>)
    ensures
        r@ == trim_end(s@),
{
    let b = back_ws_exec(s, s.len());
    copy_range(s, 0, b)
}

pub fn trim_exec(s: &[char]) -> (r: Vec<char>)
    ensures
        r@ == trim(s@),
{
    let t = trim_start_exec(s);
    trim_end_exec(t.as_slice())
}

// ───────────────────────── words ─────────────────────────

/// The whitespace-separated words of `s` from index `i` on (`split_whitespace`).
pub open spec fn words_from(s: Seq<char>, i: int) -> Seq<Seq<char>>
    decreases s.len() - i,
{
    if i < 0 || i >= s.len() {
        seq![]
    } else {
        let a = skip_ws(s, i);
        if a >= s.len() {
            seq![]
        } else {
            let b = skip_word(s, a);
            if b <= i || b > s.len() {
                seq![]
            } else {
                seq![s.subrange(a, b)] + words_from(s, b)
            }
        }
    }
}

pub open spec fn words(s: Seq<char>) -> Seq<Seq<char>> {
    words_from(s, 0)
}

/// Every word is a piece of `s`.
pub proof fn lemma_words_infix(s: Seq<char>, i: int)
    requires
        0 <= i,
    ensures
        forall|k: int| 0 <= k < words_from(s, i).len() ==> is_infix(#[trigger] words_from(s, i)[k], s),
    decreases s.len() - i,
{
    if i < s.len() {
        lemma_skip_ws(s, i);
        let a = skip_ws(s, i);
        if a < s.len() {
            lemma_skip_word(s, a);
            let b = skip_word(s, a);
            if b > i && b <= s.len() {
                lemma_words_infix(s, b);
                lemma_infix_subrange(s, a, b);
                let w = words_from(s, i);
                assert forall|k: int| 0 <= k < w.len() implies is_infix(#[trigger] w[k], s) by {
                    if k > 0 {
                        assert(w[k] == words_from(s, b)[k - 1]);
                    }
                }
            }
        }
    }
}

/// The views of a vector of character vectors.
pub open spec fn vv(v: Seq<Vec<char>>) -> Seq<Seq<char>> {
    Seq::new(v.len(), |i: int| v[i]@)
}

pub proof fn lemma_words_step(s: Seq<char>, i: int)
    requires
        0 <= i <= s.len(),
        skip_ws(s, i) < s.len(),
    ensures
        skip_ws(s, i) < skip_word(s, skip_ws(s, i)),
        words_from(s, i) == seq![s.subrange(skip_ws(s, i), skip_word(s, skip_ws(s, i)))]
            + words_from(s, skip_word(s, skip_ws(s, i))),
{
    lemma_skip_ws(s, i);
    lemma_skip_word(s, skip_ws(s, i));
}

pub proof fn lemma_words_end(s: Seq<char>, i: int)
    requires
        0 <= i <= s.len(),
        skip_ws(s, i) >= s.len(),
    ensures
        words_from(s, i) == Seq::<Seq<char>>::empty(),
{
}

/// Every word is a nonempty piece of `s` after `i`.
pub proof fn lemma_words_len(s: Seq<char>, i: int)
    requires
        0 <= i,
    ensures
        forall|k: int|
            0 <= k < words_from(s, i).len() ==> 0 < (#[trigger] words_from(s, i)[k]).len() <= s.len() - i,
    decreases s.len() - i,
{
    if i < s.len() {
        lemma_skip_ws(s, i);
        let a = skip_ws(s, i);
        if a < s.len() {
            lemma_skip_word(s, a);
            let b = skip_word(s, a);
            if b > i && b <= s.len() {
                lemma_words_len(s, b);
                let w = words_from(s, i);
                assert forall|k: int| 0 <= k < w.len() implies 0 < (#[trigger] w[k]).len() <= s.len() - i by {
                    if k > 0 {
                        assert(w[k] == words_from(s, b)[k - 1]);
                    }
                }
            }
        }
    }
}

pub proof fn lemma_trim_len(s: Seq<char>)
    ensures
        trim_start(s).len() <= s.len(),
        trim_end(s).len() <= s.len(),
        trim(s).len() <= s.len(),
        trim(s).len() > 0 ==> !is_ws(trim(s)[0]),
        trim_start(s).len() > 0 ==> !is_ws(trim_start(s)[0]),
{
    lemma_skip_ws(s, 0);
    lemma_back_ws(s, s.len() as int);
    let t = trim_start(s);
    lemma_back_ws(t, t.len() as int);
}

/// `a` is a contiguous piece of `s`.
pub open spec fn is_infix(a: Seq<char>, s: Seq<char>) -> bool {
    exists|i: int, j: int| 0 <= i <= j <= s.len() && a == #[trigger] s.subrange(i, j)
}

pub proof fn lemma_infix_subrange(s: Seq<char>, i: int, j: int)
    requires
        0 <= i <= j <= s.len(),
    ensures
        is_infix(s.subrange(i, j), s),
{
}

pub proof fn lemma_infix_refl(s: Seq<char>)
    ensures
        is_infix(s, s),
{
    assert(s.subrange(0, s.len() as int) =~= s);
}

pub proof fn lemma_infix_trans(a: Seq<char>, b: Seq<char>, c: Seq<char>)
    requires
        is_infix(a, b),
        is_infix(b, c),
    ensures
        is_infix(a, c),
{
    let (i, j) = choose|i: int, j: int| 0 <= i <= j <= b.len() && a == #[trigger] b.subrange(i, j);
    let (k, l) = choose|k: int, l: int| 0 <= k <= l <= c.len() && b == #[trigger] c.subrange(k, l);
    assert(a =~= c.subrange(k + i, k + j));
}

/// What `trim` keeps is a piece of its input, and trimming it again
/// changes nothing.
pub proof fn lemma_trim_infix(s: Seq<char>)
    ensures
        is_infix(trim(s), s),
        trim(trim(s)) == trim(s),
{
    lemma_skip_ws(s, 0);
    let a = skip_ws(s, 0);
    let u = trim_start(s);
    lemma_back_ws(u, u.len() as int);
    let b = back_ws(u, u.len() as int);
    assert(trim(s) =~= s.subrange(a, a + b));
    let t = trim(s);
    lemma_trim_len(s);
    if t.len() > 0 {
        assert(t[t.len() - 1] == u[b - 1]);
        assert(skip_ws(t, 0) == 0);
        assert(back_ws(t, t.len() as int) == t.len());
        assert(trim_start(t) =~= t);
        assert(trim(t) =~= t);
    } else {
        assert(trim(t) =~= t);
    }
}

/// `split_whitespace().collect()`.
pub fn words_exec(s: &[char]) -> (r: Vec<Vec<char>>)
    ensures
        vv(r@) == words(s@),
{
    let mut out: Vec<Vec<char>> = Vec::new();
    let mut i: usize = 0;
    while i < s.len()
        invariant
            i <= s@.len(),
            vv(out@) + words_from(s@, i as int) == words(s@),
        decreases s.len() - i,
    {
        let a = skip_ws_exec(s, i);
        if a >= s.len() {
            proof {
                lemma_words_end(s@, i as int);
                assert(vv(out@) + words_from(s@, i as int) == vv(out@));
            }
            return out;
        }
        let b = skip_word_exec(s, a);
        proof {
            lemma_words_step(s@, i as int);
        }
        let w = copy_range(s, a, b);
        let ghost old_out = out@;
        out.push(w);
        proof {
            assert(vv(out@) == vv(old_out).push(w@));
            assert(vv(out@) + words_from(s@, b as int) == vv(old_out) + words_from(s@, i as int));
        }
        i = b;
    }
    proof {
        assert(words_from(s@, i as int) == Seq::<Seq<char>>::empty());
        assert(vv(out@) + words_from(s@, i as int) == vv(out@));
    }
    out
}

/// Joins `ws` with the separator `sep`.
pub open spec fn join(ws: Seq<Seq<char>>, sep: Seq<char>) -> Seq<char>
    decreases ws.len(),
{
    if ws.len() == 0 {
        seq![]
    } else if ws.len() == 1 {
        ws[0]
    } else {
        join(ws.drop_last(), sep) + sep + ws.last()
    }
}

pub fn join_exec(ws: &[Vec<char>], sep: &[char]) -> (r: Vec<char>)
    ensures
        r@ == join(vv(ws@), sep@),
{
    let mut out: Vec<char> = Vec::new();
    let mut k: usize = 0;
    while k < ws.len()
        invariant
            k <= ws@.len(),
            out@ == join(vv(ws@).take(k as int), sep@),
        decreases ws.len() - k,
    {
        let ghost before = out@;
        assert(vv(ws@).take(k + 1).drop_last() == vv(ws@).take(k as int));
        assert(vv(ws@).take(k + 1).last() == ws@[k as int]@);
        if k > 0 {
            push_all(&mut out, sep);
        }
        push_all(&mut out, ws[k].as_slice());
        proof {
            if k == 0 {
                assert(before == Seq::<char>::empty());
                assert(out@ == ws@[0]@);
            }
        }
        k += 1;
    }
    assert(vv(ws@).take(ws@.len() as int) == vv(ws@));
    out
}

// ───────────────────────── numbers ─────────────────────────

pub open spec fn digit_char(d: int) -> char {
    if d == 0 {
        '0'
    } else if d == 1 {
        '1'
    } else if d == 2 {
        '2'
    } else if d == 3 {
        '3'
    } else if d == 4 {
        '4'
    } else if d == 5 {
        '5'
    } else if d == 6 {
        '6'
    } else if d == 7 {
        '7'
    } else if d == 8 {
        '8'
    } else {
        '9'
    }
}

/// Decimal representation of a natural number (what `{}` prints).
pub open spec fn dec(n: nat) -> Seq<char>
    decreases n,
{
    if n < 10 {
        seq![digit_char(n as int)]
    } else {
        dec(n / 10).push(digit_char((n % 10) as int))
    }
}

fn digit_exec(d: u64) -> (c: char)
    requires
        d < 10,
    ensures
        c == digit_char(d as int),
{
    if d == 0 {
        '0'
    } else if d == 1 {
        '1'
    } else if d == 2 {
        '2'
    } else if d == 3 {
        '3'
    } else if d == 4 {
        '4'
    } else if d == 5 {
        '5'
    } else if d == 6 {
        '6'
    } else if d == 7 {
        '7'
    } else if d == 8 {
        '8'
    } else {
        '9'
    }
}

pub fn dec_exec(n: u64) -> (r: Vec<char>)
    ensures
        r@ == dec(n as nat),
    decreases n,
{
    if n < 10 {
        let mut v: Vec<char> = Vec::new();
        v.push(digit_exec(n));
        v
    } else {
        let mut v = dec_exec(n / 10);
        v.push(digit_exec(n % 10));
        v
    }
}

/// Value of a string of decimal digits.
pub open spec fn digits_val(s: Seq<char>) -> int
    decreases s.len(),
{
    if s.len() == 0 {
        0
    } else {
        digits_val(s.drop_last()) * 10 + ((s.last() as u32) - 48)
    }
}

pub open spec fn all_digits(s: Seq<char>) -> bool {
    forall|i: int| 0 <= i < s.len() ==> is_digit(#[trigger] s[i])
}

/// `str::parse::<u32>`: an optional `+`, then one or more decimal digits,
/// with a value that fits in 32 bits.
pub open spec fn parse_u32(s: Seq<char>) -> Option<u32> {
    let d = if s.len() > 0 && s[0] == '+' {
        s.drop_first()
    } else {
        s
    };
    if d.len() > 0 && all_digits(d) && digits_val(d) <= u32::MAX {
        Some(digits_val(d) as u32)
    } else {
        None
    }
}

pub fn all_digits_exec(s: &[char]) -> (r: bool)
    ensures
        r == all_digits(s@),
{
    let mut k: usize = 0;
    while k < s.len()
        invariant
            k <= s@.len(),
            forall|i: int| 0 <= i < k ==> is_digit(#[trigger] s@[i]),
        decreases s.len() - k,
    {
        if !is_ascii_digit(s[k]) {
            return false;
        }
        k += 1;
    }
    true
}

pub proof fn lemma_digits_val_nonneg(s: Seq<char>)
    requires
        all_digits(s),
    ensures
        digits_val(s) >= 0,
    decreases s.len(),
{
    if s.len() > 0 {
        assert(all_digits(s.drop_last()));
        lemma_digits_val_nonneg(s.drop_last());
        assert(is_digit(s[s.len() - 1]));
    }
}

pub fn parse_u32_exec(s: &[char]) -> (r: Option<u32>)
    ensures
        r == parse_u32(s@),
{
    let start: usize = if s.len() > 0 && s[0] == '+' {
        1
    } else {
        0
    };
    let d = copy_range(s, start, s.len());
    proof {
        if s@.len() > 0 && s@[0] == '+' {
            assert(d@ == s@.drop_first());
        } else {
            assert(d@ == s@);
        }
    }
    if d.len() == 0 {
        return None;
    }
    let big: u64 = 0x1_0000_0000;
    let mut acc: u64 = 0;
    let mut k: usize = 0;
    while k < d.len()
        invariant
            k <= d@.len(),
            d@.len() > 0,
            d@ == (if s@.len() > 0 && s@[0] == '+' {
                s@.drop_first()
            } else {
                s@
            }),
            all_digits(d@.take(k as int)),
            acc <= big,
            big == 0x1_0000_0000,
            acc == if digits_val(d@.take(k as int)) < big {
                digits_val(d@.take(k as int))
            } else {
                big as int
            },
        decreases d.len() - k,
    {
        let c = d[k];
        if !is_ascii_digit(c) {
            assert(!all_digits(d@)) by {
                assert(!is_digit(d@[k as int]));
            }
            return None;
        }
        let ghost pre = d@.take(k as int);
        assert(d@.take(k + 1).drop_last() == pre);
        assert(d@.take(k + 1).last() == c);
        proof {
            lemma_digits_val_nonneg(pre);
        }
        let dv = (c as u32 - 48) as u64;
        if acc >= big {
            acc = big;
        } else {
            let nv = acc * 10 + dv;
            acc = if nv < big {
                nv
            } else {
                big
            };
        }
        assert(all_digits(d@.take(k + 1))) by {
            assert forall|i: int| 0 <= i < k + 1 implies is_digit(#[trigger] d@.take(k + 1)[i]) by {
                if i < k {
                    assert(d@.take(k + 1)[i] == pre[i]);
                }
            }
        }
        k += 1;
    }
    assert(d@.take(d@.len() as int) == d@);
    if acc < big {
        Some(acc as u32)
    } else {
        None
    }
}

// ───────────────────────── truncation ─────────────────────────

/// Keep at most `n` characters; a longer string keeps `n - 1` and gains `…`.
pub open spec fn truncate(s: Seq<char>, n: int) -> Seq<char> {
    if s.len() <= n {
        s
    } else {
        s.take(if n > 0 {
            n - 1
        } else {
            0
        }).push('\u{2026}')
    }
}

pub fn truncate_exec(s: &[char], n: usize) -> (r: Vec<char>)
    ensures
        r@ == truncate(s@, n as int),
{
    if s.len() <= n {
        return copy_range(s, 0, s.len());
    }
    let keep = if n > 0 {
        n - 1
    } else {
        0
    };
    let mut out = copy_range(s, 0, keep);
    out.push('\u{2026}');
    out
}

// ───────────────────────── lines ─────────────────────────

/// A line without the `\r` of a `\r\n` ending.
pub open spec fn strip_cr(l: Seq<char>) -> Seq<char> {
    if ends_with_char(l, '\r') {
        l.drop_last()
    } else {
        l
    }
}

/// `str::lines` from position `i`: split after each `\n`, drop the `\n` and a
/// `\r` before it; no final empty line.
pub open spec fn lines_from(s: Seq<char>, i: int) -> Seq<Seq<char>>
    decreases s.len() - i,
{
    if i < 0 || i >= s.len() {
        seq![]
    } else {
        let j = find_from(s, seq!['\n'], i);
        if j < 0 {
            seq![s.subrange(i, s.len() as int)]
        } else {
            proof {
                lemma_find_from_bounds(s, seq!['\n'], i);
            }
            seq![strip_cr(s.subrange(i, j))] + lines_from(s, j + 1)
        }
    }
}

pub open spec fn lines(s: Seq<char>) -> Seq<Seq<char>> {
    lines_from(s, 0)
}

/// Every line is a piece of `s`.
pub proof fn lemma_lines_infix(s: Seq<char>, i: int)
    requires
        0 <= i,
    ensures
        forall|k: int| 0 <= k < lines_from(s, i).len() ==> is_infix(#[trigger] lines_from(s, i)[k], s),
    decreases s.len() - i,
{
    if i < s.len() {
        let j = find_from(s, seq!['\n'], i);
        lemma_find_from_bounds(s, seq!['\n'], i);
        let w = lines_from(s, i);
        if j < 0 {
            lemma_infix_subrange(s, i, s.len() as int);
            assert(w[0] == s.subrange(i, s.len() as int));
        } else {
            lemma_lines_infix(s, j + 1);
            let l = s.subrange(i, j);
            lemma_infix_subrange(s, i, j);
            if ends_with_char(l, '\r') {
                lemma_infix_subrange(l, 0, l.len() - 1);
                assert(l.drop_last() =~= l.subrange(0, l.len() - 1));
                lemma_infix_trans(l.drop_last(), l, s);
            }
            assert forall|k: int| 0 <= k < w.len() implies is_infix(#[trigger] w[k], s) by {
                if k > 0 {
                    assert(w[k] == lines_from(s, j + 1)[k - 1]);
                }
            }
        }
    }
}

/// `str::lines().collect()`.
pub fn lines_exec(s: &[char]) -> (r: Vec<Vec<char>>)
    ensures
        vv(r@) == lines(s@),
{
    let nl = vec!['\n'];
    assert(nl@ == seq!['\n']);
    let mut out: Vec<Vec<char>> = Vec::new();
    let mut i: usize = 0;
    while i < s.len()
        invariant
            i <= s@.len(),
            nl@ == seq!['\n'],
            vv(out@) + lines_from(s@, i as int) == lines(s@),
        decreases s.len() - i,
    {
        let ghost before = out@;
        match find_from_exec(s, nl.as_slice(), i) {
            None => {
                out.push(copy_range(s, i, s.len()));
                assert(vv(out@) == vv(before).push(s@.subrange(i as int, s@.len() as int)));
                assert(vv(out@) + lines_from(s@, s@.len() as int) == vv(out@));
                return out;
            },
            Some(j) => {
                let mut l = copy_range(s, i, j);
                if l.len() > 0 && l[l.len() - 1] == '\r' {
                    l.pop();
                    assert(l@ == s@.subrange(i as int, j as int).drop_last());
                }
                out.push(l);
                proof {
                    assert(vv(out@) =~= vv(before).push(strip_cr(s@.subrange(i as int, j as int))));
                    assert(lines_from(s@, i as int) == seq![strip_cr(s@.subrange(i as int, j as int))] + lines_from(s@, j + 1));
                    assert(vv(out@) + lines_from(s@, j + 1) =~= vv(before) + lines_from(s@, i as int));
                }
                i = j + 1;
            },
        }
    }
    assert(vv(out@) + lines_from(s@, i as int) =~= vv(out@));
    out
}

} // verus!
