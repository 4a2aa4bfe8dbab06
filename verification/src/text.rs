//! Building and comparing strings.

use vstd::prelude::*;
use vstd::string::*;

verus! {

/// Whether two strings hold the same characters.
pub fn str_eq(a: &String, b: &String) -> (r: bool)
    ensures
        r == (a@ == b@),
{
    a.eq(b)
}

/// Add `more` at the end of `s`.
pub fn append(s: &mut String, more: &str)
    ensures
        final(s)@ == old(s)@ + more@,
{
    s.append(more);
}

/// `String::push`: add one character at the end.
#[verifier::external_body]
pub fn push_char(s: &mut String, c: char)
    ensures
        final(s)@ == old(s)@.push(c),
{
    s.push(c);
}


/// The characters of a string, one per element.
pub fn chars_of(text: &str) -> (out: Vec<char>)
    ensures
        out@ == text@,
{
    let len = text.unicode_len();
    let mut out: Vec<char> = Vec::new();
    let mut i: usize = 0;
    while i < len
        invariant
            i <= len,
            len == text@.len(),
            out@ == text@.subrange(0, i as int),
        decreases len - i,
    {
        out.push(text.get_char(i));
        i += 1;
        assert(out@ =~= text@.subrange(0, i as int));
    }
    assert(out@ =~= text@);
    out
}

/// The characters `from..to` of `chars`, as a string.
pub fn string_of(chars: &Vec<char>, from: usize, to: usize) -> (out: String)
    requires
        from <= to <= chars@.len(),
    ensures
        out@ == chars@.subrange(from as int, to as int),
{
    let mut out = String::new();
    let mut i = from;
    while i < to
        invariant
            from <= i <= to,
            to <= chars@.len(),
            out@ == chars@.subrange(from as int, i as int),
        decreases to - i,
    {
        push_char(&mut out, chars[i]);
        i += 1;
        assert(out@ =~= chars@.subrange(from as int, i as int));
    }
    out
}

/// Whether two strings are the same characters.
pub fn same_text(a: &str, b: &str) -> (r: bool)
    ensures
        r == (a@ == b@),
{
    let n = a.unicode_len();
    if n != b.unicode_len() {
        return false;
    }
    let mut i: usize = 0;
    while i < n
        invariant
            i <= n,
            n == a@.len(),
            n == b@.len(),
            forall|j: int| 0 <= j < i ==> a@[j] == b@[j],
        decreases n - i,
    {
        if a.get_char(i) != b.get_char(i) {
            return false;
        }
        i += 1;
    }
    assert(a@ =~= b@);
    true
}

/// A string holding one character.
pub fn char_string(c: char) -> (out: String)
    ensures
        out@ == seq![c],
{
    let mut out = String::new();
    push_char(&mut out, c);
    assert(out@ =~= seq![c]);
    out
}

/// Unicode's `White_Space` property, which is what `char::is_whitespace`
/// answers: the ASCII tab, line feed, vertical tab, form feed, carriage return
/// and space, and a fixed list beyond ASCII.
pub open spec fn is_white_space(c: char) -> bool {
    let n = c as u32;
    (9 <= n && n <= 13) || n == 32 || n == 0x85 || n == 0xA0 || n == 0x1680 || (0x2000 <= n && n
        <= 0x200A) || n == 0x2028 || n == 0x2029 || n == 0x202F || n == 0x205F || n == 0x3000
}

pub fn is_whitespace(c: char) -> (r: bool)
    ensures
        r == is_white_space(c),
{
    let n = c as u32;
    (9 <= n && n <= 13) || n == 32 || n == 0x85 || n == 0xA0 || n == 0x1680 || (0x2000 <= n && n
        <= 0x200A) || n == 0x2028 || n == 0x2029 || n == 0x202F || n == 0x205F || n == 0x3000
}

/// Where the whitespace that starts at `i` ends.
pub open spec fn skip_white(s: Seq<char>, i: int) -> int
    decreases s.len() - i,
{
    if i < 0 || i >= s.len() {
        i
    } else if is_white_space(s[i]) {
        skip_white(s, i + 1)
    } else {
        i
    }
}

/// Where the text before `j` ends once the whitespace before `j` is dropped,
/// looking no further back than `lo`.
pub open spec fn skip_white_back(s: Seq<char>, lo: int, j: int) -> int
    decreases j - lo,
{
    if j <= lo || j > s.len() {
        j
    } else if is_white_space(s[j - 1]) {
        skip_white_back(s, lo, j - 1)
    } else {
        j
    }
}

pub proof fn lemma_skip_white(s: Seq<char>, i: int)
    requires
        0 <= i <= s.len(),
    ensures
        i <= skip_white(s, i) <= s.len(),
    decreases s.len() - i,
{
    if i < s.len() && is_white_space(s[i]) {
        lemma_skip_white(s, i + 1);
    }
}

pub proof fn lemma_skip_white_back(s: Seq<char>, lo: int, j: int)
    requires
        0 <= lo <= j <= s.len(),
    ensures
        lo <= skip_white_back(s, lo, j) <= j,
    decreases j - lo,
{
    if j > lo && is_white_space(s[j - 1]) {
        lemma_skip_white_back(s, lo, j - 1);
    }
}

/// `str::trim`: the text without its leading and trailing whitespace.
pub open spec fn spec_trim(s: Seq<char>) -> Seq<char> {
    let a = skip_white(s, 0);
    s.subrange(a, skip_white_back(s, a, s.len() as int))
}

/// `str::trim_start`.
pub open spec fn spec_trim_start(s: Seq<char>) -> Seq<char> {
    s.subrange(skip_white(s, 0), s.len() as int)
}

/// The bounds of `chars[from..to]` without its surrounding whitespace.
pub fn trimmed_bounds(chars: &Vec<char>, from: usize, to: usize) -> (r: (usize, usize))
    requires
        from <= to <= chars@.len(),
    ensures
        r.0 == skip_white(chars@.subrange(0, to as int), from as int),
        r.1 == skip_white_back(chars@, r.0 as int, to as int),
        from <= r.0 <= r.1 <= to,
{
    let ghost pre = chars@.subrange(0, to as int);
    let mut a = from;
    proof {
        lemma_skip_white(pre, from as int);
    }
    while a < to && is_whitespace(chars[a])
        invariant
            from <= a <= to,
            to <= chars@.len(),
            pre == chars@.subrange(0, to as int),
            skip_white(pre, from as int) == skip_white(pre, a as int),
        decreases to - a,
    {
        a += 1;
    }
    let mut b = to;
    while b > a && is_whitespace(chars[b - 1])
        invariant
            a <= b <= to,
            to <= chars@.len(),
            skip_white_back(chars@, a as int, to as int) == skip_white_back(chars@, a as int, b as int),
        decreases b - a,
    {
        b -= 1;
    }
    (a, b)
}

/// `str::trim`.
pub fn trim(text: &str) -> (out: String)
    ensures
        out@ == spec_trim(text@),
{
    let chars = chars_of(text);
    let (a, b) = trimmed_bounds(&chars, 0, chars.len());
    assert(chars@.subrange(0, chars@.len() as int) =~= chars@);
    string_of(&chars, a, b)
}

/// `str::trim_start`.
pub fn trim_start(text: &str) -> (out: String)
    ensures
        out@ == spec_trim_start(text@),
{
    let chars = chars_of(text);
    let n = chars.len();
    let mut a: usize = 0;
    proof {
        lemma_skip_white(chars@, 0);
    }
    while a < n && is_whitespace(chars[a])
        invariant
            a <= n,
            n == chars@.len(),
            skip_white(chars@, 0) == skip_white(chars@, a as int),
        decreases n - a,
    {
        a += 1;
    }
    string_of(&chars, a, n)
}

/// Whether `s` begins with `prefix`.
pub open spec fn spec_starts_with(s: Seq<char>, prefix: Seq<char>) -> bool {
    prefix.len() <= s.len() && s.subrange(0, prefix.len() as int) == prefix
}

/// Whether `s` ends with `suffix`.
pub open spec fn spec_ends_with(s: Seq<char>, suffix: Seq<char>) -> bool {
    suffix.len() <= s.len() && s.subrange(s.len() - suffix.len(), s.len() as int) == suffix
}

/// Whether `pattern` occurs in `s` at `at`.
pub open spec fn occurs_at(s: Seq<char>, pattern: Seq<char>, at: int) -> bool {
    0 <= at && at + pattern.len() <= s.len() && s.subrange(at, at + pattern.len()) == pattern
}

/// Whether `pattern` occurs anywhere in `s`.
pub open spec fn spec_contains(s: Seq<char>, pattern: Seq<char>) -> bool {
    exists|at: int| occurs_at(s, pattern, at)
}

fn matches_at(s: &Vec<char>, pattern: &Vec<char>, at: usize) -> (r: bool)
    requires
        at <= s@.len(),
    ensures
        r == occurs_at(s@, pattern@, at as int),
{
    let slen = s.len();
    if pattern.len() > slen - at {
        return false;
    }
    let mut k: usize = 0;
    while k < pattern.len()
        invariant
            slen == s@.len(),
            k <= pattern@.len(),
            at <= s@.len(),
            at + pattern@.len() <= s@.len(),
            forall|j: int| 0 <= j < k ==> s@[at + j] == pattern@[j],
        decreases pattern@.len() - k,
    {
        if s[at + k] != pattern[k] {
            assert(s@.subrange(at as int, at + pattern@.len())[k as int] != pattern@[k as int]);
            return false;
        }
        k += 1;
    }
    assert(s@.subrange(at as int, at + pattern@.len()) =~= pattern@);
    true
}

/// Where `pattern` first occurs in `s`, counted in characters.
pub fn find_chars(s: &Vec<char>, pattern: &Vec<char>) -> (r: Option<usize>)
    ensures
        match r {
            Some(at) => occurs_at(s@, pattern@, at as int) && forall|j: int| 0 <= j < at ==> !occurs_at(
                s@,
                pattern@,
                j,
            ),
            None => !spec_contains(s@, pattern@),
        },
{
    let mut at: usize = 0;
    while at < s.len()
        invariant
            at <= s@.len(),
            forall|j: int| 0 <= j < at ==> !occurs_at(s@, pattern@, j),
        decreases s@.len() - at,
    {
        if matches_at(s, pattern, at) {
            return Some(at);
        }
        at += 1;
    }
    if matches_at(s, pattern, at) {
        return Some(at);
    }
    assert forall|j: int| !occurs_at(s@, pattern@, j) by {
        if 0 <= j && j < at {
        }
    }
    None
}

/// Whether `pattern` occurs in `text`.
pub fn contains(text: &str, pattern: &str) -> (r: bool)
    ensures
        r == spec_contains(text@, pattern@),
{
    let s = chars_of(text);
    let p = chars_of(pattern);
    match find_chars(&s, &p) {
        Some(_) => true,
        None => false,
    }
}

/// Whether `text` begins with `prefix`.
pub fn starts_with(text: &str, prefix: &str) -> (r: bool)
    ensures
        r == spec_starts_with(text@, prefix@),
{
    let s = chars_of(text);
    let p = chars_of(prefix);
    matches_at(&s, &p, 0)
}

/// Whether `text` ends with `suffix`.
pub fn ends_with(text: &str, suffix: &str) -> (r: bool)
    ensures
        r == spec_ends_with(text@, suffix@),
{
    let s = chars_of(text);
    let p = chars_of(suffix);
    if p.len() > s.len() {
        return false;
    }
    matches_at(&s, &p, s.len() - p.len())
}

} // verus!
