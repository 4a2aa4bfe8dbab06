//! The interpolation scanner.
//!
//! `"hi $who"` and `"$h->{k}[0]"` contain variable uses, and the lexer gives
//! the whole string as one token. So the string is re-scanned here: this
//! produces uses, not nodes. The rules followed are perl's own:
//!
//! - a backslash escapes the next character, whatever it is;
//! - `$` and `@` interpolate only when what follows could name a variable — an
//!   identifier, a `{`, or another sigil. `$` before `)` is an anchor, and
//!   `foo@example.com` holds no array;
//! - `$h{k}` and `$a[0]` are elements of `%h` and `@a`, so the *use* carries
//!   the container's sigil. `$h->{k}` is a use of `$h`;
//! - `${ ... }` and `@{ ... }` holding a bare name are that variable, and
//!   holding anything else are a block, whose contents are scanned in turn;
//! - a method call is not interpolated: `"$obj->name"` uses `$obj`.
//!
//! Everything here works on the text's UTF-8 bytes, and every offset is a
//! byte offset.

use vstd::prelude::*;
use vstd::string::*;

use crate::ast::Sigil;
use crate::text::push_char;

verus! {

/// One variable use found inside a quoted construct.
#[derive(Debug)]
pub struct Use {
    pub sigil: Sigil,
    pub name: String,
    /// Byte offset of the sigil, relative to the text that was scanned.
    pub offset: usize,
    /// Byte length of the whole reference, sigil and name.
    pub len: usize,
}

/// The value of a [`Use`].
pub struct UseV {
    pub sigil: Sigil,
    pub name: Seq<char>,
    pub offset: int,
    pub len: int,
}

impl View for Use {
    type V = UseV;

    open spec fn view(&self) -> UseV {
        UseV { sigil: self.sigil, name: self.name@, offset: self.offset as int, len: self.len as int }
    }
}

pub open spec fn use_views(uses: Seq<Use>) -> Seq<UseV> {
    uses.map_values(|one: Use| one@)
}

pub open spec fn is_name_start_byte(x: u8) -> bool {
    (97 <= x && x <= 122) || (65 <= x && x <= 90) || x == 95
}

pub open spec fn is_name_continue_byte(x: u8) -> bool {
    is_name_start_byte(x) || (48 <= x && x <= 57)
}

/// Bytes of ASCII text, read as the characters they are.
pub open spec fn ascii_chars(b: Seq<u8>) -> Seq<char> {
    b.map_values(|x: u8| x as char)
}

/// How much of `lo..hi` a measure has left from `i`.
pub open spec fn left(i: int, hi: int) -> int {
    if i < hi {
        hi - i
    } else {
        0
    }
}

/// Where a name starting at `i` ends, looking no further than `hi`. A
/// single colon is not part of a name; `::` is, when a name follows it.
pub open spec fn name_end(b: Seq<u8>, i: int, hi: int) -> int
    decreases left(i, hi),
{
    if 0 <= i < hi && hi <= b.len() && is_name_continue_byte(b[i]) {
        name_end(b, i + 1, hi)
    } else if 0 <= i && i + 2 < hi && hi <= b.len() && b[i] == 58 && b[i + 1] == 58
        && is_name_start_byte(b[i + 2]) {
        name_end(b, i + 2, hi)
    } else {
        i
    }
}

pub proof fn lemma_name_end(b: Seq<u8>, i: int, hi: int)
    ensures
        i <= name_end(b, i, hi),
        0 <= i <= hi <= b.len() ==> name_end(b, i, hi) <= hi,
        forall|j: int| i <= j < name_end(b, i, hi) ==> (is_name_continue_byte(#[trigger] b[j]) || b[j]
            == 58),
    decreases left(i, hi),
{
    if 0 <= i < hi && hi <= b.len() && is_name_continue_byte(b[i]) {
        lemma_name_end(b, i + 1, hi);
    } else if 0 <= i && i + 2 < hi && hi <= b.len() && b[i] == 58 && b[i + 1] == 58
        && is_name_start_byte(b[i + 2]) {
        lemma_name_end(b, i + 2, hi);
    }
}

/// The close bracket matching the one at `open`, counting `depth` open so
/// far, looking from `index`; a backslash escapes the byte after it.
pub open spec fn matching_from(
    b: Seq<u8>,
    index: int,
    hi: int,
    depth: int,
    opener: u8,
    closer: u8,
) -> Option<int>
    decreases left(index, hi),
{
    if index < 0 || index >= hi || hi > b.len() {
        None
    } else if b[index] == 92 {
        matching_from(b, index + 2, hi, depth, opener, closer)
    } else if b[index] == opener {
        matching_from(b, index + 1, hi, depth + 1, opener, closer)
    } else if b[index] == closer {
        if depth - 1 == 0 {
            Some(index)
        } else {
            matching_from(b, index + 1, hi, depth - 1, opener, closer)
        }
    } else {
        matching_from(b, index + 1, hi, depth, opener, closer)
    }
}

pub proof fn lemma_matching_from(
    b: Seq<u8>,
    index: int,
    hi: int,
    depth: int,
    opener: u8,
    closer: u8,
)
    ensures
        matching_from(b, index, hi, depth, opener, closer) matches Some(k) ==> index <= k < hi && k
            < b.len(),
    decreases left(index, hi),
{
    if index < 0 || index >= hi || hi > b.len() {
    } else if b[index] == 92 {
        lemma_matching_from(b, index + 2, hi, depth, opener, closer);
    } else if b[index] == opener {
        lemma_matching_from(b, index + 1, hi, depth + 1, opener, closer);
    } else if b[index] == closer {
        if depth - 1 != 0 {
            lemma_matching_from(b, index + 1, hi, depth - 1, opener, closer);
        }
    } else {
        lemma_matching_from(b, index + 1, hi, depth, opener, closer);
    }
}

pub open spec fn matching(b: Seq<u8>, open: int, hi: int, opener: u8, closer: u8) -> Option<int> {
    matching_from(b, open, hi, 0, opener, closer)
}

/// How many bytes the whitespace character starting at `i` takes, or 0 when
/// none starts there. Whitespace is Unicode's `White_Space`, which is what
/// `char::is_whitespace` reads.
pub open spec fn whitespace_at(b: Seq<u8>, i: int, hi: int) -> int {
    if !(0 <= i < hi && hi <= b.len()) {
        0
    } else if (9 <= b[i] && b[i] <= 13) || b[i] == 32 {
        1
    } else if b[i] == 0xC2 && i + 1 < hi && (b[i + 1] == 0x85 || b[i + 1] == 0xA0) {
        2
    } else if i + 2 < hi && ((b[i] == 0xE1 && b[i + 1] == 0x9A && b[i + 2] == 0x80) || (b[i] == 0xE2
        && b[i + 1] == 0x80 && ((0x80 <= b[i + 2] && b[i + 2] <= 0x8A) || b[i + 2] == 0xA8 || b[i
        + 2] == 0xA9 || b[i + 2] == 0xAF)) || (b[i] == 0xE2 && b[i + 1] == 0x81 && b[i + 2] == 0x9F)
        || (b[i] == 0xE3 && b[i + 1] == 0x80 && b[i + 2] == 0x80)) {
        3
    } else {
        0
    }
}

/// Whitespace characters skipped from the front of `i..hi`.
pub open spec fn trim_start(b: Seq<u8>, i: int, hi: int) -> int
    decreases left(i, hi),
{
    if whitespace_at(b, i, hi) > 0 && i < hi {
        trim_start(b, i + whitespace_at(b, i, hi), hi)
    } else {
        i
    }
}

/// How many bytes the whitespace character ending just before `j` takes, or
/// 0 when none ends there, looking no further back than `lo`.
pub open spec fn whitespace_before(b: Seq<u8>, lo: int, j: int) -> int {
    if j - 1 >= lo && whitespace_at(b, j - 1, j) == 1 {
        1
    } else if j - 2 >= lo && whitespace_at(b, j - 2, j) == 2 {
        2
    } else if j - 3 >= lo && whitespace_at(b, j - 3, j) == 3 {
        3
    } else {
        0
    }
}

/// Whitespace characters skipped from the back of `lo..j`.
pub open spec fn trim_end(b: Seq<u8>, lo: int, j: int) -> int
    decreases left(lo, j),
{
    if whitespace_before(b, lo, j) > 0 && lo < j {
        trim_end(b, lo, j - whitespace_before(b, lo, j))
    } else {
        j
    }
}

/// `lo..hi`, trimmed, when what is left is a bare `name` or `Foo::name`.
pub open spec fn plain_name(b: Seq<u8>, lo: int, hi: int) -> Option<(int, int)> {
    let s = trim_start(b, lo, hi);
    let e = trim_end(b, s, hi);
    if s < e && e <= b.len() && 0 <= s && is_name_start_byte(b[s]) && name_end(b, s, e) == e {
        Some((s, e))
    } else {
        None
    }
}

/// What the variable is an element *of*, given what follows its name:
/// `$h{k}` reads `%h` and `$a[0]` reads `@a`.
pub open spec fn container_sigil(sigil: Sigil, b: Seq<u8>, after: int, hi: int) -> Sigil {
    if sigil == Sigil::Code || sigil == Sigil::Typeglob {
        sigil
    } else if 0 <= after < hi && hi <= b.len() && b[after] == 123 {
        Sigil::Hash
    } else if 0 <= after < hi && hi <= b.len() && b[after] == 91 {
        Sigil::Array
    } else {
        sigil
    }
}

/// Every use in `index..hi`, in the order they are met.
pub open spec fn scan_from(b: Seq<u8>, index: int, hi: int) -> Seq<UseV>
    decreases left(index, hi), 2int,
{
    if index < 0 || index >= hi || hi > b.len() {
        Seq::empty()
    } else if b[index] == 92 {
        scan_from(b, index + 2, hi)
    } else if b[index] == 36 || b[index] == 64 {
        let (consumed, found) = spec_reference(b, index, hi, false);
        found + scan_from(b, index + (if consumed > 0 { consumed } else { 1 }), hi)
    } else {
        scan_from(b, index + 1, hi)
    }
}

/// One `$...` or `@...` reference at `index`: how much it consumed, and the
/// uses it holds. Zero means "this sigil begins nothing".
pub open spec fn spec_reference(b: Seq<u8>, index: int, hi: int, dereferenced: bool) -> (int, Seq<UseV>)
    decreases left(index, hi), 1int,
{
    if index < 0 || index >= hi || hi > b.len() {
        (0, Seq::empty())
    } else {
        let dollar = b[index] == 36;
        let last_index = dollar && index + 1 < hi && b[index + 1] == 35;
        let cursor = if last_index {
            index + 2
        } else {
            index + 1
        };
        let sigil = if dollar && !last_index {
            Sigil::Scalar
        } else {
            Sigil::Array
        };
        if cursor >= hi {
            (0, Seq::empty())
        } else if b[cursor] == 36 {
            let (consumed, found) = spec_reference(b, cursor, hi, true);
            if consumed <= 0 {
                (0, found)
            } else {
                let (end, more) = spec_subscripts(b, index + 1 + consumed, hi);
                (end - index, found + more)
            }
        } else if b[cursor] == 123 {
            proof {
                lemma_matching_from(b, cursor, hi, 0, 123, 125);
            }
            match matching(b, cursor, hi, 123, 125) {
                None => (0, Seq::empty()),
                Some(close) => match plain_name(b, cursor + 1, close) {
                    Some((s, e)) => {
                        let (end, more) = spec_subscripts(b, close + 1, hi);
                        let kind = if dereferenced {
                            sigil
                        } else {
                            container_sigil(sigil, b, close + 1, hi)
                        };
                        (
                            end - index,
                            more.push(
                                UseV {
                                    sigil: kind,
                                    name: ascii_chars(b.subrange(s, e)),
                                    offset: index,
                                    len: close + 1 - index,
                                },
                            ),
                        )
                    },
                    None => (close + 1 - index, scan_from(b, cursor + 1, close)),
                },
            }
        } else if is_name_start_byte(b[cursor]) {
            let e = name_end(b, cursor, hi);
            proof {
                lemma_name_end(b, cursor, hi);
            }
            let kind = if dereferenced {
                sigil
            } else {
                container_sigil(sigil, b, e, hi)
            };
            let (end, more) = if dereferenced {
                (e, Seq::empty())
            } else {
                spec_subscripts(b, e, hi)
            };
            (
                end - index,
                more.push(
                    UseV {
                        sigil: kind,
                        name: ascii_chars(b.subrange(cursor, e)),
                        offset: index,
                        len: e - index,
                    },
                ),
            )
        } else {
            (0, Seq::empty())
        }
    }
}

/// The `{...}` / `[...]` / `->{...}` chain from `index`: where it ends, and
/// the uses its key expressions hold.
pub open spec fn spec_subscripts(b: Seq<u8>, index: int, hi: int) -> (int, Seq<UseV>)
    decreases left(index, hi), 0int,
{
    let arrow = 0 <= index && index + 1 < hi && hi <= b.len() && b[index] == 45 && b[index + 1] == 62;
    let cursor = if arrow {
        index + 2
    } else {
        index
    };
    if cursor < 0 || cursor >= hi || hi > b.len() {
        (index, Seq::empty())
    } else if b[cursor] == 123 {
        proof {
            lemma_matching_from(b, cursor, hi, 0, 123, 125);
        }
        match matching(b, cursor, hi, 123, 125) {
            None => (index, Seq::empty()),
            Some(close) => {
                let inside = scan_from(b, cursor + 1, close);
                let (end, more) = spec_subscripts(b, close + 1, hi);
                (end, inside + more)
            },
        }
    } else if b[cursor] == 91 {
        proof {
            lemma_matching_from(b, cursor, hi, 0, 91, 93);
        }
        match matching(b, cursor, hi, 91, 93) {
            None => (index, Seq::empty()),
            Some(close) => {
                let inside = scan_from(b, cursor + 1, close);
                let (end, more) = spec_subscripts(b, close + 1, hi);
                (end, inside + more)
            },
        }
    } else {
        (index, Seq::empty())
    }
}

/// Every use in a whole text, given as its bytes.
pub open spec fn spec_scan(b: Seq<u8>) -> Seq<UseV> {
    scan_from(b, 0, b.len() as int)
}


// ===== The scanner =====

fn is_name_start(x: u8) -> (r: bool)
    ensures
        r == is_name_start_byte(x),
{
    (97 <= x && x <= 122) || (65 <= x && x <= 90) || x == 95
}

fn is_name_continue(x: u8) -> (r: bool)
    ensures
        r == is_name_continue_byte(x),
{
    is_name_start(x) || (48 <= x && x <= 57)
}

/// Where a name starting at `index` ends.
fn find_name_end(bytes: &[u8], index: usize, hi: usize) -> (r: usize)
    requires
        index <= hi <= bytes@.len(),
    ensures
        r == name_end(bytes@, index as int, hi as int),
        index <= r <= hi,
{
    let mut i = index;
    proof {
        lemma_name_end(bytes@, index as int, hi as int);
    }
    loop
        invariant
            index <= i <= hi,
            hi <= bytes@.len(),
            name_end(bytes@, i as int, hi as int) == name_end(bytes@, index as int, hi as int),
        ensures
            i == name_end(bytes@, index as int, hi as int),
        decreases hi - i,
    {
        if i < hi && is_name_continue(bytes[i]) {
            i += 1;
        } else if i < hi && hi - i > 2 && bytes[i] == 58 && bytes[i + 1] == 58 && is_name_start(
            bytes[i + 2],
        ) {
            i += 2;
        } else {
            break;
        }
    }
    i
}

/// The close bracket matching the one at `open`.
fn find_matching(bytes: &[u8], open: usize, hi: usize, opener: u8, closer: u8) -> (r: Option<usize>)
    requires
        open < hi <= bytes@.len(),
        bytes@[open as int] == opener,
        opener != 92,
        opener != closer,
    ensures
        match matching(bytes@, open as int, hi as int, opener, closer) {
            Some(k) => r == Some(k as usize) && open < k < hi,
            None => r is None,
        },
{
    proof {
        lemma_matching_from(bytes@, open as int, hi as int, 0, opener, closer);
    }
    let mut depth: usize = 0;
    let mut index = open;
    while index < hi
        invariant
            open <= index <= hi,
            hi <= bytes@.len(),
            bytes@[open as int] == opener,
            opener != 92,
            opener != closer,
            depth <= index - open,
            index > open ==> depth >= 1,
            matching_from(bytes@, index as int, hi as int, depth as int, opener, closer) == matching(
                bytes@,
                open as int,
                hi as int,
                opener,
                closer,
            ),
        decreases hi - index,
    {
        let byte = bytes[index];
        if byte == 92 {
            assert(matching_from(bytes@, index as int, hi as int, depth as int, opener, closer)
                == matching_from(bytes@, index + 2, hi as int, depth as int, opener, closer));
            if hi - index >= 2 {
                index += 2;
            } else {
                assert(matching_from(bytes@, index + 2, hi as int, depth as int, opener, closer) is None);
                index = hi;
            }
            continue;
        } else if byte == opener {
            depth += 1;
        } else if byte == closer {
            depth -= 1;
            if depth == 0 {
                proof {
                    lemma_matching_from(bytes@, open as int, hi as int, 0, opener, closer);
                }
                return Some(index);
            }
        }
        index += 1;
    }
    None
}

fn whitespace_len(bytes: &[u8], i: usize, hi: usize) -> (r: usize)
    requires
        hi <= bytes@.len(),
    ensures
        r as int == whitespace_at(bytes@, i as int, hi as int),
        r <= 3,
{
    if !(i < hi) {
        return 0;
    }
    let x = bytes[i];
    if (9 <= x && x <= 13) || x == 32 {
        return 1;
    }
    if x == 0xC2 && hi - i > 1 && (bytes[i + 1] == 0x85 || bytes[i + 1] == 0xA0) {
        return 2;
    }
    if hi - i > 2 {
        let y = bytes[i + 1];
        let z = bytes[i + 2];
        if (x == 0xE1 && y == 0x9A && z == 0x80) || (x == 0xE2 && y == 0x80 && ((0x80 <= z && z
            <= 0x8A) || z == 0xA8 || z == 0xA9 || z == 0xAF)) || (x == 0xE2 && y == 0x81 && z
            == 0x9F) || (x == 0xE3 && y == 0x80 && z == 0x80) {
            return 3;
        }
    }
    0
}

fn whitespace_len_before(bytes: &[u8], lo: usize, j: usize) -> (r: usize)
    requires
        lo <= j <= bytes@.len(),
    ensures
        r as int == whitespace_before(bytes@, lo as int, j as int),
        r <= j - lo,
{
    if j - lo >= 1 && whitespace_len(bytes, j - 1, j) == 1 {
        1
    } else if j - lo >= 2 && whitespace_len(bytes, j - 2, j) == 2 {
        2
    } else if j - lo >= 3 && whitespace_len(bytes, j - 3, j) == 3 {
        3
    } else {
        0
    }
}

/// `lo..hi`, trimmed, when what is left is a bare name.
fn find_plain_name(bytes: &[u8], lo: usize, hi: usize) -> (r: Option<(usize, usize)>)
    requires
        lo <= hi <= bytes@.len(),
    ensures
        match plain_name(bytes@, lo as int, hi as int) {
            Some((s, e)) => r == Some((s as usize, e as usize)) && lo <= s < e <= hi,
            None => r is None,
        },
{
    let mut s = lo;
    while s < hi && whitespace_len(bytes, s, hi) > 0
        invariant
            lo <= s <= hi,
            hi <= bytes@.len(),
            trim_start(bytes@, s as int, hi as int) == trim_start(bytes@, lo as int, hi as int),
        decreases hi - s,
    {
        let step = whitespace_len(bytes, s, hi);
        if hi - s >= step {
            s += step;
        } else {
            s = hi;
        }
    }
    let mut e = hi;
    while s < e && whitespace_len_before(bytes, s, e) > 0
        invariant
            lo <= s <= e <= hi,
            hi <= bytes@.len(),
            s == trim_start(bytes@, lo as int, hi as int),
            trim_end(bytes@, s as int, e as int) == trim_end(bytes@, s as int, hi as int),
        decreases e - s,
    {
        e -= whitespace_len_before(bytes, s, e);
    }
    if s < e && is_name_start(bytes[s]) && find_name_end(bytes, s, e) == e {
        Some((s, e))
    } else {
        None
    }
}

/// What the variable is an element *of*.
fn container(sigil: Sigil, bytes: &[u8], after: usize, hi: usize) -> (r: Sigil)
    requires
        hi <= bytes@.len(),
    ensures
        r == container_sigil(sigil, bytes@, after as int, hi as int),
{
    if sigil == Sigil::Code || sigil == Sigil::Typeglob {
        return sigil;
    }
    if after < hi && bytes[after] == 123 {
        Sigil::Hash
    } else if after < hi && bytes[after] == 91 {
        Sigil::Array
    } else {
        sigil
    }
}

/// The ASCII bytes `from..to`, as a string.
fn ascii_string(bytes: &[u8], from: usize, to: usize) -> (out: String)
    requires
        from <= to <= bytes@.len(),
    ensures
        out@ == ascii_chars(bytes@.subrange(from as int, to as int)),
{
    let mut out = String::new();
    let mut i = from;
    while i < to
        invariant
            from <= i <= to <= bytes@.len(),
            out@ == ascii_chars(bytes@.subrange(from as int, i as int)),
        decreases to - i,
    {
        push_char(&mut out, bytes[i] as char);
        i += 1;
        assert(out@ =~= ascii_chars(bytes@.subrange(from as int, i as int)));
    }
    out
}

fn record(uses: &mut Vec<Use>, one: Use)
    ensures
        use_views(final(uses)@) == use_views(old(uses)@).push(one@),
{
    uses.push(one);
    assert(use_views(uses@) =~= use_views(old(uses)@).push(one@));
}

/// Every use in `lo..hi`, added to `uses` in the order met.
fn scan_into(bytes: &[u8], lo: usize, hi: usize, uses: &mut Vec<Use>)
    requires
        lo <= hi <= bytes@.len(),
    ensures
        use_views(final(uses)@) == use_views(old(uses)@) + scan_from(bytes@, lo as int, hi as int),
    decreases left(lo as int, hi as int), 2int,
{
    let mut index = lo;
    assert(use_views(uses@) + scan_from(bytes@, index as int, hi as int) =~= use_views(old(uses)@)
        + scan_from(bytes@, lo as int, hi as int));
    while index < hi
        invariant
            lo <= index <= hi,
            hi <= bytes@.len(),
            use_views(uses@) + scan_from(bytes@, index as int, hi as int) == use_views(old(uses)@)
                + scan_from(bytes@, lo as int, hi as int),
        decreases hi - index,
    {
        let byte = bytes[index];
        if byte == 92 {
            assert(scan_from(bytes@, index as int, hi as int) == scan_from(bytes@, index + 2, hi as int));
            if hi - index >= 2 {
                index += 2;
            } else {
                assert(scan_from(bytes@, index + 2, hi as int) =~= Seq::<UseV>::empty());
                index = hi;
            }
        } else if byte == 36 || byte == 64 {
            let ghost before = use_views(uses@);
            let ghost at = index as int;
            let consumed = reference(bytes, index, hi, false, uses);
            let step = if consumed > 0 {
                consumed
            } else {
                1
            };
            index += step;
            proof {
                let (c, found) = spec_reference(bytes@, at, hi as int, false);
                assert(use_views(uses@) == before + found);
                assert(scan_from(bytes@, at, hi as int) == found + scan_from(
                    bytes@,
                    index as int,
                    hi as int,
                ));
                assert(before + (found + scan_from(bytes@, index as int, hi as int)) =~= (before
                    + found) + scan_from(bytes@, index as int, hi as int));
            }
        } else {
            index += 1;
        }
    }
    assert(scan_from(bytes@, index as int, hi as int) =~= Seq::<UseV>::empty());
    assert(use_views(uses@) + Seq::<UseV>::empty() =~= use_views(uses@));
}

/// Read one `$...` or `@...` reference at `index`, returning what it
/// consumed; zero means "this sigil begins nothing".
fn reference(bytes: &[u8], index: usize, hi: usize, dereferenced: bool, uses: &mut Vec<Use>) -> (consumed: usize)
    requires
        index < hi <= bytes@.len(),
    ensures
        consumed as int == spec_reference(bytes@, index as int, hi as int, dereferenced).0,
        use_views(final(uses)@) == use_views(old(uses)@) + spec_reference(
            bytes@,
            index as int,
            hi as int,
            dereferenced,
        ).1,
        consumed <= hi - index,
    decreases left(index as int, hi as int), 1int,
{
    let dollar = bytes[index] == 36;
    let last_index = dollar && hi - index > 1 && bytes[index + 1] == 35;
    let cursor = if last_index {
        index + 2
    } else {
        index + 1
    };
    let sigil = if dollar && !last_index {
        Sigil::Scalar
    } else {
        Sigil::Array
    };
    if cursor >= hi {
        assert(use_views(uses@) =~= use_views(old(uses)@) + Seq::<UseV>::empty());
        return 0;
    }
    let next = bytes[cursor];
    if next == 36 {
        let consumed = reference(bytes, cursor, hi, true, uses);
        if consumed == 0 {
            return 0;
        }
        let ghost middle = use_views(uses@);
        let end = subscripts(bytes, index + 1 + consumed, hi, uses);
        proof {
            let (c, found) = spec_reference(bytes@, cursor as int, hi as int, true);
            let (e, more) = spec_subscripts(bytes@, index + 1 + c, hi as int);
            assert(use_views(uses@) =~= use_views(old(uses)@) + (found + more));
        }
        return end - index;
    }
    if next == 123 {
        let close = match find_matching(bytes, cursor, hi, 123, 125) {
            Some(close) => close,
            None => {
                assert(use_views(uses@) =~= use_views(old(uses)@) + Seq::<UseV>::empty());
                return 0;
            },
        };
        match find_plain_name(bytes, cursor + 1, close) {
            Some((s, e)) => {
                let end = subscripts(bytes, close + 1, hi, uses);
                let kind = if dereferenced {
                    sigil
                } else {
                    container(sigil, bytes, close + 1, hi)
                };
                let name = ascii_string(bytes, s, e);
                let ghost middle = use_views(uses@);
                record(uses, Use { sigil: kind, name, offset: index, len: close + 1 - index });
                proof {
                    let (en, more) = spec_subscripts(bytes@, close + 1, hi as int);
                    assert(use_views(uses@) =~= use_views(old(uses)@) + more.push(
                        UseV {
                            sigil: kind,
                            name: ascii_chars(bytes@.subrange(s as int, e as int)),
                            offset: index as int,
                            len: close + 1 - index,
                        },
                    ));
                }
                return end - index;
            },
            None => {
                scan_into(bytes, cursor + 1, close, uses);
                return close + 1 - index;
            },
        }
    }
    if is_name_start(next) {
        let e = find_name_end(bytes, cursor, hi);
        let kind = if dereferenced {
            sigil
        } else {
            container(sigil, bytes, e, hi)
        };
        let end = if dereferenced {
            e
        } else {
            subscripts(bytes, e, hi, uses)
        };
        let name = ascii_string(bytes, cursor, e);
        let ghost middle = use_views(uses@);
        record(uses, Use { sigil: kind, name, offset: index, len: e - index });
        proof {
            let (en, more) = if dereferenced {
                (e as int, Seq::<UseV>::empty())
            } else {
                spec_subscripts(bytes@, e as int, hi as int)
            };
            assert(middle =~= use_views(old(uses)@) + more);
            assert(use_views(uses@) =~= use_views(old(uses)@) + more.push(
                UseV {
                    sigil: kind,
                    name: ascii_chars(bytes@.subrange(cursor as int, e as int)),
                    offset: index as int,
                    len: e - index,
                },
            ));
        }
        return end - index;
    }
    assert(use_views(uses@) =~= use_views(old(uses)@) + Seq::<UseV>::empty());
    0
}

/// Walk the `{...}` / `[...]` / `->{...}` chain after a name, scanning
/// inside each for the uses a key expression holds, and return where it ends.
fn subscripts(bytes: &[u8], index: usize, hi: usize, uses: &mut Vec<Use>) -> (end: usize)
    requires
        index <= hi <= bytes@.len(),
    ensures
        end as int == spec_subscripts(bytes@, index as int, hi as int).0,
        use_views(final(uses)@) == use_views(old(uses)@) + spec_subscripts(
            bytes@,
            index as int,
            hi as int,
        ).1,
        index <= end <= hi,
    decreases left(index as int, hi as int), 0int,
{
    let arrow = index < hi && hi - index > 1 && bytes[index] == 45 && bytes[index + 1] == 62;
    let cursor = if arrow {
        index + 2
    } else {
        index
    };
    if cursor >= hi {
        assert(use_views(uses@) =~= use_views(old(uses)@) + Seq::<UseV>::empty());
        return index;
    }
    let byte = bytes[cursor];
    if byte == 123 || byte == 91 {
        let closer: u8 = if byte == 123 {
            125
        } else {
            93
        };
        let close = match find_matching(bytes, cursor, hi, byte, closer) {
            Some(close) => close,
            None => {
                assert(use_views(uses@) =~= use_views(old(uses)@) + Seq::<UseV>::empty());
                return index;
            },
        };
        let ghost before = use_views(uses@);
        scan_into(bytes, cursor + 1, close, uses);
        let ghost middle = use_views(uses@);
        let end = subscripts(bytes, close + 1, hi, uses);
        proof {
            let inside = scan_from(bytes@, cursor + 1, close as int);
            let (e, more) = spec_subscripts(bytes@, close + 1, hi as int);
            assert(use_views(uses@) =~= use_views(old(uses)@) + (inside + more));
        }
        return end;
    }
    assert(use_views(uses@) =~= use_views(old(uses)@) + Seq::<UseV>::empty());
    index
}

/// Every use in the bytes of a text.
fn scan_bytes(bytes: &[u8]) -> (uses: Vec<Use>)
    ensures
        use_views(uses@) == spec_scan(bytes@),
{
    let mut uses: Vec<Use> = Vec::new();
    scan_into(bytes, 0, bytes.len(), &mut uses);
    assert(use_views(uses@) =~= Seq::<UseV>::empty() + spec_scan(bytes@));
    uses
}

/// Every variable use in an interpolating construct.
pub fn scan(text: &str) -> (uses: Vec<Use>)
    ensures
        use_views(uses@) == spec_scan(text.spec_bytes()),
{
    scan_bytes(text.as_bytes())
}


// ===== Patterns under `/x` =====

/// The bytes from `i` on, with every `/x` comment blanked: under `/x` a `#`
/// outside a character class starts a comment that runs to the end of the
/// line, and nothing in it interpolates.
pub open spec fn blank_from(b: Seq<u8>, i: int, in_class: bool, escape: bool, comment: bool) -> Seq<u8>
    decreases b.len() - i,
{
    if i < 0 || i >= b.len() {
        Seq::empty()
    } else {
        let x = b[i];
        if escape {
            seq![x] + blank_from(b, i + 1, in_class, false, comment)
        } else if comment {
            if x == 10 {
                seq![x] + blank_from(b, i + 1, in_class, false, false)
            } else {
                seq![32u8] + blank_from(b, i + 1, in_class, false, true)
            }
        } else if x == 92 {
            seq![x] + blank_from(b, i + 1, in_class, true, false)
        } else if x == 91 {
            seq![x] + blank_from(b, i + 1, true, false, false)
        } else if x == 93 {
            seq![x] + blank_from(b, i + 1, false, false, false)
        } else if x == 35 && !in_class {
            seq![32u8] + blank_from(b, i + 1, in_class, false, true)
        } else {
            seq![x] + blank_from(b, i + 1, in_class, false, false)
        }
    }
}

/// A pattern's bytes with its `/x` comments blanked, every offset kept.
pub open spec fn extended_blank(b: Seq<u8>) -> Seq<u8> {
    blank_from(b, 0, false, false, false)
}

/// Blanking keeps every offset: the text keeps its length, and each byte is
/// either what it was or a space.
pub proof fn law_blanking_keeps_every_offset(b: Seq<u8>)
    ensures
        extended_blank(b).len() == b.len(),
        forall|j: int|
            0 <= j < b.len() ==> #[trigger] extended_blank(b)[j] == b[j] || extended_blank(b)[j]
                == 32,
{
    lemma_blank_from_len(b, 0, false, false, false);
}

proof fn lemma_blank_from_len(b: Seq<u8>, i: int, in_class: bool, escape: bool, comment: bool)
    requires
        0 <= i <= b.len(),
    ensures
        blank_from(b, i, in_class, escape, comment).len() == b.len() - i,
        forall|j: int|
            0 <= j < b.len() - i ==> #[trigger] blank_from(b, i, in_class, escape, comment)[j]
                == b[i + j] || blank_from(b, i, in_class, escape, comment)[j] == 32,
    decreases b.len() - i,
{
    if i < b.len() {
        let x = b[i];
        lemma_blank_from_len(b, i + 1, in_class, false, comment);
        lemma_blank_from_len(b, i + 1, in_class, false, false);
        lemma_blank_from_len(b, i + 1, in_class, false, true);
        lemma_blank_from_len(b, i + 1, in_class, true, false);
        lemma_blank_from_len(b, i + 1, true, false, false);
        lemma_blank_from_len(b, i + 1, false, false, false);
    }
}

/// Every variable use in a pattern written under `/x`.
///
/// The comment is blanked rather than removed so that every offset still
/// points where it did.
pub fn scan_extended(text: &str) -> (uses: Vec<Use>)
    ensures
        use_views(uses@) == spec_scan(extended_blank(text.spec_bytes())),
{
    let bytes = text.as_bytes();
    let mut blanked: Vec<u8> = Vec::new();
    let mut in_class = false;
    let mut escape = false;
    let mut comment = false;
    let mut i: usize = 0;
    while i < bytes.len()
        invariant
            i <= bytes@.len(),
            blanked@ + blank_from(bytes@, i as int, in_class, escape, comment) == extended_blank(
                bytes@,
            ),
        decreases bytes.len() - i,
    {
        let x = bytes[i];
        let ghost before = blanked@;
        let ghost (c0, e0, m0) = (in_class, escape, comment);
        if escape {
            escape = false;
            blanked.push(x);
        } else if comment {
            if x == 10 {
                comment = false;
                blanked.push(x);
            } else {
                blanked.push(32);
            }
        } else if x == 92 {
            escape = true;
            blanked.push(x);
        } else if x == 91 {
            in_class = true;
            blanked.push(x);
        } else if x == 93 {
            in_class = false;
            blanked.push(x);
        } else if x == 35 && !in_class {
            comment = true;
            blanked.push(32);
        } else {
            blanked.push(x);
        }
        proof {
            let pushed = blanked@[blanked@.len() - 1];
            assert(blanked@ == before.push(pushed));
            assert(blank_from(bytes@, i as int, c0, e0, m0) == seq![pushed] + blank_from(
                bytes@,
                i + 1,
                in_class,
                escape,
                comment,
            ));
            assert(before + (seq![pushed] + blank_from(bytes@, i + 1, in_class, escape, comment))
                =~= before.push(pushed) + blank_from(bytes@, i + 1, in_class, escape, comment));
        }
        i += 1;
    }
    assert(blanked@ + Seq::<u8>::empty() =~= blanked@);
    scan_bytes(blanked.as_slice())
}

} // verus!
