//! Per-line suppression.
//!
//! ```perl
//! my $legacy = $thing->whatever;   ## camello-disable: unknown-method
//! ```
//!
//! A comment, so that a reformat keeps it. A comment sharing a line with code
//! is about that line, and a comment on a line of its own is about the line
//! below it. A marker with no codes, or one naming something that is not a
//! code, silences the whole line.
//!
//! The file's tokens are those in the nodes' `children`, trivia included, as
//! a parser lays them down; `before` is a reading aid over tokens that stand
//! there already.

use vstd::prelude::*;
use vstd::string::StringSliceAdditionalSpecFns;

use crate::diag::{
    all_codes, find_code, line_starts, spec_line, starts_at_or_before, Code, Diagnostic, LineIndex,
};
use crate::syntax::{deref_tokens, SyntaxElement, SyntaxNode, SyntaxToken, TokenKind};
use crate::text::{chars_of, is_white_space, is_whitespace, string_of};

verus! {

broadcast use vstd::utf8::encode_utf8_decode_utf8;

// ===== The tokens of a tree =====

/// Every token under a node, in document order.
pub open spec fn all_tokens(n: SyntaxNode) -> Seq<SyntaxToken>
    decreases n,
{
    tokens_under(n.children@)
}

/// Every token under a run of siblings, in document order.
pub open spec fn tokens_under(es: Seq<SyntaxElement>) -> Seq<SyntaxToken>
    decreases es,
{
    if es.len() == 0 {
        Seq::empty()
    } else {
        tokens_under(es.drop_last()) + match es.last() {
            SyntaxElement::Node(m) => all_tokens(m),
            SyntaxElement::Token(t) => seq![t],
        }
    }
}

fn collect_tokens_under<'a>(es: &'a Vec<SyntaxElement>, out: &mut Vec<&'a SyntaxToken>)
    ensures
        deref_tokens(final(out)@) == deref_tokens(old(out)@) + tokens_under(es@),
    decreases es@,
{
    let ghost start = deref_tokens(out@);
    let mut i: usize = 0;
    assert(start + tokens_under(es@.subrange(0, 0)) =~= start);
    while i < es.len()
        invariant
            i <= es@.len(),
            start == deref_tokens(old(out)@),
            deref_tokens(out@) == start + tokens_under(es@.subrange(0, i as int)),
        decreases es@.len() - i,
    {
        proof {
            assert(es@.subrange(0, i + 1).drop_last() =~= es@.subrange(0, i as int));
            assert(es@.subrange(0, i + 1).last() == es@[i as int]);
        }
        match &es[i] {
            SyntaxElement::Node(m) => {
                proof {
                    assert(decreases_to!(es@ => es@[i as int]));
                }
                collect_tokens(m, out);
                assert(deref_tokens(out@) =~= start + tokens_under(es@.subrange(0, i + 1)));
            },
            SyntaxElement::Token(t) => {
                let ghost before = deref_tokens(out@);
                out.push(t);
                assert(deref_tokens(out@) =~= before.push(*t));
                assert(deref_tokens(out@) =~= start + tokens_under(es@.subrange(0, i + 1)));
            },
        }
        i += 1;
    }
    assert(es@.subrange(0, es@.len() as int) =~= es@);
}

fn collect_tokens<'a>(node: &'a SyntaxNode, out: &mut Vec<&'a SyntaxToken>)
    ensures
        deref_tokens(final(out)@) == deref_tokens(old(out)@) + all_tokens(*node),
    decreases *node,
{
    proof {
        assert(decreases_to!(*node => node.children));
        assert(decreases_to!(node.children => node.children@));
    }
    collect_tokens_under(&node.children, out);
}

/// Every token under a node, in document order.
pub fn tokens(node: &SyntaxNode) -> (r: Vec<&SyntaxToken>)
    ensures
        deref_tokens(r@) == all_tokens(*node),
{
    let mut out: Vec<&SyntaxToken> = Vec::new();
    collect_tokens(node, &mut out);
    assert(deref_tokens(out@) =~= all_tokens(*node));
    out
}

// ===== Reading a marker =====

/// The marker's text.
pub open spec fn marker() -> Seq<char> {
    seq!['#', '#', ' ', 'c', 'a', 'm', 'e', 'l', 'l', 'o', '-', 'd', 'i', 's', 'a', 'b', 'l', 'e', ':']
}

/// Where the first marker in `t` from `i` on begins.
pub open spec fn find_marker(t: Seq<char>, i: int) -> Option<int>
    decreases t.len() - i,
{
    if i < 0 || i + marker().len() > t.len() {
        None
    } else if t.subrange(i, i + marker().len()) == marker() {
        Some(i)
    } else {
        find_marker(t, i + 1)
    }
}

proof fn lemma_find_marker(t: Seq<char>, i: int)
    ensures
        find_marker(t, i) matches Some(p) ==> i <= p && p + marker().len() <= t.len(),
    decreases t.len() - i,
{
    if !(i < 0 || i + marker().len() > t.len()) && t.subrange(i, i + marker().len()) != marker() {
        lemma_find_marker(t, i + 1);
    }
}

/// The pieces of `t` between commas.
pub open spec fn split_commas(t: Seq<char>) -> Seq<Seq<char>>
    decreases t.len(),
{
    if t.len() == 0 {
        seq![Seq::empty()]
    } else {
        let p = split_commas(t.drop_last());
        if t.last() == ',' {
            p.push(Seq::empty())
        } else {
            p.update(p.len() - 1, p.last().push(t.last()))
        }
    }
}

/// Where the first character of `t` from `i` on that is not whitespace stands.
pub open spec fn lead(t: Seq<char>, i: int) -> int
    decreases t.len() - i,
{
    if 0 <= i < t.len() && is_white_space(t[i]) {
        lead(t, i + 1)
    } else {
        i
    }
}

/// Where the whitespace that ends `t[lo..j]` begins.
pub open spec fn trail(t: Seq<char>, j: int, lo: int) -> int
    decreases j - lo,
{
    if lo < j && is_white_space(t[j - 1]) {
        trail(t, j - 1, lo)
    } else {
        j
    }
}

/// `t` without the whitespace at either end.
pub open spec fn trim(t: Seq<char>) -> Seq<char> {
    let a = lead(t, 0);
    t.subrange(a, trail(t, t.len() as int, a))
}

/// The codes a list of pieces names, or `None` where one names no code;
/// empty pieces are passed over.
pub open spec fn listed_codes(parts: Seq<Seq<char>>) -> Option<Seq<Code>>
    decreases parts.len(),
{
    if parts.len() == 0 {
        Some(Seq::empty())
    } else {
        match listed_codes(parts.drop_last()) {
            None => None,
            Some(cs) => {
                let w = trim(parts.last());
                if w.len() == 0 {
                    Some(cs)
                } else {
                    match find_code(all_codes(), w, 0) {
                        Some(c) => Some(cs.push(c)),
                        None => None,
                    }
                }
            },
        }
    }
}

/// What a comment says: `None` when it holds no marker, `Some(None)` for a
/// marker that silences the whole line, and `Some(Some(codes))` for one that
/// names codes.
pub open spec fn spec_marker_codes(t: Seq<char>) -> Option<Option<Seq<Code>>> {
    match find_marker(t, 0) {
        None => None,
        Some(p) => match listed_codes(split_commas(t.subrange(p + marker().len(), t.len() as int))) {
            Some(cs) => if cs.len() > 0 {
                Some(Some(cs))
            } else {
                Some(None)
            },
            None => Some(None),
        },
    }
}

/// Whether the text before an offset, back to the line's start, is blank:
/// the comment there is on a line of its own.
pub open spec fn blank_before(cs: Seq<char>) -> bool
    decreases cs.len(),
{
    if cs.len() == 0 {
        true
    } else if cs.last() == '\n' {
        true
    } else {
        is_white_space(cs.last()) && blank_before(cs.drop_last())
    }
}

/// The line a marker at `start` is about: its own, or the next one where it
/// stands alone on its line.
pub open spec fn target_line(bytes: Seq<u8>, starts: Seq<usize>, start: int) -> int {
    let line = starts_at_or_before(starts, start) as int;
    if blank_before(vstd::utf8::decode_utf8(bytes.subrange(0, start))) {
        line + 1
    } else {
        line
    }
}

/// The markers among `ts`, in order: the line each is about and what it
/// silences there (`None` for everything).
pub open spec fn markers(ts: Seq<SyntaxToken>, bytes: Seq<u8>, starts: Seq<usize>) -> Seq<(int, Option<Seq<Code>>)>
    decreases ts.len(),
{
    if ts.len() == 0 {
        Seq::empty()
    } else {
        let prev = markers(ts.drop_last(), bytes, starts);
        let t = ts.last();
        if t.kind == TokenKind::Comment {
            match spec_marker_codes(t.text@) {
                Some(codes) => prev.push((target_line(bytes, starts, t.range.start as int), codes)),
                None => prev,
            }
        } else {
            prev
        }
    }
}

/// The markers of a file.
pub open spec fn spec_suppressions(root: SyntaxNode, bytes: Seq<u8>) -> Seq<(int, Option<Seq<Code>>)> {
    markers(all_tokens(root), bytes, line_starts(bytes))
}

/// Whether what a marker names covers `code`.
pub open spec fn codes_cover(codes: Option<Seq<Code>>, code: Code) -> bool {
    match codes {
        None => true,
        Some(cs) => cs.contains(code),
    }
}

/// Whether some marker is about `line` and covers `code`.
pub open spec fn marked(ms: Seq<(int, Option<Seq<Code>>)>, line: int, code: Code) -> bool {
    exists|i: int| 0 <= i < ms.len() && (#[trigger] ms[i]).0 == line && codes_cover(ms[i].1, code)
}

/// Whether a marker comment's offset can be cut at: inside the text, and at a
/// character boundary.
pub open spec fn markers_cut_cleanly(ts: Seq<SyntaxToken>, bytes: Seq<u8>) -> bool {
    forall|i: int|
        0 <= i < ts.len() && (#[trigger] ts[i]).kind == TokenKind::Comment && spec_marker_codes(ts[i].text@) is Some
            ==> ts[i].range.start <= bytes.len() && vstd::utf8::is_char_boundary(bytes, ts[i].range.start as int)
}

// ===== Executable reading =====

fn marker_text() -> (r: Vec<char>)
    ensures
        r@ == marker(),
{
    let r = chars_of("## camello-disable:");
    proof {
        reveal_strlit("## camello-disable:");
    }
    assert(r@ =~= marker());
    r
}

/// Where the first marker in `c` begins.
fn first_marker(c: &Vec<char>, m: &Vec<char>) -> (r: Option<usize>)
    requires
        m@ == marker(),
    ensures
        match find_marker(c@, 0) {
            Some(p) => r matches Some(q) && q == p,
            None => r is None,
        },
{
    assert(marker().len() == 19);
    if m.len() > c.len() {
        return None;
    }
    let last = c.len() - m.len();
    let mut i: usize = 0;
    while i <= last
        invariant
            m@ == marker(),
            last == c@.len() - m@.len(),
            last < usize::MAX,
            find_marker(c@, 0) == find_marker(c@, i as int),
        decreases last + 1 - i,
    {
        if stands_at(c, m, i) {
            return Some(i);
        }
        i += 1;
    }
    None
}

/// Whether `m` stands in `c` at `i`.
fn stands_at(c: &Vec<char>, m: &Vec<char>, i: usize) -> (r: bool)
    requires
        i + m.len() <= c.len(),
    ensures
        r == (c@.subrange(i as int, i + m@.len()) == m@),
{
    let mut k: usize = 0;
    while k < m.len()
        invariant
            i + m.len() <= c.len(),
            k <= m@.len(),
            forall|j: int| 0 <= j < k ==> c@[i + j] == m@[j],
        decreases m@.len() - k,
    {
        assert(i + k < c@.len());
        if c[i + k] != m[k] {
            assert(c@.subrange(i as int, i + m@.len())[k as int] != m@[k as int]);
            return false;
        }
        k += 1;
    }
    assert(c@.subrange(i as int, i + m@.len()) =~= m@);
    true
}

/// `t[from..to]` without the whitespace at either end.
fn trimmed(t: &Vec<char>) -> (r: String)
    ensures
        r@ == trim(t@),
{
    let mut a: usize = 0;
    while a < t.len() && is_whitespace(t[a])
        invariant
            a <= t@.len(),
            lead(t@, 0) == lead(t@, a as int),
        decreases t@.len() - a,
    {
        a += 1;
    }
    let mut b: usize = t.len();
    assert(trail(t@, t@.len() as int, a as int) == trail(t@, b as int, a as int));
    while a < b && is_whitespace(t[b - 1])
        invariant
            a <= b <= t@.len(),
            lead(t@, 0) == a,
            trail(t@, t@.len() as int, a as int) == trail(t@, b as int, a as int),
        decreases b - a,
    {
        b -= 1;
    }
    string_of(t, a, b)
}

proof fn lemma_split_nonempty(t: Seq<char>)
    ensures
        split_commas(t).len() >= 1,
    decreases t.len(),
{
    if t.len() > 0 {
        lemma_split_nonempty(t.drop_last());
    }
}

/// The piece's contribution to what a list names.
fn read_piece(piece: &Vec<char>, codes: &mut Vec<Code>, bad: &mut bool, Ghost(done): Ghost<Seq<Seq<char>>>)
    requires
        listed_codes(done) == (if *old(bad) {
            None
        } else {
            Some(old(codes)@)
        }),
    ensures
        listed_codes(done.push(piece@)) == (if *final(bad) {
            None
        } else {
            Some(final(codes)@)
        }),
{
    assert(done.push(piece@).drop_last() =~= done);
    if *bad {
        return;
    }
    let w = trimmed(piece);
    if w.unicode_len() == 0 {
        return;
    }
    match Code::parse(w.as_str()) {
        Some(c) => {
            codes.push(c);
        },
        None => {
            *bad = true;
        },
    }
}

/// What a comment says, read as `spec_marker_codes` says.
pub fn marker_codes(text: &str) -> (r: Option<Option<Vec<Code>>>)
    ensures
        match spec_marker_codes(text@) {
            None => r is None,
            Some(None) => r matches Some(x) && x is None,
            Some(Some(cs)) => r matches Some(x) && x matches Some(v) && v@ == cs,
        },
{
    let c = chars_of(text);
    let m = marker_text();
    let p = match first_marker(&c, &m) {
        Some(p) => p,
        None => {
            return None;
        },
    };
    proof {
        lemma_find_marker(c@, 0);
    }
    let n = c.len();
    assert(p + m.len() <= n);
    let from = p + m.len();
    let ghost rest = c@.subrange(from as int, c@.len() as int);
    let mut codes: Vec<Code> = Vec::new();
    let mut bad = false;
    let mut piece: Vec<char> = Vec::new();
    let ghost mut done: Seq<Seq<char>> = Seq::empty();
    let mut j: usize = from;
    assert(rest.subrange(0, 0) =~= Seq::<char>::empty());
    assert(split_commas(rest.subrange(0, 0)) =~= done.push(piece@));
    while j < c.len()
        invariant
            from <= j <= c@.len(),
            rest == c@.subrange(from as int, c@.len() as int),
            split_commas(rest.subrange(0, j - from)) == done.push(piece@),
            listed_codes(done) == (if bad {
                None
            } else {
                Some(codes@)
            }),
        decreases c@.len() - j,
    {
        let ghost before = rest.subrange(0, j - from);
        proof {
            assert(rest.subrange(0, j + 1 - from).drop_last() =~= before);
            assert(rest.subrange(0, j + 1 - from).last() == c@[j as int]);
        }
        if c[j] == ',' {
            read_piece(&piece, &mut codes, &mut bad, Ghost(done));
            proof {
                done = done.push(piece@);
            }
            piece = Vec::new();
            assert(split_commas(rest.subrange(0, j + 1 - from)) =~= done.push(piece@));
        } else {
            let ghost old_piece = piece@;
            piece.push(c[j]);
            assert(split_commas(rest.subrange(0, j + 1 - from)) =~= done.push(piece@));
        }
        j += 1;
    }
    read_piece(&piece, &mut codes, &mut bad, Ghost(done));
    assert(rest.subrange(0, c@.len() - from) =~= rest);
    if bad || codes.len() == 0 {
        Some(None)
    } else {
        Some(Some(codes))
    }
}

/// Whether the text is blank back to its last line break.
fn blank_tail(text: &str) -> (r: bool)
    ensures
        r == blank_before(text@),
{
    let c = chars_of(text);
    let mut k: usize = c.len();
    assert(c@.subrange(0, k as int) =~= c@);
    while k > 0
        invariant
            k <= c@.len(),
            blank_before(c@) == blank_before(c@.subrange(0, k as int)),
            c@ == text@,
        decreases k,
    {
        let ghost s = c@.subrange(0, k as int);
        assert(s.drop_last() =~= c@.subrange(0, k - 1));
        assert(s.last() == c@[k - 1]);
        if c[k - 1] == '\n' {
            return true;
        }
        if !is_whitespace(c[k - 1]) {
            return false;
        }
        k -= 1;
    }
    assert(c@.subrange(0, 0) =~= Seq::<char>::empty());
    true
}

// ===== What each line was told =====

/// Whether some entry is about `line` and covers `code`.
pub open spec fn covers_in(lines: Seq<(usize, Option<Vec<Code>>)>, line: int, code: Code) -> bool {
    exists|i: int|
        0 <= i < lines.len() && (#[trigger] lines[i]).0 == line && codes_cover(
            match lines[i].1 {
                Some(v) => Some(v@),
                None => None,
            },
            code,
        )
}

/// Each line has one entry.
pub open spec fn lines_distinct(lines: Seq<(usize, Option<Vec<Code>>)>) -> bool {
    forall|i: int, j: int| 0 <= i < j < lines.len() ==> (#[trigger] lines[i]).0 != (#[trigger] lines[j]).0
}

pub open spec fn option_view(codes: Option<Vec<Code>>) -> Option<Seq<Code>> {
    match codes {
        Some(v) => Some(v@),
        None => None,
    }
}

/// What each line was told to stay quiet about.
pub struct Suppressions {
    lines: Vec<(usize, Option<Vec<Code>>)>,
}

impl Suppressions {
    #[verifier::type_invariant]
    spec fn well_formed(self) -> bool {
        lines_distinct(self.lines@)
    }

    /// Whether `code` is silenced on `line`.
    pub closed spec fn covers(&self, line: int, code: Code) -> bool {
        covers_in(self.lines@, line, code)
    }

    /// Whether any line was told anything.
    pub closed spec fn holds_any(&self) -> bool {
        self.lines@.len() > 0
    }

    /// Read every `## camello-disable:` in a file.
    pub fn of(root: &SyntaxNode, source: &str) -> (s: Suppressions)
        requires
            source.spec_bytes().len() + 2 < usize::MAX,
            markers_cut_cleanly(all_tokens(*root), source.spec_bytes()),
        ensures
            forall|line: int, code: Code| #[trigger] s.covers(line, code) == marked(spec_suppressions(*root, source.spec_bytes()), line, code),
            s.holds_any() == (spec_suppressions(*root, source.spec_bytes()).len() > 0),
    {
        let ghost bytes = source.spec_bytes();
        let index = LineIndex::new(source);
        let ghost starts = line_starts(bytes);
        proof {
            crate::diag::lemma_line_count(bytes, bytes.len() as int);
        }
        let ts = tokens(root);
        let ghost all = all_tokens(*root);
        let mut lines: Vec<(usize, Option<Vec<Code>>)> = Vec::new();
        let mut i: usize = 0;
        assert(all.subrange(0, 0) =~= Seq::<SyntaxToken>::empty());
        while i < ts.len()
            invariant
                i <= ts@.len(),
                deref_tokens(ts@) == all,
                all == all_tokens(*root),
                bytes == source.spec_bytes(),
                bytes.len() + 2 < usize::MAX,
                starts == line_starts(bytes),
                starts.len() <= bytes.len() + 1,
                index.starts() == starts,
                markers_cut_cleanly(all, bytes),
                lines_distinct(lines@),
                forall|line: int, code: Code| #[trigger] covers_in(lines@, line, code) == marked(markers(all.subrange(0, i as int), bytes, starts), line, code),
                (lines@.len() > 0) == (markers(all.subrange(0, i as int), bytes, starts).len() > 0),
            decreases ts@.len() - i,
        {
            let t = ts[i];
            let ghost prev = markers(all.subrange(0, i as int), bytes, starts);
            proof {
                assert(all.subrange(0, i + 1).drop_last() =~= all.subrange(0, i as int));
                assert(all.subrange(0, i + 1).last() == *t);
                assert(all[i as int] == *t);
            }
            if t.kind == TokenKind::Comment {
                match marker_codes(t.text.as_str()) {
                    Some(codes) => {
                        let start = t.range.start as usize;
                        let position = index.position(source, start);
                        let (before, _) = source.split_at(start);
                        let own_line = blank_tail(before);
                        proof {
                            assert(before.spec_bytes() =~= bytes.subrange(0, start as int));
                            assert(vstd::utf8::decode_utf8(before.spec_bytes()) == before@);
                            crate::diag::lemma_starts_counted_bound(starts, start as int);
                        }
                        let target = if own_line { position.line + 1 } else { position.line };
                        let ghost entry = (target as int, option_view(codes));
                        assert(entry == (target_line(bytes, starts, t.range.start as int), option_view(codes)));
                        merge(&mut lines, target, codes);
                        proof {
                            let now = prev.push(entry);
                            assert(markers(all.subrange(0, i + 1), bytes, starts) == now);
                            assert forall|line: int, code: Code| #[trigger] covers_in(lines@, line, code) == marked(now, line, code) by {
                                if marked(now, line, code) {
                                    let k = choose|k: int| 0 <= k < now.len() && (#[trigger] now[k]).0 == line && codes_cover(now[k].1, code);
                                    if k < prev.len() {
                                        assert(prev[k] == now[k]);
                                        assert(marked(prev, line, code));
                                    }
                                }
                                if marked(prev, line, code) {
                                    let k = choose|k: int| 0 <= k < prev.len() && (#[trigger] prev[k]).0 == line && codes_cover(prev[k].1, code);
                                    assert(now[k] == prev[k]);
                                }
                                if line == target as int && codes_cover(entry.1, code) {
                                    assert(now[prev.len() as int] == entry);
                                }
                            }
                        }
                    },
                    None => {
                        assert(markers(all.subrange(0, i + 1), bytes, starts) == prev);
                    },
                }
            } else {
                assert(markers(all.subrange(0, i + 1), bytes, starts) == prev);
            }
            i += 1;
        }
        assert(all.subrange(0, ts@.len() as int) =~= all);
        Suppressions { lines }
    }

    /// Whether this diagnostic was told to stay quiet.
    pub fn silences(&self, diagnostic: &Diagnostic, source: &str, index: &LineIndex) -> (r: bool)
        requires
            source.spec_bytes().len() < usize::MAX,
        ensures
            r == self.covers(spec_line(index, source.spec_bytes(), diagnostic.range.start as int) as int, diagnostic.code),
    {
        proof {
            use_type_invariant(self);
        }
        let line = index.position(source, diagnostic.range.start as usize).line;
        assert(line as int == spec_line(index, source.spec_bytes(), diagnostic.range.start as int));
        let mut i: usize = 0;
        while i < self.lines.len()
            invariant
                i <= self.lines@.len(),
                lines_distinct(self.lines@),
                line as int == spec_line(index, source.spec_bytes(), diagnostic.range.start as int),
                forall|j: int| 0 <= j < i ==> (#[trigger] self.lines@[j]).0 != line,
            decreases self.lines@.len() - i,
        {
            if self.lines[i].0 == line {
                let r = match &self.lines[i].1 {
                    None => true,
                    Some(codes) => contains_code(codes, diagnostic.code),
                };
                proof {
                    let l = line as int;
                    let c = diagnostic.code;
                    assert(codes_cover(option_view(self.lines@[i as int].1), c) == r);
                    if covers_in(self.lines@, l, c) {
                        let k = choose|k: int| 0 <= k < self.lines@.len() && (#[trigger] self.lines@[k]).0 == l && codes_cover(option_view(self.lines@[k].1), c);
                        assert(k == i);
                        assert(r);
                    }
                    if r {
                        assert(self.lines@[i as int].0 == l);
                        assert(covers_in(self.lines@, l, c));
                    }
                    assert(r == self.covers(l, c));
                }
                return r;
            }
            i += 1;
        }
        proof {
            if covers_in(self.lines@, line as int, diagnostic.code) {
                let k = choose|k: int| 0 <= k < self.lines@.len() && (#[trigger] self.lines@[k]).0 == line as int && codes_cover(option_view(self.lines@[k].1), diagnostic.code);
                assert(self.lines@[k].0 != line);
            }
        }
        false
    }

    /// Whether nothing in the file was silenced.
    pub fn is_empty(&self) -> (r: bool)
        ensures
            r == !self.holds_any(),
    {
        self.lines.len() == 0
    }
}

fn contains_code(codes: &Vec<Code>, code: Code) -> (r: bool)
    ensures
        r == codes@.contains(code),
{
    let mut i: usize = 0;
    while i < codes.len()
        invariant
            i <= codes@.len(),
            forall|j: int| 0 <= j < i ==> codes@[j] != code,
        decreases codes@.len() - i,
    {
        if codes[i] == code {
            assert(codes@[i as int] == code);
            return true;
        }
        i += 1;
    }
    false
}

proof fn lemma_contains_concat(a: Seq<Code>, b: Seq<Code>, c: Code)
    ensures
        (a + b).contains(c) == (a.contains(c) || b.contains(c)),
{
    if (a + b).contains(c) {
        let i = choose|i: int| 0 <= i < (a + b).len() && (a + b)[i] == c;
        if i < a.len() {
            assert(a[i] == c);
        } else {
            assert(b[i - a.len()] == c);
        }
    }
    if a.contains(c) {
        let i = choose|i: int| 0 <= i < a.len() && a[i] == c;
        assert((a + b)[i] == c);
    }
    if b.contains(c) {
        let i = choose|i: int| 0 <= i < b.len() && b[i] == c;
        assert((a + b)[a.len() + i] == c);
    }
}

/// Where the entry for `line` stands, if there is one.
fn line_slot(lines: &Vec<(usize, Option<Vec<Code>>)>, line: usize) -> (r: Option<usize>)
    ensures
        match r {
            Some(k) => k < lines@.len() && lines@[k as int].0 == line,
            None => forall|j: int| 0 <= j < lines@.len() ==> (#[trigger] lines@[j]).0 != line,
        },
{
    let mut k: usize = 0;
    while k < lines.len()
        invariant
            k <= lines@.len(),
            forall|j: int| 0 <= j < k ==> (#[trigger] lines@[j]).0 != line,
        decreases lines@.len() - k,
    {
        if lines[k].0 == line {
            return Some(k);
        }
        k += 1;
    }
    None
}

/// Fold one marker into what each line was told: a marker for everything wins
/// over a list, and two lists for one line are one.
fn merge(lines: &mut Vec<(usize, Option<Vec<Code>>)>, line: usize, codes: Option<Vec<Code>>)
    requires
        lines_distinct(old(lines)@),
    ensures
        lines_distinct(final(lines)@),
        final(lines)@.len() > 0,
        forall|l: int, c: Code| #[trigger] covers_in(final(lines)@, l, c) == (covers_in(old(lines)@, l, c) || (l == line
            && codes_cover(option_view(codes), c))),
{
    let ghost old_lines = lines@;
    let ghost cv = option_view(codes);
    let slot = line_slot(lines, line);
    let k = match slot {
        Some(k) => k,
        None => lines.len(),
    };
    if k == lines.len() {
        lines.push((line, codes));
        proof {
            assert forall|l: int, c: Code| #[trigger] covers_in(lines@, l, c) == (covers_in(old_lines, l, c) || (l == line
                && codes_cover(cv, c))) by {
                if covers_in(lines@, l, c) {
                    let j = choose|j: int| 0 <= j < lines@.len() && (#[trigger] lines@[j]).0 == l && codes_cover(option_view(lines@[j].1), c);
                    if j < old_lines.len() {
                        assert(old_lines[j] == lines@[j]);
                    }
                }
                if covers_in(old_lines, l, c) {
                    let j = choose|j: int| 0 <= j < old_lines.len() && (#[trigger] old_lines[j]).0 == l && codes_cover(option_view(old_lines[j].1), c);
                    assert(lines@[j] == old_lines[j]);
                }
                if l == line && codes_cover(cv, c) {
                    assert(lines@[old_lines.len() as int] == (line, codes));
                }
            }
        }
        return;
    }
    let ghost ev = option_view(old_lines[k as int].1);
    let (_, existing) = lines.remove(k);
    let merged: Option<Vec<Code>> = match (existing, codes) {
        (Some(mut have), Some(mut more)) => {
            let ghost h = have@;
            let ghost mo = more@;
            have.append(&mut more);
            proof {
                assert forall|c: Code| #[trigger] (h + mo).contains(c) == (h.contains(c) || mo.contains(c)) by {
                    lemma_contains_concat(h, mo, c);
                }
            }
            Some(have)
        },
        _ => None,
    };
    lines.insert(k, (line, merged));
    proof {
        assert(forall|c: Code| #[trigger] codes_cover(option_view(merged), c) == (codes_cover(ev, c) || codes_cover(cv, c)));
        assert(lines@ =~= old_lines.update(k as int, (line, merged)));
        assert forall|l: int, c: Code| #[trigger] covers_in(lines@, l, c) == (covers_in(old_lines, l, c) || (l == line
            && codes_cover(cv, c))) by {
            if covers_in(lines@, l, c) {
                let j = choose|j: int| 0 <= j < lines@.len() && (#[trigger] lines@[j]).0 == l && codes_cover(option_view(lines@[j].1), c);
                if j != k {
                    assert(old_lines[j] == lines@[j]);
                } else if codes_cover(ev, c) {
                    assert(old_lines[j].0 == l);
                }
            }
            if covers_in(old_lines, l, c) {
                let j = choose|j: int| 0 <= j < old_lines.len() && (#[trigger] old_lines[j]).0 == l && codes_cover(option_view(old_lines[j].1), c);
                if j != k {
                    assert(lines@[j] == old_lines[j]);
                } else {
                    assert(lines@[j].0 == l);
                }
            }
            if l == line && codes_cover(cv, c) {
                assert(lines@[k as int].0 == l);
            }
        }
    }
}

} // verus!
