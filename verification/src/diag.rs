//! What the checker reports.
//!
//! Every diagnostic has a stable code, a severity, a span and a message that
//! names both sides. The code is stable because it is what a
//! `## camello-disable:` comment and a config file name; the severity is a
//! property of the *kind* of contradiction, not of the site, and the one place
//! it varies is written down in [`Diagnostic::downgraded`].

use vstd::prelude::*;
use vstd::utf8::*;
use vstd::string::*;

use crate::span::TextRange;
use crate::text::same_text;

verus! {

/// How loudly a diagnostic is reported: an `error` is a contradiction between
/// two declared things, a `warning` has an inferred thing on one side, and
/// `info` is something a user asked to be told.
#[derive(Debug, Clone, Copy, PartialEq, Eq, Structural, PartialOrd, Ord, Hash)]
pub enum Severity {
    Info,
    Warning,
    Error,
}

pub open spec fn severity_text(s: Severity) -> Seq<char> {
    match s {
        Severity::Info => "info"@,
        Severity::Warning => "warning"@,
        Severity::Error => "error"@,
    }
}

/// `info` below `warning` below `error`.
pub open spec fn severity_rank(s: Severity) -> int {
    match s {
        Severity::Info => 0,
        Severity::Warning => 1,
        Severity::Error => 2,
    }
}

pub open spec fn spec_downgraded(s: Severity) -> Severity {
    match s {
        Severity::Error => Severity::Warning,
        Severity::Warning | Severity::Info => Severity::Info,
    }
}

impl Severity {
    pub fn as_str(self) -> (s: &'static str)
        ensures
            s@ == severity_text(self),
    {
        match self {
            Severity::Info => "info",
            Severity::Warning => "warning",
            Severity::Error => "error",
        }
    }

    /// The severity a word names; `warn` is `warning` too.
    pub fn parse(text: &str) -> (r: Option<Severity>)
        ensures
            r == (if text@ == "info"@ {
                Some(Severity::Info)
            } else if text@ == "warning"@ || text@ == "warn"@ {
                Some(Severity::Warning)
            } else if text@ == "error"@ {
                Some(Severity::Error)
            } else {
                None::<Severity>
            }),
    {
        if same_text(text, "info") {
            Some(Severity::Info)
        } else if same_text(text, "warning") || same_text(text, "warn") {
            Some(Severity::Warning)
        } else if same_text(text, "error") {
            Some(Severity::Error)
        } else {
            None
        }
    }

    /// One step quieter, for a diagnostic resting on a parser guess. `info`
    /// is the floor.
    pub fn downgraded(self) -> (r: Severity)
        ensures
            r == spec_downgraded(self),
    {
        match self {
            Severity::Error => Severity::Warning,
            Severity::Warning | Severity::Info => Severity::Info,
        }
    }

    /// Whether `self` is at least as loud as `other`.
    pub fn at_least(self, other: Severity) -> (r: bool)
        ensures
            r == (severity_rank(self) >= severity_rank(other)),
    {
        let a: u8 = match self {
            Severity::Info => 0,
            Severity::Warning => 1,
            Severity::Error => 2,
        };
        let b: u8 = match other {
            Severity::Info => 0,
            Severity::Warning => 1,
            Severity::Error => 2,
        };
        a >= b
    }
}

/// Every code the checker can report.
#[derive(Debug, Clone, Copy, PartialEq, Eq, Structural, PartialOrd, Ord, Hash)]
pub enum Code {
    /// A name used under `strict` that no declaration reaches.
    UndeclaredVariable,
    /// A lexical that is declared and never read.
    UnusedVariable,
    /// A lexical whose name an enclosing scope already binds.
    ShadowedVariable,
    /// A call whose argument count cannot satisfy the callee's parameter list.
    Arity,
    /// A value whose type contradicts the declared type of the slot it goes in.
    TypeMismatch,
    /// A key read off a `Dict` that has no such key, or passed to a constructor
    /// that declares no such attribute.
    UnknownKey,
    /// A method called on a class that declares no such method and has no
    /// unknown ancestor.
    UnknownMethod,
    /// A `Maybe[...]` dereferenced or called on without a narrowing check.
    MaybeDeref,
    /// An annotation that does not parse.
    BadAnnotation,
    /// A `return` whose shape contradicts the sub's `Returns:`.
    ReturnMismatch,
    /// A type or class name that nothing in the program declares.
    UnknownType,
    /// A public sub with no annotation, under `--strict-annotations`.
    MissingAnnotation,
    /// A required named argument the call does not pass.
    MissingArgument,
    /// A method call to a sub declared `()`, whose prototype perl does not
    /// apply here.
    IgnoredPrototype,
    /// A parameter the body never reads.
    UnusedParameter,
}

pub open spec fn code_text(c: Code) -> Seq<char> {
    match c {
        Code::UndeclaredVariable => "undeclared-variable"@,
        Code::UnusedVariable => "unused-variable"@,
        Code::ShadowedVariable => "shadowed-variable"@,
        Code::Arity => "arity"@,
        Code::TypeMismatch => "type-mismatch"@,
        Code::UnknownKey => "unknown-key"@,
        Code::UnknownMethod => "unknown-method"@,
        Code::MaybeDeref => "maybe-deref"@,
        Code::BadAnnotation => "bad-annotation"@,
        Code::ReturnMismatch => "return-mismatch"@,
        Code::UnknownType => "unknown-type"@,
        Code::MissingAnnotation => "missing-annotation"@,
        Code::MissingArgument => "missing-argument"@,
        Code::UnusedParameter => "unused-parameter"@,
        Code::IgnoredPrototype => "ignored-prototype"@,
    }
}

/// Every code, in the order the fixtures are walked.
pub open spec fn all_codes() -> Seq<Code> {
    seq![
        Code::UndeclaredVariable,
        Code::UnusedVariable,
        Code::ShadowedVariable,
        Code::Arity,
        Code::TypeMismatch,
        Code::UnknownKey,
        Code::UnknownMethod,
        Code::MaybeDeref,
        Code::BadAnnotation,
        Code::ReturnMismatch,
        Code::UnknownType,
        Code::MissingAnnotation,
        Code::MissingArgument,
        Code::UnusedParameter,
        Code::IgnoredPrototype,
    ]
}

/// The first code in `codes` from `i` on whose text is `text`.
pub open spec fn find_code(codes: Seq<Code>, text: Seq<char>, i: int) -> Option<Code>
    decreases codes.len() - i,
{
    if i < 0 || i >= codes.len() {
        None
    } else if code_text(codes[i]) == text {
        Some(codes[i])
    } else {
        find_code(codes, text, i + 1)
    }
}

pub open spec fn spec_default_severity(c: Code) -> Severity {
    match c {
        Code::UndeclaredVariable
        | Code::Arity
        | Code::TypeMismatch
        | Code::UnknownKey
        | Code::MissingArgument => Severity::Error,
        Code::ReturnMismatch => Severity::Warning,
        Code::MaybeDeref
        | Code::BadAnnotation
        | Code::UnknownType
        | Code::MissingAnnotation
        | Code::UnusedParameter
        | Code::IgnoredPrototype
        | Code::UnknownMethod
        | Code::ShadowedVariable
        | Code::UnusedVariable => Severity::Info,
    }
}

impl Code {
    /// Every code the checker can report, in the order the fixtures are
    /// walked.
    pub fn all() -> (out: Vec<Code>)
        ensures
            out@ == all_codes(),
    {
        let out = vec![
            Code::UndeclaredVariable,
            Code::UnusedVariable,
            Code::ShadowedVariable,
            Code::Arity,
            Code::TypeMismatch,
            Code::UnknownKey,
            Code::UnknownMethod,
            Code::MaybeDeref,
            Code::BadAnnotation,
            Code::ReturnMismatch,
            Code::UnknownType,
            Code::MissingAnnotation,
            Code::MissingArgument,
            Code::UnusedParameter,
            Code::IgnoredPrototype,
        ];
        assert(out@ =~= all_codes());
        out
    }

    pub fn as_str(self) -> (s: &'static str)
        ensures
            s@ == code_text(self),
    {
        match self {
            Code::UndeclaredVariable => "undeclared-variable",
            Code::UnusedVariable => "unused-variable",
            Code::ShadowedVariable => "shadowed-variable",
            Code::Arity => "arity",
            Code::TypeMismatch => "type-mismatch",
            Code::UnknownKey => "unknown-key",
            Code::UnknownMethod => "unknown-method",
            Code::MaybeDeref => "maybe-deref",
            Code::BadAnnotation => "bad-annotation",
            Code::ReturnMismatch => "return-mismatch",
            Code::UnknownType => "unknown-type",
            Code::MissingAnnotation => "missing-annotation",
            Code::MissingArgument => "missing-argument",
            Code::UnusedParameter => "unused-parameter",
            Code::IgnoredPrototype => "ignored-prototype",
        }
    }

    /// The code a word names, as a config file or a marker writes it.
    pub fn parse(text: &str) -> (r: Option<Code>)
        ensures
            r == find_code(all_codes(), text@, 0),
    {
        let all = Code::all();
        let mut i: usize = 0;
        while i < all.len()
            invariant
                all@ == all_codes(),
                i <= all@.len(),
                find_code(all_codes(), text@, 0) == find_code(all_codes(), text@, i as int),
            decreases all@.len() - i,
        {
            let code = all[i];
            if same_text(text, code.as_str()) {
                return Some(code);
            }
            i += 1;
        }
        None
    }

    /// The severity this code is reported at when nothing downgrades it.
    pub fn default_severity(self) -> (r: Severity)
        ensures
            r == spec_default_severity(self),
    {
        match self {
            Code::UndeclaredVariable
            | Code::Arity
            | Code::TypeMismatch
            | Code::UnknownKey
            | Code::MissingArgument => Severity::Error,
            Code::ReturnMismatch => Severity::Warning,
            Code::MaybeDeref
            | Code::BadAnnotation
            | Code::UnknownType
            | Code::MissingAnnotation
            | Code::UnusedParameter
            | Code::IgnoredPrototype
            | Code::UnknownMethod
            | Code::ShadowedVariable
            | Code::UnusedVariable => Severity::Info,
        }
    }
}

proof fn lemma_code_texts(c: Code)
    ensures
        code_text(c).len() == (match c {
            Code::UndeclaredVariable => 19int,
            Code::UnusedVariable => 15,
            Code::ShadowedVariable => 17,
            Code::Arity => 5,
            Code::TypeMismatch => 13,
            Code::UnknownKey => 11,
            Code::UnknownMethod => 14,
            Code::MaybeDeref => 11,
            Code::BadAnnotation => 14,
            Code::ReturnMismatch => 15,
            Code::UnknownType => 12,
            Code::MissingAnnotation => 18,
            Code::MissingArgument => 16,
            Code::UnusedParameter => 16,
            Code::IgnoredPrototype => 17,
        }),
        code_text(c).len() > 0,
        code_text(c)[0] == (match c {
            Code::UndeclaredVariable => 'u',
            Code::UnusedVariable => 'u',
            Code::ShadowedVariable => 's',
            Code::Arity => 'a',
            Code::TypeMismatch => 't',
            Code::UnknownKey => 'u',
            Code::UnknownMethod => 'u',
            Code::MaybeDeref => 'm',
            Code::BadAnnotation => 'b',
            Code::ReturnMismatch => 'r',
            Code::UnknownType => 'u',
            Code::MissingAnnotation => 'm',
            Code::MissingArgument => 'm',
            Code::UnusedParameter => 'u',
            Code::IgnoredPrototype => 'i',
        }),
{
    reveal_strlit("undeclared-variable");
    reveal_strlit("unused-variable");
    reveal_strlit("shadowed-variable");
    reveal_strlit("arity");
    reveal_strlit("type-mismatch");
    reveal_strlit("unknown-key");
    reveal_strlit("unknown-method");
    reveal_strlit("maybe-deref");
    reveal_strlit("bad-annotation");
    reveal_strlit("return-mismatch");
    reveal_strlit("unknown-type");
    reveal_strlit("missing-annotation");
    reveal_strlit("missing-argument");
    reveal_strlit("unused-parameter");
    reveal_strlit("ignored-prototype");
}

/// No two codes are written the same way.
pub proof fn law_codes_are_written_apart(a: Code, b: Code)
    requires
        a != b,
    ensures
        code_text(a) != code_text(b),
{
    lemma_code_texts(a);
    lemma_code_texts(b);
    if code_text(a) == code_text(b) {
        assert(code_text(a)[0] == code_text(b)[0]);
    }
}

proof fn lemma_find_code(codes: Seq<Code>, t: Seq<char>, i: int, k: int)
    requires
        0 <= i <= k < codes.len(),
        code_text(codes[k]) == t,
        forall|j: int| i <= j < k ==> code_text(#[trigger] codes[j]) != t,
    ensures
        find_code(codes, t, i) == Some(codes[k]),
    decreases k - i,
{
    if i < k {
        lemma_find_code(codes, t, i + 1, k);
    }
}

/// Reading a code's own name back gives the code.
pub proof fn law_a_code_reads_back(c: Code)
    ensures
        find_code(all_codes(), code_text(c), 0) == Some(c),
{
    let codes = all_codes();
    let k: int = match c {
        Code::UndeclaredVariable => 0,
        Code::UnusedVariable => 1,
        Code::ShadowedVariable => 2,
        Code::Arity => 3,
        Code::TypeMismatch => 4,
        Code::UnknownKey => 5,
        Code::UnknownMethod => 6,
        Code::MaybeDeref => 7,
        Code::BadAnnotation => 8,
        Code::ReturnMismatch => 9,
        Code::UnknownType => 10,
        Code::MissingAnnotation => 11,
        Code::MissingArgument => 12,
        Code::UnusedParameter => 13,
        Code::IgnoredPrototype => 14,
    };
    assert(codes[k] == c);
    assert forall|j: int| 0 <= j < k implies code_text(#[trigger] codes[j]) != code_text(c) by {
        assert(codes[j] != c);
        law_codes_are_written_apart(codes[j], c);
    }
    lemma_find_code(codes, code_text(c), 0, k);
}

/// Reading a severity's own name back gives the severity.
pub proof fn law_a_severity_reads_back(s: Severity)
    ensures
        (if severity_text(s) == "info"@ {
            Some(Severity::Info)
        } else if severity_text(s) == "warning"@ || severity_text(s) == "warn"@ {
            Some(Severity::Warning)
        } else if severity_text(s) == "error"@ {
            Some(Severity::Error)
        } else {
            None::<Severity>
        }) == Some(s),
{
    reveal_strlit("info");
    reveal_strlit("warning");
    reveal_strlit("warn");
    reveal_strlit("error");
    assert("info"@.len() == 4);
    assert("warning"@.len() == 7);
    assert("warn"@.len() == 4);
    assert("error"@.len() == 5);
    match s {
        Severity::Info => {},
        Severity::Warning => {
            assert(severity_text(s) != "info"@);
        },
        Severity::Error => {
            assert(severity_text(s) != "info"@);
            assert(severity_text(s) != "warn"@);
            assert(severity_text(s) != "warning"@);
        },
    }
}

/// One thing the checker has to say about one place.
#[derive(Debug, Clone)]
pub struct Diagnostic {
    pub code: Code,
    pub severity: Severity,
    /// The code this is *about*, as it is written: `$rows`, `$self->{cfg}`.
    pub subject: Option<String>,
    pub range: TextRange,
    pub message: String,
}

impl Diagnostic {
    /// A diagnostic at its code's own severity, about nothing named yet.
    pub fn new(code: Code, range: TextRange, message: String) -> (d: Diagnostic)
        ensures
            d.code == code,
            d.severity == spec_default_severity(code),
            d.subject is None,
            d.range == range,
            d.message@ == message@,
    {
        Diagnostic { code, severity: code.default_severity(), subject: None, range, message }
    }

    /// Name the code this is about, for the message and for `--group`.
    pub fn about(self, subject: String) -> (d: Diagnostic)
        ensures
            d.code == self.code,
            d.severity == self.severity,
            d.subject == Some(subject),
            d.range == self.range,
            d.message == self.message,
    {
        let mut d = self;
        d.subject = Some(subject);
        d
    }

    /// One step quieter, because the reading it rests on is a parser guess.
    pub fn downgraded(self) -> (d: Diagnostic)
        ensures
            d.code == self.code,
            d.severity == spec_downgraded(self.severity),
            d.subject == self.subject,
            d.range == self.range,
            d.message == self.message,
    {
        let mut d = self;
        d.severity = d.severity.downgraded();
        d
    }

    /// Report at exactly this severity.
    pub fn at(self, severity: Severity) -> (d: Diagnostic)
        ensures
            d.code == self.code,
            d.severity == severity,
            d.subject == self.subject,
            d.range == self.range,
            d.message == self.message,
    {
        let mut d = self;
        d.severity = severity;
        d
    }
}

/// A line and column, one-based, for `path:line:col:`.
#[derive(Debug, Clone, Copy, PartialEq, Eq, Structural)]
pub struct Position {
    pub line: usize,
    pub column: usize,
}

/// Where each line of `bytes[..n]` starts: `0`, and one past every newline.
pub open spec fn line_starts_upto(bytes: Seq<u8>, n: int) -> Seq<usize>
    decreases n,
{
    if n <= 0 {
        seq![0usize]
    } else if bytes[n - 1] == 10 {
        line_starts_upto(bytes, n - 1).push(n as usize)
    } else {
        line_starts_upto(bytes, n - 1)
    }
}

pub open spec fn line_starts(bytes: Seq<u8>) -> Seq<usize> {
    line_starts_upto(bytes, bytes.len() as int)
}

/// Starts with `0`, and each start is past the one before it.
pub open spec fn starts_wf(s: Seq<usize>) -> bool {
    &&& s.len() >= 1
    &&& s[0] == 0
    &&& forall|i: int, j: int| 0 <= i < j < s.len() ==> s[i] < s[j]
}

proof fn lemma_line_starts(bytes: Seq<u8>, n: int)
    requires
        0 <= n <= bytes.len(),
        bytes.len() <= usize::MAX,
    ensures
        starts_wf(line_starts_upto(bytes, n)),
        forall|i: int| 0 <= i < line_starts_upto(bytes, n).len() ==> line_starts_upto(bytes, n)[i] <= n,
    decreases n,
{
    if n > 0 {
        lemma_line_starts(bytes, n - 1);
    }
}

/// A source has at most one line more than it has bytes.
pub proof fn lemma_line_count(bytes: Seq<u8>, n: int)
    requires
        0 <= n <= bytes.len(),
    ensures
        line_starts_upto(bytes, n).len() <= n + 1,
    decreases n,
{
    if n > 0 {
        lemma_line_count(bytes, n - 1);
    }
}

/// A count of starts is at most how many there are.
pub proof fn lemma_starts_counted_bound(s: Seq<usize>, at: int)
    ensures
        starts_at_or_before(s, at) <= s.len(),
    decreases s.len(),
{
    if s.len() > 0 {
        lemma_starts_counted_bound(s.drop_last(), at);
    }
}

/// How many bytes of `bytes[from..to]` begin a character.
pub open spec fn chars_between(bytes: Seq<u8>, from: int, to: int) -> int
    decreases to - from,
{
    if to <= from {
        0
    } else if is_continuation_byte(bytes[to - 1]) {
        chars_between(bytes, from, to - 1)
    } else {
        chars_between(bytes, from, to - 1) + 1
    }
}

proof fn lemma_chars_between(bytes: Seq<u8>, from: int, to: int)
    ensures
        0 <= chars_between(bytes, from, to),
        from <= to ==> chars_between(bytes, from, to) <= to - from,
    decreases to - from,
{
    if to > from {
        lemma_chars_between(bytes, from, to - 1);
    }
}

/// The column an offset has on a line beginning at `start`: the characters
/// between the two, where both are character boundaries, and none otherwise.
pub open spec fn spec_column(bytes: Seq<u8>, start: int, offset: int) -> int {
    if start <= offset && is_char_boundary(bytes, start) && is_char_boundary(bytes, offset) {
        chars_between(bytes, start, offset)
    } else {
        0
    }
}

/// How many of the line starts are at or before `at`: the 1-based line an
/// offset `at` is on.
pub open spec fn starts_at_or_before(s: Seq<usize>, at: int) -> nat
    decreases s.len(),
{
    if s.len() == 0 {
        0
    } else {
        starts_at_or_before(s.drop_last(), at) + if s.last() <= at { 1nat } else { 0nat }
    }
}

/// The line an offset falls on, 1-based, under `index`; past the end it is
/// the last line.
pub open spec fn spec_line(index: &LineIndex, bytes: Seq<u8>, offset: int) -> nat {
    starts_at_or_before(index.starts(), if offset <= bytes.len() { offset } else { bytes.len() as int })
}

proof fn lemma_starts_counted(s: Seq<usize>, at: int, lo: int, n: int)
    requires
        starts_wf(s),
        0 <= lo < s.len(),
        s[lo] <= at,
        lo + 1 == s.len() || at < s[lo + 1],
        0 <= n <= s.len(),
    ensures
        starts_at_or_before(s.subrange(0, n), at) == if n <= lo + 1 { n } else { lo + 1 },
    decreases n,
{
    if n > 0 {
        lemma_starts_counted(s, at, lo, n - 1);
        assert(s.subrange(0, n).drop_last() =~= s.subrange(0, n - 1));
        if n - 1 <= lo {
            assert(s[n - 1] <= s[lo]);
        } else {
            assert(s[lo + 1] <= s[n - 1]);
        }
    }
}

/// Where an offset falls in a source, counting columns in characters.
///
/// Built once per file and searched, rather than counting newlines per
/// diagnostic.
pub struct LineIndex {
    starts: Vec<usize>,
}

impl LineIndex {
    #[verifier::type_invariant]
    spec fn well_formed(self) -> bool {
        starts_wf(self.starts@)
    }

    /// Where each line begins, as a byte offset.
    pub closed spec fn starts(&self) -> Seq<usize> {
        self.starts@
    }

    pub fn new(source: &str) -> (index: LineIndex)
        ensures
            index.starts() == line_starts(source.spec_bytes()),
    {
        let bytes = source.as_bytes();
        let mut starts: Vec<usize> = vec![0];
        let mut i: usize = 0;
        while i < bytes.len()
            invariant
                i <= bytes@.len(),
                bytes@ == source.spec_bytes(),
                starts@ == line_starts_upto(bytes@, i as int),
            decreases bytes@.len() - i,
        {
            if bytes[i] == 10u8 {
                starts.push(i + 1);
            }
            i += 1;
        }
        proof {
            lemma_line_starts(bytes@, bytes@.len() as int);
        }
        LineIndex { starts }
    }

    /// The line and column of a byte offset, both counted from one; an offset
    /// past the end is read as the end.
    pub fn position(&self, source: &str, offset: usize) -> (p: Position)
        requires
            source.spec_bytes().len() < usize::MAX,
        ensures
            ({
                let bytes = source.spec_bytes();
                let at = if offset <= bytes.len() { offset as int } else { bytes.len() as int };
                let line = p.line - 1;
                &&& 0 <= line < self.starts().len()
                &&& self.starts()[line] <= at
                &&& (line + 1 == self.starts().len() || at < self.starts()[line + 1])
                &&& p.column == spec_column(bytes, self.starts()[line] as int, at) + 1
                &&& p.line == starts_at_or_before(self.starts(), at)
            }),
    {
        proof {
            use_type_invariant(self);
        }
        let bytes = source.as_bytes();
        let at = if offset <= bytes.len() { offset } else { bytes.len() };
        let starts = &self.starts;
        // The last start at or before `at`: `starts[lo] <= at`, and nothing
        // from `hi` on is.
        let mut lo: usize = 0;
        let mut hi: usize = starts.len();
        while lo + 1 < hi
            invariant
                starts_wf(starts@),
                0 <= lo < hi <= starts@.len(),
                starts@[lo as int] <= at,
                hi == starts@.len() || at < starts@[hi as int],
            decreases hi - lo,
        {
            let mid = lo + (hi - lo) / 2;
            if starts[mid] <= at {
                lo = mid;
            } else {
                hi = mid;
            }
        }
        proof {
            lemma_starts_counted(starts@, at as int, lo as int, starts@.len() as int);
            assert(starts@.subrange(0, starts@.len() as int) =~= starts@);
        }
        let start = starts[lo];
        let mut column: usize = 0;
        if source.is_char_boundary(start) && source.is_char_boundary(at) {
            let mut i: usize = start;
            while i < at
                invariant
                    start <= i <= at,
                    at <= bytes@.len(),
                    bytes@ == source.spec_bytes(),
                    column == chars_between(bytes@, start as int, i as int),
                    column <= i - start,
                decreases at - i,
            {
                proof {
                    lemma_chars_between(bytes@, start as int, i as int);
                }
                let b = bytes[i];
                if b < 0x80u8 || b > 0xBFu8 {
                    column += 1;
                }
                i += 1;
            }
        }
        Position { line: lo + 1, column: column + 1 }
    }
}

} // verus!
