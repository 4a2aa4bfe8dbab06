//! Finding the file behind a `use`.
//!
//! Four places, in order, and the order is the whole of the policy: the
//! roots the command was pointed at, the stub roots, the `@INC` directories,
//! and nowhere — where the package is `Unknown` and every use of it is silent.
//!
//! Which of the candidate files exists is a question for the file system; the
//! library lists the candidates in order and picks the first one that was
//! found. The declaration cache is keyed by the file's path, size, mtime and
//! content hash, so a run over a project with a large `@INC` costs the scan
//! once.

use vstd::prelude::*;
use vstd::string::*;

use crate::text::{append, chars_of, push_char};

verus! {

/// Where a module was found, which is what decides how much of it is read.
#[derive(Debug, Clone, Copy, PartialEq, Eq, Structural)]
pub enum Origin {
    /// Under a project root: analysed in full, and reported against.
    Root,
    /// Under a stub root: declarations, shadowing the real module wholesale.
    Stub,
    /// Somewhere in `@INC`: declarations only.
    Inc,
}

impl Origin {
    pub fn in_roots(self) -> (r: bool)
        ensures
            r == (self == Origin::Root),
    {
        match self {
            Origin::Root => true,
            _ => false,
        }
    }
}

/// What `char::is_alphanumeric` answers for a character: whether Unicode
/// counts it alphabetic or numeric.
pub uninterp spec fn is_alphanumeric_char(c: char) -> bool;

/// `char::is_alphanumeric`, which reads the Unicode tables; its answer is
/// named rather than written out.
#[verifier::external_body]
fn char_is_alphanumeric(c: char) -> (r: bool)
    ensures
        r == is_alphanumeric_char(c),
{
    c.is_alphanumeric()
}

/// A character a module name may hold.
pub open spec fn is_module_char(c: char) -> bool {
    is_alphanumeric_char(c) || c == '_' || c == ':'
}

/// The path of the name `s[i..]`, each `::` a directory separator; `None`
/// where a part of the name is empty. `start` says whether a part begins at
/// `i`.
pub open spec fn path_from(s: Seq<char>, i: int, start: bool) -> Option<Seq<char>>
    decreases s.len() - i,
{
    if i < 0 || i >= s.len() {
        if start {
            None
        } else {
            Some(Seq::<char>::empty())
        }
    } else if i + 1 < s.len() && s[i] == ':' && s[i + 1] == ':' {
        if start {
            None
        } else {
            match path_from(s, i + 2, true) {
                Some(p) => Some(seq!['/'] + p),
                None => None,
            }
        }
    } else {
        match path_from(s, i + 1, false) {
            Some(p) => Some(seq![s[i]] + p),
            None => None,
        }
    }
}

/// `Foo::Bar` is `Foo/Bar.pm`; a name with a character no module name holds,
/// or with an empty part, is none.
pub open spec fn spec_module_file(module: Seq<char>) -> Option<Seq<char>> {
    if module.len() == 0 || exists|j: int| 0 <= j < module.len() && !is_module_char(#[trigger] module[j]) {
        None
    } else {
        match path_from(module, 0, true) {
            Some(p) => Some(p + ".pm"@),
            None => None,
        }
    }
}

/// `rel` under `dir`, as a path join writes it.
pub open spec fn join_path(dir: Seq<char>, rel: Seq<char>) -> Seq<char> {
    if dir.len() == 0 {
        rel
    } else if dir.last() == '/' {
        dir + rel
    } else {
        dir + seq!['/'] + rel
    }
}

pub open spec fn under_each(dirs: Seq<Seq<char>>, rel: Seq<char>, origin: Origin) -> Seq<(Seq<char>, Origin)> {
    dirs.map_values(|d: Seq<char>| (join_path(d, rel), origin))
}

pub open spec fn strings_of(v: Seq<String>) -> Seq<Seq<char>> {
    v.map_values(|s: String| s@)
}

pub open spec fn located_views(v: Seq<(String, Origin)>) -> Seq<(Seq<char>, Origin)> {
    v.map_values(|p: (String, Origin)| (p.0@, p.1))
}

/// The first candidate whose file was found, looking from `i`.
pub open spec fn first_found(c: Seq<(Seq<char>, Origin)>, found: Seq<bool>, i: int) -> Option<(Seq<char>, Origin)>
    decreases c.len() - i,
{
    if i < 0 || i >= c.len() {
        None
    } else if i < found.len() && found[i] {
        Some(c[i])
    } else {
        first_found(c, found, i + 1)
    }
}

/// `Foo::Bar` → `Foo/Bar.pm`, or `None` when the name is not one.
pub fn module_file(module: &str) -> (r: Option<String>)
    ensures
        match r {
            Some(p) => spec_module_file(module@) == Some(p@),
            None => spec_module_file(module@) is None,
        },
{
    let c = chars_of(module);
    let n = c.len();
    if n == 0 {
        return None;
    }
    let mut j: usize = 0;
    while j < n
        invariant
            n == c@.len(),
            c@ == module@,
            j <= n,
            forall|k: int| 0 <= k < j ==> is_module_char(#[trigger] c@[k]),
        decreases n - j,
    {
        let ch = c[j];
        if !(char_is_alphanumeric(ch) || ch == '_' || ch == ':') {
            assert(!is_module_char(c@[j as int]));
            return None;
        }
        j += 1;
    }
    let mut out = String::new();
    let mut start = true;
    let mut i: usize = 0;
    while i < n
        invariant
            n == c@.len(),
            c@ == module@,
            forall|k: int| 0 <= k < n ==> is_module_char(#[trigger] c@[k]),
            i <= n,
            path_from(c@, 0, true) == (match path_from(c@, i as int, start) {
                Some(p) => Some(out@ + p),
                None => None::<Seq<char>>,
            }),
        decreases n - i,
    {
        if i + 1 < n && c[i] == ':' && c[i + 1] == ':' {
            if start {
                assert(path_from(c@, i as int, start) is None);
                return None;
            }
            proof {
                match path_from(c@, i + 2, true) {
                    Some(p) => {
                        assert(out@ + (seq!['/'] + p) =~= out@.push('/') + p);
                    },
                    None => {},
                }
            }
            push_char(&mut out, '/');
            start = true;
            i += 2;
        } else {
            proof {
                match path_from(c@, i + 1, false) {
                    Some(p) => {
                        assert(out@ + (seq![c@[i as int]] + p) =~= out@.push(c@[i as int]) + p);
                    },
                    None => {},
                }
            }
            push_char(&mut out, c[i]);
            start = false;
            i += 1;
        }
    }
    if start {
        return None;
    }
    assert(out@ + Seq::<char>::empty() =~= out@);
    append(&mut out, ".pm");
    Some(out)
}

/// Whether a character is an ASCII capital letter.
pub open spec fn is_ascii_upper(c: char) -> bool {
    'A' <= c && c <= 'Z'
}

/// `rel` under `dir`.
fn join(dir: &String, rel: &String) -> (out: String)
    ensures
        out@ == join_path(dir@, rel@),
{
    let d = dir.as_str();
    let n = d.unicode_len();
    let mut out = String::new();
    append(&mut out, d);
    if n > 0 && d.get_char(n - 1) != '/' {
        push_char(&mut out, '/');
    }
    append(&mut out, rel.as_str());
    proof {
        if n == 0 {
            assert(out@ =~= rel@);
        }
    }
    out
}

/// The search path a run resolves against.
#[derive(Debug, Clone)]
pub struct Resolver {
    roots: Vec<String>,
    stubs: Vec<String>,
    inc: Vec<String>,
}

impl Resolver {
    pub closed spec fn roots(&self) -> Seq<Seq<char>> {
        strings_of(self.roots@)
    }

    pub closed spec fn stubs(&self) -> Seq<Seq<char>> {
        strings_of(self.stubs@)
    }

    pub closed spec fn inc(&self) -> Seq<Seq<char>> {
        strings_of(self.inc@)
    }

    /// Every place `rel` may be, in the order they are tried.
    pub open spec fn spec_candidates(&self, rel: Seq<char>) -> Seq<(Seq<char>, Origin)> {
        under_each(self.roots(), rel, Origin::Root) + under_each(self.stubs(), rel, Origin::Stub)
            + under_each(self.inc(), rel, Origin::Inc)
    }

    pub fn new(roots: Vec<String>, stubs: Vec<String>, inc: Vec<String>) -> (r: Resolver)
        ensures
            r.roots() == strings_of(roots@),
            r.stubs() == strings_of(stubs@),
            r.inc() == strings_of(inc@),
    {
        Resolver { roots, stubs, inc }
    }

    /// Where `Foo::Bar` may live, as `Foo/Bar.pm` under each root in turn:
    /// the roots, then the stubs, then `@INC`. `None` when the name is not a
    /// module's.
    pub fn candidates(&self, module: &str) -> (r: Option<Vec<(String, Origin)>>)
        ensures
            match r {
                Some(c) => exists|rel: Seq<char>|
                    spec_module_file(module@) == Some(rel) && located_views(c@)
                        == self.spec_candidates(rel),
                None => spec_module_file(module@) is None,
            },
    {
        let relative = match module_file(module) {
            Some(p) => p,
            None => return None,
        };
        let mut out: Vec<(String, Origin)> = Vec::new();
        Self::push_under(&mut out, &self.roots, &relative, Origin::Root);
        Self::push_under(&mut out, &self.stubs, &relative, Origin::Stub);
        Self::push_under(&mut out, &self.inc, &relative, Origin::Inc);
        proof {
            assert(located_views(out@) =~= self.spec_candidates(relative@));
        }
        Some(out)
    }

    fn push_under(out: &mut Vec<(String, Origin)>, dirs: &Vec<String>, rel: &String, origin: Origin)
        ensures
            located_views(final(out)@) == located_views(old(out)@) + under_each(strings_of(dirs@), rel@, origin),
    {
        let ghost before = located_views(out@);
        let mut i: usize = 0;
        while i < dirs.len()
            invariant
                i <= dirs@.len(),
                located_views(out@) == before + under_each(strings_of(dirs@.subrange(0, i as int)), rel@, origin),
            decreases dirs@.len() - i,
        {
            let path = join(&dirs[i], rel);
            let ghost views = located_views(out@);
            out.push((path, origin));
            assert(located_views(out@) =~= views.push((path@, origin)));
            i += 1;
            proof {
                assert(strings_of(dirs@.subrange(0, i as int)) =~= strings_of(dirs@.subrange(0, i - 1)).push(dirs@[i - 1]@));
                assert(located_views(out@) =~= before + under_each(strings_of(dirs@.subrange(0, i as int)), rel@, origin));
            }
        }
        assert(dirs@.subrange(0, dirs@.len() as int) =~= dirs@);
    }

    /// The first of the candidates that was found on disk, given which of
    /// them were: `found[i]` answers for the `i`th candidate.
    pub fn locate(&self, module: &str, found: &Vec<bool>) -> (r: Option<(String, Origin)>)
        ensures
            match r {
                Some(p) => exists|rel: Seq<char>|
                    spec_module_file(module@) == Some(rel) && first_found(self.spec_candidates(rel), found@, 0)
                        == Some((p.0@, p.1)),
                None => spec_module_file(module@) is None || exists|rel: Seq<char>|
                    spec_module_file(module@) == Some(rel) && first_found(self.spec_candidates(rel), found@, 0) is None,
            },
    {
        let candidates = match self.candidates(module) {
            Some(c) => c,
            None => return None,
        };
        let ghost rel = choose|rel: Seq<char>|
            spec_module_file(module@) == Some(rel) && located_views(candidates@) == self.spec_candidates(rel);
        let ghost c = located_views(candidates@);
        let mut i: usize = 0;
        while i < candidates.len()
            invariant
                i <= candidates@.len(),
                c == located_views(candidates@),
                c == self.spec_candidates(rel),
                spec_module_file(module@) == Some(rel),
                first_found(c, found@, 0) == first_found(c, found@, i as int),
            decreases candidates@.len() - i,
        {
            if i < found.len() && found[i] {
                let (path, origin) = &candidates[i];
                let p = path.clone();
                assert(c[i as int] == (p@, *origin));
                assert(first_found(c, found@, i as int) == Some((p@, *origin)));
                return Some((p, *origin));
            }
            i += 1;
        }
        None
    }

    /// Whether a `use` is worth resolving at all: a pragma is spelled in lower
    /// case, declares no symbols the checker could use, and resolving every
    /// `use strict` would read `strict.pm` once per file.
    pub fn worth_resolving(module: &str) -> (r: bool)
        ensures
            r == (module@.len() > 0 && is_ascii_upper(module@[0])),
    {
        if module.unicode_len() == 0 {
            return false;
        }
        let first = module.get_char(0);
        'A' <= first && first <= 'Z'
    }
}

// ----- the declaration cache -----

pub open spec fn fnv_offset() -> u64 {
    0xcbf2_9ce4_8422_2325u64
}

pub open spec fn fnv_prime() -> u64 {
    0x0000_0100_0000_01b3u64
}

/// FNV-1a over `bytes[..n]`.
pub open spec fn fnv_upto(bytes: Seq<u8>, n: int) -> u64
    decreases n,
{
    if n <= 0 {
        fnv_offset()
    } else {
        vstd::wrapping::u64_specs::wrapping_mul(fnv_upto(bytes, n - 1) ^ (bytes[n - 1] as u64), fnv_prime())
    }
}

pub open spec fn spec_fnv(bytes: Seq<u8>) -> u64 {
    fnv_upto(bytes, bytes.len() as int)
}

/// FNV-1a, which is all this needs: the hash guards against a file changing
/// under a cache entry, not against anyone choosing one to collide.
pub fn fnv(bytes: &[u8]) -> (h: u64)
    ensures
        h == spec_fnv(bytes@),
{
    let mut hash: u64 = 0xcbf2_9ce4_8422_2325u64;
    let mut i: usize = 0;
    while i < bytes.len()
        invariant
            i <= bytes@.len(),
            hash == fnv_upto(bytes@, i as int),
        decreases bytes@.len() - i,
    {
        hash = (hash ^ (bytes[i] as u64)).wrapping_mul(0x0000_0100_0000_01b3u64);
        i += 1;
    }
    hash
}

pub open spec fn hex_digit(d: nat) -> char {
    if d < 10 {
        ('0' as nat + d) as char
    } else {
        ('a' as nat + (d - 10)) as char
    }
}

/// The low `width` hex digits of `n`, zero-padded, most significant first.
pub open spec fn hex_pad(n: nat, width: nat) -> Seq<char>
    decreases width,
{
    if width == 0 {
        Seq::empty()
    } else {
        hex_pad(n / 16, (width - 1) as nat).push(hex_digit(n % 16))
    }
}

/// `n` in decimal, without leading zeros.
pub open spec fn decimal(n: nat) -> Seq<char>
    decreases n,
{
    if n < 10 {
        seq![hex_digit(n)]
    } else {
        decimal(n / 10).push(hex_digit(n % 10))
    }
}

fn digit_char(d: u64) -> (c: char)
    requires
        d < 16,
    ensures
        c == hex_digit(d as nat),
{
    if d < 10 {
        (('0' as u8) + (d as u8)) as char
    } else {
        (('a' as u8) + ((d - 10) as u8)) as char
    }
}

fn hex_padded(n: u64, width: usize) -> (out: String)
    ensures
        out@ == hex_pad(n as nat, width as nat),
    decreases width,
{
    if width == 0 {
        String::new()
    } else {
        let mut out = hex_padded(n / 16, width - 1);
        push_char(&mut out, digit_char(n % 16));
        out
    }
}

pub fn decimal_string(n: u64) -> (out: String)
    ensures
        out@ == decimal(n as nat),
    decreases n,
{
    if n < 10 {
        let mut out = String::new();
        push_char(&mut out, digit_char(n));
        out
    } else {
        let mut out = decimal_string(n / 10);
        push_char(&mut out, digit_char(n % 10));
        out
    }
}

/// What the cached shape of the declarations is called. Bumped whenever an
/// entry written by an older version would be read as a complete answer by a
/// newer one — a new recogniser among them.
pub open spec fn cache_format() -> Seq<char> {
    "class-tiny-1"@
}

/// The key of a file: its path, source, the salt it is read under and the
/// cache's format, hashed together, then its size and mtime.
pub open spec fn spec_key(path: Seq<u8>, size: u64, mtime: u64, source: Seq<u8>, salt: Seq<u8>, format: Seq<u8>) -> Seq<char> {
    hex_pad((spec_fnv(path) ^ spec_fnv(source) ^ spec_fnv(salt) ^ spec_fnv(format)) as nat, 16) + seq!['-']
        + decimal(size as nat) + seq!['-'] + decimal(mtime as nat)
}

/// The declaration cache: one file per cached module, named by a key over
/// the path, the size, the mtime and a hash of the contents — so a file that
/// was touched and not changed still hits, and one that was changed never
/// does.
pub struct Cache {
    directory: Option<String>,
}

impl Cache {
    pub closed spec fn directory(&self) -> Option<Seq<char>> {
        match self.directory {
            Some(d) => Some(d@),
            None => None,
        }
    }

    /// A cache under `directory`, or a cache that stores nothing.
    pub fn new(directory: Option<String>) -> (c: Cache)
        ensures
            c.directory() == (match directory {
                Some(d) => Some(d@),
                None => None::<Seq<char>>,
            }),
    {
        Cache { directory }
    }

    pub fn disabled() -> (c: Cache)
        ensures
            c.directory() is None,
    {
        Cache { directory: None }
    }

    pub fn is_enabled(&self) -> (r: bool)
        ensures
            r == (self.directory() is Some),
    {
        self.directory.is_some()
    }

    /// Where the entry for `key` is kept, when the cache keeps anything.
    pub fn entry_path(&self, key: &str) -> (r: Option<String>)
        ensures
            match r {
                Some(p) => exists|d: Seq<char>| self.directory() == Some(d) && p@ == join_path(d, key@ + ".json"@),
                None => self.directory() is None,
            },
    {
        match &self.directory {
            Some(d) => {
                let mut name = String::new();
                append(&mut name, key);
                append(&mut name, ".json");
                Some(join(d, &name))
            },
            None => None,
        }
    }

    /// The key for a file, from what a stat and a hash can say about it: the
    /// path, its size and mtime in seconds (both zero for a file the stat
    /// could not read), the source, and the salt it is read under — a
    /// declaration read under one dialect is not the one the same bytes give
    /// under another.
    pub fn key(path: &str, size: u64, mtime: u64, source: &str, salt: &str) -> (k: String)
        ensures
            k@ == spec_key(path.spec_bytes(), size, mtime, source.spec_bytes(), salt.spec_bytes(), "class-tiny-1".spec_bytes()),
    {
        let format = "class-tiny-1";
        let hash = fnv(path.as_bytes()) ^ fnv(source.as_bytes()) ^ fnv(salt.as_bytes()) ^ fnv(format.as_bytes());
        let mut k = hex_padded(hash, 16);
        push_char(&mut k, '-');
        let size_text = decimal_string(size);
        append(&mut k, size_text.as_str());
        push_char(&mut k, '-');
        let mtime_text = decimal_string(mtime);
        append(&mut k, mtime_text.as_str());
        k
    }
}

} // verus!
