//! The program graph: every file's declarations, and the questions asked of
//! them as a whole — which packages exist, what a package is, which class a
//! method is found on.
//!
//! A package is a name and the files that open it; a package's declarations
//! are the union of what those files say of it. A file in the roots is
//! reported against; a dependency only contributes declarations.

use vstd::prelude::*;

use crate::annotate::{find_method, is_recognised, method_views, spec_is_recognised, spec_role_returns, AttributeDecl, Dialect};
use crate::decl::{first_facts, param_views, FileDecls, PackageFacts, Params, ParamSource, SubDecl, SymbolSource};
use crate::shape::{Returns, ShapeV};
use crate::span::TextRange;
use crate::text::same_text;
use crate::types::{strings_view, Type, TypeV};

verus! {

/// One file, as the graph holds it.
#[derive(Debug)]
pub struct FileEntry {
    pub path: String,
    pub decls: FileDecls,
    /// Whether a diagnostic may be reported against it.
    pub in_roots: bool,
}

/// A parameter list, as a value.
pub enum ParamsV {
    Unknown,
    Positional { params: Seq<(Seq<char>, bool, TypeV)>, slurpy: bool, invocant: bool, source: ParamSource },
    Named { params: Seq<(Seq<char>, bool, TypeV)>, invocant: Option<Seq<char>>, source: ParamSource },
}

pub open spec fn params_view(p: Params) -> ParamsV {
    match p {
        Params::Unknown => ParamsV::Unknown,
        Params::Positional { params, slurpy, invocant, source } => ParamsV::Positional {
            params: param_views(params@),
            slurpy,
            invocant,
            source,
        },
        Params::Named { params, invocant, source } => ParamsV::Named {
            params: param_views(params@),
            invocant: match invocant {
                Some(s) => Some(s@),
                None => None,
            },
            source,
        },
    }
}

/// A sub's declaration, as a value.
pub struct SubV {
    pub package: Seq<char>,
    pub name: Seq<char>,
    pub params: ParamsV,
    pub scalar: TypeV,
    pub list: ShapeV,
    pub inferred: bool,
    pub invocant: bool,
    pub source: SymbolSource,
    pub constructs_own_class: bool,
    pub range: TextRange,
    pub file: usize,
}

pub open spec fn sub_view(s: SubDecl) -> SubV {
    SubV {
        package: s.package@,
        name: s.name@,
        params: params_view(s.params),
        scalar: s.returns.scalar@,
        list: s.returns.list@,
        inferred: s.returns.inferred,
        invocant: s.returns.invocant,
        source: s.source,
        constructs_own_class: s.constructs_own_class,
        range: s.range,
        file: s.file,
    }
}

pub open spec fn sub_views(s: Seq<SubDecl>) -> Seq<SubV> {
    s.map_values(|one: SubDecl| sub_view(one))
}

/// A copy of a sub's declaration, the same in every part.
pub fn duplicate_sub(s: &SubDecl) -> (r: SubDecl)
    ensures
        sub_view(r) == sub_view(*s),
{
    SubDecl {
        package: s.package.clone(),
        name: s.name.clone(),
        params: s.params.duplicate(),
        returns: s.returns.clone(),
        source: s.source,
        constructs_own_class: s.constructs_own_class,
        range: s.range,
        file: s.file,
    }
}

/// How many of a file's `package` statements name `name`.
pub open spec fn times_opened(ps: Seq<(u32, String)>, name: Seq<char>) -> nat
    decreases ps.len(),
{
    if ps.len() == 0 {
        0
    } else {
        times_opened(ps.drop_last(), name) + if ps.last().1@ == name {
            1nat
        } else {
            0nat
        }
    }
}

/// What one file says of a package, once for every `package` statement that
/// opens it there.
pub open spec fn facts_in_file(f: FileEntry, name: Seq<char>, k: nat) -> Seq<PackageFacts>
    decreases k,
{
    if k == 0 {
        Seq::empty()
    } else {
        match first_facts(f.decls.facts@, name, 0) {
            Some(i) => facts_in_file(f, name, (k - 1) as nat).push(f.decls.facts@[i]),
            None => Seq::empty(),
        }
    }
}

/// What the run knows about a package, file by file in the order the files
/// were added.
pub open spec fn spec_facts(files: Seq<FileEntry>, name: Seq<char>) -> Seq<PackageFacts>
    decreases files.len(),
{
    if files.len() == 0 {
        Seq::empty()
    } else {
        spec_facts(files.drop_last(), name) + facts_in_file(
            files.last(),
            name,
            times_opened(files.last().decls.packages@, name),
        )
    }
}

/// Whether any file opens the package.
pub open spec fn spec_knows_package(files: Seq<FileEntry>, name: Seq<char>) -> bool {
    exists|i: int| 0 <= i < files.len() && times_opened(#[trigger] files[i].decls.packages@, name) > 0
}

/// Where the first sub declared as `package::name` stands among `subs`.
pub open spec fn sub_at(subs: Seq<SubDecl>, package: Seq<char>, name: Seq<char>, i: int) -> Option<int>
    decreases subs.len() - i,
{
    if i < 0 || i >= subs.len() {
        None
    } else if subs[i].package@ == package && subs[i].name@ == name {
        Some(i)
    } else {
        sub_at(subs, package, name, i + 1)
    }
}

pub proof fn lemma_sub_at(subs: Seq<SubDecl>, package: Seq<char>, name: Seq<char>, i: int)
    requires
        0 <= i,
    ensures
        sub_at(subs, package, name, i) matches Some(j) ==> i <= j < subs.len() && subs[j].package@ == package
            && subs[j].name@ == name,
        sub_at(subs, package, name, i) is None ==> forall|j: int|
            i <= j < subs.len() ==> !(subs[j].package@ == package && subs[j].name@ == name),
    decreases subs.len() - i,
{
    if i < subs.len() && !(subs[i].package@ == package && subs[i].name@ == name) {
        lemma_sub_at(subs, package, name, i + 1);
    }
}

/// The flattened list with `s` added, unless a sub of that name in that
/// package is already there: the first declaration wins.
pub open spec fn flatten_one(flat: Seq<SubV>, s: SubV) -> Seq<SubV> {
    if exists|i: int| 0 <= i < flat.len() && flat[i].package == s.package && flat[i].name == s.name {
        flat
    } else {
        flat.push(s)
    }
}

pub open spec fn flatten(flat: Seq<SubV>, ss: Seq<SubV>) -> Seq<SubV>
    decreases ss.len(),
{
    if ss.len() == 0 {
        flat
    } else {
        flatten_one(flatten(flat, ss.drop_last()), ss.last())
    }
}

/// The subs, each marked as read from file `index`.
pub open spec fn in_file(ss: Seq<SubV>, index: usize) -> Seq<SubV> {
    ss.map_values(|s: SubV| SubV { file: index, ..s })
}

pub open spec fn first_path(files: Seq<FileEntry>, path: Seq<char>, i: int) -> Option<int>
    decreases files.len() - i,
{
    if i < 0 || i >= files.len() {
        None
    } else if files[i].path@ == path {
        Some(i)
    } else {
        first_path(files, path, i + 1)
    }
}

pub proof fn lemma_first_path(files: Seq<FileEntry>, path: Seq<char>, i: int)
    requires
        0 <= i,
    ensures
        first_path(files, path, i) matches Some(j) ==> i <= j < files.len() && files[j].path@ == path,
    decreases files.len() - i,
{
    if i < files.len() && files[i].path@ != path {
        lemma_first_path(files, path, i + 1);
    }
}

/// Every declaration the run can see.
pub struct Program {
    files: Vec<FileEntry>,
    /// The first declaration of every `package::name`, across the files in
    /// the order they were added: a redefinition is usually a conditional
    /// alternative, and either answer is a guess.
    subs: Vec<SubDecl>,
    /// What this project's own modules stand in for.
    dialect: Dialect,
}

impl Program {
    pub closed spec fn files_view(&self) -> Seq<FileEntry> {
        self.files@
    }

    pub closed spec fn subs_view(&self) -> Seq<SubDecl> {
        self.subs@
    }

    pub closed spec fn dialect_view(&self) -> Dialect {
        self.dialect
    }

    pub fn new() -> (p: Program)
        ensures
            p.files_view().len() == 0,
            p.subs_view().len() == 0,
            p.dialect_view().entries().len() == 0,
    {
        Program { files: Vec::new(), subs: Vec::new(), dialect: Dialect::empty() }
    }

    /// Read the graph under a project's own dialect.
    pub fn set_dialect(&mut self, dialect: Dialect)
        ensures
            final(self).dialect_view() == dialect,
            final(self).files_view() == old(self).files_view(),
            final(self).subs_view() == old(self).subs_view(),
    {
        self.dialect = dialect;
    }

    pub fn dialect(&self) -> (d: &Dialect)
        ensures
            *d == self.dialect_view(),
    {
        &self.dialect
    }

    pub fn file(&self, index: usize) -> (r: Option<&FileEntry>)
        ensures
            match r {
                Some(f) => index < self.files_view().len() && *f == self.files_view()[index as int],
                None => index >= self.files_view().len(),
            },
    {
        if index < self.files.len() {
            Some(&self.files[index])
        } else {
            None
        }
    }

    pub fn files(&self) -> (r: &[FileEntry])
        ensures
            r@ == self.files_view(),
    {
        self.files.as_slice()
    }

    /// The file read from `path`.
    pub fn index_of(&self, path: &str) -> (r: Option<usize>)
        ensures
            match first_path(self.files_view(), path@, 0) {
                Some(i) => r matches Some(k) && k as int == i && i < self.files_view().len(),
                None => r is None,
            },
    {
        proof {
            lemma_first_path(self.files@, path@, 0);
        }
        let mut i: usize = 0;
        while i < self.files.len()
            invariant
                i <= self.files@.len(),
                first_path(self.files@, path@, 0) == first_path(self.files@, path@, i as int),
            decreases self.files@.len() - i,
        {
            if same_text(self.files[i].path.as_str(), path) {
                return Some(i);
            }
            i += 1;
        }
        None
    }

    /// The first declaration of `package::name` in the run.
    pub fn sub(&self, package: &str, name: &str) -> (r: Option<&SubDecl>)
        ensures
            match sub_at(self.subs_view(), package@, name@, 0) {
                Some(i) => r == Some(&self.subs_view()[i]),
                None => r is None,
            },
    {
        sub_in_list(&self.subs, package, name)
    }

    /// The sub `package::name` as this file declares it, or as the run does:
    /// a question asked from a file is answered by that file first.
    pub fn sub_in(&self, file: usize, package: &str, name: &str) -> (r: Option<&SubDecl>)
        ensures
            ({
                let own = if file < self.files_view().len() {
                    sub_at(self.files_view()[file as int].decls.subs@, package@, name@, 0)
                } else {
                    None
                };
                match own {
                    Some(i) => r == Some(&self.files_view()[file as int].decls.subs@[i]),
                    None => match sub_at(self.subs_view(), package@, name@, 0) {
                        Some(i) => r == Some(&self.subs_view()[i]),
                        None => r is None,
                    },
                }
            }),
    {
        if file < self.files.len() {
            match sub_in_list(&self.files[file].decls.subs, package, name) {
                Some(s) => return Some(s),
                None => {},
            }
        }
        self.sub(package, name)
    }

    /// Whether anything in the run declares this package.
    pub fn knows_package(&self, name: &str) -> (r: bool)
        ensures
            r == spec_knows_package(self.files_view(), name@),
    {
        let mut i: usize = 0;
        while i < self.files.len()
            invariant
                i <= self.files@.len(),
                forall|k: int| 0 <= k < i ==> times_opened(#[trigger] self.files@[k].decls.packages@, name@) == 0,
            decreases self.files@.len() - i,
        {
            if opens(&self.files[i].decls.packages, name) {
                return true;
            }
            i += 1;
        }
        false
    }

    /// What the run knows about a package, from every file that opens it.
    pub fn facts(&self, package: &str) -> (r: Vec<&PackageFacts>)
        ensures
            deref_facts(r@) == spec_facts(self.files_view(), package@),
    {
        let mut out: Vec<&PackageFacts> = Vec::new();
        let mut i: usize = 0;
        assert(self.files@.subrange(0, 0) =~= Seq::<FileEntry>::empty());
        while i < self.files.len()
            invariant
                i <= self.files@.len(),
                deref_facts(out@) == spec_facts(self.files@.subrange(0, i as int), package@),
            decreases self.files@.len() - i,
        {
            let entry = &self.files[i];
            let ghost before = deref_facts(out@);
            let ghost ps = entry.decls.packages@;
            let found = entry.decls.facts_for(package);
            let mut j: usize = 0;
            assert(before + facts_in_file(*entry, package@, times_opened(ps.subrange(0, 0), package@)) =~= before);
            while j < entry.decls.packages.len()
                invariant
                    j <= ps.len(),
                    ps == entry.decls.packages@,
                    found == (match first_facts(entry.decls.facts@, package@, 0) {
                        Some(k) => Some(&entry.decls.facts@[k]),
                        None => None::<&PackageFacts>,
                    }),
                    deref_facts(out@) == before + facts_in_file(*entry, package@, times_opened(ps.subrange(0, j as int), package@)),
                decreases ps.len() - j,
            {
                proof {
                    assert(ps.subrange(0, j + 1).drop_last() =~= ps.subrange(0, j as int));
                }
                if same_text(entry.decls.packages[j].1.as_str(), package) {
                    match found {
                        Some(f) => {
                            let ghost v = deref_facts(out@);
                            out.push(f);
                            assert(deref_facts(out@) =~= v.push(*f));
                        },
                        None => {
                            assert(facts_in_file(*entry, package@, times_opened(ps.subrange(0, j + 1), package@)) =~= Seq::<PackageFacts>::empty());
                            assert(facts_in_file(*entry, package@, times_opened(ps.subrange(0, j as int), package@)) =~= Seq::<PackageFacts>::empty());
                        },
                    }
                }
                j += 1;
            }
            proof {
                assert(ps.subrange(0, ps.len() as int) =~= ps);
                assert(self.files@.subrange(0, i + 1).drop_last() =~= self.files@.subrange(0, i as int));
            }
            i += 1;
        }
        assert(self.files@.subrange(0, self.files@.len() as int) =~= self.files@);
        out
    }
}

pub open spec fn deref_facts<'a>(s: Seq<&'a PackageFacts>) -> Seq<PackageFacts> {
    s.map_values(|f: &'a PackageFacts| *f)
}

/// Whether a file's `package` statements open `name`.
pub fn opens(packages: &Vec<(u32, String)>, name: &str) -> (r: bool)
    ensures
        r == (times_opened(packages@, name@) > 0),
{
    let mut i: usize = 0;
    assert(packages@.subrange(0, 0) =~= Seq::<(u32, String)>::empty());
    while i < packages.len()
        invariant
            i <= packages@.len(),
            times_opened(packages@.subrange(0, i as int), name@) == 0,
        decreases packages@.len() - i,
    {
        assert(packages@.subrange(0, i + 1).drop_last() =~= packages@.subrange(0, i as int));
        if same_text(packages[i].1.as_str(), name) {
            proof {
                lemma_times_opened_prefix(packages@, name@, i + 1);
            }
            return true;
        }
        i += 1;
    }
    assert(packages@.subrange(0, packages@.len() as int) =~= packages@);
    false
}

proof fn lemma_times_opened_prefix(ps: Seq<(u32, String)>, name: Seq<char>, k: int)
    requires
        0 <= k <= ps.len(),
    ensures
        times_opened(ps, name) >= times_opened(ps.subrange(0, k), name),
    decreases ps.len() - k,
{
    if k < ps.len() {
        lemma_times_opened_prefix(ps, name, k + 1);
        assert(ps.subrange(0, k + 1).drop_last() =~= ps.subrange(0, k));
    } else {
        assert(ps.subrange(0, k) =~= ps);
    }
}

/// The first sub declared as `package::name` in a list.
pub fn sub_in_list<'a>(subs: &'a Vec<SubDecl>, package: &str, name: &str) -> (r: Option<&'a SubDecl>)
    ensures
        match sub_at(subs@, package@, name@, 0) {
            Some(i) => r == Some(&subs@[i]),
            None => r is None,
        },
{
    let mut i: usize = 0;
    while i < subs.len()
        invariant
            i <= subs@.len(),
            sub_at(subs@, package@, name@, 0) == sub_at(subs@, package@, name@, i as int),
        decreases subs@.len() - i,
    {
        if same_text(subs[i].package.as_str(), package) && same_text(subs[i].name.as_str(), name) {
            return Some(&subs[i]);
        }
        i += 1;
    }
    None
}

/// Mark every sub as read from file `index`.
pub fn mark_file(subs: &mut Vec<SubDecl>, index: usize)
    ensures
        sub_views(final(subs)@) == in_file(sub_views(old(subs)@), index),
{
    let ghost start = sub_views(subs@);
    let mut i: usize = 0;
    while i < subs.len()
        invariant
            i <= subs@.len(),
            subs@.len() == start.len(),
            start == sub_views(old(subs)@),
            forall|k: int| 0 <= k < i ==> #[trigger] sub_view(subs@[k]) == (SubV { file: index, ..start[k] }),
            forall|k: int| i <= k < subs@.len() ==> #[trigger] sub_view(subs@[k]) == start[k],
        decreases subs@.len() - i,
    {
        let ghost prior = subs@;
        assert(sub_view(prior[i as int]) == start[i as int]);
        let mut s = subs.remove(i);
        s.file = index;
        subs.insert(i, s);
        assert(subs@ =~= prior.update(i as int, s));
        assert(sub_view(s) == (SubV { file: index, ..start[i as int] }));
        i += 1;
    }
    assert(sub_views(subs@) =~= in_file(start, index));
}

impl Program {
    /// Fold declarations already read into the graph; a path the graph holds
    /// already is answered with the file it is.
    pub fn add(&mut self, path: &str, decls: FileDecls, in_roots: bool) -> (index: usize)
        ensures
            final(self).dialect_view() == old(self).dialect_view(),
            match first_path(old(self).files_view(), path@, 0) {
                Some(i) => index == i && final(self).files_view() == old(self).files_view()
                    && final(self).subs_view() == old(self).subs_view(),
                None => {
                    let files = final(self).files_view();
                    &&& index == old(self).files_view().len()
                    &&& files.len() == index + 1
                    &&& files.subrange(0, index as int) == old(self).files_view()
                    &&& files[index as int].path@ == path@
                    &&& files[index as int].in_roots == in_roots
                    &&& sub_views(files[index as int].decls.subs@) == in_file(sub_views(decls.subs@), index)
                    &&& files[index as int].decls.imports == decls.imports
                    &&& files[index as int].decls.packages == decls.packages
                    &&& files[index as int].decls.facts == decls.facts
                    &&& files[index as int].decls.uses == decls.uses
                    &&& files[index as int].decls.diagnostics == decls.diagnostics
                    &&& files[index as int].decls.annotations == decls.annotations
                    &&& sub_views(final(self).subs_view()) == flatten(
                        sub_views(old(self).subs_view()),
                        in_file(sub_views(decls.subs@), index),
                    )
                },
            },
    {
        match self.index_of(path) {
            Some(i) => return i,
            None => {},
        }
        let index = self.files.len();
        let mut decls = decls;
        let ghost given = sub_views(decls.subs@);
        mark_file(&mut decls.subs, index);
        let ghost marked = sub_views(decls.subs@);
        assert(marked == in_file(given, index));
        let ghost flat0 = sub_views(self.subs@);
        let mut k: usize = 0;
        assert(marked.subrange(0, 0) =~= Seq::<SubV>::empty());
        while k < decls.subs.len()
            invariant
                k <= decls.subs@.len(),
                marked == sub_views(decls.subs@),
                self.files@ == old(self).files@,
                self.dialect == old(self).dialect,
                sub_views(self.subs@) == flatten(flat0, marked.subrange(0, k as int)),
            decreases decls.subs@.len() - k,
        {
            let s = &decls.subs[k];
            let ghost flat = sub_views(self.subs@);
            proof {
                assert(marked.subrange(0, k + 1).drop_last() =~= marked.subrange(0, k as int));
                assert(marked.subrange(0, k + 1).last() == sub_view(*s));
                lemma_sub_at(self.subs@, s.package@, s.name@, 0);
            }
            match self.sub(s.package.as_str(), s.name.as_str()) {
                Some(found) => {
                    proof {
                        let j = sub_at(self.subs@, s.package@, s.name@, 0)->Some_0;
                        assert(flat[j].package == sub_view(*s).package && flat[j].name == sub_view(*s).name);
                    }
                },
                None => {
                    proof {
                        assert forall|j: int| 0 <= j < flat.len() implies !(flat[j].package == sub_view(*s).package
                            && flat[j].name == sub_view(*s).name) by {
                            assert(flat[j] == sub_view(self.subs@[j]));
                        }
                    }
                    self.subs.push(duplicate_sub(s));
                    assert(sub_views(self.subs@) =~= flat.push(sub_view(*s)));
                },
            }
            k += 1;
        }
        assert(marked.subrange(0, decls.subs@.len() as int) =~= marked);
        self.files.push(FileEntry { path: path.to_string(), decls, in_roots });
        assert(self.files@.subrange(0, index as int) =~= old(self).files@);
        index
    }
}

// ===== The class hierarchy =====

/// The parents each of `fs` names, `isa` before roles, in order.
pub open spec fn facts_parents(fs: Seq<PackageFacts>) -> Seq<Seq<char>>
    decreases fs.len(),
{
    if fs.len() == 0 {
        Seq::empty()
    } else {
        facts_parents(fs.drop_last()) + strings_view(fs.last().isa@) + strings_view(fs.last().roles@)
    }
}

/// What a class inherits from or composes, as the run knows it.
pub open spec fn spec_parents(files: Seq<FileEntry>, name: Seq<char>) -> Seq<Seq<char>> {
    facts_parents(spec_facts(files, name))
}

/// Every name any package of the run gives as a parent.
pub open spec fn all_parent_names(files: Seq<FileEntry>) -> Seq<Seq<char>>
    decreases files.len(),
{
    if files.len() == 0 {
        Seq::empty()
    } else {
        all_parent_names(files.drop_last()) + facts_parents(files.last().decls.facts@)
    }
}

proof fn lemma_facts_parents_from(fs: Seq<PackageFacts>, x: Seq<char>) -> (i: int)
    requires
        facts_parents(fs).contains(x),
    ensures
        0 <= i < fs.len(),
        strings_view(fs[i].isa@).contains(x) || strings_view(fs[i].roles@).contains(x),
    decreases fs.len(),
{
    let head = facts_parents(fs.drop_last());
    let a = strings_view(fs.last().isa@);
    let b = strings_view(fs.last().roles@);
    let k = choose|k: int| 0 <= k < facts_parents(fs).len() && facts_parents(fs)[k] == x;
    if k < head.len() {
        assert(head[k] == x);
        let i = lemma_facts_parents_from(fs.drop_last(), x);
        assert(fs[i] == fs.drop_last()[i]);
        i
    } else if k < head.len() + a.len() {
        assert(a[k - head.len()] == x);
        assert(fs[fs.len() - 1] == fs.last());
        fs.len() - 1
    } else {
        assert(b[k - head.len() - a.len()] == x);
        assert(fs[fs.len() - 1] == fs.last());
        fs.len() - 1
    }
}

proof fn lemma_facts_parents_of(fs: Seq<PackageFacts>, i: int, x: Seq<char>)
    requires
        0 <= i < fs.len(),
        strings_view(fs[i].isa@).contains(x) || strings_view(fs[i].roles@).contains(x),
    ensures
        facts_parents(fs).contains(x),
    decreases fs.len(),
{
    let head = facts_parents(fs.drop_last());
    let a = strings_view(fs.last().isa@);
    let b = strings_view(fs.last().roles@);
    let whole = facts_parents(fs);
    assert(whole == head + a + b);
    if i < fs.len() - 1 {
        assert(fs.drop_last()[i] == fs[i]);
        lemma_facts_parents_of(fs.drop_last(), i, x);
        let k = choose|k: int| 0 <= k < head.len() && head[k] == x;
        assert(whole[k] == x);
    } else if a.contains(x) {
        let k = choose|k: int| 0 <= k < a.len() && a[k] == x;
        assert(whole[head.len() + k] == x);
    } else {
        let k = choose|k: int| 0 <= k < b.len() && b[k] == x;
        assert(whole[head.len() + a.len() + k] == x);
    }
}

proof fn lemma_facts_in_file_from(f: FileEntry, name: Seq<char>, k: nat, j: int) -> (b: int)
    requires
        0 <= j < facts_in_file(f, name, k).len(),
    ensures
        0 <= b < f.decls.facts@.len(),
        facts_in_file(f, name, k)[j] == f.decls.facts@[b],
    decreases k,
{
    lemma_first_facts(f.decls.facts@, name, 0);
    let prior = facts_in_file(f, name, (k - 1) as nat);
    if j < prior.len() {
        lemma_facts_in_file_from(f, name, (k - 1) as nat, j)
    } else {
        first_facts(f.decls.facts@, name, 0)->Some_0
    }
}

proof fn lemma_first_facts(fs: Seq<PackageFacts>, name: Seq<char>, i: int)
    requires
        0 <= i,
    ensures
        first_facts(fs, name, i) matches Some(j) ==> i <= j < fs.len() && fs[j].name@ == name,
    decreases fs.len() - i,
{
    if i < fs.len() && fs[i].name@ != name {
        lemma_first_facts(fs, name, i + 1);
    }
}

/// Every parent a class has is a name the run gives as a parent.
proof fn lemma_parents_named(files: Seq<FileEntry>, name: Seq<char>, x: Seq<char>)
    requires
        spec_parents(files, name).contains(x),
    ensures
        all_parent_names(files).contains(x),
    decreases files.len(),
{
    let fs = spec_facts(files, name);
    let i = lemma_facts_parents_from(fs, x);
    if files.len() == 0 {
        assert(fs.len() == 0);
        assert(false);
    }
    let front = spec_facts(files.drop_last(), name);
    let tail = facts_in_file(files.last(), name, times_opened(files.last().decls.packages@, name));
    assert(fs =~= front + tail);
    let head = all_parent_names(files.drop_last());
    let last = facts_parents(files.last().decls.facts@);
    assert(all_parent_names(files) == head + last);
    if i < front.len() {
        assert((front + tail)[i] == front[i]);
        assert(front[i] == fs[i]);
        lemma_facts_parents_of(front, i, x);
        lemma_parents_named(files.drop_last(), name, x);
        let k = choose|k: int| 0 <= k < head.len() && head[k] == x;
        assert(all_parent_names(files)[k] == x);
    } else {
        let b = lemma_facts_in_file_from(files.last(), name, times_opened(files.last().decls.packages@, name), i - front.len());
        assert(tail[i - front.len()] == fs[i]);
        lemma_facts_parents_of(files.last().decls.facts@, b, x);
        let k = choose|k: int| 0 <= k < last.len() && last[k] == x;
        assert(all_parent_names(files)[head.len() + k] == x);
    }
}

impl Program {
    /// What a class inherits from or composes: every `isa` and every role
    /// the run records for it, in order.
    pub fn parents_of(&self, class: &str) -> (r: Vec<String>)
        ensures
            strings_view(r@) == spec_parents(self.files_view(), class@),
    {
        let facts = self.facts(class);
        let ghost fs = deref_facts(facts@);
        let mut out: Vec<String> = Vec::new();
        let mut i: usize = 0;
        assert(strings_view(out@) =~= facts_parents(fs.subrange(0, 0)));
        while i < facts.len()
            invariant
                i <= facts@.len(),
                fs == deref_facts(facts@),
                strings_view(out@) == facts_parents(fs.subrange(0, i as int)),
            decreases facts@.len() - i,
        {
            let f = facts[i];
            let ghost before = strings_view(out@);
            proof {
                assert(fs.subrange(0, i + 1).drop_last() =~= fs.subrange(0, i as int));
                assert(fs.subrange(0, i + 1).last() == *f);
            }
            let mut j: usize = 0;
            assert(before + strings_view(f.isa@).subrange(0, 0) =~= before);
            while j < f.isa.len()
                invariant
                    j <= f.isa@.len(),
                    strings_view(out@) == before + strings_view(f.isa@).subrange(0, j as int),
                decreases f.isa@.len() - j,
            {
                let ghost v = strings_view(out@);
                out.push(f.isa[j].clone());
                assert(strings_view(out@) =~= v.push(f.isa@[j as int]@));
                assert(strings_view(f.isa@).subrange(0, j + 1) =~= strings_view(f.isa@).subrange(0, j as int).push(f.isa@[j as int]@));
                assert(strings_view(out@) =~= before + strings_view(f.isa@).subrange(0, j + 1));
                j += 1;
            }
            let ghost mid = strings_view(out@);
            assert(mid =~= before + strings_view(f.isa@));
            let mut j: usize = 0;
            assert(mid + strings_view(f.roles@).subrange(0, 0) =~= mid);
            while j < f.roles.len()
                invariant
                    j <= f.roles@.len(),
                    strings_view(out@) == mid + strings_view(f.roles@).subrange(0, j as int),
                decreases f.roles@.len() - j,
            {
                let ghost v = strings_view(out@);
                out.push(f.roles[j].clone());
                assert(strings_view(out@) =~= v.push(f.roles@[j as int]@));
                assert(strings_view(f.roles@).subrange(0, j + 1) =~= strings_view(f.roles@).subrange(0, j as int).push(f.roles@[j as int]@));
                assert(strings_view(out@) =~= mid + strings_view(f.roles@).subrange(0, j + 1));
                j += 1;
            }
            assert(strings_view(out@) =~= before + strings_view(f.isa@) + strings_view(f.roles@));
            i += 1;
        }
        assert(fs.subrange(0, facts@.len() as int) =~= fs);
        out
    }
}

// ===== Linearisation =====

/// Where walking a hierarchy has got to: the classes listed so far, and the
/// ones still to visit, the next on top.
pub struct LinState {
    pub order: Seq<Seq<char>>,
    pub stack: Seq<Seq<char>>,
}

/// One step of the depth-first walk: the class on top is listed unless it
/// was already, and then its parents are visited, the first written first.
pub open spec fn lin_step(files: Seq<FileEntry>, st: LinState) -> LinState {
    if st.stack.len() == 0 {
        st
    } else {
        let c = st.stack.last();
        let rest = st.stack.drop_last();
        if st.order.contains(c) {
            LinState { order: st.order, stack: rest }
        } else {
            LinState { order: st.order.push(c), stack: rest + spec_parents(files, c).reverse() }
        }
    }
}

pub open spec fn lin_run(files: Seq<FileEntry>, st: LinState, k: nat) -> LinState
    decreases k,
{
    if k == 0 {
        st
    } else {
        lin_step(files, lin_run(files, st, (k - 1) as nat))
    }
}

pub open spec fn lin_start(package: Seq<char>) -> LinState {
    LinState { order: Seq::empty(), stack: seq![package] }
}

/// Whether the walk from `package` is over after `k` steps.
pub open spec fn lin_done(files: Seq<FileEntry>, package: Seq<char>, k: nat) -> bool {
    lin_run(files, lin_start(package), k).stack.len() == 0
}

/// The class and everything above it, depth first, each named once.
pub open spec fn spec_linearise(files: Seq<FileEntry>, package: Seq<char>) -> Seq<Seq<char>> {
    lin_run(files, lin_start(package), choose|k: nat| lin_done(files, package, k)).order
}

/// Every name the walk from `package` can meet.
pub open spec fn lin_universe(files: Seq<FileEntry>, package: Seq<char>) -> Seq<Seq<char>> {
    seq![package] + all_parent_names(files)
}

/// How many of `u` are not yet listed.
pub open spec fn unvisited(u: Seq<Seq<char>>, order: Seq<Seq<char>>) -> nat
    decreases u.len(),
{
    if u.len() == 0 {
        0
    } else {
        unvisited(u.drop_last(), order) + if order.contains(u.last()) {
            0nat
        } else {
            1nat
        }
    }
}

proof fn lemma_unvisited_push(u: Seq<Seq<char>>, order: Seq<Seq<char>>, c: Seq<char>)
    requires
        !order.contains(c),
    ensures
        unvisited(u, order.push(c)) <= unvisited(u, order),
        u.contains(c) ==> unvisited(u, order.push(c)) < unvisited(u, order),
    decreases u.len(),
{
    if u.len() > 0 {
        let y = u.last();
        lemma_unvisited_push(u.drop_last(), order, c);
        if order.contains(y) {
            let i = choose|i: int| 0 <= i < order.len() && order[i] == y;
            assert(order.push(c)[i] == y);
        }
        if y == c {
            assert(order.push(c)[order.len() as int] == c);
        } else if order.push(c).contains(y) {
            let i = choose|i: int| 0 <= i < order.push(c).len() && order.push(c)[i] == y;
            assert(order[i] == y);
        }
        if u.contains(c) && y != c {
            let i = choose|i: int| 0 <= i < u.len() && u[i] == c;
            assert(u.drop_last()[i] == c);
        }
    }
}

/// Once the walk is over, further steps change nothing.
proof fn lemma_lin_stays(files: Seq<FileEntry>, package: Seq<char>, k1: nat, k2: nat)
    requires
        lin_done(files, package, k1),
        k1 <= k2,
    ensures
        lin_run(files, lin_start(package), k2) == lin_run(files, lin_start(package), k1),
    decreases k2 - k1,
{
    if k2 > k1 {
        lemma_lin_stays(files, package, k1, (k2 - 1) as nat);
    }
}

/// The walk ends the same way whenever it is seen to have ended.
proof fn lemma_lin_unique(files: Seq<FileEntry>, package: Seq<char>, k: nat)
    requires
        lin_done(files, package, k),
    ensures
        spec_linearise(files, package) == lin_run(files, lin_start(package), k).order,
{
    let c = choose|c: nat| lin_done(files, package, c);
    if c <= k {
        lemma_lin_stays(files, package, c, k);
    } else {
        lemma_lin_stays(files, package, k, c);
    }
}

proof fn lemma_in_universe(files: Seq<FileEntry>, package: Seq<char>, c: Seq<char>, x: Seq<char>)
    requires
        spec_parents(files, c).contains(x),
    ensures
        lin_universe(files, package).contains(x),
{
    lemma_parents_named(files, c, x);
    let k = choose|k: int| 0 <= k < all_parent_names(files).len() && all_parent_names(files)[k] == x;
    assert(lin_universe(files, package)[k + 1] == x);
}

/// One step keeps every class waiting in the universe, and either shortens
/// the stack or lists a new class.
proof fn lemma_lin_step(files: Seq<FileEntry>, package: Seq<char>, st: LinState)
    requires
        st.stack.len() > 0,
        forall|t: int| 0 <= t < st.stack.len() ==> lin_universe(files, package).contains(#[trigger] st.stack[t]),
    ensures
        ({
            let next = lin_step(files, st);
            let u = lin_universe(files, package);
            &&& forall|t: int| 0 <= t < next.stack.len() ==> u.contains(#[trigger] next.stack[t])
            &&& if st.order.contains(st.stack.last()) {
                next.order == st.order && next.stack.len() < st.stack.len()
            } else {
                unvisited(u, next.order) < unvisited(u, st.order)
            }
        }),
{
    let c = st.stack.last();
    let u = lin_universe(files, package);
    let next = lin_step(files, st);
    assert(u.contains(st.stack[st.stack.len() - 1]));
    if !st.order.contains(c) {
        lemma_unvisited_push(u, st.order, c);
        let ps = spec_parents(files, c);
        let rest = st.stack.drop_last();
        assert forall|t: int| 0 <= t < next.stack.len() implies u.contains(#[trigger] next.stack[t]) by {
            if t < rest.len() {
                assert(next.stack[t] == st.stack[t]);
            } else {
                let q = t - rest.len();
                assert(next.stack[t] == ps.reverse()[q]);
                assert(ps.reverse()[q] == ps[ps.len() - 1 - q]);
                lemma_in_universe(files, package, c, ps[ps.len() - 1 - q]);
            }
        }
    } else {
        assert forall|t: int| 0 <= t < next.stack.len() implies u.contains(#[trigger] next.stack[t]) by {
            assert(next.stack[t] == st.stack[t]);
        }
    }
}

/// The walk from `package` ends.
pub proof fn lemma_lin_ends(files: Seq<FileEntry>, package: Seq<char>, k: nat) -> (end: nat)
    requires
        forall|t: int|
            0 <= t < lin_run(files, lin_start(package), k).stack.len() ==> lin_universe(files, package).contains(
                #[trigger] lin_run(files, lin_start(package), k).stack[t],
            ),
    ensures
        k <= end,
        lin_done(files, package, end),
    decreases unvisited(lin_universe(files, package), lin_run(files, lin_start(package), k).order),
        lin_run(files, lin_start(package), k).stack.len(),
{
    let st = lin_run(files, lin_start(package), k);
    if st.stack.len() == 0 {
        k
    } else {
        lemma_lin_step(files, package, st);
        lemma_lin_ends(files, package, k + 1)
    }
}

proof fn lemma_lin_start(files: Seq<FileEntry>, package: Seq<char>)
    ensures
        forall|t: int|
            0 <= t < lin_run(files, lin_start(package), 0).stack.len() ==> lin_universe(files, package).contains(
                #[trigger] lin_run(files, lin_start(package), 0).stack[t],
            ),
{
    assert(lin_universe(files, package)[0] == package);
}

/// Whether a list of names holds `name`.
pub fn holds_name(names: &Vec<String>, name: &str) -> (r: bool)
    ensures
        r == strings_view(names@).contains(name@),
{
    let mut i: usize = 0;
    while i < names.len()
        invariant
            i <= names@.len(),
            forall|j: int| 0 <= j < i ==> strings_view(names@)[j] != name@,
        decreases names@.len() - i,
    {
        if same_text(names[i].as_str(), name) {
            assert(strings_view(names@)[i as int] == name@);
            return true;
        }
        i += 1;
    }
    false
}

impl Program {
    /// The class and everything above it, depth first over `isa` with the
    /// roles folded in, each named once.
    pub fn linearise(&self, package: &str) -> (r: Vec<String>)
        ensures
            strings_view(r@) == spec_linearise(self.files_view(), package@),
    {
        let ghost files = self.files@;
        let ghost u = lin_universe(files, package@);
        let mut order: Vec<String> = Vec::new();
        let mut stack: Vec<String> = Vec::new();
        stack.push(package.to_string());
        let ghost mut k: nat = 0;
        proof {
            lemma_lin_start(files, package@);
            assert(strings_view(order@) =~= lin_start(package@).order);
            assert(strings_view(stack@) =~= lin_start(package@).stack);
        }
        while stack.len() > 0
            invariant
                files == self.files@,
                u == lin_universe(files, package@),
                strings_view(order@) == lin_run(files, lin_start(package@), k).order,
                strings_view(stack@) == lin_run(files, lin_start(package@), k).stack,
                forall|t: int|
                    0 <= t < lin_run(files, lin_start(package@), k).stack.len() ==> u.contains(
                        #[trigger] lin_run(files, lin_start(package@), k).stack[t],
                    ),
            decreases unvisited(u, strings_view(order@)), stack@.len(),
        {
            let ghost st = lin_run(files, lin_start(package@), k);
            proof {
                lemma_lin_step(files, package@, st);
            }
            let ghost before = strings_view(stack@);
            let class = stack.pop().unwrap();
            assert(class@ == st.stack.last());
            assert(strings_view(stack@) =~= st.stack.drop_last());
            if !holds_name(&order, class.as_str()) {
                let parents = self.parents_of(class.as_str());
                let ghost pv = strings_view(parents@);
                let ghost rest = strings_view(stack@);
                let ghost ov = strings_view(order@);
                order.push(class);
                assert(strings_view(order@) =~= ov.push(st.stack.last()));
                let mut j: usize = parents.len();
                assert(rest + pv.reverse().subrange(0, 0) =~= rest);
                while j > 0
                    invariant
                        j <= parents@.len(),
                        pv == strings_view(parents@),
                        strings_view(stack@) == rest + pv.reverse().subrange(0, parents@.len() - j),
                    decreases j,
                {
                    j -= 1;
                    let ghost sv = strings_view(stack@);
                    stack.push(parents[j].clone());
                    proof {
                        let n = parents@.len() as int;
                        assert(strings_view(stack@) =~= sv.push(pv[j as int]));
                        assert(pv.reverse()[n - 1 - j] == pv[j as int]);
                        assert(pv.reverse().subrange(0, n - j) =~= pv.reverse().subrange(0, n - 1 - j).push(pv[j as int]));
                    }
                }
                assert(pv.reverse().subrange(0, parents@.len() as int) =~= pv.reverse());
            }
            proof {
                k = k + 1;
            }
        }
        proof {
            lemma_lin_unique(files, package@, k);
        }
        order
    }
}

// ===== What the linearisation is =====

/// `x` is the class itself, or a parent of a class listed in `order`.
pub open spec fn lin_grounded(files: Seq<FileEntry>, package: Seq<char>, order: Seq<Seq<char>>, x: Seq<char>) -> bool {
    x == package || exists|j: int| 0 <= j < order.len() && spec_parents(files, #[trigger] order[j]).contains(x)
}

/// What holds of the walk at every step.
pub open spec fn lin_inv(files: Seq<FileEntry>, package: Seq<char>, st: LinState) -> bool {
    &&& st.order.len() == 0 ==> st.stack == seq![package]
    &&& st.order.len() > 0 ==> st.order[0] == package
    &&& st.order.no_duplicates()
    &&& forall|i: int, y: Seq<char>|
        0 <= i < st.order.len() && #[trigger] spec_parents(files, st.order[i]).contains(y) ==> st.order.contains(y)
            || st.stack.contains(y)
    &&& forall|i: int|
        0 < i < st.order.len() ==> exists|j: int|
            0 <= j < i && spec_parents(files, st.order[j]).contains(#[trigger] st.order[i])
    &&& forall|t: int| 0 <= t < st.stack.len() ==> lin_grounded(files, package, st.order, #[trigger] st.stack[t])
}

proof fn lemma_lin_inv_step(files: Seq<FileEntry>, package: Seq<char>, st: LinState)
    requires
        lin_inv(files, package, st),
    ensures
        lin_inv(files, package, lin_step(files, st)),
{
    if st.stack.len() > 0 {
        let c = st.stack.last();
        let rest = st.stack.drop_last();
        let next = lin_step(files, st);
        let last = st.stack.len() - 1;
        assert(st.stack[last] == c);
        if st.order.contains(c) {
            assert(next.order == st.order && next.stack == rest);
            if st.order.len() == 0 {
                assert(false);
            }
            assert forall|i: int, y: Seq<char>|
                0 <= i < next.order.len() && #[trigger] spec_parents(files, next.order[i]).contains(y) implies next.order.contains(y)
                || next.stack.contains(y) by {
                if !st.order.contains(y) {
                    let t = choose|t: int| 0 <= t < st.stack.len() && st.stack[t] == y;
                    if t < rest.len() {
                        assert(rest[t] == y);
                    }
                }
            }
            assert forall|t: int| 0 <= t < next.stack.len() implies lin_grounded(files, package, next.order, #[trigger] next.stack[t]) by {
                assert(next.stack[t] == st.stack[t]);
            }
        } else {
            let ps = spec_parents(files, c);
            let n = st.order.len() as int;
            assert(next.order == st.order.push(c));
            assert(next.stack == rest + ps.reverse());
            assert(next.order[n] == c);
            assert forall|j: int| 0 <= j < n implies #[trigger] next.order[j] == st.order[j] by {}
            // The class listed first is the class asked about.
            if n == 0 {
                assert(st.stack == seq![package]);
                assert(c == package);
            } else {
                assert(next.order[0] == package);
            }
            // Nothing is listed twice.
            assert forall|a: int, b: int| 0 <= a < next.order.len() && 0 <= b < next.order.len() && a != b implies next.order[a]
                != next.order[b] by {
                if a == n {
                    if st.order[b] == c {
                        assert(st.order.contains(c));
                    }
                } else if b == n {
                    if st.order[a] == c {
                        assert(st.order.contains(c));
                    }
                }
            }
            // Every parent of a listed class is listed or waiting.
            assert forall|i: int, y: Seq<char>|
                0 <= i < next.order.len() && #[trigger] spec_parents(files, next.order[i]).contains(y) implies next.order.contains(y)
                || next.stack.contains(y) by {
                if i == n {
                    let q = choose|q: int| 0 <= q < ps.len() && ps[q] == y;
                    let r = ps.len() - 1 - q;
                    assert(ps.reverse()[r] == ps[q]);
                    assert(next.stack[rest.len() + r] == y);
                } else {
                    assert(next.order[i] == st.order[i]);
                    if st.order.contains(y) {
                        let w = choose|w: int| 0 <= w < st.order.len() && st.order[w] == y;
                        assert(next.order[w] == y);
                    } else {
                        let t = choose|t: int| 0 <= t < st.stack.len() && st.stack[t] == y;
                        if t < rest.len() {
                            assert(next.stack[t] == y);
                        } else {
                            assert(next.order[n] == y);
                        }
                    }
                }
            }
            // Every class listed after the first is a parent of one before it.
            assert forall|i: int| 0 < i < next.order.len() implies exists|j: int|
                0 <= j < i && spec_parents(files, next.order[j]).contains(#[trigger] next.order[i]) by {
                if i == n {
                    assert(lin_grounded(files, package, st.order, st.stack[last]));
                    if c == package {
                        assert(st.order[0] == package);
                        assert(st.order.contains(c));
                    }
                    let j = choose|j: int| 0 <= j < st.order.len() && spec_parents(files, #[trigger] st.order[j]).contains(c);
                    assert(next.order[j] == st.order[j]);
                } else {
                    let j = choose|j: int| 0 <= j < i && spec_parents(files, st.order[j]).contains(#[trigger] st.order[i]);
                    assert(next.order[j] == st.order[j]);
                    assert(next.order[i] == st.order[i]);
                }
            }
            // Everything waiting is a parent of something listed.
            assert forall|t: int| 0 <= t < next.stack.len() implies lin_grounded(files, package, next.order, #[trigger] next.stack[t]) by {
                if t < rest.len() {
                    assert(next.stack[t] == st.stack[t]);
                    assert(lin_grounded(files, package, st.order, st.stack[t]));
                    if st.stack[t] != package {
                        let j = choose|j: int| 0 <= j < st.order.len() && spec_parents(files, #[trigger] st.order[j]).contains(st.stack[t]);
                        assert(next.order[j] == st.order[j]);
                    }
                } else {
                    let r = t - rest.len();
                    assert(next.stack[t] == ps.reverse()[r]);
                    assert(ps.reverse()[r] == ps[ps.len() - 1 - r]);
                    assert(ps.contains(ps[ps.len() - 1 - r]));
                    assert(spec_parents(files, next.order[n]).contains(next.stack[t]));
                }
            }
        }
    }
}

proof fn lemma_lin_inv(files: Seq<FileEntry>, package: Seq<char>, k: nat)
    ensures
        lin_inv(files, package, lin_run(files, lin_start(package), k)),
    decreases k,
{
    if k == 0 {
        let st = lin_start(package);
        assert(st.stack[0] == package);
        assert(lin_grounded(files, package, st.order, st.stack[0]));
    } else {
        lemma_lin_inv(files, package, (k - 1) as nat);
        lemma_lin_inv_step(files, package, lin_run(files, lin_start(package), (k - 1) as nat));
    }
}

/// The finished walk: where it ends, and that what holds at every step holds
/// there.
proof fn lemma_linearised(files: Seq<FileEntry>, package: Seq<char>) -> (k: nat)
    ensures
        lin_done(files, package, k),
        spec_linearise(files, package) == lin_run(files, lin_start(package), k).order,
        lin_inv(files, package, lin_run(files, lin_start(package), k)),
{
    lemma_lin_start(files, package);
    let k = lemma_lin_ends(files, package, 0);
    lemma_lin_unique(files, package, k);
    lemma_lin_inv(files, package, k);
    k
}

/// A class's linearisation starts with the class itself.
pub proof fn law_a_class_comes_first_in_its_linearisation(files: Seq<FileEntry>, package: Seq<char>)
    ensures
        spec_linearise(files, package).len() > 0,
        spec_linearise(files, package)[0] == package,
{
    let k = lemma_linearised(files, package);
    let st = lin_run(files, lin_start(package), k);
    if st.order.len() == 0 {
        assert(st.stack == seq![package]);
        assert(st.stack.len() == 1);
    }
}

/// No class is named twice in a linearisation.
pub proof fn law_a_linearisation_names_each_class_once(files: Seq<FileEntry>, package: Seq<char>)
    ensures
        spec_linearise(files, package).no_duplicates(),
{
    lemma_linearised(files, package);
}

/// Whatever a listed class inherits from or composes is listed too.
pub proof fn law_a_linearisation_holds_every_ancestor(
    files: Seq<FileEntry>,
    package: Seq<char>,
    class: Seq<char>,
    parent: Seq<char>,
)
    requires
        spec_linearise(files, package).contains(class),
        spec_parents(files, class).contains(parent),
    ensures
        spec_linearise(files, package).contains(parent),
{
    let k = lemma_linearised(files, package);
    let st = lin_run(files, lin_start(package), k);
    let i = choose|i: int| 0 <= i < st.order.len() && st.order[i] == class;
    assert(spec_parents(files, st.order[i]).contains(parent));
}

/// Every class listed after the first is a parent of one listed before it:
/// a linearisation holds nothing that is not an ancestor.
pub proof fn law_a_linearisation_holds_only_ancestors(files: Seq<FileEntry>, package: Seq<char>, i: int)
    requires
        0 < i < spec_linearise(files, package).len(),
    ensures
        exists|j: int|
            0 <= j < i && spec_parents(files, spec_linearise(files, package)[j]).contains(
                #[trigger] spec_linearise(files, package)[i],
            ),
{
    lemma_linearised(files, package);
}

// ===== Whether the method set of a class is known =====

/// Where the last `::` in a name starts, at or before `j`.
pub open spec fn last_separator(s: Seq<char>, j: int) -> Option<int>
    decreases j + 1,
{
    if j < 0 {
        None
    } else if j + 1 < s.len() && s[j] == ':' && s[j + 1] == ':' {
        Some(j)
    } else {
        last_separator(s, j - 1)
    }
}

/// The name of the package a qualified name sits inside: `Net::DBus` for
/// `Net::DBus::Binding`.
pub open spec fn outer_name(s: Seq<char>) -> Option<Seq<char>> {
    if s.len() < 2 {
        None
    } else {
        match last_separator(s, s.len() - 2) {
            Some(i) => Some(s.subrange(0, i)),
            None => None,
        }
    }
}

pub proof fn lemma_last_separator(s: Seq<char>, j: int)
    requires
        s.len() >= 2,
        0 <= j <= s.len() - 2,
    ensures
        last_separator(s, j) matches Some(i) ==> 0 <= i <= j && s[i] == ':' && s[i + 1] == ':',
    decreases j,
{
    if s[j] == ':' && s[j + 1] == ':' {
        assert(last_separator(s, j) == Some(j));
    } else if j > 0 {
        lemma_last_separator(s, j - 1);
        assert(last_separator(s, j) == last_separator(s, j - 1));
    } else {
        assert(last_separator(s, j) == last_separator(s, -1));
        assert(last_separator(s, -1) is None);
    }
}

/// Whether some package that `name` sits inside is dynamic: XS registers its
/// methods under the distribution's whole namespace.
pub open spec fn outer_dynamic(files: Seq<FileEntry>, name: Seq<char>) -> bool
    decreases name.len(),
{
    match outer_name(name) {
        Some(outer) => {
            proof {
                lemma_last_separator(name, name.len() - 2);
            }
            any_dynamic(spec_facts(files, outer)) || outer_dynamic(files, outer)
        },
        None => false,
    }
}

pub open spec fn any_dynamic(fs: Seq<PackageFacts>) -> bool {
    exists|i: int| 0 <= i < fs.len() && (#[trigger] fs[i]).dynamic
}

/// The first class of `lin` from `i` on that declares `method`.
pub open spec fn first_declaring(subs: Seq<SubDecl>, lin: Seq<Seq<char>>, method: Seq<char>, i: int) -> Option<int>
    decreases lin.len() - i,
{
    if i < 0 || i >= lin.len() {
        None
    } else if sub_at(subs, lin[i], method, 0) is Some {
        Some(i)
    } else {
        first_declaring(subs, lin, method, i + 1)
    }
}

/// Whether calling `target->method` runs a code generator: a sub declared in
/// a package that assigns to globs, so the methods land in the caller.
pub open spec fn spec_is_generator(files: Seq<FileEntry>, subs: Seq<SubDecl>, target: Seq<char>, method: Seq<char>) -> bool {
    let lin = spec_linearise(files, target);
    match first_declaring(subs, lin, method, 0) {
        Some(i) => any_dynamic(spec_facts(files, lin[i])),
        None => false,
    }
}

/// Whether one package's facts leave its method set open: it makes methods
/// at run time, delegates to a set nobody can enumerate, composes a role the
/// run never saw, exports its own subs, imports from a module whose exports
/// could not be read, or calls a code generator at file scope.
pub open spec fn facts_open(files: Seq<FileEntry>, subs: Seq<SubDecl>, f: PackageFacts) -> bool {
    ||| f.dynamic
    ||| exists|a: int| 0 <= a < f.attributes@.len() && (#[trigger] f.attributes@[a]).opaque_delegation
    ||| exists|r: int| 0 <= r < f.roles@.len() && !spec_knows_package(files, (#[trigger] f.roles@[r])@)
    ||| f.exports_unknown
    ||| f.exports@.len() > 0
    ||| exists|m: int|
        0 <= m < f.uses@.len() && exports_unread(spec_facts(files, (#[trigger] f.uses@[m])@))
    ||| exists|c: int|
        0 <= c < f.file_scope_calls@.len() && spec_is_generator(
            files,
            subs,
            (#[trigger] f.file_scope_calls@[c]).0@,
            f.file_scope_calls@[c].1@,
        )
}

pub open spec fn exports_unread(fs: Seq<PackageFacts>) -> bool {
    exists|i: int| 0 <= i < fs.len() && (#[trigger] fs[i]).exports_unknown
}

/// Whether the run has anything of a package beyond its name: an attribute,
/// a generated `new`, or a sub.
pub open spec fn declares_anything(files: Seq<FileEntry>, subs: Seq<SubDecl>, class: Seq<char>) -> bool {
    let fs = spec_facts(files, class);
    ||| exists|i: int| 0 <= i < fs.len() && ((#[trigger] fs[i]).attributes@.len() > 0 || fs[i].constructor)
    ||| exists|i: int| 0 <= i < subs.len() && (#[trigger] subs[i]).package@ == class
}

/// Whether one class of a linearisation leaves the method set open.
pub open spec fn class_open(files: Seq<FileEntry>, subs: Seq<SubDecl>, class: Seq<char>) -> bool {
    let fs = spec_facts(files, class);
    ||| !spec_knows_package(files, class)
    ||| sub_at(subs, class, "AUTOLOAD"@, 0) is Some
    ||| exists|i: int| 0 <= i < fs.len() && facts_open(files, subs, #[trigger] fs[i])
    ||| !declares_anything(files, subs, class)
}

/// Whether the class, or anything it inherits from, is a package the run
/// cannot vouch for the methods of.
pub open spec fn spec_has_unknown_ancestor(files: Seq<FileEntry>, subs: Seq<SubDecl>, package: Seq<char>) -> bool {
    let lin = spec_linearise(files, package);
    ||| !spec_knows_package(files, package)
    ||| outer_dynamic(files, package)
    ||| exists|i: int| 0 <= i < lin.len() && class_open(files, subs, #[trigger] lin[i])
}

/// The package a qualified name sits inside.
pub fn outer_of(name: &str) -> (r: Option<String>)
    ensures
        match outer_name(name@) {
            Some(o) => r matches Some(s) && s@ == o,
            None => r is None,
        },
{
    let c = crate::text::chars_of(name);
    let n = c.len();
    if n < 2 {
        return None;
    }
    let mut j: usize = n - 2;
    loop
        invariant
            n == c@.len(),
            n >= 2,
            j <= n - 2,
            c@ == name@,
            last_separator(c@, n - 2) == last_separator(c@, j as int),
        decreases j,
    {
        if c[j] == ':' && c[j + 1] == ':' {
            return Some(crate::text::string_of(&c, 0, j));
        }
        if j == 0 {
            assert(last_separator(c@, 0) == last_separator(c@, -1));
            assert(last_separator(c@, -1) is None);
            return None;
        }
        j -= 1;
    }
}

/// Whether any of the facts is dynamic.
pub fn facts_dynamic(facts: &Vec<&PackageFacts>) -> (r: bool)
    ensures
        r == any_dynamic(deref_facts(facts@)),
{
    let mut i: usize = 0;
    while i < facts.len()
        invariant
            i <= facts@.len(),
            forall|j: int| 0 <= j < i ==> !deref_facts(facts@)[j].dynamic,
        decreases facts@.len() - i,
    {
        if facts[i].dynamic {
            assert(deref_facts(facts@)[i as int].dynamic);
            return true;
        }
        i += 1;
    }
    false
}

impl Program {
    /// Whether some package `name` sits inside is dynamic.
    pub fn outer_is_dynamic(&self, name: &str) -> (r: bool)
        ensures
            r == outer_dynamic(self.files_view(), name@),
        decreases name@.len(),
    {
        match outer_of(name) {
            Some(outer) => {
                proof {
                    lemma_last_separator(name@, name@.len() - 2);
                }
                if facts_dynamic(&self.facts(outer.as_str())) {
                    true
                } else {
                    self.outer_is_dynamic(outer.as_str())
                }
            },
            None => false,
        }
    }

    /// Whether `target->method` is a call to a code generator.
    pub fn is_generator(&self, target: &str, method: &str) -> (r: bool)
        ensures
            r == spec_is_generator(self.files_view(), self.subs_view(), target@, method@),
    {
        let lin = self.linearise(target);
        let ghost lv = strings_view(lin@);
        let mut i: usize = 0;
        while i < lin.len()
            invariant
                i <= lin@.len(),
                lv == strings_view(lin@),
                lv == spec_linearise(self.files@, target@),
                first_declaring(self.subs@, lv, method@, 0) == first_declaring(self.subs@, lv, method@, i as int),
            decreases lin@.len() - i,
        {
            assert(lv[i as int] == lin@[i as int]@);
            if self.sub(lin[i].as_str(), method).is_some() {
                return facts_dynamic(&self.facts(lin[i].as_str()));
            }
            i += 1;
        }
        false
    }

    /// Whether one package's facts leave its method set open.
    pub fn facts_leave_open(&self, f: &PackageFacts) -> (r: bool)
        ensures
            r == facts_open(self.files_view(), self.subs_view(), *f),
    {
        if f.dynamic || f.exports_unknown || f.exports.len() > 0 {
            return true;
        }
        let mut a: usize = 0;
        while a < f.attributes.len()
            invariant
                a <= f.attributes@.len(),
                forall|k: int| 0 <= k < a ==> !(#[trigger] f.attributes@[k]).opaque_delegation,
            decreases f.attributes@.len() - a,
        {
            if f.attributes[a].opaque_delegation {
                return true;
            }
            a += 1;
        }
        let mut r: usize = 0;
        while r < f.roles.len()
            invariant
                r <= f.roles@.len(),
                forall|k: int| 0 <= k < r ==> spec_knows_package(self.files@, (#[trigger] f.roles@[k])@),
            decreases f.roles@.len() - r,
        {
            if !self.knows_package(f.roles[r].as_str()) {
                return true;
            }
            r += 1;
        }
        let mut m: usize = 0;
        while m < f.uses.len()
            invariant
                m <= f.uses@.len(),
                forall|k: int| 0 <= k < m ==> !exports_unread(spec_facts(self.files@, (#[trigger] f.uses@[k])@)),
            decreases f.uses@.len() - m,
        {
            let exporters = self.facts(f.uses[m].as_str());
            let mut e: usize = 0;
            while e < exporters.len()
                invariant
                    e <= exporters@.len(),
                    m < f.uses@.len(),
                    deref_facts(exporters@) == spec_facts(self.files@, f.uses@[m as int]@),
                    forall|k: int| 0 <= k < e ==> !deref_facts(exporters@)[k].exports_unknown,
                decreases exporters@.len() - e,
            {
                if exporters[e].exports_unknown {
                    assert(deref_facts(exporters@)[e as int].exports_unknown);
                    assert(exports_unread(spec_facts(self.files@, f.uses@[m as int]@)));
                    return true;
                }
                e += 1;
            }
            m += 1;
        }
        let mut c: usize = 0;
        while c < f.file_scope_calls.len()
            invariant
                c <= f.file_scope_calls@.len(),
                forall|k: int|
                    0 <= k < c ==> !spec_is_generator(
                        self.files@,
                        self.subs@,
                        (#[trigger] f.file_scope_calls@[k]).0@,
                        f.file_scope_calls@[k].1@,
                    ),
            decreases f.file_scope_calls@.len() - c,
        {
            if self.is_generator(f.file_scope_calls[c].0.as_str(), f.file_scope_calls[c].1.as_str()) {
                return true;
            }
            c += 1;
        }
        false
    }

    /// Whether the run has anything of a package beyond its name.
    pub fn declares_anything(&self, class: &str) -> (r: bool)
        ensures
            r == declares_anything(self.files_view(), self.subs_view(), class@),
    {
        let facts = self.facts(class);
        let ghost fs = deref_facts(facts@);
        let mut i: usize = 0;
        while i < facts.len()
            invariant
                i <= facts@.len(),
                fs == deref_facts(facts@),
                fs == spec_facts(self.files@, class@),
                forall|k: int| 0 <= k < i ==> !((#[trigger] fs[k]).attributes@.len() > 0 || fs[k].constructor),
            decreases facts@.len() - i,
        {
            if facts[i].attributes.len() > 0 || facts[i].constructor {
                assert(fs[i as int] == *facts@[i as int]);
                return true;
            }
            i += 1;
        }
        let mut j: usize = 0;
        while j < self.subs.len()
            invariant
                j <= self.subs@.len(),
                forall|k: int| 0 <= k < j ==> (#[trigger] self.subs@[k]).package@ != class@,
            decreases self.subs@.len() - j,
        {
            if same_text(self.subs[j].package.as_str(), class) {
                return true;
            }
            j += 1;
        }
        false
    }

    /// Whether one class leaves the method set open.
    pub fn class_is_open(&self, class: &str) -> (r: bool)
        ensures
            r == class_open(self.files_view(), self.subs_view(), class@),
    {
        if !self.knows_package(class) {
            return true;
        }
        if self.sub(class, "AUTOLOAD").is_some() {
            return true;
        }
        let facts = self.facts(class);
        let ghost fs = deref_facts(facts@);
        let mut i: usize = 0;
        while i < facts.len()
            invariant
                i <= facts@.len(),
                fs == deref_facts(facts@),
                fs == spec_facts(self.files@, class@),
                forall|k: int| 0 <= k < i ==> !facts_open(self.files@, self.subs@, #[trigger] fs[k]),
            decreases facts@.len() - i,
        {
            if self.facts_leave_open(facts[i]) {
                assert(fs[i as int] == *facts@[i as int]);
                return true;
            }
            i += 1;
        }
        !self.declares_anything(class)
    }

    /// Whether the class, or anything it inherits from, is a package the run
    /// never saw, or one whose methods cannot all be named: the question that
    /// decides whether "no such method" may be said at all.
    pub fn has_unknown_ancestor(&self, package: &str) -> (r: bool)
        ensures
            r == spec_has_unknown_ancestor(self.files_view(), self.subs_view(), package@),
    {
        if !self.knows_package(package) {
            return true;
        }
        if self.outer_is_dynamic(package) {
            return true;
        }
        let lin = self.linearise(package);
        let ghost lv = strings_view(lin@);
        let mut i: usize = 0;
        while i < lin.len()
            invariant
                i <= lin@.len(),
                lv == strings_view(lin@),
                lv == spec_linearise(self.files@, package@),
                forall|k: int| 0 <= k < i ==> !class_open(self.files@, self.subs@, #[trigger] lv[k]),
            decreases lin@.len() - i,
        {
            assert(lv[i as int] == lin@[i as int]@);
            if self.class_is_open(lin[i].as_str()) {
                return true;
            }
            i += 1;
        }
        false
    }
}

// ===== Method resolution =====

/// What a method name resolved to on a class.
#[derive(Debug)]
pub enum MethodLookup<'a> {
    Sub(&'a SubDecl),
    Attribute(&'a AttributeDecl),
    /// The framework generates `new`.
    Constructor,
    /// `UNIVERSAL` gives it to every class.
    Universal,
    /// Nothing declares it, and every ancestor is known: it really is not
    /// there.
    Missing,
    /// An ancestor is a package the run never saw, or the class answers
    /// through `AUTOLOAD` or an opaque delegation. Never reported against.
    Unknown,
}

/// What a lookup found, as a value.
pub enum LookupV {
    Sub(SubDecl),
    Attribute(AttributeDecl),
    Constructor,
    Universal,
    Missing,
    Unknown,
}

pub open spec fn lookup_view<'a>(r: MethodLookup<'a>) -> LookupV {
    match r {
        MethodLookup::Sub(s) => LookupV::Sub(*s),
        MethodLookup::Attribute(a) => LookupV::Attribute(*a),
        MethodLookup::Constructor => LookupV::Constructor,
        MethodLookup::Universal => LookupV::Universal,
        MethodLookup::Missing => LookupV::Missing,
        MethodLookup::Unknown => LookupV::Unknown,
    }
}

/// The methods `UNIVERSAL` gives every class, and the two `Exporter` gives
/// every module.
pub open spec fn is_universal(name: Seq<char>) -> bool {
    name == "isa"@ || name == "can"@ || name == "DOES"@ || name == "VERSION"@ || name == "import"@
        || name == "unimport"@ || name == "DESTROY"@
}

pub fn universal(name: &str) -> (r: bool)
    ensures
        r == is_universal(name@),
{
    same_text(name, "isa") || same_text(name, "can") || same_text(name, "DOES") || same_text(name, "VERSION")
        || same_text(name, "import") || same_text(name, "unimport") || same_text(name, "DESTROY")
}

/// Whether an attribute answers to `name`: its own name, or one it generates.
pub open spec fn answers(a: AttributeDecl, name: Seq<char>) -> bool {
    a.name@ == name || find_method(method_views(a.methods@), name, 0) is Some
}

pub open spec fn first_answering(attrs: Seq<AttributeDecl>, name: Seq<char>, i: int) -> Option<int>
    decreases attrs.len() - i,
{
    if i < 0 || i >= attrs.len() {
        None
    } else if answers(attrs[i], name) {
        Some(i)
    } else {
        first_answering(attrs, name, i + 1)
    }
}

/// What one package's facts answer for `name`: the first attribute that
/// answers to it, else a generated `new`.
pub open spec fn facts_answer(f: PackageFacts, name: Seq<char>) -> Option<LookupV> {
    match first_answering(f.attributes@, name, 0) {
        Some(a) => Some(LookupV::Attribute(f.attributes@[a])),
        None => if name == "new"@ && f.constructor {
            Some(LookupV::Constructor)
        } else {
            None
        },
    }
}

pub open spec fn facts_seq_answer(fs: Seq<PackageFacts>, name: Seq<char>, i: int) -> Option<LookupV>
    decreases fs.len() - i,
{
    if i < 0 || i >= fs.len() {
        None
    } else {
        match facts_answer(fs[i], name) {
            Some(x) => Some(x),
            None => facts_seq_answer(fs, name, i + 1),
        }
    }
}

/// What one class answers for `name` by its own declarations: a sub, else
/// what its facts say.
pub open spec fn class_answer(files: Seq<FileEntry>, subs: Seq<SubDecl>, class: Seq<char>, name: Seq<char>) -> Option<LookupV> {
    match sub_at(subs, class, name, 0) {
        Some(j) => Some(LookupV::Sub(subs[j])),
        None => facts_seq_answer(spec_facts(files, class), name, 0),
    }
}

pub open spec fn lin_answer(
    files: Seq<FileEntry>,
    subs: Seq<SubDecl>,
    lin: Seq<Seq<char>>,
    name: Seq<char>,
    i: int,
) -> Option<LookupV>
    decreases lin.len() - i,
{
    if i < 0 || i >= lin.len() {
        None
    } else {
        match class_answer(files, subs, lin[i], name) {
            Some(x) => Some(x),
            None => lin_answer(files, subs, lin, name, i + 1),
        }
    }
}

/// Whether one of the facts lists `name` in its `@EXPORT`.
pub open spec fn exports_name(fs: Seq<PackageFacts>, name: Seq<char>) -> bool {
    exists|i: int| 0 <= i < fs.len() && strings_view((#[trigger] fs[i]).exports@).contains(name)
}

/// The sub a module exports under `name`, where it exports that name and
/// declares it.
pub open spec fn module_export(files: Seq<FileEntry>, subs: Seq<SubDecl>, module: Seq<char>, name: Seq<char>) -> Option<LookupV> {
    if exports_name(spec_facts(files, module), name) {
        match sub_at(subs, module, name, 0) {
            Some(j) => Some(LookupV::Sub(subs[j])),
            None => None,
        }
    } else {
        None
    }
}

pub open spec fn uses_answer(
    files: Seq<FileEntry>,
    subs: Seq<SubDecl>,
    uses: Seq<String>,
    name: Seq<char>,
    i: int,
) -> Option<LookupV>
    decreases uses.len() - i,
{
    if i < 0 || i >= uses.len() {
        None
    } else {
        match module_export(files, subs, uses[i]@, name) {
            Some(x) => Some(x),
            None => uses_answer(files, subs, uses, name, i + 1),
        }
    }
}

pub open spec fn facts_uses_answer(
    files: Seq<FileEntry>,
    subs: Seq<SubDecl>,
    fs: Seq<PackageFacts>,
    name: Seq<char>,
    i: int,
) -> Option<LookupV>
    decreases fs.len() - i,
{
    if i < 0 || i >= fs.len() {
        None
    } else {
        match uses_answer(files, subs, fs[i].uses@, name, 0) {
            Some(x) => Some(x),
            None => facts_uses_answer(files, subs, fs, name, i + 1),
        }
    }
}

pub open spec fn lin_uses_answer(
    files: Seq<FileEntry>,
    subs: Seq<SubDecl>,
    lin: Seq<Seq<char>>,
    name: Seq<char>,
    i: int,
) -> Option<LookupV>
    decreases lin.len() - i,
{
    if i < 0 || i >= lin.len() {
        None
    } else {
        match facts_uses_answer(files, subs, spec_facts(files, lin[i]), name, 0) {
            Some(x) => Some(x),
            None => lin_uses_answer(files, subs, lin, name, i + 1),
        }
    }
}

/// What `$obj->name` resolves to on a class: `UNIVERSAL`'s methods first;
/// then the first class of the linearisation that declares it, as a sub, an
/// attribute's accessor or a generated `new`; then a sub a used module
/// exports under that name; and where nothing answers, `Unknown` if the
/// class's method set is open and `Missing` if it is not.
pub open spec fn spec_resolve_method(files: Seq<FileEntry>, subs: Seq<SubDecl>, package: Seq<char>, name: Seq<char>) -> LookupV {
    let lin = spec_linearise(files, package);
    if is_universal(name) {
        LookupV::Universal
    } else {
        match lin_answer(files, subs, lin, name, 0) {
            Some(x) => x,
            None => match lin_uses_answer(files, subs, lin, name, 0) {
                Some(x) => x,
                None => if spec_has_unknown_ancestor(files, subs, package) {
                    LookupV::Unknown
                } else {
                    LookupV::Missing
                },
            },
        }
    }
}

/// What one package's facts answer for `name`.
pub fn answer_of_facts<'a>(f: &'a PackageFacts, name: &str) -> (r: Option<MethodLookup<'a>>)
    ensures
        match facts_answer(*f, name@) {
            Some(x) => r matches Some(l) && lookup_view(l) == x,
            None => r is None,
        },
{
    let mut a: usize = 0;
    while a < f.attributes.len()
        invariant
            a <= f.attributes@.len(),
            first_answering(f.attributes@, name@, 0) == first_answering(f.attributes@, name@, a as int),
        decreases f.attributes@.len() - a,
    {
        if f.attributes[a].answers_to(name) {
            return Some(MethodLookup::Attribute(&f.attributes[a]));
        }
        a += 1;
    }
    if same_text(name, "new") && f.constructor {
        Some(MethodLookup::Constructor)
    } else {
        None
    }
}

impl Program {
    /// What one class answers for `name` by its own declarations.
    pub fn answer_of_class(&self, class: &str, name: &str) -> (r: Option<MethodLookup<'_>>)
        ensures
            match class_answer(self.files_view(), self.subs_view(), class@, name@) {
                Some(x) => r matches Some(l) && lookup_view(l) == x,
                None => r is None,
            },
    {
        match self.sub(class, name) {
            Some(symbol) => return Some(MethodLookup::Sub(symbol)),
            None => {},
        }
        let facts = self.facts(class);
        let ghost fs = deref_facts(facts@);
        let mut i: usize = 0;
        while i < facts.len()
            invariant
                i <= facts@.len(),
                fs == deref_facts(facts@),
                fs == spec_facts(self.files@, class@),
                sub_at(self.subs@, class@, name@, 0) is None,
                facts_seq_answer(fs, name@, 0) == facts_seq_answer(fs, name@, i as int),
            decreases facts@.len() - i,
        {
            assert(fs[i as int] == *facts@[i as int]);
            match answer_of_facts(facts[i], name) {
                Some(found) => return Some(found),
                None => {},
            }
            i += 1;
        }
        None
    }

    /// The sub a module exports under `name`.
    pub fn exported_sub(&self, module: &str, name: &str) -> (r: Option<&SubDecl>)
        ensures
            match module_export(self.files_view(), self.subs_view(), module@, name@) {
                Some(x) => r matches Some(s) && LookupV::Sub(*s) == x,
                None => r is None,
            },
    {
        let exporters = self.facts(module);
        let ghost fs = deref_facts(exporters@);
        let mut i: usize = 0;
        while i < exporters.len()
            invariant
                i <= exporters@.len(),
                fs == deref_facts(exporters@),
                fs == spec_facts(self.files@, module@),
                forall|a: int| 0 <= a < i ==> !strings_view((#[trigger] fs[a]).exports@).contains(name@),
            decreases exporters@.len() - i,
        {
            assert(fs[i as int] == *exporters@[i as int]);
            if holds_name(&exporters[i].exports, name) {
                return self.sub(module, name);
            }
            i += 1;
        }
        None
    }

    /// What the modules one package uses export under `name`.
    pub fn answer_of_uses(&self, f: &PackageFacts, name: &str) -> (r: Option<MethodLookup<'_>>)
        ensures
            match uses_answer(self.files_view(), self.subs_view(), f.uses@, name@, 0) {
                Some(x) => r matches Some(l) && lookup_view(l) == x,
                None => r is None,
            },
    {
        let mut m: usize = 0;
        while m < f.uses.len()
            invariant
                m <= f.uses@.len(),
                uses_answer(self.files@, self.subs@, f.uses@, name@, 0) == uses_answer(self.files@, self.subs@, f.uses@, name@, m as int),
            decreases f.uses@.len() - m,
        {
            match self.exported_sub(f.uses[m].as_str(), name) {
                Some(symbol) => return Some(MethodLookup::Sub(symbol)),
                None => {},
            }
            m += 1;
        }
        None
    }

    /// What a method name resolves to on a class.
    pub fn resolve_method(&self, package: &str, name: &str) -> (r: MethodLookup<'_>)
        ensures
            lookup_view(r) == spec_resolve_method(self.files_view(), self.subs_view(), package@, name@),
    {
        if universal(name) {
            return MethodLookup::Universal;
        }
        let lin = self.linearise(package);
        let ghost lv = strings_view(lin@);
        let mut i: usize = 0;
        while i < lin.len()
            invariant
                i <= lin@.len(),
                lv == strings_view(lin@),
                lv == spec_linearise(self.files@, package@),
                !is_universal(name@),
                lin_answer(self.files@, self.subs@, lv, name@, 0) == lin_answer(self.files@, self.subs@, lv, name@, i as int),
            decreases lin@.len() - i,
        {
            assert(lv[i as int] == lin@[i as int]@);
            match self.answer_of_class(lin[i].as_str(), name) {
                Some(found) => {
                    return found;
                },
                None => {},
            }
            i += 1;
        }
        let mut i: usize = 0;
        while i < lin.len()
            invariant
                i <= lin@.len(),
                lv == strings_view(lin@),
                lv == spec_linearise(self.files@, package@),
                !is_universal(name@),
                lin_answer(self.files@, self.subs@, lv, name@, 0) is None,
                lin_uses_answer(self.files@, self.subs@, lv, name@, 0) == lin_uses_answer(
                    self.files@,
                    self.subs@,
                    lv,
                    name@,
                    i as int,
                ),
            decreases lin@.len() - i,
        {
            assert(lv[i as int] == lin@[i as int]@);
            let facts = self.facts(lin[i].as_str());
            let ghost fs = deref_facts(facts@);
            let mut j: usize = 0;
            while j < facts.len()
                invariant
                    j <= facts@.len(),
                    fs == deref_facts(facts@),
                    i < lin@.len(),
                    lv == strings_view(lin@),
                    lv == spec_linearise(self.files@, package@),
                    !is_universal(name@),
                    lin_answer(self.files@, self.subs@, lv, name@, 0) is None,
                    fs == spec_facts(self.files@, lv[i as int]),
                    lin_uses_answer(self.files@, self.subs@, lv, name@, 0) == lin_uses_answer(
                        self.files@,
                        self.subs@,
                        lv,
                        name@,
                        i as int,
                    ),
                    facts_uses_answer(self.files@, self.subs@, fs, name@, 0) == facts_uses_answer(
                        self.files@,
                        self.subs@,
                        fs,
                        name@,
                        j as int,
                    ),
                decreases facts@.len() - j,
            {
                assert(fs[j as int] == *facts@[j as int]);
                match self.answer_of_uses(facts[j], name) {
                    Some(found) => return found,
                    None => {},
                }
                j += 1;
            }
            i += 1;
        }
        if self.has_unknown_ancestor(package) {
            MethodLookup::Unknown
        } else {
            MethodLookup::Missing
        }
    }
}

// ===== Qualified names and `SUPER::` =====

/// What comes after the last `::` of a qualified name.
pub open spec fn inner_name(s: Seq<char>) -> Seq<char> {
    match last_separator(s, s.len() - 2) {
        Some(i) => s.subrange(i + 2, s.len() as int),
        None => s,
    }
}

/// A qualified name split at its last `::`.
pub fn split_qualified(name: &str) -> (r: Option<(String, String)>)
    ensures
        match outer_name(name@) {
            Some(o) => r matches Some(p) && p.0@ == o && p.1@ == inner_name(name@),
            None => r is None,
        },
{
    let c = crate::text::chars_of(name);
    let n = c.len();
    if n < 2 {
        return None;
    }
    let mut j: usize = n - 2;
    proof {
        lemma_last_separator(c@, n - 2);
    }
    loop
        invariant
            n == c@.len(),
            n >= 2,
            j <= n - 2,
            c@ == name@,
            last_separator(c@, n - 2) == last_separator(c@, j as int),
        decreases j,
    {
        if c[j] == ':' && c[j + 1] == ':' {
            return Some((crate::text::string_of(&c, 0, j), crate::text::string_of(&c, j + 2, n)));
        }
        if j == 0 {
            assert(last_separator(c@, 0) == last_separator(c@, -1));
            assert(last_separator(c@, -1) is None);
            return None;
        }
        j -= 1;
    }
}

/// The name after `SUPER::`, for a call that asks for the parent's method.
pub open spec fn super_bare(name: Seq<char>) -> Option<Seq<char>> {
    if crate::text::spec_starts_with(name, "SUPER::"@) {
        Some(name.subrange("SUPER::"@.len() as int, name.len() as int))
    } else {
        None
    }
}

/// The parents a package names with `isa`, without its roles.
pub open spec fn facts_isa(fs: Seq<PackageFacts>) -> Seq<Seq<char>>
    decreases fs.len(),
{
    if fs.len() == 0 {
        Seq::empty()
    } else {
        facts_isa(fs.drop_last()) + strings_view(fs.last().isa@)
    }
}

/// The first of `parents` from `i` on that has the method, or `Missing`.
pub open spec fn first_found(
    files: Seq<FileEntry>,
    subs: Seq<SubDecl>,
    parents: Seq<Seq<char>>,
    bare: Seq<char>,
    i: int,
) -> LookupV
    decreases parents.len() - i,
{
    if i < 0 || i >= parents.len() {
        LookupV::Missing
    } else {
        match spec_resolve_method(files, subs, parents[i], bare) {
            LookupV::Missing => first_found(files, subs, parents, bare, i + 1),
            found => found,
        }
    }
}

/// What `$obj->name` resolves to, asked from package `from`: `SUPER::` looks
/// in the parents of the package the call is written in, and a qualified
/// name says where to look.
pub open spec fn spec_resolve_method_from(
    files: Seq<FileEntry>,
    subs: Seq<SubDecl>,
    package: Seq<char>,
    name: Seq<char>,
    from: Seq<char>,
) -> LookupV {
    match super_bare(name) {
        Some(bare) => {
            let parents = facts_isa(spec_facts(files, from));
            if parents.len() == 0 {
                LookupV::Unknown
            } else {
                first_found(files, subs, parents, bare, 0)
            }
        },
        None => match outer_name(name) {
            Some(class) => spec_resolve_method(files, subs, class, inner_name(name)),
            None => spec_resolve_method(files, subs, package, name),
        },
    }
}

/// Whether the class has a destructor anywhere in its linearisation.
pub open spec fn spec_has_destructor(files: Seq<FileEntry>, subs: Seq<SubDecl>, package: Seq<char>) -> bool {
    let lin = spec_linearise(files, package);
    exists|i: int| 0 <= i < lin.len() && sub_at(subs, #[trigger] lin[i], "DESTROY"@, 0) is Some
}

/// Every attribute the facts declare, in order.
pub open spec fn facts_attributes(fs: Seq<PackageFacts>) -> Seq<AttributeDecl>
    decreases fs.len(),
{
    if fs.len() == 0 {
        Seq::empty()
    } else {
        facts_attributes(fs.drop_last()) + fs.last().attributes@
    }
}

pub open spec fn lin_attributes(files: Seq<FileEntry>, lin: Seq<Seq<char>>) -> Seq<AttributeDecl>
    decreases lin.len(),
{
    if lin.len() == 0 {
        Seq::empty()
    } else {
        lin_attributes(files, lin.drop_last()) + facts_attributes(spec_facts(files, lin.last()))
    }
}

pub open spec fn deref_attributes<'a>(s: Seq<&'a AttributeDecl>) -> Seq<AttributeDecl> {
    s.map_values(|a: &'a AttributeDecl| *a)
}

/// Whether every module the class or its ancestors use was read, is a
/// recognised declaration module, or is a pragma.
pub open spec fn spec_closed_world(files: Seq<FileEntry>, package: Seq<char>) -> bool {
    let lin = spec_linearise(files, package);
    forall|i: int, f: int, m: int|
        0 <= i < lin.len() && 0 <= f < spec_facts(files, lin[i]).len() && 0 <= m < spec_facts(
            files,
            lin[i],
        )[f].uses@.len() ==> module_accounted(files, #[trigger] spec_facts(files, lin[i])[f].uses@[m]@)
}

pub open spec fn module_accounted(files: Seq<FileEntry>, module: Seq<char>) -> bool {
    !(module.len() > 0 && crate::resolve::is_ascii_upper(module[0])) || spec_is_recognised(module)
        || spec_knows_package(files, module)
}

/// What an accessor hands back: what its attribute declares, unless the
/// framework said nothing and a builder fills the slot, in which case what
/// the builder returns.
pub open spec fn spec_slot_type(
    files: Seq<FileEntry>,
    subs: Seq<SubDecl>,
    class: Seq<char>,
    attribute: AttributeDecl,
    method: Seq<char>,
) -> TypeV {
    let role = find_method(method_views(attribute.methods@), method, 0);
    let declared = match role {
        Some(r) => spec_role_returns(r, attribute.ty@),
        None => attribute.ty@,
    };
    let yields = match role {
        None => true,
        Some(r) => r == crate::annotate::AccessorRole::Reader || r == crate::annotate::AccessorRole::Writer,
    };
    if !(declared is Unknown) || !yields {
        declared
    } else {
        match attribute.builder {
            None => declared,
            Some(b) => match spec_resolve_method(files, subs, class, b@) {
                LookupV::Sub(symbol) => symbol.returns.scalar@,
                _ => declared,
            },
        }
    }
}

impl Program {
    /// What `$obj->name` resolves to, asked from the package `from`.
    #[verifier::loop_isolation(false)]
    pub fn resolve_method_from(&self, package: &str, name: &str, from: &str) -> (r: MethodLookup<'_>)
        ensures
            lookup_view(r) == spec_resolve_method_from(self.files_view(), self.subs_view(), package@, name@, from@),
    {
        if crate::text::starts_with(name, "SUPER::") {
            let c = crate::text::chars_of(name);
            let k = "SUPER::".unicode_len();
            let bare = crate::text::string_of(&c, k, c.len());
            let facts = self.facts(from);
            let ghost fs = deref_facts(facts@);
            let mut parents: Vec<String> = Vec::new();
            let mut i: usize = 0;
            assert(strings_view(parents@) =~= facts_isa(fs.subrange(0, 0)));
            while i < facts.len()
                invariant
                    i <= facts@.len(),
                    fs == deref_facts(facts@),
                    strings_view(parents@) == facts_isa(fs.subrange(0, i as int)),
                decreases facts@.len() - i,
            {
                let f = facts[i];
                let ghost before = strings_view(parents@);
                proof {
                    assert(fs.subrange(0, i + 1).drop_last() =~= fs.subrange(0, i as int));
                    assert(fs.subrange(0, i + 1).last() == *f);
                }
                let mut j: usize = 0;
                assert(before + strings_view(f.isa@).subrange(0, 0) =~= before);
                while j < f.isa.len()
                    invariant
                        j <= f.isa@.len(),
                        strings_view(parents@) == before + strings_view(f.isa@).subrange(0, j as int),
                    decreases f.isa@.len() - j,
                {
                    let ghost v = strings_view(parents@);
                    parents.push(f.isa[j].clone());
                    assert(strings_view(parents@) =~= v.push(f.isa@[j as int]@));
                    assert(strings_view(f.isa@).subrange(0, j + 1) =~= strings_view(f.isa@).subrange(0, j as int).push(
                        f.isa@[j as int]@,
                    ));
                    j += 1;
                }
                assert(strings_view(f.isa@).subrange(0, f.isa@.len() as int) =~= strings_view(f.isa@));
                i += 1;
            }
            assert(fs.subrange(0, facts@.len() as int) =~= fs);
            if parents.len() == 0 {
                return MethodLookup::Unknown;
            }
            let ghost pv = strings_view(parents@);
            let mut i: usize = 0;
            while i < parents.len()
                invariant
                    i <= parents@.len(),
                    pv == strings_view(parents@),
                    first_found(self.files@, self.subs@, pv, bare@, 0) == first_found(self.files@, self.subs@, pv, bare@, i as int),
                decreases parents@.len() - i,
            {
                assert(pv[i as int] == parents@[i as int]@);
                let found = self.resolve_method(parents[i].as_str(), bare.as_str());
                match found {
                    MethodLookup::Missing => {},
                    _ => return found,
                }
                i += 1;
            }
            return MethodLookup::Missing;
        }
        match split_qualified(name) {
            Some((class, bare)) => self.resolve_method(class.as_str(), bare.as_str()),
            None => self.resolve_method(package, name),
        }
    }

    /// Whether `descendant` is `ancestor`, or has it above it.
    pub fn isa(&self, descendant: &str, ancestor: &str) -> (r: bool)
        ensures
            r == spec_linearise(self.files_view(), descendant@).contains(ancestor@),
    {
        let lin = self.linearise(descendant);
        holds_name(&lin, ancestor)
    }

    /// Whether a class has a destructor, and so whether holding one of its
    /// values is a thing done for its own sake.
    pub fn has_destructor(&self, package: &str) -> (r: bool)
        ensures
            r == spec_has_destructor(self.files_view(), self.subs_view(), package@),
    {
        let lin = self.linearise(package);
        let ghost lv = strings_view(lin@);
        let mut i: usize = 0;
        while i < lin.len()
            invariant
                i <= lin@.len(),
                lv == strings_view(lin@),
                lv == spec_linearise(self.files@, package@),
                forall|k: int| 0 <= k < i ==> sub_at(self.subs@, #[trigger] lv[k], "DESTROY"@, 0) is None,
            decreases lin@.len() - i,
        {
            assert(lv[i as int] == lin@[i as int]@);
            if self.sub(lin[i].as_str(), "DESTROY").is_some() {
                return true;
            }
            i += 1;
        }
        false
    }

    /// Every attribute a package declares, its ancestors' included.
    pub fn attributes(&self, package: &str) -> (r: Vec<&AttributeDecl>)
        ensures
            deref_attributes(r@) == lin_attributes(self.files_view(), spec_linearise(self.files_view(), package@)),
    {
        let lin = self.linearise(package);
        let ghost lv = strings_view(lin@);
        let mut out: Vec<&AttributeDecl> = Vec::new();
        let mut i: usize = 0;
        assert(lv.subrange(0, 0) =~= Seq::<Seq<char>>::empty());
        assert(deref_attributes(out@) =~= Seq::<AttributeDecl>::empty());
        while i < lin.len()
            invariant
                i <= lin@.len(),
                lv == strings_view(lin@),
                deref_attributes(out@) == lin_attributes(self.files@, lv.subrange(0, i as int)),
            decreases lin@.len() - i,
        {
            let facts = self.facts(lin[i].as_str());
            let ghost fs = deref_facts(facts@);
            let ghost before = deref_attributes(out@);
            proof {
                assert(lv.subrange(0, i + 1).drop_last() =~= lv.subrange(0, i as int));
                assert(lv.subrange(0, i + 1).last() == lin@[i as int]@);
            }
            let mut j: usize = 0;
            assert(before + facts_attributes(fs.subrange(0, 0)) =~= before);
            while j < facts.len()
                invariant
                    j <= facts@.len(),
                    fs == deref_facts(facts@),
                    deref_attributes(out@) == before + facts_attributes(fs.subrange(0, j as int)),
                decreases facts@.len() - j,
            {
                let f = facts[j];
                let ghost mid = deref_attributes(out@);
                proof {
                    assert(fs.subrange(0, j + 1).drop_last() =~= fs.subrange(0, j as int));
                    assert(fs.subrange(0, j + 1).last() == *f);
                }
                let mut a: usize = 0;
                assert(mid + f.attributes@.subrange(0, 0) =~= mid);
                while a < f.attributes.len()
                    invariant
                        a <= f.attributes@.len(),
                        deref_attributes(out@) == mid + f.attributes@.subrange(0, a as int),
                    decreases f.attributes@.len() - a,
                {
                    let ghost v = deref_attributes(out@);
                    out.push(&f.attributes[a]);
                    assert(deref_attributes(out@) =~= v.push(f.attributes@[a as int]));
                    assert(f.attributes@.subrange(0, a + 1) =~= f.attributes@.subrange(0, a as int).push(f.attributes@[a as int]));
                    a += 1;
                }
                assert(f.attributes@.subrange(0, f.attributes@.len() as int) =~= f.attributes@);
                assert(before + facts_attributes(fs.subrange(0, j + 1)) =~= before + facts_attributes(fs.subrange(0, j as int)) + f.attributes@);
                j += 1;
            }
            assert(fs.subrange(0, facts@.len() as int) =~= fs);
            i += 1;
        }
        assert(lv.subrange(0, lin@.len() as int) =~= lv);
        out
    }

    /// Whether everything that could have put a method into a class was
    /// read: a `use` the run never resolved is a hole in the method surface.
    #[verifier::loop_isolation(false)]
    pub fn closed_world(&self, package: &str) -> (r: bool)
        ensures
            r == spec_closed_world(self.files_view(), package@),
    {
        let lin = self.linearise(package);
        let ghost lv = strings_view(lin@);
        let mut i: usize = 0;
        while i < lin.len()
            invariant
                i <= lin@.len(),
                lv == strings_view(lin@),
                lv == spec_linearise(self.files@, package@),
                forall|k: int, f: int, m: int|
                    0 <= k < i && 0 <= f < spec_facts(self.files@, lv[k]).len() && 0 <= m < spec_facts(
                        self.files@,
                        lv[k],
                    )[f].uses@.len() ==> module_accounted(self.files@, #[trigger] spec_facts(self.files@, lv[k])[f].uses@[m]@),
            decreases lin@.len() - i,
        {
            assert(lv[i as int] == lin@[i as int]@);
            let facts = self.facts(lin[i].as_str());
            let ghost fs = deref_facts(facts@);
            let mut j: usize = 0;
            while j < facts.len()
                invariant
                    j <= facts@.len(),
                    fs == deref_facts(facts@),
                    i < lv.len(),
                    fs == spec_facts(self.files@, lv[i as int]),
                    forall|f: int, m: int|
                        0 <= f < j && 0 <= m < fs[f].uses@.len() ==> module_accounted(self.files@, #[trigger] fs[f].uses@[m]@),
                decreases facts@.len() - j,
            {
                let f = facts[j];
                assert(fs[j as int] == *f);
                let mut m: usize = 0;
                while m < f.uses.len()
                    invariant
                        m <= f.uses@.len(),
                        forall|q: int| 0 <= q < m ==> module_accounted(self.files@, (#[trigger] f.uses@[q])@),
                    decreases f.uses@.len() - m,
                {
                    let module = f.uses[m].as_str();
                    if !(!crate::resolve::Resolver::worth_resolving(module) || is_recognised(module) || self.knows_package(module)) {
                        assert(!module_accounted(self.files@, fs[j as int].uses@[m as int]@));
                        return false;
                    }
                    m += 1;
                }
                j += 1;
            }
            i += 1;
        }
        true
    }

    /// A named type a project's own `Type::Library` declares, the first
    /// declaration winning.
    #[verifier::loop_isolation(false)]
    pub fn named_type(&self, name: &str) -> (r: Option<&Type>)
        ensures
            match spec_named_type(self.files_view(), name@) {
                Some(t) => r matches Some(found) && *found == t,
                None => r is None,
            },
    {
        let mut i: usize = 0;
        while i < self.files.len()
            invariant
                i <= self.files@.len(),
                spec_named_type(self.files@, name@) == named_type_from(self.files@, name@, i as int),
            decreases self.files@.len() - i,
        {
            let facts = &self.files[i].decls.facts;
            let mut j: usize = 0;
            while j < facts.len()
                invariant
                    j <= facts@.len(),
                    i < self.files@.len(),
                    *facts == self.files@[i as int].decls.facts,
                    spec_named_type(self.files@, name@) == named_type_from(self.files@, name@, i as int),
                    named_type_in(facts@, name@, 0) == named_type_in(facts@, name@, j as int),
                decreases facts@.len() - j,
            {
                let types = &facts[j].types;
                let mut k: usize = 0;
                while k < types.len()
                    invariant
                        k <= types@.len(),
                        j < facts@.len(),
                        *types == facts@[j as int].types,
                        named_in_types(types@, name@, 0) == named_in_types(types@, name@, k as int),
                    decreases types@.len() - k,
                {
                    if same_text(types[k].name.as_str(), name) {
                        return Some(&types[k].ty);
                    }
                    k += 1;
                }
                j += 1;
            }
            i += 1;
        }
        None
    }
}

pub open spec fn named_in_types(types: Seq<crate::annotate::NamedType>, name: Seq<char>, k: int) -> Option<Type>
    decreases types.len() - k,
{
    if k < 0 || k >= types.len() {
        None
    } else if types[k].name@ == name {
        Some(types[k].ty)
    } else {
        named_in_types(types, name, k + 1)
    }
}

pub open spec fn named_type_in(facts: Seq<PackageFacts>, name: Seq<char>, j: int) -> Option<Type>
    decreases facts.len() - j,
{
    if j < 0 || j >= facts.len() {
        None
    } else {
        match named_in_types(facts[j].types@, name, 0) {
            Some(t) => Some(t),
            None => named_type_in(facts, name, j + 1),
        }
    }
}

pub open spec fn named_type_from(files: Seq<FileEntry>, name: Seq<char>, i: int) -> Option<Type>
    decreases files.len() - i,
{
    if i < 0 || i >= files.len() {
        None
    } else {
        match named_type_in(files[i].decls.facts@, name, 0) {
            Some(t) => Some(t),
            None => named_type_from(files, name, i + 1),
        }
    }
}

/// The first declaration of a named type across the run.
pub open spec fn spec_named_type(files: Seq<FileEntry>, name: Seq<char>) -> Option<Type> {
    named_type_from(files, name, 0)
}

// ===== Returns, as the rounds of inference read and write them =====

/// Which subs a round of return inference walks.
#[derive(Debug, Clone, Copy, PartialEq, Eq, Structural)]
pub enum Wanted {
    /// Nothing is yet known of the return.
    Unresolved,
    /// The return may be read off the body at all: not a written one.
    Inferable,
    /// The return was written down.
    Written,
}

pub open spec fn is_wanted(kind: Wanted, r: Returns) -> bool {
    let unresolved = r.scalar@ is Unknown && r.list@ is Unknown;
    match kind {
        Wanted::Unresolved => unresolved,
        Wanted::Inferable => r.inferred || unresolved,
        Wanted::Written => !r.inferred && !unresolved,
    }
}

/// The indices among the first `n` subs that a round walks: those wanted,
/// and never a `new` that says it constructs its own class, which is
/// answered where it is called.
pub open spec fn walk_indices(subs: Seq<SubDecl>, kind: Wanted, n: int) -> Seq<usize>
    decreases n,
{
    if n <= 0 || n > subs.len() {
        Seq::empty()
    } else if is_wanted(kind, subs[n - 1].returns) && !subs[n - 1].constructs_own_class {
        walk_indices(subs, kind, n - 1).push((n - 1) as usize)
    } else {
        walk_indices(subs, kind, n - 1)
    }
}

pub open spec fn spec_returns_to_walk(files: Seq<FileEntry>, file: usize, kind: Wanted) -> Seq<usize> {
    if file < files.len() {
        walk_indices(files[file as int].decls.subs@, kind, files[file as int].decls.subs@.len() as int)
    } else {
        Seq::empty()
    }
}

/// A sub's value with its return replaced.
pub open spec fn with_returns(v: SubV, r: Returns) -> SubV {
    SubV { scalar: r.scalar@, list: r.list@, inferred: r.inferred, invocant: r.invocant, ..v }
}

/// Every file's subs flattened, the first declaration of each name winning.
pub open spec fn flatten_files(files: Seq<FileEntry>) -> Seq<SubV>
    decreases files.len(),
{
    if files.len() == 0 {
        Seq::empty()
    } else {
        flatten(flatten_files(files.drop_last()), sub_views(files.last().decls.subs@))
    }
}

/// A file's declarations with nothing in them.
pub fn empty_decls() -> (d: FileDecls)
    ensures
        d.subs@.len() == 0,
        d.imports@.len() == 0,
        d.packages@.len() == 0,
        d.facts@.len() == 0,
        d.uses@.len() == 0,
        d.diagnostics@.len() == 0,
        d.annotations@.len() == 0,
{
    FileDecls {
        subs: Vec::new(),
        imports: Vec::new(),
        packages: Vec::new(),
        facts: Vec::new(),
        uses: Vec::new(),
        diagnostics: Vec::new(),
        annotations: Vec::new(),
    }
}

fn set_returns_in(subs: &mut Vec<SubDecl>, index: usize, value: &Returns)
    requires
        index < old(subs)@.len(),
    ensures
        sub_views(final(subs)@) == sub_views(old(subs)@).update(index as int, with_returns(sub_view(old(subs)@[index as int]), *value)),
{
    let ghost prior = subs@;
    let mut symbol = subs.remove(index);
    symbol.returns = value.clone();
    subs.insert(index, symbol);
    assert(subs@ =~= prior.update(index as int, symbol));
    assert(sub_views(subs@) =~= sub_views(prior).update(index as int, with_returns(sub_view(prior[index as int]), *value)));
}

impl Program {
    /// The subs of a file that a round of return inference walks.
    pub fn returns_to_walk(&self, file: usize, kind: Wanted) -> (r: Vec<usize>)
        ensures
            r@ == spec_returns_to_walk(self.files_view(), file, kind),
    {
        let mut out: Vec<usize> = Vec::new();
        if file >= self.files.len() {
            return out;
        }
        let subs = &self.files[file].decls.subs;
        let mut i: usize = 0;
        while i < subs.len()
            invariant
                i <= subs@.len(),
                out@ == walk_indices(subs@, kind, i as int),
            decreases subs@.len() - i,
        {
            let held = &subs[i].returns;
            let unresolved = held.is_unresolved();
            let wanted = match kind {
                Wanted::Unresolved => unresolved,
                Wanted::Inferable => held.inferred || unresolved,
                Wanted::Written => !held.inferred && !unresolved,
            };
            if wanted && !subs[i].constructs_own_class {
                out.push(i);
            }
            i += 1;
        }
        out
    }

    /// Every sub in a file that nothing is yet known about the return of.
    pub fn unresolved_returns(&self, file: usize) -> (r: Vec<usize>)
        ensures
            r@ == spec_returns_to_walk(self.files_view(), file, Wanted::Unresolved),
    {
        self.returns_to_walk(file, Wanted::Unresolved)
    }

    /// Every sub in a file whose return the walk may read at all.
    pub fn inferable_returns(&self, file: usize) -> (r: Vec<usize>)
        ensures
            r@ == spec_returns_to_walk(self.files_view(), file, Wanted::Inferable),
    {
        self.returns_to_walk(file, Wanted::Inferable)
    }

    /// Every sub in a file whose `Returns:` was written down.
    pub fn written_returns(&self, file: usize) -> (r: Vec<usize>)
        ensures
            r@ == spec_returns_to_walk(self.files_view(), file, Wanted::Written),
    {
        self.returns_to_walk(file, Wanted::Written)
    }

    /// What the graph holds for one sub's return; nothing known where there
    /// is no such sub.
    pub fn returns_at(&self, file: usize, index: usize) -> (r: Returns)
        ensures
            if file < self.files_view().len() && index < self.files_view()[file as int].decls.subs@.len() {
                let s = self.files_view()[file as int].decls.subs@[index as int];
                r.scalar@ == s.returns.scalar@ && r.list@ == s.returns.list@ && r.inferred == s.returns.inferred
                    && r.invocant == s.returns.invocant
            } else {
                r.scalar@ is Unknown && r.list@ is Unknown && !r.inferred && !r.invocant
            },
    {
        if file < self.files.len() && index < self.files[file].decls.subs.len() {
            self.files[file].decls.subs[index].returns.clone()
        } else {
            Returns::default()
        }
    }

    /// Install a return read off a body: into the file's own declarations,
    /// and into the flattened copy where the first declaration of the name
    /// is this file's.
    #[verifier::loop_isolation(false)]
    pub fn set_returns(&mut self, file: usize, index: usize, value: Returns)
        ensures
            final(self).dialect_view() == old(self).dialect_view(),
            final(self).files_view().len() == old(self).files_view().len(),
            if file < old(self).files_view().len() && index < old(self).files_view()[file as int].decls.subs@.len() {
                let f = old(self).files_view()[file as int];
                let g = final(self).files_view()[file as int];
                let symbol = f.decls.subs@[index as int];
                &&& forall|k: int|
                    0 <= k < old(self).files_view().len() && k != file ==> #[trigger] final(self).files_view()[k]
                        == old(self).files_view()[k]
                &&& g.path == f.path && g.in_roots == f.in_roots
                &&& g.decls.imports == f.decls.imports && g.decls.packages == f.decls.packages
                &&& g.decls.facts == f.decls.facts && g.decls.uses == f.decls.uses
                &&& g.decls.diagnostics == f.decls.diagnostics && g.decls.annotations == f.decls.annotations
                &&& sub_views(g.decls.subs@) == sub_views(f.decls.subs@).update(
                    index as int,
                    with_returns(sub_view(symbol), value),
                )
                &&& match sub_at(old(self).subs_view(), symbol.package@, symbol.name@, 0) {
                    Some(j) => if old(self).subs_view()[j].file == file {
                        sub_views(final(self).subs_view()) == sub_views(old(self).subs_view()).update(
                            j,
                            with_returns(sub_view(old(self).subs_view()[j]), value),
                        )
                    } else {
                        final(self).subs_view() == old(self).subs_view()
                    },
                    None => final(self).subs_view() == old(self).subs_view(),
                }
            } else {
                final(self).files_view() == old(self).files_view() && final(self).subs_view() == old(self).subs_view()
            },
    {
        if file >= self.files.len() || index >= self.files[file].decls.subs.len() {
            return;
        }
        let ghost prior = self.files@;
        let mut entry = self.files.remove(file);
        let package = entry.decls.subs[index].package.clone();
        let name = entry.decls.subs[index].name.clone();
        set_returns_in(&mut entry.decls.subs, index, &value);
        self.files.insert(file, entry);
        assert(self.files@ =~= prior.update(file as int, entry));
        let ghost files_after = self.files@;
        let mut j: usize = 0;
        while j < self.subs.len()
            invariant
                j <= self.subs@.len(),
                self.subs@ == old(self).subs@,
                self.files@ == files_after,
                self.dialect == old(self).dialect,
                package@ == old(self).files@[file as int].decls.subs@[index as int].package@,
                name@ == old(self).files@[file as int].decls.subs@[index as int].name@,
                sub_at(self.subs@, package@, name@, 0) == sub_at(self.subs@, package@, name@, j as int),
            decreases self.subs@.len() - j,
        {
            if same_text(self.subs[j].package.as_str(), package.as_str()) && same_text(self.subs[j].name.as_str(), name.as_str()) {
                if self.subs[j].file == file {
                    set_returns_in(&mut self.subs, j, &value);
                }
                return;
            }
            j += 1;
        }
    }

    /// Take one file's declarations back out of the graph, leaving it with
    /// none.
    pub fn take_decls(&mut self, file: usize) -> (r: FileDecls)
        ensures
            final(self).subs_view() == old(self).subs_view(),
            final(self).dialect_view() == old(self).dialect_view(),
            final(self).files_view().len() == old(self).files_view().len(),
            if file < old(self).files_view().len() {
                let g = final(self).files_view()[file as int];
                &&& r == old(self).files_view()[file as int].decls
                &&& g.path == old(self).files_view()[file as int].path
                &&& g.in_roots == old(self).files_view()[file as int].in_roots
                &&& g.decls.subs@.len() == 0 && g.decls.imports@.len() == 0 && g.decls.packages@.len() == 0
                &&& g.decls.facts@.len() == 0 && g.decls.uses@.len() == 0 && g.decls.diagnostics@.len() == 0
                &&& g.decls.annotations@.len() == 0
                &&& forall|k: int|
                    0 <= k < old(self).files_view().len() && k != file ==> #[trigger] final(self).files_view()[k]
                        == old(self).files_view()[k]
            } else {
                &&& final(self).files_view() == old(self).files_view()
                &&& r.subs@.len() == 0 && r.imports@.len() == 0 && r.packages@.len() == 0 && r.facts@.len() == 0
                &&& r.uses@.len() == 0 && r.diagnostics@.len() == 0 && r.annotations@.len() == 0
            },
    {
        if file >= self.files.len() {
            return empty_decls();
        }
        let ghost prior = self.files@;
        let entry = self.files.remove(file);
        let FileEntry { path, decls, in_roots } = entry;
        self.files.insert(file, FileEntry { path, decls: empty_decls(), in_roots });
        assert forall|k: int| 0 <= k < prior.len() && k != file implies #[trigger] self.files@[k] == prior[k] by {
            if k < file {
                assert(self.files@[k] == prior.remove(file as int)[k]);
            } else {
                assert(self.files@[k] == prior.remove(file as int)[k - 1]);
            }
        }
        decls
    }

    /// Rebuild the flattened subs from the files, which are the truth.
    fn reindex(&mut self)
        ensures
            final(self).files_view() == old(self).files_view(),
            final(self).dialect_view() == old(self).dialect_view(),
            sub_views(final(self).subs_view()) == flatten_files(old(self).files_view()),
    {
        self.subs = Vec::new();
        let mut i: usize = 0;
        assert(self.files@.subrange(0, 0) =~= Seq::<FileEntry>::empty());
        assert(sub_views(self.subs@) =~= Seq::<SubV>::empty());
        while i < self.files.len()
            invariant
                i <= self.files@.len(),
                self.files@ == old(self).files@,
                self.dialect == old(self).dialect,
                sub_views(self.subs@) == flatten_files(self.files@.subrange(0, i as int)),
            decreases self.files@.len() - i,
        {
            let ghost flat0 = sub_views(self.subs@);
            let ghost given = sub_views(self.files@[i as int].decls.subs@);
            let mut k: usize = 0;
            assert(given.subrange(0, 0) =~= Seq::<SubV>::empty());
            while k < self.files[i].decls.subs.len()
                invariant
                    i < self.files@.len(),
                    k <= self.files@[i as int].decls.subs@.len(),
                    self.files@ == old(self).files@,
                    self.dialect == old(self).dialect,
                    given == sub_views(self.files@[i as int].decls.subs@),
                    sub_views(self.subs@) == flatten(flat0, given.subrange(0, k as int)),
                decreases self.files@[i as int].decls.subs@.len() - k,
            {
                let ghost flat = sub_views(self.subs@);
                proof {
                    assert(given.subrange(0, k + 1).drop_last() =~= given.subrange(0, k as int));
                    assert(given.subrange(0, k + 1).last() == sub_view(self.files@[i as int].decls.subs@[k as int]));
                    lemma_sub_at(
                        self.subs@,
                        self.files@[i as int].decls.subs@[k as int].package@,
                        self.files@[i as int].decls.subs@[k as int].name@,
                        0,
                    );
                }
                let found = self.sub(self.files[i].decls.subs[k].package.as_str(), self.files[i].decls.subs[k].name.as_str()).is_some();
                if found {
                    proof {
                        let s = self.files@[i as int].decls.subs@[k as int];
                        let j = sub_at(self.subs@, s.package@, s.name@, 0)->Some_0;
                        assert(flat[j].package == sub_view(s).package && flat[j].name == sub_view(s).name);
                    }
                } else {
                    proof {
                        let s = self.files@[i as int].decls.subs@[k as int];
                        assert forall|j: int| 0 <= j < flat.len() implies !(flat[j].package == sub_view(s).package
                            && flat[j].name == sub_view(s).name) by {
                            assert(flat[j] == sub_view(self.subs@[j]));
                        }
                    }
                    let copy = duplicate_sub(&self.files[i].decls.subs[k]);
                    self.subs.push(copy);
                    assert(sub_views(self.subs@) =~= flat.push(sub_view(self.files@[i as int].decls.subs@[k as int])));
                }
                k += 1;
            }
            proof {
                assert(given.subrange(0, given.len() as int) =~= given);
                assert(self.files@.subrange(0, i + 1).drop_last() =~= self.files@.subrange(0, i as int));
            }
            i += 1;
        }
        assert(self.files@.subrange(0, self.files@.len() as int) =~= self.files@);
    }

    /// Install a file's declarations over the ones the graph holds, and
    /// rebuild what was indexed from them; a path the graph does not hold is
    /// added instead.
    pub fn replace(&mut self, path: &str, decls: FileDecls, in_roots: bool) -> (index: usize)
        ensures
            final(self).dialect_view() == old(self).dialect_view(),
            match first_path(old(self).files_view(), path@, 0) {
                Some(i) => {
                    let files = final(self).files_view();
                    &&& index == i
                    &&& files.len() == old(self).files_view().len()
                    &&& forall|k: int| 0 <= k < files.len() && k != i ==> #[trigger] files[k] == old(self).files_view()[k]
                    &&& files[i].path == old(self).files_view()[i].path
                    &&& files[i].in_roots == in_roots
                    &&& sub_views(files[i].decls.subs@) == in_file(sub_views(decls.subs@), index)
                    &&& files[i].decls.imports == decls.imports
                    &&& files[i].decls.packages == decls.packages
                    &&& files[i].decls.facts == decls.facts
                    &&& files[i].decls.uses == decls.uses
                    &&& files[i].decls.diagnostics == decls.diagnostics
                    &&& files[i].decls.annotations == decls.annotations
                    &&& sub_views(final(self).subs_view()) == flatten_files(files)
                },
                None => {
                    let files = final(self).files_view();
                    &&& index == old(self).files_view().len()
                    &&& files.len() == index + 1
                    &&& files.subrange(0, index as int) == old(self).files_view()
                    &&& files[index as int].path@ == path@
                    &&& files[index as int].in_roots == in_roots
                    &&& sub_views(files[index as int].decls.subs@) == in_file(sub_views(decls.subs@), index)
                    &&& sub_views(final(self).subs_view()) == flatten(
                        sub_views(old(self).subs_view()),
                        in_file(sub_views(decls.subs@), index),
                    )
                },
            },
    {
        let index = match self.index_of(path) {
            Some(i) => i,
            None => return self.add(path, decls, in_roots),
        };
        let mut decls = decls;
        mark_file(&mut decls.subs, index);
        let ghost prior = self.files@;
        let entry = self.files.remove(index);
        let FileEntry { path: kept, decls: _, in_roots: _ } = entry;
        self.files.insert(index, FileEntry { path: kept, decls, in_roots });
        assert forall|k: int| 0 <= k < prior.len() && k != index implies #[trigger] self.files@[k] == prior[k] by {
            if k < index {
                assert(self.files@[k] == prior.remove(index as int)[k]);
            } else {
                assert(self.files@[k] == prior.remove(index as int)[k - 1]);
            }
        }
        self.reindex();
        index
    }

    /// What a bareword call in a file at an offset names: a qualified name
    /// says where to look; otherwise the package in effect, unless the name is
    /// a builtin, which only an import can override; then the import.
    #[verifier::loop_isolation(false)]
    pub fn resolve_call(&self, file: usize, offset: u32, name: &str, builtin: bool) -> (r: Option<&SubDecl>)
        ensures
            match spec_resolve_call(self.files_view(), self.subs_view(), file, offset, name@, builtin) {
                Some(x) => r matches Some(s) && *s == x,
                None => r is None,
            },
    {
        match split_qualified(name) {
            Some((package, bare)) => return self.sub_in(file, package.as_str(), bare.as_str()),
            None => {},
        }
        if file >= self.files.len() {
            return None;
        }
        let entry = &self.files[file];
        if !builtin {
            match self.sub_in(file, entry.decls.package_at(offset), name) {
                Some(symbol) => return Some(symbol),
                None => {},
            }
        }
        let imports = &entry.decls.imports;
        let mut i: usize = 0;
        while i < imports.len()
            invariant
                i <= imports@.len(),
                crate::declare::import_at(crate::declare::call_views(imports@), name@, 0) == crate::declare::import_at(
                    crate::declare::call_views(imports@),
                    name@,
                    i as int,
                ),
            decreases imports@.len() - i,
        {
            if same_text(imports[i].0.as_str(), name) {
                assert(crate::declare::call_views(imports@)[i as int].0 == name@);
                return self.sub(imports[i].1.as_str(), name);
            }
            i += 1;
        }
        None
    }
}

/// The sub `package::name` as file `file` declares it, or as the run does.
pub open spec fn spec_sub_in(files: Seq<FileEntry>, subs: Seq<SubDecl>, file: usize, package: Seq<char>, name: Seq<char>) -> Option<SubDecl> {
    let own = if file < files.len() {
        sub_at(files[file as int].decls.subs@, package, name, 0)
    } else {
        None
    };
    match own {
        Some(i) => Some(files[file as int].decls.subs@[i]),
        None => match sub_at(subs, package, name, 0) {
            Some(i) => Some(subs[i]),
            None => None,
        },
    }
}

/// The package in effect at an offset of a file.
pub open spec fn spec_package_at(d: FileDecls, offset: u32) -> Seq<char> {
    let k = crate::decl::packages_before(d.packages@, offset, 0);
    if k == 0 {
        "main"@
    } else {
        d.packages@[k - 1].1@
    }
}

pub open spec fn spec_resolve_call(
    files: Seq<FileEntry>,
    subs: Seq<SubDecl>,
    file: usize,
    offset: u32,
    name: Seq<char>,
    builtin: bool,
) -> Option<SubDecl> {
    match outer_name(name) {
        Some(package) => spec_sub_in(files, subs, file, package, inner_name(name)),
        None => if file >= files.len() {
            None
        } else {
            let d = files[file as int].decls;
            let own = if builtin {
                None
            } else {
                spec_sub_in(files, subs, file, spec_package_at(d, offset), name)
            };
            match own {
                Some(s) => Some(s),
                None => match crate::declare::import_at(crate::declare::call_views(d.imports@), name, 0) {
                    Some(i) => match sub_at(subs, d.imports@[i].1@, name, 0) {
                        Some(j) => Some(subs[j]),
                        None => None,
                    },
                    None => None,
                },
            }
        },
    }
}

impl Program {
    /// What an accessor hands back, asking the builder where the framework
    /// itself said nothing. Resolved from the invocant's class, so a
    /// subclass that overrides the builder builds the slot.
    pub fn slot_type(&self, class: &str, attribute: &AttributeDecl, method: &str) -> (r: Type)
        ensures
            r@ == spec_slot_type(self.files_view(), self.subs_view(), class@, *attribute, method@),
    {
        let declared = attribute.result_type(method);
        if !declared.is_unknown() || !attribute.yields_the_slot(method) {
            return declared;
        }
        match &attribute.builder {
            None => declared,
            Some(builder) => match self.resolve_method(class, builder.as_str()) {
                MethodLookup::Sub(symbol) => symbol.returns.scalar.duplicate(),
                _ => declared,
            },
        }
    }
}

// ===== Laws of the program graph =====

/// A flattened list whose entries each name a different `package::name`.
pub open spec fn names_distinct(flat: Seq<SubV>) -> bool {
    forall|a: int, b: int|
        0 <= a < flat.len() && 0 <= b < flat.len() && a != b ==> !(#[trigger] flat[a].package == #[trigger] flat[b].package
            && flat[a].name == flat[b].name)
}

/// Folding declarations into the name index keeps every entry it held, in
/// place: the first declaration of a name wins.
pub proof fn law_the_first_declaration_of_a_name_is_kept(flat: Seq<SubV>, ss: Seq<SubV>)
    ensures
        flatten(flat, ss).len() >= flat.len(),
        forall|j: int| 0 <= j < flat.len() ==> #[trigger] flatten(flat, ss)[j] == flat[j],
    decreases ss.len(),
{
    if ss.len() > 0 {
        law_the_first_declaration_of_a_name_is_kept(flat, ss.drop_last());
    }
}

/// After declarations are folded in, every name they declare can be found.
pub proof fn law_an_added_declaration_can_be_found(flat: Seq<SubV>, ss: Seq<SubV>, k: int)
    requires
        0 <= k < ss.len(),
    ensures
        exists|j: int|
            0 <= j < flatten(flat, ss).len() && (#[trigger] flatten(flat, ss)[j]).package == ss[k].package
                && flatten(flat, ss)[j].name == ss[k].name,
    decreases ss.len(),
{
    let prior = flatten(flat, ss.drop_last());
    assert(flatten(flat, ss) == flatten_one(prior, ss.last()));
    if k < ss.len() - 1 {
        law_an_added_declaration_can_be_found(flat, ss.drop_last(), k);
        let j = choose|j: int|
            0 <= j < prior.len() && (#[trigger] prior[j]).package == ss.drop_last()[k].package && prior[j].name
                == ss.drop_last()[k].name;
        assert(flatten(flat, ss)[j] == prior[j]);
    } else {
        if exists|i: int| 0 <= i < prior.len() && prior[i].package == ss.last().package && prior[i].name == ss.last().name {
            let i = choose|i: int| 0 <= i < prior.len() && prior[i].package == ss.last().package && prior[i].name == ss.last().name;
            assert(flatten(flat, ss)[i] == prior[i]);
        } else {
            assert(flatten(flat, ss)[prior.len() as int] == ss.last());
        }
    }
}

/// The name index never holds two declarations of one name.
pub proof fn law_the_name_index_holds_each_name_once(flat: Seq<SubV>, ss: Seq<SubV>)
    requires
        names_distinct(flat),
    ensures
        names_distinct(flatten(flat, ss)),
    decreases ss.len(),
{
    if ss.len() > 0 {
        law_the_name_index_holds_each_name_once(flat, ss.drop_last());
        let prior = flatten(flat, ss.drop_last());
        let s = ss.last();
        if !(exists|i: int| 0 <= i < prior.len() && prior[i].package == s.package && prior[i].name == s.name) {
            let next = prior.push(s);
            assert forall|a: int, b: int|
                0 <= a < next.len() && 0 <= b < next.len() && a != b implies !(#[trigger] next[a].package
                == #[trigger] next[b].package && next[a].name == next[b].name) by {
                if a == prior.len() {
                    assert(next[b] == prior[b]);
                } else if b == prior.len() {
                    assert(next[a] == prior[a]);
                } else {
                    assert(next[a] == prior[a] && next[b] == prior[b]);
                }
            }
        }
    }
}

/// A class's own sub answers for it before anything it inherits does.
pub proof fn law_a_class_answers_before_its_ancestors(
    files: Seq<FileEntry>,
    subs: Seq<SubDecl>,
    package: Seq<char>,
    name: Seq<char>,
    j: int,
)
    requires
        sub_at(subs, package, name, 0) == Some(j),
        !is_universal(name),
    ensures
        spec_resolve_method(files, subs, package, name) == LookupV::Sub(subs[j]),
{
    law_a_class_comes_first_in_its_linearisation(files, package);
}

/// `UNIVERSAL`'s methods are there on every class.
pub proof fn law_universal_methods_are_always_there(
    files: Seq<FileEntry>,
    subs: Seq<SubDecl>,
    package: Seq<char>,
    name: Seq<char>,
)
    requires
        is_universal(name),
    ensures
        spec_resolve_method(files, subs, package, name) == LookupV::Universal,
{
}

/// "No such method" is said only of a class whose method set is closed.
pub proof fn law_missing_is_said_only_of_a_closed_class(
    files: Seq<FileEntry>,
    subs: Seq<SubDecl>,
    package: Seq<char>,
    name: Seq<char>,
)
    requires
        spec_resolve_method(files, subs, package, name) == LookupV::Missing,
    ensures
        !spec_has_unknown_ancestor(files, subs, package),
{
    let lin = spec_linearise(files, package);
    lemma_lin_answer_not_missing(files, subs, lin, name, 0);
    lemma_lin_uses_answer_not_missing(files, subs, lin, name, 0);
}

proof fn lemma_lin_answer_not_missing(files: Seq<FileEntry>, subs: Seq<SubDecl>, lin: Seq<Seq<char>>, name: Seq<char>, i: int)
    ensures
        !(lin_answer(files, subs, lin, name, i) == Some(LookupV::Missing)),
    decreases lin.len() - i,
{
    if 0 <= i < lin.len() {
        lemma_facts_seq_answer_not_missing(spec_facts(files, lin[i]), name, 0);
        lemma_lin_answer_not_missing(files, subs, lin, name, i + 1);
    }
}

proof fn lemma_facts_seq_answer_not_missing(fs: Seq<PackageFacts>, name: Seq<char>, i: int)
    ensures
        !(facts_seq_answer(fs, name, i) == Some(LookupV::Missing)),
    decreases fs.len() - i,
{
    if 0 <= i < fs.len() {
        lemma_facts_seq_answer_not_missing(fs, name, i + 1);
    }
}

proof fn lemma_lin_uses_answer_not_missing(files: Seq<FileEntry>, subs: Seq<SubDecl>, lin: Seq<Seq<char>>, name: Seq<char>, i: int)
    ensures
        !(lin_uses_answer(files, subs, lin, name, i) == Some(LookupV::Missing)),
    decreases lin.len() - i,
{
    if 0 <= i < lin.len() {
        lemma_facts_uses_answer_not_missing(files, subs, spec_facts(files, lin[i]), name, 0);
        lemma_lin_uses_answer_not_missing(files, subs, lin, name, i + 1);
    }
}

proof fn lemma_facts_uses_answer_not_missing(files: Seq<FileEntry>, subs: Seq<SubDecl>, fs: Seq<PackageFacts>, name: Seq<char>, i: int)
    ensures
        !(facts_uses_answer(files, subs, fs, name, i) == Some(LookupV::Missing)),
    decreases fs.len() - i,
{
    if 0 <= i < fs.len() {
        lemma_uses_answer_not_missing(files, subs, fs[i].uses@, name, 0);
        lemma_facts_uses_answer_not_missing(files, subs, fs, name, i + 1);
    }
}

proof fn lemma_uses_answer_not_missing(files: Seq<FileEntry>, subs: Seq<SubDecl>, uses: Seq<String>, name: Seq<char>, i: int)
    ensures
        !(uses_answer(files, subs, uses, name, i) == Some(LookupV::Missing)),
    decreases uses.len() - i,
{
    if 0 <= i < uses.len() {
        lemma_uses_answer_not_missing(files, subs, uses, name, i + 1);
    }
}

/// Every class is one of itself.
pub proof fn law_isa_is_reflexive(files: Seq<FileEntry>, package: Seq<char>)
    ensures
        spec_linearise(files, package).contains(package),
{
    law_a_class_comes_first_in_its_linearisation(files, package);
    assert(spec_linearise(files, package)[0] == package);
}

/// A class is one of whatever its ancestors are.
pub proof fn law_isa_is_transitive(files: Seq<FileEntry>, a: Seq<char>, b: Seq<char>, c: Seq<char>)
    requires
        spec_linearise(files, a).contains(b),
        spec_linearise(files, b).contains(c),
    ensures
        spec_linearise(files, a).contains(c),
{
    let lb = spec_linearise(files, b);
    let k = choose|k: int| 0 <= k < lb.len() && lb[k] == c;
    lemma_ancestors_carry_over(files, a, b, k);
}

proof fn lemma_ancestors_carry_over(files: Seq<FileEntry>, a: Seq<char>, b: Seq<char>, k: int)
    requires
        spec_linearise(files, a).contains(b),
        0 <= k < spec_linearise(files, b).len(),
    ensures
        spec_linearise(files, a).contains(spec_linearise(files, b)[k]),
    decreases k,
{
    let lb = spec_linearise(files, b);
    if k == 0 {
        law_a_class_comes_first_in_its_linearisation(files, b);
    } else {
        law_a_linearisation_holds_only_ancestors(files, b, k);
        let j = choose|j: int| 0 <= j < k && spec_parents(files, lb[j]).contains(#[trigger] lb[k]);
        lemma_ancestors_carry_over(files, a, b, j);
        law_a_linearisation_holds_every_ancestor(files, a, lb[j], lb[k]);
    }
}

// ===== Named types =====

/// A type with the run's named types put in for their names.
pub open spec fn link(t: TypeV, lib: Seq<(Seq<char>, TypeV)>) -> TypeV {
    crate::types::spec_substituted(t, lib, crate::types::SUBSTITUTION_DEPTH as nat)
}

pub open spec fn link_param_views(ps: Seq<(Seq<char>, bool, TypeV)>, lib: Seq<(Seq<char>, TypeV)>) -> Seq<(Seq<char>, bool, TypeV)> {
    ps.map_values(|p: (Seq<char>, bool, TypeV)| (p.0, p.1, link(p.2, lib)))
}

pub open spec fn link_params(p: ParamsV, lib: Seq<(Seq<char>, TypeV)>) -> ParamsV {
    match p {
        ParamsV::Unknown => ParamsV::Unknown,
        ParamsV::Positional { params, slurpy, invocant, source } => ParamsV::Positional {
            params: link_param_views(params, lib),
            slurpy,
            invocant,
            source,
        },
        ParamsV::Named { params, invocant, source } => ParamsV::Named { params: link_param_views(params, lib), invocant, source },
    }
}

/// A fixed list shape has every slot linked; the other shapes are left as
/// they are.
pub open spec fn link_shape(s: ShapeV, lib: Seq<(Seq<char>, TypeV)>) -> ShapeV {
    match s {
        ShapeV::Fixed(ts) => ShapeV::Fixed(ts.map_values(|t: TypeV| link(t, lib))),
        other => other,
    }
}

/// One sub's parameters and return, with the named types put in.
pub open spec fn link_subv(v: SubV, lib: Seq<(Seq<char>, TypeV)>) -> SubV {
    SubV { params: link_params(v.params, lib), scalar: link(v.scalar, lib), list: link_shape(v.list, lib), ..v }
}

pub open spec fn link_subvs(vs: Seq<SubV>, lib: Seq<(Seq<char>, TypeV)>) -> Seq<SubV> {
    vs.map_values(|v: SubV| link_subv(v, lib))
}

/// A package's attributes and named types, linked.
pub open spec fn link_factsv(f: crate::declare::FactsV, lib: Seq<(Seq<char>, TypeV)>) -> crate::declare::FactsV {
    crate::declare::FactsV {
        attributes: f.attributes.map_values(|a: crate::attributes::AttrV| crate::attributes::AttrV { ty: link(a.ty, lib), ..a }),
        types: f.types.map_values(|t: (Seq<char>, TypeV)| (t.0, link(t.1, lib))),
        ..f
    }
}

/// Every type the run's libraries declare, file by file, in order; the
/// first declaration of a name is the one a lookup finds.
pub open spec fn types_of_facts(fs: Seq<PackageFacts>) -> Seq<(Seq<char>, TypeV)>
    decreases fs.len(),
{
    if fs.len() == 0 {
        Seq::empty()
    } else {
        types_of_facts(fs.drop_last()) + crate::declare::named_type_views(fs.last().types@)
    }
}

pub open spec fn declared_library(files: Seq<FileEntry>) -> Seq<(Seq<char>, TypeV)>
    decreases files.len(),
{
    if files.len() == 0 {
        Seq::empty()
    } else {
        declared_library(files.drop_last()) + types_of_facts(files.last().decls.facts@)
    }
}

fn link_param_list(params: &Vec<crate::decl::Param>, lib: &Vec<(String, Type)>) -> (r: Vec<crate::decl::Param>)
    ensures
        param_views(r@) == link_param_views(param_views(params@), crate::types::library_view(lib@)),
{
    let ghost l = crate::types::library_view(lib@);
    let mut out: Vec<crate::decl::Param> = Vec::new();
    let mut i: usize = 0;
    while i < params.len()
        invariant
            i <= params@.len(),
            l == crate::types::library_view(lib@),
            param_views(out@) == link_param_views(param_views(params@), l).subrange(0, i as int),
        decreases params@.len() - i,
    {
        let p = &params[i];
        let ghost v = param_views(out@);
        out.push(crate::decl::Param { name: p.name.clone(), optional: p.optional, ty: p.ty.substituted(lib) });
        assert(param_views(out@) =~= v.push((p.name@, p.optional, link(p.ty@, l))));
        assert(link_param_views(param_views(params@), l)[i as int] == (p.name@, p.optional, link(p.ty@, l)));
        assert(param_views(out@) =~= link_param_views(param_views(params@), l).subrange(0, i + 1));
        i += 1;
    }
    assert(link_param_views(param_views(params@), l).subrange(0, params@.len() as int) =~= link_param_views(param_views(params@), l));
    out
}

fn link_type_list(types: &Vec<Type>, lib: &Vec<(String, Type)>) -> (r: Vec<Type>)
    ensures
        crate::types::views(r@) == crate::types::views(types@).map_values(|t: TypeV| link(t, crate::types::library_view(lib@))),
{
    let ghost l = crate::types::library_view(lib@);
    let ghost want = crate::types::views(types@).map_values(|t: TypeV| link(t, l));
    proof {
        crate::types::lemma_views(types@);
    }
    let mut out: Vec<Type> = Vec::new();
    let mut i: usize = 0;
    assert(crate::types::views(out@) =~= want.subrange(0, 0));
    while i < types.len()
        invariant
            i <= types@.len(),
            l == crate::types::library_view(lib@),
            want.len() == types@.len(),
            forall|k: int| 0 <= k < types@.len() ==> #[trigger] want[k] == link(types@[k]@, l),
            crate::types::views(out@) == want.subrange(0, i as int),
        decreases types@.len() - i,
    {
        let ghost prior = out@;
        let t = types[i].substituted(lib);
        out.push(t);
        proof {
            crate::types::lemma_views_push(prior, t);
            assert(out@ == prior.push(t));
        }
        assert(crate::types::views(out@) =~= want.subrange(0, i + 1));
        i += 1;
    }
    assert(want.subrange(0, types@.len() as int) =~= want);
    out
}

fn link_attribute_list(attributes: &mut Vec<AttributeDecl>, lib: &Vec<(String, Type)>)
    ensures
        crate::attributes::attr_views(final(attributes)@) == crate::attributes::attr_views(old(attributes)@).map_values(
            |x: crate::attributes::AttrV| crate::attributes::AttrV { ty: link(x.ty, crate::types::library_view(lib@)), ..x },
        ),
{
    let ghost l = crate::types::library_view(lib@);
    let ghost attrs0 = crate::attributes::attr_views(attributes@);
    let mut a: usize = 0;
    while a < attributes.len()
        invariant
            a <= attributes@.len(),
            attributes@.len() == attrs0.len(),
            attrs0 == crate::attributes::attr_views(old(attributes)@),
            l == crate::types::library_view(lib@),
            forall|k: int| 0 <= k < a ==> #[trigger] crate::attributes::attr_view(attributes@[k]) == (crate::attributes::AttrV { ty: link(attrs0[k].ty, l), ..attrs0[k] }),
            forall|k: int| a <= k < attributes@.len() ==> #[trigger] crate::attributes::attr_view(attributes@[k]) == attrs0[k],
        decreases attributes@.len() - a,
    {
        let ghost before = attributes@;
        assert(crate::attributes::attr_view(before[a as int]) == attrs0[a as int]);
        let mut one = attributes.remove(a);
        one.ty = one.ty.substituted(lib);
        attributes.insert(a, one);
        assert(attributes@ =~= before.update(a as int, one));
        a += 1;
    }
    assert forall|k: int| 0 <= k < attributes@.len() implies crate::attributes::attr_views(attributes@)[k] == attrs0.map_values(
        |x: crate::attributes::AttrV| crate::attributes::AttrV { ty: link(x.ty, l), ..x },
    )[k] by {
        assert(crate::attributes::attr_views(attributes@)[k] == crate::attributes::attr_view(attributes@[k]));
    }
    assert(crate::attributes::attr_views(attributes@) =~= attrs0.map_values(
        |x: crate::attributes::AttrV| crate::attributes::AttrV { ty: link(x.ty, l), ..x },
    ));
}

fn link_named_list(types: &mut Vec<crate::annotate::NamedType>, lib: &Vec<(String, Type)>)
    ensures
        crate::declare::named_type_views(final(types)@) == crate::declare::named_type_views(old(types)@).map_values(
            |x: (Seq<char>, TypeV)| (x.0, link(x.1, crate::types::library_view(lib@))),
        ),
{
    let ghost l = crate::types::library_view(lib@);
    let ghost types0 = crate::declare::named_type_views(types@);
    let mut t: usize = 0;
    while t < types.len()
        invariant
            t <= types@.len(),
            types@.len() == types0.len(),
            types0 == crate::declare::named_type_views(old(types)@),
            l == crate::types::library_view(lib@),
            forall|k: int| 0 <= k < t ==> (#[trigger] types@[k]).name@ == types0[k].0 && types@[k].ty@ == link(types0[k].1, l),
            forall|k: int| t <= k < types@.len() ==> (#[trigger] types@[k]).name@ == types0[k].0 && types@[k].ty@ == types0[k].1,
        decreases types@.len() - t,
    {
        let ghost before = types@;
        let mut one = types.remove(t);
        one.ty = one.ty.substituted(lib);
        types.insert(t, one);
        assert(types@ =~= before.update(t as int, one));
        t += 1;
    }
    assert(crate::declare::named_type_views(types@) =~= types0.map_values(|x: (Seq<char>, TypeV)| (x.0, link(x.1, l))));
}

/// One sub's parameters and return, linked.
pub fn link_sub(symbol: SubDecl, lib: &Vec<(String, Type)>) -> (r: SubDecl)
    ensures
        sub_view(r) == link_subv(sub_view(symbol), crate::types::library_view(lib@)),
{
    let SubDecl { package, name, params, returns: held, source, constructs_own_class, range, file } = symbol;
    let params = match params {
        Params::Unknown => Params::Unknown,
        Params::Positional { params, slurpy, invocant, source } => Params::Positional {
            params: link_param_list(&params, lib),
            slurpy,
            invocant,
            source,
        },
        Params::Named { params, invocant, source } => Params::Named { params: link_param_list(&params, lib), invocant, source },
    };
    let list = match &held.list {
        crate::shape::ListShape::Fixed(types) => crate::shape::ListShape::Fixed(link_type_list(types, lib)),
        other => other.duplicate(),
    };
    let linked = Returns { scalar: held.scalar.substituted(lib), list, inferred: held.inferred, invocant: held.invocant };
    SubDecl { package, name, params, returns: linked, source, constructs_own_class, range, file }
}

fn link_subs(subs: &mut Vec<SubDecl>, lib: &Vec<(String, Type)>)
    ensures
        sub_views(final(subs)@) == link_subvs(sub_views(old(subs)@), crate::types::library_view(lib@)),
{
    let ghost start = sub_views(subs@);
    let ghost l = crate::types::library_view(lib@);
    let mut i: usize = 0;
    while i < subs.len()
        invariant
            i <= subs@.len(),
            subs@.len() == start.len(),
            start == sub_views(old(subs)@),
            l == crate::types::library_view(lib@),
            forall|k: int| 0 <= k < i ==> #[trigger] sub_view(subs@[k]) == link_subv(start[k], l),
            forall|k: int| i <= k < subs@.len() ==> #[trigger] sub_view(subs@[k]) == start[k],
        decreases subs@.len() - i,
    {
        let ghost prior = subs@;
        assert(sub_view(prior[i as int]) == start[i as int]);
        let symbol = subs.remove(i);
        let linked = link_sub(symbol, lib);
        subs.insert(i, linked);
        assert(subs@ =~= prior.update(i as int, linked));
        i += 1;
    }
    assert(sub_views(subs@) =~= link_subvs(start, l));
}

fn link_facts(facts: &mut Vec<PackageFacts>, lib: &Vec<(String, Type)>)
    ensures
        crate::declare::facts_views(final(facts)@) == crate::declare::facts_views(old(facts)@).map_values(
            |f: crate::declare::FactsV| link_factsv(f, crate::types::library_view(lib@)),
        ),
{
    let ghost start = crate::declare::facts_views(facts@);
    let ghost l = crate::types::library_view(lib@);
    let mut i: usize = 0;
    while i < facts.len()
        invariant
            i <= facts@.len(),
            facts@.len() == start.len(),
            start == crate::declare::facts_views(old(facts)@),
            l == crate::types::library_view(lib@),
            forall|k: int| 0 <= k < i ==> #[trigger] crate::declare::facts_view(facts@[k]) == link_factsv(start[k], l),
            forall|k: int| i <= k < facts@.len() ==> #[trigger] crate::declare::facts_view(facts@[k]) == start[k],
        decreases facts@.len() - i,
    {
        let ghost prior = facts@;
        assert(crate::declare::facts_view(prior[i as int]) == start[i as int]);
        let mut f = facts.remove(i);
        let ghost v = crate::declare::facts_view(f);
        link_attribute_list(&mut f.attributes, lib);
        link_named_list(&mut f.types, lib);
        assert(crate::declare::facts_view(f) =~~= link_factsv(v, l));
        facts.insert(i, f);
        assert(facts@ =~= prior.update(i as int, f));
        i += 1;
    }
    assert(crate::declare::facts_views(facts@) =~= start.map_values(|f: crate::declare::FactsV| link_factsv(f, l)));
}

fn link_annotations(annotations: &mut Vec<crate::annotate::Annotated>, lib: &Vec<(String, Type)>)
    ensures
        crate::annotate::annotated_views(final(annotations)@) == crate::annotate::annotated_views(old(annotations)@).map_values(
            |a: (TypeV, TextRange)| (link(a.0, crate::types::library_view(lib@)), a.1),
        ),
{
    let ghost start = crate::annotate::annotated_views(annotations@);
    let ghost l = crate::types::library_view(lib@);
    let mut i: usize = 0;
    while i < annotations.len()
        invariant
            i <= annotations@.len(),
            annotations@.len() == start.len(),
            start == crate::annotate::annotated_views(old(annotations)@),
            l == crate::types::library_view(lib@),
            forall|k: int| 0 <= k < i ==> (#[trigger] annotations@[k]).ty@ == link(start[k].0, l) && annotations@[k].range == start[k].1,
            forall|k: int| i <= k < annotations@.len() ==> (#[trigger] annotations@[k]).ty@ == start[k].0 && annotations@[k].range == start[k].1,
        decreases annotations@.len() - i,
    {
        let ghost prior = annotations@;
        let mut one = annotations.remove(i);
        one.ty = one.ty.substituted(lib);
        annotations.insert(i, one);
        assert(annotations@ =~= prior.update(i as int, one));
        i += 1;
    }
    assert(crate::annotate::annotated_views(annotations@) =~= start.map_values(|a: (TypeV, TextRange)| (link(a.0, l), a.1)));
}

/// A file's declarations with the named types put in, and nothing else
/// changed.
pub open spec fn linked_file(before: FileEntry, after: FileEntry, lib: Seq<(Seq<char>, TypeV)>) -> bool {
    &&& after.path == before.path
    &&& after.in_roots == before.in_roots
    &&& sub_views(after.decls.subs@) == link_subvs(sub_views(before.decls.subs@), lib)
    &&& crate::declare::facts_views(after.decls.facts@) == crate::declare::facts_views(before.decls.facts@).map_values(
        |f: crate::declare::FactsV| link_factsv(f, lib),
    )
    &&& crate::annotate::annotated_views(after.decls.annotations@) == crate::annotate::annotated_views(
        before.decls.annotations@,
    ).map_values(|a: (TypeV, TextRange)| (link(a.0, lib), a.1))
    &&& after.decls.imports == before.decls.imports
    &&& after.decls.packages == before.decls.packages
    &&& after.decls.uses == before.decls.uses
    &&& after.decls.diagnostics == before.decls.diagnostics
}

impl Program {
    /// Every type the run's type libraries declare, in the order read.
    pub fn declared_types(&self) -> (r: Vec<(String, Type)>)
        ensures
            crate::types::library_view(r@) == declared_library(self.files_view()),
    {
        let mut out: Vec<(String, Type)> = Vec::new();
        let mut i: usize = 0;
        assert(self.files@.subrange(0, 0) =~= Seq::<FileEntry>::empty());
        assert(crate::types::library_view(out@) =~= Seq::<(Seq<char>, TypeV)>::empty());
        while i < self.files.len()
            invariant
                i <= self.files@.len(),
                crate::types::library_view(out@) == declared_library(self.files@.subrange(0, i as int)),
            decreases self.files@.len() - i,
        {
            let facts = &self.files[i].decls.facts;
            let ghost before = crate::types::library_view(out@);
            let mut j: usize = 0;
            assert(before + types_of_facts(facts@.subrange(0, 0)) =~= before);
            while j < facts.len()
                invariant
                    j <= facts@.len(),
                    crate::types::library_view(out@) == before + types_of_facts(facts@.subrange(0, j as int)),
                decreases facts@.len() - j,
            {
                let types = &facts[j].types;
                let ghost mid = crate::types::library_view(out@);
                let mut k: usize = 0;
                assert(mid + crate::declare::named_type_views(types@).subrange(0, 0) =~= mid);
                while k < types.len()
                    invariant
                        k <= types@.len(),
                        crate::types::library_view(out@) == mid + crate::declare::named_type_views(types@).subrange(0, k as int),
                    decreases types@.len() - k,
                {
                    let ghost w = crate::types::library_view(out@);
                    out.push((types[k].name.clone(), types[k].ty.duplicate()));
                    assert(crate::types::library_view(out@) =~= w.push((types@[k as int].name@, types@[k as int].ty@)));
                    assert(crate::declare::named_type_views(types@).subrange(0, k + 1) =~= crate::declare::named_type_views(types@).subrange(0, k as int).push((types@[k as int].name@, types@[k as int].ty@)));
                    k += 1;
                }
                proof {
                    assert(crate::declare::named_type_views(types@).subrange(0, types@.len() as int) =~= crate::declare::named_type_views(types@));
                    assert(facts@.subrange(0, j + 1).drop_last() =~= facts@.subrange(0, j as int));
                }
                j += 1;
            }
            proof {
                assert(facts@.subrange(0, facts@.len() as int) =~= facts@);
                assert(self.files@.subrange(0, i + 1).drop_last() =~= self.files@.subrange(0, i as int));
            }
            i += 1;
        }
        assert(self.files@.subrange(0, self.files@.len() as int) =~= self.files@);
        out
    }

    /// Put what the run's type libraries declare into every annotation that
    /// named one: in every file, and in the flattened copy the name lookup
    /// answers from.
    pub fn link_named_types(&mut self)
        ensures
            final(self).dialect_view() == old(self).dialect_view(),
            ({
                let lib = declared_library(old(self).files_view());
                if lib.len() == 0 {
                    final(self).files_view() == old(self).files_view() && final(self).subs_view() == old(self).subs_view()
                } else {
                    &&& final(self).files_view().len() == old(self).files_view().len()
                    &&& forall|i: int|
                        0 <= i < old(self).files_view().len() ==> linked_file(
                            old(self).files_view()[i],
                            #[trigger] final(self).files_view()[i],
                            lib,
                        )
                    &&& sub_views(final(self).subs_view()) == link_subvs(sub_views(old(self).subs_view()), lib)
                }
            }),
    {
        let library = self.declared_types();
        if library.len() == 0 {
            return;
        }
        let ghost lib = crate::types::library_view(library@);
        let ghost start = self.files@;
        let mut i: usize = 0;
        while i < self.files.len()
            invariant
                i <= self.files@.len(),
                self.files@.len() == start.len(),
                lib == crate::types::library_view(library@),
                self.subs == old(self).subs,
                self.dialect == old(self).dialect,
                forall|k: int| 0 <= k < i ==> linked_file(start[k], #[trigger] self.files@[k], lib),
                forall|k: int| i <= k < self.files@.len() ==> #[trigger] self.files@[k] == start[k],
            decreases self.files@.len() - i,
        {
            let ghost prior = self.files@;
            let mut entry = self.files.remove(i);
            link_subs(&mut entry.decls.subs, &library);
            link_facts(&mut entry.decls.facts, &library);
            link_annotations(&mut entry.decls.annotations, &library);
            self.files.insert(i, entry);
            assert(self.files@ =~= prior.update(i as int, entry));
            i += 1;
        }
        link_subs(&mut self.subs, &library);
    }
}


// ===== What a class answers to =====

/// How a listed method comes to be there.
pub enum MethodKind<'a> {
    Sub(&'a SubDecl),
    Attribute(&'a AttributeDecl),
    /// The framework generates `new`.
    Constructor,
    /// `UNIVERSAL` gives it to every class.
    Universal,
}

/// One method a class answers to, as `methods_of` lists it.
pub struct Method<'a> {
    pub name: String,
    /// The class that declares it, which is not the class it was asked of
    /// when it was inherited.
    pub class: String,
    /// Where that class sits in the linearisation: `0` is the class itself.
    pub depth: usize,
    pub kind: MethodKind<'a>,
    /// What the slot holds, for an attribute; `Unknown` otherwise.
    pub slot: Type,
}

/// How a listed method comes to be there, as a value.
pub enum KindV {
    Sub(SubDecl),
    Attribute(AttributeDecl),
    Constructor,
    Universal,
}

/// A listed method, as a value.
pub struct MethodV {
    pub name: Seq<char>,
    pub class: Seq<char>,
    pub depth: nat,
    pub kind: KindV,
    pub slot: TypeV,
}

pub open spec fn method_view(m: Method) -> MethodV {
    MethodV {
        name: m.name@,
        class: m.class@,
        depth: m.depth as nat,
        kind: match m.kind {
            MethodKind::Sub(s) => KindV::Sub(*s),
            MethodKind::Attribute(a) => KindV::Attribute(*a),
            MethodKind::Constructor => KindV::Constructor,
            MethodKind::Universal => KindV::Universal,
        },
        slot: m.slot@,
    }
}

pub open spec fn method_list_view(ms: Seq<Method>) -> Seq<MethodV> {
    ms.map_values(|m: Method| method_view(m))
}

/// The names listed so far, and the list.
pub type Listing = (Seq<Seq<char>>, Seq<MethodV>);

/// A method offered to the list: kept where its name is new.
pub open spec fn offer(st: Listing, m: MethodV) -> Listing {
    if st.0.contains(m.name) {
        st
    } else {
        (st.0.push(m.name), st.1.push(m))
    }
}

/// The first `n` subs, those of `class` offered in order.
pub open spec fn offer_subs(st: Listing, subs: Seq<SubDecl>, class: Seq<char>, depth: nat, n: int) -> Listing
    decreases n,
{
    if n <= 0 || n > subs.len() {
        st
    } else {
        let prev = offer_subs(st, subs, class, depth, n - 1);
        let s = subs[n - 1];
        if s.package@ == class {
            offer(prev, MethodV { name: s.name@, class, depth, kind: KindV::Sub(s), slot: TypeV::Unknown })
        } else {
            prev
        }
    }
}

/// The names an attribute answers to: its own, then each it generates.
pub open spec fn attribute_names(a: AttributeDecl) -> Seq<Seq<char>> {
    seq![a.name@] + a.methods@.map_values(|g: crate::annotate::GeneratedMethod| g.name@)
}

/// The first `n` of an attribute's names offered.
pub open spec fn offer_names(st: Listing, a: AttributeDecl, class: Seq<char>, depth: nat, slot: TypeV, n: int) -> Listing
    decreases n,
{
    if n <= 0 || n > attribute_names(a).len() {
        st
    } else {
        offer(
            offer_names(st, a, class, depth, slot, n - 1),
            MethodV { name: attribute_names(a)[n - 1], class, depth, kind: KindV::Attribute(a), slot },
        )
    }
}

/// The first `n` attributes offered, each with the slot type asked of
/// `package` under the attribute's own name.
pub open spec fn offer_attributes(
    st: Listing,
    files: Seq<FileEntry>,
    subs: Seq<SubDecl>,
    package: Seq<char>,
    attrs: Seq<AttributeDecl>,
    class: Seq<char>,
    depth: nat,
    n: int,
) -> Listing
    decreases n,
{
    if n <= 0 || n > attrs.len() {
        st
    } else {
        let a = attrs[n - 1];
        let prev = offer_attributes(st, files, subs, package, attrs, class, depth, n - 1);
        offer_names(prev, a, class, depth, spec_slot_type(files, subs, package, a, a.name@), attribute_names(a).len() as int)
    }
}

/// The first `n` facts of a class offered: their attributes, then a
/// generated `new`.
pub open spec fn offer_facts(
    st: Listing,
    files: Seq<FileEntry>,
    subs: Seq<SubDecl>,
    package: Seq<char>,
    fs: Seq<PackageFacts>,
    class: Seq<char>,
    depth: nat,
    n: int,
) -> Listing
    decreases n,
{
    if n <= 0 || n > fs.len() {
        st
    } else {
        let f = fs[n - 1];
        let prev = offer_facts(st, files, subs, package, fs, class, depth, n - 1);
        let with_attrs = offer_attributes(prev, files, subs, package, f.attributes@, class, depth, f.attributes@.len() as int);
        if f.constructor {
            offer(with_attrs, MethodV { name: "new"@, class, depth, kind: KindV::Constructor, slot: TypeV::Unknown })
        } else {
            with_attrs
        }
    }
}

/// The first `n` classes of the linearisation offered, each at its depth.
pub open spec fn offer_classes(st: Listing, files: Seq<FileEntry>, subs: Seq<SubDecl>, package: Seq<char>, lin: Seq<Seq<char>>, n: int) -> Listing
    decreases n,
{
    if n <= 0 || n > lin.len() {
        st
    } else {
        let prev = offer_classes(st, files, subs, package, lin, n - 1);
        let class = lin[n - 1];
        let depth = (n - 1) as nat;
        let own = offer_subs(prev, subs, class, depth, subs.len() as int);
        let fs = spec_facts(files, class);
        offer_facts(own, files, subs, package, fs, class, depth, fs.len() as int)
    }
}

/// `UNIVERSAL`'s methods, in the order it is written.
pub open spec fn universal_names() -> Seq<Seq<char>> {
    seq!["isa"@, "can"@, "DOES"@, "VERSION"@, "import"@, "unimport"@, "DESTROY"@]
}

pub open spec fn offer_universal(st: Listing, depth: nat, n: int) -> Listing
    decreases n,
{
    if n <= 0 || n > universal_names().len() {
        st
    } else {
        offer(
            offer_universal(st, depth, n - 1),
            MethodV { name: universal_names()[n - 1], class: "UNIVERSAL"@, depth, kind: KindV::Universal, slot: TypeV::Unknown },
        )
    }
}

/// What a class answers to: every class of its linearisation in turn, its
/// subs, then its attributes' names, then a generated `new`; last,
/// `UNIVERSAL`'s methods at a depth past every class. A name is listed once,
/// by the first that declares it.
pub open spec fn spec_methods_of(files: Seq<FileEntry>, subs: Seq<SubDecl>, package: Seq<char>) -> Seq<MethodV> {
    let lin = spec_linearise(files, package);
    let classes = offer_classes((Seq::empty(), Seq::empty()), files, subs, package, lin, lin.len() as int);
    offer_universal(classes, lin.len() as nat, 7).1
}

/// Offer one method: listed where its name is new.
fn offer_method<'a>(seen: &mut Vec<String>, out: &mut Vec<Method<'a>>, m: Method<'a>)
    ensures
        (strings_view(final(seen)@), method_list_view(final(out)@)) == offer(
            (strings_view(old(seen)@), method_list_view(old(out)@)),
            method_view(m),
        ),
{
    let ghost names = strings_view(seen@);
    let ghost listed = method_list_view(out@);
    let mut i: usize = 0;
    while i < seen.len()
        invariant
            i <= seen@.len(),
            names == strings_view(seen@),
            forall|k: int| 0 <= k < i ==> names[k] != m.name@,
        decreases seen@.len() - i,
    {
        if same_text(seen[i].as_str(), m.name.as_str()) {
            assert(names[i as int] == m.name@);
            return;
        }
        i += 1;
    }
    assert(!names.contains(m.name@));
    seen.push(m.name.clone());
    let ghost mv = method_view(m);
    out.push(m);
    assert(strings_view(seen@) =~= names.push(mv.name));
    assert(method_list_view(out@) =~= listed.push(mv));
}

impl Program {
    fn offer_class_subs<'a>(&'a self, class: &String, depth: usize, seen: &mut Vec<String>, out: &mut Vec<Method<'a>>)
        ensures
            (strings_view(final(seen)@), method_list_view(final(out)@)) == offer_subs(
                (strings_view(old(seen)@), method_list_view(old(out)@)),
                self.subs_view(),
                class@,
                depth as nat,
                self.subs_view().len() as int,
            ),
    {
        let ghost start = (strings_view(seen@), method_list_view(out@));
        let mut i: usize = 0;
        while i < self.subs.len()
            invariant
                i <= self.subs@.len(),
                start == (strings_view(old(seen)@), method_list_view(old(out)@)),
                (strings_view(seen@), method_list_view(out@)) == offer_subs(start, self.subs@, class@, depth as nat, i as int),
            decreases self.subs@.len() - i,
        {
            let s = &self.subs[i];
            if same_text(s.package.as_str(), class.as_str()) {
                offer_method(seen, out, Method { name: s.name.clone(), class: class.clone(), depth, kind: MethodKind::Sub(s), slot: Type::Unknown });
            }
            i += 1;
        }
    }

    fn offer_attribute<'a>(
        &'a self,
        package: &str,
        a: &'a AttributeDecl,
        class: &String,
        depth: usize,
        seen: &mut Vec<String>,
        out: &mut Vec<Method<'a>>,
    )
        ensures
            (strings_view(final(seen)@), method_list_view(final(out)@)) == offer_names(
                (strings_view(old(seen)@), method_list_view(old(out)@)),
                *a,
                class@,
                depth as nat,
                spec_slot_type(self.files_view(), self.subs_view(), package@, *a, a.name@),
                attribute_names(*a).len() as int,
            ),
    {
        let slot = self.slot_type(package, a, a.name.as_str());
        let ghost sv = slot@;
        let ghost start = (strings_view(seen@), method_list_view(out@));
        let ghost names = attribute_names(*a);
        offer_method(seen, out, Method { name: a.name.clone(), class: class.clone(), depth, kind: MethodKind::Attribute(a), slot: slot.duplicate() });
        assert(names[0] == a.name@);
        assert(names.len() == a.methods@.len() + 1);
        assert(offer_names(start, *a, class@, depth as nat, sv, 0) == start);
        let mut i: usize = 0;
        while i < a.methods.len()
            invariant
                i <= a.methods@.len(),
                names == attribute_names(*a),
                names.len() == a.methods@.len() + 1,
                slot@ == sv,
                start == (strings_view(old(seen)@), method_list_view(old(out)@)),
                (strings_view(seen@), method_list_view(out@)) == offer_names(start, *a, class@, depth as nat, sv, i + 1),
            decreases a.methods@.len() - i,
        {
            assert(names[i + 1] == a.methods@[i as int].name@);
            offer_method(seen, out, Method { name: a.methods[i].name.clone(), class: class.clone(), depth, kind: MethodKind::Attribute(a), slot: slot.duplicate() });
            i += 1;
        }
    }

    fn offer_class_facts<'a>(&'a self, package: &str, class: &String, depth: usize, seen: &mut Vec<String>, out: &mut Vec<Method<'a>>)
        ensures
            ({
                let fs = spec_facts(self.files_view(), class@);
                (strings_view(final(seen)@), method_list_view(final(out)@)) == offer_facts(
                    (strings_view(old(seen)@), method_list_view(old(out)@)),
                    self.files_view(),
                    self.subs_view(),
                    package@,
                    fs,
                    class@,
                    depth as nat,
                    fs.len() as int,
                )
            }),
    {
        let fs = self.facts(class.as_str());
        let ghost fv = deref_facts(fs@);
        let ghost start = (strings_view(seen@), method_list_view(out@));
        let mut i: usize = 0;
        while i < fs.len()
            invariant
                i <= fs@.len(),
                fv == deref_facts(fs@),
                fv == spec_facts(self.files_view(), class@),
                start == (strings_view(old(seen)@), method_list_view(old(out)@)),
                (strings_view(seen@), method_list_view(out@)) == offer_facts(start, self.files_view(), self.subs_view(), package@, fv, class@, depth as nat, i as int),
            decreases fs@.len() - i,
        {
            let f = fs[i];
            assert(fv[i as int] == *f);
            let ghost mid0 = (strings_view(seen@), method_list_view(out@));
            let mut k: usize = 0;
            while k < f.attributes.len()
                invariant
                    k <= f.attributes@.len(),
                    (strings_view(seen@), method_list_view(out@)) == offer_attributes(mid0, self.files_view(), self.subs_view(), package@, f.attributes@, class@, depth as nat, k as int),
                decreases f.attributes@.len() - k,
            {
                self.offer_attribute(package, &f.attributes[k], class, depth, seen, out);
                k += 1;
            }
            if f.constructor {
                offer_method(seen, out, Method { name: String::from_str("new"), class: class.clone(), depth, kind: MethodKind::Constructor, slot: Type::Unknown });
            }
            i += 1;
        }
    }

    /// What a class answers to, each name once, by the first class of its
    /// linearisation that declares it: its subs, its attributes' accessors
    /// and what they generate, a generated `new`; then `UNIVERSAL`'s methods,
    /// at a depth past every class.
    pub fn methods_of(&self, package: &str) -> (r: Vec<Method<'_>>)
        ensures
            method_list_view(r@) == spec_methods_of(self.files_view(), self.subs_view(), package@),
    {
        let mut methods: Vec<Method<'_>> = Vec::new();
        let mut seen: Vec<String> = Vec::new();
        let order = self.linearise(package);
        let ghost lin = strings_view(order@);
        let ghost start: Listing = (Seq::empty(), Seq::empty());
        assert(strings_view(seen@) =~= Seq::<Seq<char>>::empty());
        assert(method_list_view(methods@) =~= Seq::<MethodV>::empty());
        let mut depth: usize = 0;
        while depth < order.len()
            invariant
                depth <= order@.len(),
                lin == strings_view(order@),
                lin == spec_linearise(self.files_view(), package@),
                start == (Seq::<Seq<char>>::empty(), Seq::<MethodV>::empty()),
                (strings_view(seen@), method_list_view(methods@)) == offer_classes(start, self.files_view(), self.subs_view(), package@, lin, depth as int),
            decreases order@.len() - depth,
        {
            let class = &order[depth];
            assert(lin[depth as int] == class@);
            self.offer_class_subs(class, depth, &mut seen, &mut methods);
            self.offer_class_facts(package, class, depth, &mut seen, &mut methods);
            depth += 1;
        }
        let ghost classes = (strings_view(seen@), method_list_view(methods@));
        let count = order.len();
        let names: [&str; 7] = ["isa", "can", "DOES", "VERSION", "import", "unimport", "DESTROY"];
        let mut i: usize = 0;
        while i < 7
            invariant
                i <= 7,
                count == lin.len(),
                names@ == seq!["isa", "can", "DOES", "VERSION", "import", "unimport", "DESTROY"],
                (strings_view(seen@), method_list_view(methods@)) == offer_universal(classes, count as nat, i as int),
            decreases 7 - i,
        {
            offer_method(&mut seen, &mut methods, Method { name: String::from_str(names[i]), class: String::from_str("UNIVERSAL"), depth: count, kind: MethodKind::Universal, slot: Type::Unknown });
            i += 1;
        }
        methods
    }
}


// ===== The hierarchy the type relations read =====

/// The name of every package any file states facts about, file by file.
pub open spec fn fact_names(files: Seq<FileEntry>) -> Seq<Seq<char>>
    decreases files.len(),
{
    if files.len() == 0 {
        Seq::empty()
    } else {
        fact_names(files.drop_last()) + files.last().decls.facts@.map_values(|f: PackageFacts| f.name@)
    }
}

/// Each such package with what it inherits from or composes.
pub open spec fn hierarchy_of(files: Seq<FileEntry>) -> Seq<(Seq<char>, Seq<Seq<char>>)> {
    fact_names(files).map_values(|n: Seq<char>| (n, spec_parents(files, n)))
}

proof fn lemma_facts_in_file_named(f: FileEntry, name: Seq<char>, k: nat)
    ensures
        facts_in_file(f, name, k).len() > 0 ==> exists|j: int| 0 <= j < f.decls.facts@.len() && (#[trigger] f.decls.facts@[j]).name@ == name,
    decreases k,
{
    if k > 0 {
        lemma_facts_in_file_named(f, name, (k - 1) as nat);
        crate::decl::lemma_first_facts_bounds(f.decls.facts@, name, 0);
    }
}

proof fn lemma_facts_named(files: Seq<FileEntry>, name: Seq<char>)
    ensures
        spec_facts(files, name).len() > 0 ==> fact_names(files).contains(name),
    decreases files.len(),
{
    if files.len() > 0 {
        lemma_facts_named(files.drop_last(), name);
        let last = files.last();
        lemma_facts_in_file_named(last, name, times_opened(last.decls.packages@, name));
        let before = fact_names(files.drop_last());
        let mine = last.decls.facts@.map_values(|f: PackageFacts| f.name@);
        if before.contains(name) {
            let i = choose|i: int| 0 <= i < before.len() && before[i] == name;
            assert((before + mine)[i] == name);
        } else if facts_in_file(last, name, times_opened(last.decls.packages@, name)).len() > 0 {
            let j = choose|j: int| 0 <= j < last.decls.facts@.len() && (#[trigger] last.decls.facts@[j]).name@ == name;
            assert((before + mine)[before.len() + j] == name);
        }
    }
}

proof fn lemma_no_facts_no_parents(fs: Seq<PackageFacts>)
    ensures
        fs.len() == 0 ==> facts_parents(fs).len() == 0,
{
}

/// An edge of the hierarchy is a parent the run gives.
proof fn lemma_hierarchy_edge(files: Seq<FileEntry>, child: Seq<char>, parent: Seq<char>)
    ensures
        crate::flow::edge(hierarchy_of(files), child, parent) == spec_parents(files, child).contains(parent),
{
    let h = hierarchy_of(files);
    if spec_parents(files, child).contains(parent) {
        lemma_facts_named(files, child);
        assert(spec_facts(files, child).len() > 0);
        let names = fact_names(files);
        let i = choose|i: int| 0 <= i < names.len() && names[i] == child;
        assert(h[i] == (child, spec_parents(files, child)));
    }
    if crate::flow::edge(h, child, parent) {
        let i = choose|i: int| 0 <= i < h.len() && (#[trigger] h[i]).0 == child && h[i].1.contains(parent);
        assert(h[i].1 == spec_parents(files, child));
    }
}

proof fn lemma_path_listed(files: Seq<FileEntry>, path: Seq<Seq<char>>, k: int)
    requires
        crate::flow::is_path(hierarchy_of(files), path),
        0 <= k < path.len(),
    ensures
        spec_linearise(files, path[0]).contains(path[k]),
    decreases k,
{
    law_a_class_comes_first_in_its_linearisation(files, path[0]);
    if k == 0 {
        assert(spec_linearise(files, path[0])[0] == path[0]);
    } else {
        lemma_path_listed(files, path, k - 1);
        assert(crate::flow::step_up(hierarchy_of(files), path, k - 1));
        lemma_hierarchy_edge(files, path[k - 1], path[k]);
        law_a_linearisation_holds_every_ancestor(files, path[0], path[k - 1], path[k]);
    }
}

proof fn lemma_listed_has_path(files: Seq<FileEntry>, package: Seq<char>, i: int) -> (path: Seq<Seq<char>>)
    requires
        0 <= i < spec_linearise(files, package).len(),
    ensures
        crate::flow::is_path(hierarchy_of(files), path),
        path[0] == package,
        path.last() == spec_linearise(files, package)[i],
    decreases i,
{
    law_a_class_comes_first_in_its_linearisation(files, package);
    let lin = spec_linearise(files, package);
    if i == 0 {
        let path = seq![package];
        assert(crate::flow::is_path(hierarchy_of(files), path));
        path
    } else {
        law_a_linearisation_holds_only_ancestors(files, package, i);
        let j = choose|j: int| 0 <= j < i && spec_parents(files, lin[j]).contains(#[trigger] lin[i]);
        let before = lemma_listed_has_path(files, package, j);
        let path = before.push(lin[i]);
        lemma_hierarchy_edge(files, lin[j], lin[i]);
        assert forall|k: int| 0 <= k < path.len() - 1 implies #[trigger] crate::flow::step_up(hierarchy_of(files), path, k) by {
            if k < before.len() - 1 {
                assert(crate::flow::step_up(hierarchy_of(files), before, k));
                assert(path[k] == before[k] && path[k + 1] == before[k + 1]);
            } else {
                assert(path[k] == lin[j] && path[k + 1] == lin[i]);
            }
        }
        path
    }
}

/// `isa` over the hierarchy is `isa` over the program: a class is below
/// another exactly when its linearisation lists it.
pub proof fn law_the_hierarchy_answers_isa_as_the_program_does(files: Seq<FileEntry>, descendant: Seq<char>, ancestor: Seq<char>)
    ensures
        crate::flow::spec_isa(hierarchy_of(files), descendant, ancestor) == spec_linearise(files, descendant).contains(ancestor),
{
    let h = hierarchy_of(files);
    if crate::flow::spec_isa(h, descendant, ancestor) {
        let path = choose|path: Seq<Seq<char>>| #[trigger] crate::flow::is_path(h, path) && path[0] == descendant && path.last() == ancestor;
        lemma_path_listed(files, path, path.len() - 1);
    }
    if spec_linearise(files, descendant).contains(ancestor) {
        let lin = spec_linearise(files, descendant);
        let i = choose|i: int| 0 <= i < lin.len() && lin[i] == ancestor;
        let path = lemma_listed_has_path(files, descendant, i);
        assert(crate::flow::is_path(h, path));
    }
}

fn parents_of_facts(fs: &Vec<&PackageFacts>) -> (r: Vec<String>)
    ensures
        strings_view(r@) == facts_parents(deref_facts(fs@)),
{
    let ghost all = deref_facts(fs@);
    let mut out: Vec<String> = Vec::new();
    let mut i: usize = 0;
    assert(all.subrange(0, 0) =~= Seq::<PackageFacts>::empty());
    assert(strings_view(out@) =~= Seq::<Seq<char>>::empty());
    while i < fs.len()
        invariant
            i <= fs@.len(),
            all == deref_facts(fs@),
            strings_view(out@) == facts_parents(all.subrange(0, i as int)),
        decreases fs@.len() - i,
    {
        let f = fs[i];
        proof {
            assert(all.subrange(0, i + 1).drop_last() =~= all.subrange(0, i as int));
            assert(all.subrange(0, i + 1).last() == *f);
        }
        let ghost before = strings_view(out@);
        let mut k: usize = 0;
        while k < f.isa.len()
            invariant
                k <= f.isa@.len(),
                strings_view(out@) == before + strings_view(f.isa@.subrange(0, k as int)),
            decreases f.isa@.len() - k,
        {
            let ghost prior = strings_view(out@);
            out.push(f.isa[k].clone());
            assert(strings_view(out@) =~= prior.push(f.isa@[k as int]@));
            assert(strings_view(f.isa@.subrange(0, k + 1)) =~= strings_view(f.isa@.subrange(0, k as int)).push(f.isa@[k as int]@));
            assert(strings_view(out@) =~= before + strings_view(f.isa@.subrange(0, k + 1)));
            k += 1;
        }
        assert(f.isa@.subrange(0, f.isa@.len() as int) =~= f.isa@);
        let ghost middle = strings_view(out@);
        let mut k: usize = 0;
        while k < f.roles.len()
            invariant
                k <= f.roles@.len(),
                strings_view(out@) == middle + strings_view(f.roles@.subrange(0, k as int)),
            decreases f.roles@.len() - k,
        {
            let ghost prior = strings_view(out@);
            out.push(f.roles[k].clone());
            assert(strings_view(out@) =~= prior.push(f.roles@[k as int]@));
            assert(strings_view(f.roles@.subrange(0, k + 1)) =~= strings_view(f.roles@.subrange(0, k as int)).push(f.roles@[k as int]@));
            assert(strings_view(out@) =~= middle + strings_view(f.roles@.subrange(0, k + 1)));
            k += 1;
        }
        assert(f.roles@.subrange(0, f.roles@.len() as int) =~= f.roles@);
        assert(strings_view(out@) =~= facts_parents(all.subrange(0, i + 1)));
        i += 1;
    }
    assert(all.subrange(0, fs@.len() as int) =~= all);
    out
}

impl Program {
    /// The hierarchy the type relations read: each package the run states
    /// facts about, with what it inherits from or composes.
    pub fn hierarchy(&self) -> (h: crate::flow::Hierarchy)
        ensures
            h@ == hierarchy_of(self.files_view()),
            forall|a: Seq<char>, b: Seq<char>| #[trigger] crate::flow::spec_isa(h@, a, b) == spec_linearise(self.files_view(), a).contains(b),
    {
        let ghost names = fact_names(self.files@);
        let mut packages: Vec<(String, Vec<String>)> = Vec::new();
        let mut i: usize = 0;
        assert(self.files@.subrange(0, 0) =~= Seq::<FileEntry>::empty());
        assert(crate::flow::packages_view(packages@) =~= Seq::<(Seq<char>, Seq<Seq<char>>)>::empty());
        while i < self.files.len()
            invariant
                i <= self.files@.len(),
                crate::flow::packages_view(packages@) == fact_names(self.files@.subrange(0, i as int)).map_values(
                    |n: Seq<char>| (n, spec_parents(self.files@, n)),
                ),
            decreases self.files@.len() - i,
        {
            let facts = &self.files[i].decls.facts;
            let ghost before = crate::flow::packages_view(packages@);
            let ghost mine = facts@.map_values(|f: PackageFacts| f.name@);
            proof {
                assert(self.files@.subrange(0, i + 1).drop_last() =~= self.files@.subrange(0, i as int));
                assert(self.files@.subrange(0, i + 1).last() == self.files@[i as int]);
            }
            let mut k: usize = 0;
            while k < facts.len()
                invariant
                    k <= facts@.len(),
                    *facts == self.files@[i as int].decls.facts,
                    mine == facts@.map_values(|f: PackageFacts| f.name@),
                    crate::flow::packages_view(packages@) == before + mine.subrange(0, k as int).map_values(
                        |n: Seq<char>| (n, spec_parents(self.files@, n)),
                    ),
                decreases facts@.len() - k,
            {
                let name = facts[k].name.clone();
                let found = self.facts(name.as_str());
                let parents = parents_of_facts(&found);
                let ghost pv = crate::flow::packages_view(packages@);
                packages.push((name, parents));
                proof {
                    assert(crate::flow::packages_view(packages@) =~= pv.push((facts@[k as int].name@, spec_parents(self.files@, facts@[k as int].name@))));
                    assert(mine.subrange(0, k + 1).map_values(|n: Seq<char>| (n, spec_parents(self.files@, n))) =~= mine.subrange(0, k as int).map_values(
                        |n: Seq<char>| (n, spec_parents(self.files@, n)),
                    ).push((facts@[k as int].name@, spec_parents(self.files@, facts@[k as int].name@))));
                }
                k += 1;
            }
            proof {
                assert(mine.subrange(0, facts@.len() as int) =~= mine);
                assert(fact_names(self.files@.subrange(0, i + 1)) == fact_names(self.files@.subrange(0, i as int)) + mine);
                assert((fact_names(self.files@.subrange(0, i as int)) + mine).map_values(|n: Seq<char>| (n, spec_parents(self.files@, n))) =~= before
                    + mine.map_values(|n: Seq<char>| (n, spec_parents(self.files@, n))));
            }
            i += 1;
        }
        assert(self.files@.subrange(0, self.files@.len() as int) =~= self.files@);
        let h = crate::flow::Hierarchy { packages };
        proof {
            assert forall|a: Seq<char>, b: Seq<char>| #[trigger] crate::flow::spec_isa(h@, a, b) == spec_linearise(self.files_view(), a).contains(b) by {
                law_the_hierarchy_answers_isa_as_the_program_does(self.files@, a, b);
            }
        }
        h
    }
}

} // verus!
