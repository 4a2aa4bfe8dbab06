//! The declaration pass's reading of `use` and `no` statements: what a module
//! import adds to the file's declarations and to the package it is written in.

use vstd::prelude::*;

use crate::annotate::{
    diagnostic_views, spec_read_as, AttributeDecl, Dialect, Framework, Frameworks, NamedType, Sink,
};
use crate::ast::{
    arguments_of, child_of, name_child_text, NoStmt, UseStmt, spec_elements, spec_key_text, spec_literal_string, spec_pairs, spec_without_plus, list_child,
    words_from, without_plus, key_text, Args, ArgV, AnonHash, Arg, Literal, QwExpr,
};
use crate::attributes::{
    attr_views, lite_fold, read_accessor_lite, read_accessor_typed, sink_grew, typed_fold, AttrV,
};
use crate::decl::{FileDecls, PackageFacts, Params, SubDecl, SymbolSource};
use crate::shape::{Returns, ShapeV};
use crate::span::TextRange;
use crate::text::same_text;
use crate::syntax::{
    child_nodes, child_tokens, deref_nodes, deref_tokens, first_of_kind, first_token_of_kind, found, joined,
    NodeKind, SyntaxElement, SyntaxNode, TokenKind,
};
use crate::types::{strings_view, TypeV};

verus! {

pub open spec fn is_ascii_letter(c: char) -> bool {
    ('a' <= c && c <= 'z') || ('A' <= c && c <= 'Z')
}

/// Whether a word reads as a sub's name: it starts with a letter or `_`. A
/// sigil makes it a variable, and `:tag` or `-flag` names a set that cannot be
/// expanded here.
pub open spec fn spec_starts_like_a_name(s: Seq<char>) -> bool {
    s.len() > 0 && (is_ascii_letter(s[0]) || s[0] == '_')
}

pub fn starts_like_a_name(text: &str) -> (r: bool)
    ensures
        r == spec_starts_like_a_name(text@),
{
    if text.unicode_len() == 0 {
        false
    } else {
        let c = text.get_char(0);
        ('a' <= c && c <= 'z') || ('A' <= c && c <= 'Z') || c == '_'
    }
}

/// The words that read as names, in order.
pub open spec fn keep_names(ws: Seq<Seq<char>>) -> Seq<Seq<char>>
    decreases ws.len(),
{
    if ws.len() == 0 {
        Seq::empty()
    } else if spec_starts_like_a_name(ws.last()) {
        keep_names(ws.drop_last()).push(ws.last())
    } else {
        keep_names(ws.drop_last())
    }
}

/// The words of a `qw(...)`.
pub open spec fn qw_words(n: SyntaxNode) -> Seq<Seq<char>> {
    match first_token_of_kind(child_tokens(n), TokenKind::QwString, 0) {
        Some(i) => words_from(child_tokens(n)[i].text@, 0),
        None => Seq::empty(),
    }
}

/// What one element of an import list asks for.
pub open spec fn element_names(e: SyntaxNode) -> Seq<Seq<char>> {
    if e.kind == NodeKind::QwExpr {
        keep_names(qw_words(e))
    } else if e.kind == NodeKind::Literal {
        match spec_literal_string(e) {
            Some(s) => if spec_starts_like_a_name(s) {
                seq![s]
            } else {
                Seq::empty()
            },
            None => Seq::empty(),
        }
    } else {
        Seq::empty()
    }
}

pub open spec fn names_of_elements(es: Seq<SyntaxNode>) -> Seq<Seq<char>>
    decreases es.len(),
{
    if es.len() == 0 {
        Seq::empty()
    } else {
        names_of_elements(es.drop_last()) + element_names(es.last())
    }
}

/// The sub names an import list asks for: the words of a `qw` and the plain
/// strings, those that read as names.
pub open spec fn spec_imported_names(arguments: SyntaxNode) -> Seq<Seq<char>> {
    names_of_elements(spec_elements(arguments))
}

/// The sub names an import list asks for.
pub fn imported_names(arguments: &SyntaxNode) -> (r: Vec<String>)
    ensures
        strings_view(r@) == spec_imported_names(*arguments),
{
    let elements = Args::elements(arguments);
    let ghost es = spec_elements(*arguments);
    let mut acc: Vec<String> = Vec::new();
    let mut i: usize = 0;
    assert(strings_view(acc@) =~= names_of_elements(es.subrange(0, 0)));
    while i < elements.len()
        invariant
            i <= elements@.len(),
            deref_nodes(elements@) == es,
            strings_view(acc@) == names_of_elements(es.subrange(0, i as int)),
        decreases elements@.len() - i,
    {
        let e = elements[i];
        let ghost before = strings_view(acc@);
        proof {
            assert(es.subrange(0, i + 1).drop_last() =~= es.subrange(0, i as int));
            assert(es.subrange(0, i + 1).last() == *e);
        }
        if e.kind == NodeKind::QwExpr {
            let words = QwExpr(e).words();
            let ghost ws = qw_words(*e);
            assert(strings_view(words@) == ws);
            let mut j: usize = 0;
            assert(before + keep_names(ws.subrange(0, 0)) =~= before);
            while j < words.len()
                invariant
                    j <= words@.len(),
                    strings_view(words@) == ws,
                    strings_view(acc@) == before + keep_names(ws.subrange(0, j as int)),
                decreases words@.len() - j,
            {
                proof {
                    assert(ws.subrange(0, j + 1).drop_last() =~= ws.subrange(0, j as int));
                    assert(ws.subrange(0, j + 1).last() == words@[j as int]@);
                }
                if starts_like_a_name(words[j].as_str()) {
                    let ghost v = strings_view(acc@);
                    acc.push(words[j].clone());
                    assert(strings_view(acc@) =~= v.push(words@[j as int]@));
                    assert(strings_view(acc@) =~= before + keep_names(ws.subrange(0, j + 1)));
                }
                j += 1;
            }
            assert(ws.subrange(0, words@.len() as int) =~= ws);
        } else if e.kind == NodeKind::Literal {
            match Literal(e).as_string() {
                Some(text) => {
                    if starts_like_a_name(text.as_str()) {
                        acc.push(text);
                        assert(strings_view(acc@) =~= before + element_names(*e));
                    } else {
                        assert(before + element_names(*e) =~= before);
                    }
                },
                None => {
                    assert(before + element_names(*e) =~= before);
                },
            }
        } else {
            assert(before + element_names(*e) =~= before);
        }
        i += 1;
    }
    assert(es.subrange(0, elements@.len() as int) =~= es);
    acc
}

/// The names of the keys of a `{ NAME => value, ... }`, each with where it
/// was written.
pub open spec fn pair_names(ps: Seq<ArgV>) -> Seq<(Seq<char>, TextRange)>
    decreases ps.len(),
{
    if ps.len() == 0 {
        Seq::empty()
    } else {
        pair_names(ps.drop_last()) + match ps.last() {
            ArgV::Pair { key, key_text: Some(t), .. } => seq![(t, key.range)],
            _ => Seq::empty(),
        }
    }
}

/// The constants a `use constant` declares: every key of a hash, or the one
/// name before the value.
pub open spec fn spec_constant_names(arguments: SyntaxNode) -> Seq<(Seq<char>, TextRange)> {
    let es = spec_elements(arguments);
    if es.len() == 0 {
        Seq::empty()
    } else {
        let inner = spec_without_plus(es[0]);
        if inner.kind == NodeKind::AnonHash {
            match list_child(inner) {
                Some(l) => pair_names(spec_pairs(l)),
                None => Seq::empty(),
            }
        } else {
            match spec_key_text(es[0]) {
                Some(t) => seq![(t, es[0].range)],
                None => Seq::empty(),
            }
        }
    }
}

pub open spec fn named_views(s: Seq<(String, TextRange)>) -> Seq<(Seq<char>, TextRange)> {
    s.map_values(|p: (String, TextRange)| (p.0@, p.1))
}

/// The constants a `use constant` declares.
pub fn constant_names(arguments: &SyntaxNode) -> (r: Vec<(String, TextRange)>)
    ensures
        named_views(r@) == spec_constant_names(*arguments),
{
    let elements = Args::elements(arguments);
    let ghost es = spec_elements(*arguments);
    let mut out: Vec<(String, TextRange)> = Vec::new();
    if elements.len() == 0 {
        assert(named_views(out@) =~= Seq::<(Seq<char>, TextRange)>::empty());
        return out;
    }
    let first = elements[0];
    assert(*first == es[0]);
    let inner = without_plus(first);
    if inner.kind == NodeKind::AnonHash {
        let pairs = AnonHash(inner).pairs();
        let ghost ps: Seq<ArgV> = match list_child(*inner) {
            Some(l) => spec_pairs(l),
            None => Seq::empty(),
        };
        assert(crate::ast::arg_views(pairs@) =~= ps);
        let mut i: usize = 0;
        assert(named_views(out@) =~= pair_names(ps.subrange(0, 0)));
        while i < pairs.len()
            invariant
                i <= pairs@.len(),
                crate::ast::arg_views(pairs@) == ps,
                named_views(out@) == pair_names(ps.subrange(0, i as int)),
            decreases pairs@.len() - i,
        {
            let ghost before = named_views(out@);
            proof {
                assert(ps.subrange(0, i + 1).drop_last() =~= ps.subrange(0, i as int));
                assert(ps.subrange(0, i + 1).last() == crate::ast::arg_view(pairs@[i as int]));
            }
            match &pairs[i] {
                Arg::Pair { key, key_text: Some(name), .. } => {
                    out.push((name.clone(), key.range));
                    assert(named_views(out@) =~= pair_names(ps.subrange(0, i + 1)));
                },
                _ => {
                    assert(named_views(out@) =~= pair_names(ps.subrange(0, i + 1)));
                },
            }
            i += 1;
        }
        assert(ps.subrange(0, pairs@.len() as int) =~= ps);
        out
    } else {
        match key_text(first) {
            Some(name) => {
                out.push((name, first.range));
                assert(named_views(out@) =~= spec_constant_names(*arguments));
            },
            None => {
                assert(named_views(out@) =~= Seq::<(Seq<char>, TextRange)>::empty());
            },
        }
        out
    }
}

// ===== The pass's state =====

/// A package's facts, as values.
#[verifier::ext_equal]
pub struct FactsV {
    pub name: Seq<char>,
    pub isa: Seq<Seq<char>>,
    pub roles: Seq<Seq<char>>,
    pub framework: Framework,
    pub attributes: Seq<AttrV>,
    pub types: Seq<(Seq<char>, TypeV)>,
    pub constructor: bool,
    pub buildargs: bool,
    pub open_constructor: bool,
    pub dynamic: bool,
    pub exports: Seq<Seq<char>>,
    pub exports_unknown: bool,
    pub uses: Seq<Seq<char>>,
    pub file_scope_calls: Seq<(Seq<char>, Seq<char>)>,
}

pub open spec fn named_type_views(s: Seq<NamedType>) -> Seq<(Seq<char>, TypeV)> {
    s.map_values(|t: NamedType| (t.name@, t.ty@))
}

pub open spec fn call_views(s: Seq<(String, String)>) -> Seq<(Seq<char>, Seq<char>)> {
    s.map_values(|p: (String, String)| (p.0@, p.1@))
}

pub open spec fn facts_view(f: PackageFacts) -> FactsV {
    FactsV {
        name: f.name@,
        isa: strings_view(f.isa@),
        roles: strings_view(f.roles@),
        framework: f.framework,
        attributes: attr_views(f.attributes@),
        types: named_type_views(f.types@),
        constructor: f.constructor,
        buildargs: f.buildargs,
        open_constructor: f.open_constructor,
        dynamic: f.dynamic,
        exports: strings_view(f.exports@),
        exports_unknown: f.exports_unknown,
        uses: strings_view(f.uses@),
        file_scope_calls: call_views(f.file_scope_calls@),
    }
}

pub open spec fn facts_views(s: Seq<PackageFacts>) -> Seq<FactsV> {
    s.map_values(|f: PackageFacts| facts_view(f))
}

/// The facts of a package on its first mention: its framework, and a `new`
/// where that framework generates one.
pub open spec fn fresh_facts(name: Seq<char>, framework: Framework) -> FactsV {
    FactsV {
        name,
        isa: Seq::empty(),
        roles: Seq::empty(),
        framework,
        attributes: Seq::empty(),
        types: Seq::empty(),
        constructor: framework == Framework::AccessorTyped,
        buildargs: false,
        open_constructor: false,
        dynamic: false,
        exports: Seq::empty(),
        exports_unknown: false,
        uses: Seq::empty(),
        file_scope_calls: Seq::empty(),
    }
}

/// Where the facts about `name` stand, from `i` on.
pub open spec fn facts_at(fs: Seq<FactsV>, name: Seq<char>, i: int) -> Option<int>
    decreases fs.len() - i,
{
    if i < 0 || i >= fs.len() {
        None
    } else if fs[i].name == name {
        Some(i)
    } else {
        facts_at(fs, name, i + 1)
    }
}

proof fn lemma_facts_at(fs: Seq<FactsV>, name: Seq<char>, i: int)
    requires
        0 <= i,
    ensures
        facts_at(fs, name, i) matches Some(j) ==> i <= j < fs.len() && fs[j].name == name,
    decreases fs.len() - i,
{
    if i < fs.len() && fs[i].name != name {
        lemma_facts_at(fs, name, i + 1);
    }
}

/// The facts with an entry for `name`, added if there was none.
pub open spec fn with_facts(fs: Seq<FactsV>, name: Seq<char>, framework: Framework) -> Seq<FactsV> {
    match facts_at(fs, name, 0) {
        Some(_) => fs,
        None => fs.push(fresh_facts(name, framework)),
    }
}

/// Where the entry for `name` stands once it exists.
pub open spec fn facts_slot(fs: Seq<FactsV>, name: Seq<char>) -> int {
    match facts_at(fs, name, 0) {
        Some(i) => i,
        None => fs.len() as int,
    }
}

/// The facts with the entry for `name`, created first if need be, changed by
/// `change`.
pub open spec fn change_facts(
    fs: Seq<FactsV>,
    name: Seq<char>,
    framework: Framework,
    change: spec_fn(FactsV) -> FactsV,
) -> Seq<FactsV> {
    let g = with_facts(fs, name, framework);
    let i = facts_slot(fs, name);
    g.update(i, change(g[i]))
}

pub open spec fn spec_framework_of(f: Frameworks) -> Framework {
    if f.moose {
        Framework::Moose
    } else if f.accessor_typed {
        Framework::AccessorTyped
    } else if f.accessor_lite {
        Framework::AccessorLite
    } else {
        Framework::Plain
    }
}

/// The framework a package's own imports put it in, from `i` on; a package
/// that imported nothing is plain.
pub open spec fn framework_in(fws: Seq<(String, Frameworks)>, name: Seq<char>, i: int) -> Framework
    decreases fws.len() - i,
{
    if i < 0 || i >= fws.len() {
        Framework::Plain
    } else if fws[i].0@ == name {
        spec_framework_of(fws[i].1)
    } else {
        framework_in(fws, name, i + 1)
    }
}

/// What the declaration pass carries from one statement to the next.
pub struct DeclPass {
    pub decls: FileDecls,
    pub sink: Sink,
    /// What each package's own imports say a bareword in it could mean.
    pub frameworks: Vec<(String, Frameworks)>,
    /// What this project's own modules stand in for.
    pub dialect: Dialect,
    /// The file loads XS or assigns a glob.
    pub dynamic: bool,
    /// Packages whose accessor declaration said whether there is a `new`.
    pub decided_constructor: Vec<String>,
}

/// Everything but the facts is as it was.
pub open spec fn same_but_facts(a: DeclPass, b: DeclPass) -> bool {
    &&& a.decls.subs == b.decls.subs
    &&& a.decls.imports == b.decls.imports
    &&& a.decls.packages == b.decls.packages
    &&& a.decls.uses == b.decls.uses
    &&& a.decls.diagnostics == b.decls.diagnostics
    &&& a.decls.annotations == b.decls.annotations
    &&& a.sink == b.sink
    &&& a.frameworks == b.frameworks
    &&& a.dialect == b.dialect
    &&& a.dynamic == b.dynamic
    &&& a.decided_constructor == b.decided_constructor
}

fn new_facts(package: &str, framework: Framework) -> (f: PackageFacts)
    ensures
        facts_view(f) =~~= fresh_facts(package@, framework),
{
    let f = PackageFacts {
        name: package.to_string(),
        isa: Vec::new(),
        roles: Vec::new(),
        framework,
        attributes: Vec::new(),
        types: Vec::new(),
        constructor: framework == Framework::AccessorTyped,
        buildargs: false,
        open_constructor: false,
        dynamic: false,
        exports: Vec::new(),
        exports_unknown: false,
        uses: Vec::new(),
        file_scope_calls: Vec::new(),
    };
    proof {
        assert(strings_view(f.isa@) =~= Seq::<Seq<char>>::empty());
        assert(strings_view(f.roles@) =~= Seq::<Seq<char>>::empty());
        assert(strings_view(f.exports@) =~= Seq::<Seq<char>>::empty());
        assert(strings_view(f.uses@) =~= Seq::<Seq<char>>::empty());
        assert(attr_views(f.attributes@) =~= Seq::<AttrV>::empty());
        assert(named_type_views(f.types@) =~= Seq::<(Seq<char>, TypeV)>::empty());
        assert(call_views(f.file_scope_calls@) =~= Seq::<(Seq<char>, Seq<char>)>::empty());
    }
    f
}

/// The facts with the one at `i` taken out and `f` put in its place.
proof fn lemma_put_back(s: Seq<PackageFacts>, i: int, f: PackageFacts)
    requires
        0 <= i < s.len(),
    ensures
        facts_views(s.remove(i).insert(i, f)) == facts_views(s).update(i, facts_view(f)),
{
    assert(facts_views(s.remove(i).insert(i, f)) =~= facts_views(s).update(i, facts_view(f)));
}

impl DeclPass {
    /// The framework a package's own imports put it in.
    pub fn framework_for(&self, package: &str) -> (r: Framework)
        ensures
            r == framework_in(self.frameworks@, package@, 0),
    {
        let mut i: usize = 0;
        while i < self.frameworks.len()
            invariant
                i <= self.frameworks@.len(),
                framework_in(self.frameworks@, package@, 0) == framework_in(self.frameworks@, package@, i as int),
            decreases self.frameworks@.len() - i,
        {
            if same_text(self.frameworks[i].0.as_str(), package) {
                return self.frameworks[i].1.framework();
            }
            i += 1;
        }
        Framework::Plain
    }

    /// Where the facts for `package` stand, created on first mention.
    pub fn ensure_facts(&mut self, package: &str) -> (i: usize)
        ensures
            facts_views(final(self).decls.facts@) == with_facts(
                facts_views(old(self).decls.facts@),
                package@,
                framework_in(old(self).frameworks@, package@, 0),
            ),
            i == facts_slot(facts_views(old(self).decls.facts@), package@),
            i < final(self).decls.facts@.len(),
            same_but_facts(*old(self), *final(self)),
    {
        let ghost fs = facts_views(self.decls.facts@);
        let mut i: usize = 0;
        while i < self.decls.facts.len()
            invariant
                i <= self.decls.facts@.len(),
                fs == facts_views(self.decls.facts@),
                facts_at(fs, package@, 0) == facts_at(fs, package@, i as int),
            decreases self.decls.facts@.len() - i,
        {
            if same_text(self.decls.facts[i].name.as_str(), package) {
                assert(fs[i as int].name == package@);
                return i;
            }
            i += 1;
        }
        let framework = self.framework_for(package);
        let f = new_facts(package, framework);
        let n = self.decls.facts.len();
        self.decls.facts.push(f);
        assert(facts_views(self.decls.facts@) =~= fs.push(fresh_facts(package@, framework)));
        n
    }
}

// ===== `use` and `no` =====

/// The module a `use` or `no` names; `None` for `use 5.010` and for any other
/// statement.
pub open spec fn use_module(node: SyntaxNode) -> Option<Seq<char>> {
    if node.kind == NodeKind::UseStmt || node.kind == NodeKind::NoStmt {
        name_child_text(node)
    } else {
        None
    }
}

/// A module whose methods are written in C, where no recogniser reaches.
pub open spec fn loads_xs(m: Seq<char>) -> bool {
    m == "XSLoader"@ || m == "DynaLoader"@ || m == "Inline"@ || m == "Alien::Base"@
}

pub open spec fn is_lite_declaration(m: Seq<char>) -> bool {
    m == "Class::Accessor::Lite"@ || m == "Class::Accessor::Lite::Lazy"@
}

/// What a module's import list is: one of the declarations read here, or a
/// list of subs to import.
pub enum UseKind {
    Parents,
    Typed,
    Constant,
    Lite,
    Import,
}

pub open spec fn use_kind(m: Seq<char>) -> UseKind {
    if m == "parent"@ || m == "base"@ {
        UseKind::Parents
    } else if m == "Class::Accessor::Typed"@ {
        UseKind::Typed
    } else if m == "constant"@ {
        UseKind::Constant
    } else if is_lite_declaration(m) {
        UseKind::Lite
    } else {
        UseKind::Import
    }
}

/// The names, the `-norequire` flag's bare word left out.
pub open spec fn drop_norequire(ns: Seq<Seq<char>>) -> Seq<Seq<char>>
    decreases ns.len(),
{
    if ns.len() == 0 {
        Seq::empty()
    } else if ns.last() == "norequire"@ {
        drop_norequire(ns.drop_last())
    } else {
        drop_norequire(ns.drop_last()).push(ns.last())
    }
}

pub open spec fn with_use(f: FactsV, m: Seq<char>) -> FactsV {
    FactsV { uses: f.uses.push(m), ..f }
}

pub open spec fn with_parents(f: FactsV, parents: Seq<Seq<char>>) -> FactsV {
    FactsV { isa: f.isa + parents, ..f }
}

/// A `Class::Accessor::Typed` declaration decides whether there is a `new`.
pub open spec fn with_typed(f: FactsV, attrs: Seq<AttrV>, constructor: bool) -> FactsV {
    FactsV { attributes: f.attributes + attrs, constructor, ..f }
}

/// A `Class::Accessor::Lite` declaration that asks for a `new` gets one that
/// takes any hash.
pub open spec fn with_lite(f: FactsV, attrs: Seq<AttrV>, constructor: bool) -> FactsV {
    FactsV {
        attributes: f.attributes + attrs,
        constructor: f.constructor || constructor,
        open_constructor: f.open_constructor || constructor,
        ..f
    }
}

/// The facts once a `use` or `no` has been read in `package`.
pub open spec fn facts_after_use(
    fs: Seq<FactsV>,
    node: SyntaxNode,
    package: Seq<char>,
    fw: Framework,
    d: Seq<(Seq<char>, Seq<char>)>,
) -> Seq<FactsV> {
    match use_module(node) {
        None => fs,
        Some(m) => {
            let fs1 = if node.kind == NodeKind::UseStmt {
                change_facts(fs, package, fw, |f: FactsV| with_use(f, m))
            } else {
                fs
            };
            let read = spec_read_as(d, m);
            match arguments_of(node) {
                None => fs1,
                Some(a) => match use_kind(read) {
                    UseKind::Parents => change_facts(
                        fs1,
                        package,
                        fw,
                        |f: FactsV| with_parents(f, drop_norequire(spec_imported_names(a))),
                    ),
                    UseKind::Typed => {
                        let st = typed_fold(spec_pairs(a), spec_pairs(a).len() as int);
                        change_facts(fs1, package, fw, |f: FactsV| with_typed(f, st.attrs, st.constructor))
                    },
                    UseKind::Lite => {
                        let st = lite_fold(spec_pairs(a), spec_pairs(a).len() as int);
                        change_facts(fs1, package, fw, |f: FactsV| with_lite(f, st.attrs, st.constructor))
                    },
                    _ => fs1,
                },
            }
        },
    }
}

/// The modules the file uses, once a statement has been read.
pub open spec fn uses_after_use(uses: Seq<Seq<char>>, node: SyntaxNode) -> Seq<Seq<char>> {
    match use_module(node) {
        Some(m) => if node.kind == NodeKind::UseStmt {
            uses.push(m)
        } else {
            uses
        },
        None => uses,
    }
}

/// Where the import of `name` stands, from `i` on.
pub open spec fn import_at(imports: Seq<(Seq<char>, Seq<char>)>, name: Seq<char>, i: int) -> Option<int>
    decreases imports.len() - i,
{
    if i < 0 || i >= imports.len() {
        None
    } else if imports[i].0 == name {
        Some(i)
    } else {
        import_at(imports, name, i + 1)
    }
}

/// `name` imported from `module`: a later import of a name replaces the
/// earlier one.
pub open spec fn import_into(
    imports: Seq<(Seq<char>, Seq<char>)>,
    name: Seq<char>,
    module: Seq<char>,
) -> Seq<(Seq<char>, Seq<char>)> {
    match import_at(imports, name, 0) {
        Some(i) => imports.update(i, (name, module)),
        None => imports.push((name, module)),
    }
}

pub open spec fn imports_from(
    imports: Seq<(Seq<char>, Seq<char>)>,
    names: Seq<Seq<char>>,
    module: Seq<char>,
) -> Seq<(Seq<char>, Seq<char>)>
    decreases names.len(),
{
    if names.len() == 0 {
        imports
    } else {
        import_into(imports_from(imports, names.drop_last(), module), names.last(), module)
    }
}

/// The imports once a statement has been read: the names it asks for, from
/// the module as written, unless its list is a declaration.
pub open spec fn imports_after_use(
    imports: Seq<(Seq<char>, Seq<char>)>,
    node: SyntaxNode,
    d: Seq<(Seq<char>, Seq<char>)>,
) -> Seq<(Seq<char>, Seq<char>)> {
    match (use_module(node), arguments_of(node)) {
        (Some(m), Some(a)) => if use_kind(spec_read_as(d, m)) is Import {
            imports_from(imports, spec_imported_names(a), m)
        } else {
            imports
        },
        _ => imports,
    }
}

/// A `Class::Accessor::Typed` declaration with an argument list.
pub open spec fn typed_declaration(node: SyntaxNode, d: Seq<(Seq<char>, Seq<char>)>) -> Option<SyntaxNode> {
    match (use_module(node), arguments_of(node)) {
        (Some(m), Some(a)) => if use_kind(spec_read_as(d, m)) is Typed {
            Some(a)
        } else {
            None
        },
        _ => None,
    }
}

pub open spec fn with_name(s: Seq<Seq<char>>, name: Seq<char>) -> Seq<Seq<char>> {
    if s.contains(name) {
        s
    } else {
        s.push(name)
    }
}

/// The constants a statement declares.
pub open spec fn constants_of_use(node: SyntaxNode, d: Seq<(Seq<char>, Seq<char>)>) -> Seq<(Seq<char>, TextRange)> {
    match (use_module(node), arguments_of(node)) {
        (Some(m), Some(a)) => if use_kind(spec_read_as(d, m)) is Constant {
            spec_constant_names(a)
        } else {
            Seq::empty()
        },
        _ => Seq::empty(),
    }
}

/// A constant as a sub: no parameters to count and nothing known of what it
/// returns.
pub open spec fn is_constant_decl(s: SubDecl, package: Seq<char>, c: (Seq<char>, TextRange)) -> bool {
    &&& s.package@ == package
    &&& s.name@ == c.0
    &&& s.params is Unknown
    &&& s.returns.scalar@ == TypeV::Unknown
    &&& s.returns.list@ == ShapeV::Unknown
    &&& !s.returns.inferred
    &&& !s.returns.invocant
    &&& s.source == SymbolSource::Unknown
    &&& !s.constructs_own_class
    &&& s.range == c.1
    &&& s.file == 0
}

pub open spec fn subs_grew_by(
    before: Seq<SubDecl>,
    after: Seq<SubDecl>,
    package: Seq<char>,
    cs: Seq<(Seq<char>, TextRange)>,
) -> bool {
    &&& after.len() == before.len() + cs.len()
    &&& forall|i: int| 0 <= i < before.len() ==> after[i] == before[i]
    &&& forall|k: int| 0 <= k < cs.len() ==> is_constant_decl(#[trigger] after[before.len() + k], package, cs[k])
}

fn facts_push_use(facts: &mut Vec<PackageFacts>, i: usize, m: &String)
    requires
        i < old(facts)@.len(),
    ensures
        facts_views(final(facts)@) == facts_views(old(facts)@).update(
            i as int,
            with_use(facts_views(old(facts)@)[i as int], m@),
        ),
{
    let ghost s = facts@;
    let mut f = facts.remove(i);
    let ghost v = facts_view(f);
    f.uses.push(m.clone());
    assert(facts_view(f) =~~= with_use(v, m@));
    facts.insert(i, f);
    proof {
        lemma_put_back(s, i as int, f);
    }
}

fn facts_add_parents(facts: &mut Vec<PackageFacts>, i: usize, parents: Vec<String>)
    requires
        i < old(facts)@.len(),
    ensures
        facts_views(final(facts)@) == facts_views(old(facts)@).update(
            i as int,
            with_parents(facts_views(old(facts)@)[i as int], strings_view(parents@)),
        ),
{
    let ghost s = facts@;
    let mut parents = parents;
    let ghost p = strings_view(parents@);
    let mut f = facts.remove(i);
    let ghost v = facts_view(f);
    f.isa.append(&mut parents);
    assert(facts_view(f) =~~= with_parents(v, p));
    facts.insert(i, f);
    proof {
        lemma_put_back(s, i as int, f);
    }
}

fn facts_add_typed(facts: &mut Vec<PackageFacts>, i: usize, attributes: Vec<AttributeDecl>, constructor: bool)
    requires
        i < old(facts)@.len(),
    ensures
        facts_views(final(facts)@) == facts_views(old(facts)@).update(
            i as int,
            with_typed(facts_views(old(facts)@)[i as int], attr_views(attributes@), constructor),
        ),
{
    let ghost s = facts@;
    let mut attributes = attributes;
    let ghost a = attr_views(attributes@);
    let mut f = facts.remove(i);
    let ghost v = facts_view(f);
    f.attributes.append(&mut attributes);
    f.constructor = constructor;
    assert(facts_view(f) =~~= with_typed(v, a, constructor));
    facts.insert(i, f);
    proof {
        lemma_put_back(s, i as int, f);
    }
}

fn facts_add_lite(facts: &mut Vec<PackageFacts>, i: usize, attributes: Vec<AttributeDecl>, constructor: bool)
    requires
        i < old(facts)@.len(),
    ensures
        facts_views(final(facts)@) == facts_views(old(facts)@).update(
            i as int,
            with_lite(facts_views(old(facts)@)[i as int], attr_views(attributes@), constructor),
        ),
{
    let ghost s = facts@;
    let mut attributes = attributes;
    let ghost a = attr_views(attributes@);
    let mut f = facts.remove(i);
    let ghost v = facts_view(f);
    f.attributes.append(&mut attributes);
    if constructor {
        f.constructor = true;
        f.open_constructor = true;
    }
    assert(facts_view(f) =~~= with_lite(v, a, constructor));
    facts.insert(i, f);
    proof {
        lemma_put_back(s, i as int, f);
    }
}

/// The names, the `-norequire` flag's bare word left out.
pub fn without_norequire(names: &Vec<String>) -> (r: Vec<String>)
    ensures
        strings_view(r@) == drop_norequire(strings_view(names@)),
{
    let ghost ns = strings_view(names@);
    let mut out: Vec<String> = Vec::new();
    let mut i: usize = 0;
    assert(strings_view(out@) =~= drop_norequire(ns.subrange(0, 0)));
    while i < names.len()
        invariant
            i <= names@.len(),
            ns == strings_view(names@),
            strings_view(out@) == drop_norequire(ns.subrange(0, i as int)),
        decreases names@.len() - i,
    {
        proof {
            assert(ns.subrange(0, i + 1).drop_last() =~= ns.subrange(0, i as int));
            assert(ns.subrange(0, i + 1).last() == names@[i as int]@);
        }
        if !same_text(names[i].as_str(), "norequire") {
            let ghost v = strings_view(out@);
            out.push(names[i].clone());
            assert(strings_view(out@) =~= v.push(names@[i as int]@));
        }
        i += 1;
    }
    assert(ns.subrange(0, names@.len() as int) =~= ns);
    out
}

/// Record `name` as imported from `module`.
pub fn import_one(imports: &mut Vec<(String, String)>, name: &String, module: &String)
    ensures
        call_views(final(imports)@) == import_into(call_views(old(imports)@), name@, module@),
{
    let ghost v = call_views(imports@);
    let mut i: usize = 0;
    while i < imports.len()
        invariant
            i <= imports@.len(),
            v == call_views(imports@),
            *imports == *old(imports),
            import_at(v, name@, 0) == import_at(v, name@, i as int),
        decreases imports@.len() - i,
    {
        if same_text(imports[i].0.as_str(), name.as_str()) {
            imports.set(i, (name.clone(), module.clone()));
            assert(call_views(imports@) =~= v.update(i as int, (name@, module@)));
            return;
        }
        i += 1;
    }
    imports.push((name.clone(), module.clone()));
    assert(call_views(imports@) =~= v.push((name@, module@)));
}

/// Record every one of `names` as imported from `module`.
pub fn import_all(imports: &mut Vec<(String, String)>, names: &Vec<String>, module: &String)
    ensures
        call_views(final(imports)@) == imports_from(call_views(old(imports)@), strings_view(names@), module@),
{
    let ghost start = call_views(imports@);
    let ghost ns = strings_view(names@);
    let mut i: usize = 0;
    assert(ns.subrange(0, 0) =~= Seq::<Seq<char>>::empty());
    while i < names.len()
        invariant
            i <= names@.len(),
            ns == strings_view(names@),
            start == call_views(old(imports)@),
            call_views(imports@) == imports_from(start, ns.subrange(0, i as int), module@),
        decreases names@.len() - i,
    {
        proof {
            assert(ns.subrange(0, i + 1).drop_last() =~= ns.subrange(0, i as int));
            assert(ns.subrange(0, i + 1).last() == names@[i as int]@);
        }
        import_one(imports, &names[i], module);
        i += 1;
    }
    assert(ns.subrange(0, names@.len() as int) =~= ns);
}

/// Declare every constant as a sub of `package`.
pub fn add_constants(subs: &mut Vec<SubDecl>, package: &str, names: &Vec<(String, TextRange)>)
    ensures
        subs_grew_by(old(subs)@, final(subs)@, package@, named_views(names@)),
{
    let ghost before = subs@;
    let ghost cs = named_views(names@);
    let mut k: usize = 0;
    while k < names.len()
        invariant
            k <= names@.len(),
            cs == named_views(names@),
            before == old(subs)@,
            subs_grew_by(before, subs@, package@, cs.subrange(0, k as int)),
        decreases names@.len() - k,
    {
        let ghost prior = subs@;
        let (name, range) = &names[k];
        subs.push(SubDecl {
            package: package.to_string(),
            name: name.clone(),
            params: Params::Unknown,
            returns: Returns::default(),
            source: SymbolSource::Unknown,
            constructs_own_class: false,
            range: *range,
            file: 0,
        });
        proof {
            let c2 = cs.subrange(0, k + 1);
            assert forall|j: int| 0 <= j < c2.len() implies is_constant_decl(
                #[trigger] subs@[before.len() + j],
                package@,
                c2[j],
            ) by {
                if j < k {
                    assert(c2[j] == cs.subrange(0, k as int)[j]);
                    assert(subs@[before.len() + j] == prior[before.len() + j]);
                } else {
                    assert(c2[j] == cs[k as int]);
                }
            }
        }
        k += 1;
    }
    assert(cs.subrange(0, names@.len() as int) =~= cs);
}

/// Add `name` to a set of names, once.
pub fn note_name(names: &mut Vec<String>, name: &str)
    ensures
        strings_view(final(names)@) == with_name(strings_view(old(names)@), name@),
{
    let ghost v = strings_view(names@);
    let mut i: usize = 0;
    while i < names.len()
        invariant
            i <= names@.len(),
            v == strings_view(names@),
            *names == *old(names),
            forall|j: int| 0 <= j < i ==> v[j] != name@,
        decreases names@.len() - i,
    {
        if same_text(names[i].as_str(), name) {
            assert(v[i as int] == name@);
            assert(v.contains(name@));
            return;
        }
        i += 1;
    }
    assert(!v.contains(name@));
    names.push(name.to_string());
    assert(strings_view(names@) =~= v.push(name@));
}

impl DeclPass {
    /// `use Foo qw(bar)`, `use parent -norequire, 'Base'`, `use constant`,
    /// and the accessor declarations that are `use` statements whose argument
    /// list is the declaration.
    pub fn use_statement(&mut self, node: &SyntaxNode, package: &str)
        ensures
            ({
                let d = old(self).dialect.entries();
                let fw = framework_in(old(self).frameworks@, package@, 0);
                &&& facts_views(final(self).decls.facts@) == facts_after_use(
                    facts_views(old(self).decls.facts@),
                    *node,
                    package@,
                    fw,
                    d,
                )
                &&& strings_view(final(self).decls.uses@) == uses_after_use(strings_view(old(self).decls.uses@), *node)
                &&& call_views(final(self).decls.imports@) == imports_after_use(
                    call_views(old(self).decls.imports@),
                    *node,
                    d,
                )
                &&& final(self).dynamic == (old(self).dynamic || (use_module(*node) matches Some(m) && loads_xs(
                    spec_read_as(d, m),
                )))
                &&& subs_grew_by(old(self).decls.subs@, final(self).decls.subs@, package@, constants_of_use(*node, d))
                &&& match typed_declaration(*node, d) {
                    Some(a) => {
                        let st = typed_fold(spec_pairs(a), spec_pairs(a).len() as int);
                        &&& sink_grew(old(self).sink, final(self).sink, st.notes, st.bads)
                        &&& strings_view(final(self).decided_constructor@) == with_name(
                            strings_view(old(self).decided_constructor@),
                            package@,
                        )
                    },
                    None => final(self).sink == old(self).sink && final(self).decided_constructor
                        == old(self).decided_constructor,
                }
                &&& final(self).decls.packages == old(self).decls.packages
                &&& final(self).decls.diagnostics == old(self).decls.diagnostics
                &&& final(self).decls.annotations == old(self).decls.annotations
                &&& final(self).frameworks == old(self).frameworks
                &&& final(self).dialect == old(self).dialect
            }),
    {
        let ghost d = self.dialect.entries();
        let ghost fw = framework_in(self.frameworks@, package@, 0);
        let ghost fs0 = facts_views(self.decls.facts@);
        let is_use = node.kind == NodeKind::UseStmt;
        if !is_use && node.kind != NodeKind::NoStmt {
            return;
        }
        let (module, arguments) = if is_use {
            let view = UseStmt(node);
            (view.module(), view.arguments())
        } else {
            let view = NoStmt(node);
            (view.module(), view.arguments())
        };
        let module = match module {
            Some(m) => m,
            None => return,
        };
        let ghost m = module@;
        if is_use {
            self.decls.uses.push(module.clone());
            let i = self.ensure_facts(package);
            facts_push_use(&mut self.decls.facts, i, &module);
            assert(strings_view(self.decls.uses@) =~= uses_after_use(strings_view(old(self).decls.uses@), *node));
        }
        let ghost fs1 = facts_views(self.decls.facts@);
        assert(fs1 == (if is_use {
            change_facts(fs0, package@, fw, |f: FactsV| with_use(f, m))
        } else {
            fs0
        }));
        let read = self.dialect.read_as(module.as_str()).to_string();
        if same_text(read.as_str(), "XSLoader") || same_text(read.as_str(), "DynaLoader") || same_text(
            read.as_str(),
            "Inline",
        ) || same_text(read.as_str(), "Alien::Base") {
            self.dynamic = true;
        }
        let arguments = match arguments {
            Some(a) => a,
            None => {
                assert(subs_grew_by(old(self).decls.subs@, self.decls.subs@, package@, Seq::empty()));
                return;
            },
        };
        let ghost a = *arguments;
        if same_text(read.as_str(), "parent") || same_text(read.as_str(), "base") {
            let names = imported_names(arguments);
            let parents = without_norequire(&names);
            let i = self.ensure_facts(package);
            facts_add_parents(&mut self.decls.facts, i, parents);
            assert(facts_views(self.decls.facts@) == change_facts(
                fs1,
                package@,
                fw,
                |f: FactsV| with_parents(f, drop_norequire(spec_imported_names(a))),
            ));
            assert(subs_grew_by(old(self).decls.subs@, self.decls.subs@, package@, Seq::empty()));
        } else if same_text(read.as_str(), "Class::Accessor::Typed") {
            let (attributes, constructor) = read_accessor_typed(arguments, &mut self.sink);
            note_name(&mut self.decided_constructor, package);
            let i = self.ensure_facts(package);
            facts_add_typed(&mut self.decls.facts, i, attributes, constructor);
            assert(subs_grew_by(old(self).decls.subs@, self.decls.subs@, package@, Seq::empty()));
        } else if same_text(read.as_str(), "constant") {
            let names = constant_names(arguments);
            add_constants(&mut self.decls.subs, package, &names);
            assert(constants_of_use(*node, d) == spec_constant_names(a));
        } else if same_text(read.as_str(), "Class::Accessor::Lite") || same_text(
            read.as_str(),
            "Class::Accessor::Lite::Lazy",
        ) {
            let (attributes, constructor) = read_accessor_lite(arguments);
            let i = self.ensure_facts(package);
            facts_add_lite(&mut self.decls.facts, i, attributes, constructor);
            assert(subs_grew_by(old(self).decls.subs@, self.decls.subs@, package@, Seq::empty()));
            assert(facts_views(self.decls.facts@) == facts_after_use(fs0, *node, package@, fw, d));
        } else {
            let names = imported_names(arguments);
            import_all(&mut self.decls.imports, &names, &module);
            assert(subs_grew_by(old(self).decls.subs@, self.decls.subs@, package@, Seq::empty()));
            assert(facts_views(self.decls.facts@) == facts_after_use(fs0, *node, package@, fw, d));
        }
    }
}

// ===== Assignments to `@ISA` and `@EXPORT`, globs, `require` =====

/// The package an assignment to `@ARRAY` is about, reading the variables of
/// its left side in order: `@ARRAY` is the package the statement sits in,
/// `@Other::ARRAY` names its own.
pub open spec fn assigned_in(ns: Seq<SyntaxNode>, array: Seq<char>, package: Seq<char>, i: int) -> Option<Seq<char>>
    decreases ns.len() - i,
{
    if i < 0 || i >= ns.len() {
        None
    } else {
        let n = ns[i];
        let name = crate::ast::name_of(child_tokens(n));
        let suffix = seq![':', ':'] + array;
        if crate::ast::is_variable_kind(n.kind) && crate::ast::sigil_of_kind(n.kind) == crate::ast::Sigil::Array
            && name.len() > 0 {
            if name == array {
                Some(package)
            } else if crate::text::spec_ends_with(name, suffix) && name.len() > suffix.len() {
                Some(name.subrange(0, name.len() - suffix.len()))
            } else {
                assigned_in(ns, array, package, i + 1)
            }
        } else {
            assigned_in(ns, array, package, i + 1)
        }
    }
}

pub open spec fn spec_assigned_package(target: SyntaxNode, array: Seq<char>, package: Seq<char>) -> Option<Seq<char>> {
    assigned_in(crate::params::preorder(target), array, package, 0)
}

/// Which package an assignment to `@ISA` or `@EXPORT` is about.
pub fn assigned_package(target: &SyntaxNode, array: &str, package: &str) -> (r: Option<String>)
    ensures
        match spec_assigned_package(*target, array@, package@) {
            Some(o) => r matches Some(s) && s@ == o,
            None => r is None,
        },
{
    let mut suffix = String::new();
    crate::text::append(&mut suffix, "::");
    crate::text::append(&mut suffix, array);
    proof {
        reveal_strlit("::");
        assert(suffix@ =~= seq![':', ':'] + array@);
    }
    let all = crate::params::descendants(target);
    let ghost ns = deref_nodes(all@);
    let mut i: usize = 0;
    while i < all.len()
        invariant
            i <= all@.len(),
            ns == deref_nodes(all@),
            ns == crate::params::preorder(*target),
            suffix@ == seq![':', ':'] + array@,
            spec_assigned_package(*target, array@, package@) == assigned_in(ns, array@, package@, i as int),
        decreases all@.len() - i,
    {
        assert(ns[i as int] == *all@[i as int]);
        match crate::ast::Variable::cast(all[i]) {
            Some(variable) => {
                if variable.sigil() == crate::ast::Sigil::Array {
                    match variable.name() {
                        Some(name) => {
                            if same_text(name.as_str(), array) {
                                return Some(package.to_string());
                            }
                            let c = crate::text::chars_of(name.as_str());
                            let k = suffix.unicode_len();
                            if crate::text::ends_with(name.as_str(), suffix.as_str()) && c.len() > k {
                                return Some(crate::text::string_of(&c, 0, c.len() - k));
                            }
                        },
                        None => {},
                    }
                }
            },
            None => {},
        }
        i += 1;
    }
    None
}

/// The assignment a statement makes: the first under it.
pub open spec fn assignment_of(statement: SyntaxNode) -> Option<SyntaxNode> {
    crate::params::first_descendant(statement, NodeKind::AssignExpr)
}

/// The two sides of the first assignment under a statement.
pub open spec fn assignment_sides(statement: SyntaxNode) -> Option<(SyntaxNode, Option<SyntaxNode>)> {
    match assignment_of(statement) {
        Some(a) => if child_nodes(a).len() == 0 {
            None
        } else {
            Some((child_nodes(a)[0], if child_nodes(a).len() > 1 { Some(child_nodes(a)[1]) } else { None }))
        },
        None => None,
    }
}

/// What an `@ISA` list names: every word of a `qw`, every bareword or plain
/// string; anything else is computed, and the package is then dynamic.
pub open spec fn isa_scan(es: Seq<SyntaxNode>) -> (Seq<Seq<char>>, bool)
    decreases es.len(),
{
    if es.len() == 0 {
        (Seq::empty(), false)
    } else {
        let prev = isa_scan(es.drop_last());
        let e = es.last();
        if e.kind == NodeKind::QwExpr {
            (prev.0 + qw_words(e), prev.1)
        } else {
            match spec_key_text(e) {
                Some(name) => (prev.0.push(name), prev.1),
                None => (prev.0, true),
            }
        }
    }
}

pub open spec fn with_isa_assignment(f: FactsV, parents: Seq<Seq<char>>, opaque: bool) -> FactsV {
    FactsV { isa: f.isa + parents, dynamic: f.dynamic || opaque, ..f }
}

/// The facts once an `our @ISA = (...)` statement has been read.
pub open spec fn facts_after_isa(fs: Seq<FactsV>, fws: Seq<(String, Frameworks)>, node: SyntaxNode, package: Seq<char>) -> Seq<FactsV> {
    match assignment_sides(node) {
        Some((target, Some(value))) => match spec_assigned_package(target, "ISA"@, package) {
            Some(owner) => {
                let scan = isa_scan(spec_elements(value));
                change_facts(fs, owner, framework_in(fws, owner, 0), |f: FactsV| with_isa_assignment(f, scan.0, scan.1))
            },
            None => fs,
        },
        _ => fs,
    }
}

/// What an `@EXPORT` list names, or `None` when it is not a list of names:
/// `&name` is a sub written the long way, and a variable is passed over.
pub open spec fn export_scan(es: Seq<SyntaxNode>) -> Option<Seq<Seq<char>>>
    decreases es.len(),
{
    if es.len() == 0 {
        Some(Seq::empty())
    } else {
        match export_scan(es.drop_last()) {
            None => None,
            Some(prev) => {
                let e = es.last();
                let words: Option<Seq<Seq<char>>> = if e.kind == NodeKind::QwExpr {
                    Some(qw_words(e))
                } else if e.kind == NodeKind::Literal {
                    match spec_literal_string(e) {
                        Some(s) => Some(seq![s]),
                        None => None,
                    }
                } else {
                    None
                };
                match words {
                    Some(ws) => Some(prev + sub_names(ws)),
                    None => None,
                }
            },
        }
    }
}

/// The words that name subs: a leading `&` dropped, variables left out.
pub open spec fn sub_names(ws: Seq<Seq<char>>) -> Seq<Seq<char>>
    decreases ws.len(),
{
    if ws.len() == 0 {
        Seq::empty()
    } else {
        let w = ws.last();
        let name = if w.len() > 0 && w[0] == '&' { w.subrange(1, w.len() as int) } else { w };
        if name.len() > 0 && (name[0] == '$' || name[0] == '@' || name[0] == '%' || name[0] == '*') {
            sub_names(ws.drop_last())
        } else {
            sub_names(ws.drop_last()).push(name)
        }
    }
}

pub open spec fn spec_exported_names(value: SyntaxNode) -> Option<Seq<Seq<char>>> {
    let es = spec_elements(value);
    if es.len() == 0 {
        None
    } else {
        export_scan(es)
    }
}

/// The facts once an `our @EXPORT = ...` statement has been read.
pub open spec fn facts_after_export(fs: Seq<FactsV>, fws: Seq<(String, Frameworks)>, node: SyntaxNode, package: Seq<char>) -> Seq<FactsV> {
    match assignment_sides(node) {
        Some((target, Some(value))) => match spec_assigned_package(target, "EXPORT"@, package) {
            Some(owner) => match spec_exported_names(value) {
                Some(names) => change_facts(fs, owner, framework_in(fws, owner, 0), |f: FactsV| FactsV { exports: f.exports + names, ..f }),
                None => change_facts(fs, owner, framework_in(fws, owner, 0), |f: FactsV| FactsV { exports_unknown: true, ..f }),
            },
            None => fs,
        },
        _ => fs,
    }
}

/// Whether a `*` glob sigil is written anywhere in a node.
pub open spec fn holds_glob_sigil(target: SyntaxNode) -> bool {
    exists|i: int, k: int|
        0 <= i < crate::params::preorder(target).len() && 0 <= k < child_tokens(crate::params::preorder(target)[i]).len()
            && (#[trigger] child_tokens(crate::params::preorder(target)[i])[k]).kind == TokenKind::TypeglobSigil
}

/// Whether a statement assigns to a glob: `*Foo::bar = sub {...}` or
/// `*{"${class}::$name"} = ...`.
pub open spec fn assigns_a_glob(statement: SyntaxNode) -> bool {
    match assignment_sides(statement) {
        Some((target, _)) => (target.kind == NodeKind::TypeglobVar || target.kind == NodeKind::BlockDerefExpr)
            && holds_glob_sigil(target),
        None => false,
    }
}

/// The modules `require Foo::Bar` statements under a node load, in order.
pub open spec fn required_modules(ns: Seq<SyntaxNode>) -> Seq<Seq<char>>
    decreases ns.len(),
{
    if ns.len() == 0 {
        Seq::empty()
    } else {
        let n = ns.last();
        required_modules(ns.drop_last()) + if n.kind == NodeKind::RequireExpr {
            match child_of(n, NodeKind::SubName) {
                Some(name) => seq![joined(name)],
                None => Seq::empty(),
            }
        } else {
            Seq::empty()
        }
    }
}

/// The call a statement is: the first method call under it, where it starts
/// where the statement does.
pub open spec fn leading_method_call(statement: SyntaxNode) -> Option<SyntaxNode> {
    match crate::params::first_descendant(statement, NodeKind::MethodCallExpr) {
        Some(c) => if c.range.start == statement.range.start {
            Some(c)
        } else {
            None
        },
        None => None,
    }
}

/// `Some::Generator->make_methods(...)` at file scope: the class it is called
/// on, `__PACKAGE__` meaning the package the statement is in, and the
/// method.
pub open spec fn spec_file_scope_call(node: SyntaxNode, package: Seq<char>) -> Option<(Seq<char>, Seq<char>)> {
    match leading_method_call(node) {
        Some(c) => match first_of_kind(child_nodes(c), NodeKind::SubName, 1) {
            Some(m) => if child_nodes(c).len() > 0 {
                match spec_key_text(child_nodes(c)[0]) {
                    Some(target) => Some((if target == "__PACKAGE__"@ { package } else { target }, joined(child_nodes(c)[m]))),
                    None => None,
                }
            } else {
                None
            },
            None => None,
        },
        None => None,
    }
}

pub fn words_of_qw(node: &SyntaxNode) -> (r: Vec<String>)
    requires
        node.kind == NodeKind::QwExpr,
    ensures
        strings_view(r@) == qw_words(*node),
{
    let words = QwExpr(node).words();
    assert(strings_view(words@) == qw_words(*node));
    words
}

/// What an `@EXPORT` list names, or `None` when it is not a list of names.
pub fn exported_names(value: &SyntaxNode) -> (r: Option<Vec<String>>)
    ensures
        match spec_exported_names(*value) {
            Some(names) => r matches Some(v) && strings_view(v@) == names,
            None => r is None,
        },
{
    let elements = Args::elements(value);
    let ghost es = spec_elements(*value);
    if elements.len() == 0 {
        return None;
    }
    let mut names: Vec<String> = Vec::new();
    let mut i: usize = 0;
    assert(es.subrange(0, 0) =~= Seq::<SyntaxNode>::empty());
    assert(strings_view(names@) =~= Seq::<Seq<char>>::empty());
    while i < elements.len()
        invariant
            i <= elements@.len(),
            deref_nodes(elements@) == es,
            es == spec_elements(*value),
            es.len() > 0,
            export_scan(es.subrange(0, i as int)) == Some(strings_view(names@)),
        decreases elements@.len() - i,
    {
        let e = elements[i];
        proof {
            assert(es.subrange(0, i + 1).drop_last() =~= es.subrange(0, i as int));
            assert(es.subrange(0, i + 1).last() == *e);
        }
        let words = if e.kind == NodeKind::QwExpr {
            words_of_qw(e)
        } else if e.kind == NodeKind::Literal {
            match Literal(e).as_string() {
                Some(text) => {
                    let mut one: Vec<String> = Vec::new();
                    one.push(text);
                    assert(strings_view(one@) =~= seq![one@[0]@]);
                    one
                },
                None => {
                    proof {
                        assert(export_scan(es.subrange(0, i + 1)) is None);
                        lemma_export_scan_stops(es, i as int + 1, es.len() as int);
                        assert(es.subrange(0, es.len() as int) =~= es);
                    }
                    return None;
                },
            }
        } else {
            proof {
                assert(export_scan(es.subrange(0, i + 1)) is None);
                lemma_export_scan_stops(es, i as int + 1, es.len() as int);
                assert(es.subrange(0, es.len() as int) =~= es);
            }
            return None;
        };
        let ghost ws = strings_view(words@);
        let ghost before = strings_view(names@);
        let mut j: usize = 0;
        assert(before + sub_names(ws.subrange(0, 0)) =~= before);
        while j < words.len()
            invariant
                j <= words@.len(),
                ws == strings_view(words@),
                strings_view(names@) == before + sub_names(ws.subrange(0, j as int)),
            decreases words@.len() - j,
        {
            proof {
                assert(ws.subrange(0, j + 1).drop_last() =~= ws.subrange(0, j as int));
                assert(ws.subrange(0, j + 1).last() == words@[j as int]@);
            }
            let c = crate::text::chars_of(words[j].as_str());
            let from: usize = if c.len() > 0 && c[0] == '&' { 1 } else { 0 };
            let name = crate::text::string_of(&c, from, c.len());
            let skip = name.unicode_len() > 0 && {
                let first = name.get_char(0);
                first == '$' || first == '@' || first == '%' || first == '*'
            };
            proof {
                let w = ws[j as int];
                let spec_name = if w.len() > 0 && w[0] == '&' { w.subrange(1, w.len() as int) } else { w };
                assert(name@ =~= spec_name);
                assert(skip == (spec_name.len() > 0 && (spec_name[0] == '$' || spec_name[0] == '@' || spec_name[0] == '%' || spec_name[0] == '*')));
            }
            if !skip {
                let ghost v = strings_view(names@);
                names.push(name);
                assert(strings_view(names@) =~= v.push(names@[names@.len() - 1]@));
            }
            j += 1;
        }
        assert(ws.subrange(0, words@.len() as int) =~= ws);
        assert(strings_view(names@) =~= before + sub_names(ws));
        i += 1;
    }
    assert(es.subrange(0, elements@.len() as int) =~= es);
    Some(names)
}

proof fn lemma_export_scan_stops(es: Seq<SyntaxNode>, k: int, n: int)
    requires
        0 < k <= n <= es.len(),
        export_scan(es.subrange(0, k)) is None,
    ensures
        export_scan(es.subrange(0, n)) is None,
    decreases n - k,
{
    if n > k {
        lemma_export_scan_stops(es, k, n - 1);
        assert(es.subrange(0, n).drop_last() =~= es.subrange(0, n - 1));
    } else {
        assert(es.subrange(0, n) =~= es.subrange(0, k));
    }
    if n == es.len() {
        assert(es.subrange(0, n) =~= es);
    }
}


/// What an `@ISA` list names, and whether any of it is computed.
pub fn isa_parents(value: &SyntaxNode) -> (r: (Vec<String>, bool))
    ensures
        strings_view(r.0@) == isa_scan(spec_elements(*value)).0,
        r.1 == isa_scan(spec_elements(*value)).1,
{
    let elements = Args::elements(value);
    let ghost es = spec_elements(*value);
    let mut parents: Vec<String> = Vec::new();
    let mut opaque = false;
    let mut i: usize = 0;
    assert(es.subrange(0, 0) =~= Seq::<SyntaxNode>::empty());
    assert(strings_view(parents@) =~= Seq::<Seq<char>>::empty());
    while i < elements.len()
        invariant
            i <= elements@.len(),
            deref_nodes(elements@) == es,
            isa_scan(es.subrange(0, i as int)) == (strings_view(parents@), opaque),
        decreases elements@.len() - i,
    {
        let e = elements[i];
        proof {
            assert(es.subrange(0, i + 1).drop_last() =~= es.subrange(0, i as int));
            assert(es.subrange(0, i + 1).last() == *e);
        }
        let ghost v = strings_view(parents@);
        if e.kind == NodeKind::QwExpr {
            let mut words = words_of_qw(e);
            let ghost w = strings_view(words@);
            parents.append(&mut words);
            assert(strings_view(parents@) =~= v + w);
        } else {
            match key_text(e) {
                Some(name) => {
                    parents.push(name);
                    assert(strings_view(parents@) =~= v.push(parents@[parents@.len() - 1]@));
                },
                None => {
                    opaque = true;
                },
            }
        }
        i += 1;
    }
    assert(es.subrange(0, elements@.len() as int) =~= es);
    (parents, opaque)
}

/// Whether a `*` glob sigil is written anywhere in `target`.
pub fn has_glob_sigil(target: &SyntaxNode) -> (r: bool)
    ensures
        r == holds_glob_sigil(*target),
{
    let all = crate::params::descendants(target);
    let ghost ns = deref_nodes(all@);
    let mut i: usize = 0;
    while i < all.len()
        invariant
            i <= all@.len(),
            ns == deref_nodes(all@),
            ns == crate::params::preorder(*target),
            forall|a: int, k: int|
                0 <= a < i && 0 <= k < child_tokens(ns[a]).len() ==> (#[trigger] child_tokens(ns[a])[k]).kind
                    != TokenKind::TypeglobSigil,
        decreases all@.len() - i,
    {
        assert(ns[i as int] == *all@[i as int]);
        let ts = all[i].significant_tokens();
        let ghost cs = child_tokens(ns[i as int]);
        let mut k: usize = 0;
        while k < ts.len()
            invariant
                i < all@.len(),
                ns == deref_nodes(all@),
                ns == crate::params::preorder(*target),
                k <= ts@.len(),
                deref_tokens(ts@) == cs,
                cs == child_tokens(ns[i as int]),
                forall|j: int| 0 <= j < k ==> (#[trigger] cs[j]).kind != TokenKind::TypeglobSigil,
            decreases ts@.len() - k,
        {
            assert(cs[k as int] == *ts@[k as int]);
            if ts[k].kind == TokenKind::TypeglobSigil {
                assert(child_tokens(crate::params::preorder(*target)[i as int])[k as int].kind == TokenKind::TypeglobSigil);
                return true;
            }
            k += 1;
        }
        i += 1;
    }
    false
}

/// The record of a generator called at file scope, added to a package's facts.
pub open spec fn with_call(f: FactsV, call: (Seq<char>, Seq<char>)) -> FactsV {
    FactsV { file_scope_calls: f.file_scope_calls.push(call), ..f }
}

fn facts_add_isa(facts: &mut Vec<PackageFacts>, i: usize, parents: Vec<String>, opaque: bool)
    requires
        i < old(facts)@.len(),
    ensures
        facts_views(final(facts)@) == facts_views(old(facts)@).update(
            i as int,
            with_isa_assignment(facts_views(old(facts)@)[i as int], strings_view(parents@), opaque),
        ),
{
    let ghost s = facts@;
    let mut parents = parents;
    let ghost p = strings_view(parents@);
    let mut f = facts.remove(i);
    let ghost v = facts_view(f);
    f.isa.append(&mut parents);
    if opaque {
        f.dynamic = true;
    }
    assert(facts_view(f) =~~= with_isa_assignment(v, p, opaque));
    facts.insert(i, f);
    proof {
        lemma_put_back(s, i as int, f);
    }
}

fn facts_add_exports(facts: &mut Vec<PackageFacts>, i: usize, names: Vec<String>)
    requires
        i < old(facts)@.len(),
    ensures
        facts_views(final(facts)@) == facts_views(old(facts)@).update(
            i as int,
            FactsV { exports: facts_views(old(facts)@)[i as int].exports + strings_view(names@), ..facts_views(old(facts)@)[i as int] },
        ),
{
    let ghost s = facts@;
    let mut names = names;
    let ghost p = strings_view(names@);
    let mut f = facts.remove(i);
    let ghost v = facts_view(f);
    f.exports.append(&mut names);
    assert(facts_view(f) =~~= FactsV { exports: v.exports + p, ..v });
    facts.insert(i, f);
    proof {
        lemma_put_back(s, i as int, f);
    }
}

fn facts_mark_exports_unknown(facts: &mut Vec<PackageFacts>, i: usize)
    requires
        i < old(facts)@.len(),
    ensures
        facts_views(final(facts)@) == facts_views(old(facts)@).update(
            i as int,
            FactsV { exports_unknown: true, ..facts_views(old(facts)@)[i as int] },
        ),
{
    let ghost s = facts@;
    let mut f = facts.remove(i);
    let ghost v = facts_view(f);
    f.exports_unknown = true;
    assert(facts_view(f) =~~= FactsV { exports_unknown: true, ..v });
    facts.insert(i, f);
    proof {
        lemma_put_back(s, i as int, f);
    }
}

fn facts_push_call(facts: &mut Vec<PackageFacts>, i: usize, target: String, method: String)
    requires
        i < old(facts)@.len(),
    ensures
        facts_views(final(facts)@) == facts_views(old(facts)@).update(
            i as int,
            with_call(facts_views(old(facts)@)[i as int], (target@, method@)),
        ),
{
    let ghost s = facts@;
    let ghost call = (target@, method@);
    let mut f = facts.remove(i);
    let ghost v = facts_view(f);
    f.file_scope_calls.push((target, method));
    assert(facts_view(f) =~~= with_call(v, call));
    facts.insert(i, f);
    proof {
        lemma_put_back(s, i as int, f);
    }
}

/// The two sides of the first assignment under a statement.
fn assignment_sides_of(statement: &SyntaxNode) -> (r: Option<(&SyntaxNode, Option<&SyntaxNode>)>)
    ensures
        match assignment_sides(*statement) {
            Some((t, v)) => r matches Some(p) && *p.0 == t && match v {
                Some(x) => p.1 matches Some(y) && *y == x,
                None => p.1 is None,
            },
            None => r is None,
        },
{
    let assign = match crate::params::find_descendant(statement, NodeKind::AssignExpr) {
        Some(a) => a,
        None => return None,
    };
    let view = crate::ast::AssignExpr(assign);
    match view.target() {
        Some(t) => Some((t, view.value())),
        None => None,
    }
}

impl DeclPass {
    /// `our @ISA = ('Base');` and `@Other::ISA = qw(Base)`: the parents a
    /// package names, and whether its ancestry is computed.
    pub fn isa_assignment(&mut self, node: &SyntaxNode, package: &str)
        ensures
            facts_views(final(self).decls.facts@) == facts_after_isa(
                facts_views(old(self).decls.facts@),
                old(self).frameworks@,
                *node,
                package@,
            ),
            same_but_facts(*old(self), *final(self)),
    {
        let (target, value) = match assignment_sides_of(node) {
            Some(p) => p,
            None => return,
        };
        let value = match value {
            Some(v) => v,
            None => return,
        };
        let owner = match assigned_package(target, "ISA", package) {
            Some(o) => o,
            None => return,
        };
        let (parents, opaque) = isa_parents(value);
        let i = self.ensure_facts(owner.as_str());
        facts_add_isa(&mut self.decls.facts, i, parents, opaque);
    }

    /// `our @EXPORT = qw(a b);`: the names the package puts into every
    /// importer's namespace, or the mark that they cannot be read.
    pub fn export_assignment(&mut self, node: &SyntaxNode, package: &str)
        ensures
            facts_views(final(self).decls.facts@) == facts_after_export(
                facts_views(old(self).decls.facts@),
                old(self).frameworks@,
                *node,
                package@,
            ),
            same_but_facts(*old(self), *final(self)),
    {
        let (target, value) = match assignment_sides_of(node) {
            Some(p) => p,
            None => return,
        };
        let value = match value {
            Some(v) => v,
            None => return,
        };
        let owner = match assigned_package(target, "EXPORT", package) {
            Some(o) => o,
            None => return,
        };
        match exported_names(value) {
            Some(names) => {
                let i = self.ensure_facts(owner.as_str());
                facts_add_exports(&mut self.decls.facts, i, names);
            },
            None => {
                let i = self.ensure_facts(owner.as_str());
                facts_mark_exports_unknown(&mut self.decls.facts, i);
            },
        }
    }

    /// An assignment to a glob makes methods no file names: the file is then
    /// dynamic.
    pub fn glob_assignment(&mut self, node: &SyntaxNode)
        ensures
            final(self).dynamic == (old(self).dynamic || assigns_a_glob(*node)),
            final(self).decls == old(self).decls,
            final(self).sink == old(self).sink,
            final(self).frameworks == old(self).frameworks,
            final(self).dialect == old(self).dialect,
            final(self).decided_constructor == old(self).decided_constructor,
    {
        let (target, _value) = match assignment_sides_of(node) {
            Some(p) => p,
            None => return,
        };
        if (target.kind == NodeKind::TypeglobVar || target.kind == NodeKind::BlockDerefExpr) && has_glob_sigil(
            target,
        ) {
            self.dynamic = true;
        }
    }

    /// `require Foo::Bar;` is a dependency to follow, as a `use` is.
    pub fn require_statement(&mut self, node: &SyntaxNode)
        ensures
            strings_view(final(self).decls.uses@) == strings_view(old(self).decls.uses@) + required_modules(
                crate::params::preorder(*node),
            ),
            final(self).decls.subs == old(self).decls.subs,
            final(self).decls.facts == old(self).decls.facts,
            final(self).decls.imports == old(self).decls.imports,
            final(self).decls.packages == old(self).decls.packages,
            final(self).decls.diagnostics == old(self).decls.diagnostics,
            final(self).decls.annotations == old(self).decls.annotations,
            final(self).sink == old(self).sink,
            final(self).frameworks == old(self).frameworks,
            final(self).dialect == old(self).dialect,
            final(self).dynamic == old(self).dynamic,
            final(self).decided_constructor == old(self).decided_constructor,
    {
        let all = crate::params::descendants(node);
        let ghost ns = deref_nodes(all@);
        let ghost before = strings_view(self.decls.uses@);
        let mut i: usize = 0;
        assert(ns.subrange(0, 0) =~= Seq::<SyntaxNode>::empty());
        assert(before + required_modules(Seq::<SyntaxNode>::empty()) =~= before);
        while i < all.len()
            invariant
                i <= all@.len(),
                ns == deref_nodes(all@),
                before == strings_view(old(self).decls.uses@),
                strings_view(self.decls.uses@) == before + required_modules(ns.subrange(0, i as int)),
                self.decls.subs == old(self).decls.subs,
                self.decls.facts == old(self).decls.facts,
                self.decls.imports == old(self).decls.imports,
                self.decls.packages == old(self).decls.packages,
                self.decls.diagnostics == old(self).decls.diagnostics,
                self.decls.annotations == old(self).decls.annotations,
                self.sink == old(self).sink,
                self.frameworks == old(self).frameworks,
                self.dialect == old(self).dialect,
                self.dynamic == old(self).dynamic,
                self.decided_constructor == old(self).decided_constructor,
            decreases all@.len() - i,
        {
            let n = all[i];
            proof {
                assert(ns.subrange(0, i + 1).drop_last() =~= ns.subrange(0, i as int));
                assert(ns.subrange(0, i + 1).last() == *n);
            }
            let ghost v = strings_view(self.decls.uses@);
            if n.kind == NodeKind::RequireExpr {
                match n.first_child(NodeKind::SubName) {
                    Some(name) => {
                        self.decls.uses.push(name.joined_text());
                        assert(strings_view(self.decls.uses@) =~= v + seq![joined(*name)]);
                        assert(strings_view(self.decls.uses@) =~= before + required_modules(ns.subrange(0, i + 1)));
                    },
                    None => {
                        assert(strings_view(self.decls.uses@) =~= before + required_modules(ns.subrange(0, i + 1)));
                    },
                }
            } else {
                assert(strings_view(self.decls.uses@) =~= before + required_modules(ns.subrange(0, i + 1)));
            }
            i += 1;
        }
        assert(ns.subrange(0, all@.len() as int) =~= ns);
    }

    /// `Some::Generator->make_accessors([...])` at file scope: the generator
    /// may write methods into the package, and the package records the call.
    pub fn file_scope_call(&mut self, node: &SyntaxNode, package: &str)
        ensures
            match spec_file_scope_call(*node, package@) {
                Some(call) => facts_views(final(self).decls.facts@) == change_facts(
                    facts_views(old(self).decls.facts@),
                    package@,
                    framework_in(old(self).frameworks@, package@, 0),
                    |f: FactsV| with_call(f, call),
                ),
                None => final(self).decls.facts == old(self).decls.facts,
            },
            same_but_facts(*old(self), *final(self)),
    {
        let call = match crate::params::find_descendant(node, NodeKind::MethodCallExpr) {
            Some(c) => c,
            None => return,
        };
        if call.range.start != node.range.start {
            return;
        }
        let view = crate::ast::MethodCallExpr(call);
        let method = match view.method_name() {
            Some(m) => m,
            None => return,
        };
        let target = match view.invocant() {
            Some(inv) => match key_text(inv) {
                Some(t) => t,
                None => return,
            },
            None => return,
        };
        let target = if same_text(target.as_str(), "__PACKAGE__") {
            package.to_string()
        } else {
            target
        };
        let i = self.ensure_facts(package);
        facts_push_call(&mut self.decls.facts, i, target, method);
    }
}


// ===== The end of the pass =====

/// A package's facts once the whole file has been read: dynamic where the
/// file loads XS or assigns a glob, and a Moose-style package given its
/// generated `new` unless it decided for itself.
pub open spec fn finished_facts(f: FactsV, dynamic: bool, decided: Seq<Seq<char>>) -> FactsV {
    FactsV {
        dynamic: f.dynamic || dynamic,
        constructor: f.constructor || (f.framework == Framework::Moose && !decided.contains(f.name)),
        ..f
    }
}

fn decided_for(decided: &Vec<String>, name: &str) -> (r: bool)
    ensures
        r == strings_view(decided@).contains(name@),
{
    let ghost names = strings_view(decided@);
    let mut i: usize = 0;
    while i < decided.len()
        invariant
            i <= decided@.len(),
            names == strings_view(decided@),
            forall|k: int| 0 <= k < i ==> names[k] != name@,
        decreases decided@.len() - i,
    {
        if same_text(decided[i].as_str(), name) {
            assert(names[i as int] == name@);
            return true;
        }
        i += 1;
    }
    false
}

impl DeclPass {
    /// What the file declares, once every statement has been read: each
    /// package's facts finished, and what the recognisers said and read
    /// moved from the sink into the declarations.
    pub fn finish(self) -> (d: FileDecls)
        ensures
            facts_views(d.facts@) == facts_views(self.decls.facts@).map_values(
                |f: FactsV| finished_facts(f, self.dynamic, strings_view(self.decided_constructor@)),
            ),
            diagnostic_views(d.diagnostics@) == diagnostic_views(self.decls.diagnostics@) + diagnostic_views(self.sink.diagnostics@),
            d.annotations == self.sink.annotations,
            d.subs == self.decls.subs,
            d.imports == self.decls.imports,
            d.packages == self.decls.packages,
            d.uses == self.decls.uses,
    {
        let DeclPass { decls, sink, frameworks: _, dialect: _, dynamic, decided_constructor } = self;
        let FileDecls { subs, imports, packages, facts, uses, diagnostics, annotations: _ } = decls;
        let Sink { diagnostics: mut said, annotations } = sink;
        let ghost fs = facts_views(facts@);
        let ghost names = strings_view(decided_constructor@);
        let mut facts = facts;
        let mut done: Vec<PackageFacts> = Vec::new();
        let ghost mut i: int = 0;
        assert(fs.subrange(0, fs.len() as int) =~= fs);
        assert(fs.subrange(0, 0).map_values(|f: FactsV| finished_facts(f, dynamic, names)) =~= Seq::<FactsV>::empty());
        while facts.len() > 0
            invariant
                0 <= i <= fs.len(),
                facts_views(facts@) == fs.subrange(i, fs.len() as int),
                names == strings_view(decided_constructor@),
                facts_views(done@) == fs.subrange(0, i).map_values(|f: FactsV| finished_facts(f, dynamic, names)),
            decreases facts@.len(),
        {
            let ghost rest = facts_views(facts@);
            let mut f = facts.remove(0);
            let ghost v = facts_view(f);
            assert(v == rest[0]);
            assert(facts_views(facts@) =~= rest.drop_first());
            if dynamic {
                f.dynamic = true;
            }
            if f.framework == Framework::Moose && !decided_for(&decided_constructor, f.name.as_str()) {
                f.constructor = true;
            }
            assert(facts_view(f) =~~= finished_facts(v, dynamic, names));
            let ghost before = facts_views(done@);
            done.push(f);
            proof {
                assert(fs[i] == v);
                assert(facts_views(done@) =~= before.push(facts_view(f)));
                assert(fs.subrange(0, i + 1).map_values(|f: FactsV| finished_facts(f, dynamic, names)) =~= fs.subrange(0, i).map_values(
                    |f: FactsV| finished_facts(f, dynamic, names),
                ).push(finished_facts(v, dynamic, names)));
                assert(facts_views(facts@) =~= fs.subrange(i + 1, fs.len() as int));
                i = i + 1;
            }
        }
        assert(i == fs.len());
        assert(fs.subrange(0, i) =~= fs);
        let mut diagnostics = diagnostics;
        let ghost first = diagnostic_views(diagnostics@);
        let ghost second = diagnostic_views(said@);
        diagnostics.append(&mut said);
        assert(diagnostic_views(diagnostics@) =~= first + second);
        FileDecls { subs, imports, packages, facts: done, uses, diagnostics, annotations }
    }
}


// ===== What each package imports =====

/// What a package's imports say, as a value.
pub struct FwV {
    pub moose: bool,
    pub smart_args: bool,
    pub accessor_typed: bool,
    pub accessor_lite: bool,
    pub type_library: bool,
    pub dialect: Seq<(Seq<char>, Seq<char>)>,
}

pub open spec fn fw_view(f: Frameworks) -> FwV {
    FwV {
        moose: f.moose,
        smart_args: f.smart_args,
        accessor_typed: f.accessor_typed,
        accessor_lite: f.accessor_lite,
        type_library: f.type_library,
        dialect: f.dialect(),
    }
}

pub open spec fn fw_table(t: Seq<(String, Frameworks)>) -> Seq<(Seq<char>, FwV)> {
    t.map_values(|e: (String, Frameworks)| (e.0@, fw_view(e.1)))
}

/// Nothing imported yet.
pub open spec fn fresh_fw(d: Seq<(Seq<char>, Seq<char>)>) -> FwV {
    FwV { moose: false, smart_args: false, accessor_typed: false, accessor_lite: false, type_library: false, dialect: d }
}

/// One `use Foo` folded in, read as the dialect says.
pub open spec fn noted(f: FwV, module: Seq<char>) -> FwV {
    let m = spec_read_as(f.dialect, module);
    FwV {
        moose: f.moose || crate::annotate::is_moose_module(m),
        smart_args: f.smart_args || crate::annotate::is_smart_args_module(m),
        accessor_typed: f.accessor_typed || crate::annotate::is_accessor_typed_module(m),
        accessor_lite: f.accessor_lite || crate::annotate::is_accessor_lite_module(m),
        type_library: f.type_library || crate::annotate::spec_supplies_the_type_dsl(m),
        ..f
    }
}

/// What a `use` was given folded in: `use base 'Class::Accessor'` names the
/// framework in its arguments, and `use Class::Accessor 'antlers'` exports
/// `has`.
pub open spec fn noted_args(f: FwV, module: Seq<char>, ns: Seq<Seq<char>>) -> FwV {
    let d = f.dialect;
    let m = spec_read_as(d, module);
    let listed = crate::annotate::is_parent_or_base(m);
    FwV {
        moose: f.moose || (listed && crate::annotate::names_one(d, ns, |x: Seq<char>| crate::annotate::is_moose_module(x)))
            || (!listed && crate::annotate::is_accessor_class(m) && crate::annotate::asks_for_antlers(ns)),
        smart_args: f.smart_args || (listed && crate::annotate::names_one(d, ns, |x: Seq<char>| crate::annotate::is_smart_args_module(x))),
        accessor_typed: f.accessor_typed || (listed && crate::annotate::names_one(d, ns, |x: Seq<char>| crate::annotate::is_accessor_typed_module(x))),
        accessor_lite: f.accessor_lite || (listed && crate::annotate::names_one(d, ns, |x: Seq<char>| crate::annotate::is_accessor_lite_module(x))),
        type_library: f.type_library || (listed && crate::annotate::names_one(d, ns, |x: Seq<char>| crate::annotate::spec_supplies_the_type_dsl(x))),
        ..f
    }
}

/// Where the entry for `name` stands, from `i` on.
pub open spec fn fw_at(t: Seq<(Seq<char>, FwV)>, name: Seq<char>, i: int) -> Option<int>
    decreases t.len() - i,
{
    if i < 0 || i >= t.len() {
        None
    } else if t[i].0 == name {
        Some(i)
    } else {
        fw_at(t, name, i + 1)
    }
}

/// The table with an entry for `name`, made fresh where there was none.
pub open spec fn with_fw(t: Seq<(Seq<char>, FwV)>, name: Seq<char>, d: Seq<(Seq<char>, Seq<char>)>) -> Seq<(Seq<char>, FwV)> {
    match fw_at(t, name, 0) {
        Some(_) => t,
        None => t.push((name, fresh_fw(d))),
    }
}

pub open spec fn fw_slot(t: Seq<(Seq<char>, FwV)>, name: Seq<char>) -> int {
    match fw_at(t, name, 0) {
        Some(i) => i,
        None => t.len() as int,
    }
}

/// A `use` statement folded into the entry of the package it is written in.
pub open spec fn fw_use(t: Seq<(Seq<char>, FwV)>, package: Seq<char>, c: SyntaxNode, d: Seq<(Seq<char>, Seq<char>)>) -> Seq<(Seq<char>, FwV)> {
    match name_child_text(c) {
        None => t,
        Some(m) => {
            let t1 = with_fw(t, package, d);
            let i = fw_slot(t, package);
            let f1 = noted(t1[i].1, m);
            let f2 = match arguments_of(c) {
                Some(a) => noted_args(f1, m, spec_imported_names(a)),
                None => f1,
            };
            t1.update(i, (package, f2))
        },
    }
}

/// The imports under a node, by the package each is written in, from
/// `outer` on.
pub open spec fn fw_walk(t: Seq<(Seq<char>, FwV)>, n: SyntaxNode, outer: Seq<char>, d: Seq<(Seq<char>, Seq<char>)>) -> Seq<(Seq<char>, FwV)>
    decreases n,
{
    proof {
        assert(decreases_to!(n => n.children));
        assert(decreases_to!(n.children => n.children@));
    }
    fw_elems(t, n.children@, outer, d).0
}

/// The same over a run of siblings, and the package in force after them:
/// `package Foo;` runs on to the next, `package Foo { ... }` is its block.
pub open spec fn fw_elems(t: Seq<(Seq<char>, FwV)>, es: Seq<SyntaxElement>, outer: Seq<char>, d: Seq<(Seq<char>, Seq<char>)>) -> (Seq<(Seq<char>, FwV)>, Seq<char>)
    decreases es,
{
    if es.len() == 0 {
        (t, outer)
    } else {
        let (t1, package) = fw_elems(t, es.drop_last(), outer, d);
        match es.last() {
            SyntaxElement::Token(_) => (t1, package),
            SyntaxElement::Node(c) => if c.kind == NodeKind::PackageStmt {
                match name_child_text(c) {
                    None => (t1, package),
                    Some(name) => {
                        let t2 = with_fw(t1, name, d);
                        match first_of_kind(child_nodes(c), NodeKind::Block, 0) {
                            Some(j) => {
                                proof {
                                    lemma_first_kind_bounds(child_nodes(c), NodeKind::Block, 0);
                                    crate::ast::lemma_child_smaller(c, j);
                                }
                                (fw_walk(t2, child_nodes(c)[j], name, d), package)
                            },
                            None => (t2, name),
                        }
                    },
                }
            } else if c.kind == NodeKind::UseStmt {
                (fw_use(t1, package, c, d), package)
            } else {
                (fw_walk(t1, c, package, d), package)
            },
        }
    }
}

pub proof fn lemma_first_kind_bounds(ns: Seq<SyntaxNode>, k: NodeKind, i: int)
    ensures
        first_of_kind(ns, k, i) matches Some(j) ==> 0 <= i <= j < ns.len() && ns[j].kind == k,
    decreases ns.len() - i,
{
    if 0 <= i < ns.len() && ns[i].kind != k {
        lemma_first_kind_bounds(ns, k, i + 1);
    }
}

/// Every entry reads modules under `d`.
pub open spec fn dialects_are(tv: Seq<(Seq<char>, FwV)>, d: Seq<(Seq<char>, Seq<char>)>) -> bool {
    forall|k: int| 0 <= k < tv.len() ==> (#[trigger] tv[k]).1.dialect == d
}

proof fn lemma_fw_at(t: Seq<(Seq<char>, FwV)>, name: Seq<char>, i: int)
    ensures
        fw_at(t, name, i) matches Some(j) ==> 0 <= i <= j < t.len() && t[j].0 == name,
    decreases t.len() - i,
{
    if 0 <= i < t.len() && t[i].0 != name {
        lemma_fw_at(t, name, i + 1);
    }
}

proof fn lemma_with_fw_dialects(tv: Seq<(Seq<char>, FwV)>, name: Seq<char>, d: Seq<(Seq<char>, Seq<char>)>)
    requires
        dialects_are(tv, d),
    ensures
        dialects_are(with_fw(tv, name, d), d),
{
    let t1 = with_fw(tv, name, d);
    assert forall|k: int| 0 <= k < t1.len() implies (#[trigger] t1[k]).1.dialect == d by {
        if k < tv.len() {
            assert(t1[k] == tv[k]);
        }
    }
}

/// Where the entry for `name` stands in the table, made fresh where there was
/// none.
fn fw_entry(t: &mut Vec<(String, Frameworks)>, name: &str, dialect: &Dialect) -> (i: usize)
    ensures
        fw_table(final(t)@) == with_fw(fw_table(old(t)@), name@, dialect.entries()),
        i == fw_slot(fw_table(old(t)@), name@),
        i < final(t)@.len(),
{
    let ghost tv = fw_table(t@);
    let mut i: usize = 0;
    while i < t.len()
        invariant
            i <= t@.len(),
            tv == fw_table(t@),
            fw_at(tv, name@, 0) == fw_at(tv, name@, i as int),
        decreases t@.len() - i,
    {
        if same_text(t[i].0.as_str(), name) {
            assert(tv[i as int].0 == name@);
            return i;
        }
        i += 1;
    }
    let f = Frameworks::with_dialect(dialect.clone());
    t.push((name.to_string(), f));
    assert(fw_view(f) == fresh_fw(dialect.entries()));
    assert(fw_table(t@) =~= tv.push((name@, fresh_fw(dialect.entries()))));
    i
}

fn fw_note_use(t: &mut Vec<(String, Frameworks)>, package: &str, c: &SyntaxNode, dialect: &Dialect)
    requires
        c.kind == NodeKind::UseStmt,
        dialects_are(fw_table(old(t)@), dialect.entries()),
    ensures
        fw_table(final(t)@) == fw_use(fw_table(old(t)@), package@, *c, dialect.entries()),
        dialects_are(fw_table(final(t)@), dialect.entries()),
{
    let statement = UseStmt(c);
    let module = match statement.module() {
        Some(m) => m,
        None => return,
    };
    let ghost t0 = fw_table(t@);
    let i = fw_entry(t, package, dialect);
    let ghost t1 = fw_table(t@);
    proof {
        lemma_with_fw_dialects(t0, package@, dialect.entries());
    }
    let ghost before_remove = t@;
    let (key, mut f) = t.remove(i);
    assert(before_remove[i as int] == (key, f));
    assert(fw_view(f) == t1[i as int].1);
    assert(f.dialect() == dialect.entries());
    f.note(module.as_str());
    match statement.arguments() {
        Some(arguments) => {
            let names = imported_names(arguments);
            f.note_arguments(module.as_str(), names.as_slice());
            assert(names@.map_values(|n: String| n@) =~= strings_view(names@));
        },
        None => {},
    }
    t.insert(i, (key, f));
    proof {
        assert(key@ == package@) by {
            lemma_fw_at(t0, package@, 0);
            assert(t1[i as int].0 == key@);
        }
        assert(fw_table(t@) =~= t1.update(i as int, (package@, fw_view(f))));
        let t2 = fw_table(t@);
        assert forall|k: int| 0 <= k < t2.len() implies (#[trigger] t2[k]).1.dialect == dialect.entries() by {
            if k != i {
                assert(t2[k] == t1[k]);
            }
        }
    }
}

/// What each package in a file imports, by the package it is written in:
/// `package Foo { ... }` scopes to its block, `package Foo;` runs to the next.
pub fn collect_frameworks(node: &SyntaxNode, outer: &str, dialect: &Dialect, into: &mut Vec<(String, Frameworks)>)
    requires
        dialects_are(fw_table(old(into)@), dialect.entries()),
    ensures
        fw_table(final(into)@) == fw_walk(fw_table(old(into)@), *node, outer@, dialect.entries()),
        dialects_are(fw_table(final(into)@), dialect.entries()),
    decreases *node,
{
    let ghost d = dialect.entries();
    let ghost start = fw_table(into@);
    let mut package = outer.to_string();
    let mut i: usize = 0;
    proof {
        assert(decreases_to!(*node => node.children));
        assert(decreases_to!(node.children => node.children@));
    }
    assert(node.children@.subrange(0, 0) =~= Seq::<SyntaxElement>::empty());
    while i < node.children.len()
        invariant
            i <= node.children@.len(),
            d == dialect.entries(),
            start == fw_table(old(into)@),
            (fw_table(into@), package@) == fw_elems(start, node.children@.subrange(0, i as int), outer@, d),
            dialects_are(fw_table(into@), d),
        decreases node.children@.len() - i,
    {
        let ghost es = node.children@.subrange(0, i + 1);
        proof {
            assert(es.drop_last() =~= node.children@.subrange(0, i as int));
            assert(es.last() == node.children@[i as int]);
        }
        match &node.children[i] {
            SyntaxElement::Token(_) => {},
            SyntaxElement::Node(child) => {
                proof {
                    assert(decreases_to!(node.children@ => node.children@[i as int]));
                }
                if child.kind == NodeKind::PackageStmt {
                    let statement = crate::ast::PackageStmt(child);
                    match statement.name() {
                        None => {},
                        Some(name) => {
                            let ghost tb = fw_table(into@);
                            fw_entry(into, name.as_str(), dialect);
                            proof {
                                lemma_with_fw_dialects(tb, name@, d);
                            }
                            match child.first_child(NodeKind::Block) {
                                Some(block) => {
                                    proof {
                                        lemma_first_kind_bounds(child_nodes(*child), NodeKind::Block, 0);
                                        let j = first_of_kind(child_nodes(*child), NodeKind::Block, 0)->Some_0;
                                        crate::ast::lemma_child_smaller(*child, j);
                                    }
                                    collect_frameworks(block, name.as_str(), dialect, into);
                                },
                                None => {
                                    package = name;
                                },
                            }
                        },
                    }
                } else if child.kind == NodeKind::UseStmt {
                    fw_note_use(into, package.as_str(), child, dialect);
                } else {
                    collect_frameworks(child, package.as_str(), dialect, into);
                }
            },
        }
        i += 1;
    }
    assert(node.children@.subrange(0, node.children@.len() as int) =~= node.children@);
}

} // verus!
