//! What a file declares: its subs and their parameter lists, its packages and
//! what each of them is.

use vstd::prelude::*;

use crate::annotate::{AttributeDecl, Framework, NamedType, Annotated};
use crate::diag::Diagnostic;
use crate::shape::Returns;
use crate::span::TextRange;
use crate::text::same_text;
use crate::types::{Type, TypeV};

verus! {

/// Where a parameter list came from, which is what decides how loudly a
/// mismatch against it is reported.
#[derive(Debug, Clone, Copy, PartialEq, Eq, Structural)]
pub enum ParamSource {
    /// `sub f ($x, $y = 1)`. perl dies on a mismatch, so reporting one
    /// statically is free of false positives.
    Signature,
    /// `args my $x => 'Int'`. Smart::Args dies too.
    Args,
    /// `my ($self, $x) = @_` and a run of `my $x = shift`. perl does *not*
    /// die: a mismatch here is a warning about a shape, not an error.
    Unpacking,
    /// What an attribute declaration generates: an accessor, a `writer`, a
    /// `predicate`.
    Generated,
}

/// One parameter of a sub.
#[derive(Debug)]
pub struct Param {
    pub name: String,
    /// A default, an `optional => 1`, or a position past the first default.
    pub optional: bool,
    /// What the annotation says, `Unknown` when there is none.
    pub ty: Type,
}

impl Param {
    pub fn duplicate(&self) -> (p: Param)
        ensures
            p.name@ == self.name@,
            p.optional == self.optional,
            p.ty@ == self.ty@,
    {
        Param { name: self.name.clone(), optional: self.optional, ty: self.ty.duplicate() }
    }
}

impl Clone for Param {
    fn clone(&self) -> (p: Param)
        ensures
            p.name@ == self.name@,
            p.optional == self.optional,
            p.ty@ == self.ty@,
    {
        self.duplicate()
    }
}

/// A type annotation as it was written, before the type-expression parser.
#[derive(Debug, Clone)]
pub struct Annotation {
    pub text: String,
    /// Whether it arrived as a string (`'ArrayRef[Str]'`) rather than as an
    /// expression (`ArrayRef[Str]`, which is Perl).
    pub quoted: bool,
    pub range: TextRange,
}

/// What a call has to supply.
#[derive(Debug)]
pub enum Params {
    /// Nothing is known, and nothing is ever reported against it.
    Unknown,
    Positional {
        /// Every parameter, the invocant included.
        params: Vec<Param>,
        /// A `@rest` or `%opts` at the end: the maximum is unbounded.
        slurpy: bool,
        /// Whether the first parameter is a leading `$self` or `$class`.
        invocant: bool,
        source: ParamSource,
    },
    /// `args` — a `Dict` of named parameters.
    Named {
        /// The keys, and only the keys.
        params: Vec<Param>,
        /// The invocant's name (`$self`, `$class`), where the list has one.
        invocant: Option<String>,
        source: ParamSource,
    },
}

/// How many of the parameters must be passed.
pub open spec fn required_count(params: Seq<Param>) -> nat
    decreases params.len(),
{
    if params.len() == 0 {
        0
    } else {
        required_count(params.drop_last()) + if params.last().optional { 0nat } else { 1nat }
    }
}

pub proof fn lemma_required_count(params: Seq<Param>)
    ensures
        required_count(params) <= params.len(),
    decreases params.len(),
{
    if params.len() > 0 {
        lemma_required_count(params.drop_last());
    }
}

/// How many of the parameters must be passed, a leading invocant left out.
pub open spec fn required_without_invocant(params: Seq<Param>, invocant: bool) -> nat {
    if invocant && params.len() > 0 {
        required_count(params.drop_first())
    } else {
        required_count(params)
    }
}

/// Counting from the front: the first parameter, then the rest.
pub proof fn lemma_required_count_first(params: Seq<Param>)
    requires
        params.len() > 0,
    ensures
        required_count(params) == required_count(params.drop_first()) + if params[0].optional { 0nat } else { 1nat },
    decreases params.len(),
{
    if params.len() > 1 {
        lemma_required_count_first(params.drop_last());
        assert(params.drop_last().drop_first() =~= params.drop_first().drop_last());
    } else {
        assert(params.drop_first() =~= Seq::<Param>::empty());
        assert(params.drop_last() =~= Seq::<Param>::empty());
    }
}

impl Params {
    /// The fewest arguments a call may pass, invocant excluded.
    pub fn minimum(&self) -> (r: Option<usize>)
        ensures
            match self {
                Params::Unknown => r is None,
                Params::Positional { params, invocant, .. } => r is Some && r->Some_0 == required_without_invocant(
                    params@,
                    *invocant,
                ),
                Params::Named { params, .. } => r is Some && r->Some_0 == required_count(params@),
            },
    {
        let (params, invocant) = match self {
            Params::Unknown => return None,
            Params::Positional { params, invocant, .. } => (params, *invocant),
            Params::Named { params, .. } => (params, false),
        };
        let mut count: usize = 0;
        let mut i: usize = 0;
        while i < params.len()
            invariant
                i <= params@.len(),
                count == required_count(params@.subrange(0, i as int)),
                count <= i,
            decreases params@.len() - i,
        {
            proof {
                assert(params@.subrange(0, i + 1).drop_last() =~= params@.subrange(0, i as int));
            }
            if !params[i].optional {
                count += 1;
            }
            i += 1;
        }
        assert(params@.subrange(0, params@.len() as int) =~= params@);
        if invocant && params.len() > 0 {
            proof {
                lemma_required_count_first(params@);
            }
            if !params[0].optional {
                count -= 1;
            }
        }
        Some(count)
    }

    /// The most arguments a call may pass, or `None` for unbounded.
    pub fn maximum(&self) -> (r: Option<usize>)
        ensures
            match self {
                Params::Positional { params, slurpy, .. } => if *slurpy {
                    r is None
                } else {
                    r is Some && r->Some_0 == params@.len()
                },
                _ => r is None,
            },
    {
        match self {
            Params::Positional { params, slurpy, .. } => {
                if *slurpy {
                    None
                } else {
                    Some(params.len())
                }
            },
            _ => None,
        }
    }

    /// Whether the declaration was a bare `()` that might have been a
    /// prototype rather than a signature. A `method ()` is not one: its
    /// invocant is already in the list.
    pub fn is_empty_parens(&self) -> (r: bool)
        ensures
            r == (match self {
                Params::Positional { params, slurpy, invocant, source } => params@.len() == 0 && !*slurpy
                    && !*invocant && *source == ParamSource::Signature,
                _ => false,
            }),
    {
        match self {
            Params::Positional { params, slurpy, invocant, source } => {
                params.len() == 0 && !*slurpy && !*invocant && match source {
                    ParamSource::Signature => true,
                    _ => false,
                }
            },
            _ => false,
        }
    }

    pub fn source(&self) -> (r: Option<ParamSource>)
        ensures
            r == (match self {
                Params::Unknown => None,
                Params::Positional { source, .. } => Some(*source),
                Params::Named { source, .. } => Some(*source),
            }),
    {
        match self {
            Params::Unknown => None,
            Params::Positional { source, .. } => Some(*source),
            Params::Named { source, .. } => Some(*source),
        }
    }

    /// Whether the list says the sub is meant to be called through `->`.
    pub fn is_method(&self) -> (r: bool)
        ensures
            r == (match self {
                Params::Unknown => false,
                Params::Positional { invocant, .. } => *invocant,
                Params::Named { invocant, .. } => invocant.is_some(),
            }),
    {
        match self {
            Params::Unknown => false,
            Params::Positional { invocant, .. } => *invocant,
            Params::Named { invocant, .. } => invocant.is_some(),
        }
    }

    /// The named parameters of an `args` list.
    pub fn named(&self) -> (r: Option<&[Param]>)
        ensures
            match self {
                Params::Named { params, .. } => r.is_some() && r.unwrap()@ == params@,
                _ => r.is_none(),
            },
    {
        match self {
            Params::Named { params, .. } => Some(params.as_slice()),
            _ => None,
        }
    }
}

impl Params {
    pub fn duplicate(&self) -> (p: Params)
        ensures
            match (self, p) {
                (Params::Unknown, Params::Unknown) => true,
                (
                    Params::Positional { params: a, slurpy: s1, invocant: i1, source: o1 },
                    Params::Positional { params: b, slurpy: s2, invocant: i2, source: o2 },
                ) => param_views(a@) == param_views(b@) && s1 == s2 && i1 == i2 && o1 == o2,
                (
                    Params::Named { params: a, invocant: i1, source: o1 },
                    Params::Named { params: b, invocant: i2, source: o2 },
                ) => param_views(a@) == param_views(b@) && i1 == i2 && o1 == o2,
                _ => false,
            },
    {
        match self {
            Params::Unknown => Params::Unknown,
            Params::Positional { params, slurpy, invocant, source } => Params::Positional {
                params: duplicate_params(params),
                slurpy: *slurpy,
                invocant: *invocant,
                source: *source,
            },
            Params::Named { params, invocant, source } => {
                let invocant = match invocant {
                    Some(name) => Some(name.clone()),
                    None => None,
                };
                Params::Named { params: duplicate_params(params), invocant, source: *source }
            },
        }
    }
}

impl Clone for Params {
    fn clone(&self) -> (p: Params) {
        self.duplicate()
    }
}

/// A parameter's value: its name, whether it may be left out, and its type.
pub open spec fn param_views(params: Seq<Param>) -> Seq<(Seq<char>, bool, TypeV)> {
    params.map_values(|p: Param| (p.name@, p.optional, p.ty@))
}

pub fn duplicate_params(params: &Vec<Param>) -> (out: Vec<Param>)
    ensures
        param_views(out@) == param_views(params@),
{
    let mut out: Vec<Param> = Vec::new();
    let mut i: usize = 0;
    while i < params.len()
        invariant
            i <= params@.len(),
            param_views(out@) == param_views(params@.subrange(0, i as int)),
        decreases params@.len() - i,
    {
        let ghost v = param_views(out@);
        let p = params[i].duplicate();
        out.push(p);
        proof {
            assert(param_views(out@) =~= v.push((params@[i as int].name@, params@[i as int].optional, params@[i as int].ty@)));
        }
        i += 1;
        proof {
            assert(param_views(out@) =~= param_views(params@.subrange(0, i as int)));
        }
    }
    assert(params@.subrange(0, params@.len() as int) =~= params@);
    out
}

/// Where a sub's shape came from.
#[derive(Debug, Clone, Copy, PartialEq, Eq, Structural)]
pub enum SymbolSource {
    /// A signature, an `args` list, a `Returns:` — something written down.
    Annotated,
    /// Read off the body.
    Inferred,
    /// Nothing is known.
    Unknown,
}

/// A sub, as the program graph holds it.
#[derive(Debug)]
pub struct SubDecl {
    pub package: String,
    pub name: String,
    pub params: Params,
    pub returns: Returns,
    pub source: SymbolSource,
    /// For a `new`: whether the body says the thing it hands back is one of
    /// this class.
    pub constructs_own_class: bool,
    /// Where the name is, for "declared at".
    pub range: TextRange,
    /// The file it was read from.
    pub file: usize,
}

/// What a package is, beyond the subs in it: the ancestors, the roles, and
/// the object framework — which decides whether `new` exists and what it
/// accepts.
#[derive(Debug)]
pub struct PackageFacts {
    pub name: String,
    pub isa: Vec<String>,
    pub roles: Vec<String>,
    pub framework: Framework,
    pub attributes: Vec<AttributeDecl>,
    /// What a `Type::Library` in this package declares.
    pub types: Vec<NamedType>,
    /// Whether the framework generates a `new`.
    pub constructor: bool,
    /// A `BUILDARGS` turns the constructor's argument check off.
    pub buildargs: bool,
    /// The generated `new` blesses whatever hash it was handed.
    pub open_constructor: bool,
    /// The package makes methods by means the declaration pass cannot read.
    pub dynamic: bool,
    /// What `our @EXPORT` puts into the namespace of every package that
    /// `use`s this one.
    pub exports: Vec<String>,
    /// An `@EXPORT` whose value could not be read.
    pub exports_unknown: bool,
    /// The modules this package `use`s.
    pub uses: Vec<String>,
    /// `(class, method)` for every method call this package makes at file
    /// scope, which is where a code generator is invoked.
    pub file_scope_calls: Vec<(String, String)>,
}

/// What one file declares.
#[derive(Debug)]
pub struct FileDecls {
    pub subs: Vec<SubDecl>,
    /// `use Foo qw(bar)` — the name and the package it came from.
    pub imports: Vec<(String, String)>,
    /// The packages this file opens, with the offset each takes effect at.
    pub packages: Vec<(u32, String)>,
    /// What each package here is, beyond its subs.
    pub facts: Vec<PackageFacts>,
    /// Every module this file `use`s or `require`s, for the resolver.
    pub uses: Vec<String>,
    /// What the declaration pass had to say.
    pub diagnostics: Vec<Diagnostic>,
    /// Every type annotation the pass read, with where it was written.
    pub annotations: Vec<Annotated>,
}

/// How many of the packages, from the first, take effect at or before
/// `offset`.
pub open spec fn packages_before(packages: Seq<(u32, String)>, offset: u32, i: int) -> int
    decreases packages.len() - i,
{
    if i < 0 || i >= packages.len() || packages[i].0 > offset {
        i
    } else {
        packages_before(packages, offset, i + 1)
    }
}

proof fn lemma_packages_before(packages: Seq<(u32, String)>, offset: u32, i: int)
    requires
        0 <= i <= packages.len(),
    ensures
        i <= packages_before(packages, offset, i) <= packages.len(),
    decreases packages.len() - i,
{
    if i < packages.len() && packages[i].0 <= offset {
        lemma_packages_before(packages, offset, i + 1);
    }
}

/// The first entry of `facts` from `i` on about `name`.
pub open spec fn first_facts(facts: Seq<PackageFacts>, name: Seq<char>, i: int) -> Option<int>
    decreases facts.len() - i,
{
    if i < 0 || i >= facts.len() {
        None
    } else if facts[i].name@ == name {
        Some(i)
    } else {
        first_facts(facts, name, i + 1)
    }
}

pub proof fn lemma_first_facts_bounds(facts: Seq<PackageFacts>, name: Seq<char>, i: int)
    ensures
        first_facts(facts, name, i) matches Some(j) ==> 0 <= i <= j < facts.len() && facts[j].name@ == name,
    decreases facts.len() - i,
{
    if 0 <= i < facts.len() && facts[i].name@ != name {
        lemma_first_facts_bounds(facts, name, i + 1);
    }
}

impl FileDecls {
    /// What the pass learned about one package.
    pub fn facts_for(&self, name: &str) -> (r: Option<&PackageFacts>)
        ensures
            match first_facts(self.facts@, name@, 0) {
                Some(i) => r == Some(&self.facts@[i]),
                None => r.is_none(),
            },
    {
        let mut i: usize = 0;
        while i < self.facts.len()
            invariant
                i <= self.facts@.len(),
                first_facts(self.facts@, name@, 0) == first_facts(self.facts@, name@, i as int),
            decreases self.facts@.len() - i,
        {
            if same_text(self.facts[i].name.as_str(), name) {
                return Some(&self.facts[i]);
            }
            i += 1;
        }
        None
    }

    /// The package in effect at an offset: the last of the leading run of
    /// packages opened at or before it, and `main` before any.
    pub fn package_at(&self, offset: u32) -> (r: &str)
        ensures
            ({
                let k = packages_before(self.packages@, offset, 0);
                if k == 0 {
                    r@ == "main"@
                } else {
                    r@ == self.packages@[k - 1].1@
                }
            }),
    {
        proof {
            lemma_packages_before(self.packages@, offset, 0);
        }
        let mut i: usize = 0;
        while i < self.packages.len() && self.packages[i].0 <= offset
            invariant
                i <= self.packages@.len(),
                packages_before(self.packages@, offset, 0) == packages_before(self.packages@, offset, i as int),
            decreases self.packages@.len() - i,
        {
            i += 1;
        }
        if i == 0 {
            "main"
        } else {
            self.packages[i - 1].1.as_str()
        }
    }
}

} // verus!
