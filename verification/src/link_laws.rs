//! What linking named types twice does.
//!
//! Linking puts into every annotation what the run's type libraries declare.
//! A type that linking has nothing left to do to — every name in it declared
//! as itself or not at all, every union already in the form the union
//! constructor gives, and no deeper than the substitution depth — is left as
//! it is, and a program all of whose types are so is left as it is by a
//! second link.

use vstd::prelude::*;

use crate::program::{declared_library, link, link_factsv, link_param_views, link_params, link_shape, link_subv, link_subvs, linked_file, sub_views, FileEntry, ParamsV, SubV};
use crate::shape::ShapeV;
use crate::declare::{facts_views, FactsV};
use crate::annotate::annotated_views;
use crate::decl::SubDecl;
use crate::span::TextRange;
use crate::types::{spec_lookup, spec_substituted, spec_union, substituted_all, substituted_slots, TypeV, SUBSTITUTION_DEPTH};

verus! {

/// Whether linking, with `fuel` levels to go, has nothing to change in `t`.
pub open spec fn settled(t: TypeV, lib: Seq<(Seq<char>, TypeV)>, fuel: nat) -> bool
    decreases t,
{
    if fuel == 0 {
        t == TypeV::Unknown
    } else {
        match t {
        TypeV::InstanceOf(name) => match spec_lookup(lib, name) {
            Some(found) => found == t,
            None => true,
        },
        TypeV::ScalarRef(inner) => settled(*inner, lib, (fuel - 1) as nat),
        TypeV::ArrayRef(inner) => settled(*inner, lib, (fuel - 1) as nat),
        TypeV::HashRef(inner) => settled(*inner, lib, (fuel - 1) as nat),
        TypeV::Optional(inner) => settled(*inner, lib, (fuel - 1) as nat),
        TypeV::Tuple(ms) => forall|i: int| #![trigger ms[i]] 0 <= i < ms.len() ==> settled(ms[i], lib, (fuel - 1) as nat),
        TypeV::Union(ms) => spec_union(ms) == t && forall|i: int| #![trigger ms[i]] 0 <= i < ms.len() ==> settled(
            ms[i],
            lib,
            (fuel - 1) as nat,
        ),
        TypeV::MapOf(k, v) => settled(*k, lib, (fuel - 1) as nat) && settled(*v, lib, (fuel - 1) as nat),
        TypeV::Dict { slots, slurpy } => (forall|i: int| #![trigger slots[i]] 0 <= i < slots.len() ==> settled(slots[i].1, lib, (fuel - 1) as nat))
            && match slurpy {
            Some(rest) => settled(*rest, lib, (fuel - 1) as nat),
            None => true,
        },
        _ => true,
        }
    }
}

/// A settled type is its own substitution.
pub proof fn lemma_settled_fixed(t: TypeV, lib: Seq<(Seq<char>, TypeV)>, fuel: nat)
    requires
        settled(t, lib, fuel),
    ensures
        spec_substituted(t, lib, fuel) == t,
    decreases t, 1nat, 0nat,
{
    let f = (fuel - 1) as nat;
    match t {
        TypeV::ScalarRef(inner) => {
            lemma_settled_fixed(*inner, lib, f);
        },
        TypeV::ArrayRef(inner) => {
            lemma_settled_fixed(*inner, lib, f);
        },
        TypeV::HashRef(inner) => {
            lemma_settled_fixed(*inner, lib, f);
        },
        TypeV::Optional(inner) => {
            lemma_settled_fixed(*inner, lib, f);
        },
        TypeV::Tuple(ms) => {
            assert(members_of(t) == ms);
            lemma_members_fixed(t, lib, f, ms.len() as int);
            assert(ms.subrange(0, ms.len() as int) =~= ms);
        },
        TypeV::Union(ms) => {
            assert(members_of(t) == ms);
            lemma_members_fixed(t, lib, f, ms.len() as int);
            assert(ms.subrange(0, ms.len() as int) =~= ms);
        },
        TypeV::MapOf(k, v) => {
            lemma_settled_fixed(*k, lib, f);
            lemma_settled_fixed(*v, lib, f);
        },
        TypeV::Dict { slots, slurpy } => {
            lemma_slots_fixed(t, lib, f, slots.len() as int);
            assert(slots.subrange(0, slots.len() as int) =~= slots);
            match slurpy {
                Some(rest) => {
                    lemma_settled_fixed(*rest, lib, f);
                },
                None => {},
            }
        },
        _ => {},
    }
}

/// The members of a tuple or a union.
pub open spec fn members_of(t: TypeV) -> Seq<TypeV> {
    if t is Tuple {
        t->Tuple_0
    } else {
        t->Union_0
    }
}

proof fn lemma_members_fixed(t: TypeV, lib: Seq<(Seq<char>, TypeV)>, f: nat, n: int)
    requires
        t is Tuple || t is Union,
        0 <= n <= members_of(t).len(),
        forall|i: int| 0 <= i < members_of(t).len() ==> settled(#[trigger] members_of(t)[i], lib, f),
    ensures
        substituted_all(members_of(t).subrange(0, n), lib, f) == members_of(t).subrange(0, n),
    decreases t, 0nat, n,
{
    let ms = members_of(t);
    if n > 0 {
        lemma_members_fixed(t, lib, f, n - 1);
        assert(ms.subrange(0, n).drop_last() =~= ms.subrange(0, n - 1));
        assert(ms.subrange(0, n).last() == ms[n - 1]);
        assert(settled(ms[n - 1], lib, f));
        assert(decreases_to!(t => ms[n - 1]));
        lemma_settled_fixed(ms[n - 1], lib, f);
        assert(substituted_all(ms.subrange(0, n), lib, f) =~= ms.subrange(0, n));
    } else {
        assert(ms.subrange(0, 0) =~= Seq::<TypeV>::empty());
    }
}

proof fn lemma_slots_fixed(t: TypeV, lib: Seq<(Seq<char>, TypeV)>, f: nat, n: int)
    requires
        t is Dict,
        0 <= n <= t->Dict_slots.len(),
        forall|i: int| #![trigger t->Dict_slots[i]] 0 <= i < t->Dict_slots.len() ==> settled(t->Dict_slots[i].1, lib, f),
    ensures
        substituted_slots(t->Dict_slots.subrange(0, n), lib, f) == t->Dict_slots.subrange(0, n),
    decreases t, 0nat, n,
{
    let slots = t->Dict_slots;
    if n > 0 {
        lemma_slots_fixed(t, lib, f, n - 1);
        assert(slots.subrange(0, n).drop_last() =~= slots.subrange(0, n - 1));
        assert(slots.subrange(0, n).last() == slots[n - 1]);
        assert(settled(slots[n - 1].1, lib, f));
        assert(decreases_to!(t => slots[n - 1].1));
        lemma_settled_fixed(slots[n - 1].1, lib, f);
        assert(substituted_slots(slots.subrange(0, n), lib, f) =~= slots.subrange(0, n));
    } else {
        assert(slots.subrange(0, 0) =~= Seq::<(Seq<char>, TypeV)>::empty());
    }
}

/// A type linking leaves as it is, under `lib`.
pub open spec fn link_settled(t: TypeV, lib: Seq<(Seq<char>, TypeV)>) -> bool {
    settled(t, lib, SUBSTITUTION_DEPTH as nat)
}

/// Linking leaves a settled type as it is.
pub proof fn law_linking_a_settled_type_changes_nothing(t: TypeV, lib: Seq<(Seq<char>, TypeV)>)
    requires
        link_settled(t, lib),
    ensures
        link(t, lib) == t,
{
    lemma_settled_fixed(t, lib, SUBSTITUTION_DEPTH as nat);
}


/// Every parameter's type settled.
pub open spec fn params_settled(ps: Seq<(Seq<char>, bool, TypeV)>, lib: Seq<(Seq<char>, TypeV)>) -> bool {
    forall|i: int| 0 <= i < ps.len() ==> link_settled((#[trigger] ps[i]).2, lib)
}

/// A sub's parameter types and return settled.
pub open spec fn subv_settled(v: SubV, lib: Seq<(Seq<char>, TypeV)>) -> bool {
    &&& match v.params {
        ParamsV::Unknown => true,
        ParamsV::Positional { params, .. } => params_settled(params, lib),
        ParamsV::Named { params, .. } => params_settled(params, lib),
    }
    &&& link_settled(v.scalar, lib)
    &&& match v.list {
        ShapeV::Fixed(ts) => forall|i: int| 0 <= i < ts.len() ==> link_settled(#[trigger] ts[i], lib),
        _ => true,
    }
}

/// A package's attribute and named types settled.
pub open spec fn factsv_settled(f: FactsV, lib: Seq<(Seq<char>, TypeV)>) -> bool {
    &&& forall|i: int| 0 <= i < f.attributes.len() ==> link_settled((#[trigger] f.attributes[i]).ty, lib)
    &&& forall|i: int| 0 <= i < f.types.len() ==> link_settled((#[trigger] f.types[i]).1, lib)
}

/// Every type a file holds settled.
pub open spec fn file_settled(e: FileEntry, lib: Seq<(Seq<char>, TypeV)>) -> bool {
    &&& forall|i: int| 0 <= i < e.decls.subs@.len() ==> subv_settled(#[trigger] sub_views(e.decls.subs@)[i], lib)
    &&& forall|i: int| 0 <= i < e.decls.facts@.len() ==> factsv_settled(#[trigger] facts_views(e.decls.facts@)[i], lib)
    &&& forall|i: int| 0 <= i < e.decls.annotations@.len() ==> link_settled((#[trigger] annotated_views(e.decls.annotations@)[i]).0, lib)
}

/// Every type a program holds settled under the library it declares.
pub open spec fn program_settled(files: Seq<FileEntry>, subs: Seq<SubDecl>) -> bool {
    let lib = declared_library(files);
    &&& forall|i: int| 0 <= i < files.len() ==> file_settled(#[trigger] files[i], lib)
    &&& forall|j: int| 0 <= j < subs.len() ==> subv_settled(#[trigger] sub_views(subs)[j], lib)
}

proof fn lemma_subv_kept(v: SubV, lib: Seq<(Seq<char>, TypeV)>)
    requires
        subv_settled(v, lib),
    ensures
        link_subv(v, lib) == v,
{
    law_linking_a_settled_type_changes_nothing(v.scalar, lib);
    match v.params {
        ParamsV::Positional { params, .. } => {
            assert forall|i: int| 0 <= i < params.len() implies link_param_views(params, lib)[i] == params[i] by {
                law_linking_a_settled_type_changes_nothing(params[i].2, lib);
            }
            assert(link_param_views(params, lib) =~= params);
        },
        ParamsV::Named { params, .. } => {
            assert forall|i: int| 0 <= i < params.len() implies link_param_views(params, lib)[i] == params[i] by {
                law_linking_a_settled_type_changes_nothing(params[i].2, lib);
            }
            assert(link_param_views(params, lib) =~= params);
        },
        ParamsV::Unknown => {},
    }
    match v.list {
        ShapeV::Fixed(ts) => {
            assert forall|i: int| 0 <= i < ts.len() implies ts.map_values(|t: TypeV| link(t, lib))[i] == ts[i] by {
                law_linking_a_settled_type_changes_nothing(ts[i], lib);
            }
            assert(ts.map_values(|t: TypeV| link(t, lib)) =~= ts);
        },
        _ => {},
    }
    assert(link_params(v.params, lib) == v.params);
    assert(link_shape(v.list, lib) == v.list);
}

proof fn lemma_subvs_kept(vs: Seq<SubV>, lib: Seq<(Seq<char>, TypeV)>)
    requires
        forall|j: int| 0 <= j < vs.len() ==> subv_settled(#[trigger] vs[j], lib),
    ensures
        link_subvs(vs, lib) == vs,
{
    assert forall|j: int| 0 <= j < vs.len() implies link_subvs(vs, lib)[j] == vs[j] by {
        lemma_subv_kept(vs[j], lib);
    }
    assert(link_subvs(vs, lib) =~= vs);
}

proof fn lemma_factsv_kept(f: FactsV, lib: Seq<(Seq<char>, TypeV)>)
    requires
        factsv_settled(f, lib),
    ensures
        link_factsv(f, lib) == f,
{
    let attrs = f.attributes.map_values(|a: crate::attributes::AttrV| crate::attributes::AttrV { ty: link(a.ty, lib), ..a });
    assert forall|i: int| 0 <= i < f.attributes.len() implies attrs[i] == f.attributes[i] by {
        law_linking_a_settled_type_changes_nothing(f.attributes[i].ty, lib);
    }
    assert(attrs =~= f.attributes);
    let types = f.types.map_values(|t: (Seq<char>, TypeV)| (t.0, link(t.1, lib)));
    assert forall|i: int| 0 <= i < f.types.len() implies types[i] == f.types[i] by {
        law_linking_a_settled_type_changes_nothing(f.types[i].1, lib);
    }
    assert(types =~= f.types);
}

/// Linking a program whose every type is already settled under the library it
/// declares changes nothing: every sub's parameters and return, every
/// attribute's type, every named type and every recorded annotation, in every
/// file and in the flattened copy, are what they were.
pub proof fn law_linking_a_settled_program_changes_nothing(
    files: Seq<FileEntry>,
    subs: Seq<SubDecl>,
    after_files: Seq<FileEntry>,
    after_subs: Seq<SubDecl>,
)
    requires
        program_settled(files, subs),
        after_files.len() == files.len(),
        forall|i: int| 0 <= i < files.len() ==> linked_file(files[i], #[trigger] after_files[i], declared_library(files)),
        sub_views(after_subs) == link_subvs(sub_views(subs), declared_library(files)),
    ensures
        sub_views(after_subs) == sub_views(subs),
        forall|i: int| 0 <= i < files.len() ==> {
            &&& sub_views((#[trigger] after_files[i]).decls.subs@) == sub_views(files[i].decls.subs@)
            &&& facts_views(after_files[i].decls.facts@) == facts_views(files[i].decls.facts@)
            &&& annotated_views(after_files[i].decls.annotations@) == annotated_views(files[i].decls.annotations@)
            &&& after_files[i].decls.imports == files[i].decls.imports
            &&& after_files[i].decls.packages == files[i].decls.packages
            &&& after_files[i].decls.uses == files[i].decls.uses
            &&& after_files[i].path == files[i].path
        },
{
    let lib = declared_library(files);
    lemma_subvs_kept(sub_views(subs), lib);
    assert forall|i: int| 0 <= i < files.len() implies {
        &&& sub_views((#[trigger] after_files[i]).decls.subs@) == sub_views(files[i].decls.subs@)
        &&& facts_views(after_files[i].decls.facts@) == facts_views(files[i].decls.facts@)
        &&& annotated_views(after_files[i].decls.annotations@) == annotated_views(files[i].decls.annotations@)
        &&& after_files[i].decls.imports == files[i].decls.imports
        &&& after_files[i].decls.packages == files[i].decls.packages
        &&& after_files[i].decls.uses == files[i].decls.uses
        &&& after_files[i].path == files[i].path
    } by {
        let e = files[i];
        assert(file_settled(e, lib));
        assert(linked_file(e, after_files[i], lib));
        lemma_subvs_kept(sub_views(e.decls.subs@), lib);
        let fs = facts_views(e.decls.facts@);
        assert forall|k: int| 0 <= k < fs.len() implies fs.map_values(|f: FactsV| link_factsv(f, lib))[k] == fs[k] by {
            assert(factsv_settled(fs[k], lib));
            lemma_factsv_kept(fs[k], lib);
        }
        assert(fs.map_values(|f: FactsV| link_factsv(f, lib)) =~= fs);
        let an = annotated_views(e.decls.annotations@);
        assert forall|k: int| 0 <= k < an.len() implies an.map_values(|a: (TypeV, TextRange)| (link(a.0, lib), a.1))[k] == an[k] by {
            assert(link_settled(an[k].0, lib));
            law_linking_a_settled_type_changes_nothing(an[k].0, lib);
        }
        assert(an.map_values(|a: (TypeV, TextRange)| (link(a.0, lib), a.1)) =~= an);
    }
}

} // verus!
