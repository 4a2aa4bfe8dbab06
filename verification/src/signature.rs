//! A sub's declaration as one line, the way annotations spell types: what
//! hover and completion show.
//!
//! Silent where the checker is silent: a sub with no signature, no `args` and
//! no `Returns:` renders as its name and nothing else, rather than as a lie
//! about taking no arguments.

use vstd::prelude::*;

use crate::decl::{param_views, Param, Params, SubDecl};
use crate::program::{sub_view, ParamsV, SubV};
use crate::shape::{spec_written, ListShape, ShapeV};
use crate::text::{append, same_text};
use crate::types::{join, join_strings, spec_render, strings_view, views, Type, TypeV};

verus! {

/// A name with its leading `$` signs taken off.
pub open spec fn without_dollars(s: Seq<char>) -> Seq<char>
    decreases s.len(),
{
    if s.len() > 0 && s[0] == '$' {
        without_dollars(s.drop_first())
    } else {
        s
    }
}

/// One positional parameter: its name, `?` where it may be left out, and its
/// type where one is known.
pub open spec fn rendered_param(p: (Seq<char>, bool, TypeV)) -> Seq<char> {
    p.0 + (if p.1 {
        "?"@
    } else {
        ""@
    }) + (if p.2 is Unknown {
        ""@
    } else {
        " : "@ + spec_render(p.2)
    })
}

/// One key of an `args` list: `name? => Type`.
pub open spec fn rendered_key(p: (Seq<char>, bool, TypeV)) -> Seq<char> {
    without_dollars(p.0) + (if p.1 {
        "?"@
    } else {
        ""@
    }) + " => "@ + spec_render(p.2)
}

/// What a parameter list looks like after the name.
pub open spec fn rendered_params(p: ParamsV) -> Seq<char> {
    match p {
        ParamsV::Unknown => ""@,
        ParamsV::Positional { params, slurpy, .. } => {
            let parts = params.map_values(|q: (Seq<char>, bool, TypeV)| rendered_param(q));
            "("@ + join(if slurpy {
                parts.push("..."@)
            } else {
                parts
            }, ", "@) + ")"@
        },
        ParamsV::Named { params, invocant, .. } => {
            let keys = params.map_values(|q: (Seq<char>, bool, TypeV)| rendered_key(q));
            let hash = "{ "@ + join(keys, ", "@) + " }"@;
            let parts = match invocant {
                Some(i) => seq![i, hash],
                None => seq![hash],
            };
            "("@ + join(parts, ", "@) + ")"@
        },
    }
}

/// The list half, unless it is a list of one holding the scalar half, which
/// says nothing the scalar half did not.
pub open spec fn list_said(scalar: TypeV, list: ShapeV) -> Option<Seq<char>> {
    match list {
        ShapeV::Fixed(types) => if types == seq![scalar] {
            None
        } else {
            spec_written(list)
        },
        _ => spec_written(list),
    }
}

/// What follows the parameters: ` -> ...`, and ` (inferred)` once where the
/// types were read off the body.
pub open spec fn rendered_returns(v: SubV) -> Seq<char> {
    let scalar: Option<Seq<char>> = if v.scalar is Unknown {
        None
    } else {
        Some(spec_render(v.scalar))
    };
    let said: Option<Seq<char>> = match list_said(v.scalar, v.list) {
        Some(list) => if v.list is Nothing {
            Some(list)
        } else {
            match scalar {
                Some(s) => Some(s + ", "@ + list),
                None => Some(list),
            }
        },
        None => scalar,
    };
    match said {
        Some(text) => " -> "@ + text + if v.inferred {
            " (inferred)"@
        } else {
            ""@
        },
        None => ""@,
    }
}

/// A sub's declaration as one line.
pub open spec fn spec_signature(v: SubV) -> Seq<char> {
    (if v.package.len() > 0 && v.package != "main"@ {
        v.package + "::"@
    } else {
        ""@
    }) + v.name + rendered_params(v.params) + rendered_returns(v)
}

fn render_param(param: &Param) -> (text: String)
    ensures
        text@ == rendered_param((param.name@, param.optional, param.ty@)),
{
    let mut text = param.name.clone();
    if param.optional {
        append(&mut text, "?");
    } else {
        append(&mut text, "");
    }
    if !param.ty.is_unknown() {
        append(&mut text, " : ");
        let ty = param.ty.render();
        append(&mut text, ty.as_str());
    } else {
        append(&mut text, "");
    }
    proof {
        let q = (param.name@, param.optional, param.ty@);
        assert(text@ =~= rendered_param(q));
    }
    text
}

fn strip_dollars(name: &str) -> (out: String)
    ensures
        out@ == without_dollars(name@),
{
    let c = crate::text::chars_of(name);
    let mut i: usize = 0;
    assert(c@.subrange(0, c@.len() as int) =~= c@);
    while i < c.len() && c[i] == '$'
        invariant
            i <= c@.len(),
            c@ == name@,
            without_dollars(name@) == without_dollars(c@.subrange(i as int, c@.len() as int)),
        decreases c@.len() - i,
    {
        proof {
            assert(c@.subrange(i as int, c@.len() as int).drop_first() =~= c@.subrange(i + 1, c@.len() as int));
        }
        i += 1;
    }
    let out = crate::text::string_of(&c, i, c.len());
    out
}

fn render_key(param: &Param) -> (text: String)
    ensures
        text@ == rendered_key((param.name@, param.optional, param.ty@)),
{
    let mut text = strip_dollars(param.name.as_str());
    if param.optional {
        append(&mut text, "?");
    } else {
        append(&mut text, "");
    }
    append(&mut text, " => ");
    let ty = param.ty.render();
    append(&mut text, ty.as_str());
    proof {
        let q = (param.name@, param.optional, param.ty@);
        assert(text@ =~= rendered_key(q));
    }
    text
}

fn render_params(params: &Params) -> (out: String)
    ensures
        out@ == rendered_params(crate::program::params_view(*params)),
{
    match params {
        Params::Unknown => {
            proof {
                reveal_strlit("");
            }
            String::new()
        },
        Params::Positional { params, slurpy, .. } => {
            let ghost qs = param_views(params@);
            let mut parts: Vec<String> = Vec::new();
            let mut i: usize = 0;
            while i < params.len()
                invariant
                    i <= params@.len(),
                    qs == param_views(params@),
                    strings_view(parts@) == qs.subrange(0, i as int).map_values(
                        |q: (Seq<char>, bool, TypeV)| rendered_param(q),
                    ),
                decreases params@.len() - i,
            {
                let ghost before = strings_view(parts@);
                assert(qs[i as int] == (params@[i as int].name@, params@[i as int].optional, params@[i as int].ty@));
                parts.push(render_param(&params[i]));
                assert(strings_view(parts@) =~= before.push(rendered_param(qs[i as int])));
                assert(strings_view(parts@) =~= qs.subrange(0, i + 1).map_values(
                    |q: (Seq<char>, bool, TypeV)| rendered_param(q),
                ));
                i += 1;
            }
            assert(qs.subrange(0, params@.len() as int) =~= qs);
            let ghost rendered = strings_view(parts@);
            if *slurpy {
                parts.push(String::from_str("..."));
                assert(strings_view(parts@) =~= rendered.push("..."@));
            }
            let mut out = String::from_str("(");
            let inner = join_strings(&parts, ", ");
            append(&mut out, inner.as_str());
            append(&mut out, ")");
            out
        },
        Params::Named { params, invocant, .. } => {
            let ghost qs = param_views(params@);
            let mut keys: Vec<String> = Vec::new();
            let mut i: usize = 0;
            while i < params.len()
                invariant
                    i <= params@.len(),
                    qs == param_views(params@),
                    strings_view(keys@) == qs.subrange(0, i as int).map_values(
                        |q: (Seq<char>, bool, TypeV)| rendered_key(q),
                    ),
                decreases params@.len() - i,
            {
                let ghost before = strings_view(keys@);
                assert(qs[i as int] == (params@[i as int].name@, params@[i as int].optional, params@[i as int].ty@));
                keys.push(render_key(&params[i]));
                assert(strings_view(keys@) =~= before.push(rendered_key(qs[i as int])));
                assert(strings_view(keys@) =~= qs.subrange(0, i + 1).map_values(
                    |q: (Seq<char>, bool, TypeV)| rendered_key(q),
                ));
                i += 1;
            }
            assert(qs.subrange(0, params@.len() as int) =~= qs);
            let mut hash = String::from_str("{ ");
            let joined = join_strings(&keys, ", ");
            append(&mut hash, joined.as_str());
            append(&mut hash, " }");
            let mut parts: Vec<String> = Vec::new();
            match invocant {
                Some(name) => {
                    parts.push(name.clone());
                },
                None => {},
            }
            let ghost h = hash@;
            parts.push(hash);
            assert(strings_view(parts@) =~= match invocant {
                Some(name) => seq![name@, h],
                None => seq![h],
            });
            let mut out = String::from_str("(");
            let inner = join_strings(&parts, ", ");
            append(&mut out, inner.as_str());
            append(&mut out, ")");
            out
        },
    }
}

/// Whether a list shape is one slot holding exactly `scalar`.
fn just_the_scalar(list: &ListShape, scalar: &Type) -> (r: bool)
    ensures
        r == (list@ matches ShapeV::Fixed(types) && types == seq![scalar@]),
{
    match list {
        ListShape::Fixed(types) => {
            proof {
                crate::types::lemma_views(types@);
            }
            if types.len() == 1 && types[0].equals(scalar) {
                assert(views(types@) =~= seq![scalar@]);
                true
            } else {
                proof {
                    if views(types@) == seq![scalar@] {
                        assert(views(types@)[0] == types@[0]@);
                    }
                }
                false
            }
        },
        _ => false,
    }
}

/// A sub's declaration as one line: its package where it is not `main`, its
/// name, its parameters where they are known, and what it returns where that
/// is known.
pub fn signature_of(symbol: &SubDecl) -> (out: String)
    ensures
        out@ == spec_signature(sub_view(*symbol)),
{
    let ghost v = sub_view(*symbol);
    let mut out = String::new();
    if symbol.package.unicode_len() > 0 && !same_text(symbol.package.as_str(), "main") {
        append(&mut out, symbol.package.as_str());
        append(&mut out, "::");
    } else {
        append(&mut out, "");
    }
    append(&mut out, symbol.name.as_str());
    let params = render_params(&symbol.params);
    append(&mut out, params.as_str());
    let answer = &symbol.returns;
    let scalar: Option<String> = if answer.scalar.is_unknown() {
        None
    } else {
        Some(answer.scalar.render())
    };
    let list: Option<String> = if just_the_scalar(&answer.list, &answer.scalar) {
        None
    } else {
        answer.list.written()
    };
    assert(match list {
        Some(s) => list_said(v.scalar, v.list) == Some(s@),
        None => list_said(v.scalar, v.list) is None,
    });
    let nothing = match &answer.list {
        ListShape::Nothing => true,
        _ => false,
    };
    let said: Option<String> = match list {
        Some(list) => if nothing {
            Some(list)
        } else {
            match scalar {
                Some(s) => {
                    let mut both = s;
                    append(&mut both, ", ");
                    append(&mut both, list.as_str());
                    Some(both)
                },
                None => Some(list),
            }
        },
        None => scalar,
    };
    match said {
        Some(text) => {
            append(&mut out, " -> ");
            append(&mut out, text.as_str());
            if answer.inferred {
                append(&mut out, " (inferred)");
            } else {
                append(&mut out, "");
            }
        },
        None => {
            append(&mut out, "");
        },
    }
    assert(out@ =~= spec_signature(v));
    out
}

} // verus!
