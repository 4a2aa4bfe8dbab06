//! The recognisers that read attribute declarations off the tree: Moose's
//! `has`, and the pieces of a declaration they share.

use vstd::prelude::*;

use crate::annotate::{
    NamedType, accessor_attributes, annotated_views, bad_annotation, diagnostic_views, is_listed_attribute, method_views,
    not_a_type_message, read_annotation, spec_builder_name, spec_looks_like_a_type, Access, AccessorName,
    AccessorRole, AttributeDecl, Builder, DiagV, GeneratedMethod, Sink,
};
use crate::ast::{
    is_call_kind, name_child_text, spec_args, name_of, spec_without_plus, Variable, arg_view, arg_views, first_list, first_significant, joined_text, key_text, lemma_child_smaller, list_child,
    spec_elements, spec_key_text, spec_literal_string, spec_pairs, AnonArray, AnonHash, Arg, ArgV, Args, Call,
    Literal, QwExpr,
};
use crate::decl::Annotation;
use crate::diag::{Code, Severity};
use crate::span::TextRange;
use crate::syntax::{child_nodes, child_tokens, deref_nodes, first_token_of_kind, found, joined, NodeKind, SyntaxNode, TokenKind};
use crate::text::{same_text, str_eq};
use crate::types::{spec_parse, spec_union, strings_view, views, Type, TypeV};

verus! {

// ===== where the parts of a node stand =====

proof fn lemma_first_list_in(ns: Seq<SyntaxNode>, i: int)
    requires
        0 <= i,
    ensures
        first_list(ns, i) matches Some(j) ==> i <= j < ns.len(),
    decreases ns.len() - i,
{
    if i < ns.len() {
        lemma_first_list_in(ns, i + 1);
    }
}

/// A node's list child is below it.
pub proof fn lemma_list_child_below(n: SyntaxNode)
    ensures
        list_child(n) matches Some(l) ==> decreases_to!(n => l),
{
    lemma_first_list_in(child_nodes(n), 0);
    if let Some(j) = first_list(child_nodes(n), 0) {
        lemma_child_smaller(n, j);
    }
}

/// Each element of a comma series is the series itself or below it.
pub proof fn lemma_elements_within(n: SyntaxNode, i: int)
    requires
        0 <= i < spec_elements(n).len(),
    ensures
        spec_elements(n)[i] == n || decreases_to!(n => spec_elements(n)[i]),
    decreases n,
{
    let cs = child_nodes(n);
    if n.kind == NodeKind::ParenExpr {
        lemma_child_smaller(n, 0);
        lemma_elements_within(cs[0], i);
    } else if n.kind == NodeKind::ListExpr {
        if cs.len() == 1 && cs[0].kind == NodeKind::ParenExpr {
            lemma_child_smaller(n, 0);
            lemma_elements_within(cs[0], i);
        } else {
            lemma_child_smaller(n, i);
        }
    }
}

/// The elements of an anonymous array, `[a, b]`.
pub open spec fn array_elements(n: SyntaxNode) -> Seq<SyntaxNode> {
    match list_child(n) {
        Some(l) => spec_elements(l),
        None => Seq::empty(),
    }
}

/// Each element of an anonymous array is below it.
pub proof fn lemma_array_element_below(n: SyntaxNode, i: int)
    requires
        0 <= i < array_elements(n).len(),
    ensures
        decreases_to!(n => array_elements(n)[i]),
{
    lemma_list_child_below(n);
    let l = list_child(n)->Some_0;
    lemma_elements_within(l, i);
}

// ===== the names `has` was given =====

/// The names a `has` was given: one, a word list, or a list of them in
/// brackets.
pub open spec fn spec_attribute_names(n: SyntaxNode) -> Seq<Seq<char>>
    decreases n, array_elements(n).len() + 2,
{
    if n.kind == NodeKind::AnonArray {
        names_from(n, 0)
    } else if n.kind == NodeKind::QwExpr {
        qw_words(n)
    } else {
        match spec_key_text(n) {
            Some(k) => seq![k],
            None => Seq::empty(),
        }
    }
}

/// The names of an anonymous array's elements from the `k`th on.
pub open spec fn names_from(n: SyntaxNode, k: int) -> Seq<Seq<char>>
    decreases n, array_elements(n).len() + 1 - k,
{
    if k < 0 || k >= array_elements(n).len() {
        Seq::empty()
    } else {
        proof {
            lemma_array_element_below(n, k);
        }
        spec_attribute_names(array_elements(n)[k]) + names_from(n, k + 1)
    }
}

/// The words of a `qw(...)`.
pub open spec fn qw_words(n: SyntaxNode) -> Seq<Seq<char>> {
    match first_token_of_kind(child_tokens(n), TokenKind::QwString, 0) {
        Some(i) => crate::ast::words_from(child_tokens(n)[i].text@, 0),
        None => Seq::empty(),
    }
}

/// Add copies of `more` at the end of `out`.
pub fn extend_strings(out: &mut Vec<String>, more: &Vec<String>)
    ensures
        strings_view(final(out)@) == strings_view(old(out)@) + strings_view(more@),
{
    let ghost start = strings_view(out@);
    let mut j: usize = 0;
    while j < more.len()
        invariant
            j <= more@.len(),
            strings_view(out@) == start + strings_view(more@).subrange(0, j as int),
        decreases more@.len() - j,
    {
        let ghost mid = strings_view(out@);
        out.push(more[j].clone());
        assert(strings_view(out@) =~= mid.push(more@[j as int]@));
        assert(strings_view(more@).subrange(0, j + 1) =~= strings_view(more@).subrange(0, j as int).push(more@[j as int]@));
        j += 1;
    }
    assert(strings_view(more@).subrange(0, more@.len() as int) =~= strings_view(more@));
}

/// The names `has` was given: one, or a list in brackets.
pub fn attribute_names(node: &SyntaxNode) -> (r: Vec<String>)
    ensures
        strings_view(r@) == spec_attribute_names(*node),
    decreases node,
{
    if node.kind == NodeKind::AnonArray {
        let elements = AnonArray(node).elements();
        let ghost els = array_elements(*node);
        assert(deref_nodes(elements@) == els);
        let mut out: Vec<String> = Vec::new();
        let mut k: usize = 0;
        proof {
            assert(strings_view(out@) + names_from(*node, 0) =~= names_from(*node, 0));
        }
        while k < elements.len()
            invariant
                k <= elements@.len(),
                deref_nodes(elements@) == els,
                els == array_elements(*node),
                node.kind == NodeKind::AnonArray,
                strings_view(out@) + names_from(*node, k as int) == spec_attribute_names(*node),
            decreases elements@.len() - k,
        {
            assert(deref_nodes(elements@)[k as int] == *elements@[k as int]);
            proof {
                lemma_array_element_below(*node, k as int);
            }
            let inner = attribute_names(elements[k]);
            let ghost before = strings_view(out@);
            extend_strings(&mut out, &inner);
            assert(names_from(*node, k as int) == spec_attribute_names(els[k as int]) + names_from(*node, k + 1));
            assert(strings_view(out@) + names_from(*node, k + 1) =~= before + names_from(*node, k as int));
            k += 1;
        }
        assert(names_from(*node, k as int) == Seq::<Seq<char>>::empty());
        assert(strings_view(out@) + Seq::<Seq<char>>::empty() =~= strings_view(out@));
        out
    } else if node.kind == NodeKind::QwExpr {
        QwExpr(node).words()
    } else {
        match key_text(node) {
            Some(k) => {
                let mut out: Vec<String> = Vec::new();
                out.push(k);
                assert(strings_view(out@) =~= seq![out@[0]@]);
                out
            },
            None => {
                let out: Vec<String> = Vec::new();
                assert(strings_view(out@) =~= Seq::<Seq<char>>::empty());
                out
            },
        }
    }
}

// ===== the pieces of an option =====

/// A value is true unless it is the literal `0`.
pub open spec fn spec_is_true(n: SyntaxNode) -> bool {
    !(n.kind == NodeKind::Literal && (first_significant(n) matches Some(t) && t.kind == TokenKind::Number && t.text@
        == "0"@))
}

/// Whether an option's value is true: anything but the literal `0`.
pub fn is_true(node: &SyntaxNode) -> (r: bool)
    ensures
        r == spec_is_true(*node),
{
    match Literal::cast(node) {
        Some(literal) => match literal.as_number() {
            Some(text) => !same_text(text.as_str(), "0"),
            None => true,
        },
        None => true,
    }
}

/// The keys of a list read as pairs, those that are names.
pub open spec fn pair_keys(pairs: Seq<ArgV>) -> Seq<Seq<char>>
    decreases pairs.len(),
{
    if pairs.len() == 0 {
        Seq::empty()
    } else {
        pair_keys(pairs.drop_last()) + match pairs.last() {
            ArgV::Pair { key_text: Some(k), .. } => seq![k],
            _ => Seq::empty(),
        }
    }
}

/// The pairs of an anonymous hash.
pub open spec fn hash_pairs(n: SyntaxNode) -> Seq<ArgV> {
    match list_child(n) {
        Some(l) => spec_pairs(l),
        None => Seq::empty(),
    }
}

/// What `handles` delegates: the names in a list, the keys of a hash, or —
/// for a regexp or a role — a set nobody here can enumerate.
pub open spec fn spec_delegated(n: SyntaxNode) -> Option<Seq<Seq<char>>> {
    if n.kind == NodeKind::AnonArray {
        Some(spec_attribute_names(n))
    } else if n.kind == NodeKind::AnonHash {
        Some(pair_keys(hash_pairs(n)))
    } else {
        None
    }
}

fn delegated(node: &SyntaxNode) -> (r: Option<Vec<String>>)
    ensures
        match r {
            Some(v) => spec_delegated(*node) == Some(strings_view(v@)),
            None => spec_delegated(*node) is None,
        },
{
    if node.kind == NodeKind::AnonArray {
        Some(attribute_names(node))
    } else if node.kind == NodeKind::AnonHash {
        let pairs = AnonHash(node).pairs();
        let ghost ps = hash_pairs(*node);
        assert(arg_views(pairs@) == ps);
        let mut out: Vec<String> = Vec::new();
        let mut i: usize = 0;
        while i < pairs.len()
            invariant
                i <= pairs@.len(),
                arg_views(pairs@) == ps,
                strings_view(out@) == pair_keys(ps.subrange(0, i as int)),
            decreases pairs@.len() - i,
        {
            assert(ps.subrange(0, i + 1).drop_last() =~= ps.subrange(0, i as int));
            assert(ps[i as int] == arg_view(pairs@[i as int]));
            let ghost before = strings_view(out@);
            match pairs[i].key() {
                Some(k) => {
                    out.push(k.to_string());
                    assert(strings_view(out@) =~= before + seq![k@]);
                },
                None => {
                    assert(before + Seq::<Seq<char>>::empty() =~= before);
                },
            }
            i += 1;
        }
        assert(ps.subrange(0, pairs@.len() as int) =~= ps);
        Some(out)
    } else {
        None
    }
}

// ===== annotations =====

/// The annotation a node in a type position carries: a string's contents,
/// quoted, or the node's own text, unquoted; a number or an `undef` is not a
/// type.
pub open spec fn spec_annotation_of(n: SyntaxNode) -> Option<(Seq<char>, bool, TextRange)> {
    if n.kind == NodeKind::Literal && spec_literal_string(n) is Some {
        Some((spec_literal_string(n)->Some_0, true, n.range))
    } else if n.kind == NodeKind::Literal || n.kind == NodeKind::UndefExpr {
        None
    } else {
        Some((joined(n), false, n.range))
    }
}

/// The annotation a node in a type position carries.
pub fn annotation_of(node: &SyntaxNode) -> (r: Option<Annotation>)
    ensures
        match r {
            Some(a) => spec_annotation_of(*node) == Some((a.text@, a.quoted, a.range)),
            None => spec_annotation_of(*node) is None,
        },
{
    if let Some(view) = Literal::cast(node) {
        if let Some(text) = view.as_string() {
            return Some(Annotation { text, quoted: true, range: node.range });
        }
    }
    match node.kind {
        NodeKind::Literal | NodeKind::UndefExpr => None,
        _ => Some(Annotation { text: joined_text(node), quoted: false, range: node.range }),
    }
}

// ===== `has` =====

/// What the options of a `has` have said so far, and what reading their
/// annotations has recorded.
pub struct HasSpec {
    pub ty: TypeV,
    pub coerce: bool,
    pub access: Access,
    pub required: bool,
    pub defaulted: bool,
    pub methods: Seq<(Seq<char>, AccessorRole)>,
    pub opaque: bool,
    pub notes: Seq<(TypeV, TextRange)>,
    pub bads: Seq<DiagV>,
}

/// An option's key, when it is a name.
pub open spec fn option_key(a: ArgV) -> Option<Seq<char>> {
    match a {
        ArgV::Pair { key_text, .. } => key_text,
        ArgV::Positional(_) => None,
    }
}

/// An option's value.
pub open spec fn option_value(a: ArgV) -> SyntaxNode {
    match a {
        ArgV::Pair { value, .. } => value,
        ArgV::Positional(n) => n,
    }
}

/// What reading an `isa` annotation does: the type it names, recorded where
/// it was read, or `Unknown` and a report when it was meant as a type.
pub open spec fn with_annotation(st: HasSpec, a: (Seq<char>, bool, TextRange)) -> HasSpec {
    match spec_parse(a.0) {
        Ok(t) => HasSpec { ty: t, notes: st.notes.push((t, a.2)), ..st },
        Err(m) => HasSpec {
            ty: TypeV::Unknown,
            bads: if spec_looks_like_a_type(a.0) {
                st.bads.push(bad_annotation(a.2, not_a_type_message(a.0, m)))
            } else {
                st.bads
            },
            ..st
        },
    }
}

/// `is => 'ro'` and its siblings.
pub open spec fn access_named(name: Option<Seq<char>>) -> Access {
    match name {
        Some(x) => if x == "ro"@ || x == "lazy"@ || x == "rwp"@ {
            Access::Ro
        } else if x == "wo"@ {
            Access::Wo
        } else {
            Access::Rw
        },
        None => Access::Rw,
    }
}

/// The role of a method an option names: `reader`, `writer`, `accessor`,
/// `predicate`, `clearer`.
pub open spec fn accessor_key_role(k: Seq<char>) -> Option<AccessorRole> {
    if k == "reader"@ || k == "accessor"@ {
        Some(AccessorRole::Reader)
    } else if k == "writer"@ {
        Some(AccessorRole::Writer)
    } else if k == "predicate"@ {
        Some(AccessorRole::Predicate)
    } else if k == "clearer"@ {
        Some(AccessorRole::Clearer)
    } else {
        None
    }
}

/// Names delegated by `handles`, as methods.
pub open spec fn delegations(names: Seq<Seq<char>>) -> Seq<(Seq<char>, AccessorRole)> {
    names.map_values(|n: Seq<char>| (n, AccessorRole::Delegated))
}

/// One option of a `has`, read into what the options said before it.
pub open spec fn has_step(st: HasSpec, opt: ArgV) -> HasSpec {
    let value = option_value(opt);
    match option_key(opt) {
        None => st,
        Some(k) => if k == "isa"@ {
            match spec_annotation_of(value) {
                Some(a) => with_annotation(st, a),
                None => st,
            }
        } else if k == "does"@ {
            match spec_key_text(value) {
                Some(role) => HasSpec { ty: TypeV::ConsumerOf(role), ..st },
                None => st,
            }
        } else if k == "is"@ {
            HasSpec { access: access_named(spec_key_text(value)), ..st }
        } else if k == "required"@ {
            HasSpec { required: spec_is_true(value), ..st }
        } else if k == "default"@ || k == "builder"@ || k == "lazy"@ || k == "lazy_build"@ {
            HasSpec { defaulted: true, ..st }
        } else if k == "coerce"@ {
            // A coerced slot accepts anything going in; what comes back out
            // is still the declared type.
            HasSpec { coerce: st.coerce || spec_is_true(value), ..st }
        } else if accessor_key_role(k) is Some {
            match spec_key_text(value) {
                Some(name) => HasSpec { methods: st.methods.push((name, accessor_key_role(k)->Some_0)), ..st },
                None => st,
            }
        } else if k == "handles"@ {
            match spec_delegated(value) {
                Some(names) => HasSpec { methods: st.methods + delegations(names), ..st },
                None => HasSpec { opaque: true, ..st },
            }
        } else {
            st
        },
    }
}

/// The first `n` options of a `has`, read in order.
pub open spec fn has_fold(opts: Seq<ArgV>, n: int) -> HasSpec
    decreases n,
{
    if n <= 0 {
        HasSpec {
            ty: TypeV::Unknown,
            coerce: false,
            access: Access::Rw,
            required: false,
            defaulted: false,
            methods: Seq::empty(),
            opaque: false,
            notes: Seq::empty(),
            bads: Seq::empty(),
        }
    } else {
        has_step(has_fold(opts, n - 1), opts[n - 1])
    }
}

/// The options of a `has`: its second argument, read as pairs.
pub open spec fn has_options(args: Seq<SyntaxNode>) -> Seq<ArgV> {
    if args.len() > 1 {
        spec_pairs(args[1])
    } else {
        Seq::empty()
    }
}

/// A name with any `+` in front of it taken off.
pub open spec fn strip_plus(s: Seq<char>) -> Seq<char>
    decreases s.len(),
{
    if s.len() > 0 && s[0] == '+' {
        strip_plus(s.drop_first())
    } else {
        s
    }
}

/// Whether `a` is the attribute `has` declares for `name`: `+name`
/// overrides the parent's attribute, whose type this pass cannot reach.
pub open spec fn is_has_attribute(a: AttributeDecl, name: Seq<char>, st: HasSpec, range: TextRange) -> bool {
    &&& a.name@ == strip_plus(name)
    &&& a.ty@ == (if name.len() > 0 && name[0] == '+' { TypeV::Unknown } else { st.ty })
    &&& a.access == st.access
    &&& a.required == st.required
    &&& a.defaulted == st.defaulted
    &&& a.coerce == st.coerce
    &&& method_views(a.methods@) == st.methods
    &&& a.opaque_delegation == st.opaque
    &&& a.builder is None
    &&& a.range == range
}

fn strip_leading_plus(name: &String) -> (r: String)
    ensures
        r@ == strip_plus(name@),
{
    let chars = crate::text::chars_of(name.as_str());
    let mut i: usize = 0;
    assert(name@.subrange(0, name@.len() as int) =~= name@);
    while i < chars.len() && chars[i] == '+'
        invariant
            i <= chars@.len(),
            chars@ == name@,
            strip_plus(name@) == strip_plus(name@.subrange(i as int, name@.len() as int)),
        decreases chars@.len() - i,
    {
        assert(name@.subrange(i as int, name@.len() as int).drop_first() =~= name@.subrange(i + 1, name@.len() as int));
        i += 1;
    }
    let out = crate::text::string_of(&chars, i, chars.len());
    proof {
        let rest = name@.subrange(i as int, name@.len() as int);
        assert(rest.len() == 0 || rest[0] != '+');
    }
    out
}

fn accessor_role_of(k: &str) -> (r: Option<AccessorRole>)
    ensures
        r == accessor_key_role(k@),
{
    if same_text(k, "reader") || same_text(k, "accessor") {
        Some(AccessorRole::Reader)
    } else if same_text(k, "writer") {
        Some(AccessorRole::Writer)
    } else if same_text(k, "predicate") {
        Some(AccessorRole::Predicate)
    } else if same_text(k, "clearer") {
        Some(AccessorRole::Clearer)
    } else {
        None
    }
}

fn access_of(name: Option<String>) -> (r: Access)
    ensures
        r == access_named(match name {
            Some(n) => Some(n@),
            None => None,
        }),
{
    match name {
        Some(x) => if same_text(x.as_str(), "ro") || same_text(x.as_str(), "lazy") || same_text(x.as_str(), "rwp") {
            Access::Ro
        } else if same_text(x.as_str(), "wo") {
            Access::Wo
        } else {
            Access::Rw
        },
        None => Access::Rw,
    }
}

/// A copy of every method.
pub fn copy_methods(methods: &Vec<GeneratedMethod>) -> (out: Vec<GeneratedMethod>)
    ensures
        method_views(out@) == method_views(methods@),
{
    let mut out: Vec<GeneratedMethod> = Vec::new();
    let mut i: usize = 0;
    while i < methods.len()
        invariant
            i <= methods@.len(),
            method_views(out@) == method_views(methods@).subrange(0, i as int),
        decreases methods@.len() - i,
    {
        let ghost before = method_views(out@);
        out.push(methods[i].clone());
        assert(method_views(out@) =~= before.push((methods@[i as int].name@, methods@[i as int].role)));
        assert(method_views(methods@).subrange(0, i + 1) =~= method_views(methods@).subrange(0, i as int).push((methods@[i as int].name@, methods@[i as int].role)));
        i += 1;
    }
    assert(method_views(methods@).subrange(0, methods@.len() as int) =~= method_views(methods@));
    out
}

/// Whether the sink holds what it held before and then `st`'s notes and
/// reports.
pub open spec fn sink_after(before: Sink, after: Sink, st: HasSpec) -> bool {
    &&& annotated_views(after.annotations@) == annotated_views(before.annotations@) + st.notes
    &&& diagnostic_views(after.diagnostics@) == diagnostic_views(before.diagnostics@) + st.bads
}

/// What the options of a `has` have said so far.
struct HasOptions {
    ty: Type,
    coerce: bool,
    access: Access,
    required: bool,
    defaulted: bool,
    methods: Vec<GeneratedMethod>,
    opaque: bool,
}

impl HasOptions {
    /// Whether these are the options `st` describes.
    spec fn agrees(&self, st: HasSpec) -> bool {
        &&& self.ty@ == st.ty
        &&& self.coerce == st.coerce
        &&& self.access == st.access
        &&& self.required == st.required
        &&& self.defaulted == st.defaulted
        &&& method_views(self.methods@) == st.methods
        &&& self.opaque == st.opaque
    }

    /// Read one option.
    fn read(&mut self, option: &Arg, into: &mut Sink, Ghost(st): Ghost<HasSpec>, Ghost(start): Ghost<Sink>)
        requires
            old(self).agrees(st),
            sink_after(start, *old(into), st),
        ensures
            final(self).agrees(has_step(st, arg_view(*option))),
            sink_after(start, *final(into), has_step(st, arg_view(*option))),
    {
        let ghost opt = arg_view(*option);
        let value = option.node();
        assert(*value == option_value(opt));
        let k = match option.key() {
            Some(k) => k,
            None => return,
        };
        assert(option_key(opt) == Some(k@));
        if same_text(k, "isa") {
            match annotation_of(value) {
                Some(annotation) => {
                    self.ty = read_annotation(&annotation, into);
                    proof {
                        let next = with_annotation(st, (annotation.text@, annotation.quoted, annotation.range));
                        match spec_parse(annotation.text@) {
                            Ok(t) => {
                                assert(annotated_views(into.annotations@) =~= annotated_views(start.annotations@) + next.notes);
                            },
                            Err(m) => {
                                assert(diagnostic_views(into.diagnostics@) =~= diagnostic_views(start.diagnostics@) + next.bads);
                            },
                        }
                    }
                },
                None => {},
            }
        } else if same_text(k, "does") {
            if let Some(role) = key_text(value) {
                self.ty = Type::ConsumerOf(role);
            }
        } else if same_text(k, "is") {
            self.access = access_of(key_text(value));
        } else if same_text(k, "required") {
            self.required = is_true(value);
        } else if same_text(k, "default") || same_text(k, "builder") || same_text(k, "lazy") || same_text(k, "lazy_build") {
            self.defaulted = true;
        } else if same_text(k, "coerce") {
            let t = is_true(value);
            self.coerce = self.coerce || t;
        } else if let Some(role) = accessor_role_of(k) {
            if let Some(name) = key_text(value) {
                let ghost before = method_views(self.methods@);
                let ghost name_view = name@;
                self.methods.push(GeneratedMethod { name, role });
                assert(method_views(self.methods@) =~= before.push((name_view, role)));
            }
        } else if same_text(k, "handles") {
            match delegated(value) {
                Some(names_given) => {
                    let ghost before = method_views(self.methods@);
                    let mut j: usize = 0;
                    while j < names_given.len()
                        invariant
                            j <= names_given@.len(),
                            method_views(self.methods@) == before + delegations(strings_view(names_given@)).subrange(0, j as int),
                            self.ty@ == st.ty,
                            self.coerce == st.coerce,
                            self.access == st.access,
                            self.required == st.required,
                            self.defaulted == st.defaulted,
                            self.opaque == st.opaque,
                            sink_after(start, *into, st),
                        decreases names_given@.len() - j,
                    {
                        let ghost mid = method_views(self.methods@);
                        self.methods.push(GeneratedMethod { name: names_given[j].clone(), role: AccessorRole::Delegated });
                        assert(method_views(self.methods@) =~= mid.push((names_given@[j as int]@, AccessorRole::Delegated)));
                        assert(delegations(strings_view(names_given@)).subrange(0, j + 1) =~= delegations(strings_view(names_given@)).subrange(0, j as int).push((names_given@[j as int]@, AccessorRole::Delegated)));
                        j += 1;
                    }
                    assert(delegations(strings_view(names_given@)).subrange(0, names_given@.len() as int) =~= delegations(strings_view(names_given@)));
                },
                None => {
                    self.opaque = true;
                },
            }
        }
    }
}

/// `has name => (is => 'ro', isa => 'Str', required => 1);`
///
/// The options that say something the checker can use — the type, whether
/// `new` needs the slot, the methods it generates — read in order, a later
/// option of the same key winning.
pub fn read_has(call: &Call, into: &mut Sink) -> (r: Vec<AttributeDecl>)
    ensures
        ({
            let args = crate::ast::spec_args(*call.spec_syntax());
            if args.len() == 0 || spec_attribute_names(args[0]).len() == 0 {
                &&& r@.len() == 0
                &&& final(into).annotations@ == old(into).annotations@
                &&& final(into).diagnostics@ == old(into).diagnostics@
            } else {
                let names = spec_attribute_names(args[0]);
                let opts = has_options(args);
                let st = has_fold(opts, opts.len() as int);
                &&& r@.len() == names.len()
                &&& forall|i: int| 0 <= i < names.len() ==> is_has_attribute(#[trigger] r@[i], names[i], st, args[0].range)
                &&& sink_after(*old(into), *final(into), st)
            }
        }),
{
    let arguments = call.args();
    let ghost args = crate::ast::spec_args(*call.spec_syntax());
    assert(deref_nodes(arguments@) == args);
    if arguments.len() == 0 {
        return Vec::new();
    }
    let first = arguments[0];
    assert(*first == args[0]);
    let names = attribute_names(first);
    if names.len() == 0 {
        return Vec::new();
    }
    let options: Vec<Arg> = if arguments.len() > 1 {
        assert(*arguments@[1] == args[1]);
        Args::pairs(arguments[1])
    } else {
        Vec::new()
    };
    let ghost opts = has_options(args);
    assert(arg_views(options@) == opts);

    let ghost start = *into;
    let mut said = HasOptions {
        ty: Type::Unknown,
        coerce: false,
        access: Access::Rw,
        required: false,
        defaulted: false,
        methods: Vec::new(),
        opaque: false,
    };
    proof {
        assert(annotated_views(into.annotations@) + Seq::<(TypeV, TextRange)>::empty() =~= annotated_views(into.annotations@));
        assert(diagnostic_views(into.diagnostics@) + Seq::<DiagV>::empty() =~= diagnostic_views(into.diagnostics@));
        assert(method_views(said.methods@) =~= Seq::<(Seq<char>, AccessorRole)>::empty());
    }
    let mut i: usize = 0;
    while i < options.len()
        invariant
            i <= options@.len(),
            arg_views(options@) == opts,
            start == *old(into),
            said.agrees(has_fold(opts, i as int)),
            sink_after(start, *into, has_fold(opts, i as int)),
        decreases options@.len() - i,
    {
        assert(opts[i as int] == arg_view(options@[i as int]));
        said.read(&options[i], into, Ghost(has_fold(opts, i as int)), Ghost(start));
        i += 1;
    }
    let ghost st = has_fold(opts, opts.len() as int);

    let range = first.range;
    let mut out: Vec<AttributeDecl> = Vec::new();
    let mut n: usize = 0;
    while n < names.len()
        invariant
            n <= names@.len(),
            out@.len() == n,
            said.agrees(st),
            forall|j: int| 0 <= j < n ==> is_has_attribute(#[trigger] out@[j], strings_view(names@)[j], st, range),
        decreases names@.len() - n,
    {
        let name = &names[n];
        assert(strings_view(names@)[n as int] == name@);
        let chars = crate::text::chars_of(name.as_str());
        let overriding = chars.len() > 0 && chars[0] == '+';
        out.push(AttributeDecl {
            name: strip_leading_plus(name),
            ty: if overriding {
                Type::Unknown
            } else {
                said.ty.duplicate()
            },
            access: said.access,
            required: said.required,
            defaulted: said.defaulted,
            coerce: said.coerce,
            methods: copy_methods(&said.methods),
            opaque_delegation: said.opaque,
            builder: None,
            range,
        });
        n += 1;
    }
    out
}

// ===== `Class::Accessor::Typed` =====

/// An attribute's value.
pub struct AttrV {
    pub name: Seq<char>,
    pub ty: TypeV,
    pub access: Access,
    pub required: bool,
    pub defaulted: bool,
    pub coerce: bool,
    pub methods: Seq<(Seq<char>, AccessorRole)>,
    pub opaque: bool,
    pub builder: Option<Seq<char>>,
    pub range: TextRange,
}

pub open spec fn attr_view(a: AttributeDecl) -> AttrV {
    AttrV {
        name: a.name@,
        ty: a.ty@,
        access: a.access,
        required: a.required,
        defaulted: a.defaulted,
        coerce: a.coerce,
        methods: method_views(a.methods@),
        opaque: a.opaque_delegation,
        builder: match a.builder {
            Some(b) => Some(b@),
            None => None,
        },
        range: a.range,
    }
}

pub open spec fn attr_views(s: Seq<AttributeDecl>) -> Seq<AttrV> {
    s.map_values(|a: AttributeDecl| attr_view(a))
}

/// Whether the sink holds what it held before, then `notes` and `bads`.
pub open spec fn sink_grew(
    before: Sink,
    after: Sink,
    notes: Seq<(TypeV, TextRange)>,
    bads: Seq<DiagV>,
) -> bool {
    &&& annotated_views(after.annotations@) == annotated_views(before.annotations@) + notes
    &&& diagnostic_views(after.diagnostics@) == diagnostic_views(before.diagnostics@) + bads
}

/// What reading an annotation gives: the type, and what it records.
pub open spec fn annotation_effect(a: (Seq<char>, bool, TextRange)) -> (
    TypeV,
    Seq<(TypeV, TextRange)>,
    Seq<DiagV>,
) {
    match spec_parse(a.0) {
        Ok(t) => (t, seq![(t, a.2)], Seq::empty()),
        Err(m) => (
            TypeV::Unknown,
            Seq::empty(),
            if spec_looks_like_a_type(a.0) {
                seq![bad_annotation(a.2, not_a_type_message(a.0, m))]
            } else {
                Seq::empty()
            },
        ),
    }
}

/// Read an annotation, and say exactly what reading it recorded.
fn read_annotation_of(annotation: &Annotation, into: &mut Sink) -> (r: Type)
    ensures
        ({
            let e = annotation_effect((annotation.text@, annotation.quoted, annotation.range));
            r@ == e.0 && sink_grew(*old(into), *final(into), e.1, e.2)
        }),
{
    let ghost before = *into;
    let r = read_annotation(annotation, into);
    proof {
        let e = annotation_effect((annotation.text@, annotation.quoted, annotation.range));
        assert(annotated_views(into.annotations@) =~= annotated_views(before.annotations@) + e.1);
        assert(diagnostic_views(into.diagnostics@) =~= diagnostic_views(before.diagnostics@) + e.2);
    }
    r
}

/// Where an argument is: a pair from its key to its value.
pub open spec fn arg_range(a: ArgV) -> TextRange {
    match a {
        ArgV::Pair { key, value, .. } => key.range.cover_spec(value.range),
        ArgV::Positional(n) => n.range,
    }
}

/// What a `Class::Accessor::Typed` slot has said so far.
pub struct SlotSpec {
    pub ty: TypeV,
    pub required: bool,
    pub defaulted: bool,
    pub notes: Seq<(TypeV, TextRange)>,
    pub bads: Seq<DiagV>,
}

/// A slot that has said nothing: mandatory, untyped.
pub open spec fn bare_slot() -> SlotSpec {
    SlotSpec { ty: TypeV::Unknown, required: true, defaulted: false, notes: Seq::empty(), bads: Seq::empty() }
}

/// One option of a slot's hashref.
pub open spec fn slot_step(st: SlotSpec, opt: ArgV) -> SlotSpec {
    let value = option_value(opt);
    match option_key(opt) {
        None => st,
        Some(k) => if k == "isa"@ || k == "does"@ {
            match spec_annotation_of(value) {
                Some(a) => {
                    let e = annotation_effect(a);
                    SlotSpec { ty: e.0, notes: st.notes + e.1, bads: st.bads + e.2, ..st }
                },
                None => st,
            }
        } else if k == "required"@ {
            SlotSpec { required: spec_is_true(value), ..st }
        } else if k == "optional"@ {
            SlotSpec { required: !spec_is_true(value), ..st }
        } else if k == "default"@ || k == "builder"@ || k == "lazy"@ {
            SlotSpec { defaulted: true, ..st }
        } else {
            st
        },
    }
}

pub open spec fn slot_fold(opts: Seq<ArgV>, n: int) -> SlotSpec
    decreases n,
{
    if n <= 0 {
        bare_slot()
    } else {
        slot_step(slot_fold(opts, n - 1), opts[n - 1])
    }
}

/// A slot's value: a type, or a hashref with `isa` / `default` / `builder`.
/// A slot is mandatory unless it says `optional`, gives a `default`, or is
/// lazy.
pub open spec fn spec_read_slot(node: SyntaxNode) -> SlotSpec {
    let n = crate::ast::spec_without_plus(node);
    if n.kind == NodeKind::AnonHash {
        slot_fold(hash_pairs(n), hash_pairs(n).len() as int)
    } else {
        match spec_annotation_of(n) {
            Some(a) => {
                let e = annotation_effect(a);
                SlotSpec { ty: e.0, notes: e.1, bads: e.2, ..bare_slot() }
            },
            None => bare_slot(),
        }
    }
}

fn read_slot(node: &SyntaxNode, into: &mut Sink) -> (r: (Type, bool, bool))
    ensures
        ({
            let st = spec_read_slot(*node);
            &&& r.0@ == st.ty
            &&& r.1 == st.required
            &&& r.2 == st.defaulted
            &&& sink_grew(*old(into), *final(into), st.notes, st.bads)
        }),
{
    let node = crate::ast::without_plus(node);
    let ghost start = *into;
    proof {
        assert(annotated_views(into.annotations@) + Seq::<(TypeV, TextRange)>::empty() =~= annotated_views(into.annotations@));
        assert(diagnostic_views(into.diagnostics@) + Seq::<DiagV>::empty() =~= diagnostic_views(into.diagnostics@));
    }
    if node.kind == NodeKind::AnonHash {
        let options = AnonHash(node).pairs();
        let ghost opts = hash_pairs(*node);
        assert(arg_views(options@) == opts);
        let mut ty = Type::Unknown;
        let mut required = true;
        let mut defaulted = false;
        let mut i: usize = 0;
        while i < options.len()
            invariant
                i <= options@.len(),
                arg_views(options@) == opts,
                start == *old(into),
                ({
                    let st = slot_fold(opts, i as int);
                    &&& ty@ == st.ty
                    &&& required == st.required
                    &&& defaulted == st.defaulted
                    &&& sink_grew(start, *into, st.notes, st.bads)
                }),
            decreases options@.len() - i,
        {
            let ghost st = slot_fold(opts, i as int);
            let ghost opt = opts[i as int];
            assert(opt == arg_view(options@[i as int]));
            let value = options[i].node();
            if let Some(k) = options[i].key() {
                if same_text(k, "isa") || same_text(k, "does") {
                    if let Some(annotation) = annotation_of(value) {
                        let ghost mid = *into;
                        ty = read_annotation_of(&annotation, into);
                        proof {
                            let e = annotation_effect((annotation.text@, annotation.quoted, annotation.range));
                            assert(annotated_views(into.annotations@) =~= annotated_views(start.annotations@) + (st.notes + e.1));
                            assert(diagnostic_views(into.diagnostics@) =~= diagnostic_views(start.diagnostics@) + (st.bads + e.2));
                        }
                    }
                } else if same_text(k, "required") {
                    required = is_true(value);
                } else if same_text(k, "optional") {
                    required = !is_true(value);
                } else if same_text(k, "default") || same_text(k, "builder") || same_text(k, "lazy") {
                    defaulted = true;
                }
            }
            i += 1;
        }
        (ty, required, defaulted)
    } else {
        match annotation_of(node) {
            Some(annotation) => {
                let ty = read_annotation_of(&annotation, into);
                proof {
                    let e = annotation_effect((annotation.text@, annotation.quoted, annotation.range));
                    assert(Seq::<(TypeV, TextRange)>::empty() + e.1 =~= e.1);
                }
                (ty, true, false)
            },
            None => (Type::Unknown, true, false),
        }
    }
}

/// What a `Class::Accessor::Typed` declaration has said so far.
pub struct TypedSpec {
    pub attrs: Seq<AttrV>,
    pub constructor: bool,
    pub notes: Seq<(TypeV, TextRange)>,
    pub bads: Seq<DiagV>,
}

/// The access a `Class::Accessor::Typed` key gives.
pub open spec fn typed_access(k: Seq<char>) -> Option<Access> {
    if k == "rw"@ || k == "rw_lazy"@ {
        Some(Access::Rw)
    } else if k == "ro"@ || k == "ro_lazy"@ {
        Some(Access::Ro)
    } else if k == "wo"@ || k == "wo_lazy"@ {
        Some(Access::Wo)
    } else {
        None
    }
}

pub open spec fn typed_lazy(k: Seq<char>) -> bool {
    k == "rw_lazy"@ || k == "ro_lazy"@ || k == "wo_lazy"@
}

/// One slot of an access group.
pub open spec fn typed_slot_step(st: TypedSpec, slot: ArgV, access: Access, lazy: bool) -> TypedSpec {
    match option_key(slot) {
        None => st,
        Some(name) => {
            let r = spec_read_slot(option_value(slot));
            TypedSpec {
                attrs: st.attrs.push(
                    AttrV {
                        name,
                        ty: r.ty,
                        access,
                        // A lazy slot is filled by its builder, so `new`
                        // skips it rather than finding it missing.
                        required: r.required && !lazy,
                        defaulted: r.defaulted || lazy,
                        coerce: false,
                        methods: Seq::empty(),
                        opaque: false,
                        builder: None,
                        range: arg_range(slot),
                    },
                ),
                notes: st.notes + r.notes,
                bads: st.bads + r.bads,
                ..st
            }
        },
    }
}

pub open spec fn typed_slots(st: TypedSpec, slots: Seq<ArgV>, n: int, access: Access, lazy: bool) -> TypedSpec
    decreases n,
{
    if n <= 0 {
        st
    } else {
        typed_slot_step(typed_slots(st, slots, n - 1, access, lazy), slots[n - 1], access, lazy)
    }
}

/// One pair of the declaration: an access group, or `new`.
pub open spec fn typed_step(st: TypedSpec, pair: ArgV) -> TypedSpec {
    match option_key(pair) {
        None => st,
        Some(k) => match typed_access(k) {
            Some(access) => {
                let value = crate::ast::spec_without_plus(option_value(pair));
                if value.kind == NodeKind::AnonHash {
                    typed_slots(st, hash_pairs(value), hash_pairs(value).len() as int, access, typed_lazy(k))
                } else {
                    st
                }
            },
            None => if k == "new"@ {
                TypedSpec { constructor: spec_is_true(option_value(pair)), ..st }
            } else {
                st
            },
        },
    }
}

pub open spec fn typed_fold(pairs: Seq<ArgV>, n: int) -> TypedSpec
    decreases n,
{
    if n <= 0 {
        TypedSpec { attrs: Seq::empty(), constructor: true, notes: Seq::empty(), bads: Seq::empty() }
    } else {
        typed_step(typed_fold(pairs, n - 1), pairs[n - 1])
    }
}

fn typed_access_of(k: &str) -> (r: Option<Access>)
    ensures
        r == typed_access(k@),
{
    if same_text(k, "rw") || same_text(k, "rw_lazy") {
        Some(Access::Rw)
    } else if same_text(k, "ro") || same_text(k, "ro_lazy") {
        Some(Access::Ro)
    } else if same_text(k, "wo") || same_text(k, "wo_lazy") {
        Some(Access::Wo)
    } else {
        None
    }
}

/// Read one access group's slots into `out`.
fn read_typed_slots(
    hash: &SyntaxNode,
    access: Access,
    lazy: bool,
    out: &mut Vec<AttributeDecl>,
    into: &mut Sink,
    Ghost(st): Ghost<TypedSpec>,
    Ghost(start): Ghost<Sink>,
)
    requires
        hash.kind == NodeKind::AnonHash,
        attr_views(old(out)@) == st.attrs,
        sink_grew(start, *old(into), st.notes, st.bads),
    ensures
        ({
            let next = typed_slots(st, hash_pairs(*hash), hash_pairs(*hash).len() as int, access, lazy);
            &&& attr_views(final(out)@) == next.attrs
            &&& sink_grew(start, *final(into), next.notes, next.bads)
            &&& next.constructor == st.constructor
        }),
{
    let slots = AnonHash(hash).pairs();
    let ghost ps = hash_pairs(*hash);
    assert(arg_views(slots@) == ps);
    let mut i: usize = 0;
    while i < slots.len()
        invariant
            i <= slots@.len(),
            arg_views(slots@) == ps,
            ({
                let cur = typed_slots(st, ps, i as int, access, lazy);
                &&& attr_views(out@) == cur.attrs
                &&& sink_grew(start, *into, cur.notes, cur.bads)
                &&& cur.constructor == st.constructor
            }),
        decreases slots@.len() - i,
    {
        let ghost cur = typed_slots(st, ps, i as int, access, lazy);
        let ghost slot = ps[i as int];
        assert(slot == arg_view(slots@[i as int]));
        if let Some(name) = slots[i].key() {
            let value = slots[i].node();
            let ghost r = spec_read_slot(*value);
            let (ty, required, defaulted) = read_slot(value, into);
            let ghost before = attr_views(out@);
            let decl = AttributeDecl {
                name: name.to_string(),
                ty,
                access,
                required: required && !lazy,
                defaulted: defaulted || lazy,
                coerce: false,
                methods: Vec::new(),
                opaque_delegation: false,
                builder: None,
                range: slots[i].range(),
            };
            proof {
                assert(method_views(decl.methods@) =~= Seq::<(Seq<char>, AccessorRole)>::empty());
            }
            out.push(decl);
            proof {
                assert(attr_views(out@) =~= before.push(attr_view(decl)));
                assert(annotated_views(into.annotations@) =~= annotated_views(start.annotations@) + (cur.notes + r.notes));
                assert(diagnostic_views(into.diagnostics@) =~= diagnostic_views(start.diagnostics@) + (cur.bads + r.bads));
            }
        }
        i += 1;
    }
}

/// ```perl
/// use Class::Accessor::Typed (
///     rw => { name => 'Str', tags => 'ArrayRef[Str]' },
///     ro => { id => { isa => 'Int' } },
///     new => 1,
/// );
/// ```
///
/// A `use` statement whose argument list is a declaration: the attributes,
/// and whether there is a `new`.
pub fn read_accessor_typed(arguments: &SyntaxNode, into: &mut Sink) -> (r: (Vec<AttributeDecl>, bool))
    ensures
        ({
            let pairs = spec_pairs(*arguments);
            let st = typed_fold(pairs, pairs.len() as int);
            &&& attr_views(r.0@) == st.attrs
            &&& r.1 == st.constructor
            &&& sink_grew(*old(into), *final(into), st.notes, st.bads)
        }),
{
    let pairs = Args::pairs(arguments);
    let ghost ps = spec_pairs(*arguments);
    let ghost start = *into;
    let mut attributes: Vec<AttributeDecl> = Vec::new();
    let mut constructor = true;
    proof {
        assert(annotated_views(into.annotations@) + Seq::<(TypeV, TextRange)>::empty() =~= annotated_views(into.annotations@));
        assert(diagnostic_views(into.diagnostics@) + Seq::<DiagV>::empty() =~= diagnostic_views(into.diagnostics@));
        assert(attr_views(attributes@) =~= Seq::<AttrV>::empty());
    }
    let mut i: usize = 0;
    while i < pairs.len()
        invariant
            i <= pairs@.len(),
            arg_views(pairs@) == ps,
            start == *old(into),
            ({
                let st = typed_fold(ps, i as int);
                &&& attr_views(attributes@) == st.attrs
                &&& constructor == st.constructor
                &&& sink_grew(start, *into, st.notes, st.bads)
            }),
        decreases pairs@.len() - i,
    {
        let ghost st = typed_fold(ps, i as int);
        assert(ps[i as int] == arg_view(pairs@[i as int]));
        if let Some(k) = pairs[i].key() {
            match typed_access_of(k) {
                Some(access) => {
                    let lazy = same_text(k, "rw_lazy") || same_text(k, "ro_lazy") || same_text(k, "wo_lazy");
                    let value = crate::ast::without_plus(pairs[i].node());
                    if value.kind == NodeKind::AnonHash {
                        read_typed_slots(value, access, lazy, &mut attributes, into, Ghost(st), Ghost(start));
                    }
                },
                None => {
                    if same_text(k, "new") {
                        constructor = is_true(pairs[i].node());
                    }
                },
            }
        }
        i += 1;
    }
    (attributes, constructor)
}

// ===== `Class::Accessor::Lite` and the `mk_accessors` family =====

/// Where a lazy slot's builder is, as a value.
pub enum BuilderV {
    Implicit,
    Named(Seq<char>),
    Anonymous,
}

pub open spec fn builder_view(b: Builder) -> BuilderV {
    match b {
        Builder::Implicit => BuilderV::Implicit,
        Builder::Named(n) => BuilderV::Named(n@),
        Builder::Anonymous => BuilderV::Anonymous,
    }
}

pub open spec fn accessor_name_views(s: Seq<AccessorName>) -> Seq<(Seq<char>, BuilderV)> {
    s.map_values(|a: AccessorName| (a.name@, builder_view(a.builder)))
}

/// Names with nothing written beside them.
pub open spec fn implicit_all(names: Seq<Seq<char>>) -> Seq<(Seq<char>, BuilderV)> {
    names.map_values(|n: Seq<char>| (n, BuilderV::Implicit))
}

/// The builder a hashref slot names: `'make_poe'`, a bareword, or
/// `\\&make_poyo`; an inline `sub { ... }` names nothing.
pub open spec fn spec_builder_of(v: SyntaxNode) -> BuilderV {
    match spec_key_text(v) {
        Some(n) => BuilderV::Named(n),
        None => if v.kind == NodeKind::ReferenceExpr && child_nodes(v).len() > 0 && child_nodes(v)[0].kind
            == NodeKind::CodeVar && name_of(child_tokens(child_nodes(v)[0])).len() > 0 {
            BuilderV::Named(name_of(child_tokens(child_nodes(v)[0])))
        } else {
            BuilderV::Anonymous
        },
    }
}

fn builder_of(value: &SyntaxNode) -> (r: Builder)
    ensures
        builder_view(r) == spec_builder_of(*value),
{
    if let Some(name) = key_text(value) {
        return Builder::Named(name);
    }
    if value.kind == NodeKind::ReferenceExpr {
        if let Some(inner) = value.first_node() {
            if inner.kind == NodeKind::CodeVar {
                if let Some(code) = Variable::cast(inner) {
                    if let Some(name) = code.name() {
                        return Builder::Named(name);
                    }
                }
            }
        }
    }
    Builder::Anonymous
}

/// The accessors of a hashref of `name => builder` pairs, from the first
/// `m` pairs.
pub open spec fn hash_accessors(pairs: Seq<ArgV>, m: int) -> Seq<(Seq<char>, BuilderV)>
    decreases m,
{
    if m <= 0 {
        Seq::empty()
    } else {
        hash_accessors(pairs, m - 1) + match option_key(pairs[m - 1]) {
            Some(name) => seq![(name, spec_builder_of(option_value(pairs[m - 1])))],
            None => Seq::empty(),
        }
    }
}

pub proof fn lemma_without_plus_within(n: SyntaxNode)
    ensures
        spec_without_plus(n) == n || decreases_to!(n => spec_without_plus(n)),
{
    if spec_without_plus(n) != n {
        lemma_child_smaller(n, 0);
    }
}

/// The property names in one `rw => [...]` value: an arrayref of names, a
/// hashref of `name => builder`, or an arrayref holding both.
pub open spec fn spec_accessor_names(node: SyntaxNode) -> Seq<(Seq<char>, BuilderV)>
    decreases node, array_elements(node).len() + 2,
{
    let n = spec_without_plus(node);
    if n.kind == NodeKind::AnonHash {
        hash_accessors(hash_pairs(n), hash_pairs(n).len() as int)
    } else if n.kind == NodeKind::AnonArray {
        proof {
            lemma_without_plus_within(node);
        }
        accessors_from(n, 0)
    } else {
        implicit_all(spec_attribute_names(n))
    }
}

/// The accessors of an anonymous array's elements from the `k`th on.
pub open spec fn accessors_from(n: SyntaxNode, k: int) -> Seq<(Seq<char>, BuilderV)>
    decreases n, array_elements(n).len() + 1 - k,
{
    if k < 0 || k >= array_elements(n).len() {
        Seq::empty()
    } else {
        proof {
            lemma_array_element_below(n, k);
        }
        spec_accessor_names(array_elements(n)[k]) + accessors_from(n, k + 1)
    }
}

/// Add `more` at the end of `out`.
fn extend_names(out: &mut Vec<AccessorName>, more: Vec<AccessorName>)
    ensures
        accessor_name_views(final(out)@) == accessor_name_views(old(out)@) + accessor_name_views(more@),
{
    let ghost before = out@;
    let mut more = more;
    let ghost all = more@;
    out.append(&mut more);
    assert(accessor_name_views(out@) =~= accessor_name_views(before) + accessor_name_views(all));
}

/// Names as accessors with nothing written beside them.
fn implicit_names(names: Vec<String>) -> (r: Vec<AccessorName>)
    ensures
        accessor_name_views(r@) == implicit_all(strings_view(names@)),
{
    let mut out: Vec<AccessorName> = Vec::new();
    let mut i: usize = 0;
    while i < names.len()
        invariant
            i <= names@.len(),
            accessor_name_views(out@) == implicit_all(strings_view(names@)).subrange(0, i as int),
        decreases names@.len() - i,
    {
        let ghost before = accessor_name_views(out@);
        let a = AccessorName::implicit(names[i].clone());
        out.push(a);
        assert(accessor_name_views(out@) =~= before.push((names@[i as int]@, BuilderV::Implicit)));
        assert(implicit_all(strings_view(names@)).subrange(0, i + 1) =~= implicit_all(strings_view(names@)).subrange(0, i as int).push((names@[i as int]@, BuilderV::Implicit)));
        i += 1;
    }
    assert(implicit_all(strings_view(names@)).subrange(0, names@.len() as int) =~= implicit_all(strings_view(names@)));
    out
}

/// The property names in one `rw => [...]` value.
fn accessor_names(node: &SyntaxNode) -> (r: Vec<AccessorName>)
    ensures
        accessor_name_views(r@) == spec_accessor_names(*node),
    decreases node,
{
    let n = crate::ast::without_plus(node);
    proof {
        lemma_without_plus_within(*node);
    }
    if n.kind == NodeKind::AnonHash {
        let pairs = AnonHash(n).pairs();
        let ghost ps = hash_pairs(*n);
        assert(arg_views(pairs@) == ps);
        let mut out: Vec<AccessorName> = Vec::new();
        let mut i: usize = 0;
        while i < pairs.len()
            invariant
                i <= pairs@.len(),
                arg_views(pairs@) == ps,
                accessor_name_views(out@) == hash_accessors(ps, i as int),
            decreases pairs@.len() - i,
        {
            assert(ps[i as int] == arg_view(pairs@[i as int]));
            let ghost before = accessor_name_views(out@);
            if let Some(name) = pairs[i].key() {
                let builder = builder_of(pairs[i].node());
                let a = AccessorName { name: name.to_string(), builder };
                out.push(a);
                assert(accessor_name_views(out@) =~= before + seq![(name@, builder_view(builder))]);
            } else {
                assert(before + Seq::<(Seq<char>, BuilderV)>::empty() =~= before);
            }
            i += 1;
        }
        out
    } else if n.kind == NodeKind::AnonArray {
        let elements = AnonArray(n).elements();
        let ghost els = array_elements(*n);
        assert(deref_nodes(elements@) == els);
        let mut out: Vec<AccessorName> = Vec::new();
        let mut k: usize = 0;
        assert(accessor_name_views(out@) + accessors_from(*n, 0) =~= accessors_from(*n, 0));
        while k < elements.len()
            invariant
                k <= elements@.len(),
                deref_nodes(elements@) == els,
                els == array_elements(*n),
                n.kind == NodeKind::AnonArray,
                spec_without_plus(*node) == *n,
                *n == *node || decreases_to!(*node => *n),
                accessor_name_views(out@) + accessors_from(*n, k as int) == spec_accessor_names(*node),
            decreases elements@.len() - k,
        {
            assert(deref_nodes(elements@)[k as int] == *elements@[k as int]);
            proof {
                lemma_array_element_below(*n, k as int);
            }
            let inner = accessor_names(elements[k]);
            let ghost before = accessor_name_views(out@);
            extend_names(&mut out, inner);
            assert(accessors_from(*n, k as int) == spec_accessor_names(els[k as int]) + accessors_from(*n, k + 1));
            assert(accessor_name_views(out@) + accessors_from(*n, k + 1) =~= before + accessors_from(*n, k as int));
            k += 1;
        }
        assert(accessors_from(*n, k as int) == Seq::<(Seq<char>, BuilderV)>::empty());
        assert(accessor_name_views(out@) + Seq::<(Seq<char>, BuilderV)>::empty() =~= accessor_name_views(out@));
        out
    } else {
        implicit_names(attribute_names(n))
    }
}

/// The names one argument of a `mk_accessors(...)` call spells out. The
/// lazy makers take one shape more: a hashref of name-and-builder pairs.
pub fn listed_names(node: &SyntaxNode, lazy: bool) -> (r: Vec<AccessorName>)
    ensures
        accessor_name_views(r@) == (if lazy {
            spec_accessor_names(*node)
        } else {
            implicit_all(spec_attribute_names(*node))
        }),
{
    if lazy {
        accessor_names(node)
    } else {
        implicit_names(attribute_names(node))
    }
}

/// The builder a lazy accessor is filled by, from the value of its builder.
pub open spec fn builder_name_v(name: Seq<char>, builder: BuilderV) -> Option<Seq<char>> {
    match builder {
        BuilderV::Implicit => Some("_build_"@ + name),
        BuilderV::Named(b) => Some(b),
        BuilderV::Anonymous => None,
    }
}

/// The attributes one list of the family declares.
pub open spec fn listed_attrs(names: Seq<(Seq<char>, BuilderV)>, access: Access, lazy: bool, range: TextRange) -> Seq<AttrV> {
    names.map_values(|n: (Seq<char>, BuilderV)|
        AttrV {
            name: n.0,
            ty: TypeV::Unknown,
            access,
            required: false,
            defaulted: true,
            coerce: false,
            methods: Seq::empty(),
            opaque: false,
            builder: if lazy { builder_name_v(n.0, n.1) } else { None },
            range,
        })
}

/// What a `Class::Accessor::Lite` declaration has said so far.
pub struct LiteSpec {
    pub attrs: Seq<AttrV>,
    pub constructor: bool,
}

pub open spec fn lite_access(k: Seq<char>) -> Option<(Access, bool)> {
    if k == "rw"@ {
        Some((Access::Rw, false))
    } else if k == "rw_lazy"@ {
        Some((Access::Rw, true))
    } else if k == "ro"@ {
        Some((Access::Ro, false))
    } else if k == "ro_lazy"@ {
        Some((Access::Ro, true))
    } else if k == "wo"@ {
        Some((Access::Wo, false))
    } else {
        None
    }
}

pub open spec fn lite_step(st: LiteSpec, pair: ArgV) -> LiteSpec {
    match option_key(pair) {
        None => st,
        Some(k) => match lite_access(k) {
            Some((access, lazy)) => LiteSpec {
                attrs: st.attrs + listed_attrs(spec_accessor_names(option_value(pair)), access, lazy, arg_range(pair)),
                ..st
            },
            None => if k == "new"@ {
                LiteSpec { constructor: spec_is_true(option_value(pair)), ..st }
            } else {
                st
            },
        },
    }
}

pub open spec fn lite_fold(pairs: Seq<ArgV>, n: int) -> LiteSpec
    decreases n,
{
    if n <= 0 {
        LiteSpec { attrs: Seq::empty(), constructor: false }
    } else {
        lite_step(lite_fold(pairs, n - 1), pairs[n - 1])
    }
}

fn lite_access_of(k: &str) -> (r: Option<(Access, bool)>)
    ensures
        r == lite_access(k@),
{
    if same_text(k, "rw") {
        Some((Access::Rw, false))
    } else if same_text(k, "rw_lazy") {
        Some((Access::Rw, true))
    } else if same_text(k, "ro") {
        Some((Access::Ro, false))
    } else if same_text(k, "ro_lazy") {
        Some((Access::Ro, true))
    } else if same_text(k, "wo") {
        Some((Access::Wo, false))
    } else {
        None
    }
}

/// The attributes `accessor_attributes` makes, as values.
proof fn lemma_listed_views(names: Seq<AccessorName>, out: Seq<AttributeDecl>, access: Access, lazy: bool, range: TextRange)
    requires
        out.len() == names.len(),
        forall|i: int| 0 <= i < names.len() ==> is_listed_attribute(#[trigger] out[i], names[i], access, lazy, range),
    ensures
        attr_views(out) == listed_attrs(accessor_name_views(names), access, lazy, range),
{
    assert forall|i: int| 0 <= i < out.len() implies #[trigger] attr_views(out)[i] == listed_attrs(accessor_name_views(names), access, lazy, range)[i] by {
        let a = out[i];
        assert(is_listed_attribute(a, names[i], access, lazy, range));
        assert(method_views(a.methods@) =~= Seq::<(Seq<char>, AccessorRole)>::empty());
        assert(spec_builder_name(names[i].name@, names[i].builder) == builder_name_v(names[i].name@, builder_view(names[i].builder)));
    }
    assert(attr_views(out) =~= listed_attrs(accessor_name_views(names), access, lazy, range));
}

/// Move every attribute of `more` to the end of `out`.
fn append_attributes(out: &mut Vec<AttributeDecl>, more: Vec<AttributeDecl>)
    ensures
        attr_views(final(out)@) == attr_views(old(out)@) + attr_views(more@),
{
    let ghost before = out@;
    let mut more = more;
    let ghost all = more@;
    out.append(&mut more);
    assert(attr_views(out@) =~= attr_views(before) + attr_views(all));
}

/// ```perl
/// use Class::Accessor::Lite (new => 1, rw => [qw(foo bar)], ro => [qw(baz)]);
/// use Class::Accessor::Lite::Lazy (ro_lazy => ['hoge', { poyo => \\&make_poyo }]);
/// ```
///
/// The values are names, not types, so every attribute here is `Unknown`;
/// and the constructor is opt-in: no `new => 1`, no `new`.
pub fn read_accessor_lite(arguments: &SyntaxNode) -> (r: (Vec<AttributeDecl>, bool))
    ensures
        ({
            let pairs = spec_pairs(*arguments);
            let st = lite_fold(pairs, pairs.len() as int);
            &&& attr_views(r.0@) == st.attrs
            &&& r.1 == st.constructor
        }),
{
    let pairs = Args::pairs(arguments);
    let ghost ps = spec_pairs(*arguments);
    let mut attributes: Vec<AttributeDecl> = Vec::new();
    let mut constructor = false;
    assert(attr_views(attributes@) =~= Seq::<AttrV>::empty());
    let mut i: usize = 0;
    while i < pairs.len()
        invariant
            i <= pairs@.len(),
            arg_views(pairs@) == ps,
            attr_views(attributes@) == lite_fold(ps, i as int).attrs,
            constructor == lite_fold(ps, i as int).constructor,
        decreases pairs@.len() - i,
    {
        assert(ps[i as int] == arg_view(pairs@[i as int]));
        if let Some(k) = pairs[i].key() {
            match lite_access_of(k) {
                Some((access, lazy)) => {
                    let names = accessor_names(pairs[i].node());
                    let range = pairs[i].range();
                    let made = accessor_attributes(names.as_slice(), access, lazy, range);
                    proof {
                        lemma_listed_views(names@, made@, access, lazy, range);
                    }
                    append_attributes(&mut attributes, made);
                },
                None => {
                    if same_text(k, "new") {
                        constructor = is_true(pairs[i].node());
                    }
                },
            }
        }
        i += 1;
    }
    (attributes, constructor)
}

// ===== type libraries =====

/// What a member type reads as: its annotation's type and what reading it
/// records, or `Unknown` when the node carries none.
pub open spec fn member_reading(n: SyntaxNode) -> (TypeV, Seq<(TypeV, TextRange)>, Seq<DiagV>) {
    match spec_annotation_of(n) {
        Some(a) => annotation_effect(a),
        None => (TypeV::Unknown, Seq::empty(), Seq::empty()),
    }
}

fn member_type(node: &SyntaxNode, into: &mut Sink) -> (r: Type)
    ensures
        ({
            let e = member_reading(*node);
            r@ == e.0 && sink_grew(*old(into), *final(into), e.1, e.2)
        }),
{
    match annotation_of(node) {
        Some(annotation) => read_annotation_of(&annotation, into),
        None => {
            assert(annotated_views(into.annotations@) + Seq::<(TypeV, TextRange)>::empty() =~= annotated_views(into.annotations@));
            assert(diagnostic_views(into.diagnostics@) + Seq::<DiagV>::empty() =~= diagnostic_views(into.diagnostics@));
            Type::Unknown
        },
    }
}

/// The name a call node calls, if it names one.
pub open spec fn node_callee(n: SyntaxNode) -> Option<Seq<char>> {
    if n.kind == NodeKind::CodeCallExpr {
        None
    } else {
        name_child_text(n)
    }
}

/// `as Int`: the node holding the parent of a declared type.
pub open spec fn spec_as_clause(n: SyntaxNode) -> Option<SyntaxNode> {
    if is_call_kind(n.kind) && node_callee(n) == Some("as"@) && spec_args(n).len() > 0 {
        Some(spec_args(n)[0])
    } else {
        None
    }
}

fn as_clause(node: &SyntaxNode) -> (r: Option<&SyntaxNode>)
    ensures
        match r {
            Some(inner) => spec_as_clause(*node) == Some(*inner),
            None => spec_as_clause(*node) is None,
        },
{
    let call = match Call::cast(node) {
        Some(call) => call,
        None => return None,
    };
    let is_as = match call.callee_name() {
        Some(name) => same_text(name.as_str(), "as"),
        None => false,
    };
    if !is_as {
        return None;
    }
    let arguments = call.args();
    assert(deref_nodes(arguments@) == spec_args(*node));
    if arguments.len() == 0 {
        return None;
    }
    assert(*arguments@[0] == spec_args(*node)[0]);
    Some(arguments[0])
}

/// Where the first `as` clause among `args` from `j` on stands.
pub open spec fn first_as(args: Seq<SyntaxNode>, j: int) -> Option<int>
    decreases args.len() - j,
{
    if j < 0 || j >= args.len() {
        None
    } else if spec_as_clause(args[j]) is Some {
        Some(j)
    } else {
        first_as(args, j + 1)
    }
}

/// Where the first pair keyed `key` stands, from `i` on.
pub open spec fn first_pair_keyed(pairs: Seq<ArgV>, key: Seq<char>, i: int) -> Option<int>
    decreases pairs.len() - i,
{
    if i < 0 || i >= pairs.len() {
        None
    } else if option_key(pairs[i]) == Some(key) {
        Some(i)
    } else {
        first_pair_keyed(pairs, key, i + 1)
    }
}

/// The value of one key of a hashref argument, when it is a name.
pub open spec fn spec_hash_value(n: SyntaxNode, key: Seq<char>) -> Option<Seq<char>> {
    let m = spec_without_plus(n);
    if m.kind != NodeKind::AnonHash {
        None
    } else {
        match first_pair_keyed(hash_pairs(m), key, 0) {
            Some(j) => spec_key_text(option_value(hash_pairs(m)[j])),
            None => None,
        }
    }
}

fn hash_value(node: &SyntaxNode, key: &str) -> (r: Option<String>)
    ensures
        match r {
            Some(v) => spec_hash_value(*node, key@) == Some(v@),
            None => spec_hash_value(*node, key@) is None,
        },
{
    let m = crate::ast::without_plus(node);
    if m.kind != NodeKind::AnonHash {
        return None;
    }
    let pairs = AnonHash(m).pairs();
    let ghost ps = hash_pairs(*m);
    assert(arg_views(pairs@) == ps);
    let mut i: usize = 0;
    while i < pairs.len()
        invariant
            i <= pairs@.len(),
            arg_views(pairs@) == ps,
            ps == hash_pairs(*m),
            *m == spec_without_plus(*node),
            m.kind == NodeKind::AnonHash,
            first_pair_keyed(ps, key@, 0) == first_pair_keyed(ps, key@, i as int),
        decreases pairs@.len() - i,
    {
        assert(ps[i as int] == arg_view(pairs@[i as int]));
        let matched = match pairs[i].key() {
            Some(k) => same_text(k, key),
            None => false,
        };
        if matched {
            let value = pairs[i].node();
            assert(*value == option_value(ps[i as int]));
            assert(first_pair_keyed(ps, key@, i as int) == Some(i as int));
            assert(spec_without_plus(*node) == *m);
            assert(first_pair_keyed(hash_pairs(spec_without_plus(*node)), key@, 0) == Some(i as int));
            let r = key_text(value);
            assert(spec_hash_value(*node, key@) == spec_key_text(*value));
            return r;
        }
        i += 1;
    }
    None
}

/// The member types of `union 'Id', [Int, Str]`, from the first `n`
/// elements, and what reading them records.
pub open spec fn union_members(els: Seq<SyntaxNode>, n: int) -> (Seq<TypeV>, Seq<(TypeV, TextRange)>, Seq<DiagV>)
    decreases n,
{
    if n <= 0 {
        (Seq::empty(), Seq::empty(), Seq::empty())
    } else {
        let before = union_members(els, n - 1);
        let e = member_reading(els[n - 1]);
        (before.0.push(e.0), before.1 + e.1, before.2 + e.2)
    }
}

/// The elements a `union`'s list holds.
pub open spec fn union_list(args: Seq<SyntaxNode>) -> Seq<SyntaxNode> {
    if args.len() > 1 && args[1].kind == NodeKind::AnonArray {
        array_elements(args[1])
    } else {
        Seq::empty()
    }
}

/// A type-library declaration: its name, the type, and what reading it
/// recorded — `None` when the call declares nothing.
pub open spec fn spec_type_library(callee: Option<Seq<char>>, args: Seq<SyntaxNode>) -> Option<(
    Seq<char>,
    TypeV,
    Seq<(TypeV, TextRange)>,
    Seq<DiagV>,
)> {
    match callee {
        None => None,
        Some(c) => if args.len() == 0 || spec_key_text(args[0]) is None {
            None
        } else {
            let name = spec_key_text(args[0])->Some_0;
            if c == "declare"@ || c == "subtype"@ || c == "type"@ {
                match first_as(args, 1) {
                    Some(j) => {
                        let e = member_reading(spec_as_clause(args[j])->Some_0);
                        Some((name, e.0, e.1, e.2))
                    },
                    None => Some((name, TypeV::Any, Seq::empty(), Seq::empty())),
                }
            } else if c == "class_type"@ {
                let class = if args.len() > 1 { spec_hash_value(args[1], "class"@) } else { None };
                Some((name, TypeV::InstanceOf(match class { Some(v) => v, None => name }), Seq::empty(), Seq::empty()))
            } else if c == "role_type"@ {
                let role = if args.len() > 1 { spec_hash_value(args[1], "role"@) } else { None };
                Some((name, TypeV::ConsumerOf(match role { Some(v) => v, None => name }), Seq::empty(), Seq::empty()))
            } else if c == "duck_type"@ {
                Some((name, TypeV::Object, Seq::empty(), Seq::empty()))
            } else if c == "enum"@ {
                let values = if args.len() > 1 { spec_attribute_names(args[1]) } else { Seq::empty() };
                Some((name, TypeV::Enum(values), Seq::empty(), Seq::empty()))
            } else if c == "intersection"@ {
                // The lattice has no intersection: `Unknown`, never reported
                // against — and still a name the library declares.
                Some((name, TypeV::Unknown, Seq::empty(), Seq::empty()))
            } else if c == "union"@ {
                let els = union_list(args);
                let m = union_members(els, els.len() as int);
                Some((name, spec_union(m.0), m.1, m.2))
            } else {
                None
            }
        },
    }
}

/// The callee a `Call` names.
pub open spec fn call_callee(call: Call) -> Option<Seq<char>> {
    if call is Code {
        None
    } else {
        name_child_text(*call.spec_syntax())
    }
}

/// ```perl
/// declare 'PositiveInt', as Int, where { $_ > 0 };
/// class_type 'User', { class => 'MyApp::User' };
/// role_type 'Loggable';
/// enum 'Color', [qw(red green blue)];
/// union 'Id', [Int, Str];
/// ```
///
/// `as T` gives the parent and `where` is ignored: the structural part of a
/// constraint is what the checker can use.
pub fn read_type_library(call: &Call, into: &mut Sink) -> (r: Option<NamedType>)
    ensures
        match spec_type_library(call_callee(*call), spec_args(*call.spec_syntax())) {
            Some((name, ty, notes, bads)) => r matches Some(t) && t.name@ == name && t.ty@ == ty && sink_grew(
                *old(into),
                *final(into),
                notes,
                bads,
            ),
            None => r is None && final(into).annotations@ == old(into).annotations@ && final(into).diagnostics@
                == old(into).diagnostics@,
        },
{
    let callee = match call.callee_name() {
        Some(c) => c,
        None => return None,
    };
    let arguments = call.args();
    let ghost args = spec_args(*call.spec_syntax());
    assert(deref_nodes(arguments@) == args);
    if arguments.len() == 0 {
        return None;
    }
    assert(*arguments@[0] == args[0]);
    let name = match key_text(arguments[0]) {
        Some(n) => n,
        None => return None,
    };
    if arguments.len() > 1 {
        assert(*arguments@[1] == args[1]);
    }
    let c = callee.as_str();
    proof {
        assert(annotated_views(into.annotations@) + Seq::<(TypeV, TextRange)>::empty() =~= annotated_views(into.annotations@));
        assert(diagnostic_views(into.diagnostics@) + Seq::<DiagV>::empty() =~= diagnostic_views(into.diagnostics@));
    }
    let ty = if same_text(c, "declare") || same_text(c, "subtype") || same_text(c, "type") {
        let mut j: usize = 1;
        let mut found: Option<&SyntaxNode> = None;
        while j < arguments.len() && found.is_none()
            invariant
                1 <= j <= arguments@.len(),
                deref_nodes(arguments@) == args,
                match found {
                    Some(inner) => first_as(args, 1) matches Some(k) && spec_as_clause(args[k]) == Some(*inner),
                    None => first_as(args, 1) == first_as(args, j as int),
                },
            decreases arguments@.len() - j,
        {
            assert(*arguments@[j as int] == args[j as int]);
            found = as_clause(arguments[j]);
            j += 1;
        }
        match found {
            Some(inner) => member_type(inner, into),
            None => Type::Any,
        }
    } else if same_text(c, "class_type") {
        let class = if arguments.len() > 1 { hash_value(arguments[1], "class") } else { None };
        proof {
            reveal_strlit("class");
        }
        match class {
            Some(v) => Type::InstanceOf(v),
            None => Type::InstanceOf(name.clone()),
        }
    } else if same_text(c, "role_type") {
        let role = if arguments.len() > 1 { hash_value(arguments[1], "role") } else { None };
        match role {
            Some(v) => Type::ConsumerOf(v),
            None => Type::ConsumerOf(name.clone()),
        }
    } else if same_text(c, "duck_type") {
        Type::Object
    } else if same_text(c, "enum") {
        let values = if arguments.len() > 1 { attribute_names(arguments[1]) } else { Vec::new() };
        proof {
            if arguments.len() <= 1 {
                assert(strings_view(values@) =~= Seq::<Seq<char>>::empty());
            }
        }
        Type::Enum(values)
    } else if same_text(c, "intersection") {
        Type::Unknown
    } else if same_text(c, "union") {
        let elements: Vec<&SyntaxNode> = if arguments.len() > 1 && arguments[1].kind == NodeKind::AnonArray {
            AnonArray(arguments[1]).elements()
        } else {
            Vec::new()
        };
        let ghost els = union_list(args);
        assert(deref_nodes(elements@) =~= els);
        let ghost start = *into;
        let mut members: Vec<Type> = Vec::new();
        let mut i: usize = 0;
        while i < elements.len()
            invariant
                i <= elements@.len(),
                deref_nodes(elements@) == els,
                start == *old(into),
                ({
                    let m = union_members(els, i as int);
                    &&& views(members@) == m.0
                    &&& sink_grew(start, *into, m.1, m.2)
                }),
            decreases elements@.len() - i,
        {
            assert(deref_nodes(elements@)[i as int] == *elements@[i as int]);
            let ghost m = union_members(els, i as int);
            let one = member_type(elements[i], into);
            let ghost old_members = members@;
            members.push(one);
            proof {
                crate::types::lemma_views_push(old_members, one);
                let e = member_reading(els[i as int]);
                assert(annotated_views(into.annotations@) =~= annotated_views(start.annotations@) + (m.1 + e.1));
                assert(diagnostic_views(into.diagnostics@) =~= diagnostic_views(start.diagnostics@) + (m.2 + e.2));
            }
            i += 1;
        }
        Type::union(members)
    } else {
        return None;
    };
    Some(NamedType { name, ty })
}

} // verus!
