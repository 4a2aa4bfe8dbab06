//! Typed views over the concrete syntax tree.
//!
//! The checker's questions are about structure, and asking them by
//! kind-matching over child iterators in every pass is how a checker becomes
//! unmaintainable. So: one view per node kind, `cast` from a node, and
//! accessors that return other views or tokens.

use vstd::prelude::*;

use crate::span::TextRange;
use crate::syntax::{
    child_nodes, child_tokens, deref_nodes, deref_tokens, first_not_of_kind, first_of_kind,
    first_token_of_kind, found, joined, nodes_of, significant, spec_is_assignment, spec_is_keyword,
    spec_is_punct, tokens_of, NodeKind, SyntaxElement, SyntaxNode, SyntaxToken, TokenKind,
};
use crate::text::{append, push_char};

verus! {

/// What a variable's sigil says it holds.
#[derive(Debug, Clone, Copy, PartialEq, Eq, Structural)]
pub enum Sigil {
    Scalar,
    Array,
    Hash,
    Code,
    Typeglob,
}

impl Sigil {
    /// The sigil as it is written.
    pub fn as_str(self) -> (s: &'static str)
        ensures
            s@ == spec_sigil_text(self),
    {
        match self {
            Sigil::Scalar => "$",
            Sigil::Array => "@",
            Sigil::Hash => "%",
            Sigil::Code => "&",
            Sigil::Typeglob => "*",
        }
    }
}

pub open spec fn spec_sigil_text(sigil: Sigil) -> Seq<char> {
    match sigil {
        Sigil::Scalar => "$"@,
        Sigil::Array => "@"@,
        Sigil::Hash => "%"@,
        Sigil::Code => "&"@,
        Sigil::Typeglob => "*"@,
    }
}

// ===== Shared navigation =====

/// The first child node of kind `k`.
pub open spec fn child_of(n: SyntaxNode, k: NodeKind) -> Option<SyntaxNode> {
    found(child_nodes(n), first_of_kind(child_nodes(n), k, 0))
}

/// The nodes of `ns` of kind `k`, in order.
pub open spec fn of_kind(ns: Seq<SyntaxNode>, k: NodeKind) -> Seq<SyntaxNode>
    decreases ns.len(),
{
    if ns.len() == 0 {
        Seq::empty()
    } else if ns.last().kind == k {
        of_kind(ns.drop_last(), k).push(ns.last())
    } else {
        of_kind(ns.drop_last(), k)
    }
}

/// The first direct token of `kind`, trivia included.
pub fn child_token(node: &SyntaxNode, kind: TokenKind) -> (r: Option<&SyntaxToken>)
    ensures
        match r {
            Some(t) => found(tokens_of(node.children@), first_token_of_kind(tokens_of(node.children@), kind, 0)) == Some(*t),
            None => first_token_of_kind(tokens_of(node.children@), kind, 0) is None,
        },
{
    let tokens = node.direct_tokens();
    let mut i: usize = 0;
    while i < tokens.len()
        invariant
            i <= tokens@.len(),
            deref_tokens(tokens@) == tokens_of(node.children@),
            first_token_of_kind(tokens_of(node.children@), kind, 0) == first_token_of_kind(tokens_of(node.children@), kind, i as int),
        decreases tokens@.len() - i,
    {
        assert(deref_tokens(tokens@)[i as int] == *tokens@[i as int]);
        if tokens[i].kind == kind {
            return Some(tokens[i]);
        }
        i += 1;
    }
    None
}

/// The direct non-trivia tokens, in order.
pub fn tokens(node: &SyntaxNode) -> (r: Vec<&SyntaxToken>)
    ensures
        deref_tokens(r@) == child_tokens(*node),
{
    node.significant_tokens()
}

/// The node's non-trivia token text, concatenated: how a dotted name
/// (`Foo::Bar`) is read back whether it is one token or three.
pub fn joined_text(node: &SyntaxNode) -> (r: String)
    ensures
        r@ == joined(*node),
{
    node.joined_text()
}

fn nodes_of_kind<'a>(node: &'a SyntaxNode, k: NodeKind) -> (r: Vec<&'a SyntaxNode>)
    ensures
        deref_nodes(r@) == of_kind(child_nodes(*node), k),
{
    let nodes = node.child_nodes();
    let mut out: Vec<&'a SyntaxNode> = Vec::new();
    let mut i: usize = 0;
    while i < nodes.len()
        invariant
            i <= nodes@.len(),
            deref_nodes(nodes@) == child_nodes(*node),
            deref_nodes(out@) == of_kind(child_nodes(*node).subrange(0, i as int), k),
        decreases nodes@.len() - i,
    {
        let ghost before = deref_nodes(out@);
        proof {
            assert(deref_nodes(nodes@)[i as int] == *nodes@[i as int]);
            assert(child_nodes(*node).subrange(0, i + 1).drop_last() =~= child_nodes(*node).subrange(0, i as int));
        }
        if nodes[i].kind == k {
            out.push(nodes[i]);
            assert(deref_nodes(out@) =~= before.push(*nodes@[i as int]));
        }
        i += 1;
    }
    assert(child_nodes(*node).subrange(0, nodes@.len() as int) =~= child_nodes(*node));
    out
}

// ===== The comment block above a node =====

/// Where the whitespace and newlines that end `b[..j]` begin.
pub open spec fn gap_start(b: Seq<SyntaxToken>, j: int) -> int
    decreases j,
{
    if j <= 0 || j > b.len() {
        j
    } else if b[j - 1].kind == TokenKind::Whitespace || b[j - 1].kind == TokenKind::Newline {
        gap_start(b, j - 1)
    } else {
        j
    }
}

/// Whether nothing but whitespace precedes `b[j]` on its line; before `b`
/// comes the start of the file when `at_start`, and code otherwise.
pub open spec fn own_line(b: Seq<SyntaxToken>, at_start: bool, j: int) -> bool
    decreases j,
{
    if j <= 0 || j > b.len() {
        at_start
    } else if b[j - 1].kind == TokenKind::Whitespace {
        own_line(b, at_start, j - 1)
    } else {
        b[j - 1].kind == TokenKind::Newline
    }
}

/// The comments of the block that ends `b[..j]`, in source order, with
/// `newlines` newlines already passed since the last comment: one newline
/// separates two comment lines, and a second is a blank line that ends the
/// block.
pub open spec fn comment_block(b: Seq<SyntaxToken>, at_start: bool, j: int, newlines: nat) -> Seq<SyntaxToken>
    decreases j,
{
    if j <= 0 || j > b.len() {
        Seq::empty()
    } else if b[j - 1].kind == TokenKind::Comment {
        if !own_line(b, at_start, j - 1) {
            Seq::empty()
        } else {
            comment_block(b, at_start, j - 1, 0).push(b[j - 1])
        }
    } else if b[j - 1].kind == TokenKind::Newline {
        if newlines + 1 > 1 {
            Seq::empty()
        } else {
            comment_block(b, at_start, j - 1, newlines + 1)
        }
    } else if b[j - 1].kind == TokenKind::Whitespace {
        comment_block(b, at_start, j - 1, newlines)
    } else {
        Seq::empty()
    }
}

pub open spec fn spec_leading_comments(n: SyntaxNode) -> Seq<SyntaxToken> {
    comment_block(n.before@, n.at_start, gap_start(n.before@, n.before@.len() as int), 0)
}

fn is_own_line(b: &Vec<SyntaxToken>, at_start: bool, j: usize) -> (r: bool)
    requires
        j <= b@.len(),
    ensures
        r == own_line(b@, at_start, j as int),
{
    let mut k = j;
    while k > 0
        invariant
            k <= j <= b@.len(),
            own_line(b@, at_start, j as int) == own_line(b@, at_start, k as int),
        decreases k,
    {
        match b[k - 1].kind {
            TokenKind::Whitespace => {},
            TokenKind::Newline => return true,
            _ => return false,
        }
        k -= 1;
    }
    at_start
}

/// The comment block immediately above `node`, in source order.
///
/// A comment sharing a line with code belongs to that code, so it is not part
/// of anything's leading block; and a blank line inside the run ends it, so
/// the paragraph above a blank line is somebody else's.
pub fn leading_comments(node: &SyntaxNode) -> (r: Vec<&SyntaxToken>)
    ensures
        deref_tokens(r@) == spec_leading_comments(*node),
{
    let b = &node.before;
    let mut j = b.len();
    while j > 0 && (b[j - 1].kind == TokenKind::Whitespace || b[j - 1].kind == TokenKind::Newline)
        invariant
            j <= b@.len(),
            gap_start(b@, b@.len() as int) == gap_start(b@, j as int),
        decreases j,
    {
        j -= 1;
    }
    let ghost start = j;
    let mut newlines: usize = 0;
    let mut found_back: Vec<usize> = Vec::new();
    loop
        invariant
            j <= b@.len(),
            newlines <= 1,
            start == gap_start(b@, b@.len() as int),
            forall|x: int| 0 <= x < found_back@.len() ==> found_back@[x] < b@.len(),
            comment_block(b@, node.at_start, start as int, 0) == comment_block(b@, node.at_start, j as int, newlines as nat)
                + Seq::new(found_back@.len(), |x: int| b@[found_back@[found_back@.len() - 1 - x] as int]),
        ensures
            comment_block(b@, node.at_start, start as int, 0) == Seq::new(found_back@.len(), |x: int| b@[found_back@[found_back@.len() - 1 - x] as int]),
            forall|x: int| 0 <= x < found_back@.len() ==> found_back@[x] < b@.len(),
        decreases j,
    {
        let ghost tail = Seq::new(found_back@.len(), |x: int| b@[found_back@[found_back@.len() - 1 - x] as int]);
        if j == 0 {
            assert(comment_block(b@, node.at_start, 0, newlines as nat) == Seq::<SyntaxToken>::empty());
            assert(Seq::<SyntaxToken>::empty() + tail =~= tail);
            break;
        }
        match b[j - 1].kind {
            TokenKind::Comment => {
                if !is_own_line(b, node.at_start, j - 1) {
                    assert(Seq::<SyntaxToken>::empty() + tail =~= tail);
                    break;
                }
                found_back.push(j - 1);
                proof {
                    let tail2 = Seq::new(found_back@.len(), |x: int| b@[found_back@[found_back@.len() - 1 - x] as int]);
                    assert(tail2 =~= seq![b@[j - 1]] + tail);
                    assert(comment_block(b@, node.at_start, j - 1, 0).push(b@[j - 1]) + tail =~= comment_block(b@, node.at_start, j - 1, 0) + tail2);
                }
                newlines = 0;
            },
            TokenKind::Newline => {
                if newlines + 1 > 1 {
                    assert(Seq::<SyntaxToken>::empty() + tail =~= tail);
                    break;
                }
                newlines += 1;
            },
            TokenKind::Whitespace => {},
            _ => {
                assert(Seq::<SyntaxToken>::empty() + tail =~= tail);
                break;
            },
        }
        j -= 1;
    }
    let mut out: Vec<&SyntaxToken> = Vec::new();
    let mut k = found_back.len();
    while k > 0
        invariant
            k <= found_back@.len(),
            forall|x: int| 0 <= x < found_back@.len() ==> found_back@[x] < b@.len(),
            deref_tokens(out@) == Seq::new((found_back@.len() - k) as nat, |x: int| b@[found_back@[found_back@.len() - 1 - x] as int]),
        decreases k,
    {
        let ghost before = deref_tokens(out@);
        out.push(&b[found_back[k - 1]]);
        proof {
            assert(deref_tokens(out@) =~= before.push(b@[found_back@[k - 1] as int]));
            assert(deref_tokens(out@) =~= Seq::new((found_back@.len() - (k - 1)) as nat, |x: int| b@[found_back@[found_back@.len() - 1 - x] as int]));
        }
        k -= 1;
    }
    out
}

/// A view over a `Root` node.
#[derive(Debug, Clone, Copy)]
pub struct Root<'a>(pub &'a SyntaxNode);

impl<'a> Root<'a> {
    pub fn cast(node: &'a SyntaxNode) -> (r: Option<Root<'a>>)
        ensures
            r.is_some() == (node.kind == NodeKind::Root),
            r matches Some(v) ==> *v.0 == *node,
    {
        if node.kind == NodeKind::Root {
            Some(Root(node))
        } else {
            None
        }
    }

    pub fn syntax(&self) -> (r: &'a SyntaxNode)
        ensures
            *r == *self.0,
    {
        self.0
    }
}

/// A view over a `Block` node.
#[derive(Debug, Clone, Copy)]
pub struct Block<'a>(pub &'a SyntaxNode);

impl<'a> Block<'a> {
    pub fn cast(node: &'a SyntaxNode) -> (r: Option<Block<'a>>)
        ensures
            r.is_some() == (node.kind == NodeKind::Block),
            r matches Some(v) ==> *v.0 == *node,
    {
        if node.kind == NodeKind::Block {
            Some(Block(node))
        } else {
            None
        }
    }

    pub fn syntax(&self) -> (r: &'a SyntaxNode)
        ensures
            *r == *self.0,
    {
        self.0
    }
}

/// A view over a `PackageStmt` node.
#[derive(Debug, Clone, Copy)]
pub struct PackageStmt<'a>(pub &'a SyntaxNode);

impl<'a> PackageStmt<'a> {
    pub fn cast(node: &'a SyntaxNode) -> (r: Option<PackageStmt<'a>>)
        ensures
            r.is_some() == (node.kind == NodeKind::PackageStmt),
            r matches Some(v) ==> *v.0 == *node,
    {
        if node.kind == NodeKind::PackageStmt {
            Some(PackageStmt(node))
        } else {
            None
        }
    }

    pub fn syntax(&self) -> (r: &'a SyntaxNode)
        ensures
            *r == *self.0,
    {
        self.0
    }
}

/// A view over a `UseStmt` node.
#[derive(Debug, Clone, Copy)]
pub struct UseStmt<'a>(pub &'a SyntaxNode);

impl<'a> UseStmt<'a> {
    pub fn cast(node: &'a SyntaxNode) -> (r: Option<UseStmt<'a>>)
        ensures
            r.is_some() == (node.kind == NodeKind::UseStmt),
            r matches Some(v) ==> *v.0 == *node,
    {
        if node.kind == NodeKind::UseStmt {
            Some(UseStmt(node))
        } else {
            None
        }
    }

    pub fn syntax(&self) -> (r: &'a SyntaxNode)
        ensures
            *r == *self.0,
    {
        self.0
    }
}

/// A view over a `NoStmt` node.
#[derive(Debug, Clone, Copy)]
pub struct NoStmt<'a>(pub &'a SyntaxNode);

impl<'a> NoStmt<'a> {
    pub fn cast(node: &'a SyntaxNode) -> (r: Option<NoStmt<'a>>)
        ensures
            r.is_some() == (node.kind == NodeKind::NoStmt),
            r matches Some(v) ==> *v.0 == *node,
    {
        if node.kind == NodeKind::NoStmt {
            Some(NoStmt(node))
        } else {
            None
        }
    }

    pub fn syntax(&self) -> (r: &'a SyntaxNode)
        ensures
            *r == *self.0,
    {
        self.0
    }
}

/// A view over a `SubName` node.
#[derive(Debug, Clone, Copy)]
pub struct SubName<'a>(pub &'a SyntaxNode);

impl<'a> SubName<'a> {
    pub fn cast(node: &'a SyntaxNode) -> (r: Option<SubName<'a>>)
        ensures
            r.is_some() == (node.kind == NodeKind::SubName),
            r matches Some(v) ==> *v.0 == *node,
    {
        if node.kind == NodeKind::SubName {
            Some(SubName(node))
        } else {
            None
        }
    }

    pub fn syntax(&self) -> (r: &'a SyntaxNode)
        ensures
            *r == *self.0,
    {
        self.0
    }
}

/// A view over a `SubDef` node.
#[derive(Debug, Clone, Copy)]
pub struct SubDef<'a>(pub &'a SyntaxNode);

impl<'a> SubDef<'a> {
    pub fn cast(node: &'a SyntaxNode) -> (r: Option<SubDef<'a>>)
        ensures
            r.is_some() == (node.kind == NodeKind::SubDef),
            r matches Some(v) ==> *v.0 == *node,
    {
        if node.kind == NodeKind::SubDef {
            Some(SubDef(node))
        } else {
            None
        }
    }

    pub fn syntax(&self) -> (r: &'a SyntaxNode)
        ensures
            *r == *self.0,
    {
        self.0
    }
}

/// A view over a `SubSignature` node.
#[derive(Debug, Clone, Copy)]
pub struct SubSignature<'a>(pub &'a SyntaxNode);

impl<'a> SubSignature<'a> {
    pub fn cast(node: &'a SyntaxNode) -> (r: Option<SubSignature<'a>>)
        ensures
            r.is_some() == (node.kind == NodeKind::SubSignature),
            r matches Some(v) ==> *v.0 == *node,
    {
        if node.kind == NodeKind::SubSignature {
            Some(SubSignature(node))
        } else {
            None
        }
    }

    pub fn syntax(&self) -> (r: &'a SyntaxNode)
        ensures
            *r == *self.0,
    {
        self.0
    }
}

/// A view over a `SignatureParam` node.
#[derive(Debug, Clone, Copy)]
pub struct SignatureParam<'a>(pub &'a SyntaxNode);

impl<'a> SignatureParam<'a> {
    pub fn cast(node: &'a SyntaxNode) -> (r: Option<SignatureParam<'a>>)
        ensures
            r.is_some() == (node.kind == NodeKind::SignatureParam),
            r matches Some(v) ==> *v.0 == *node,
    {
        if node.kind == NodeKind::SignatureParam {
            Some(SignatureParam(node))
        } else {
            None
        }
    }

    pub fn syntax(&self) -> (r: &'a SyntaxNode)
        ensures
            *r == *self.0,
    {
        self.0
    }
}

/// A view over a `SignatureDefault` node.
#[derive(Debug, Clone, Copy)]
pub struct SignatureDefault<'a>(pub &'a SyntaxNode);

impl<'a> SignatureDefault<'a> {
    pub fn cast(node: &'a SyntaxNode) -> (r: Option<SignatureDefault<'a>>)
        ensures
            r.is_some() == (node.kind == NodeKind::SignatureDefault),
            r matches Some(v) ==> *v.0 == *node,
    {
        if node.kind == NodeKind::SignatureDefault {
            Some(SignatureDefault(node))
        } else {
            None
        }
    }

    pub fn syntax(&self) -> (r: &'a SyntaxNode)
        ensures
            *r == *self.0,
    {
        self.0
    }
}

/// A view over a `Attr` node.
#[derive(Debug, Clone, Copy)]
pub struct Attr<'a>(pub &'a SyntaxNode);

impl<'a> Attr<'a> {
    pub fn cast(node: &'a SyntaxNode) -> (r: Option<Attr<'a>>)
        ensures
            r.is_some() == (node.kind == NodeKind::Attr),
            r matches Some(v) ==> *v.0 == *node,
    {
        if node.kind == NodeKind::Attr {
            Some(Attr(node))
        } else {
            None
        }
    }

    pub fn syntax(&self) -> (r: &'a SyntaxNode)
        ensures
            *r == *self.0,
    {
        self.0
    }
}

/// A view over a `VarDecl` node.
#[derive(Debug, Clone, Copy)]
pub struct VarDecl<'a>(pub &'a SyntaxNode);

impl<'a> VarDecl<'a> {
    pub fn cast(node: &'a SyntaxNode) -> (r: Option<VarDecl<'a>>)
        ensures
            r.is_some() == (node.kind == NodeKind::VarDecl),
            r matches Some(v) ==> *v.0 == *node,
    {
        if node.kind == NodeKind::VarDecl {
            Some(VarDecl(node))
        } else {
            None
        }
    }

    pub fn syntax(&self) -> (r: &'a SyntaxNode)
        ensures
            *r == *self.0,
    {
        self.0
    }
}

/// A view over a `DeclTarget` node.
#[derive(Debug, Clone, Copy)]
pub struct DeclTarget<'a>(pub &'a SyntaxNode);

impl<'a> DeclTarget<'a> {
    pub fn cast(node: &'a SyntaxNode) -> (r: Option<DeclTarget<'a>>)
        ensures
            r.is_some() == (node.kind == NodeKind::DeclTarget),
            r matches Some(v) ==> *v.0 == *node,
    {
        if node.kind == NodeKind::DeclTarget {
            Some(DeclTarget(node))
        } else {
            None
        }
    }

    pub fn syntax(&self) -> (r: &'a SyntaxNode)
        ensures
            *r == *self.0,
    {
        self.0
    }
}

/// A view over a `ScalarVar` node.
#[derive(Debug, Clone, Copy)]
pub struct ScalarVar<'a>(pub &'a SyntaxNode);

impl<'a> ScalarVar<'a> {
    pub fn cast(node: &'a SyntaxNode) -> (r: Option<ScalarVar<'a>>)
        ensures
            r.is_some() == (node.kind == NodeKind::ScalarVar),
            r matches Some(v) ==> *v.0 == *node,
    {
        if node.kind == NodeKind::ScalarVar {
            Some(ScalarVar(node))
        } else {
            None
        }
    }

    pub fn syntax(&self) -> (r: &'a SyntaxNode)
        ensures
            *r == *self.0,
    {
        self.0
    }
}

/// A view over a `ArrayVar` node.
#[derive(Debug, Clone, Copy)]
pub struct ArrayVar<'a>(pub &'a SyntaxNode);

impl<'a> ArrayVar<'a> {
    pub fn cast(node: &'a SyntaxNode) -> (r: Option<ArrayVar<'a>>)
        ensures
            r.is_some() == (node.kind == NodeKind::ArrayVar),
            r matches Some(v) ==> *v.0 == *node,
    {
        if node.kind == NodeKind::ArrayVar {
            Some(ArrayVar(node))
        } else {
            None
        }
    }

    pub fn syntax(&self) -> (r: &'a SyntaxNode)
        ensures
            *r == *self.0,
    {
        self.0
    }
}

/// A view over a `HashVar` node.
#[derive(Debug, Clone, Copy)]
pub struct HashVar<'a>(pub &'a SyntaxNode);

impl<'a> HashVar<'a> {
    pub fn cast(node: &'a SyntaxNode) -> (r: Option<HashVar<'a>>)
        ensures
            r.is_some() == (node.kind == NodeKind::HashVar),
            r matches Some(v) ==> *v.0 == *node,
    {
        if node.kind == NodeKind::HashVar {
            Some(HashVar(node))
        } else {
            None
        }
    }

    pub fn syntax(&self) -> (r: &'a SyntaxNode)
        ensures
            *r == *self.0,
    {
        self.0
    }
}

/// A view over a `CodeVar` node.
#[derive(Debug, Clone, Copy)]
pub struct CodeVar<'a>(pub &'a SyntaxNode);

impl<'a> CodeVar<'a> {
    pub fn cast(node: &'a SyntaxNode) -> (r: Option<CodeVar<'a>>)
        ensures
            r.is_some() == (node.kind == NodeKind::CodeVar),
            r matches Some(v) ==> *v.0 == *node,
    {
        if node.kind == NodeKind::CodeVar {
            Some(CodeVar(node))
        } else {
            None
        }
    }

    pub fn syntax(&self) -> (r: &'a SyntaxNode)
        ensures
            *r == *self.0,
    {
        self.0
    }
}

/// A view over a `TypeglobVar` node.
#[derive(Debug, Clone, Copy)]
pub struct TypeglobVar<'a>(pub &'a SyntaxNode);

impl<'a> TypeglobVar<'a> {
    pub fn cast(node: &'a SyntaxNode) -> (r: Option<TypeglobVar<'a>>)
        ensures
            r.is_some() == (node.kind == NodeKind::TypeglobVar),
            r matches Some(v) ==> *v.0 == *node,
    {
        if node.kind == NodeKind::TypeglobVar {
            Some(TypeglobVar(node))
        } else {
            None
        }
    }

    pub fn syntax(&self) -> (r: &'a SyntaxNode)
        ensures
            *r == *self.0,
    {
        self.0
    }
}

/// A view over a `ArrayLastIndex` node.
#[derive(Debug, Clone, Copy)]
pub struct ArrayLastIndex<'a>(pub &'a SyntaxNode);

impl<'a> ArrayLastIndex<'a> {
    pub fn cast(node: &'a SyntaxNode) -> (r: Option<ArrayLastIndex<'a>>)
        ensures
            r.is_some() == (node.kind == NodeKind::ArrayLastIndex),
            r matches Some(v) ==> *v.0 == *node,
    {
        if node.kind == NodeKind::ArrayLastIndex {
            Some(ArrayLastIndex(node))
        } else {
            None
        }
    }

    pub fn syntax(&self) -> (r: &'a SyntaxNode)
        ensures
            *r == *self.0,
    {
        self.0
    }
}

/// A view over a `CallExpr` node.
#[derive(Debug, Clone, Copy)]
pub struct CallExpr<'a>(pub &'a SyntaxNode);

impl<'a> CallExpr<'a> {
    pub fn cast(node: &'a SyntaxNode) -> (r: Option<CallExpr<'a>>)
        ensures
            r.is_some() == (node.kind == NodeKind::CallExpr),
            r matches Some(v) ==> *v.0 == *node,
    {
        if node.kind == NodeKind::CallExpr {
            Some(CallExpr(node))
        } else {
            None
        }
    }

    pub fn syntax(&self) -> (r: &'a SyntaxNode)
        ensures
            *r == *self.0,
    {
        self.0
    }
}

/// A view over a `ListCallExpr` node.
#[derive(Debug, Clone, Copy)]
pub struct ListCallExpr<'a>(pub &'a SyntaxNode);

impl<'a> ListCallExpr<'a> {
    pub fn cast(node: &'a SyntaxNode) -> (r: Option<ListCallExpr<'a>>)
        ensures
            r.is_some() == (node.kind == NodeKind::ListCallExpr),
            r matches Some(v) ==> *v.0 == *node,
    {
        if node.kind == NodeKind::ListCallExpr {
            Some(ListCallExpr(node))
        } else {
            None
        }
    }

    pub fn syntax(&self) -> (r: &'a SyntaxNode)
        ensures
            *r == *self.0,
    {
        self.0
    }
}

/// A view over a `CodeCallExpr` node.
#[derive(Debug, Clone, Copy)]
pub struct CodeCallExpr<'a>(pub &'a SyntaxNode);

impl<'a> CodeCallExpr<'a> {
    pub fn cast(node: &'a SyntaxNode) -> (r: Option<CodeCallExpr<'a>>)
        ensures
            r.is_some() == (node.kind == NodeKind::CodeCallExpr),
            r matches Some(v) ==> *v.0 == *node,
    {
        if node.kind == NodeKind::CodeCallExpr {
            Some(CodeCallExpr(node))
        } else {
            None
        }
    }

    pub fn syntax(&self) -> (r: &'a SyntaxNode)
        ensures
            *r == *self.0,
    {
        self.0
    }
}

/// A view over a `Filehandle` node.
#[derive(Debug, Clone, Copy)]
pub struct Filehandle<'a>(pub &'a SyntaxNode);

impl<'a> Filehandle<'a> {
    pub fn cast(node: &'a SyntaxNode) -> (r: Option<Filehandle<'a>>)
        ensures
            r.is_some() == (node.kind == NodeKind::Filehandle),
            r matches Some(v) ==> *v.0 == *node,
    {
        if node.kind == NodeKind::Filehandle {
            Some(Filehandle(node))
        } else {
            None
        }
    }

    pub fn syntax(&self) -> (r: &'a SyntaxNode)
        ensures
            *r == *self.0,
    {
        self.0
    }
}

/// A view over a `ArgList` node.
#[derive(Debug, Clone, Copy)]
pub struct ArgList<'a>(pub &'a SyntaxNode);

impl<'a> ArgList<'a> {
    pub fn cast(node: &'a SyntaxNode) -> (r: Option<ArgList<'a>>)
        ensures
            r.is_some() == (node.kind == NodeKind::ArgList),
            r matches Some(v) ==> *v.0 == *node,
    {
        if node.kind == NodeKind::ArgList {
            Some(ArgList(node))
        } else {
            None
        }
    }

    pub fn syntax(&self) -> (r: &'a SyntaxNode)
        ensures
            *r == *self.0,
    {
        self.0
    }
}

/// A view over a `ListExpr` node.
#[derive(Debug, Clone, Copy)]
pub struct ListExpr<'a>(pub &'a SyntaxNode);

impl<'a> ListExpr<'a> {
    pub fn cast(node: &'a SyntaxNode) -> (r: Option<ListExpr<'a>>)
        ensures
            r.is_some() == (node.kind == NodeKind::ListExpr),
            r matches Some(v) ==> *v.0 == *node,
    {
        if node.kind == NodeKind::ListExpr {
            Some(ListExpr(node))
        } else {
            None
        }
    }

    pub fn syntax(&self) -> (r: &'a SyntaxNode)
        ensures
            *r == *self.0,
    {
        self.0
    }
}

/// A view over a `ParenExpr` node.
#[derive(Debug, Clone, Copy)]
pub struct ParenExpr<'a>(pub &'a SyntaxNode);

impl<'a> ParenExpr<'a> {
    pub fn cast(node: &'a SyntaxNode) -> (r: Option<ParenExpr<'a>>)
        ensures
            r.is_some() == (node.kind == NodeKind::ParenExpr),
            r matches Some(v) ==> *v.0 == *node,
    {
        if node.kind == NodeKind::ParenExpr {
            Some(ParenExpr(node))
        } else {
            None
        }
    }

    pub fn syntax(&self) -> (r: &'a SyntaxNode)
        ensures
            *r == *self.0,
    {
        self.0
    }
}

/// A view over a `MethodCallExpr` node.
#[derive(Debug, Clone, Copy)]
pub struct MethodCallExpr<'a>(pub &'a SyntaxNode);

impl<'a> MethodCallExpr<'a> {
    pub fn cast(node: &'a SyntaxNode) -> (r: Option<MethodCallExpr<'a>>)
        ensures
            r.is_some() == (node.kind == NodeKind::MethodCallExpr),
            r matches Some(v) ==> *v.0 == *node,
    {
        if node.kind == NodeKind::MethodCallExpr {
            Some(MethodCallExpr(node))
        } else {
            None
        }
    }

    pub fn syntax(&self) -> (r: &'a SyntaxNode)
        ensures
            *r == *self.0,
    {
        self.0
    }
}

/// A view over a `PrefixExpr` node.
#[derive(Debug, Clone, Copy)]
pub struct PrefixExpr<'a>(pub &'a SyntaxNode);

impl<'a> PrefixExpr<'a> {
    pub fn cast(node: &'a SyntaxNode) -> (r: Option<PrefixExpr<'a>>)
        ensures
            r.is_some() == (node.kind == NodeKind::PrefixExpr),
            r matches Some(v) ==> *v.0 == *node,
    {
        if node.kind == NodeKind::PrefixExpr {
            Some(PrefixExpr(node))
        } else {
            None
        }
    }

    pub fn syntax(&self) -> (r: &'a SyntaxNode)
        ensures
            *r == *self.0,
    {
        self.0
    }
}

/// A view over a `Literal` node.
#[derive(Debug, Clone, Copy)]
pub struct Literal<'a>(pub &'a SyntaxNode);

impl<'a> Literal<'a> {
    pub fn cast(node: &'a SyntaxNode) -> (r: Option<Literal<'a>>)
        ensures
            r.is_some() == (node.kind == NodeKind::Literal),
            r matches Some(v) ==> *v.0 == *node,
    {
        if node.kind == NodeKind::Literal {
            Some(Literal(node))
        } else {
            None
        }
    }

    pub fn syntax(&self) -> (r: &'a SyntaxNode)
        ensures
            *r == *self.0,
    {
        self.0
    }
}

/// A view over a `QwExpr` node.
#[derive(Debug, Clone, Copy)]
pub struct QwExpr<'a>(pub &'a SyntaxNode);

impl<'a> QwExpr<'a> {
    pub fn cast(node: &'a SyntaxNode) -> (r: Option<QwExpr<'a>>)
        ensures
            r.is_some() == (node.kind == NodeKind::QwExpr),
            r matches Some(v) ==> *v.0 == *node,
    {
        if node.kind == NodeKind::QwExpr {
            Some(QwExpr(node))
        } else {
            None
        }
    }

    pub fn syntax(&self) -> (r: &'a SyntaxNode)
        ensures
            *r == *self.0,
    {
        self.0
    }
}

/// A view over a `AnonHash` node.
#[derive(Debug, Clone, Copy)]
pub struct AnonHash<'a>(pub &'a SyntaxNode);

impl<'a> AnonHash<'a> {
    pub fn cast(node: &'a SyntaxNode) -> (r: Option<AnonHash<'a>>)
        ensures
            r.is_some() == (node.kind == NodeKind::AnonHash),
            r matches Some(v) ==> *v.0 == *node,
    {
        if node.kind == NodeKind::AnonHash {
            Some(AnonHash(node))
        } else {
            None
        }
    }

    pub fn syntax(&self) -> (r: &'a SyntaxNode)
        ensures
            *r == *self.0,
    {
        self.0
    }
}

/// A view over a `AnonArray` node.
#[derive(Debug, Clone, Copy)]
pub struct AnonArray<'a>(pub &'a SyntaxNode);

impl<'a> AnonArray<'a> {
    pub fn cast(node: &'a SyntaxNode) -> (r: Option<AnonArray<'a>>)
        ensures
            r.is_some() == (node.kind == NodeKind::AnonArray),
            r matches Some(v) ==> *v.0 == *node,
    {
        if node.kind == NodeKind::AnonArray {
            Some(AnonArray(node))
        } else {
            None
        }
    }

    pub fn syntax(&self) -> (r: &'a SyntaxNode)
        ensures
            *r == *self.0,
    {
        self.0
    }
}

/// A view over a `AnonSubExpr` node.
#[derive(Debug, Clone, Copy)]
pub struct AnonSubExpr<'a>(pub &'a SyntaxNode);

impl<'a> AnonSubExpr<'a> {
    pub fn cast(node: &'a SyntaxNode) -> (r: Option<AnonSubExpr<'a>>)
        ensures
            r.is_some() == (node.kind == NodeKind::AnonSubExpr),
            r matches Some(v) ==> *v.0 == *node,
    {
        if node.kind == NodeKind::AnonSubExpr {
            Some(AnonSubExpr(node))
        } else {
            None
        }
    }

    pub fn syntax(&self) -> (r: &'a SyntaxNode)
        ensures
            *r == *self.0,
    {
        self.0
    }
}

/// A view over a `AssignExpr` node.
#[derive(Debug, Clone, Copy)]
pub struct AssignExpr<'a>(pub &'a SyntaxNode);

impl<'a> AssignExpr<'a> {
    pub fn cast(node: &'a SyntaxNode) -> (r: Option<AssignExpr<'a>>)
        ensures
            r.is_some() == (node.kind == NodeKind::AssignExpr),
            r matches Some(v) ==> *v.0 == *node,
    {
        if node.kind == NodeKind::AssignExpr {
            Some(AssignExpr(node))
        } else {
            None
        }
    }

    pub fn syntax(&self) -> (r: &'a SyntaxNode)
        ensures
            *r == *self.0,
    {
        self.0
    }
}

/// A view over a `Subscript` node.
#[derive(Debug, Clone, Copy)]
pub struct Subscript<'a>(pub &'a SyntaxNode);

impl<'a> Subscript<'a> {
    pub fn cast(node: &'a SyntaxNode) -> (r: Option<Subscript<'a>>)
        ensures
            r.is_some() == (node.kind == NodeKind::Subscript),
            r matches Some(v) ==> *v.0 == *node,
    {
        if node.kind == NodeKind::Subscript {
            Some(Subscript(node))
        } else {
            None
        }
    }

    pub fn syntax(&self) -> (r: &'a SyntaxNode)
        ensures
            *r == *self.0,
    {
        self.0
    }
}

/// A view over a `BinaryExpr` node.
#[derive(Debug, Clone, Copy)]
pub struct BinaryExpr<'a>(pub &'a SyntaxNode);

impl<'a> BinaryExpr<'a> {
    pub fn cast(node: &'a SyntaxNode) -> (r: Option<BinaryExpr<'a>>)
        ensures
            r.is_some() == (node.kind == NodeKind::BinaryExpr),
            r matches Some(v) ==> *v.0 == *node,
    {
        if node.kind == NodeKind::BinaryExpr {
            Some(BinaryExpr(node))
        } else {
            None
        }
    }

    pub fn syntax(&self) -> (r: &'a SyntaxNode)
        ensures
            *r == *self.0,
    {
        self.0
    }
}

/// A view over a `TernaryExpr` node.
#[derive(Debug, Clone, Copy)]
pub struct TernaryExpr<'a>(pub &'a SyntaxNode);

impl<'a> TernaryExpr<'a> {
    pub fn cast(node: &'a SyntaxNode) -> (r: Option<TernaryExpr<'a>>)
        ensures
            r.is_some() == (node.kind == NodeKind::TernaryExpr),
            r matches Some(v) ==> *v.0 == *node,
    {
        if node.kind == NodeKind::TernaryExpr {
            Some(TernaryExpr(node))
        } else {
            None
        }
    }

    pub fn syntax(&self) -> (r: &'a SyntaxNode)
        ensures
            *r == *self.0,
    {
        self.0
    }
}

/// A view over a `ReferenceExpr` node.
#[derive(Debug, Clone, Copy)]
pub struct ReferenceExpr<'a>(pub &'a SyntaxNode);

impl<'a> ReferenceExpr<'a> {
    pub fn cast(node: &'a SyntaxNode) -> (r: Option<ReferenceExpr<'a>>)
        ensures
            r.is_some() == (node.kind == NodeKind::ReferenceExpr),
            r matches Some(v) ==> *v.0 == *node,
    {
        if node.kind == NodeKind::ReferenceExpr {
            Some(ReferenceExpr(node))
        } else {
            None
        }
    }

    pub fn syntax(&self) -> (r: &'a SyntaxNode)
        ensures
            *r == *self.0,
    {
        self.0
    }
}

// ===== Files, packages, uses =====

impl<'a> Root<'a> {
    pub fn statements(&self) -> (r: Vec<&'a SyntaxNode>)
        ensures
            deref_nodes(r@) == child_nodes(*self.0),
    {
        self.0.child_nodes()
    }
}

impl<'a> Block<'a> {
    pub fn statements(&self) -> (r: Vec<&'a SyntaxNode>)
        ensures
            deref_nodes(r@) == child_nodes(*self.0),
    {
        self.0.child_nodes()
    }
}

/// The text of the first `SUB_NAME` child, if there is one.
pub open spec fn name_child_text(n: SyntaxNode) -> Option<Seq<char>> {
    match child_of(n, NodeKind::SubName) {
        Some(name) => Some(joined(name)),
        None => None,
    }
}

fn name_child_string(n: &SyntaxNode) -> (r: Option<String>)
    ensures
        match r {
            Some(s) => name_child_text(*n) == Some(s@),
            None => name_child_text(*n) is None,
        },
{
    match n.first_child(NodeKind::SubName) {
        Some(name) => Some(name.joined_text()),
        None => None,
    }
}

impl<'a> PackageStmt<'a> {
    /// `package Foo::Bar;` — the name.
    pub fn name(&self) -> (r: Option<String>)
        ensures
            match r {
                Some(s) => name_child_text(*self.0) == Some(s@),
                None => name_child_text(*self.0) is None,
            },
    {
        name_child_string(self.0)
    }

    /// `package Foo { ... }` — the block form, if this is one.
    pub fn block(&self) -> (r: Option<Block<'a>>)
        ensures
            match r {
                Some(b) => child_of(*self.0, NodeKind::Block) == Some(*b.0),
                None => child_of(*self.0, NodeKind::Block) is None,
            },
    {
        match self.0.first_child(NodeKind::Block) {
            Some(n) => Some(Block(n)),
            None => None,
        }
    }
}

/// The first child that is not the module's name: the import list.
pub open spec fn arguments_of(n: SyntaxNode) -> Option<SyntaxNode> {
    found(child_nodes(n), first_not_of_kind(child_nodes(n), NodeKind::SubName, 0))
}

impl<'a> UseStmt<'a> {
    /// The module, or `None` for `use 5.010`.
    pub fn module(&self) -> (r: Option<String>)
        ensures
            match r {
                Some(s) => name_child_text(*self.0) == Some(s@),
                None => name_child_text(*self.0) is None,
            },
    {
        name_child_string(self.0)
    }

    /// The import list as one expression — a declaration for the recognisers,
    /// not an argument list for the checker.
    pub fn arguments(&self) -> (r: Option<&'a SyntaxNode>)
        ensures
            match r {
                Some(n) => arguments_of(*self.0) == Some(*n),
                None => arguments_of(*self.0) is None,
            },
    {
        self.0.first_child_not(NodeKind::SubName)
    }
}

impl<'a> NoStmt<'a> {
    pub fn module(&self) -> (r: Option<String>)
        ensures
            match r {
                Some(s) => name_child_text(*self.0) == Some(s@),
                None => name_child_text(*self.0) is None,
            },
    {
        name_child_string(self.0)
    }

    pub fn arguments(&self) -> (r: Option<&'a SyntaxNode>)
        ensures
            match r {
                Some(n) => arguments_of(*self.0) == Some(*n),
                None => arguments_of(*self.0) is None,
            },
    {
        self.0.first_child_not(NodeKind::SubName)
    }
}

impl<'a> SubName<'a> {
    pub fn text(&self) -> (r: String)
        ensures
            r@ == joined(*self.0),
    {
        self.0.joined_text()
    }
}

// ===== Subs =====

impl<'a> SubDef<'a> {
    pub fn name(&self) -> (r: Option<SubName<'a>>)
        ensures
            match r {
                Some(n) => child_of(*self.0, NodeKind::SubName) == Some(*n.0),
                None => child_of(*self.0, NodeKind::SubName) is None,
            },
    {
        match self.0.first_child(NodeKind::SubName) {
            Some(n) => Some(SubName(n)),
            None => None,
        }
    }

    pub fn name_text(&self) -> (r: Option<String>)
        ensures
            match r {
                Some(s) => name_child_text(*self.0) == Some(s@),
                None => name_child_text(*self.0) is None,
            },
    {
        name_child_string(self.0)
    }

    pub fn signature(&self) -> (r: Option<SubSignature<'a>>)
        ensures
            match r {
                Some(n) => child_of(*self.0, NodeKind::SubSignature) == Some(*n.0),
                None => child_of(*self.0, NodeKind::SubSignature) is None,
            },
    {
        match self.0.first_child(NodeKind::SubSignature) {
            Some(n) => Some(SubSignature(n)),
            None => None,
        }
    }

    pub fn body(&self) -> (r: Option<Block<'a>>)
        ensures
            match r {
                Some(n) => child_of(*self.0, NodeKind::Block) == Some(*n.0),
                None => child_of(*self.0, NodeKind::Block) is None,
            },
    {
        match self.0.first_child(NodeKind::Block) {
            Some(n) => Some(Block(n)),
            None => None,
        }
    }

    pub fn attrs(&self) -> (r: Vec<Attr<'a>>)
        ensures
            r@.len() == of_kind(child_nodes(*self.0), NodeKind::Attr).len(),
            forall|i: int| 0 <= i < r@.len() ==> *(#[trigger] r@[i]).0 == of_kind(child_nodes(*self.0), NodeKind::Attr)[i],
    {
        let nodes = nodes_of_kind(self.0, NodeKind::Attr);
        let mut out: Vec<Attr<'a>> = Vec::new();
        let mut i: usize = 0;
        while i < nodes.len()
            invariant
                i <= nodes@.len(),
                deref_nodes(nodes@) == of_kind(child_nodes(*self.0), NodeKind::Attr),
                out@.len() == i,
                forall|j: int| 0 <= j < i ==> *(#[trigger] out@[j]).0 == deref_nodes(nodes@)[j],
            decreases nodes@.len() - i,
        {
            out.push(Attr(nodes[i]));
            i += 1;
        }
        out
    }

    /// Whether this is `sub f;` — a forward declaration with no body.
    pub fn is_forward_declaration(&self) -> (r: bool)
        ensures
            r == (child_of(*self.0, NodeKind::Block) is None),
    {
        self.body().is_none()
    }

    /// Whether this was written `method f { ... }` rather than `sub f { ... }`:
    /// perl gives a `method` its invocant without the signature naming one.
    pub fn is_method(&self) -> (r: bool)
        ensures
            r == (first_token_of_kind(child_tokens(*self.0), TokenKind::MethodKw, 0) is Some),
    {
        self.0.first_token(TokenKind::MethodKw).is_some()
    }

    /// The comment block immediately above the `sub`, in source order: where
    /// `Returns:` lives.
    pub fn leading_comments(&self) -> (r: Vec<&'a SyntaxToken>)
        ensures
            deref_tokens(r@) == spec_leading_comments(*self.0),
    {
        leading_comments(self.0)
    }
}

/// The parameters of a signature: its `SIGNATURE_PARAM` children, and those
/// of a `LIST_EXPR` child, in order.
pub open spec fn signature_params(ns: Seq<SyntaxNode>) -> Seq<SyntaxNode>
    decreases ns.len(),
{
    if ns.len() == 0 {
        Seq::empty()
    } else if ns.last().kind == NodeKind::SignatureParam {
        signature_params(ns.drop_last()).push(ns.last())
    } else if ns.last().kind == NodeKind::ListExpr {
        signature_params(ns.drop_last()) + of_kind(child_nodes(ns.last()), NodeKind::SignatureParam)
    } else {
        signature_params(ns.drop_last())
    }
}

impl<'a> SubSignature<'a> {
    /// The parameters, wherever the parser put them: direct children, or in
    /// a `LIST_EXPR` of their own.
    pub fn params(&self) -> (r: Vec<SignatureParam<'a>>)
        ensures
            r@.len() == signature_params(child_nodes(*self.0)).len(),
            forall|i: int| 0 <= i < r@.len() ==> *(#[trigger] r@[i]).0 == signature_params(child_nodes(*self.0))[i],
    {
        let nodes = self.0.child_nodes();
        let ghost ns = child_nodes(*self.0);
        let mut out: Vec<SignatureParam<'a>> = Vec::new();
        let mut i: usize = 0;
        while i < nodes.len()
            invariant
                i <= nodes@.len(),
                deref_nodes(nodes@) == ns,
                ns == child_nodes(*self.0),
                out@.len() == signature_params(ns.subrange(0, i as int)).len(),
                forall|j: int| 0 <= j < out@.len() ==> *(#[trigger] out@[j]).0 == signature_params(ns.subrange(0, i as int))[j],
            decreases nodes@.len() - i,
        {
            let child = nodes[i];
            proof {
                assert(deref_nodes(nodes@)[i as int] == *child);
                assert(ns.subrange(0, i + 1).drop_last() =~= ns.subrange(0, i as int));
                assert(ns.subrange(0, i + 1).last() == *child);
            }
            if child.kind == NodeKind::SignatureParam {
                out.push(SignatureParam(child));
            } else if child.kind == NodeKind::ListExpr {
                let inner = nodes_of_kind(child, NodeKind::SignatureParam);
                let ghost start = out@.len();
                let ghost prev = signature_params(ns.subrange(0, i as int));
                let mut k: usize = 0;
                while k < inner.len()
                    invariant
                        k <= inner@.len(),
                        deref_nodes(inner@) == of_kind(child_nodes(*child), NodeKind::SignatureParam),
                        out@.len() == start + k,
                        start == prev.len(),
                        forall|j: int| 0 <= j < start ==> *(#[trigger] out@[j]).0 == prev[j],
                        forall|j: int| start <= j < out@.len() ==> *(#[trigger] out@[j]).0 == deref_nodes(inner@)[j - start],
                    decreases inner@.len() - k,
                {
                    out.push(SignatureParam(inner[k]));
                    k += 1;
                }
            }
            i += 1;
        }
        assert(ns.subrange(0, nodes@.len() as int) =~= ns);
        out
    }
}

/// Whether a node is a variable of some sigil.
pub open spec fn is_variable_kind(k: NodeKind) -> bool {
    k == NodeKind::ScalarVar || k == NodeKind::ArrayVar || k == NodeKind::HashVar || k == NodeKind::CodeVar
        || k == NodeKind::TypeglobVar || k == NodeKind::ArrayLastIndex
}

/// Where the first variable at or after `i` stands.
pub open spec fn first_variable(ns: Seq<SyntaxNode>, i: int) -> Option<int>
    decreases ns.len() - i,
{
    if i < 0 || i >= ns.len() {
        None
    } else if is_variable_kind(ns[i].kind) {
        Some(i)
    } else {
        first_variable(ns, i + 1)
    }
}

impl<'a> SignatureParam<'a> {
    /// The parameter variable, `$x` / `@rest` / `%opts`.
    pub fn variable(&self) -> (r: Option<Variable<'a>>)
        ensures
            match r {
                Some(v) => found(child_nodes(*self.0), first_variable(child_nodes(*self.0), 0)) == Some(*v.syntax())
                    && v.spec_sigil() == sigil_of_kind(v.syntax().kind),
                None => first_variable(child_nodes(*self.0), 0) is None,
            },
    {
        let nodes = self.0.child_nodes();
        let mut i: usize = 0;
        while i < nodes.len()
            invariant
                i <= nodes@.len(),
                deref_nodes(nodes@) == child_nodes(*self.0),
                first_variable(child_nodes(*self.0), 0) == first_variable(child_nodes(*self.0), i as int),
            decreases nodes@.len() - i,
        {
            assert(deref_nodes(nodes@)[i as int] == *nodes@[i as int]);
            match Variable::cast(nodes[i]) {
                Some(v) => return Some(v),
                None => {},
            }
            i += 1;
        }
        None
    }

    /// `= 1` or `//= []`; its presence is what makes the parameter optional.
    pub fn default(&self) -> (r: Option<SignatureDefault<'a>>)
        ensures
            match r {
                Some(n) => child_of(*self.0, NodeKind::SignatureDefault) == Some(*n.0),
                None => child_of(*self.0, NodeKind::SignatureDefault) is None,
            },
    {
        match self.0.first_child(NodeKind::SignatureDefault) {
            Some(n) => Some(SignatureDefault(n)),
            None => None,
        }
    }
}

impl<'a> Attr<'a> {
    /// `:lvalue` — the attribute's name.
    pub fn name(&self) -> (r: Option<String>)
        ensures
            match r {
                Some(s) => found(child_tokens(*self.0), first_token_of_kind(child_tokens(*self.0), TokenKind::Ident, 0))
                    matches Some(t) && s@ == t.text@,
                None => first_token_of_kind(child_tokens(*self.0), TokenKind::Ident, 0) is None,
            },
    {
        match self.0.first_token(TokenKind::Ident) {
            Some(t) => Some(t.text.clone()),
            None => None,
        }
    }
}

// ===== Declarations =====

/// `my` / `our` / `state` / `local`.
#[derive(Debug, Clone, Copy, PartialEq, Eq, Structural)]
pub enum DeclKeyword {
    My,
    Our,
    State,
    Local,
}

pub open spec fn keyword_of(k: TokenKind) -> Option<DeclKeyword> {
    if k == TokenKind::MyKw {
        Some(DeclKeyword::My)
    } else if k == TokenKind::OurKw {
        Some(DeclKeyword::Our)
    } else if k == TokenKind::StateKw {
        Some(DeclKeyword::State)
    } else if k == TokenKind::LocalKw {
        Some(DeclKeyword::Local)
    } else {
        None
    }
}

/// The first declaring keyword among `ts` from `i` on.
pub open spec fn first_keyword(ts: Seq<SyntaxToken>, i: int) -> Option<DeclKeyword>
    decreases ts.len() - i,
{
    if i < 0 || i >= ts.len() {
        None
    } else if keyword_of(ts[i].kind) is Some {
        keyword_of(ts[i].kind)
    } else {
        first_keyword(ts, i + 1)
    }
}

/// The variables under a node, not looking inside a variable.
pub open spec fn variables_under(n: SyntaxNode) -> Seq<SyntaxNode>
    decreases n,
{
    variables_in(n.children@)
}

pub open spec fn variables_in(es: Seq<SyntaxElement>) -> Seq<SyntaxNode>
    decreases es,
{
    if es.len() == 0 {
        Seq::empty()
    } else {
        variables_in(es.drop_last()) + match es.last() {
            SyntaxElement::Node(m) => if is_variable_kind(m.kind) {
                seq![m]
            } else {
                variables_under(m)
            },
            SyntaxElement::Token(_) => Seq::empty(),
        }
    }
}

fn collect_variables<'a>(node: &'a SyntaxNode, acc: &mut Vec<Variable<'a>>)
    ensures
        final(acc)@.len() == old(acc)@.len() + variables_under(*node).len(),
        forall|i: int| 0 <= i < old(acc)@.len() ==> #[trigger] final(acc)@[i] == old(acc)@[i],
        forall|i: int| 0 <= i < variables_under(*node).len() ==> *(#[trigger] final(acc)@[old(acc)@.len() + i]).syntax()
            == variables_under(*node)[i],
        forall|i: int| old(acc)@.len() <= i < final(acc)@.len() ==> (#[trigger] final(acc)@[i]).spec_sigil() == sigil_of_kind(
            final(acc)@[i].syntax().kind,
        ),
    decreases node,
{
    let ghost start = acc@;
    let mut i: usize = 0;
    while i < node.children.len()
        invariant
            i <= node.children@.len(),
            acc@.len() == start.len() + variables_in(node.children@.subrange(0, i as int)).len(),
            forall|j: int| 0 <= j < start.len() ==> #[trigger] acc@[j] == start[j],
            forall|j: int| 0 <= j < variables_in(node.children@.subrange(0, i as int)).len() ==> *(#[trigger] acc@[start.len() + j]).syntax()
                == variables_in(node.children@.subrange(0, i as int))[j],
            forall|j: int| start.len() <= j < acc@.len() ==> (#[trigger] acc@[j]).spec_sigil() == sigil_of_kind(acc@[j].syntax().kind),
        decreases node.children@.len() - i,
    {
        proof {
            assert(node.children@.subrange(0, i + 1).drop_last() =~= node.children@.subrange(0, i as int));
            assert(node.children@.subrange(0, i + 1).last() == node.children@[i as int]);
        }
        let ghost mid = acc@;
        let ghost prev = variables_in(node.children@.subrange(0, i as int));
        let ghost next = variables_in(node.children@.subrange(0, i + 1));
        match &node.children[i] {
            SyntaxElement::Node(child) => {
                match Variable::cast(child) {
                    Some(v) => {
                        acc.push(v);
                        proof {
                            assert(next =~= prev + seq![*child]);
                            assert forall|j: int| 0 <= j < next.len() implies *(#[trigger] acc@[start.len() + j]).syntax() == next[j] by {
                                if j < prev.len() {
                                    assert(acc@[start.len() + j] == mid[start.len() + j]);
                                }
                            }
                        }
                    },
                    None => {
                        proof {
                            assert(decreases_to!(*node => node.children));
                            assert(decreases_to!(node.children => node.children@));
                            assert(decreases_to!(node.children@ => node.children@[i as int]));
                        }
                        collect_variables(child, acc);
                        proof {
                            let inner = variables_under(*child);
                            assert(next =~= prev + inner);
                            assert forall|j: int| 0 <= j < next.len() implies *(#[trigger] acc@[start.len() + j]).syntax() == next[j] by {
                                if j < prev.len() {
                                    assert(acc@[start.len() + j] == mid[start.len() + j]);
                                } else {
                                    let k = j - prev.len();
                                    assert(acc@[mid.len() + k] == acc@[start.len() + j]);
                                }
                            }
                        }
                    },
                }
            },
            SyntaxElement::Token(_) => {
                assert(next =~= prev + Seq::<SyntaxNode>::empty());
            },
        }
        i += 1;
    }
    assert(node.children@.subrange(0, node.children@.len() as int) =~= node.children@);
}

impl<'a> VarDecl<'a> {
    pub fn keyword(&self) -> (r: Option<DeclKeyword>)
        ensures
            r == first_keyword(child_tokens(*self.0), 0),
    {
        let ts = self.0.significant_tokens();
        let mut i: usize = 0;
        while i < ts.len()
            invariant
                i <= ts@.len(),
                deref_tokens(ts@) == child_tokens(*self.0),
                first_keyword(child_tokens(*self.0), 0) == first_keyword(child_tokens(*self.0), i as int),
            decreases ts@.len() - i,
        {
            assert(deref_tokens(ts@)[i as int] == *ts@[i as int]);
            match ts[i].kind {
                TokenKind::MyKw => return Some(DeclKeyword::My),
                TokenKind::OurKw => return Some(DeclKeyword::Our),
                TokenKind::StateKw => return Some(DeclKeyword::State),
                TokenKind::LocalKw => return Some(DeclKeyword::Local),
                _ => {},
            }
            i += 1;
        }
        None
    }

    /// The variables being declared, `my ($a, %b)` included.
    pub fn targets(&self) -> (r: Vec<Variable<'a>>)
        ensures
            match child_of(*self.0, NodeKind::DeclTarget) {
                Some(t) => r@.len() == variables_under(t) .len() && forall|i: int| 0 <= i < r@.len()
                    ==> *(#[trigger] r@[i]).syntax() == variables_under(t)[i],
                None => r@.len() == 0,
            },
            forall|i: int| 0 <= i < r@.len() ==> (#[trigger] r@[i]).spec_sigil() == sigil_of_kind(r@[i].syntax().kind),
    {
        let mut acc: Vec<Variable<'a>> = Vec::new();
        match self.0.first_child(NodeKind::DeclTarget) {
            Some(target) => {
                collect_variables(target, &mut acc);
                assert forall|i: int| 0 <= i < acc@.len() implies *(#[trigger] acc@[i]).syntax() == variables_under(*target)[i] by {
                    assert(acc@[0 + i] == acc@[i]);
                }
            },
            None => {},
        }
        acc
    }
}

/// A variable of any sigil, as one view: the checker asks "which name, which
/// sigil" far more often than "which of the node kinds".
#[derive(Debug, Clone, Copy)]
pub enum Variable<'a> {
    Scalar(ScalarVar<'a>),
    Array(ArrayVar<'a>),
    Hash(HashVar<'a>),
    Code(CodeVar<'a>),
    Typeglob(TypeglobVar<'a>),
    /// `$#array`.
    LastIndex(ArrayLastIndex<'a>),
}

pub open spec fn sigil_of_kind(k: NodeKind) -> Sigil {
    if k == NodeKind::ScalarVar {
        Sigil::Scalar
    } else if k == NodeKind::ArrayVar || k == NodeKind::ArrayLastIndex {
        Sigil::Array
    } else if k == NodeKind::HashVar {
        Sigil::Hash
    } else if k == NodeKind::CodeVar {
        Sigil::Code
    } else {
        Sigil::Typeglob
    }
}

/// Whether a token is part of a variable's name.
pub open spec fn names_part(t: SyntaxToken) -> bool {
    t.kind == TokenKind::Ident || t.kind == TokenKind::DoubleColon || t.kind == TokenKind::Number
        || spec_is_keyword(t.kind)
}

/// The name a variable's tokens spell.
pub open spec fn name_of(ts: Seq<SyntaxToken>) -> Seq<char>
    decreases ts.len(),
{
    if ts.len() == 0 {
        Seq::empty()
    } else if names_part(ts.last()) {
        name_of(ts.drop_last()) + ts.last().text@
    } else {
        name_of(ts.drop_last())
    }
}

impl<'a> Variable<'a> {
    pub fn cast(node: &'a SyntaxNode) -> (r: Option<Variable<'a>>)
        ensures
            r.is_some() == is_variable_kind(node.kind),
            r matches Some(v) ==> *v.syntax() == *node && v.spec_sigil() == sigil_of_kind(node.kind),
    {
        match node.kind {
            NodeKind::ScalarVar => Some(Variable::Scalar(ScalarVar(node))),
            NodeKind::ArrayVar => Some(Variable::Array(ArrayVar(node))),
            NodeKind::HashVar => Some(Variable::Hash(HashVar(node))),
            NodeKind::CodeVar => Some(Variable::Code(CodeVar(node))),
            NodeKind::TypeglobVar => Some(Variable::Typeglob(TypeglobVar(node))),
            NodeKind::ArrayLastIndex => Some(Variable::LastIndex(ArrayLastIndex(node))),
            _ => None,
        }
    }

    pub open spec fn spec_syntax(&self) -> &'a SyntaxNode {
        match self {
            Variable::Scalar(v) => v.0,
            Variable::Array(v) => v.0,
            Variable::Hash(v) => v.0,
            Variable::Code(v) => v.0,
            Variable::Typeglob(v) => v.0,
            Variable::LastIndex(v) => v.0,
        }
    }

    #[verifier::when_used_as_spec(spec_syntax)]
    pub fn syntax(&self) -> (r: &'a SyntaxNode)
        ensures
            r == self.spec_syntax(),
    {
        match self {
            Variable::Scalar(v) => v.0,
            Variable::Array(v) => v.0,
            Variable::Hash(v) => v.0,
            Variable::Code(v) => v.0,
            Variable::Typeglob(v) => v.0,
            Variable::LastIndex(v) => v.0,
        }
    }

    pub open spec fn spec_sigil(&self) -> Sigil {
        match self {
            Variable::Scalar(_) => Sigil::Scalar,
            Variable::Array(_) | Variable::LastIndex(_) => Sigil::Array,
            Variable::Hash(_) => Sigil::Hash,
            Variable::Code(_) => Sigil::Code,
            Variable::Typeglob(_) => Sigil::Typeglob,
        }
    }

    /// The sigil; `$#a` names the array, so it is an array use.
    #[verifier::when_used_as_spec(spec_sigil)]
    pub fn sigil(&self) -> (r: Sigil)
        ensures
            r == self.spec_sigil(),
    {
        match self {
            Variable::Scalar(_) => Sigil::Scalar,
            Variable::Array(_) | Variable::LastIndex(_) => Sigil::Array,
            Variable::Hash(_) => Sigil::Hash,
            Variable::Code(_) => Sigil::Code,
            Variable::Typeglob(_) => Sigil::Typeglob,
        }
    }

    /// The name without its sigil, or `None` when the "name" is an
    /// expression — `${ $ref }` — which is a dereference, not a use.
    pub fn name(&self) -> (r: Option<String>)
        ensures
            ({
                let n = name_of(child_tokens(*self.syntax()));
                match r {
                    Some(s) => n.len() > 0 && s@ == n,
                    None => n.len() == 0,
                }
            }),
    {
        let ts = self.syntax().significant_tokens();
        let ghost all = child_tokens(*self.syntax());
        let mut name = String::new();
        let mut i: usize = 0;
        while i < ts.len()
            invariant
                i <= ts@.len(),
                deref_tokens(ts@) == all,
                name@ == name_of(all.subrange(0, i as int)),
            decreases ts@.len() - i,
        {
            let t = ts[i];
            proof {
                assert(deref_tokens(ts@)[i as int] == *t);
                assert(all.subrange(0, i + 1).drop_last() =~= all.subrange(0, i as int));
                assert(all.subrange(0, i + 1).last() == *t);
            }
            let part = match t.kind {
                TokenKind::Ident | TokenKind::DoubleColon | TokenKind::Number => true,
                kind => kind.is_keyword(),
            };
            if part {
                append(&mut name, t.text.as_str());
            }
            i += 1;
        }
        assert(all.subrange(0, ts@.len() as int) =~= all);
        if name.unicode_len() == 0 {
            None
        } else {
            Some(name)
        }
    }

    /// `$x` with the sigil, for a message.
    pub fn display(&self) -> (r: String)
        ensures
            r@ == spec_sigil_text(self.sigil()) + name_of(child_tokens(*self.syntax())),
    {
        let mut out = String::new();
        append(&mut out, self.sigil().as_str());
        match self.name() {
            Some(name) => append(&mut out, name.as_str()),
            None => {
                assert(out@ + Seq::<char>::empty() =~= out@);
            },
        }
        out
    }

    pub fn range(&self) -> (r: TextRange)
        ensures
            r == self.syntax().range,
    {
        self.syntax().range
    }
}

// ===== Argument lists =====

/// A `LIST_EXPR`, or a `PAREN_EXPR` around one.
pub open spec fn spec_is_list(n: SyntaxNode) -> bool {
    n.kind == NodeKind::ListExpr || n.kind == NodeKind::ParenExpr
}

/// Where the first list among `ns` at or after `i` stands.
pub open spec fn first_list(ns: Seq<SyntaxNode>, i: int) -> Option<int>
    decreases ns.len() - i,
{
    if i < 0 || i >= ns.len() {
        None
    } else if spec_is_list(ns[i]) {
        Some(i)
    } else {
        first_list(ns, i + 1)
    }
}

/// The first list among a node's children.
pub open spec fn list_child(n: SyntaxNode) -> Option<SyntaxNode> {
    found(child_nodes(n), first_list(child_nodes(n), 0))
}

fn first_list_child<'a>(node: &'a SyntaxNode) -> (r: Option<&'a SyntaxNode>)
    ensures
        match r {
            Some(n) => list_child(*node) == Some(*n),
            None => list_child(*node) is None,
        },
{
    let nodes = node.child_nodes();
    let mut i: usize = 0;
    while i < nodes.len()
        invariant
            i <= nodes@.len(),
            deref_nodes(nodes@) == child_nodes(*node),
            first_list(child_nodes(*node), 0) == first_list(child_nodes(*node), i as int),
        decreases nodes@.len() - i,
    {
        assert(deref_nodes(nodes@)[i as int] == *nodes@[i as int]);
        if Args::is_list(nodes[i]) {
            return Some(nodes[i]);
        }
        i += 1;
    }
    None
}

pub proof fn lemma_child_smaller(n: SyntaxNode, j: int)
    requires
        0 <= j < child_nodes(n).len(),
    ensures
        decreases_to!(n => child_nodes(n)[j]),
{
    lemma_nodes_of_in(n.children@, j);
    let k = choose|k: int| 0 <= k < n.children@.len() && n.children@[k] == SyntaxElement::Node(nodes_of(n.children@)[j]);
    assert(decreases_to!(n => n.children));
    assert(decreases_to!(n.children => n.children@));
    assert(decreases_to!(n.children@ => n.children@[k]));
    match n.children@[k] {
        SyntaxElement::Node(m) => {
            assert(decreases_to!(n.children@[k] => m));
        },
        SyntaxElement::Token(_) => {},
    }
}

pub proof fn lemma_nodes_of_in(es: Seq<SyntaxElement>, j: int)
    requires
        0 <= j < nodes_of(es).len(),
    ensures
        exists|k: int| 0 <= k < es.len() && es[k] == SyntaxElement::Node(nodes_of(es)[j]),
    decreases es.len(),
{
    if es.len() > 0 {
        match es.last() {
            SyntaxElement::Node(m) => {
                if j < nodes_of(es.drop_last()).len() {
                    lemma_nodes_of_in(es.drop_last(), j);
                    let k = choose|k: int| 0 <= k < es.drop_last().len() && es.drop_last()[k] == SyntaxElement::Node(nodes_of(es.drop_last())[j]);
                    assert(es[k] == es.drop_last()[k]);
                } else {
                    assert(es[es.len() - 1] == es.last());
                }
            },
            SyntaxElement::Token(_) => {
                lemma_nodes_of_in(es.drop_last(), j);
                let k = choose|k: int| 0 <= k < es.drop_last().len() && es.drop_last()[k] == SyntaxElement::Node(nodes_of(es.drop_last())[j]);
                assert(es[k] == es.drop_last()[k]);
            },
        }
    }
}

/// The elements of a comma series, parentheses and single elements alike: a
/// list holding one parenthesised list is that list.
pub open spec fn spec_elements(n: SyntaxNode) -> Seq<SyntaxNode>
    decreases n,
{
    let cs = child_nodes(n);
    if n.kind == NodeKind::ParenExpr {
        if cs.len() > 0 {
            proof {
                lemma_child_smaller(n, 0);
            }
            spec_elements(cs[0])
        } else {
            Seq::empty()
        }
    } else if n.kind == NodeKind::ListExpr {
        if cs.len() == 1 && cs[0].kind == NodeKind::ParenExpr {
            proof {
                lemma_child_smaller(n, 0);
            }
            spec_elements(cs[0])
        } else {
            cs
        }
    } else {
        seq![n]
    }
}

/// One argument, as a value: a `key => value` pair, or a value on its own.
pub enum ArgV {
    Pair { key: SyntaxNode, key_text: Option<Seq<char>>, value: SyntaxNode },
    Positional(SyntaxNode),
}

/// Where reading a comma series has got to: the arguments so far, a value
/// waiting to see whether a `=>` follows it, and whether one just did.
pub struct PairScan {
    pub acc: Seq<ArgV>,
    pub pending: Option<SyntaxNode>,
    pub fat: bool,
}

/// One element of the series read into the scan.
pub open spec fn pair_step(st: PairScan, e: SyntaxElement) -> PairScan {
    match e {
        SyntaxElement::Token(t) => if t.kind == TokenKind::FatComma {
            PairScan { fat: true, ..st }
        } else if t.kind == TokenKind::Comma {
            PairScan {
                acc: match st.pending {
                    Some(p) => st.acc.push(ArgV::Positional(p)),
                    None => st.acc,
                },
                pending: None,
                fat: false,
            }
        } else {
            st
        },
        SyntaxElement::Node(n) => if st.fat {
            let key = match st.pending {
                Some(p) => p,
                None => n,
            };
            PairScan {
                acc: st.acc.push(ArgV::Pair { key, key_text: spec_key_text(key), value: n }),
                pending: None,
                fat: false,
            }
        } else {
            PairScan {
                acc: match st.pending {
                    Some(p) => st.acc.push(ArgV::Positional(p)),
                    None => st.acc,
                },
                pending: Some(n),
                fat: false,
            }
        },
    }
}

pub open spec fn pair_scan(es: Seq<SyntaxElement>) -> PairScan
    decreases es.len(),
{
    if es.len() == 0 {
        PairScan { acc: Seq::empty(), pending: None, fat: false }
    } else {
        pair_step(pair_scan(es.drop_last()), es.last())
    }
}

/// The arguments the scan of a whole series ends with.
pub open spec fn scanned_pairs(es: Seq<SyntaxElement>) -> Seq<ArgV> {
    let st = pair_scan(es);
    match st.pending {
        Some(p) => st.acc.push(ArgV::Positional(p)),
        None => st.acc,
    }
}

/// A comma series read as pairs, `=>` joining a key to its value.
pub open spec fn spec_pairs(n: SyntaxNode) -> Seq<ArgV>
    decreases n,
{
    let cs = child_nodes(n);
    if n.kind == NodeKind::ParenExpr {
        if cs.len() > 0 {
            proof {
                lemma_child_smaller(n, 0);
            }
            spec_pairs(cs[0])
        } else {
            Seq::empty()
        }
    } else if n.kind == NodeKind::ListExpr {
        if cs.len() == 1 && cs[0].kind == NodeKind::ParenExpr {
            proof {
                lemma_child_smaller(n, 0);
            }
            spec_pairs(cs[0])
        } else {
            scanned_pairs(n.children@)
        }
    } else {
        seq![ArgV::Positional(n)]
    }
}

/// One argument: a `key => value` pair, or a value on its own.
#[derive(Debug)]
pub enum Arg<'a> {
    Pair {
        key: &'a SyntaxNode,
        /// The key read as a name, when it is a bareword or a plain string.
        key_text: Option<String>,
        value: &'a SyntaxNode,
    },
    Positional(&'a SyntaxNode),
}

pub open spec fn arg_view<'a>(a: Arg<'a>) -> ArgV {
    match a {
        Arg::Pair { key, key_text, value } => ArgV::Pair {
            key: *key,
            key_text: match key_text {
                Some(t) => Some(t@),
                None => None,
            },
            value: *value,
        },
        Arg::Positional(n) => ArgV::Positional(*n),
    }
}

pub open spec fn arg_views<'a>(args: Seq<Arg<'a>>) -> Seq<ArgV> {
    args.map_values(|a: Arg<'a>| arg_view(a))
}

impl<'a> Arg<'a> {
    /// The value.
    pub fn node(&self) -> (r: &'a SyntaxNode)
        ensures
            *r == (match arg_view(*self) {
                ArgV::Pair { value, .. } => value,
                ArgV::Positional(n) => n,
            }),
    {
        match self {
            Arg::Pair { value, .. } => value,
            Arg::Positional(value) => value,
        }
    }

    /// The key read as a name, for a pair whose key is one.
    pub fn key(&self) -> (r: Option<&str>)
        ensures
            match arg_view(*self) {
                ArgV::Pair { key_text: Some(t), .. } => r is Some && r->Some_0@ == t,
                _ => r is None,
            },
    {
        match self {
            Arg::Pair { key_text: Some(t), .. } => Some(t.as_str()),
            _ => None,
        }
    }

    /// Where the argument is: a pair from its key to its value.
    pub fn range(&self) -> (r: TextRange)
        ensures
            r == (match arg_view(*self) {
                ArgV::Pair { key, value, .. } => key.range.cover_spec(value.range),
                ArgV::Positional(n) => n.range,
            }),
    {
        match self {
            Arg::Pair { key, value, .. } => key.range.cover(value.range),
            Arg::Positional(value) => value.range,
        }
    }
}

/// Reading a comma series, which is always a `LIST_EXPR`.
pub struct Args;

impl Args {
    /// A `LIST_EXPR`, or a `PAREN_EXPR` around one — `has x => (is => 'ro')`
    /// puts the options behind parentheses and means the same list.
    pub fn is_list(node: &SyntaxNode) -> (r: bool)
        ensures
            r == spec_is_list(*node),
    {
        node.kind == NodeKind::ListExpr || node.kind == NodeKind::ParenExpr
    }

    /// The elements of a comma series, parentheses and single elements alike.
    pub fn elements<'a>(node: &'a SyntaxNode) -> (r: Vec<&'a SyntaxNode>)
        ensures
            deref_nodes(r@) == spec_elements(*node),
        decreases node,
    {
        let cs = node.child_nodes();
        proof {
            assert(deref_nodes(cs@).len() == cs@.len());
        }
        if node.kind == NodeKind::ParenExpr {
            if cs.len() > 0 {
                proof {
                    assert(deref_nodes(cs@)[0] == *cs@[0]);
                    lemma_child_smaller(*node, 0);
                }
                return Args::elements(cs[0]);
            }
            let out: Vec<&'a SyntaxNode> = Vec::new();
            assert(deref_nodes(out@) =~= Seq::<SyntaxNode>::empty());
            return out;
        }
        if node.kind == NodeKind::ListExpr {
            if cs.len() == 1 && cs[0].kind == NodeKind::ParenExpr {
                proof {
                    assert(deref_nodes(cs@)[0] == *cs@[0]);
                    lemma_child_smaller(*node, 0);
                }
                return Args::elements(cs[0]);
            }
            proof {
                if cs@.len() == 1 {
                    assert(deref_nodes(cs@)[0] == *cs@[0]);
                }
            }
            return cs;
        }
        let mut out: Vec<&'a SyntaxNode> = Vec::new();
        out.push(node);
        assert(deref_nodes(out@) =~= seq![*node]);
        out
    }

    /// The same series, with `=>` pairs joined up: a fat comma is a token of
    /// the `LIST_EXPR`, so the pairing is read off the separators rather than
    /// guessed from the shape of the elements.
    pub fn pairs<'a>(node: &'a SyntaxNode) -> (r: Vec<Arg<'a>>)
        ensures
            arg_views(r@) == spec_pairs(*node),
        decreases node,
    {
        let cs = node.child_nodes();
        proof {
            assert(deref_nodes(cs@).len() == cs@.len());
        }
        if node.kind == NodeKind::ParenExpr {
            if cs.len() > 0 {
                proof {
                    assert(deref_nodes(cs@)[0] == *cs@[0]);
                    lemma_child_smaller(*node, 0);
                }
                return Args::pairs(cs[0]);
            }
            let out: Vec<Arg<'a>> = Vec::new();
            assert(arg_views(out@) =~= Seq::<ArgV>::empty());
            return out;
        }
        if node.kind != NodeKind::ListExpr {
            let mut out: Vec<Arg<'a>> = Vec::new();
            out.push(Arg::Positional(node));
            assert(arg_views(out@) =~= seq![ArgV::Positional(*node)]);
            return out;
        }
        if cs.len() == 1 && cs[0].kind == NodeKind::ParenExpr {
            proof {
                assert(deref_nodes(cs@)[0] == *cs@[0]);
                lemma_child_smaller(*node, 0);
            }
            return Args::pairs(cs[0]);
        }
        proof {
            if cs@.len() == 1 {
                assert(deref_nodes(cs@)[0] == *cs@[0]);
            }
        }
        let mut acc: Vec<Arg<'a>> = Vec::new();
        let mut pending: Option<&'a SyntaxNode> = None;
        let mut fat = false;
        let mut i: usize = 0;
        while i < node.children.len()
            invariant
                i <= node.children@.len(),
                ({
                    let st = pair_scan(node.children@.subrange(0, i as int));
                    &&& arg_views(acc@) == st.acc
                    &&& fat == st.fat
                    &&& match pending {
                        Some(p) => st.pending == Some(*p),
                        None => st.pending is None,
                    }
                }),
            decreases node.children@.len() - i,
        {
            proof {
                assert(node.children@.subrange(0, i + 1).drop_last() =~= node.children@.subrange(0, i as int));
                assert(node.children@.subrange(0, i + 1).last() == node.children@[i as int]);
            }
            let ghost before = arg_views(acc@);
            match &node.children[i] {
                SyntaxElement::Token(t) => {
                    if t.kind == TokenKind::FatComma {
                        fat = true;
                    } else if t.kind == TokenKind::Comma {
                        match pending {
                            Some(p) => {
                                acc.push(Arg::Positional(p));
                                assert(arg_views(acc@) =~= before.push(ArgV::Positional(*p)));
                            },
                            None => {},
                        }
                        pending = None;
                        fat = false;
                    }
                },
                SyntaxElement::Node(n) => {
                    if fat {
                        let key: &'a SyntaxNode = match pending {
                            Some(p) => p,
                            None => n,
                        };
                        let text = key_text(key);
                        acc.push(Arg::Pair { key, key_text: text, value: n });
                        assert(arg_views(acc@) =~= before.push(ArgV::Pair { key: *key, key_text: spec_key_text(*key), value: *n }));
                        pending = None;
                        fat = false;
                    } else {
                        match pending {
                            Some(p) => {
                                acc.push(Arg::Positional(p));
                                assert(arg_views(acc@) =~= before.push(ArgV::Positional(*p)));
                            },
                            None => {},
                        }
                        pending = Some(n);
                    }
                },
            }
            i += 1;
        }
        assert(node.children@.subrange(0, node.children@.len() as int) =~= node.children@);
        let ghost before = arg_views(acc@);
        match pending {
            Some(p) => {
                acc.push(Arg::Positional(p));
                assert(arg_views(acc@) =~= before.push(ArgV::Positional(*p)));
            },
            None => {},
        }
        acc
    }
}

/// What a `+` disambiguator wraps, and the node itself where there is none:
/// the `+` says nothing about the value.
pub open spec fn spec_without_plus(n: SyntaxNode) -> SyntaxNode {
    if n.kind == NodeKind::PrefixExpr && child_tokens(n).len() > 0 && child_tokens(n)[0].kind == TokenKind::Plus
        && child_nodes(n).len() > 0 {
        child_nodes(n)[0]
    } else {
        n
    }
}

pub fn without_plus(node: &SyntaxNode) -> (r: &SyntaxNode)
    ensures
        *r == spec_without_plus(*node),
{
    if node.kind != NodeKind::PrefixExpr {
        return node;
    }
    let ts = node.significant_tokens();
    if ts.len() == 0 || ts[0].kind != TokenKind::Plus {
        proof {
            if ts@.len() > 0 {
                assert(deref_tokens(ts@)[0] == *ts@[0]);
            }
        }
        return node;
    }
    assert(deref_tokens(ts@)[0] == *ts@[0]);
    match node.first_node() {
        Some(inner) => inner,
        None => node,
    }
}

// ===== Literals and keys =====

/// `s` with every `a b`, read left to right without overlap, made `c`.
pub open spec fn replace_pair(s: Seq<char>, a: char, b: char, c: char) -> Seq<char>
    decreases s.len(),
{
    if s.len() < 2 {
        s
    } else if s[0] == a && s[1] == b {
        seq![c] + replace_pair(s.subrange(2, s.len() as int), a, b, c)
    } else {
        seq![s[0]] + replace_pair(s.subrange(1, s.len() as int), a, b, c)
    }
}

fn replaced_pair(s: &Vec<char>, from: usize, a: char, b: char, c: char) -> (out: Vec<char>)
    requires
        from <= s@.len(),
    ensures
        out@ == replace_pair(s@.subrange(from as int, s@.len() as int), a, b, c),
    decreases s@.len() - from,
{
    let n = s.len();
    if n - from < 2 {
        let mut out: Vec<char> = Vec::new();
        let mut k = from;
        while k < n
            invariant
                from <= k <= n,
                n == s@.len(),
                out@ == s@.subrange(from as int, k as int),
            decreases n - k,
        {
            out.push(s[k]);
            k += 1;
            assert(out@ =~= s@.subrange(from as int, k as int));
        }
        return out;
    }
    let ghost t = s@.subrange(from as int, n as int);
    if s[from] == a && s[from + 1] == b {
        let rest = replaced_pair(s, from + 2, a, b, c);
        let mut out: Vec<char> = Vec::new();
        out.push(c);
        let mut k: usize = 0;
        assert(t.subrange(2, t.len() as int) =~= s@.subrange(from + 2, n as int));
        while k < rest.len()
            invariant
                k <= rest@.len(),
                out@ == seq![c] + rest@.subrange(0, k as int),
            decreases rest@.len() - k,
        {
            out.push(rest[k]);
            k += 1;
            assert(out@ =~= seq![c] + rest@.subrange(0, k as int));
        }
        assert(rest@.subrange(0, rest@.len() as int) =~= rest@);
        out
    } else {
        let rest = replaced_pair(s, from + 1, a, b, c);
        let mut out: Vec<char> = Vec::new();
        out.push(s[from]);
        let mut k: usize = 0;
        assert(t.subrange(1, t.len() as int) =~= s@.subrange(from + 1, n as int));
        while k < rest.len()
            invariant
                k <= rest@.len(),
                out@ == seq![s@[from as int]] + rest@.subrange(0, k as int),
            decreases rest@.len() - k,
        {
            out.push(rest[k]);
            k += 1;
            assert(out@ =~= seq![s@[from as int]] + rest@.subrange(0, k as int));
        }
        assert(rest@.subrange(0, rest@.len() as int) =~= rest@);
        out
    }
}

/// The first non-trivia token of a node.
pub open spec fn first_significant(n: SyntaxNode) -> Option<SyntaxToken> {
    if child_tokens(n).len() > 0 {
        Some(child_tokens(n)[0])
    } else {
        None
    }
}

/// A string literal's text with its quotes removed, when it says exactly
/// what it holds: single-quoted with its two escapes undone, or
/// double-quoted with nothing to interpolate and no escape.
pub open spec fn spec_literal_string(n: SyntaxNode) -> Option<Seq<char>> {
    match first_significant(n) {
        Some(t) => {
            let text = t.text@;
            if t.kind != TokenKind::StringLit || text.len() < 2 {
                None
            } else {
                let body = text.subrange(1, text.len() - 1);
                if text[0] == '\'' {
                    Some(replace_pair(replace_pair(body, '\\', '\'', '\''), '\\', '\\', '\\'))
                } else if text[0] == '"' {
                    if body.contains('$') || body.contains('@') || body.contains('\\') {
                        None
                    } else {
                        Some(body)
                    }
                } else {
                    None
                }
            }
        },
        None => None,
    }
}

/// The body of a `q{...}` / `qq{...}`, when it holds no interpolation.
pub open spec fn spec_quote_like(n: SyntaxNode) -> Option<Seq<char>> {
    let ts = child_tokens(n);
    match first_quoted_body(ts, 0) {
        Some(i) => if ts[i].text@.contains('$') || ts[i].text@.contains('@') {
            None
        } else {
            Some(ts[i].text@)
        },
        None => None,
    }
}

/// Where the first body of a `q{}` or `qq{}` among `ts` from `i` stands.
pub open spec fn first_quoted_body(ts: Seq<SyntaxToken>, i: int) -> Option<int>
    decreases ts.len() - i,
{
    if i < 0 || i >= ts.len() {
        None
    } else if ts[i].kind == TokenKind::LiteralString || ts[i].kind == TokenKind::InterpolatedString {
        Some(i)
    } else {
        first_quoted_body(ts, i + 1)
    }
}

/// A node read as a hash key: a bareword, or a string with nothing in it
/// that would have to be interpolated.
pub open spec fn spec_key_text(n: SyntaxNode) -> Option<Seq<char>> {
    if n.kind == NodeKind::ListCallExpr {
        match child_of(n, NodeKind::SubName) {
            Some(name) => if child_nodes(n).len() == 1 {
                Some(joined(name))
            } else {
                None
            },
            None => None,
        }
    } else if n.kind == NodeKind::SubName {
        Some(joined(n))
    } else if n.kind == NodeKind::Literal {
        spec_literal_string(n)
    } else if n.kind == NodeKind::QExpr || n.kind == NodeKind::QqExpr {
        spec_quote_like(n)
    } else {
        None
    }
}

fn holds_char(s: &Vec<char>, c: char) -> (r: bool)
    ensures
        r == s@.contains(c),
{
    let mut i: usize = 0;
    while i < s.len()
        invariant
            i <= s@.len(),
            forall|j: int| 0 <= j < i ==> s@[j] != c,
        decreases s@.len() - i,
    {
        if s[i] == c {
            assert(s@[i as int] == c);
            return true;
        }
        i += 1;
    }
    false
}

fn literal_string(node: &SyntaxNode) -> (r: Option<String>)
    ensures
        match r {
            Some(s) => spec_literal_string(*node) == Some(s@),
            None => spec_literal_string(*node) is None,
        },
{
    let ts = node.significant_tokens();
    if ts.len() == 0 {
        return None;
    }
    let t = ts[0];
    assert(deref_tokens(ts@)[0] == *t);
    let text = crate::text::chars_of(t.text.as_str());
    let n = text.len();
    if t.kind != TokenKind::StringLit || n < 2 {
        return None;
    }
    let body = crate::text::string_of(&text, 1, n - 1);
    let bc = crate::text::chars_of(body.as_str());
    if text[0] == '\'' {
        let once = replaced_pair(&bc, 0, '\\', '\'', '\'');
        let twice = replaced_pair(&once, 0, '\\', '\\', '\\');
        assert(bc@.subrange(0, bc@.len() as int) =~= bc@);
        assert(once@.subrange(0, once@.len() as int) =~= once@);
        Some(crate::text::string_of(&twice, 0, twice.len()))
    } else if text[0] == '"' {
        if holds_char(&bc, '$') || holds_char(&bc, '@') || holds_char(&bc, '\\') {
            None
        } else {
            Some(body)
        }
    } else {
        None
    }
}

fn quote_like_content(node: &SyntaxNode) -> (r: Option<String>)
    ensures
        match r {
            Some(s) => spec_quote_like(*node) == Some(s@),
            None => spec_quote_like(*node) is None,
        },
{
    let ts = node.significant_tokens();
    let ghost all = child_tokens(*node);
    let mut i: usize = 0;
    while i < ts.len()
        invariant
            i <= ts@.len(),
            deref_tokens(ts@) == all,
            all == child_tokens(*node),
            first_quoted_body(all, 0) == first_quoted_body(all, i as int),
        decreases ts@.len() - i,
    {
        assert(deref_tokens(ts@)[i as int] == *ts@[i as int]);
        let t = ts[i];
        if t.kind == TokenKind::LiteralString || t.kind == TokenKind::InterpolatedString {
            let text = crate::text::chars_of(t.text.as_str());
            if holds_char(&text, '$') || holds_char(&text, '@') {
                return None;
            }
            return Some(t.text.clone());
        }
        i += 1;
    }
    None
}

/// A node read as a hash key.
pub fn key_text(node: &SyntaxNode) -> (r: Option<String>)
    ensures
        match r {
            Some(s) => spec_key_text(*node) == Some(s@),
            None => spec_key_text(*node) is None,
        },
{
    match node.kind {
        NodeKind::ListCallExpr => {
            let name = match node.first_child(NodeKind::SubName) {
                Some(name) => name,
                None => return None,
            };
            let cs = node.child_nodes();
            assert(deref_nodes(cs@).len() == cs@.len());
            if cs.len() == 1 {
                Some(name.joined_text())
            } else {
                None
            }
        },
        NodeKind::SubName => Some(node.joined_text()),
        NodeKind::Literal => literal_string(node),
        NodeKind::QExpr | NodeKind::QqExpr => quote_like_content(node),
        _ => None,
    }
}

impl<'a> Literal<'a> {
    /// The one token a literal is.
    pub fn token(&self) -> (r: Option<&'a SyntaxToken>)
        ensures
            match r {
                Some(t) => first_significant(*self.0) == Some(*t),
                None => first_significant(*self.0) is None,
            },
    {
        let ts = self.0.significant_tokens();
        if ts.len() == 0 {
            None
        } else {
            assert(deref_tokens(ts@)[0] == *ts@[0]);
            Some(ts[0])
        }
    }

    pub fn is_number(&self) -> (r: bool)
        ensures
            r == (first_significant(*self.0) matches Some(t) && t.kind == TokenKind::Number),
    {
        match self.token() {
            Some(t) => t.kind == TokenKind::Number,
            None => false,
        }
    }

    /// The literal's text with its quotes removed, when it is a string that
    /// says exactly what it holds.
    pub fn as_string(&self) -> (r: Option<String>)
        ensures
            match r {
                Some(s) => spec_literal_string(*self.0) == Some(s@),
                None => spec_literal_string(*self.0) is None,
            },
    {
        literal_string(self.0)
    }

    /// The number's text, for `42` against an `Int` slot.
    pub fn as_number(&self) -> (r: Option<String>)
        ensures
            match r {
                Some(s) => first_significant(*self.0) matches Some(t) && t.kind == TokenKind::Number && s@ == t.text@,
                None => !(first_significant(*self.0) matches Some(t) && t.kind == TokenKind::Number),
            },
    {
        match self.token() {
            Some(t) => if t.kind == TokenKind::Number {
                Some(t.text.clone())
            } else {
                None
            },
            None => None,
        }
    }
}

/// The words of `s` from `i`, split on whitespace the way perl splits a
/// `qw`.
pub open spec fn words_from(s: Seq<char>, i: int) -> Seq<Seq<char>>
    decreases s.len() - i,
{
    if i < 0 || i > s.len() {
        Seq::empty()
    } else {
        let a = crate::text::skip_white(s, i);
        proof {
            crate::text::lemma_skip_white(s, i);
        }
        if a >= s.len() {
            Seq::empty()
        } else {
            let e = word_end(s, a);
            proof {
                lemma_word_end(s, a);
            }
            if e <= a {
                Seq::empty()
            } else {
                seq![s.subrange(a, e)] + words_from(s, e)
            }
        }
    }
}

/// Where the run of non-whitespace that starts at `i` ends.
pub open spec fn word_end(s: Seq<char>, i: int) -> int
    decreases s.len() - i,
{
    if i < 0 || i >= s.len() || crate::text::is_white_space(s[i]) {
        i
    } else {
        word_end(s, i + 1)
    }
}

pub proof fn lemma_word_end(s: Seq<char>, i: int)
    requires
        0 <= i <= s.len(),
    ensures
        i <= word_end(s, i) <= s.len(),
    decreases s.len() - i,
{
    if i < s.len() && !crate::text::is_white_space(s[i]) {
        lemma_word_end(s, i + 1);
    }
}

impl<'a> QwExpr<'a> {
    /// The words, split the way perl splits them.
    pub fn words(&self) -> (r: Vec<String>)
        ensures
            match first_token_of_kind(child_tokens(*self.0), TokenKind::QwString, 0) {
                Some(i) => crate::types::strings_view(r@) == words_from(child_tokens(*self.0)[i].text@, 0),
                None => r@.len() == 0,
            },
    {
        let t = match self.0.first_token(TokenKind::QwString) {
            Some(t) => t,
            None => return Vec::new(),
        };
        let c = crate::text::chars_of(t.text.as_str());
        let n = c.len();
        let mut out: Vec<String> = Vec::new();
        let mut i: usize = 0;
        while i < n
            invariant
                i <= n,
                n == c@.len(),
                words_from(c@, 0) == crate::types::strings_view(out@) + words_from(c@, i as int),
            decreases n - i,
        {
            let mut a = i;
            proof {
                crate::text::lemma_skip_white(c@, i as int);
            }
            while a < n && crate::text::is_whitespace(c[a])
                invariant
                    i <= a <= n,
                    n == c@.len(),
                    crate::text::skip_white(c@, i as int) == crate::text::skip_white(c@, a as int),
                decreases n - a,
            {
                a += 1;
            }
            if a >= n {
                assert(words_from(c@, i as int) == Seq::<Seq<char>>::empty());
                assert(crate::types::strings_view(out@) + Seq::<Seq<char>>::empty() =~= crate::types::strings_view(out@));
                i = n;
                assert(words_from(c@, n as int) == Seq::<Seq<char>>::empty());
            } else {
                let mut e = a;
                proof {
                    lemma_word_end(c@, a as int);
                }
                while e < n && !crate::text::is_whitespace(c[e])
                    invariant
                        a <= e <= n,
                        n == c@.len(),
                        word_end(c@, a as int) == word_end(c@, e as int),
                    decreases n - e,
                {
                    e += 1;
                }
                let word = crate::text::string_of(&c, a, e);
                let ghost before = crate::types::strings_view(out@);
                out.push(word);
                proof {
                    assert(crate::types::strings_view(out@) =~= before.push(c@.subrange(a as int, e as int)));
                    assert(before + (seq![c@.subrange(a as int, e as int)] + words_from(c@, e as int)) =~= before.push(c@.subrange(a as int, e as int)) + words_from(c@, e as int));
                }
                i = e;
            }
        }
        assert(words_from(c@, i as int) == Seq::<Seq<char>>::empty());
        assert(crate::types::strings_view(out@) + Seq::<Seq<char>>::empty() =~= crate::types::strings_view(out@));
        out
    }
}

impl<'a> AnonHash<'a> {
    /// The `{ k => v }` contents as pairs.
    pub fn pairs(&self) -> (r: Vec<Arg<'a>>)
        ensures
            match list_child(*self.0) {
                Some(l) => arg_views(r@) == spec_pairs(l),
                None => r@.len() == 0,
            },
    {
        match first_list_child(self.0) {
            Some(list) => Args::pairs(list),
            None => Vec::new(),
        }
    }
}

impl<'a> AnonArray<'a> {
    pub fn elements(&self) -> (r: Vec<&'a SyntaxNode>)
        ensures
            match list_child(*self.0) {
                Some(l) => deref_nodes(r@) == spec_elements(l),
                None => r@.len() == 0,
            },
    {
        match first_list_child(self.0) {
            Some(list) => Args::elements(list),
            None => Vec::new(),
        }
    }
}

impl<'a> AnonSubExpr<'a> {
    pub fn body(&self) -> (r: Option<Block<'a>>)
        ensures
            match r {
                Some(n) => child_of(*self.0, NodeKind::Block) == Some(*n.0),
                None => child_of(*self.0, NodeKind::Block) is None,
            },
    {
        match self.0.first_child(NodeKind::Block) {
            Some(n) => Some(Block(n)),
            None => None,
        }
    }

    pub fn signature(&self) -> (r: Option<SubSignature<'a>>)
        ensures
            match r {
                Some(n) => child_of(*self.0, NodeKind::SubSignature) == Some(*n.0),
                None => child_of(*self.0, NodeKind::SubSignature) is None,
            },
    {
        match self.0.first_child(NodeKind::SubSignature) {
            Some(n) => Some(SubSignature(n)),
            None => None,
        }
    }
}

/// The kind of the first assignment operator among `ts` from `i`.
pub open spec fn first_assignment(ts: Seq<SyntaxToken>, i: int) -> Option<TokenKind>
    decreases ts.len() - i,
{
    if i < 0 || i >= ts.len() {
        None
    } else if spec_is_assignment(ts[i].kind) {
        Some(ts[i].kind)
    } else {
        first_assignment(ts, i + 1)
    }
}

/// The kind of the first punctuation or keyword among `ts` from `i`.
pub open spec fn first_operator(ts: Seq<SyntaxToken>, i: int) -> Option<TokenKind>
    decreases ts.len() - i,
{
    if i < 0 || i >= ts.len() {
        None
    } else if spec_is_punct(ts[i].kind) || spec_is_keyword(ts[i].kind) {
        Some(ts[i].kind)
    } else {
        first_operator(ts, i + 1)
    }
}

impl<'a> AssignExpr<'a> {
    /// The left-hand side.
    pub fn target(&self) -> (r: Option<&'a SyntaxNode>)
        ensures
            match r {
                Some(n) => child_nodes(*self.0).len() > 0 && child_nodes(*self.0)[0] == *n,
                None => child_nodes(*self.0).len() == 0,
            },
    {
        self.0.first_node()
    }

    /// The right-hand side, or `None` for `my $x;`.
    pub fn value(&self) -> (r: Option<&'a SyntaxNode>)
        ensures
            match r {
                Some(n) => child_nodes(*self.0).len() > 1 && child_nodes(*self.0)[1] == *n,
                None => child_nodes(*self.0).len() <= 1,
            },
    {
        self.0.second_node()
    }

    /// The operator: `=`, `//=`, `||=` … compound assignment is one token.
    pub fn operator(&self) -> (r: Option<TokenKind>)
        ensures
            r == first_assignment(child_tokens(*self.0), 0),
    {
        let ts = self.0.significant_tokens();
        let ghost all = child_tokens(*self.0);
        let mut i: usize = 0;
        while i < ts.len()
            invariant
                i <= ts@.len(),
                deref_tokens(ts@) == all,
                all == child_tokens(*self.0),
                first_assignment(all, 0) == first_assignment(all, i as int),
            decreases ts@.len() - i,
        {
            assert(deref_tokens(ts@)[i as int] == *ts@[i as int]);
            if ts[i].kind.is_assignment() {
                return Some(ts[i].kind);
            }
            i += 1;
        }
        None
    }

    /// Whether the assignment is a plain `=`, the only one that replaces the
    /// target's type rather than combining with it.
    pub fn is_plain(&self) -> (r: bool)
        ensures
            r == (first_assignment(child_tokens(*self.0), 0) == Some(TokenKind::Assign)),
    {
        match self.operator() {
            Some(TokenKind::Assign) => true,
            _ => false,
        }
    }
}

impl<'a> BinaryExpr<'a> {
    pub fn operator(&self) -> (r: Option<TokenKind>)
        ensures
            r == first_operator(child_tokens(*self.0), 0),
    {
        let ts = self.0.significant_tokens();
        let ghost all = child_tokens(*self.0);
        let mut i: usize = 0;
        while i < ts.len()
            invariant
                i <= ts@.len(),
                deref_tokens(ts@) == all,
                all == child_tokens(*self.0),
                first_operator(all, 0) == first_operator(all, i as int),
            decreases ts@.len() - i,
        {
            assert(deref_tokens(ts@)[i as int] == *ts@[i as int]);
            if ts[i].kind.is_punct() || ts[i].kind.is_keyword() {
                return Some(ts[i].kind);
            }
            i += 1;
        }
        None
    }

    pub fn left(&self) -> (r: Option<&'a SyntaxNode>)
        ensures
            match r {
                Some(n) => child_nodes(*self.0).len() > 0 && child_nodes(*self.0)[0] == *n,
                None => child_nodes(*self.0).len() == 0,
            },
    {
        self.0.first_node()
    }

    pub fn right(&self) -> (r: Option<&'a SyntaxNode>)
        ensures
            match r {
                Some(n) => child_nodes(*self.0).len() > 1 && child_nodes(*self.0)[1] == *n,
                None => child_nodes(*self.0).len() <= 1,
            },
    {
        self.0.second_node()
    }
}

impl<'a> ParenExpr<'a> {
    pub fn inner(&self) -> (r: Option<&'a SyntaxNode>)
        ensures
            match r {
                Some(n) => child_nodes(*self.0).len() > 0 && child_nodes(*self.0)[0] == *n,
                None => child_nodes(*self.0).len() == 0,
            },
    {
        self.0.first_node()
    }
}

impl<'a> ListExpr<'a> {
    pub fn elements(&self) -> (r: Vec<&'a SyntaxNode>)
        ensures
            deref_nodes(r@) == child_nodes(*self.0),
    {
        self.0.child_nodes()
    }
}

// ===== Calls =====

/// The argument list of a call node: a list operator's own list child, and
/// the list inside the `ARG_LIST` of the other two.
pub open spec fn spec_arg_list(n: SyntaxNode) -> Option<SyntaxNode> {
    if n.kind == NodeKind::ListCallExpr {
        list_child(n)
    } else {
        match child_of(n, NodeKind::ArgList) {
            Some(a) => list_child(a),
            None => None,
        }
    }
}

fn arg_list_of<'a>(node: &'a SyntaxNode) -> (r: Option<&'a SyntaxNode>)
    ensures
        match r {
            Some(l) => spec_arg_list(*node) == Some(*l),
            None => spec_arg_list(*node) is None,
        },
{
    if node.kind == NodeKind::ListCallExpr {
        first_list_child(node)
    } else {
        match node.first_child(NodeKind::ArgList) {
            Some(a) => first_list_child(a),
            None => None,
        }
    }
}

/// The arguments of a call node, flat.
pub open spec fn spec_args(n: SyntaxNode) -> Seq<SyntaxNode> {
    match spec_arg_list(n) {
        Some(l) => spec_elements(l),
        None => Seq::empty(),
    }
}

/// The arguments of a call node, as pairs.
pub open spec fn spec_call_pairs(n: SyntaxNode) -> Seq<ArgV> {
    match spec_arg_list(n) {
        Some(l) => spec_pairs(l),
        None => Seq::empty(),
    }
}

fn args_of<'a>(node: &'a SyntaxNode) -> (r: Vec<&'a SyntaxNode>)
    ensures
        deref_nodes(r@) == spec_args(*node),
{
    match arg_list_of(node) {
        Some(l) => Args::elements(l),
        None => {
            let out: Vec<&'a SyntaxNode> = Vec::new();
            assert(deref_nodes(out@) =~= Seq::<SyntaxNode>::empty());
            out
        },
    }
}

fn pairs_of<'a>(node: &'a SyntaxNode) -> (r: Vec<Arg<'a>>)
    ensures
        arg_views(r@) == spec_call_pairs(*node),
{
    match arg_list_of(node) {
        Some(l) => Args::pairs(l),
        None => {
            let out: Vec<Arg<'a>> = Vec::new();
            assert(arg_views(out@) =~= Seq::<ArgV>::empty());
            out
        },
    }
}

/// A call to a named sub, in any of the three shapes the parser tells
/// apart: `foo(...)`, `foo ...` (every bareword too), `$code->(...)`.
#[derive(Debug, Clone, Copy)]
pub enum Call<'a> {
    Paren(CallExpr<'a>),
    List(ListCallExpr<'a>),
    Code(CodeCallExpr<'a>),
}

pub open spec fn is_call_kind(k: NodeKind) -> bool {
    k == NodeKind::CallExpr || k == NodeKind::ListCallExpr || k == NodeKind::CodeCallExpr
}

impl<'a> Call<'a> {
    pub fn cast(node: &'a SyntaxNode) -> (r: Option<Call<'a>>)
        ensures
            r.is_some() == is_call_kind(node.kind),
            r matches Some(c) ==> *c.syntax() == *node && ((c is Code) == (node.kind == NodeKind::CodeCallExpr)),
    {
        match node.kind {
            NodeKind::CallExpr => Some(Call::Paren(CallExpr(node))),
            NodeKind::ListCallExpr => Some(Call::List(ListCallExpr(node))),
            NodeKind::CodeCallExpr => Some(Call::Code(CodeCallExpr(node))),
            _ => None,
        }
    }

    pub open spec fn spec_syntax(&self) -> &'a SyntaxNode {
        match self {
            Call::Paren(v) => v.0,
            Call::List(v) => v.0,
            Call::Code(v) => v.0,
        }
    }

    #[verifier::when_used_as_spec(spec_syntax)]
    pub fn syntax(&self) -> (r: &'a SyntaxNode)
        ensures
            r == self.spec_syntax(),
    {
        match self {
            Call::Paren(v) => v.0,
            Call::List(v) => v.0,
            Call::Code(v) => v.0,
        }
    }

    /// The callee's name, or `None` for `$code->(...)`.
    pub fn callee(&self) -> (r: Option<SubName<'a>>)
        ensures
            match r {
                Some(n) => !(*self is Code) && child_of(*self.syntax(), NodeKind::SubName) == Some(*n.0),
                None => *self is Code || child_of(*self.syntax(), NodeKind::SubName) is None,
            },
    {
        match self {
            Call::Code(_) => None,
            _ => match self.syntax().first_child(NodeKind::SubName) {
                Some(n) => Some(SubName(n)),
                None => None,
            },
        }
    }

    pub fn callee_name(&self) -> (r: Option<String>)
        ensures
            match r {
                Some(s) => !(*self is Code) && name_child_text(*self.syntax()) == Some(s@),
                None => *self is Code || name_child_text(*self.syntax()) is None,
            },
    {
        match self.callee() {
            Some(name) => Some(name.text()),
            None => None,
        }
    }

    /// Where a diagnostic about the call belongs: the callee's name, not the
    /// whole call.
    pub fn callee_range(&self) -> (r: TextRange)
        ensures
            r == (match self.callee_spec() {
                Some(n) => n.range,
                None => self.syntax().range,
            }),
    {
        match self.callee() {
            Some(name) => name.0.range,
            None => self.syntax().range,
        }
    }

    pub open spec fn callee_spec(&self) -> Option<SyntaxNode> {
        if *self is Code {
            None
        } else {
            child_of(*self.syntax(), NodeKind::SubName)
        }
    }

    /// A filehandle argument is a child of its own, so it is never among the
    /// arguments.
    pub fn filehandle(&self) -> (r: Option<Filehandle<'a>>)
        ensures
            match r {
                Some(n) => child_of(*self.syntax(), NodeKind::Filehandle) == Some(*n.0),
                None => child_of(*self.syntax(), NodeKind::Filehandle) is None,
            },
    {
        match self.syntax().first_child(NodeKind::Filehandle) {
            Some(n) => Some(Filehandle(n)),
            None => None,
        }
    }

    /// The argument list, flat, with the separators still readable.
    pub fn arg_list(&self) -> (r: Option<&'a SyntaxNode>)
        ensures
            match r {
                Some(l) => spec_arg_list(*self.syntax()) == Some(*l),
                None => spec_arg_list(*self.syntax()) is None,
            },
    {
        arg_list_of(self.syntax())
    }

    /// The arguments as a flat list, fat-comma pairs left in place.
    pub fn args(&self) -> (r: Vec<&'a SyntaxNode>)
        ensures
            deref_nodes(r@) == spec_args(*self.syntax()),
    {
        args_of(self.syntax())
    }

    /// The arguments read as `key => value` pairs where the key is a
    /// bareword or a string, positional otherwise.
    pub fn pairs(&self) -> (r: Vec<Arg<'a>>)
        ensures
            arg_views(r@) == spec_call_pairs(*self.syntax()),
    {
        pairs_of(self.syntax())
    }
}

impl<'a> MethodCallExpr<'a> {
    /// What the method is called on: `$obj`, `Foo::Bar`, `$class`.
    pub fn invocant(&self) -> (r: Option<&'a SyntaxNode>)
        ensures
            match r {
                Some(n) => child_nodes(*self.0).len() > 0 && child_nodes(*self.0)[0] == *n,
                None => child_nodes(*self.0).len() == 0,
            },
    {
        self.0.first_node()
    }

    /// The method's name, or `None` when it is `$obj->$name(...)` — dynamic,
    /// and therefore opaque.
    pub fn method(&self) -> (r: Option<SubName<'a>>)
        ensures
            match r {
                Some(n) => found(child_nodes(*self.0), first_of_kind(child_nodes(*self.0), NodeKind::SubName, 1)) == Some(*n.0),
                None => first_of_kind(child_nodes(*self.0), NodeKind::SubName, 1) is None,
            },
    {
        let nodes = self.0.child_nodes();
        let ghost ns = child_nodes(*self.0);
        let mut i: usize = 1;
        if nodes.len() == 0 {
            return None;
        }
        while i < nodes.len()
            invariant
                1 <= i <= nodes@.len(),
                deref_nodes(nodes@) == ns,
                ns == child_nodes(*self.0),
                first_of_kind(ns, NodeKind::SubName, 1) == first_of_kind(ns, NodeKind::SubName, i as int),
            decreases nodes@.len() - i,
        {
            assert(deref_nodes(nodes@)[i as int] == *nodes@[i as int]);
            if nodes[i].kind == NodeKind::SubName {
                return Some(SubName(nodes[i]));
            }
            i += 1;
        }
        None
    }

    pub fn method_name(&self) -> (r: Option<String>)
        ensures
            match first_of_kind(child_nodes(*self.0), NodeKind::SubName, 1) {
                Some(i) => r is Some && r->Some_0@ == joined(child_nodes(*self.0)[i]),
                None => r is None,
            },
    {
        match self.method() {
            Some(name) => Some(name.text()),
            None => None,
        }
    }

    pub fn is_dynamic(&self) -> (r: bool)
        ensures
            r == (first_of_kind(child_nodes(*self.0), NodeKind::SubName, 1) is None),
    {
        self.method().is_none()
    }

    pub fn arg_list(&self) -> (r: Option<&'a SyntaxNode>)
        ensures
            match r {
                Some(l) => spec_arg_list(*self.0) == Some(*l),
                None => spec_arg_list(*self.0) is None,
            },
    {
        arg_list_of(self.0)
    }

    pub fn args(&self) -> (r: Vec<&'a SyntaxNode>)
        ensures
            deref_nodes(r@) == spec_args(*self.0),
    {
        args_of(self.0)
    }

    pub fn pairs(&self) -> (r: Vec<Arg<'a>>)
        ensures
            arg_views(r@) == spec_call_pairs(*self.0),
    {
        pairs_of(self.0)
    }

    /// Where a diagnostic about the call belongs.
    pub fn method_range(&self) -> (r: TextRange)
        ensures
            r == (match first_of_kind(child_nodes(*self.0), NodeKind::SubName, 1) {
                Some(i) => child_nodes(*self.0)[i].range,
                None => self.0.range,
            }),
    {
        match self.method() {
            Some(name) => name.0.range,
            None => self.0.range,
        }
    }
}

// ===== Subscript chains =====

pub open spec fn is_digit(c: char) -> bool {
    '0' <= c && c <= '9'
}

/// The number the decimal digits `s[..n]` spell.
pub open spec fn digits_value(s: Seq<char>, n: int) -> int
    decreases n,
{
    if n <= 0 {
        0
    } else {
        digits_value(s, n - 1) * 10 + ((s[n - 1] as int) - ('0' as int))
    }
}

proof fn lemma_digits_grow(s: Seq<char>, n: int, m: int)
    requires
        0 <= n <= m <= s.len(),
        forall|i: int| 0 <= i < s.len() ==> is_digit(#[trigger] s[i]),
    ensures
        0 <= digits_value(s, n) <= digits_value(s, m),
    decreases m - n,
{
    if n < m {
        lemma_digits_grow(s, n, m - 1);
        assert(digits_value(s, m) == digits_value(s, m - 1) * 10 + ((s[m - 1] as int) - ('0' as int)));
    } else {
        lemma_digits_nonneg(s, n);
    }
}

proof fn lemma_digits_nonneg(s: Seq<char>, n: int)
    requires
        0 <= n <= s.len(),
        forall|i: int| 0 <= i < s.len() ==> is_digit(#[trigger] s[i]),
    ensures
        0 <= digits_value(s, n),
    decreases n,
{
    if n > 0 {
        lemma_digits_nonneg(s, n - 1);
    }
}

/// `str::parse::<i64>`: an optional sign, then at least one decimal digit,
/// in range.
pub open spec fn all_digits(d: Seq<char>) -> bool {
    forall|i: int| 0 <= i < d.len() ==> is_digit(#[trigger] d[i])
}

/// The digits of a number's text, after its sign.
pub open spec fn digits_part(s: Seq<char>) -> Seq<char> {
    if s.len() > 0 && (s[0] == '-' || s[0] == '+') {
        s.subrange(1, s.len() as int)
    } else {
        s
    }
}

pub open spec fn spec_parse_i64(s: Seq<char>) -> Option<i64> {
    let negative = s.len() > 0 && s[0] == '-';
    let digits = digits_part(s);
    if digits.len() == 0 || !all_digits(digits) {
        None
    } else {
        let v = digits_value(digits, digits.len() as int);
        let value = if negative { -v } else { v };
        if i64::MIN <= value <= i64::MAX {
            Some(value as i64)
        } else {
            None
        }
    }
}

/// `str::parse::<i64>`, written out.
pub fn parse_i64(text: &str) -> (r: Option<i64>)
    ensures
        r == spec_parse_i64(text@),
{
    let c = crate::text::chars_of(text);
    let n = c.len();
    if n == 0 {
        return None;
    }
    let negative = c[0] == '-';
    let signed = c[0] == '-' || c[0] == '+';
    let start: usize = if signed { 1 } else { 0 };
    let ghost digits = if signed { c@.subrange(1, n as int) } else { c@ };
    assert(digits =~= c@.subrange(start as int, n as int));
    if start == n {
        return None;
    }
    let mut k = start;
    while k < n
        invariant
            start <= k <= n,
            n == c@.len(),
            c@ == text@,
            start == (if signed { 1usize } else { 0usize }),
            signed == (c@[0] == '-' || c@[0] == '+'),
            digits == (if signed { c@.subrange(1, n as int) } else { c@ }),
            digits == c@.subrange(start as int, n as int),
            forall|j: int| 0 <= j < k - start ==> is_digit(#[trigger] digits[j]),
        decreases n - k,
    {
        if !('0' <= c[k] && c[k] <= '9') {
            assert(!is_digit(digits[k - start]));
            return None;
        }
        k += 1;
    }
    // The magnitude, and whether it passed what an `i64` can hold.
    let limit: u64 = 9_223_372_036_854_775_808;
    let mut acc: u64 = 0;
    let mut over = false;
    let mut k = start;
    while k < n
        invariant
            start <= k <= n,
            n == c@.len(),
            c@ == text@,
            limit == 9_223_372_036_854_775_808u64,
            start == (if signed { 1usize } else { 0usize }),
            signed == (c@[0] == '-' || c@[0] == '+'),
            negative == (c@[0] == '-'),
            digits == (if signed { c@.subrange(1, n as int) } else { c@ }),
            digits == c@.subrange(start as int, n as int),
            forall|j: int| 0 <= j < digits.len() ==> is_digit(#[trigger] digits[j]),
            !over ==> acc == digits_value(digits, k - start) && acc <= limit,
            over ==> digits_value(digits, k - start) > limit,
        decreases n - k,
    {
        assert(is_digit(digits[k - start]));
        assert(digits[k - start] == c@[k as int]);
        let ch = c[k];
        assert('0' <= ch && ch <= '9');
        let d = (ch as u32 - '0' as u32) as u64;
        assert(d <= 9);
        if over {
            proof {
                lemma_digits_grow(digits, k - start, k - start + 1);
            }
        } else if acc > (limit - d) / 10 {
            over = true;
            proof {
                assert(digits_value(digits, k - start + 1) == acc * 10 + d);
                assert(acc * 10 + d > limit) by (nonlinear_arith)
                    requires acc > (limit - d) / 10, d <= 9, limit == 9_223_372_036_854_775_808u64;
            }
        } else {
            proof {
                assert(acc * 10 + d <= limit) by (nonlinear_arith)
                    requires acc <= (limit - d) / 10, d <= 9, limit == 9_223_372_036_854_775_808u64;
            }
            acc = acc * 10 + d;
        }
        k += 1;
    }
    if over {
        return None;
    }
    if negative {
        if acc == limit {
            Some(i64::MIN)
        } else {
            Some(-(acc as i64))
        }
    } else if acc == limit {
        None
    } else {
        Some(acc as i64)
    }
}

/// One step of a subscript chain, as a value.
pub enum StepV {
    Hash { key: Option<Seq<char>>, node: SyntaxNode },
    Array { index: Option<i64>, node: SyntaxNode },
    Deref { sigil: Sigil, node: SyntaxNode },
    Slice { node: SyntaxNode },
}

/// One step of a subscript chain.
#[derive(Debug)]
pub enum Step<'a> {
    /// `->{k}` / `{k}`; the key when it is a literal or bareword.
    Hash { key: Option<String>, node: &'a SyntaxNode },
    /// `->[0]` / `[0]`; the index when it is a literal.
    Array { index: Option<i64>, node: &'a SyntaxNode },
    /// `->@*`, `->%*`, `->$*`, and the slice forms.
    Deref { sigil: Sigil, node: &'a SyntaxNode },
    /// `@h{...}`, `@a[...]` — a slice yields a list, not one element.
    Slice { node: &'a SyntaxNode },
}

pub open spec fn step_view<'a>(s: Step<'a>) -> StepV {
    match s {
        Step::Hash { key, node } => StepV::Hash {
            key: match key {
                Some(k) => Some(k@),
                None => None,
            },
            node: *node,
        },
        Step::Array { index, node } => StepV::Array { index, node: *node },
        Step::Deref { sigil, node } => StepV::Deref { sigil, node: *node },
        Step::Slice { node } => StepV::Slice { node: *node },
    }
}

pub open spec fn step_views<'a>(s: Seq<Step<'a>>) -> Seq<StepV> {
    s.map_values(|x: Step<'a>| step_view(x))
}

impl<'a> Step<'a> {
    pub fn node(&self) -> (r: &'a SyntaxNode)
        ensures
            *r == (match step_view(*self) {
                StepV::Hash { node, .. } => node,
                StepV::Array { node, .. } => node,
                StepV::Deref { node, .. } => node,
                StepV::Slice { node } => node,
            }),
    {
        match self {
            Step::Hash { node, .. } => node,
            Step::Array { node, .. } => node,
            Step::Deref { node, .. } => node,
            Step::Slice { node } => node,
        }
    }
}

pub open spec fn is_step_kind(k: NodeKind) -> bool {
    k == NodeKind::HashSubscriptExpr || k == NodeKind::ArraySubscriptExpr || k == NodeKind::PostfixDerefExpr
        || k == NodeKind::SliceExpr || k == NodeKind::PostfixArraySliceExpr || k == NodeKind::PostfixHashSliceExpr
}

/// The sigil a postfix dereference token says.
pub open spec fn deref_sigil(k: TokenKind) -> Option<Sigil> {
    if k == TokenKind::DerefArray || k == TokenKind::DerefLastIndex {
        Some(Sigil::Array)
    } else if k == TokenKind::DerefHash {
        Some(Sigil::Hash)
    } else if k == TokenKind::DerefScalar {
        Some(Sigil::Scalar)
    } else if k == TokenKind::DerefCode {
        Some(Sigil::Code)
    } else if k == TokenKind::DerefGlob {
        Some(Sigil::Typeglob)
    } else {
        None
    }
}

/// The first dereference sigil among `ts` from `i`.
pub open spec fn first_deref(ts: Seq<SyntaxToken>, i: int) -> Option<Sigil>
    decreases ts.len() - i,
{
    if i < 0 || i >= ts.len() {
        None
    } else if deref_sigil(ts[i].kind) is Some {
        deref_sigil(ts[i].kind)
    } else {
        first_deref(ts, i + 1)
    }
}

/// What is inside the braces or brackets of a subscript node.
pub open spec fn subscript_inner(n: SyntaxNode) -> Option<SyntaxNode> {
    match child_of(n, NodeKind::Subscript) {
        Some(sub) => if child_nodes(sub).len() > 0 {
            Some(child_nodes(sub)[0])
        } else {
            None
        },
        None => None,
    }
}

/// A literal's number, when it is one.
pub open spec fn literal_number(n: SyntaxNode) -> Option<Seq<char>> {
    if n.kind == NodeKind::Literal {
        match first_significant(n) {
            Some(t) => if t.kind == TokenKind::Number {
                Some(t.text@)
            } else {
                None
            },
            None => None,
        }
    } else {
        None
    }
}

/// The step a node is, when it is one.
pub open spec fn spec_step_of(n: SyntaxNode) -> Option<StepV> {
    if n.kind == NodeKind::HashSubscriptExpr {
        Some(StepV::Hash {
            key: match subscript_inner(n) {
                Some(inner) => spec_key_text(inner),
                None => None,
            },
            node: n,
        })
    } else if n.kind == NodeKind::ArraySubscriptExpr {
        Some(StepV::Array {
            index: match subscript_inner(n) {
                Some(inner) => match literal_number(inner) {
                    Some(text) => spec_parse_i64(text),
                    None => None,
                },
                None => None,
            },
            node: n,
        })
    } else if n.kind == NodeKind::PostfixDerefExpr {
        match first_deref(child_tokens(n), 0) {
            Some(sigil) => Some(StepV::Deref { sigil, node: n }),
            None => None,
        }
    } else if n.kind == NodeKind::SliceExpr || n.kind == NodeKind::PostfixArraySliceExpr || n.kind
        == NodeKind::PostfixHashSliceExpr {
        Some(StepV::Slice { node: n })
    } else {
        None
    }
}

/// A chain's base and its steps in the order a reader says them: the tree
/// nests them left to right, so the outermost node is the *last* step.
pub open spec fn spec_chain(n: SyntaxNode) -> Option<(SyntaxNode, Seq<StepV>)>
    decreases n,
{
    match spec_step_of(n) {
        None => None,
        Some(step) => if child_nodes(n).len() == 0 {
            None
        } else {
            let inner = child_nodes(n)[0];
            if is_step_kind(inner.kind) {
                proof {
                    lemma_child_smaller(n, 0);
                }
                match spec_chain(inner) {
                    Some((base, steps)) => Some((base, steps.push(step))),
                    None => None,
                }
            } else {
                Some((inner, seq![step]))
            }
        },
    }
}

fn step_of<'a>(node: &'a SyntaxNode) -> (r: Option<Step<'a>>)
    ensures
        match r {
            Some(s) => spec_step_of(*node) == Some(step_view(s)),
            None => spec_step_of(*node) is None,
        },
{
    match node.kind {
        NodeKind::HashSubscriptExpr => {
            let key = match node.first_child(NodeKind::Subscript) {
                Some(sub) => match sub.first_node() {
                    Some(inner) => key_text(inner),
                    None => None,
                },
                None => None,
            };
            Some(Step::Hash { key, node })
        },
        NodeKind::ArraySubscriptExpr => {
            let index = match node.first_child(NodeKind::Subscript) {
                Some(sub) => match sub.first_node() {
                    Some(inner) => match Literal::cast(inner) {
                        Some(literal) => match literal.as_number() {
                            Some(text) => parse_i64(text.as_str()),
                            None => None,
                        },
                        None => None,
                    },
                    None => None,
                },
                None => None,
            };
            Some(Step::Array { index, node })
        },
        NodeKind::PostfixDerefExpr => {
            let ts = node.significant_tokens();
            let ghost all = child_tokens(*node);
            let mut i: usize = 0;
            while i < ts.len()
                invariant
                    i <= ts@.len(),
                    node.kind == NodeKind::PostfixDerefExpr,
                    deref_tokens(ts@) == all,
                    all == child_tokens(*node),
                    first_deref(all, 0) == first_deref(all, i as int),
                decreases ts@.len() - i,
            {
                assert(deref_tokens(ts@)[i as int] == *ts@[i as int]);
                let sigil = match ts[i].kind {
                    TokenKind::DerefArray | TokenKind::DerefLastIndex => Some(Sigil::Array),
                    TokenKind::DerefHash => Some(Sigil::Hash),
                    TokenKind::DerefScalar => Some(Sigil::Scalar),
                    TokenKind::DerefCode => Some(Sigil::Code),
                    TokenKind::DerefGlob => Some(Sigil::Typeglob),
                    _ => None,
                };
                match sigil {
                    Some(sigil) => return Some(Step::Deref { sigil, node }),
                    None => {},
                }
                i += 1;
            }
            None
        },
        NodeKind::SliceExpr | NodeKind::PostfixArraySliceExpr | NodeKind::PostfixHashSliceExpr => Some(
            Step::Slice { node },
        ),
        _ => None,
    }
}

/// `$x->{a}[0]{b}` as a base plus a list of steps.
#[derive(Debug)]
pub struct SubscriptChain<'a> {
    base: &'a SyntaxNode,
    steps: Vec<Step<'a>>,
}

impl<'a> SubscriptChain<'a> {
    pub closed spec fn spec_base(&self) -> SyntaxNode {
        *self.base
    }

    pub closed spec fn spec_steps(&self) -> Seq<StepV> {
        step_views(self.steps@)
    }

    /// The chain a node is the outermost step of, read back to front.
    pub fn cast(node: &'a SyntaxNode) -> (r: Option<SubscriptChain<'a>>)
        ensures
            match r {
                Some(c) => is_step_kind(node.kind) && spec_chain(*node) == Some((c.spec_base(), c.spec_steps())),
                None => !is_step_kind(node.kind) || spec_chain(*node) is None,
            },
        decreases node,
    {
        if !(node.kind == NodeKind::HashSubscriptExpr || node.kind == NodeKind::ArraySubscriptExpr
            || node.kind == NodeKind::PostfixDerefExpr || node.kind == NodeKind::SliceExpr || node.kind
            == NodeKind::PostfixArraySliceExpr || node.kind == NodeKind::PostfixHashSliceExpr) {
            return None;
        }
        let step = match step_of(node) {
            Some(step) => step,
            None => return None,
        };
        let inner = match node.first_node() {
            Some(inner) => inner,
            None => return None,
        };
        if inner.kind == NodeKind::HashSubscriptExpr || inner.kind == NodeKind::ArraySubscriptExpr
            || inner.kind == NodeKind::PostfixDerefExpr || inner.kind == NodeKind::SliceExpr || inner.kind
            == NodeKind::PostfixArraySliceExpr || inner.kind == NodeKind::PostfixHashSliceExpr {
            proof {
                lemma_child_smaller(*node, 0);
            }
            match SubscriptChain::cast(inner) {
                Some(chain) => {
                    let mut chain = chain;
                    let ghost before = step_views(chain.steps@);
                    chain.steps.push(step);
                    assert(step_views(chain.steps@) =~= before.push(step_view(step)));
                    Some(chain)
                },
                None => None,
            }
        } else {
            let mut steps: Vec<Step<'a>> = Vec::new();
            steps.push(step);
            assert(step_views(steps@) =~= seq![step_view(step)]);
            Some(SubscriptChain { base: inner, steps })
        }
    }

    pub fn base(&self) -> (r: &'a SyntaxNode)
        ensures
            *r == self.spec_base(),
    {
        self.base
    }

    pub fn steps(&self) -> (r: &[Step<'a>])
        ensures
            step_views(r@) == self.spec_steps(),
    {
        self.steps.as_slice()
    }
}

// ===== The expression a pass branches on =====

/// The shapes the checker asks about, with everything else behind
/// [`Expr::Other`]: an `Other` is walked for its children and contributes
/// nothing, which is the rule that keeps the checker quiet.
#[derive(Debug)]
pub enum Expr<'a> {
    Call(Call<'a>),
    MethodCall(MethodCallExpr<'a>),
    Subscript(SubscriptChain<'a>),
    Assign(AssignExpr<'a>),
    Literal(Literal<'a>),
    AnonHash(AnonHash<'a>),
    AnonArray(AnonArray<'a>),
    AnonSub(AnonSubExpr<'a>),
    Variable(Variable<'a>),
    Paren(ParenExpr<'a>),
    List(ListExpr<'a>),
    Binary(BinaryExpr<'a>),
    Ternary(TernaryExpr<'a>),
    Prefix(PrefixExpr<'a>),
    Reference(ReferenceExpr<'a>),
    Qw(QwExpr<'a>),
    Other(&'a SyntaxNode),
}

/// Which view a node is read as: a chain first, then a call, then a
/// variable, then by kind.
pub enum ExprShape {
    Call,
    MethodCall,
    Subscript,
    Assign,
    Literal,
    AnonHash,
    AnonArray,
    AnonSub,
    Variable,
    Paren,
    List,
    Binary,
    Ternary,
    Prefix,
    Reference,
    Qw,
    Other,
}

pub open spec fn expr_shape(n: SyntaxNode) -> ExprShape {
    if is_step_kind(n.kind) && spec_chain(n) is Some {
        ExprShape::Subscript
    } else if is_call_kind(n.kind) {
        ExprShape::Call
    } else if is_variable_kind(n.kind) {
        ExprShape::Variable
    } else if n.kind == NodeKind::MethodCallExpr {
        ExprShape::MethodCall
    } else if n.kind == NodeKind::AssignExpr {
        ExprShape::Assign
    } else if n.kind == NodeKind::Literal {
        ExprShape::Literal
    } else if n.kind == NodeKind::AnonHash {
        ExprShape::AnonHash
    } else if n.kind == NodeKind::AnonArray {
        ExprShape::AnonArray
    } else if n.kind == NodeKind::AnonSubExpr {
        ExprShape::AnonSub
    } else if n.kind == NodeKind::ParenExpr {
        ExprShape::Paren
    } else if n.kind == NodeKind::ListExpr {
        ExprShape::List
    } else if n.kind == NodeKind::BinaryExpr {
        ExprShape::Binary
    } else if n.kind == NodeKind::TernaryExpr {
        ExprShape::Ternary
    } else if n.kind == NodeKind::PrefixExpr {
        ExprShape::Prefix
    } else if n.kind == NodeKind::ReferenceExpr {
        ExprShape::Reference
    } else if n.kind == NodeKind::QwExpr {
        ExprShape::Qw
    } else {
        ExprShape::Other
    }
}

impl<'a> Expr<'a> {
    pub open spec fn shape(&self) -> ExprShape {
        match self {
            Expr::Call(_) => ExprShape::Call,
            Expr::MethodCall(_) => ExprShape::MethodCall,
            Expr::Subscript(_) => ExprShape::Subscript,
            Expr::Assign(_) => ExprShape::Assign,
            Expr::Literal(_) => ExprShape::Literal,
            Expr::AnonHash(_) => ExprShape::AnonHash,
            Expr::AnonArray(_) => ExprShape::AnonArray,
            Expr::AnonSub(_) => ExprShape::AnonSub,
            Expr::Variable(_) => ExprShape::Variable,
            Expr::Paren(_) => ExprShape::Paren,
            Expr::List(_) => ExprShape::List,
            Expr::Binary(_) => ExprShape::Binary,
            Expr::Ternary(_) => ExprShape::Ternary,
            Expr::Prefix(_) => ExprShape::Prefix,
            Expr::Reference(_) => ExprShape::Reference,
            Expr::Qw(_) => ExprShape::Qw,
            Expr::Other(_) => ExprShape::Other,
        }
    }

    /// The view a node is read as.
    pub fn cast(node: &'a SyntaxNode) -> (r: Expr<'a>)
        ensures
            r.shape() == expr_shape(*node),
            (match r {
                Expr::Subscript(c) => spec_chain(*node) == Some((c.spec_base(), c.spec_steps())),
                Expr::Call(c) => *c.syntax() == *node,
                Expr::Variable(v) => *v.syntax() == *node,
                Expr::MethodCall(v) => *v.0 == *node,
                Expr::Assign(v) => *v.0 == *node,
                Expr::Literal(v) => *v.0 == *node,
                Expr::AnonHash(v) => *v.0 == *node,
                Expr::AnonArray(v) => *v.0 == *node,
                Expr::AnonSub(v) => *v.0 == *node,
                Expr::Paren(v) => *v.0 == *node,
                Expr::List(v) => *v.0 == *node,
                Expr::Binary(v) => *v.0 == *node,
                Expr::Ternary(v) => *v.0 == *node,
                Expr::Prefix(v) => *v.0 == *node,
                Expr::Reference(v) => *v.0 == *node,
                Expr::Qw(v) => *v.0 == *node,
                Expr::Other(n) => *n == *node,
            }),
    {
        match SubscriptChain::cast(node) {
            Some(chain) => return Expr::Subscript(chain),
            None => {},
        }
        match Call::cast(node) {
            Some(call) => return Expr::Call(call),
            None => {},
        }
        match Variable::cast(node) {
            Some(variable) => return Expr::Variable(variable),
            None => {},
        }
        match node.kind {
            NodeKind::MethodCallExpr => Expr::MethodCall(MethodCallExpr(node)),
            NodeKind::AssignExpr => Expr::Assign(AssignExpr(node)),
            NodeKind::Literal => Expr::Literal(Literal(node)),
            NodeKind::AnonHash => Expr::AnonHash(AnonHash(node)),
            NodeKind::AnonArray => Expr::AnonArray(AnonArray(node)),
            NodeKind::AnonSubExpr => Expr::AnonSub(AnonSubExpr(node)),
            NodeKind::ParenExpr => Expr::Paren(ParenExpr(node)),
            NodeKind::ListExpr => Expr::List(ListExpr(node)),
            NodeKind::BinaryExpr => Expr::Binary(BinaryExpr(node)),
            NodeKind::TernaryExpr => Expr::Ternary(TernaryExpr(node)),
            NodeKind::PrefixExpr => Expr::Prefix(PrefixExpr(node)),
            NodeKind::ReferenceExpr => Expr::Reference(ReferenceExpr(node)),
            NodeKind::QwExpr => Expr::Qw(QwExpr(node)),
            _ => Expr::Other(node),
        }
    }

    /// The node the view reads: for a chain, its outermost step.
    pub fn syntax(&self) -> (r: &'a SyntaxNode)
        ensures
            match self {
                Expr::Subscript(c) => *r == (if c.spec_steps().len() > 0 {
                    match c.spec_steps().last() {
                        StepV::Hash { node, .. } => node,
                        StepV::Array { node, .. } => node,
                        StepV::Deref { node, .. } => node,
                        StepV::Slice { node } => node,
                    }
                } else {
                    c.spec_base()
                }),
                Expr::Call(c) => r == c.syntax(),
                Expr::Variable(v) => r == v.syntax(),
                Expr::MethodCall(v) => r == v.0,
                Expr::Assign(v) => r == v.0,
                Expr::Literal(v) => r == v.0,
                Expr::AnonHash(v) => r == v.0,
                Expr::AnonArray(v) => r == v.0,
                Expr::AnonSub(v) => r == v.0,
                Expr::Paren(v) => r == v.0,
                Expr::List(v) => r == v.0,
                Expr::Binary(v) => r == v.0,
                Expr::Ternary(v) => r == v.0,
                Expr::Prefix(v) => r == v.0,
                Expr::Reference(v) => r == v.0,
                Expr::Qw(v) => r == v.0,
                Expr::Other(n) => r == *n,
            },
    {
        match self {
            Expr::Call(view) => view.syntax(),
            Expr::MethodCall(view) => view.0,
            Expr::Subscript(view) => {
                let steps = view.steps();
                if steps.len() > 0 {
                    proof {
                        assert(step_views(steps@).last() == step_view(steps@[steps@.len() - 1]));
                    }
                    steps[steps.len() - 1].node()
                } else {
                    view.base()
                }
            },
            Expr::Assign(view) => view.0,
            Expr::Literal(view) => view.0,
            Expr::AnonHash(view) => view.0,
            Expr::AnonArray(view) => view.0,
            Expr::AnonSub(view) => view.0,
            Expr::Variable(view) => view.syntax(),
            Expr::Paren(view) => view.0,
            Expr::List(view) => view.0,
            Expr::Binary(view) => view.0,
            Expr::Ternary(view) => view.0,
            Expr::Prefix(view) => view.0,
            Expr::Reference(view) => view.0,
            Expr::Qw(view) => view.0,
            Expr::Other(node) => node,
        }
    }
}

} // verus!
