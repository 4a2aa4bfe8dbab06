//! The concrete syntax tree the views read: nodes of a kind, holding nodes
//! and tokens in source order, every token with its text.
//!
//! A node also carries the whitespace, newlines and comments just before its
//! first token, because an own-line comment sits *outside* the node it
//! precedes and the comment block above a `sub` is where `Returns:` lives.

use vstd::prelude::*;

use crate::span::TextRange;

verus! {

/// The node kinds the views tell apart; every other kind is `Other`.
#[derive(Debug, Clone, Copy, PartialEq, Eq, Structural)]
pub enum NodeKind {
    Root,
    Block,
    PackageStmt,
    UseStmt,
    NoStmt,
    SubName,
    SubDef,
    SubSignature,
    SignatureParam,
    SignatureDefault,
    Attr,
    VarDecl,
    DeclTarget,
    ScalarVar,
    ArrayVar,
    HashVar,
    CodeVar,
    TypeglobVar,
    ArrayLastIndex,
    CallExpr,
    ListCallExpr,
    CodeCallExpr,
    Filehandle,
    ArgList,
    ListExpr,
    ParenExpr,
    MethodCallExpr,
    PrefixExpr,
    Literal,
    QExpr,
    QqExpr,
    QwExpr,
    AnonHash,
    AnonArray,
    AnonSubExpr,
    AssignExpr,
    HashSubscriptExpr,
    ArraySubscriptExpr,
    PostfixDerefExpr,
    SliceExpr,
    PostfixArraySliceExpr,
    PostfixHashSliceExpr,
    Subscript,
    BinaryExpr,
    TernaryExpr,
    ReferenceExpr,
    UndefExpr,
    QxExpr,
    HeredocExpr,
    MatchExpr,
    QrExpr,
    SubstExpr,
    TransExpr,
    FileTestExpr,
    PostfixExpr,
    DerefExpr,
    BlockDerefExpr,
    RangeExpr,
    /// `my ... ;` as a statement.
    VarDeclStmt,
    /// An expression as a statement.
    ExprStmt,
    RequireExpr,
    Other,
}

/// The token kinds the views tell apart.
#[derive(Debug, Clone, Copy, PartialEq, Eq, Structural)]
pub enum TokenKind {
    Whitespace,
    Newline,
    Comment,
    Ident,
    DoubleColon,
    Number,
    /// A version number: `5.012`, `v5.36`.
    Version,
    /// A quoted string literal.
    StringLit,
    /// The body of a `q{...}`.
    LiteralString,
    /// The body of a `qq{...}`.
    InterpolatedString,
    /// The body of a `qw(...)`.
    QwString,
    MethodKw,
    MyKw,
    OurKw,
    StateKw,
    LocalKw,
    /// `=>`.
    FatComma,
    Comma,
    Plus,
    /// `=`.
    Assign,
    PlusAssign,
    MinusAssign,
    StarAssign,
    SlashAssign,
    PercentAssign,
    PowerAssign,
    DotAssign,
    RepeatAssign,
    DefinedOrAssign,
    OrAssign,
    AndAssign,
    BitOrAssign,
    BitAndAssign,
    BitXorAssign,
    ShiftLeftAssign,
    ShiftRightAssign,
    /// `->@*`.
    DerefArray,
    /// `->$#*`.
    DerefLastIndex,
    /// `->%*`.
    DerefHash,
    /// `->$*`.
    DerefScalar,
    /// `->&*`.
    DerefCode,
    /// `->**`.
    DerefGlob,
    /// `$` opening a dereference: `${...}`, `$$x`.
    ScalarSigil,
    /// `->`.
    Arrow,
    /// `x`, the repetition operator.
    Repeat,
    Minus,
    /// `!`.
    LogicalNot,
    /// `~`.
    BitwiseNot,
    /// `\`, taking a reference.
    Backslash,
    /// `not`.
    NotKw,
    /// `||`.
    LogicalOr,
    /// `//`.
    DefinedOr,
    /// `or`.
    OrKw,
    /// `xor`.
    XorKw,
    Increment,
    Decrement,
    /// Any other punctuation.
    Punct,
    /// Any other keyword.
    Keyword,
    /// The pattern of a match or a substitution.
    RegexPattern,
    /// The body of a here-document.
    HeredocContent,
    /// `*` opening a typeglob.
    TypeglobSigil,
    Other,
}

pub open spec fn spec_is_trivia(k: TokenKind) -> bool {
    k == TokenKind::Whitespace || k == TokenKind::Newline || k == TokenKind::Comment
}

pub open spec fn spec_is_keyword(k: TokenKind) -> bool {
    k == TokenKind::MethodKw || k == TokenKind::MyKw || k == TokenKind::OurKw || k == TokenKind::StateKw
        || k == TokenKind::LocalKw || k == TokenKind::NotKw || k == TokenKind::OrKw || k == TokenKind::XorKw
        || k == TokenKind::Keyword
}

pub open spec fn spec_is_assignment(k: TokenKind) -> bool {
    k == TokenKind::Assign || k == TokenKind::PlusAssign || k == TokenKind::MinusAssign || k
        == TokenKind::StarAssign || k == TokenKind::SlashAssign || k == TokenKind::PercentAssign || k
        == TokenKind::PowerAssign || k == TokenKind::DotAssign || k == TokenKind::RepeatAssign || k
        == TokenKind::DefinedOrAssign || k == TokenKind::OrAssign || k == TokenKind::AndAssign || k
        == TokenKind::BitOrAssign || k == TokenKind::BitAndAssign || k == TokenKind::BitXorAssign || k
        == TokenKind::ShiftLeftAssign || k == TokenKind::ShiftRightAssign
}

pub open spec fn spec_is_punct(k: TokenKind) -> bool {
    spec_is_assignment(k) || k == TokenKind::FatComma || k == TokenKind::Comma || k == TokenKind::Plus
        || k == TokenKind::DoubleColon || k == TokenKind::DerefArray || k == TokenKind::DerefLastIndex
        || k == TokenKind::DerefHash || k == TokenKind::DerefScalar || k == TokenKind::DerefCode || k
        == TokenKind::DerefGlob || k == TokenKind::Arrow || k == TokenKind::Repeat || k == TokenKind::Minus
        || k == TokenKind::LogicalNot || k == TokenKind::BitwiseNot || k == TokenKind::Backslash || k
        == TokenKind::Increment || k == TokenKind::Decrement || k == TokenKind::LogicalOr || k
        == TokenKind::DefinedOr || k == TokenKind::Punct
}

impl TokenKind {
    /// Whitespace, a newline or a comment.
    pub fn is_trivia(self) -> (r: bool)
        ensures
            r == spec_is_trivia(self),
    {
        match self {
            TokenKind::Whitespace | TokenKind::Newline | TokenKind::Comment => true,
            _ => false,
        }
    }

    pub fn is_keyword(self) -> (r: bool)
        ensures
            r == spec_is_keyword(self),
    {
        match self {
            TokenKind::MethodKw | TokenKind::MyKw | TokenKind::OurKw | TokenKind::StateKw
            | TokenKind::LocalKw | TokenKind::NotKw | TokenKind::OrKw | TokenKind::XorKw | TokenKind::Keyword => true,
            _ => false,
        }
    }

    /// An assignment operator: `=` or a compound one, which is one token.
    pub fn is_assignment(self) -> (r: bool)
        ensures
            r == spec_is_assignment(self),
    {
        match self {
            TokenKind::Assign | TokenKind::PlusAssign | TokenKind::MinusAssign | TokenKind::StarAssign
            | TokenKind::SlashAssign | TokenKind::PercentAssign | TokenKind::PowerAssign
            | TokenKind::DotAssign | TokenKind::RepeatAssign | TokenKind::DefinedOrAssign
            | TokenKind::OrAssign | TokenKind::AndAssign | TokenKind::BitOrAssign
            | TokenKind::BitAndAssign | TokenKind::BitXorAssign | TokenKind::ShiftLeftAssign
            | TokenKind::ShiftRightAssign => true,
            _ => false,
        }
    }

    pub fn is_punct(self) -> (r: bool)
        ensures
            r == spec_is_punct(self),
    {
        self.is_assignment() || match self {
            TokenKind::FatComma | TokenKind::Comma | TokenKind::Plus | TokenKind::DoubleColon
            | TokenKind::DerefArray | TokenKind::DerefLastIndex | TokenKind::DerefHash
            | TokenKind::DerefScalar | TokenKind::DerefCode | TokenKind::DerefGlob | TokenKind::Arrow
            | TokenKind::Repeat | TokenKind::Minus | TokenKind::LogicalNot | TokenKind::BitwiseNot
            | TokenKind::Backslash | TokenKind::Increment | TokenKind::Decrement | TokenKind::LogicalOr
            | TokenKind::DefinedOr | TokenKind::Punct => true,
            _ => false,
        }
    }
}

/// One token: its kind, its text, and where it is.
#[derive(Debug, Clone)]
pub struct SyntaxToken {
    pub kind: TokenKind,
    pub text: String,
    pub range: TextRange,
}

/// A node or a token, as a node's children are.
#[derive(Debug)]
pub enum SyntaxElement {
    Node(SyntaxNode),
    Token(SyntaxToken),
}

/// One node of the tree.
#[derive(Debug)]
pub struct SyntaxNode {
    pub kind: NodeKind,
    pub range: TextRange,
    /// Nodes and tokens, in source order.
    pub children: Vec<SyntaxElement>,
    /// The whitespace, newlines and comments just before the node's first
    /// token, in source order.
    pub before: Vec<SyntaxToken>,
    /// Whether nothing precedes `before` in the file.
    pub at_start: bool,
}

/// The nodes among `es`, in order.
pub open spec fn nodes_of(es: Seq<SyntaxElement>) -> Seq<SyntaxNode>
    decreases es.len(),
{
    if es.len() == 0 {
        Seq::empty()
    } else {
        match es.last() {
            SyntaxElement::Node(n) => nodes_of(es.drop_last()).push(n),
            SyntaxElement::Token(_) => nodes_of(es.drop_last()),
        }
    }
}

/// The tokens among `es`, in order.
pub open spec fn tokens_of(es: Seq<SyntaxElement>) -> Seq<SyntaxToken>
    decreases es.len(),
{
    if es.len() == 0 {
        Seq::empty()
    } else {
        match es.last() {
            SyntaxElement::Token(t) => tokens_of(es.drop_last()).push(t),
            SyntaxElement::Node(_) => tokens_of(es.drop_last()),
        }
    }
}

/// The tokens among `es` that are not trivia, in order.
pub open spec fn significant(ts: Seq<SyntaxToken>) -> Seq<SyntaxToken>
    decreases ts.len(),
{
    if ts.len() == 0 {
        Seq::empty()
    } else if spec_is_trivia(ts.last().kind) {
        significant(ts.drop_last())
    } else {
        significant(ts.drop_last()).push(ts.last())
    }
}

/// The node's child nodes.
pub open spec fn child_nodes(n: SyntaxNode) -> Seq<SyntaxNode> {
    nodes_of(n.children@)
}

/// The node's direct tokens that are not trivia.
pub open spec fn child_tokens(n: SyntaxNode) -> Seq<SyntaxToken> {
    significant(tokens_of(n.children@))
}

/// Where the first node of kind `k` at or after `i` stands.
pub open spec fn first_of_kind(ns: Seq<SyntaxNode>, k: NodeKind, i: int) -> Option<int>
    decreases ns.len() - i,
{
    if i < 0 || i >= ns.len() {
        None
    } else if ns[i].kind == k {
        Some(i)
    } else {
        first_of_kind(ns, k, i + 1)
    }
}

/// Where the first node not of kind `k` at or after `i` stands.
pub open spec fn first_not_of_kind(ns: Seq<SyntaxNode>, k: NodeKind, i: int) -> Option<int>
    decreases ns.len() - i,
{
    if i < 0 || i >= ns.len() {
        None
    } else if ns[i].kind != k {
        Some(i)
    } else {
        first_not_of_kind(ns, k, i + 1)
    }
}

/// Where the first token of kind `k` at or after `i` stands.
pub open spec fn first_token_of_kind(ts: Seq<SyntaxToken>, k: TokenKind, i: int) -> Option<int>
    decreases ts.len() - i,
{
    if i < 0 || i >= ts.len() {
        None
    } else if ts[i].kind == k {
        Some(i)
    } else {
        first_token_of_kind(ts, k, i + 1)
    }
}

/// The element an index found, if it found one.
pub open spec fn found<A>(s: Seq<A>, at: Option<int>) -> Option<A> {
    match at {
        Some(i) => Some(s[i]),
        None => None,
    }
}

pub open spec fn deref_nodes<'a>(s: Seq<&'a SyntaxNode>) -> Seq<SyntaxNode> {
    s.map_values(|n: &'a SyntaxNode| *n)
}

pub open spec fn deref_tokens<'a>(s: Seq<&'a SyntaxToken>) -> Seq<SyntaxToken> {
    s.map_values(|t: &'a SyntaxToken| *t)
}

/// The text of the non-trivia tokens under a node, in order.
pub open spec fn joined(n: SyntaxNode) -> Seq<char>
    decreases n,
{
    joined_all(n.children@)
}

pub open spec fn joined_all(es: Seq<SyntaxElement>) -> Seq<char>
    decreases es,
{
    if es.len() == 0 {
        Seq::empty()
    } else {
        joined_all(es.drop_last()) + match es.last() {
            SyntaxElement::Token(t) => if spec_is_trivia(t.kind) {
                Seq::empty()
            } else {
                t.text@
            },
            SyntaxElement::Node(m) => joined(m),
        }
    }
}

impl SyntaxNode {
    /// The child nodes, in order.
    pub fn child_nodes(&self) -> (r: Vec<&SyntaxNode>)
        ensures
            deref_nodes(r@) == child_nodes(*self),
    {
        let mut out: Vec<&SyntaxNode> = Vec::new();
        let mut i: usize = 0;
        while i < self.children.len()
            invariant
                i <= self.children@.len(),
                deref_nodes(out@) == nodes_of(self.children@.subrange(0, i as int)),
            decreases self.children@.len() - i,
        {
            let ghost before = deref_nodes(out@);
            proof {
                assert(self.children@.subrange(0, i + 1).drop_last() =~= self.children@.subrange(0, i as int));
            }
            match &self.children[i] {
                SyntaxElement::Node(n) => {
                    out.push(n);
                    assert(deref_nodes(out@) =~= before.push(*n));
                },
                SyntaxElement::Token(_) => {},
            }
            i += 1;
        }
        assert(self.children@.subrange(0, self.children@.len() as int) =~= self.children@);
        out
    }

    /// Every direct token, trivia included, in order.
    pub fn direct_tokens(&self) -> (r: Vec<&SyntaxToken>)
        ensures
            deref_tokens(r@) == tokens_of(self.children@),
    {
        let mut out: Vec<&SyntaxToken> = Vec::new();
        let mut i: usize = 0;
        while i < self.children.len()
            invariant
                i <= self.children@.len(),
                deref_tokens(out@) == tokens_of(self.children@.subrange(0, i as int)),
            decreases self.children@.len() - i,
        {
            let ghost before = deref_tokens(out@);
            proof {
                assert(self.children@.subrange(0, i + 1).drop_last() =~= self.children@.subrange(0, i as int));
            }
            match &self.children[i] {
                SyntaxElement::Token(t) => {
                    out.push(t);
                    assert(deref_tokens(out@) =~= before.push(*t));
                },
                SyntaxElement::Node(_) => {},
            }
            i += 1;
        }
        assert(self.children@.subrange(0, self.children@.len() as int) =~= self.children@);
        out
    }

    /// The direct tokens that are not trivia, in order.
    pub fn significant_tokens(&self) -> (r: Vec<&SyntaxToken>)
        ensures
            deref_tokens(r@) == child_tokens(*self),
    {
        let ghost all = tokens_of(self.children@);
        let mut out: Vec<&SyntaxToken> = Vec::new();
        let mut i: usize = 0;
        while i < self.children.len()
            invariant
                i <= self.children@.len(),
                deref_tokens(out@) == significant(tokens_of(self.children@.subrange(0, i as int))),
            decreases self.children@.len() - i,
        {
            let ghost before = deref_tokens(out@);
            proof {
                assert(self.children@.subrange(0, i + 1).drop_last() =~= self.children@.subrange(0, i as int));
            }
            match &self.children[i] {
                SyntaxElement::Token(t) => {
                    proof {
                        let ts = tokens_of(self.children@.subrange(0, i + 1));
                        assert(ts == tokens_of(self.children@.subrange(0, i as int)).push(*t));
                        assert(ts.drop_last() =~= tokens_of(self.children@.subrange(0, i as int)));
                    }
                    if !t.kind.is_trivia() {
                        out.push(t);
                        assert(deref_tokens(out@) =~= before.push(*t));
                    }
                },
                SyntaxElement::Node(_) => {},
            }
            i += 1;
        }
        assert(self.children@.subrange(0, self.children@.len() as int) =~= self.children@);
        out
    }

    /// The first child node of kind `k`.
    pub fn first_child(&self, k: NodeKind) -> (r: Option<&SyntaxNode>)
        ensures
            match r {
                Some(n) => found(child_nodes(*self), first_of_kind(child_nodes(*self), k, 0)) == Some(*n),
                None => first_of_kind(child_nodes(*self), k, 0) is None,
            },
    {
        let nodes = self.child_nodes();
        let mut i: usize = 0;
        while i < nodes.len()
            invariant
                i <= nodes@.len(),
                deref_nodes(nodes@) == child_nodes(*self),
                first_of_kind(child_nodes(*self), k, 0) == first_of_kind(child_nodes(*self), k, i as int),
            decreases nodes@.len() - i,
        {
            assert(deref_nodes(nodes@)[i as int] == *nodes@[i as int]);
            if nodes[i].kind == k {
                return Some(nodes[i]);
            }
            i += 1;
        }
        None
    }

    /// The first child node, whatever its kind.
    pub fn first_node(&self) -> (r: Option<&SyntaxNode>)
        ensures
            match r {
                Some(n) => child_nodes(*self).len() > 0 && child_nodes(*self)[0] == *n,
                None => child_nodes(*self).len() == 0,
            },
    {
        let nodes = self.child_nodes();
        if nodes.len() == 0 {
            None
        } else {
            assert(deref_nodes(nodes@)[0] == *nodes@[0]);
            Some(nodes[0])
        }
    }

    /// The second child node, whatever its kind.
    pub fn second_node(&self) -> (r: Option<&SyntaxNode>)
        ensures
            match r {
                Some(n) => child_nodes(*self).len() > 1 && child_nodes(*self)[1] == *n,
                None => child_nodes(*self).len() <= 1,
            },
    {
        let nodes = self.child_nodes();
        if nodes.len() < 2 {
            None
        } else {
            assert(deref_nodes(nodes@)[1] == *nodes@[1]);
            Some(nodes[1])
        }
    }

    /// The first child node whose kind is not `k`.
    pub fn first_child_not(&self, k: NodeKind) -> (r: Option<&SyntaxNode>)
        ensures
            match r {
                Some(n) => found(child_nodes(*self), first_not_of_kind(child_nodes(*self), k, 0)) == Some(*n),
                None => first_not_of_kind(child_nodes(*self), k, 0) is None,
            },
    {
        let nodes = self.child_nodes();
        let mut i: usize = 0;
        while i < nodes.len()
            invariant
                i <= nodes@.len(),
                deref_nodes(nodes@) == child_nodes(*self),
                first_not_of_kind(child_nodes(*self), k, 0) == first_not_of_kind(child_nodes(*self), k, i as int),
            decreases nodes@.len() - i,
        {
            assert(deref_nodes(nodes@)[i as int] == *nodes@[i as int]);
            if nodes[i].kind != k {
                return Some(nodes[i]);
            }
            i += 1;
        }
        None
    }

    /// The first direct non-trivia token of kind `k`.
    pub fn first_token(&self, k: TokenKind) -> (r: Option<&SyntaxToken>)
        ensures
            match r {
                Some(t) => found(child_tokens(*self), first_token_of_kind(child_tokens(*self), k, 0)) == Some(*t),
                None => first_token_of_kind(child_tokens(*self), k, 0) is None,
            },
    {
        let tokens = self.significant_tokens();
        let mut i: usize = 0;
        while i < tokens.len()
            invariant
                i <= tokens@.len(),
                deref_tokens(tokens@) == child_tokens(*self),
                first_token_of_kind(child_tokens(*self), k, 0) == first_token_of_kind(child_tokens(*self), k, i as int),
            decreases tokens@.len() - i,
        {
            assert(deref_tokens(tokens@)[i as int] == *tokens@[i as int]);
            if tokens[i].kind == k {
                return Some(tokens[i]);
            }
            i += 1;
        }
        None
    }

    /// The text of the non-trivia tokens under the node, concatenated.
    pub fn joined_text(&self) -> (out: String)
        ensures
            out@ == joined(*self),
        decreases self,
    {
        let mut out = String::new();
        let mut i: usize = 0;
        while i < self.children.len()
            invariant
                i <= self.children@.len(),
                out@ == joined_all(self.children@.subrange(0, i as int)),
            decreases self.children@.len() - i,
        {
            proof {
                assert(self.children@.subrange(0, i + 1).drop_last() =~= self.children@.subrange(0, i as int));
                assert(self.children@.subrange(0, i + 1).last() == self.children@[i as int]);
            }
            match &self.children[i] {
                SyntaxElement::Token(t) => {
                    if !t.kind.is_trivia() {
                        crate::text::append(&mut out, t.text.as_str());
                    } else {
                        assert(out@ + Seq::<char>::empty() =~= out@);
                    }
                },
                SyntaxElement::Node(n) => {
                    proof {
                        assert(decreases_to!(*self => self.children));
                        assert(decreases_to!(self.children => self.children@));
                        assert(decreases_to!(self.children@ => self.children@[i as int]));
                    }
                    let inner = n.joined_text();
                    crate::text::append(&mut out, inner.as_str());
                },
            }
            i += 1;
        }
        assert(self.children@.subrange(0, self.children@.len() as int) =~= self.children@);
        out
    }
}

} // verus!
