//! What `syn` hands back, taken apart one construct at a time.
//!
//! A value of `syn` is opaque here. [`holds`] names what such a value is made of, and each function
//! below gives it for some of the constructs of one type: it moves the fields out of the value, in
//! the order in which they are declared, and says of what kind the construct is. Punctuation and
//! keywords are left behind.
use super::tree::{Kind, Op};
use crate::parse::source_file::{exceeds_nesting_limit, too_deep};
use crate::text;
use crate::text::{byte_len, strings};
use proc_macro2::{Ident, TokenTree};
use syn::punctuated::Punctuated;
use syn::spanned::Spanned;
use syn::{
    Arm, Attribute, BinOp, Block, Expr, Field, FieldPat, FieldValue, Fields, File, FnArg, ForeignItem, GenericArgument, GenericParam,
    Generics, ImplItem, Item, Lit, Macro, Member, Meta, MetaList, Pat, Path, PathArguments, PathSegment, ReceiverKind, ReturnType, Signature, Stmt,
    TraitItem, Type, TypeParamBound, UnOp, UseTree, Variant, WherePredicate,
};
use vstd::prelude::*;

verus! {

/// `syn::File`.
#[verifier::external_type_specification]
#[verifier::external_body]
pub struct ExFile(syn::File);

/// `syn::Item`.
#[verifier::external_type_specification]
#[verifier::external_body]
pub struct ExItem(syn::Item);

/// `syn::ImplItem`.
#[verifier::external_type_specification]
#[verifier::external_body]
pub struct ExImplItem(syn::ImplItem);

/// `syn::TraitItem`.
#[verifier::external_type_specification]
#[verifier::external_body]
pub struct ExTraitItem(syn::TraitItem);

/// `syn::ForeignItem`.
#[verifier::external_type_specification]
#[verifier::external_body]
pub struct ExForeignItem(syn::ForeignItem);

/// `syn::Fields`.
#[verifier::external_type_specification]
#[verifier::external_body]
pub struct ExFields(syn::Fields);

/// `syn::Field`.
#[verifier::external_type_specification]
#[verifier::external_body]
pub struct ExField(syn::Field);

/// `syn::Variant`.
#[verifier::external_type_specification]
#[verifier::external_body]
pub struct ExVariant(syn::Variant);

/// `syn::UseTree`.
#[verifier::external_type_specification]
#[verifier::external_body]
pub struct ExUseTree(syn::UseTree);

/// `syn::Generics`.
#[verifier::external_type_specification]
#[verifier::external_body]
pub struct ExGenerics(syn::Generics);

/// `syn::GenericParam`.
#[verifier::external_type_specification]
#[verifier::external_body]
pub struct ExGenericParam(syn::GenericParam);

/// `syn::TypeParamBound`.
#[verifier::external_type_specification]
#[verifier::external_body]
pub struct ExTypeParamBound(syn::TypeParamBound);

/// `syn::WherePredicate`.
#[verifier::external_type_specification]
#[verifier::external_body]
pub struct ExWherePredicate(syn::WherePredicate);

/// `syn::Type`.
#[verifier::external_type_specification]
#[verifier::external_body]
pub struct ExType(syn::Type);

/// `syn::ReturnType`.
#[verifier::external_type_specification]
#[verifier::external_body]
pub struct ExReturnType(syn::ReturnType);

/// `syn::Path`.
#[verifier::external_type_specification]
#[verifier::external_body]
pub struct ExPath(syn::Path);

/// `syn::PathSegment`.
#[verifier::external_type_specification]
#[verifier::external_body]
pub struct ExPathSegment(syn::PathSegment);

/// `syn::PathArguments`.
#[verifier::external_type_specification]
#[verifier::external_body]
pub struct ExPathArguments(syn::PathArguments);

/// `syn::GenericArgument`.
#[verifier::external_type_specification]
#[verifier::external_body]
pub struct ExGenericArgument(syn::GenericArgument);

/// `syn::Signature`.
#[verifier::external_type_specification]
#[verifier::external_body]
pub struct ExSignature(syn::Signature);

/// `syn::FnArg`.
#[verifier::external_type_specification]
#[verifier::external_body]
pub struct ExFnArg(syn::FnArg);

/// `syn::Pat`.
#[verifier::external_type_specification]
#[verifier::external_body]
pub struct ExPat(syn::Pat);

/// `syn::FieldPat`.
#[verifier::external_type_specification]
#[verifier::external_body]
pub struct ExFieldPat(syn::FieldPat);

/// `syn::Block`.
#[verifier::external_type_specification]
#[verifier::external_body]
pub struct ExBlock(syn::Block);

/// `syn::Stmt`.
#[verifier::external_type_specification]
#[verifier::external_body]
pub struct ExStmt(syn::Stmt);

/// `syn::Expr`.
#[verifier::external_type_specification]
#[verifier::external_body]
pub struct ExExpr(syn::Expr);

/// `syn::Arm`.
#[verifier::external_type_specification]
#[verifier::external_body]
pub struct ExArm(syn::Arm);

/// `syn::FieldValue`.
#[verifier::external_type_specification]
#[verifier::external_body]
pub struct ExFieldValue(syn::FieldValue);

/// `syn::Member`.
#[verifier::external_type_specification]
#[verifier::external_body]
pub struct ExMember(syn::Member);

/// `syn::Macro`.
#[verifier::external_type_specification]
#[verifier::external_body]
pub struct ExMacro(syn::Macro);

/// `syn::Lit`.
#[verifier::external_type_specification]
#[verifier::external_body]
pub struct ExLit(syn::Lit);

/// `syn::BinOp`.
#[verifier::external_type_specification]
#[verifier::external_body]
pub struct ExBinOp(syn::BinOp);

/// `syn::Attribute`.
#[verifier::external_type_specification]
#[verifier::external_body]
pub struct ExAttribute(syn::Attribute);

/// `syn::Error`: why a text was not read.
#[verifier::external_type_specification]
#[verifier::external_body]
pub struct ExError(syn::Error);

/// `syn::token::DotDot`: the two dots of a struct literal's base.
#[verifier::external_type_specification]
#[verifier::external_body]
pub struct ExDotDot(syn::token::DotDot);

/// `proc_macro2::Ident`.
#[verifier::external_type_specification]
#[verifier::external_body]
pub struct ExIdent(proc_macro2::Ident);

/// `syn::MetaList`.
#[verifier::external_type_specification]
#[verifier::external_body]
pub struct ExMetaList(syn::MetaList);

/// `proc_macro2::TokenTree`.
#[verifier::external_type_specification]
#[verifier::external_body]
pub struct ExTokenTree(proc_macro2::TokenTree);

/// A construct as `syn` holds it, or a list of them.
pub enum Part {
    List(Vec<Part>),
    Word(String),
    Name(Ident),
    Dots(syn::token::DotDot),
    Arguments(MetaList),
    Token(TokenTree),
    Attribute(Attribute),
    File(File),
    Item(Item),
    ImplItem(ImplItem),
    TraitItem(TraitItem),
    ForeignItem(ForeignItem),
    Fields(Fields),
    Field(Field),
    Variant(Variant),
    UseTree(UseTree),
    Generics(Generics),
    Param(GenericParam),
    Bound(TypeParamBound),
    Where(WherePredicate),
    Type(Type),
    Output(ReturnType),
    Path(Path),
    Segment(PathSegment),
    Args(PathArguments),
    Arg(GenericArgument),
    Signature(Signature),
    Input(FnArg),
    Pat(Pat),
    FieldPat(FieldPat),
    Block(Block),
    Stmt(Stmt),
    Expr(Expr),
    Arm(Arm),
    FieldValue(FieldValue),
    Member(Member),
    Macro(Macro),
    Body(Macro),
    Lit(Lit),
    Operator(BinOp),
}

/// What a construct is made of: its kind, its attributes and its parts in order.
pub struct Opened {
    pub kind: Kind,
    pub attrs: Vec<Attribute>,
    pub parts: Vec<Part>,
}

/// Groups of constructs of one type of `syn`, one for each function below that takes some of the
/// constructs of its type apart and hands back the others.
#[derive(Clone, Copy, PartialEq, Eq, Structural)]
pub enum Group {
    ExprOperators,
    ExprConversions,
    ExprCalls,
    ExprMembers,
    ExprWrapped,
    ExprBorrowed,
    ExprBlocks,
    ExprLabelled,
    ExprBranches,
    ExprMatch,
    ExprLoops,
    ExprWhile,
    ExprJumps,
    ExprReturns,
    ExprCollections,
    ExprClosure,
    ExprStruct,
    ExprLeaves,
    ExprRange,
    ExprUnary,
    TypeWrapped,
    TypeBorrowed,
    TypeComposed,
    TypeNamed,
    TypeBounded,
    TypeRest,
    PatWrapped,
    PatBracketed,
    PatLists,
    PatValues,
    PatStruct,
    PatTupleStruct,
    PatRest,
    ItemValues,
    ItemTypes,
    ItemAliases,
    ItemImpl,
    ItemTrait,
    ItemGroups,
    ItemRest,
    ImplItemConst,
    ImplItem,
    TraitItemValues,
    TraitItemRest,
    StmtPlain,
    Stmt,
    UseTreePath,
    UseTree,
    GenericArgumentPlain,
    GenericArgumentAssoc,
    GenericArgumentConst,
    GenericArgumentConstraint,
    OperatorArithmetic,
    OperatorBits,
    OperatorAssigning,
    GenericParamType,
    GenericParamOther,
    /// None of these.
    Other,
}

/// Which group a construct belongs to.
pub uninterp spec fn group(part: Part) -> Group;

/// What a construct that `syn` holds is made of.
pub uninterp spec fn holds(part: Part) -> Opened;

/// Where in the text that `syn` read a construct begins and ends, in bytes. What is set aside in front of
/// the text does not count.
pub uninterp spec fn extent(part: Part) -> (usize, usize);

/// The text of a name.
pub uninterp spec fn spelling(name: Ident) -> Seq<char>;

/// What `syn` makes of a text.
pub uninterp spec fn reading(text: Seq<char>) -> Result<File, syn::Error>;

/// How many bytes long the first line of a file is that is no Rust but names an interpreter: `syn` sets it
/// aside.
pub uninterp spec fn shebang(file: File) -> usize;

/// Where `syn` found a text wanting: the line, counted from one, the column, counted from zero, and
/// what it says of it.
pub uninterp spec fn complaint(error: syn::Error) -> (usize, usize, Seq<char>);

/// The names in the path of a macro or of an attribute.
pub uninterp spec fn called(part: Part) -> Seq<Seq<char>>;

/// The tokens of a macro or of an attribute as text.
pub uninterp spec fn printed(part: Part) -> Seq<char>;

/// Whether the tokens of an attribute are one expression.
pub uninterp spec fn expresses(list: MetaList) -> bool;

/// Whether a recursive parser can be pointed at a text.
pub open spec fn is_shallow(text: Seq<char>) -> bool {
    byte_len(text) < usize::MAX && !too_deep(text)
}

/// `syn::parse_file`: the file that a text is, or why it is none.
///
/// It descends by recursion, so a text that nests too deeply would exhaust the stack. It does not read a
/// first line that names an interpreter, which [`too_deep`] allows for.
///
/// Offsets are counted in 32 bits, and run on over all the texts that a thread has read. Once these come
/// to 4 GiB together the count overflows, however short the last of them is. That rests on what the
/// thread did before, of which the argument says nothing, so it is not stated.
#[verifier::external_body]
pub(crate) fn parse_file(text: &str) -> (r: Result<File, syn::Error>)
    requires
        byte_len(text@) < u32::MAX,
        !too_deep(text@),
    ensures
        r == reading(text@),
{
    syn::parse_file(text)
}

/// The length of `syn::File`'s `shebang`.
#[verifier::external_body]
pub(crate) fn shebang_of(file: &File) -> (r: usize)
    ensures
        r == shebang(*file),
{
    file.shebang.as_ref().map_or(0, String::len)
}

/// `syn::Error::span`, its start, and `syn::Error`'s text.
#[verifier::external_body]
pub(crate) fn fault(error: &syn::Error) -> (r: (usize, usize, String))
    ensures
        (r.0, r.1, r.2@) == complaint(*error),
{
    let start = error.span().start();
    (start.line, start.column, error.to_string())
}

/// `proc_macro2::Ident`'s text.
#[verifier::external_body]
pub(crate) fn spell(name: &Ident) -> (r: String)
    ensures
        r@ == spelling(*name),
{
    name.to_string()
}

/// `syn::spanned::Spanned::span`, and `proc_macro2::Span::byte_range`, of a construct.
#[verifier::external_body]
pub(crate) fn span_of_construct(part: &Part) -> (r: (usize, usize))
    requires
        part is Expr || part is Pat || part is Type || part is Block || part is Stmt || part is Path || part is Macro || part is FieldValue,
    ensures
        r == extent(*part),
{
    let span = match part {
        Part::Expr(x) => x.span(),
        Part::Pat(x) => x.span(),
        Part::Type(x) => x.span(),
        Part::Block(x) => x.span(),
        Part::Stmt(x) => x.span(),
        Part::Path(x) => x.span(),
        Part::Macro(x) => x.span(),
        Part::FieldValue(x) => x.span(),
        _ => proc_macro2::Span::call_site(),
    };
    (span.byte_range().start, span.byte_range().end)
}

/// `syn::spanned::Spanned::span`, and `proc_macro2::Span::byte_range`, of an attribute or a token.
#[verifier::external_body]
pub(crate) fn span_of_token(part: &Part) -> (r: (usize, usize))
    requires
        part is Attribute || part is Token || part is Name || part is Dots,
    ensures
        r == extent(*part),
{
    let span = match part {
        Part::Attribute(x) => x.span(),
        Part::Token(x) => x.span(),
        Part::Name(x) => x.span(),
        Part::Dots(x) => x.span(),
        _ => proc_macro2::Span::call_site(),
    };
    (span.byte_range().start, span.byte_range().end)
}

/// `syn::Expr`: operators.
#[verifier::external_body]
fn expr_operators(value: Expr) -> (r: Result<Opened, Expr>)
    ensures
        match r {
            Ok(opened) => group(Part::Expr(value)) == Group::ExprOperators && opened == holds(Part::Expr(value)),
            Err(rest) => group(Part::Expr(value)) != Group::ExprOperators && rest == value,
        },
{
    let (kind, attrs, parts) = match value {
        Expr::Assign(x) => (Kind::Assign, x.attrs, vec![Part::Expr(*x.left), Part::Expr(*x.right)]),
        Expr::Binary(x) => (Kind::Binary, x.attrs, vec![Part::Expr(*x.left), Part::Operator(x.op), Part::Expr(*x.right)]),
        other => return Err(other),
    };
    Ok(Opened { kind, attrs, parts })
}

/// `syn::Expr`: casts and indexing.
#[verifier::external_body]
fn expr_conversions(value: Expr) -> (r: Result<Opened, Expr>)
    ensures
        match r {
            Ok(opened) => group(Part::Expr(value)) == Group::ExprConversions && opened == holds(Part::Expr(value)),
            Err(rest) => group(Part::Expr(value)) != Group::ExprConversions && rest == value,
        },
{
    let (kind, attrs, parts) = match value {
        Expr::Cast(x) => (Kind::Cast, x.attrs, vec![Part::Expr(*x.expr), Part::Type(*x.ty)]),
        Expr::Index(x) => (Kind::Index, x.attrs, vec![Part::Expr(*x.expr), Part::Expr(*x.index)]),
        other => return Err(other),
    };
    Ok(Opened { kind, attrs, parts })
}

/// `syn::Expr`: calls.
#[verifier::external_body]
fn expr_calls(value: Expr) -> (r: Result<Opened, Expr>)
    ensures
        match r {
            Ok(opened) => group(Part::Expr(value)) == Group::ExprCalls && opened == holds(Part::Expr(value)),
            Err(rest) => group(Part::Expr(value)) != Group::ExprCalls && rest == value,
        },
{
    let (kind, attrs, parts) = match value {
        Expr::Call(x) => (Kind::Call, x.attrs, vec![Part::Expr(*x.func), Part::List(x.args.into_iter().map(Part::Expr).collect())]),
        other => return Err(other),
    };
    Ok(Opened { kind, attrs, parts })
}

/// `syn::Expr`: method calls and fields.
#[verifier::external_body]
fn expr_members(value: Expr) -> (r: Result<Opened, Expr>)
    ensures
        match r {
            Ok(opened) => group(Part::Expr(value)) == Group::ExprMembers && opened == holds(Part::Expr(value)),
            Err(rest) => group(Part::Expr(value)) != Group::ExprMembers && rest == value,
        },
{
    let (kind, attrs, parts) = match value {
        Expr::MethodCall(x) => (Kind::MethodCall, x.attrs, vec![Part::Expr(*x.receiver), Part::Name(x.method), Part::List(x.turbofish.into_iter().flat_map(|y| y.args).map(Part::Arg).collect()), Part::List(x.args.into_iter().map(Part::Expr).collect())]),
        Expr::Field(x) => (Kind::FieldAccess, x.attrs, vec![Part::Expr(*x.base), Part::Member(x.member)]),
        other => return Err(other),
    };
    Ok(Opened { kind, attrs, parts })
}

/// `syn::Expr`: expressions in brackets.
#[verifier::external_body]
fn expr_wrapped(value: Expr) -> (r: Result<Opened, Expr>)
    ensures
        match r {
            Ok(opened) => group(Part::Expr(value)) == Group::ExprWrapped && opened == holds(Part::Expr(value)),
            Err(rest) => group(Part::Expr(value)) != Group::ExprWrapped && rest == value,
        },
{
    let (kind, attrs, parts) = match value {
        Expr::Await(x) => (Kind::Await, x.attrs, vec![Part::Expr(*x.base)]),
        Expr::Group(x) => (Kind::Group, x.attrs, vec![Part::Expr(*x.expr)]),
        Expr::Paren(x) => (Kind::Paren, x.attrs, vec![Part::Expr(*x.expr)]),
        other => return Err(other),
    };
    Ok(Opened { kind, attrs, parts })
}

/// `syn::Expr`: references and `?`.
#[verifier::external_body]
fn expr_borrowed(value: Expr) -> (r: Result<Opened, Expr>)
    ensures
        match r {
            Ok(opened) => group(Part::Expr(value)) == Group::ExprBorrowed && opened == holds(Part::Expr(value)),
            Err(rest) => group(Part::Expr(value)) != Group::ExprBorrowed && rest == value,
        },
{
    let (kind, attrs, parts) = match value {
        Expr::RawAddr(x) => (Kind::RawAddr, x.attrs, vec![Part::Expr(*x.expr)]),
        Expr::Reference(x) => (Kind::Reference, x.attrs, vec![Part::Expr(*x.expr)]),
        Expr::Try(x) => (Kind::Try, x.attrs, vec![Part::Expr(*x.expr)]),
        other => return Err(other),
    };
    Ok(Opened { kind, attrs, parts })
}

/// `syn::Expr`: block expressions.
#[verifier::external_body]
fn expr_blocks(value: Expr) -> (r: Result<Opened, Expr>)
    ensures
        match r {
            Ok(opened) => group(Part::Expr(value)) == Group::ExprBlocks && opened == holds(Part::Expr(value)),
            Err(rest) => group(Part::Expr(value)) != Group::ExprBlocks && rest == value,
        },
{
    let (kind, attrs, parts) = match value {
        Expr::Async(x) => (Kind::Async, x.attrs, vec![Part::Block(x.block)]),
        Expr::Const(x) => (Kind::ConstBlock, x.attrs, vec![Part::Block(x.block)]),
        Expr::TryBlock(x) => (Kind::TryBlock, x.attrs, vec![Part::Block(x.block)]),
        other => return Err(other),
    };
    Ok(Opened { kind, attrs, parts })
}

/// `syn::Expr`: unsafe and labelled blocks.
#[verifier::external_body]
fn expr_labelled(value: Expr) -> (r: Result<Opened, Expr>)
    ensures
        match r {
            Ok(opened) => group(Part::Expr(value)) == Group::ExprLabelled && opened == holds(Part::Expr(value)),
            Err(rest) => group(Part::Expr(value)) != Group::ExprLabelled && rest == value,
        },
{
    let (kind, attrs, parts) = match value {
        Expr::Unsafe(x) => (Kind::Unsafe, x.attrs, vec![Part::Block(x.block)]),
        Expr::Block(x) => (Kind::BlockExpr, x.attrs, vec![Part::List(x.label.into_iter().map(|y| Part::Name(y.name.ident)).collect()), Part::Block(x.block)]),
        other => return Err(other),
    };
    Ok(Opened { kind, attrs, parts })
}

/// `syn::Expr`: `if` and `let`.
#[verifier::external_body]
fn expr_branches(value: Expr) -> (r: Result<Opened, Expr>)
    ensures
        match r {
            Ok(opened) => group(Part::Expr(value)) == Group::ExprBranches && opened == holds(Part::Expr(value)),
            Err(rest) => group(Part::Expr(value)) != Group::ExprBranches && rest == value,
        },
{
    let (kind, attrs, parts) = match value {
        Expr::If(x) => (Kind::If, x.attrs, vec![Part::Expr(*x.cond), Part::Block(x.then_branch), Part::List(x.else_branch.into_iter().map(|y| Part::Expr(*y.1)).collect())]),
        Expr::Let(x) => (Kind::Let, x.attrs, vec![Part::Pat(*x.pat), Part::Expr(*x.expr)]),
        other => return Err(other),
    };
    Ok(Opened { kind, attrs, parts })
}

/// `syn::Expr`: `match`.
#[verifier::external_body]
fn expr_match(value: Expr) -> (r: Result<Opened, Expr>)
    ensures
        match r {
            Ok(opened) => group(Part::Expr(value)) == Group::ExprMatch && opened == holds(Part::Expr(value)),
            Err(rest) => group(Part::Expr(value)) != Group::ExprMatch && rest == value,
        },
{
    let (kind, attrs, parts) = match value {
        Expr::Match(x) => (Kind::Match, x.attrs, vec![Part::Expr(*x.expr), Part::List(x.arms.into_iter().map(Part::Arm).collect())]),
        other => return Err(other),
    };
    Ok(Opened { kind, attrs, parts })
}

/// `syn::Expr`: loops over a collection, or without a condition.
#[verifier::external_body]
fn expr_loops(value: Expr) -> (r: Result<Opened, Expr>)
    ensures
        match r {
            Ok(opened) => group(Part::Expr(value)) == Group::ExprLoops && opened == holds(Part::Expr(value)),
            Err(rest) => group(Part::Expr(value)) != Group::ExprLoops && rest == value,
        },
{
    let (kind, attrs, parts) = match value {
        Expr::ForLoop(x) => (Kind::ForLoop, x.attrs, vec![Part::List(x.label.into_iter().map(|y| Part::Name(y.name.ident)).collect()), Part::Pat(*x.pat), Part::Expr(*x.expr), Part::Block(x.body)]),
        Expr::Loop(x) => (Kind::Loop, x.attrs, vec![Part::List(x.label.into_iter().map(|y| Part::Name(y.name.ident)).collect()), Part::Block(x.body)]),
        other => return Err(other),
    };
    Ok(Opened { kind, attrs, parts })
}

/// `syn::Expr`: loops with a condition.
#[verifier::external_body]
fn expr_while(value: Expr) -> (r: Result<Opened, Expr>)
    ensures
        match r {
            Ok(opened) => group(Part::Expr(value)) == Group::ExprWhile && opened == holds(Part::Expr(value)),
            Err(rest) => group(Part::Expr(value)) != Group::ExprWhile && rest == value,
        },
{
    let (kind, attrs, parts) = match value {
        Expr::While(x) => (Kind::While, x.attrs, vec![Part::List(x.label.into_iter().map(|y| Part::Name(y.name.ident)).collect()), Part::Expr(*x.cond), Part::Block(x.body)]),
        other => return Err(other),
    };
    Ok(Opened { kind, attrs, parts })
}

/// `syn::Expr`: `break` and `continue`.
#[verifier::external_body]
fn expr_jumps(value: Expr) -> (r: Result<Opened, Expr>)
    ensures
        match r {
            Ok(opened) => group(Part::Expr(value)) == Group::ExprJumps && opened == holds(Part::Expr(value)),
            Err(rest) => group(Part::Expr(value)) != Group::ExprJumps && rest == value,
        },
{
    let (kind, attrs, parts) = match value {
        Expr::Break(x) => (Kind::Break, x.attrs, vec![Part::List(x.label.into_iter().map(|y| Part::Name(y.ident)).collect()), Part::List(x.expr.into_iter().map(|y| Part::Expr(*y)).collect())]),
        Expr::Continue(x) => (Kind::Continue, x.attrs, vec![Part::List(x.label.into_iter().map(|y| Part::Name(y.ident)).collect())]),
        other => return Err(other),
    };
    Ok(Opened { kind, attrs, parts })
}

/// `syn::Expr`: `return` and `yield`.
#[verifier::external_body]
fn expr_returns(value: Expr) -> (r: Result<Opened, Expr>)
    ensures
        match r {
            Ok(opened) => group(Part::Expr(value)) == Group::ExprReturns && opened == holds(Part::Expr(value)),
            Err(rest) => group(Part::Expr(value)) != Group::ExprReturns && rest == value,
        },
{
    let (kind, attrs, parts) = match value {
        Expr::Return(x) => (Kind::Return, x.attrs, vec![Part::List(x.expr.into_iter().map(|y| Part::Expr(*y)).collect())]),
        Expr::Yield(x) => (Kind::Yield, x.attrs, vec![Part::List(x.expr.into_iter().map(|y| Part::Expr(*y)).collect())]),
        other => return Err(other),
    };
    Ok(Opened { kind, attrs, parts })
}

/// `syn::Expr`: collections.
#[verifier::external_body]
fn expr_collections(value: Expr) -> (r: Result<Opened, Expr>)
    ensures
        match r {
            Ok(opened) => group(Part::Expr(value)) == Group::ExprCollections && opened == holds(Part::Expr(value)),
            Err(rest) => group(Part::Expr(value)) != Group::ExprCollections && rest == value,
        },
{
    let (kind, attrs, parts) = match value {
        Expr::Array(x) => (Kind::Array, x.attrs, x.elems.into_iter().map(Part::Expr).collect()),
        Expr::Tuple(x) => (Kind::Tuple, x.attrs, x.elems.into_iter().map(Part::Expr).collect()),
        Expr::Repeat(x) => (Kind::Repeat, x.attrs, vec![Part::Expr(*x.expr), Part::Expr(*x.len)]),
        Expr::Infer(x) => (Kind::Infer, x.attrs, Vec::new()),
        other => return Err(other),
    };
    Ok(Opened { kind, attrs, parts })
}

/// `syn::Expr`: closures.
#[verifier::external_body]
fn expr_closure(value: Expr) -> (r: Result<Opened, Expr>)
    ensures
        match r {
            Ok(opened) => group(Part::Expr(value)) == Group::ExprClosure && opened == holds(Part::Expr(value)),
            Err(rest) => group(Part::Expr(value)) != Group::ExprClosure && rest == value,
        },
{
    let (kind, attrs, parts) = match value {
        Expr::Closure(x) => (Kind::Closure, x.attrs, vec![Part::List(x.inputs.into_iter().map(Part::Pat).collect()), Part::Output(x.output), Part::Expr(*x.body)]),
        other => return Err(other),
    };
    Ok(Opened { kind, attrs, parts })
}

/// `syn::Expr`: struct literals.
#[verifier::external_body]
fn expr_struct(value: Expr) -> (r: Result<Opened, Expr>)
    ensures
        match r {
            Ok(opened) => group(Part::Expr(value)) == Group::ExprStruct && opened == holds(Part::Expr(value)),
            Err(rest) => group(Part::Expr(value)) != Group::ExprStruct && rest == value,
        },
{
    let (kind, attrs, parts) = match value {
        Expr::Struct(x) => (Kind::StructExpr, x.attrs, vec![Part::List(x.qself.into_iter().map(|y| Part::Type(*y.ty)).collect()), Part::Path(x.path), Part::List(x.fields.into_iter().map(Part::FieldValue).collect()), Part::List(x.dot2_token.into_iter().map(Part::Dots).collect()), Part::List(x.rest.into_iter().map(|y| Part::Expr(*y)).collect())]),
        other => return Err(other),
    };
    Ok(Opened { kind, attrs, parts })
}

/// `syn::Expr`: literals, macros and paths.
#[verifier::external_body]
fn expr_leaves(value: Expr) -> (r: Result<Opened, Expr>)
    ensures
        match r {
            Ok(opened) => group(Part::Expr(value)) == Group::ExprLeaves && opened == holds(Part::Expr(value)),
            Err(rest) => group(Part::Expr(value)) != Group::ExprLeaves && rest == value,
        },
{
    let (kind, attrs, parts) = match value {
        Expr::Lit(x) => (Kind::Lit, x.attrs, vec![Part::Lit(x.lit)]),
        Expr::Macro(x) => (Kind::MacroExpr, x.attrs, vec![Part::Macro(x.mac)]),
        Expr::Path(x) => (Kind::PathExpr, x.attrs, vec![Part::List(x.qself.into_iter().map(|y| Part::Type(*y.ty)).collect()), Part::Path(x.path)]),
        other => return Err(other),
    };
    Ok(Opened { kind, attrs, parts })
}

/// `syn::Expr`: ranges.
#[verifier::external_body]
fn expr_range(value: Expr) -> (r: Result<Opened, Expr>)
    ensures
        match r {
            Ok(opened) => group(Part::Expr(value)) == Group::ExprRange && opened == holds(Part::Expr(value)),
            Err(rest) => group(Part::Expr(value)) != Group::ExprRange && rest == value,
        },
{
    let (kind, attrs, parts) = match value {
        Expr::Range(x) => (Kind::Range { closed: matches!(x.limits, syn::RangeLimits::Closed(_)) }, x.attrs, vec![Part::List(x.start.into_iter().map(|y| Part::Expr(*y)).collect()), Part::List(x.end.into_iter().map(|y| Part::Expr(*y)).collect())]),
        other => return Err(other),
    };
    Ok(Opened { kind, attrs, parts })
}

/// `syn::Expr`: unary operators.
#[verifier::external_body]
fn expr_unary(value: Expr) -> (r: Result<Opened, Expr>)
    ensures
        match r {
            Ok(opened) => group(Part::Expr(value)) == Group::ExprUnary && opened == holds(Part::Expr(value)),
            Err(rest) => group(Part::Expr(value)) != Group::ExprUnary && rest == value,
        },
{
    let (kind, attrs, parts) = match value {
        Expr::Unary(x) if matches!(x.op, UnOp::Neg(_)) => (Kind::Negate, x.attrs, vec![Part::Expr(*x.expr)]),
        Expr::Unary(x) if matches!(x.op, UnOp::Not(_)) => (Kind::Not, x.attrs, vec![Part::Expr(*x.expr)]),
        Expr::Unary(x) => (Kind::Deref, x.attrs, vec![Part::Expr(*x.expr)]),
        other => return Err(other),
    };
    Ok(Opened { kind, attrs, parts })
}

/// `syn::Type`: types in brackets.
#[verifier::external_body]
fn type_wrapped(value: Type) -> (r: Result<Opened, Type>)
    ensures
        match r {
            Ok(opened) => group(Part::Type(value)) == Group::TypeWrapped && opened == holds(Part::Type(value)),
            Err(rest) => group(Part::Type(value)) != Group::TypeWrapped && rest == value,
        },
{
    let (kind, attrs, parts) = match value {
        Type::Group(x) => (Kind::TypeGroup, x.attrs, vec![Part::Type(*x.elem)]),
        Type::Paren(x) => (Kind::TypeParen, x.attrs, vec![Part::Type(*x.elem)]),
        Type::Slice(x) => (Kind::TypeSlice, x.attrs, vec![Part::Type(*x.elem)]),
        other => return Err(other),
    };
    Ok(Opened { kind, attrs, parts })
}

/// `syn::Type`: pointers and references.
#[verifier::external_body]
fn type_borrowed(value: Type) -> (r: Result<Opened, Type>)
    ensures
        match r {
            Ok(opened) => group(Part::Type(value)) == Group::TypeBorrowed && opened == holds(Part::Type(value)),
            Err(rest) => group(Part::Type(value)) != Group::TypeBorrowed && rest == value,
        },
{
    let (kind, attrs, parts) = match value {
        Type::Ptr(x) => (Kind::TypePtr, x.attrs, vec![Part::Type(*x.elem)]),
        Type::Reference(x) => (Kind::TypeReference { mutable: x.mutability.is_some() }, x.attrs, vec![Part::Type(*x.elem)]),
        other => return Err(other),
    };
    Ok(Opened { kind, attrs, parts })
}

/// `syn::Type`: arrays and function pointers.
#[verifier::external_body]
fn type_composed(value: Type) -> (r: Result<Opened, Type>)
    ensures
        match r {
            Ok(opened) => group(Part::Type(value)) == Group::TypeComposed && opened == holds(Part::Type(value)),
            Err(rest) => group(Part::Type(value)) != Group::TypeComposed && rest == value,
        },
{
    let (kind, attrs, parts) = match value {
        Type::Array(x) => (Kind::TypeArray, x.attrs, vec![Part::Type(*x.elem), Part::Expr(x.len)]),
        Type::FnPtr(x) => (Kind::TypeFnPtr, x.attrs, vec![Part::List(x.inputs.into_iter().map(|y| Part::Type(y.ty)).collect()), Part::Output(x.output)]),
        other => return Err(other),
    };
    Ok(Opened { kind, attrs, parts })
}

/// `syn::Type`: paths and macros.
#[verifier::external_body]
fn type_named(value: Type) -> (r: Result<Opened, Type>)
    ensures
        match r {
            Ok(opened) => group(Part::Type(value)) == Group::TypeNamed && opened == holds(Part::Type(value)),
            Err(rest) => group(Part::Type(value)) != Group::TypeNamed && rest == value,
        },
{
    let (kind, attrs, parts) = match value {
        Type::Path(x) => (Kind::TypePath, x.attrs, vec![Part::List(x.qself.into_iter().map(|y| Part::Type(*y.ty)).collect()), Part::Path(x.path)]),
        Type::Macro(x) => (Kind::TypeMacro, x.attrs, vec![Part::Macro(x.mac)]),
        other => return Err(other),
    };
    Ok(Opened { kind, attrs, parts })
}

/// `syn::Type`: lists of bounds.
#[verifier::external_body]
fn type_bounded(value: Type) -> (r: Result<Opened, Type>)
    ensures
        match r {
            Ok(opened) => group(Part::Type(value)) == Group::TypeBounded && opened == holds(Part::Type(value)),
            Err(rest) => group(Part::Type(value)) != Group::TypeBounded && rest == value,
        },
{
    let (kind, attrs, parts) = match value {
        Type::ImplTrait(x) => (Kind::TypeImplTrait, x.attrs, x.bounds.into_iter().map(Part::Bound).collect()),
        Type::TraitObject(x) => (Kind::TypeTraitObject, x.attrs, x.bounds.into_iter().map(Part::Bound).collect()),
        other => return Err(other),
    };
    Ok(Opened { kind, attrs, parts })
}

/// `syn::Type`: tuples, and types without parts.
#[verifier::external_body]
fn type_rest(value: Type) -> (r: Result<Opened, Type>)
    ensures
        match r {
            Ok(opened) => group(Part::Type(value)) == Group::TypeRest && opened == holds(Part::Type(value)),
            Err(rest) => group(Part::Type(value)) != Group::TypeRest && rest == value,
        },
{
    let (kind, attrs, parts) = match value {
        Type::Tuple(x) => (Kind::TypeTuple, x.attrs, x.elems.into_iter().map(Part::Type).collect()),
        Type::Infer(x) => (Kind::TypeInfer, x.attrs, Vec::new()),
        Type::Never(x) => (Kind::TypeNever, x.attrs, Vec::new()),
        other => return Err(other),
    };
    Ok(Opened { kind, attrs, parts })
}

/// `syn::Pat`: patterns with a guard or a name.
#[verifier::external_body]
fn pat_wrapped(value: Pat) -> (r: Result<Opened, Pat>)
    ensures
        match r {
            Ok(opened) => group(Part::Pat(value)) == Group::PatWrapped && opened == holds(Part::Pat(value)),
            Err(rest) => group(Part::Pat(value)) != Group::PatWrapped && rest == value,
        },
{
    let (kind, attrs, parts) = match value {
        Pat::Guard(x) => (Kind::PatGuard, x.attrs, vec![Part::Pat(*x.pat), Part::Expr(*x.guard)]),
        Pat::Ident(x) => (Kind::PatIdent, x.attrs, vec![Part::Name(x.ident), Part::List(x.subpat.into_iter().map(|y| Part::Pat(*y.1)).collect())]),
        other => return Err(other),
    };
    Ok(Opened { kind, attrs, parts })
}

/// `syn::Pat`: patterns in brackets or behind a reference.
#[verifier::external_body]
fn pat_bracketed(value: Pat) -> (r: Result<Opened, Pat>)
    ensures
        match r {
            Ok(opened) => group(Part::Pat(value)) == Group::PatBracketed && opened == holds(Part::Pat(value)),
            Err(rest) => group(Part::Pat(value)) != Group::PatBracketed && rest == value,
        },
{
    let (kind, attrs, parts) = match value {
        Pat::Paren(x) => (Kind::PatParen, x.attrs, vec![Part::Pat(*x.pat)]),
        Pat::Reference(x) => (Kind::PatReference, x.attrs, vec![Part::Pat(*x.pat)]),
        other => return Err(other),
    };
    Ok(Opened { kind, attrs, parts })
}

/// `syn::Pat`: lists of patterns.
#[verifier::external_body]
fn pat_lists(value: Pat) -> (r: Result<Opened, Pat>)
    ensures
        match r {
            Ok(opened) => group(Part::Pat(value)) == Group::PatLists && opened == holds(Part::Pat(value)),
            Err(rest) => group(Part::Pat(value)) != Group::PatLists && rest == value,
        },
{
    let (kind, attrs, parts) = match value {
        Pat::Or(x) => (Kind::PatOr, x.attrs, x.cases.into_iter().map(Part::Pat).collect()),
        Pat::Slice(x) => (Kind::PatSlice, x.attrs, x.elems.into_iter().map(Part::Pat).collect()),
        Pat::Tuple(x) => (Kind::PatTuple, x.attrs, x.elems.into_iter().map(Part::Pat).collect()),
        Pat::Type(x) => (Kind::PatType, x.attrs, vec![Part::Pat(*x.pat), Part::Type(*x.ty)]),
        other => return Err(other),
    };
    Ok(Opened { kind, attrs, parts })
}

/// `syn::Pat`: patterns that are values.
#[verifier::external_body]
fn pat_values(value: Pat) -> (r: Result<Opened, Pat>)
    ensures
        match r {
            Ok(opened) => group(Part::Pat(value)) == Group::PatValues && opened == holds(Part::Pat(value)),
            Err(rest) => group(Part::Pat(value)) != Group::PatValues && rest == value,
        },
{
    let (kind, attrs, parts) = match value {
        Pat::Const(x) => (Kind::PatConst, x.attrs, vec![Part::Block(x.block)]),
        Pat::Lit(x) => (Kind::PatLit, x.attrs, vec![Part::Lit(x.lit)]),
        Pat::Macro(x) => (Kind::PatMacro, x.attrs, vec![Part::Macro(x.mac)]),
        Pat::Path(x) => (Kind::PatPath, x.attrs, vec![Part::List(x.qself.into_iter().map(|y| Part::Type(*y.ty)).collect()), Part::Path(x.path)]),
        other => return Err(other),
    };
    Ok(Opened { kind, attrs, parts })
}

/// `syn::Pat`: structs.
#[verifier::external_body]
fn pat_struct(value: Pat) -> (r: Result<Opened, Pat>)
    ensures
        match r {
            Ok(opened) => group(Part::Pat(value)) == Group::PatStruct && opened == holds(Part::Pat(value)),
            Err(rest) => group(Part::Pat(value)) != Group::PatStruct && rest == value,
        },
{
    let (kind, attrs, parts) = match value {
        Pat::Struct(x) => (Kind::PatStruct, x.attrs, vec![Part::List(x.qself.into_iter().map(|y| Part::Type(*y.ty)).collect()), Part::Path(x.path), Part::List(x.fields.into_iter().map(Part::FieldPat).collect())]),
        other => return Err(other),
    };
    Ok(Opened { kind, attrs, parts })
}

/// `syn::Pat`: tuple structs.
#[verifier::external_body]
fn pat_tuple_struct(value: Pat) -> (r: Result<Opened, Pat>)
    ensures
        match r {
            Ok(opened) => group(Part::Pat(value)) == Group::PatTupleStruct && opened == holds(Part::Pat(value)),
            Err(rest) => group(Part::Pat(value)) != Group::PatTupleStruct && rest == value,
        },
{
    let (kind, attrs, parts) = match value {
        Pat::TupleStruct(x) => (Kind::PatTupleStruct, x.attrs, vec![Part::List(x.qself.into_iter().map(|y| Part::Type(*y.ty)).collect()), Part::Path(x.path), Part::List(x.elems.into_iter().map(Part::Pat).collect())]),
        other => return Err(other),
    };
    Ok(Opened { kind, attrs, parts })
}

/// `syn::Pat`: ranges, `..` and `_`.
#[verifier::external_body]
fn pat_rest(value: Pat) -> (r: Result<Opened, Pat>)
    ensures
        match r {
            Ok(opened) => group(Part::Pat(value)) == Group::PatRest && opened == holds(Part::Pat(value)),
            Err(rest) => group(Part::Pat(value)) != Group::PatRest && rest == value,
        },
{
    let (kind, attrs, parts) = match value {
        Pat::Range(x) => (Kind::PatRange, x.attrs, vec![Part::List(x.start.into_iter().map(|y| Part::Expr(*y)).collect()), Part::List(x.end.into_iter().map(|y| Part::Expr(*y)).collect())]),
        Pat::Rest(x) => (Kind::PatRest, x.attrs, Vec::new()),
        Pat::Wild(x) => (Kind::PatWild, x.attrs, Vec::new()),
        other => return Err(other),
    };
    Ok(Opened { kind, attrs, parts })
}

/// `syn::Item`: constants, functions and statics.
#[verifier::external_body]
fn item_values(value: Item) -> (r: Result<Opened, Item>)
    ensures
        match r {
            Ok(opened) => group(Part::Item(value)) == Group::ItemValues && opened == holds(Part::Item(value)),
            Err(rest) => group(Part::Item(value)) != Group::ItemValues && rest == value,
        },
{
    let (kind, attrs, parts) = match value {
        Item::Const(x) => (Kind::ItemConst, x.attrs, vec![Part::Name(x.ident), Part::Generics(x.generics), Part::Type(*x.ty), Part::Expr(*x.expr)]),
        Item::Fn(x) => (Kind::ItemFn, x.attrs, vec![Part::Signature(x.sig), Part::List(vec![Part::Block(*x.block)])]),
        Item::Static(x) => (Kind::ItemStatic, x.attrs, vec![Part::Name(x.ident), Part::Type(*x.ty), Part::Expr(*x.expr)]),
        other => return Err(other),
    };
    Ok(Opened { kind, attrs, parts })
}

/// `syn::Item`: enums and structs.
#[verifier::external_body]
fn item_types(value: Item) -> (r: Result<Opened, Item>)
    ensures
        match r {
            Ok(opened) => group(Part::Item(value)) == Group::ItemTypes && opened == holds(Part::Item(value)),
            Err(rest) => group(Part::Item(value)) != Group::ItemTypes && rest == value,
        },
{
    let (kind, attrs, parts) = match value {
        Item::Enum(x) => (Kind::ItemEnum, x.attrs, vec![Part::Name(x.ident), Part::Generics(x.generics), Part::List(x.variants.into_iter().map(Part::Variant).collect())]),
        Item::Struct(x) => (Kind::ItemStruct, x.attrs, vec![Part::Name(x.ident), Part::Generics(x.generics), Part::Fields(x.fields)]),
        other => return Err(other),
    };
    Ok(Opened { kind, attrs, parts })
}

/// `syn::Item`: type aliases and unions.
#[verifier::external_body]
fn item_aliases(value: Item) -> (r: Result<Opened, Item>)
    ensures
        match r {
            Ok(opened) => group(Part::Item(value)) == Group::ItemAliases && opened == holds(Part::Item(value)),
            Err(rest) => group(Part::Item(value)) != Group::ItemAliases && rest == value,
        },
{
    let (kind, attrs, parts) = match value {
        Item::Type(x) => (Kind::ItemType, x.attrs, vec![Part::Name(x.ident), Part::Generics(x.generics), Part::Type(*x.ty)]),
        Item::Union(x) => (Kind::ItemUnion, x.attrs, vec![Part::Name(x.ident), Part::Generics(x.generics), Part::Fields(Fields::Named(x.fields))]),
        other => return Err(other),
    };
    Ok(Opened { kind, attrs, parts })
}

/// `syn::Item`: implementations.
#[verifier::external_body]
fn item_impl(value: Item) -> (r: Result<Opened, Item>)
    ensures
        match r {
            Ok(opened) => group(Part::Item(value)) == Group::ItemImpl && opened == holds(Part::Item(value)),
            Err(rest) => group(Part::Item(value)) != Group::ItemImpl && rest == value,
        },
{
    let (kind, attrs, parts) = match value {
        Item::Impl(x) => (Kind::ItemImpl, x.attrs, vec![Part::Generics(x.generics), Part::List(x.trait_.into_iter().map(|y| Part::Path(y.0)).collect()), Part::Type(*x.self_ty), Part::List(x.items.into_iter().map(Part::ImplItem).collect())]),
        other => return Err(other),
    };
    Ok(Opened { kind, attrs, parts })
}

/// `syn::Item`: traits.
#[verifier::external_body]
fn item_trait(value: Item) -> (r: Result<Opened, Item>)
    ensures
        match r {
            Ok(opened) => group(Part::Item(value)) == Group::ItemTrait && opened == holds(Part::Item(value)),
            Err(rest) => group(Part::Item(value)) != Group::ItemTrait && rest == value,
        },
{
    let (kind, attrs, parts) = match value {
        Item::Trait(x) => (Kind::ItemTrait, x.attrs, vec![Part::Name(x.ident), Part::Generics(x.generics), Part::List(x.supertraits.into_iter().map(Part::Bound).collect()), Part::List(x.items.into_iter().map(Part::TraitItem).collect())]),
        other => return Err(other),
    };
    Ok(Opened { kind, attrs, parts })
}

/// `syn::Item`: foreign modules and trait aliases.
#[verifier::external_body]
fn item_groups(value: Item) -> (r: Result<Opened, Item>)
    ensures
        match r {
            Ok(opened) => group(Part::Item(value)) == Group::ItemGroups && opened == holds(Part::Item(value)),
            Err(rest) => group(Part::Item(value)) != Group::ItemGroups && rest == value,
        },
{
    let (kind, attrs, parts) = match value {
        Item::ForeignMod(x) => (Kind::ItemForeignMod, x.attrs, vec![Part::List(x.items.into_iter().map(Part::ForeignItem).collect())]),
        Item::TraitAlias(x) => (Kind::ItemTraitAlias, x.attrs, vec![Part::Name(x.ident), Part::Generics(x.generics), Part::List(x.bounds.into_iter().map(Part::Bound).collect())]),
        other => return Err(other),
    };
    Ok(Opened { kind, attrs, parts })
}

/// `syn::Item`: modules, imports, macros and `extern crate`.
#[verifier::external_body]
fn item_rest(value: Item) -> (r: Result<Opened, Item>)
    ensures
        match r {
            Ok(opened) => group(Part::Item(value)) == Group::ItemRest && opened == holds(Part::Item(value)),
            Err(rest) => group(Part::Item(value)) != Group::ItemRest && rest == value,
        },
{
    let (kind, attrs, parts) = match value {
        Item::Mod(x) => (Kind::ItemMod, x.attrs, vec![Part::Name(x.ident), Part::List(x.content.into_iter().flat_map(|y| y.1).map(Part::Item).collect())]),
        Item::Use(x) => (Kind::ItemUse, x.attrs, vec![Part::UseTree(x.tree)]),
        Item::Macro(x) => (Kind::ItemMacro, x.attrs, vec![Part::Macro(x.mac)]),
        Item::ExternCrate(x) => (Kind::ItemExternCrate, x.attrs, Vec::new()),
        other => return Err(other),
    };
    Ok(Opened { kind, attrs, parts })
}

/// `syn::ImplItem`: constants.
#[verifier::external_body]
fn impl_item_const(value: ImplItem) -> (r: Result<Opened, ImplItem>)
    ensures
        match r {
            Ok(opened) => group(Part::ImplItem(value)) == Group::ImplItemConst && opened == holds(Part::ImplItem(value)),
            Err(rest) => group(Part::ImplItem(value)) != Group::ImplItemConst && rest == value,
        },
{
    let (kind, attrs, parts) = match value {
        ImplItem::Const(x) => (Kind::ImplConst, x.attrs, vec![Part::Name(x.ident), Part::Generics(x.generics), Part::Type(x.ty), Part::Expr(x.expr)]),
        other => return Err(other),
    };
    Ok(Opened { kind, attrs, parts })
}

/// `syn::ImplItem`: functions, types and macros.
#[verifier::external_body]
fn impl_item(value: ImplItem) -> (r: Result<Opened, ImplItem>)
    ensures
        match r {
            Ok(opened) => group(Part::ImplItem(value)) == Group::ImplItem && opened == holds(Part::ImplItem(value)),
            Err(rest) => group(Part::ImplItem(value)) != Group::ImplItem && rest == value,
        },
{
    let (kind, attrs, parts) = match value {
        ImplItem::Fn(x) => (Kind::ImplFn, x.attrs, vec![Part::Signature(x.sig), Part::List(vec![Part::Block(x.block)])]),
        ImplItem::Type(x) => (Kind::ImplType, x.attrs, vec![Part::Name(x.ident), Part::Generics(x.generics), Part::Type(x.ty)]),
        ImplItem::Macro(x) => (Kind::ImplMacro, x.attrs, vec![Part::Macro(x.mac)]),
        other => return Err(other),
    };
    Ok(Opened { kind, attrs, parts })
}

/// `syn::TraitItem`: constants and functions.
#[verifier::external_body]
fn trait_item_values(value: TraitItem) -> (r: Result<Opened, TraitItem>)
    ensures
        match r {
            Ok(opened) => group(Part::TraitItem(value)) == Group::TraitItemValues && opened == holds(Part::TraitItem(value)),
            Err(rest) => group(Part::TraitItem(value)) != Group::TraitItemValues && rest == value,
        },
{
    let (kind, attrs, parts) = match value {
        TraitItem::Const(x) => (Kind::TraitConst, x.attrs, vec![Part::Name(x.ident), Part::Generics(x.generics), Part::Type(x.ty), Part::List(x.default.into_iter().map(|y| Part::Expr(y.1)).collect())]),
        TraitItem::Fn(x) => (Kind::TraitFn, x.attrs, vec![Part::Signature(x.sig), Part::List(x.default.into_iter().map(Part::Block).collect())]),
        other => return Err(other),
    };
    Ok(Opened { kind, attrs, parts })
}

/// `syn::TraitItem`: types and macros.
#[verifier::external_body]
fn trait_item_rest(value: TraitItem) -> (r: Result<Opened, TraitItem>)
    ensures
        match r {
            Ok(opened) => group(Part::TraitItem(value)) == Group::TraitItemRest && opened == holds(Part::TraitItem(value)),
            Err(rest) => group(Part::TraitItem(value)) != Group::TraitItemRest && rest == value,
        },
{
    let (kind, attrs, parts) = match value {
        TraitItem::Type(x) => (Kind::TraitType, x.attrs, vec![Part::Name(x.ident), Part::Generics(x.generics), Part::List(x.bounds.into_iter().map(Part::Bound).collect()), Part::List(x.default.into_iter().map(|y| Part::Type(y.1)).collect())]),
        TraitItem::Macro(x) => (Kind::TraitMacro, x.attrs, vec![Part::Macro(x.mac)]),
        other => return Err(other),
    };
    Ok(Opened { kind, attrs, parts })
}

/// `syn::ForeignItem`.
#[verifier::external_body]
fn foreign_item(value: ForeignItem) -> (opened: Opened)
    ensures
        opened == holds(Part::ForeignItem(value)),
{
    let (kind, attrs, parts) = match value {
        ForeignItem::Fn(x) => (Kind::ForeignFn, x.attrs, vec![Part::Signature(x.sig)]),
        ForeignItem::Static(x) => (Kind::ForeignStatic, x.attrs, vec![Part::Name(x.ident), Part::Type(*x.ty)]),
        ForeignItem::Type(x) => (Kind::ForeignType, x.attrs, vec![Part::Name(x.ident), Part::Generics(x.generics)]),
        ForeignItem::Macro(x) => (Kind::ForeignMacro, x.attrs, vec![Part::Macro(x.mac)]),
        _ => (Kind::ForeignOther, Vec::new(), Vec::new()),
    };
    Opened { kind, attrs, parts }
}

/// `syn::Stmt`: items, expressions and macros.
#[verifier::external_body]
fn stmt_plain(value: Stmt) -> (r: Result<Opened, Stmt>)
    ensures
        match r {
            Ok(opened) => group(Part::Stmt(value)) == Group::StmtPlain && opened == holds(Part::Stmt(value)),
            Err(rest) => group(Part::Stmt(value)) != Group::StmtPlain && rest == value,
        },
{
    let (kind, attrs, parts) = match value {
        Stmt::Item(x) => (Kind::StmtItem, Vec::new(), vec![Part::Item(x)]),
        Stmt::Expr(x, semi) => (Kind::StmtExpr { semi: semi.is_some() }, Vec::new(), vec![Part::Expr(x)]),
        Stmt::Macro(x) => (Kind::StmtMacro, x.attrs, vec![Part::Macro(x.mac)]),
        other => return Err(other),
    };
    Ok(Opened { kind, attrs, parts })
}

/// `syn::Stmt`: bindings.
#[verifier::external_body]
fn stmt(value: Stmt) -> (r: Result<Opened, Stmt>)
    ensures
        match r {
            Ok(opened) => group(Part::Stmt(value)) == Group::Stmt && opened == holds(Part::Stmt(value)),
            Err(rest) => group(Part::Stmt(value)) != Group::Stmt && rest == value,
        },
{
    let (kind, attrs, parts) = match value {
        Stmt::Local(x) => {
            let (init, otherwise) = x.init.map_or((None, None), |y| (Some(*y.expr), y.diverge));
            let init = Part::List(init.into_iter().map(Part::Expr).collect());
            let otherwise = Part::List(otherwise.into_iter().map(|y| Part::Expr(*y.1)).collect());
            (Kind::Local, x.attrs, vec![Part::Pat(x.pat), init, otherwise])
        },
        other => return Err(other),
    };
    Ok(Opened { kind, attrs, parts })
}

/// `syn::UseTree`: paths and names.
#[verifier::external_body]
fn use_tree_path(value: UseTree) -> (r: Result<Opened, UseTree>)
    ensures
        match r {
            Ok(opened) => group(Part::UseTree(value)) == Group::UseTreePath && opened == holds(Part::UseTree(value)),
            Err(rest) => group(Part::UseTree(value)) != Group::UseTreePath && rest == value,
        },
{
    let (kind, attrs, parts) = match value {
        UseTree::Path(x) => (Kind::UsePath, Vec::new(), vec![Part::Name(x.ident), Part::UseTree(*x.tree)]),
        UseTree::Name(x) => (Kind::UseName, Vec::new(), vec![Part::Name(x.ident)]),
        other => return Err(other),
    };
    Ok(Opened { kind, attrs, parts })
}

/// `syn::UseTree`: renamed names, globs and groups.
#[verifier::external_body]
fn use_tree(value: UseTree) -> (r: Result<Opened, UseTree>)
    ensures
        match r {
            Ok(opened) => group(Part::UseTree(value)) == Group::UseTree && opened == holds(Part::UseTree(value)),
            Err(rest) => group(Part::UseTree(value)) != Group::UseTree && rest == value,
        },
{
    let (kind, attrs, parts) = match value {
        UseTree::Rename(x) => (Kind::UseRename, Vec::new(), vec![Part::Name(x.ident), Part::Name(x.rename)]),
        UseTree::Glob(_) => (Kind::UseGlob, Vec::new(), Vec::new()),
        UseTree::Group(x) => (Kind::UseGroup, Vec::new(), x.items.into_iter().map(Part::UseTree).collect()),
        other => return Err(other),
    };
    Ok(Opened { kind, attrs, parts })
}

/// `syn::GenericParam`: types.
#[verifier::external_body]
fn generic_param_type(value: GenericParam) -> (r: Result<Opened, GenericParam>)
    ensures
        match r {
            Ok(opened) => group(Part::Param(value)) == Group::GenericParamType && opened == holds(Part::Param(value)),
            Err(rest) => group(Part::Param(value)) != Group::GenericParamType && rest == value,
        },
{
    let (kind, attrs, parts) = match value {
        GenericParam::Type(x) => (Kind::TypeParam, x.attrs, vec![Part::Name(x.ident), Part::List(x.bounds.into_iter().map(Part::Bound).collect()), Part::List(x.default.into_iter().map(|y| Part::Type(y.1)).collect())]),
        other => return Err(other),
    };
    Ok(Opened { kind, attrs, parts })
}

/// `syn::GenericParam`: lifetimes and constants.
#[verifier::external_body]
fn generic_param_other(value: GenericParam) -> (r: Result<Opened, GenericParam>)
    ensures
        match r {
            Ok(opened) => group(Part::Param(value)) == Group::GenericParamOther && opened == holds(Part::Param(value)),
            Err(rest) => group(Part::Param(value)) != Group::GenericParamOther && rest == value,
        },
{
    let (kind, attrs, parts) = match value {
        GenericParam::Lifetime(x) => (Kind::LifetimeParam, x.attrs, Vec::new()),
        GenericParam::Const(x) => (Kind::ConstParam, x.attrs, vec![Part::Name(x.ident), Part::Type(x.ty), Part::List(x.default.into_iter().map(|y| Part::Expr(y.1)).collect())]),
        other => return Err(other),
    };
    Ok(Opened { kind, attrs, parts })
}

/// `syn::TypeParamBound`.
#[verifier::external_body]
fn type_param_bound(value: TypeParamBound) -> (opened: Opened)
    ensures
        opened == holds(Part::Bound(value)),
{
    let (kind, attrs, parts) = match value {
        TypeParamBound::Trait(x) => (Kind::BoundTrait, Vec::new(), vec![Part::Path(x.path)]),
        _ => (Kind::BoundOther, Vec::new(), Vec::new()),
    };
    Opened { kind, attrs, parts }
}

/// `syn::WherePredicate`.
#[verifier::external_body]
fn where_predicate(value: WherePredicate) -> (opened: Opened)
    ensures
        opened == holds(Part::Where(value)),
{
    let (kind, attrs, parts) = match value {
        WherePredicate::Type(x) => (Kind::WhereType, x.attrs, vec![Part::Type(x.bounded_ty), Part::List(x.bounds.into_iter().map(Part::Bound).collect())]),
        WherePredicate::Lifetime(x) => (Kind::WhereLifetime, x.attrs, Vec::new()),
        _ => (Kind::WhereLifetime, Vec::new(), Vec::new()),
    };
    Opened { kind, attrs, parts }
}

/// `syn::PathArguments`.
#[verifier::external_body]
fn path_arguments(value: PathArguments) -> (opened: Opened)
    ensures
        opened == holds(Part::Args(value)),
{
    let (kind, attrs, parts) = match value {
        PathArguments::None => (Kind::NoArgs, Vec::new(), Vec::new()),
        PathArguments::AngleBracketed(x) => (Kind::AngleArgs, Vec::new(), x.args.into_iter().map(Part::Arg).collect()),
        PathArguments::Parenthesized(x) => (Kind::ParenArgs, Vec::new(), vec![Part::List(x.inputs.into_iter().map(|y| Part::Type(y.ty)).collect()), Part::Output(x.output)]),
    };
    Opened { kind, attrs, parts }
}

/// `syn::GenericArgument`: plain arguments.
#[verifier::external_body]
fn generic_argument_plain(value: GenericArgument) -> (r: Result<Opened, GenericArgument>)
    ensures
        match r {
            Ok(opened) => group(Part::Arg(value)) == Group::GenericArgumentPlain && opened == holds(Part::Arg(value)),
            Err(rest) => group(Part::Arg(value)) != Group::GenericArgumentPlain && rest == value,
        },
{
    let (kind, attrs, parts) = match value {
        GenericArgument::Lifetime(_) => (Kind::ArgLifetime, Vec::new(), Vec::new()),
        GenericArgument::Type(x) => (Kind::ArgType, Vec::new(), vec![Part::Type(x)]),
        GenericArgument::Const(x) => (Kind::ArgConst, Vec::new(), vec![Part::Expr(x)]),
        other => return Err(other),
    };
    Ok(Opened { kind, attrs, parts })
}

/// `syn::GenericArgument`: associated types.
#[verifier::external_body]
fn generic_argument_assoc(value: GenericArgument) -> (r: Result<Opened, GenericArgument>)
    ensures
        match r {
            Ok(opened) => group(Part::Arg(value)) == Group::GenericArgumentAssoc && opened == holds(Part::Arg(value)),
            Err(rest) => group(Part::Arg(value)) != Group::GenericArgumentAssoc && rest == value,
        },
{
    let (kind, attrs, parts) = match value {
        GenericArgument::AssocType(x) => (Kind::ArgAssocType, Vec::new(), vec![Part::Name(x.ident), Part::List(x.generics.into_iter().flat_map(|y| y.args).map(Part::Arg).collect()), Part::Type(x.ty)]),
        other => return Err(other),
    };
    Ok(Opened { kind, attrs, parts })
}

/// `syn::GenericArgument`: associated constants.
#[verifier::external_body]
fn generic_argument_const(value: GenericArgument) -> (r: Result<Opened, GenericArgument>)
    ensures
        match r {
            Ok(opened) => group(Part::Arg(value)) == Group::GenericArgumentConst && opened == holds(Part::Arg(value)),
            Err(rest) => group(Part::Arg(value)) != Group::GenericArgumentConst && rest == value,
        },
{
    let (kind, attrs, parts) = match value {
        GenericArgument::AssocConst(x) => (Kind::ArgAssocConst, Vec::new(), vec![Part::Name(x.ident), Part::List(x.generics.into_iter().flat_map(|y| y.args).map(Part::Arg).collect()), Part::Expr(x.value)]),
        other => return Err(other),
    };
    Ok(Opened { kind, attrs, parts })
}

/// `syn::GenericArgument`: constraints.
#[verifier::external_body]
fn generic_argument_constraint(value: GenericArgument) -> (r: Result<Opened, GenericArgument>)
    ensures
        match r {
            Ok(opened) => group(Part::Arg(value)) == Group::GenericArgumentConstraint && opened == holds(Part::Arg(value)),
            Err(rest) => group(Part::Arg(value)) != Group::GenericArgumentConstraint && rest == value,
        },
{
    let (kind, attrs, parts) = match value {
        GenericArgument::Constraint(x) => (Kind::ArgConstraint, Vec::new(), vec![Part::Name(x.ident), Part::List(x.generics.into_iter().flat_map(|y| y.args).map(Part::Arg).collect()), Part::List(x.bounds.into_iter().map(Part::Bound).collect())]),
        other => return Err(other),
    };
    Ok(Opened { kind, attrs, parts })
}

/// `syn::FnArg`.
#[verifier::external_body]
fn fn_arg(value: FnArg) -> (opened: Opened)
    ensures
        opened == holds(Part::Input(value)),
{
    let (kind, attrs, parts) = match value {
        FnArg::Receiver(x) => {
            let written = match x.kind {
                ReceiverKind::Typed(_, y) => vec![Part::Type(*y)],
                _ => Vec::new(),
            };
            (Kind::Receiver, x.attrs, vec![Part::List(written)])
        },
        FnArg::Typed(x) => (Kind::Typed, x.attrs, vec![Part::Pat(*x.pat), Part::Type(*x.ty)]),
    };
    Opened { kind, attrs, parts }
}

/// `syn::File`.
#[verifier::external_body]
fn file(x: File) -> (opened: Opened)
    ensures
        opened == holds(Part::File(x)),
{
    Opened { kind: Kind::File, attrs: x.attrs, parts: vec![Part::List(x.items.into_iter().map(Part::Item).collect())] }
}

/// `syn::Signature`.
#[verifier::external_body]
fn signature(x: Signature) -> (opened: Opened)
    ensures
        opened == holds(Part::Signature(x)),
{
    Opened { kind: Kind::Signature { constant: x.constness.is_some() }, attrs: Vec::new(), parts: vec![Part::Name(x.ident), Part::Generics(x.generics), Part::List(x.inputs.into_iter().map(Part::Input).collect()), Part::Output(x.output)] }
}

/// `syn::Field`.
#[verifier::external_body]
fn field(x: Field) -> (opened: Opened)
    ensures
        opened == holds(Part::Field(x)),
{
    Opened { kind: Kind::Field, attrs: x.attrs, parts: vec![Part::List(x.ident.into_iter().map(Part::Name).collect()), Part::Type(x.ty), Part::List(x.default.into_iter().map(|y| Part::Expr(y.1)).collect())] }
}

/// `syn::Variant`.
#[verifier::external_body]
fn variant(x: Variant) -> (opened: Opened)
    ensures
        opened == holds(Part::Variant(x)),
{
    Opened { kind: Kind::Variant, attrs: x.attrs, parts: vec![Part::Name(x.ident), Part::Fields(x.fields), Part::List(x.discriminant.into_iter().map(|y| Part::Expr(y.1)).collect())] }
}

/// `syn::Generics`.
#[verifier::external_body]
fn generics(x: Generics) -> (opened: Opened)
    ensures
        opened == holds(Part::Generics(x)),
{
    Opened { kind: Kind::Generics, attrs: Vec::new(), parts: vec![Part::List(x.params.into_iter().map(Part::Param).collect()), Part::List(x.where_clause.into_iter().flat_map(|y| y.predicates).map(Part::Where).collect())] }
}

/// `syn::Path`.
#[verifier::external_body]
fn path(x: Path) -> (opened: Opened)
    ensures
        opened == holds(Part::Path(x)),
{
    Opened { kind: Kind::Path { global: x.leading_colon.is_some() }, attrs: Vec::new(), parts: x.segments.into_iter().map(Part::Segment).collect() }
}

/// `syn::PathSegment`.
#[verifier::external_body]
fn path_segment(x: PathSegment) -> (opened: Opened)
    ensures
        opened == holds(Part::Segment(x)),
{
    Opened { kind: Kind::Segment, attrs: Vec::new(), parts: vec![Part::Name(x.ident), Part::Args(x.arguments)] }
}

/// `syn::FieldPat`.
#[verifier::external_body]
fn field_pat(x: FieldPat) -> (opened: Opened)
    ensures
        opened == holds(Part::FieldPat(x)),
{
    Opened { kind: Kind::FieldPat, attrs: x.attrs, parts: vec![Part::Member(x.member), Part::Pat(*x.pat)] }
}

/// `syn::Block`.
#[verifier::external_body]
fn block(x: Block) -> (opened: Opened)
    ensures
        opened == holds(Part::Block(x)),
{
    Opened { kind: Kind::Block, attrs: Vec::new(), parts: x.stmts.into_iter().map(Part::Stmt).collect() }
}

/// `syn::Arm`.
#[verifier::external_body]
fn arm(x: Arm) -> (opened: Opened)
    ensures
        opened == holds(Part::Arm(x)),
{
    Opened { kind: Kind::Arm, attrs: x.attrs, parts: vec![Part::Pat(x.pat), Part::Expr(*x.body)] }
}

/// `syn::FieldValue`.
#[verifier::external_body]
fn field_value(x: FieldValue) -> (opened: Opened)
    ensures
        opened == holds(Part::FieldValue(x)),
{
    Opened { kind: Kind::FieldValue, attrs: x.attrs, parts: vec![Part::Member(x.member), Part::Expr(x.expr)] }
}

/// `syn::Macro`: its path, and the macro again for its body.
#[verifier::external_body]
fn macro_call(x: Macro) -> (opened: Opened)
    ensures
        opened == holds(Part::Macro(x)),
{
    Opened { kind: Kind::Macro, attrs: Vec::new(), parts: vec![Part::Path(x.path.clone()), Part::Body(x)] }
}

/// `syn::Macro::parse_body_with`: the expressions of a body that is a list of them.
///
/// It descends by recursion into the tokens of the body, as far as into their text.
#[verifier::external_body]
fn macro_body(x: Macro) -> (opened: Opened)
    requires
        is_shallow(printed(Part::Body(x))),
    ensures
        opened == holds(Part::Body(x)),
{
    match x.parse_body_with(Punctuated::<Expr, syn::token::Comma>::parse_terminated) {
        Ok(y) => Opened { kind: Kind::List, attrs: Vec::new(), parts: y.into_iter().map(Part::Expr).collect() },
        Err(_) => Opened { kind: Kind::Unread, attrs: Vec::new(), parts: Vec::new() },
    }
}

/// `syn::MetaList`: its tokens.
#[verifier::external_body]
fn arguments(x: MetaList) -> (opened: Opened)
    ensures
        opened == holds(Part::Arguments(x)),
{
    Opened { kind: Kind::Arguments { expression: false }, attrs: Vec::new(), parts: x.tokens.into_iter().map(Part::Token).collect() }
}

/// `syn::parse2`: whether it reads the tokens of an attribute as one expression.
///
/// It descends by recursion into the tokens, as far as into their text.
#[verifier::external_body]
fn is_expression(x: &MetaList) -> (r: bool)
    requires
        is_shallow(printed(Part::Arguments(*x))),
    ensures
        r == expresses(*x),
{
    syn::parse2::<Expr>(x.tokens.clone()).is_ok()
}

/// The identifiers of a `syn::Path`: that of a macro, or that of an attribute.
#[verifier::external_body]
fn callee(part: &Part) -> (r: Vec<String>)
    requires
        part is Body || part is Arguments,
    ensures
        strings(r@) == called(*part),
{
    let path = match part {
        Part::Body(x) => &x.path,
        Part::Arguments(x) => &x.path,
        _ => return Vec::new(),
    };
    path.segments.iter().map(|x| x.ident.to_string()).collect()
}

/// `proc_macro2::TokenStream`'s text, of the tokens of a macro or an attribute.
#[verifier::external_body]
fn print(part: &Part) -> (r: String)
    requires
        part is Body || part is Arguments,
    ensures
        r@ == printed(*part),
{
    match part {
        Part::Body(x) => x.tokens.to_string(),
        Part::Arguments(x) => x.tokens.to_string(),
        _ => String::new(),
    }
}

/// `syn::Fields`.
#[verifier::external_body]
fn fields(x: Fields) -> (opened: Opened)
    ensures
        opened == holds(Part::Fields(x)),
{
    Opened { kind: Kind::Fields, attrs: Vec::new(), parts: x.into_iter().map(Part::Field).collect() }
}

/// `syn::ReturnType`.
#[verifier::external_body]
fn return_type(x: ReturnType) -> (opened: Opened)
    ensures
        opened == holds(Part::Output(x)),
{
    let parts = match x {
        ReturnType::Default => Vec::new(),
        ReturnType::Type(_, y) => vec![Part::Type(*y)],
    };
    Opened { kind: Kind::Output, attrs: Vec::new(), parts }
}

/// `syn::Member`.
#[verifier::external_body]
fn member(x: Member) -> (opened: Opened)
    ensures
        opened == holds(Part::Member(x)),
{
    let (kind, parts) = match x {
        Member::Named(y) => (Kind::MemberNamed, vec![Part::Name(y)]),
        Member::Unnamed(_) => (Kind::MemberIndex, Vec::new()),
    };
    Opened { kind, attrs: Vec::new(), parts }
}

/// `syn::Lit`: an integer by `syn::LitInt::base10_digits` and its suffix, a string by
/// `syn::LitStr::value`, the others by their kind.
#[verifier::external_body]
fn literal(x: Lit) -> (opened: Opened)
    ensures
        opened == holds(Part::Lit(x)),
{
    let (kind, parts) = match x {
        Lit::Int(y) => (Kind::LitInt, vec![Part::Word(y.base10_digits().to_owned()), Part::Word(y.suffix().to_owned())]),
        Lit::Str(y) => (Kind::LitStr, vec![Part::Word(y.value())]),
        Lit::Bool(y) => (Kind::LitBool { value: y.value }, Vec::new()),
        Lit::ByteStr(_) => (Kind::LitByteStr, Vec::new()),
        Lit::Byte(_) => (Kind::LitByte, Vec::new()),
        Lit::Char(_) => (Kind::LitChar, Vec::new()),
        _ => (Kind::LitOther, Vec::new()),
    };
    Opened { kind, attrs: Vec::new(), parts }
}

/// `syn::Attribute`: its path, and its list or its value.
#[verifier::external_body]
fn attribute(x: Attribute) -> (opened: Opened)
    ensures
        opened == holds(Part::Attribute(x)),
{
    let (kind, parts) = match x.meta {
        Meta::Path(y) => (Kind::AttrPath, vec![Part::Path(y)]),
        Meta::List(y) => (Kind::AttrList, vec![Part::Path(y.path.clone()), Part::Arguments(y)]),
        Meta::NameValue(y) => (Kind::AttrValue, vec![Part::Path(y.path), Part::Expr(y.value)]),
    };
    Opened { kind, attrs: Vec::new(), parts }
}

/// `proc_macro2::TokenTree`: its text, or the tokens of a group.
#[verifier::external_body]
fn token(x: TokenTree) -> (opened: Opened)
    ensures
        opened == holds(Part::Token(x)),
{
    let (kind, parts) = match x {
        TokenTree::Group(y) => (Kind::TokenGroup, y.stream().into_iter().map(Part::Token).collect()),
        TokenTree::Ident(y) => (Kind::TokenWord, vec![Part::Word(y.to_string())]),
        TokenTree::Punct(y) => (Kind::TokenMark, vec![Part::Word(y.to_string())]),
        TokenTree::Literal(y) => (Kind::TokenLiteral, vec![Part::Word(y.to_string())]),
    };
    Opened { kind, attrs: Vec::new(), parts }
}

/// `syn::BinOp`: arithmetic and logical operators.
#[verifier::external_body]
fn operator_arithmetic(value: BinOp) -> (r: Result<Opened, BinOp>)
    ensures
        match r {
            Ok(opened) => group(Part::Operator(value)) == Group::OperatorArithmetic && opened == holds(Part::Operator(value)),
            Err(rest) => group(Part::Operator(value)) != Group::OperatorArithmetic && rest == value,
        },
{
    let op = match value {
        BinOp::Add(_) => Op::Add,
        BinOp::Sub(_) => Op::Sub,
        BinOp::Mul(_) => Op::Mul,
        BinOp::Div(_) => Op::Div,
        BinOp::Rem(_) => Op::Rem,
        BinOp::And(_) => Op::And,
        BinOp::Or(_) => Op::Or,
        other => return Err(other),
    };
    Ok(Opened { kind: Kind::Operator(op), attrs: Vec::new(), parts: Vec::new() })
}

/// `syn::BinOp`: operators on bits, and comparisons.
#[verifier::external_body]
fn operator_bits(value: BinOp) -> (r: Result<Opened, BinOp>)
    ensures
        match r {
            Ok(opened) => group(Part::Operator(value)) == Group::OperatorBits && opened == holds(Part::Operator(value)),
            Err(rest) => group(Part::Operator(value)) != Group::OperatorBits && rest == value,
        },
{
    let op = match value {
        BinOp::BitXor(_) => Op::BitXor,
        BinOp::BitAnd(_) => Op::BitAnd,
        BinOp::BitOr(_) => Op::BitOr,
        BinOp::Shl(_) => Op::Shl,
        BinOp::Shr(_) => Op::Shr,
        BinOp::Eq(_) => Op::Eq,
        BinOp::Lt(_) => Op::Lt,
        BinOp::Le(_) => Op::Le,
        BinOp::Ne(_) => Op::Ne,
        BinOp::Ge(_) => Op::Ge,
        BinOp::Gt(_) => Op::Gt,
        other => return Err(other),
    };
    Ok(Opened { kind: Kind::Operator(op), attrs: Vec::new(), parts: Vec::new() })
}

/// `syn::BinOp`: assigning operators.
#[verifier::external_body]
fn operator_assigning(value: BinOp) -> (r: Result<Opened, BinOp>)
    ensures
        match r {
            Ok(opened) => group(Part::Operator(value)) == Group::OperatorAssigning && opened == holds(Part::Operator(value)),
            Err(rest) => group(Part::Operator(value)) != Group::OperatorAssigning && rest == value,
        },
{
    let op = match value {
        BinOp::AddAssign(_) => Op::AddAssign,
        BinOp::SubAssign(_) => Op::SubAssign,
        BinOp::MulAssign(_) => Op::MulAssign,
        BinOp::DivAssign(_) => Op::DivAssign,
        BinOp::RemAssign(_) => Op::RemAssign,
        BinOp::BitXorAssign(_) => Op::BitXorAssign,
        BinOp::BitAndAssign(_) => Op::BitAndAssign,
        BinOp::BitOrAssign(_) => Op::BitOrAssign,
        BinOp::ShlAssign(_) => Op::ShlAssign,
        BinOp::ShrAssign(_) => Op::ShrAssign,
        other => return Err(other),
    };
    Ok(Opened { kind: Kind::Operator(op), attrs: Vec::new(), parts: Vec::new() })
}

/// Whether a construct is one of those that are known here. The types of `syn` that have room for
/// more constructs may grow others.
pub open spec fn is_known(part: Part) -> bool {
    match part {
        Part::Expr(_) => {
            ||| group(part) == Group::ExprOperators
            ||| group(part) == Group::ExprConversions
            ||| group(part) == Group::ExprCalls
            ||| group(part) == Group::ExprMembers
            ||| group(part) == Group::ExprWrapped
            ||| group(part) == Group::ExprBorrowed
            ||| group(part) == Group::ExprBlocks
            ||| group(part) == Group::ExprLabelled
            ||| group(part) == Group::ExprBranches
            ||| group(part) == Group::ExprMatch
            ||| group(part) == Group::ExprLoops
            ||| group(part) == Group::ExprWhile
            ||| group(part) == Group::ExprJumps
            ||| group(part) == Group::ExprReturns
            ||| group(part) == Group::ExprCollections
            ||| group(part) == Group::ExprClosure
            ||| group(part) == Group::ExprStruct
            ||| group(part) == Group::ExprLeaves
            ||| group(part) == Group::ExprRange
            ||| group(part) == Group::ExprUnary
        },
        Part::Type(_) => {
            ||| group(part) == Group::TypeWrapped
            ||| group(part) == Group::TypeBorrowed
            ||| group(part) == Group::TypeComposed
            ||| group(part) == Group::TypeNamed
            ||| group(part) == Group::TypeBounded
            ||| group(part) == Group::TypeRest
        },
        Part::Pat(_) => {
            ||| group(part) == Group::PatWrapped
            ||| group(part) == Group::PatBracketed
            ||| group(part) == Group::PatLists
            ||| group(part) == Group::PatValues
            ||| group(part) == Group::PatStruct
            ||| group(part) == Group::PatTupleStruct
            ||| group(part) == Group::PatRest
        },
        Part::Item(_) => {
            ||| group(part) == Group::ItemValues
            ||| group(part) == Group::ItemTypes
            ||| group(part) == Group::ItemAliases
            ||| group(part) == Group::ItemImpl
            ||| group(part) == Group::ItemTrait
            ||| group(part) == Group::ItemGroups
            ||| group(part) == Group::ItemRest
        },
        Part::ImplItem(_) => {
            ||| group(part) == Group::ImplItemConst
            ||| group(part) == Group::ImplItem
        },
        Part::TraitItem(_) => {
            ||| group(part) == Group::TraitItemValues
            ||| group(part) == Group::TraitItemRest
        },
        Part::Stmt(_) => {
            ||| group(part) == Group::StmtPlain
            ||| group(part) == Group::Stmt
        },
        Part::UseTree(_) => {
            ||| group(part) == Group::UseTreePath
            ||| group(part) == Group::UseTree
        },
        Part::Arg(_) => {
            ||| group(part) == Group::GenericArgumentPlain
            ||| group(part) == Group::GenericArgumentAssoc
            ||| group(part) == Group::GenericArgumentConst
            ||| group(part) == Group::GenericArgumentConstraint
        },
        Part::Operator(_) => {
            ||| group(part) == Group::OperatorArithmetic
            ||| group(part) == Group::OperatorBits
            ||| group(part) == Group::OperatorAssigning
        },
        Part::Param(_) => {
            ||| group(part) == Group::GenericParamType
            ||| group(part) == Group::GenericParamOther
        },
        _ => true,
    }
}

/// The kind of a construct that is not known here.
pub open spec fn unknown_kind(part: Part) -> Kind {
    match part {
        Part::Expr(_) => Kind::ExprOther,
        Part::Type(_) => Kind::TypeOther,
        Part::Pat(_) => Kind::PatOther,
        Part::Item(_) => Kind::ItemOther,
        Part::ImplItem(_) => Kind::ImplOther,
        Part::TraitItem(_) => Kind::TraitOther,
        Part::Stmt(_) => Kind::List,
        Part::UseTree(_) => Kind::List,
        Part::Arg(_) => Kind::ArgOther,
        Part::Operator(_) => Kind::Operator(Op::Other),
        _ => Kind::List,
    }
}

/// Whether the body of a macro is read: that of a `vec!`, as far as a parser can be pointed at it.
pub open spec fn is_read(body: Part) -> bool {
    called(body) == seq!["vec"@] && is_shallow(printed(body))
}

/// Whether the tokens of an attribute are one expression, for an attribute that states a value and as
/// far as a parser can be pointed at them.
pub open spec fn states_expression(list: MetaList) -> bool {
    let part = Part::Arguments(list);
    called(part) == seq!["gamma"@, "value"@] && is_shallow(printed(part)) && expresses(list)
}

/// Whether this is what a construct is made of.
pub open spec fn is_made_of(part: Part, opened: Opened) -> bool {
    match part {
        Part::Body(_) => if is_read(part) {
            opened == holds(part)
        } else {
            opened.kind == Kind::Unread && opened.attrs@.len() == 0 && opened.parts@.len() == 0
        },
        Part::Arguments(list) => {
            &&& opened.kind == Kind::Arguments { expression: states_expression(list) }
            &&& opened.attrs == holds(part).attrs
            &&& opened.parts == holds(part).parts
        },
        Part::List(parts) => opened.kind == Kind::List && opened.attrs@.len() == 0 && opened.parts == parts,
        Part::Word(_) | Part::Name(_) => opened.kind == Kind::Word && opened.attrs@.len() == 0 && opened.parts@.len() == 0,
        Part::Dots(_) => opened.kind == Kind::Dots && opened.attrs@.len() == 0 && opened.parts@.len() == 0,
        _ => if is_known(part) {
            opened == holds(part)
        } else {
            opened.kind == unknown_kind(part) && opened.attrs@.len() == 0 && opened.parts@.len() == 0
        },
    }
}

/// What a `syn::Expr` is made of.
fn open_expr(value: Expr) -> (opened: Opened)
    ensures
        is_made_of(Part::Expr(value), opened),
{
    let value = match expr_operators(value) {
        Ok(opened) => return opened,
        Err(rest) => rest,
    };
    let value = match expr_conversions(value) {
        Ok(opened) => return opened,
        Err(rest) => rest,
    };
    let value = match expr_calls(value) {
        Ok(opened) => return opened,
        Err(rest) => rest,
    };
    let value = match expr_members(value) {
        Ok(opened) => return opened,
        Err(rest) => rest,
    };
    let value = match expr_wrapped(value) {
        Ok(opened) => return opened,
        Err(rest) => rest,
    };
    let value = match expr_borrowed(value) {
        Ok(opened) => return opened,
        Err(rest) => rest,
    };
    let value = match expr_blocks(value) {
        Ok(opened) => return opened,
        Err(rest) => rest,
    };
    let value = match expr_labelled(value) {
        Ok(opened) => return opened,
        Err(rest) => rest,
    };
    let value = match expr_branches(value) {
        Ok(opened) => return opened,
        Err(rest) => rest,
    };
    let value = match expr_match(value) {
        Ok(opened) => return opened,
        Err(rest) => rest,
    };
    let value = match expr_loops(value) {
        Ok(opened) => return opened,
        Err(rest) => rest,
    };
    let value = match expr_while(value) {
        Ok(opened) => return opened,
        Err(rest) => rest,
    };
    let value = match expr_jumps(value) {
        Ok(opened) => return opened,
        Err(rest) => rest,
    };
    let value = match expr_returns(value) {
        Ok(opened) => return opened,
        Err(rest) => rest,
    };
    let value = match expr_collections(value) {
        Ok(opened) => return opened,
        Err(rest) => rest,
    };
    let value = match expr_closure(value) {
        Ok(opened) => return opened,
        Err(rest) => rest,
    };
    let value = match expr_struct(value) {
        Ok(opened) => return opened,
        Err(rest) => rest,
    };
    let value = match expr_leaves(value) {
        Ok(opened) => return opened,
        Err(rest) => rest,
    };
    let value = match expr_range(value) {
        Ok(opened) => return opened,
        Err(rest) => rest,
    };
    match expr_unary(value) {
        Ok(opened) => opened,
        Err(_) => Opened { kind: Kind::ExprOther, attrs: Vec::new(), parts: Vec::new() },
    }
}

/// What a `syn::Type` is made of.
fn open_type(value: Type) -> (opened: Opened)
    ensures
        is_made_of(Part::Type(value), opened),
{
    let value = match type_wrapped(value) {
        Ok(opened) => return opened,
        Err(rest) => rest,
    };
    let value = match type_borrowed(value) {
        Ok(opened) => return opened,
        Err(rest) => rest,
    };
    let value = match type_composed(value) {
        Ok(opened) => return opened,
        Err(rest) => rest,
    };
    let value = match type_named(value) {
        Ok(opened) => return opened,
        Err(rest) => rest,
    };
    let value = match type_bounded(value) {
        Ok(opened) => return opened,
        Err(rest) => rest,
    };
    match type_rest(value) {
        Ok(opened) => opened,
        Err(_) => Opened { kind: Kind::TypeOther, attrs: Vec::new(), parts: Vec::new() },
    }
}

/// What a `syn::Pat` is made of.
fn open_pat(value: Pat) -> (opened: Opened)
    ensures
        is_made_of(Part::Pat(value), opened),
{
    let value = match pat_wrapped(value) {
        Ok(opened) => return opened,
        Err(rest) => rest,
    };
    let value = match pat_bracketed(value) {
        Ok(opened) => return opened,
        Err(rest) => rest,
    };
    let value = match pat_lists(value) {
        Ok(opened) => return opened,
        Err(rest) => rest,
    };
    let value = match pat_values(value) {
        Ok(opened) => return opened,
        Err(rest) => rest,
    };
    let value = match pat_struct(value) {
        Ok(opened) => return opened,
        Err(rest) => rest,
    };
    let value = match pat_tuple_struct(value) {
        Ok(opened) => return opened,
        Err(rest) => rest,
    };
    match pat_rest(value) {
        Ok(opened) => opened,
        Err(_) => Opened { kind: Kind::PatOther, attrs: Vec::new(), parts: Vec::new() },
    }
}

/// What a `syn::Item` is made of.
fn open_item(value: Item) -> (opened: Opened)
    ensures
        is_made_of(Part::Item(value), opened),
{
    let value = match item_values(value) {
        Ok(opened) => return opened,
        Err(rest) => rest,
    };
    let value = match item_types(value) {
        Ok(opened) => return opened,
        Err(rest) => rest,
    };
    let value = match item_aliases(value) {
        Ok(opened) => return opened,
        Err(rest) => rest,
    };
    let value = match item_impl(value) {
        Ok(opened) => return opened,
        Err(rest) => rest,
    };
    let value = match item_trait(value) {
        Ok(opened) => return opened,
        Err(rest) => rest,
    };
    let value = match item_groups(value) {
        Ok(opened) => return opened,
        Err(rest) => rest,
    };
    match item_rest(value) {
        Ok(opened) => opened,
        Err(_) => Opened { kind: Kind::ItemOther, attrs: Vec::new(), parts: Vec::new() },
    }
}

/// What a `syn::ImplItem` is made of.
fn open_impl_item(value: ImplItem) -> (opened: Opened)
    ensures
        is_made_of(Part::ImplItem(value), opened),
{
    let value = match impl_item_const(value) {
        Ok(opened) => return opened,
        Err(rest) => rest,
    };
    match impl_item(value) {
        Ok(opened) => opened,
        Err(_) => Opened { kind: Kind::ImplOther, attrs: Vec::new(), parts: Vec::new() },
    }
}

/// What a `syn::TraitItem` is made of.
fn open_trait_item(value: TraitItem) -> (opened: Opened)
    ensures
        is_made_of(Part::TraitItem(value), opened),
{
    let value = match trait_item_values(value) {
        Ok(opened) => return opened,
        Err(rest) => rest,
    };
    match trait_item_rest(value) {
        Ok(opened) => opened,
        Err(_) => Opened { kind: Kind::TraitOther, attrs: Vec::new(), parts: Vec::new() },
    }
}

/// What a `syn::Stmt` is made of.
fn open_stmt(value: Stmt) -> (opened: Opened)
    ensures
        is_made_of(Part::Stmt(value), opened),
{
    let value = match stmt_plain(value) {
        Ok(opened) => return opened,
        Err(rest) => rest,
    };
    match stmt(value) {
        Ok(opened) => opened,
        Err(_) => Opened { kind: Kind::List, attrs: Vec::new(), parts: Vec::new() },
    }
}

/// What a `syn::UseTree` is made of.
fn open_use_tree(value: UseTree) -> (opened: Opened)
    ensures
        is_made_of(Part::UseTree(value), opened),
{
    let value = match use_tree_path(value) {
        Ok(opened) => return opened,
        Err(rest) => rest,
    };
    match use_tree(value) {
        Ok(opened) => opened,
        Err(_) => Opened { kind: Kind::List, attrs: Vec::new(), parts: Vec::new() },
    }
}

/// What a `syn::GenericArgument` is made of.
fn open_generic_argument(value: GenericArgument) -> (opened: Opened)
    ensures
        is_made_of(Part::Arg(value), opened),
{
    let value = match generic_argument_plain(value) {
        Ok(opened) => return opened,
        Err(rest) => rest,
    };
    let value = match generic_argument_assoc(value) {
        Ok(opened) => return opened,
        Err(rest) => rest,
    };
    let value = match generic_argument_const(value) {
        Ok(opened) => return opened,
        Err(rest) => rest,
    };
    match generic_argument_constraint(value) {
        Ok(opened) => opened,
        Err(_) => Opened { kind: Kind::ArgOther, attrs: Vec::new(), parts: Vec::new() },
    }
}

/// What a `syn::BinOp` is made of.
fn open_operator(value: BinOp) -> (opened: Opened)
    ensures
        is_made_of(Part::Operator(value), opened),
{
    let value = match operator_arithmetic(value) {
        Ok(opened) => return opened,
        Err(rest) => rest,
    };
    let value = match operator_bits(value) {
        Ok(opened) => return opened,
        Err(rest) => rest,
    };
    match operator_assigning(value) {
        Ok(opened) => opened,
        Err(_) => Opened { kind: Kind::Operator(Op::Other), attrs: Vec::new(), parts: Vec::new() },
    }
}

/// What a `syn::GenericParam` is made of.
fn open_generic_param(value: GenericParam) -> (opened: Opened)
    ensures
        is_made_of(Part::Param(value), opened),
{
    let value = match generic_param_type(value) {
        Ok(opened) => return opened,
        Err(rest) => rest,
    };
    match generic_param_other(value) {
        Ok(opened) => opened,
        Err(_) => Opened { kind: Kind::List, attrs: Vec::new(), parts: Vec::new() },
    }
}

/// Whether a recursive parser can be pointed at a text.
fn is_within_reach(text: &str) -> (r: bool)
    ensures
        r == is_shallow(text@),
{
    text::length(text) < usize::MAX && !exceeds_nesting_limit(text)
}

/// What the body of a macro is made of.
fn open_body(value: Macro) -> (opened: Opened)
    ensures
        is_made_of(Part::Body(value), opened),
{
    let part = Part::Body(value);
    let names = callee(&part);
    let read = names.len() == 1 && text::same(names[0].as_str(), "vec") && is_within_reach(print(&part).as_str());
    proof {
        assert(strings(names@).len() == names@.len());
        if names@.len() == 1 {
            assert(strings(names@)[0] == names@[0]@);
            assert(strings(names@) =~= seq![names@[0]@]);
            assert(seq!["vec"@][0] == "vec"@);
        }
        assert(seq!["vec"@].len() == 1);
        assert(read == is_read(part));
    }
    match part {
        Part::Body(x) if read => macro_body(x),
        _ => Opened { kind: Kind::Unread, attrs: Vec::new(), parts: Vec::new() },
    }
}

/// What the tokens of an attribute are made of.
fn open_arguments(value: MetaList) -> (opened: Opened)
    ensures
        is_made_of(Part::Arguments(value), opened),
{
    let part = Part::Arguments(value);
    let names = callee(&part);
    let stating = names.len() == 2 && text::same(names[0].as_str(), "gamma") && text::same(names[1].as_str(), "value") && is_within_reach(
        print(&part).as_str(),
    );
    proof {
        let given = seq!["gamma"@, "value"@];
        assert(strings(names@).len() == names@.len());
        assert(given.len() == 2 && given[0] == "gamma"@ && given[1] == "value"@);
        if names@.len() == 2 {
            assert(strings(names@)[0] == names@[0]@ && strings(names@)[1] == names@[1]@);
            assert(strings(names@) =~= seq![names@[0]@, names@[1]@]);
        }
        assert(stating == (called(part) == given && is_shallow(printed(part))));
    }
    match part {
        Part::Arguments(x) => {
            let expression = stating && is_expression(&x);
            let mut opened = arguments(x);
            opened.kind = Kind::Arguments { expression };
            opened
        },
        _ => Opened { kind: Kind::List, attrs: Vec::new(), parts: Vec::new() },
    }
}

/// What a construct is made of.
pub(crate) fn open(part: Part) -> (opened: Opened)
    ensures
        is_made_of(part, opened),
{
    match part {
        Part::Arguments(x) => open_arguments(x),
        Part::Token(x) => token(x),
        Part::Attribute(x) => attribute(x),
        Part::File(x) => file(x),
        Part::Item(x) => open_item(x),
        Part::ImplItem(x) => open_impl_item(x),
        Part::TraitItem(x) => open_trait_item(x),
        Part::ForeignItem(x) => foreign_item(x),
        Part::Fields(x) => fields(x),
        Part::Field(x) => field(x),
        Part::Variant(x) => variant(x),
        Part::UseTree(x) => open_use_tree(x),
        Part::Generics(x) => generics(x),
        Part::Param(x) => open_generic_param(x),
        Part::Bound(x) => type_param_bound(x),
        Part::Where(x) => where_predicate(x),
        Part::Type(x) => open_type(x),
        Part::Output(x) => return_type(x),
        Part::Path(x) => path(x),
        Part::Segment(x) => path_segment(x),
        Part::Args(x) => path_arguments(x),
        Part::Arg(x) => open_generic_argument(x),
        Part::Signature(x) => signature(x),
        Part::Input(x) => fn_arg(x),
        Part::Pat(x) => open_pat(x),
        Part::FieldPat(x) => field_pat(x),
        Part::Block(x) => block(x),
        Part::Stmt(x) => open_stmt(x),
        Part::Expr(x) => open_expr(x),
        Part::Arm(x) => arm(x),
        Part::FieldValue(x) => field_value(x),
        Part::Member(x) => member(x),
        Part::Macro(x) => macro_call(x),
        Part::Body(x) => open_body(x),
        Part::Lit(x) => literal(x),
        Part::Operator(x) => open_operator(x),
        Part::List(parts) => Opened { kind: Kind::List, attrs: Vec::new(), parts },
        Part::Word(_) | Part::Name(_) => Opened { kind: Kind::Word, attrs: Vec::new(), parts: Vec::new() },
        Part::Dots(_) => Opened { kind: Kind::Dots, attrs: Vec::new(), parts: Vec::new() },
    }
}

} // verus!
