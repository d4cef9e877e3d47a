//! The tree itself.
use vstd::prelude::*;

verus! {

/// A binary operator.
#[derive(Clone, Copy, Debug, PartialEq, Eq, Structural)]
pub enum Op {
    Add,
    Sub,
    Mul,
    Div,
    Rem,
    And,
    Or,
    BitXor,
    BitAnd,
    BitOr,
    Shl,
    Shr,
    Eq,
    Lt,
    Le,
    Ne,
    Ge,
    Gt,
    AddAssign,
    SubAssign,
    MulAssign,
    DivAssign,
    RemAssign,
    BitXorAssign,
    BitAndAssign,
    BitOrAssign,
    ShlAssign,
    ShrAssign,
    /// One that is none of these.
    Other,
}

/// What kind of construct a node is, and with it which parts it holds.
///
/// The parts of each kind are given in brackets, in order. A part that may be missing, or may be
/// there several times, is a list.
#[derive(Clone, Copy, Debug, PartialEq, Eq, Structural)]
pub enum Kind {
    // ---- General. ----
    /// Any number of parts.
    List,
    /// A name, or another piece of text.
    Word,
    /// The two dots of a struct literal's base.
    Dots,
    /// A whole file: `[items]`.
    File,

    // ---- Attributes and their tokens. ----
    /// `#[path]`: `[path]`.
    AttrPath,
    /// `#[path(tokens)]`: `[path, arguments]`.
    AttrList,
    /// `#[path = value]`: `[path, value]`.
    AttrValue,
    /// The tokens of an attribute, and whether they are one expression that it states.
    Arguments { expression: bool },
    /// A delimited group of tokens.
    TokenGroup,
    /// An identifier or keyword: `[word]`.
    TokenWord,
    /// A punctuation mark: `[word]`.
    TokenMark,
    /// A literal: `[word]`.
    TokenLiteral,

    // ---- Items. ----
    /// `[name, generics, type, value]`.
    ItemConst,
    /// `[name, generics, variants]`.
    ItemEnum,
    ItemExternCrate,
    /// `[signature, body]`.
    ItemFn,
    /// `[items]`.
    ItemForeignMod,
    /// `[generics, trait path, self type, items]`.
    ItemImpl,
    /// `[macro]`.
    ItemMacro,
    /// `[name, items]`.
    ItemMod,
    /// `[name, type, value]`.
    ItemStatic,
    /// `[name, generics, fields]`.
    ItemStruct,
    /// `[name, generics, supertraits, items]`.
    ItemTrait,
    /// `[name, generics, bounds]`.
    ItemTraitAlias,
    /// `[name, generics, type]`.
    ItemType,
    /// `[name, generics, fields]`.
    ItemUnion,
    /// `[use tree]`.
    ItemUse,
    ItemOther,
    /// `[name, generics, type, value]`.
    ImplConst,
    /// `[signature, body]`.
    ImplFn,
    /// `[name, generics, type]`.
    ImplType,
    /// `[macro]`.
    ImplMacro,
    ImplOther,
    /// `[name, generics, type, value]`.
    TraitConst,
    /// `[signature, body]`.
    TraitFn,
    /// `[name, generics, bounds, default]`.
    TraitType,
    /// `[macro]`.
    TraitMacro,
    TraitOther,
    /// `[signature]`.
    ForeignFn,
    /// `[name, type]`.
    ForeignStatic,
    /// `[name, generics]`.
    ForeignType,
    /// `[macro]`.
    ForeignMacro,
    ForeignOther,

    // ---- Parts of items. ----
    /// `[name, generics, inputs, output]`.
    Signature { constant: bool },
    /// A `self` parameter: `[type]`.
    Receiver,
    /// A parameter with a pattern: `[pattern, type]`.
    Typed,
    /// A return type, if one is written.
    Output,
    /// The fields of a struct, a variant or a union.
    Fields,
    /// `[name, type, default]`.
    Field,
    /// `[name, fields, discriminant]`.
    Variant,
    /// `[name, use tree]`.
    UsePath,
    /// `[name]`.
    UseName,
    /// `[name, new name]`.
    UseRename,
    UseGlob,
    /// The use trees of a group.
    UseGroup,
    /// `[parameters, predicates]`.
    Generics,
    LifetimeParam,
    /// `[name, bounds, default]`.
    TypeParam,
    /// `[name, type, default]`.
    ConstParam,
    /// `[path]`.
    BoundTrait,
    BoundOther,
    WhereLifetime,
    /// `[type, bounds]`.
    WhereType,

    // ---- Paths. ----
    /// The segments of a path, and whether it begins with `::`.
    Path { global: bool },
    /// `[name, arguments]`.
    Segment,
    /// No arguments behind a path segment.
    NoArgs,
    /// The arguments behind a path segment, in angle brackets.
    AngleArgs,
    /// The arguments behind a path segment, in parentheses: `[inputs, output]`.
    ParenArgs,
    ArgLifetime,
    /// `[type]`.
    ArgType,
    /// `[value]`.
    ArgConst,
    /// `[name, arguments, type]`.
    ArgAssocType,
    /// `[name, arguments, value]`.
    ArgAssocConst,
    /// `[name, arguments, bounds]`.
    ArgConstraint,
    ArgOther,

    // ---- Types. ----
    /// `[type, length]`.
    TypeArray,
    /// `[inputs, output]`.
    TypeFnPtr,
    /// `[type]`.
    TypeGroup,
    /// The bounds of an `impl Trait`.
    TypeImplTrait,
    TypeInfer,
    /// `[macro]`.
    TypeMacro,
    TypeNever,
    /// `[type]`.
    TypeParen,
    /// `[self type, path]`.
    TypePath,
    /// `[type]`.
    TypePtr,
    /// `[type]`.
    TypeReference { mutable: bool },
    /// `[type]`.
    TypeSlice,
    /// The bounds of a trait object.
    TypeTraitObject,
    /// The types of a tuple.
    TypeTuple,
    TypeOther,

    // ---- Patterns. ----
    /// `[block]`.
    PatConst,
    /// `[pattern, condition]`.
    PatGuard,
    /// `[name, pattern]`.
    PatIdent,
    /// `[literal]`.
    PatLit,
    /// `[macro]`.
    PatMacro,
    /// The cases of an alternative.
    PatOr,
    /// `[pattern]`.
    PatParen,
    /// `[self type, path]`.
    PatPath,
    /// `[start, end]`.
    PatRange,
    /// `[pattern]`.
    PatReference,
    PatRest,
    /// The patterns of a slice.
    PatSlice,
    /// `[self type, path, fields]`.
    PatStruct,
    /// The patterns of a tuple.
    PatTuple,
    /// `[self type, path, patterns]`.
    PatTupleStruct,
    /// `[pattern, type]`.
    PatType,
    PatWild,
    PatOther,
    /// `[member, pattern]`.
    FieldPat,

    // ---- Statements. ----
    /// The statements of a block.
    Block,
    /// `[pattern, value, otherwise]`.
    Local,
    /// `[item]`.
    StmtItem,
    /// `[expression]`.
    StmtExpr { semi: bool },
    /// `[macro]`.
    StmtMacro,

    // ---- Expressions. ----
    /// The elements of an array.
    Array,
    /// `[target, value]`.
    Assign,
    /// `[block]`.
    Async,
    /// `[expression]`.
    Await,
    /// `[left, operator, right]`.
    Binary,
    /// `[label, block]`.
    BlockExpr,
    /// `[label, value]`.
    Break,
    /// `[callee, arguments]`.
    Call,
    /// `[expression, type]`.
    Cast,
    /// `[inputs, output, body]`.
    Closure,
    /// `[block]`.
    ConstBlock,
    /// `[label]`.
    Continue,
    /// `[expression, member]`.
    FieldAccess,
    /// `[label, pattern, expression, block]`.
    ForLoop,
    /// `[expression]`.
    Group,
    /// `[condition, block, otherwise]`.
    If,
    /// `[expression, index]`.
    Index,
    Infer,
    /// `[pattern, expression]`.
    Let,
    /// `[literal]`.
    Lit,
    /// `[label, block]`.
    Loop,
    /// `[macro]`.
    MacroExpr,
    /// `[expression, arms]`.
    Match,
    /// `[receiver, method, arguments of types, arguments]`.
    MethodCall,
    /// `[expression]`.
    Paren,
    /// `[self type, path]`.
    PathExpr,
    /// `[start, end]`.
    Range { closed: bool },
    /// `[expression]`.
    RawAddr,
    /// `[expression]`.
    Reference,
    /// `[element, length]`.
    Repeat,
    /// `[value]`.
    Return,
    /// `[self type, path, fields, dots, base]`.
    StructExpr,
    /// `[expression]`.
    Try,
    /// `[block]`.
    TryBlock,
    /// The elements of a tuple.
    Tuple,
    /// `[operand]`.
    Negate,
    /// `[operand]`.
    Not,
    /// `[operand]`.
    Deref,
    /// `[block]`.
    Unsafe,
    /// `[label, condition, block]`.
    While,
    /// `[value]`.
    Yield,
    ExprOther,

    // ---- Parts of expressions. ----
    /// A binary operator.
    Operator(Op),
    /// `[pattern, body]`.
    Arm,
    /// `[member, value]`.
    FieldValue,
    /// `[name]`.
    MemberNamed,
    MemberIndex,
    /// `[path, body]`: the body of a `vec!` is a list of its elements.
    Macro,
    /// The body of a macro that is not read.
    Unread,
    /// `[digits, suffix]`.
    LitInt,
    /// `[value]`.
    LitStr,
    LitByteStr,
    LitByte,
    LitChar,
    LitBool { value: bool },
    LitOther,
}

impl Kind {
    /// Whether a construct is an expression.
    pub open spec fn is_expr(self) -> bool {
        match self {
            Kind::Array
            | Kind::Assign
            | Kind::Async
            | Kind::Await
            | Kind::Binary
            | Kind::BlockExpr
            | Kind::Break
            | Kind::Call
            | Kind::Cast
            | Kind::Closure
            | Kind::ConstBlock
            | Kind::Continue
            | Kind::FieldAccess
            | Kind::ForLoop
            | Kind::Group
            | Kind::If
            | Kind::Index
            | Kind::Infer
            | Kind::Let
            | Kind::Lit
            | Kind::Loop
            | Kind::MacroExpr
            | Kind::Match
            | Kind::MethodCall
            | Kind::Paren
            | Kind::PathExpr
            | Kind::Range { .. }
            | Kind::RawAddr
            | Kind::Reference
            | Kind::Repeat
            | Kind::Return
            | Kind::StructExpr
            | Kind::Try
            | Kind::TryBlock
            | Kind::Tuple
            | Kind::Negate
            | Kind::Not
            | Kind::Deref
            | Kind::Unsafe
            | Kind::While
            | Kind::Yield
            | Kind::ExprOther => true,
            _ => false,
        }
    }

    /// Whether a construct is an item, or an item of an implementation or of a trait.
    pub open spec fn is_item(self) -> bool {
        match self {
            Kind::ItemConst
            | Kind::ItemEnum
            | Kind::ItemExternCrate
            | Kind::ItemFn
            | Kind::ItemForeignMod
            | Kind::ItemImpl
            | Kind::ItemMacro
            | Kind::ItemMod
            | Kind::ItemStatic
            | Kind::ItemStruct
            | Kind::ItemTrait
            | Kind::ItemTraitAlias
            | Kind::ItemType
            | Kind::ItemUnion
            | Kind::ItemUse
            | Kind::ItemOther
            | Kind::ImplConst
            | Kind::ImplFn
            | Kind::ImplType
            | Kind::ImplMacro
            | Kind::ImplOther
            | Kind::TraitConst
            | Kind::TraitFn
            | Kind::TraitType
            | Kind::TraitMacro
            | Kind::TraitOther => true,
            _ => false,
        }
    }

    /// Returns whether a construct is an expression.
    pub fn names_expr(self) -> (r: bool)
        ensures
            r == self.is_expr(),
    {
        match self {
            Kind::Array
            | Kind::Assign
            | Kind::Async
            | Kind::Await
            | Kind::Binary
            | Kind::BlockExpr
            | Kind::Break
            | Kind::Call
            | Kind::Cast
            | Kind::Closure
            | Kind::ConstBlock
            | Kind::Continue
            | Kind::FieldAccess
            | Kind::ForLoop
            | Kind::Group
            | Kind::If
            | Kind::Index
            | Kind::Infer
            | Kind::Let
            | Kind::Lit
            | Kind::Loop
            | Kind::MacroExpr
            | Kind::Match
            | Kind::MethodCall
            | Kind::Paren
            | Kind::PathExpr
            | Kind::Range { .. }
            | Kind::RawAddr
            | Kind::Reference
            | Kind::Repeat
            | Kind::Return
            | Kind::StructExpr
            | Kind::Try
            | Kind::TryBlock
            | Kind::Tuple
            | Kind::Negate
            | Kind::Not
            | Kind::Deref
            | Kind::Unsafe
            | Kind::While
            | Kind::Yield
            | Kind::ExprOther => true,
            _ => false,
        }
    }

    /// Returns whether a construct is an item, or an item of an implementation or of a trait.
    pub fn names_item(self) -> (r: bool)
        ensures
            r == self.is_item(),
    {
        match self {
            Kind::ItemConst
            | Kind::ItemEnum
            | Kind::ItemExternCrate
            | Kind::ItemFn
            | Kind::ItemForeignMod
            | Kind::ItemImpl
            | Kind::ItemMacro
            | Kind::ItemMod
            | Kind::ItemStatic
            | Kind::ItemStruct
            | Kind::ItemTrait
            | Kind::ItemTraitAlias
            | Kind::ItemType
            | Kind::ItemUnion
            | Kind::ItemUse
            | Kind::ItemOther
            | Kind::ImplConst
            | Kind::ImplFn
            | Kind::ImplType
            | Kind::ImplMacro
            | Kind::ImplOther
            | Kind::TraitConst
            | Kind::TraitFn
            | Kind::TraitType
            | Kind::TraitMacro
            | Kind::TraitOther => true,
            _ => false,
        }
    }
}

/// One construct of a source text.
#[derive(Debug)]
pub struct Node {
    /// What kind of construct this is.
    pub kind: Kind,
    /// Byte offset of its beginning, where it has one.
    pub start: usize,
    /// Byte offset of its end, where it has one.
    pub end: usize,
    /// Its text, for a word.
    pub text: String,
    /// The attributes written on it.
    pub attrs: Vec<Node>,
    /// Its parts, in order.
    pub kids: Vec<Node>,
}

impl Node {
    /// A part of a node, if it has that many.
    pub open spec fn kid(self, at: int) -> Option<Node> {
        if 0 <= at < self.kids@.len() {
            Some(self.kids@[at])
        } else {
            None
        }
    }

    /// The first part of a part that is a list, if it has one.
    pub open spec fn first_of(self, at: int) -> Option<Node> {
        match self.kid(at) {
            Some(list) => list.kid(0),
            None => None,
        }
    }

    /// The parts of a part that is a list.
    pub open spec fn all_of(self, at: int) -> Seq<Node> {
        match self.kid(at) {
            Some(list) => list.kids@,
            None => Seq::empty(),
        }
    }

    /// The text of a part that is a word.
    pub open spec fn word(self, at: int) -> Seq<char> {
        match self.kid(at) {
            Some(word) => word.text@,
            None => Seq::empty(),
        }
    }

    /// The parts of a node that are code of their own. A macro's arguments are not: what they come
    /// to is settled by its expansion.
    pub open spec fn inside(self) -> Seq<Node> {
        match self.kind {
            Kind::Macro => if self.kids@.len() > 0 {
                self.kids@.subrange(0, 1)
            } else {
                self.kids@
            },
            _ => self.kids@,
        }
    }

    /// What is inside a node is smaller than it.
    pub proof fn lemma_inside(self)
        ensures
            decreases_to!(self => self.attrs@),
            decreases_to!(self => self.inside()),
            forall|i: int| 0 <= i < self.inside().len() ==> #[trigger] self.inside()[i] == self.kids@[i],
            self.inside().len() <= self.kids@.len(),
    {
        assert(decreases_to!(self => self.attrs@));
        assert(decreases_to!(self => self.kids@));
        if self.kids@.len() > 1 {
            assert(decreases_to!(self.kids@ => self.kids@.subrange(0, 1)));
        } else if self.kids@.len() == 1 {
            assert(self.kids@.subrange(0, 1) =~= self.kids@);
        }
    }

    /// How many of a node's parts are code of their own.
    pub fn count_inside(&self) -> (r: usize)
        ensures
            r == self.inside().len(),
            r <= self.kids@.len(),
    {
        match self.kind {
            Kind::Macro => if self.kids.len() > 0 {
                1
            } else {
                0
            },
            _ => self.kids.len(),
        }
    }

    /// A part of a node, if it has that many.
    pub fn get(&self, at: usize) -> (r: Option<&Node>)
        ensures
            r is Some <==> self.kid(at as int) is Some,
            r matches Some(kid) ==> self.kid(at as int) == Some(*kid) && decreases_to!(*self => *kid),
    {
        if at < self.kids.len() {
            proof {
                assert(decreases_to!(*self => self.kids));
                assert(decreases_to!(self.kids => self.kids@));
                assert(decreases_to!(self.kids@ => self.kids@[at as int]));
            }
            Some(&self.kids[at])
        } else {
            None
        }
    }

    /// The first part of a part that is a list, if it has one.
    pub fn get_first(&self, at: usize) -> (r: Option<&Node>)
        ensures
            r is Some <==> self.first_of(at as int) is Some,
            r matches Some(kid) ==> self.first_of(at as int) == Some(*kid) && decreases_to!(*self => *kid),
    {
        match self.get(at) {
            Some(list) => list.get(0),
            None => None,
        }
    }

    /// The text of a part that is a word.
    pub fn get_word(&self, at: usize) -> (r: &str)
        ensures
            r@ == self.word(at as int),
    {
        match self.get(at) {
            Some(word) => word.text.as_str(),
            None => {
                let empty = "";
                proof {
                    reveal_strlit("");
                    assert(empty@ =~= Seq::<char>::empty());
                }
                empty
            },
        }
    }
}

} // verus!
