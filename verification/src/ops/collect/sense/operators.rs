//! What is done to operators.
use super::sites::offered;
use super::super::collector::expressions::{operation, operator_offers, own_offers};
use super::super::collector::naming::source_of;
use super::super::collector::predicates::{assigning, binding};
use super::super::collector::scope::{offer_over, ordinal, Scope, Setting};
use super::super::collector::tables::replacements_of;
use super::sites::{lemma_offered_join, lemma_offered_over, lemma_own_offered};
use super::super::collector::gate::is_left_alone;
use super::super::collector::visit::visit;
use crate::ops::collect::Shape;
use crate::syntax::tree::{Kind, Node, Op};
use vstd::prelude::*;

verus! {

/// An operator as Rust is written.
pub open spec fn symbol(op: Op) -> Seq<char> {
    match op {
        Op::Lt => "<"@,
        Op::Le => "<="@,
        Op::Gt => ">"@,
        Op::Ge => ">="@,
        Op::Eq => "=="@,
        Op::Ne => "!="@,
        Op::Add => "+"@,
        Op::Sub => "-"@,
        Op::Mul => "*"@,
        Op::Div => "/"@,
        Op::Rem => "%"@,
        Op::BitAnd => "&"@,
        Op::BitOr => "|"@,
        Op::BitXor => "^"@,
        Op::Shl => "<<"@,
        Op::Shr => ">>"@,
        Op::And => "&&"@,
        Op::Or => "||"@,
        Op::AddAssign => "+="@,
        Op::SubAssign => "-="@,
        Op::MulAssign => "*="@,
        Op::DivAssign => "/="@,
        Op::RemAssign => "%="@,
        Op::BitAndAssign => "&="@,
        Op::BitOrAssign => "|="@,
        Op::BitXorAssign => "^="@,
        Op::ShlAssign => "<<="@,
        Op::ShrAssign => ">>="@,
        Op::Other => Seq::empty(),
    }
}

/// An operator as mutators are named.
pub open spec fn word(op: Op) -> Seq<char> {
    match op {
        Op::Lt => "lt"@,
        Op::Le => "le"@,
        Op::Gt => "gt"@,
        Op::Ge => "ge"@,
        Op::Eq => "eq"@,
        Op::Ne => "ne"@,
        Op::Add => "add"@,
        Op::Sub => "sub"@,
        Op::Mul => "mul"@,
        Op::Div => "div"@,
        Op::Rem => "rem"@,
        Op::BitAnd => "and"@,
        Op::BitOr => "or"@,
        Op::BitXor => "xor"@,
        Op::Shl => "shl"@,
        Op::Shr => "shr"@,
        Op::And => "and"@,
        Op::Or => "or"@,
        Op::AddAssign => "add"@,
        Op::SubAssign => "sub"@,
        Op::MulAssign => "mul"@,
        Op::DivAssign => "div"@,
        Op::RemAssign => "rem"@,
        Op::BitAndAssign => "and"@,
        Op::BitOrAssign => "or"@,
        Op::BitXorAssign => "xor"@,
        Op::ShlAssign => "shl"@,
        Op::ShrAssign => "shr"@,
        Op::Other => Seq::empty(),
    }
}

/// The family of mutators that an operator belongs to.
pub open spec fn family(op: Op) -> Seq<char> {
    match op {
        Op::Lt => "relational"@,
        Op::Le => "relational"@,
        Op::Gt => "relational"@,
        Op::Ge => "relational"@,
        Op::Eq => "relational"@,
        Op::Ne => "relational"@,
        Op::Add => "arith"@,
        Op::Sub => "arith"@,
        Op::Mul => "arith"@,
        Op::Div => "arith"@,
        Op::Rem => "arith"@,
        Op::BitAnd => "bitwise"@,
        Op::BitOr => "bitwise"@,
        Op::BitXor => "bitwise"@,
        Op::Shl => "shift"@,
        Op::Shr => "shift"@,
        Op::And => "logical"@,
        Op::Or => "logical"@,
        Op::AddAssign => "assign"@,
        Op::SubAssign => "assign"@,
        Op::MulAssign => "assign"@,
        Op::DivAssign => "assign"@,
        Op::RemAssign => "assign"@,
        Op::BitAndAssign => "assign"@,
        Op::BitOrAssign => "assign"@,
        Op::BitXorAssign => "assign"@,
        Op::ShlAssign => "assign"@,
        Op::ShrAssign => "assign"@,
        Op::Other => Seq::empty(),
    }
}

/// The mutator that replaces one operator by another is named for both.
pub open spec fn exchange(op: Op, other: Op) -> Seq<char> {
    family(op) + "."@ + word(op) + "_to_"@ + word(other)
}

/// Whether one operator is replaced by another.
///
/// A comparison becomes the one that differs only in whether equal operands count, and the one that looks
/// the other way. A sum becomes a difference, a product a quotient, and each the other way round.
pub open spec fn is_exchanged(op: Op, other: Op) -> bool {
    match op {
        Op::Lt => other == Op::Le || other == Op::Gt,
        Op::Le => other == Op::Lt || other == Op::Ge,
        Op::Gt => other == Op::Ge || other == Op::Lt,
        Op::Ge => other == Op::Gt || other == Op::Le,
        Op::Eq => other == Op::Ne,
        Op::Ne => other == Op::Eq,
        Op::Add => other == Op::Sub || other == Op::Mul,
        Op::Sub => other == Op::Add || other == Op::Div,
        Op::Mul => other == Op::Div || other == Op::Add,
        Op::Div => other == Op::Mul || other == Op::Rem,
        Op::Rem => other == Op::Div || other == Op::Mul,
        Op::BitAnd => other == Op::BitOr || other == Op::BitXor,
        Op::BitOr => other == Op::BitAnd,
        Op::BitXor => other == Op::BitAnd,
        Op::Shl => other == Op::Shr,
        Op::Shr => other == Op::Shl,
        Op::And => other == Op::Or,
        Op::Or => other == Op::And,
        Op::AddAssign => other == Op::SubAssign,
        Op::SubAssign => other == Op::AddAssign,
        Op::MulAssign => other == Op::DivAssign,
        Op::DivAssign => other == Op::MulAssign,
        Op::RemAssign => other == Op::DivAssign,
        Op::BitAndAssign => other == Op::BitOrAssign,
        Op::BitOrAssign => other == Op::BitAndAssign,
        Op::BitXorAssign => other == Op::BitAndAssign,
        Op::ShlAssign => other == Op::ShrAssign,
        Op::ShrAssign => other == Op::ShlAssign,
        Op::Other => false,
    }
}

/// An operator between two operands: what is assigned to stays as it is, and operands are in brackets.
pub open spec fn written(left: Seq<char>, op: Op, right: Seq<char>) -> Seq<char> {
    if family(op) == "assign"@ {
        left + " "@ + symbol(op) + " ("@ + right + ")"@
    } else {
        "("@ + left + ") "@ + symbol(op) + " ("@ + right + ")"@
    }
}

/// Whether a replacement exchanges one operator for another.
spec fn exchanges(op: Op, pair: (Seq<char>, Seq<char>), other: Op) -> bool {
    is_exchanged(op, other) && pair == (exchange(op, other), symbol(other)) && (assigning(op) <==> family(other) == "assign"@)
}

proof fn lemma_lt()
    ensures
        replacements_of(Op::Lt).len() == 2,
        exchanges(Op::Lt, replacements_of(Op::Lt)[0], Op::Le),
        exchanges(Op::Lt, replacements_of(Op::Lt)[1], Op::Gt),
{
    lemma_assign_family();
    reveal_strlit("relational");
    reveal_strlit(".");
    reveal_strlit("_to_");
    reveal_strlit("lt");
    reveal_strlit("le");
    reveal_strlit("gt");
    reveal_strlit("relational.lt_to_le");
    assert("relational.lt_to_le"@ =~= "relational"@ + "."@ + "lt"@ + "_to_"@ + "le"@);
    reveal_strlit("relational.lt_to_gt");
    assert("relational.lt_to_gt"@ =~= "relational"@ + "."@ + "lt"@ + "_to_"@ + "gt"@);
}

proof fn lemma_le()
    ensures
        replacements_of(Op::Le).len() == 2,
        exchanges(Op::Le, replacements_of(Op::Le)[0], Op::Lt),
        exchanges(Op::Le, replacements_of(Op::Le)[1], Op::Ge),
{
    lemma_assign_family();
    reveal_strlit("relational");
    reveal_strlit(".");
    reveal_strlit("_to_");
    reveal_strlit("le");
    reveal_strlit("lt");
    reveal_strlit("ge");
    reveal_strlit("relational.le_to_lt");
    assert("relational.le_to_lt"@ =~= "relational"@ + "."@ + "le"@ + "_to_"@ + "lt"@);
    reveal_strlit("relational.le_to_ge");
    assert("relational.le_to_ge"@ =~= "relational"@ + "."@ + "le"@ + "_to_"@ + "ge"@);
}

proof fn lemma_gt()
    ensures
        replacements_of(Op::Gt).len() == 2,
        exchanges(Op::Gt, replacements_of(Op::Gt)[0], Op::Ge),
        exchanges(Op::Gt, replacements_of(Op::Gt)[1], Op::Lt),
{
    lemma_assign_family();
    reveal_strlit("relational");
    reveal_strlit(".");
    reveal_strlit("_to_");
    reveal_strlit("gt");
    reveal_strlit("ge");
    reveal_strlit("lt");
    reveal_strlit("relational.gt_to_ge");
    assert("relational.gt_to_ge"@ =~= "relational"@ + "."@ + "gt"@ + "_to_"@ + "ge"@);
    reveal_strlit("relational.gt_to_lt");
    assert("relational.gt_to_lt"@ =~= "relational"@ + "."@ + "gt"@ + "_to_"@ + "lt"@);
}

proof fn lemma_ge()
    ensures
        replacements_of(Op::Ge).len() == 2,
        exchanges(Op::Ge, replacements_of(Op::Ge)[0], Op::Gt),
        exchanges(Op::Ge, replacements_of(Op::Ge)[1], Op::Le),
{
    lemma_assign_family();
    reveal_strlit("relational");
    reveal_strlit(".");
    reveal_strlit("_to_");
    reveal_strlit("ge");
    reveal_strlit("gt");
    reveal_strlit("le");
    reveal_strlit("relational.ge_to_gt");
    assert("relational.ge_to_gt"@ =~= "relational"@ + "."@ + "ge"@ + "_to_"@ + "gt"@);
    reveal_strlit("relational.ge_to_le");
    assert("relational.ge_to_le"@ =~= "relational"@ + "."@ + "ge"@ + "_to_"@ + "le"@);
}

proof fn lemma_eq()
    ensures
        replacements_of(Op::Eq).len() == 1,
        exchanges(Op::Eq, replacements_of(Op::Eq)[0], Op::Ne),
{
    lemma_assign_family();
    reveal_strlit("relational");
    reveal_strlit(".");
    reveal_strlit("_to_");
    reveal_strlit("eq");
    reveal_strlit("ne");
    reveal_strlit("relational.eq_to_ne");
    assert("relational.eq_to_ne"@ =~= "relational"@ + "."@ + "eq"@ + "_to_"@ + "ne"@);
}

proof fn lemma_ne()
    ensures
        replacements_of(Op::Ne).len() == 1,
        exchanges(Op::Ne, replacements_of(Op::Ne)[0], Op::Eq),
{
    lemma_assign_family();
    reveal_strlit("relational");
    reveal_strlit(".");
    reveal_strlit("_to_");
    reveal_strlit("ne");
    reveal_strlit("eq");
    reveal_strlit("relational.ne_to_eq");
    assert("relational.ne_to_eq"@ =~= "relational"@ + "."@ + "ne"@ + "_to_"@ + "eq"@);
}

proof fn lemma_add()
    ensures
        replacements_of(Op::Add).len() == 2,
        exchanges(Op::Add, replacements_of(Op::Add)[0], Op::Sub),
        exchanges(Op::Add, replacements_of(Op::Add)[1], Op::Mul),
{
    lemma_assign_family();
    reveal_strlit("arith");
    reveal_strlit(".");
    reveal_strlit("_to_");
    reveal_strlit("add");
    reveal_strlit("sub");
    reveal_strlit("mul");
    reveal_strlit("arith.add_to_sub");
    assert("arith.add_to_sub"@ =~= "arith"@ + "."@ + "add"@ + "_to_"@ + "sub"@);
    reveal_strlit("arith.add_to_mul");
    assert("arith.add_to_mul"@ =~= "arith"@ + "."@ + "add"@ + "_to_"@ + "mul"@);
}

proof fn lemma_sub()
    ensures
        replacements_of(Op::Sub).len() == 2,
        exchanges(Op::Sub, replacements_of(Op::Sub)[0], Op::Add),
        exchanges(Op::Sub, replacements_of(Op::Sub)[1], Op::Div),
{
    lemma_assign_family();
    reveal_strlit("arith");
    reveal_strlit(".");
    reveal_strlit("_to_");
    reveal_strlit("sub");
    reveal_strlit("add");
    reveal_strlit("div");
    reveal_strlit("arith.sub_to_add");
    assert("arith.sub_to_add"@ =~= "arith"@ + "."@ + "sub"@ + "_to_"@ + "add"@);
    reveal_strlit("arith.sub_to_div");
    assert("arith.sub_to_div"@ =~= "arith"@ + "."@ + "sub"@ + "_to_"@ + "div"@);
}

proof fn lemma_mul()
    ensures
        replacements_of(Op::Mul).len() == 2,
        exchanges(Op::Mul, replacements_of(Op::Mul)[0], Op::Div),
        exchanges(Op::Mul, replacements_of(Op::Mul)[1], Op::Add),
{
    lemma_assign_family();
    reveal_strlit("arith");
    reveal_strlit(".");
    reveal_strlit("_to_");
    reveal_strlit("mul");
    reveal_strlit("div");
    reveal_strlit("add");
    reveal_strlit("arith.mul_to_div");
    assert("arith.mul_to_div"@ =~= "arith"@ + "."@ + "mul"@ + "_to_"@ + "div"@);
    reveal_strlit("arith.mul_to_add");
    assert("arith.mul_to_add"@ =~= "arith"@ + "."@ + "mul"@ + "_to_"@ + "add"@);
}

proof fn lemma_div()
    ensures
        replacements_of(Op::Div).len() == 2,
        exchanges(Op::Div, replacements_of(Op::Div)[0], Op::Mul),
        exchanges(Op::Div, replacements_of(Op::Div)[1], Op::Rem),
{
    lemma_assign_family();
    reveal_strlit("arith");
    reveal_strlit(".");
    reveal_strlit("_to_");
    reveal_strlit("div");
    reveal_strlit("mul");
    reveal_strlit("rem");
    reveal_strlit("arith.div_to_mul");
    assert("arith.div_to_mul"@ =~= "arith"@ + "."@ + "div"@ + "_to_"@ + "mul"@);
    reveal_strlit("arith.div_to_rem");
    assert("arith.div_to_rem"@ =~= "arith"@ + "."@ + "div"@ + "_to_"@ + "rem"@);
}

proof fn lemma_rem()
    ensures
        replacements_of(Op::Rem).len() == 2,
        exchanges(Op::Rem, replacements_of(Op::Rem)[0], Op::Div),
        exchanges(Op::Rem, replacements_of(Op::Rem)[1], Op::Mul),
{
    lemma_assign_family();
    reveal_strlit("arith");
    reveal_strlit(".");
    reveal_strlit("_to_");
    reveal_strlit("rem");
    reveal_strlit("div");
    reveal_strlit("mul");
    reveal_strlit("arith.rem_to_div");
    assert("arith.rem_to_div"@ =~= "arith"@ + "."@ + "rem"@ + "_to_"@ + "div"@);
    reveal_strlit("arith.rem_to_mul");
    assert("arith.rem_to_mul"@ =~= "arith"@ + "."@ + "rem"@ + "_to_"@ + "mul"@);
}

proof fn lemma_bitand()
    ensures
        replacements_of(Op::BitAnd).len() == 2,
        exchanges(Op::BitAnd, replacements_of(Op::BitAnd)[0], Op::BitOr),
        exchanges(Op::BitAnd, replacements_of(Op::BitAnd)[1], Op::BitXor),
{
    lemma_assign_family();
    reveal_strlit("bitwise");
    reveal_strlit(".");
    reveal_strlit("_to_");
    reveal_strlit("and");
    reveal_strlit("or");
    reveal_strlit("xor");
    reveal_strlit("bitwise.and_to_or");
    assert("bitwise.and_to_or"@ =~= "bitwise"@ + "."@ + "and"@ + "_to_"@ + "or"@);
    reveal_strlit("bitwise.and_to_xor");
    assert("bitwise.and_to_xor"@ =~= "bitwise"@ + "."@ + "and"@ + "_to_"@ + "xor"@);
}

proof fn lemma_bitor()
    ensures
        replacements_of(Op::BitOr).len() == 1,
        exchanges(Op::BitOr, replacements_of(Op::BitOr)[0], Op::BitAnd),
{
    lemma_assign_family();
    reveal_strlit("bitwise");
    reveal_strlit(".");
    reveal_strlit("_to_");
    reveal_strlit("or");
    reveal_strlit("and");
    reveal_strlit("bitwise.or_to_and");
    assert("bitwise.or_to_and"@ =~= "bitwise"@ + "."@ + "or"@ + "_to_"@ + "and"@);
}

proof fn lemma_bitxor()
    ensures
        replacements_of(Op::BitXor).len() == 1,
        exchanges(Op::BitXor, replacements_of(Op::BitXor)[0], Op::BitAnd),
{
    lemma_assign_family();
    reveal_strlit("bitwise");
    reveal_strlit(".");
    reveal_strlit("_to_");
    reveal_strlit("xor");
    reveal_strlit("and");
    reveal_strlit("bitwise.xor_to_and");
    assert("bitwise.xor_to_and"@ =~= "bitwise"@ + "."@ + "xor"@ + "_to_"@ + "and"@);
}

proof fn lemma_shl()
    ensures
        replacements_of(Op::Shl).len() == 1,
        exchanges(Op::Shl, replacements_of(Op::Shl)[0], Op::Shr),
{
    lemma_assign_family();
    reveal_strlit("shift");
    reveal_strlit(".");
    reveal_strlit("_to_");
    reveal_strlit("shl");
    reveal_strlit("shr");
    reveal_strlit("shift.shl_to_shr");
    assert("shift.shl_to_shr"@ =~= "shift"@ + "."@ + "shl"@ + "_to_"@ + "shr"@);
}

proof fn lemma_shr()
    ensures
        replacements_of(Op::Shr).len() == 1,
        exchanges(Op::Shr, replacements_of(Op::Shr)[0], Op::Shl),
{
    lemma_assign_family();
    reveal_strlit("shift");
    reveal_strlit(".");
    reveal_strlit("_to_");
    reveal_strlit("shr");
    reveal_strlit("shl");
    reveal_strlit("shift.shr_to_shl");
    assert("shift.shr_to_shl"@ =~= "shift"@ + "."@ + "shr"@ + "_to_"@ + "shl"@);
}

proof fn lemma_and()
    ensures
        replacements_of(Op::And).len() == 1,
        exchanges(Op::And, replacements_of(Op::And)[0], Op::Or),
{
    lemma_assign_family();
    reveal_strlit("logical");
    reveal_strlit(".");
    reveal_strlit("_to_");
    reveal_strlit("and");
    reveal_strlit("or");
    reveal_strlit("logical.and_to_or");
    assert("logical.and_to_or"@ =~= "logical"@ + "."@ + "and"@ + "_to_"@ + "or"@);
}

proof fn lemma_or()
    ensures
        replacements_of(Op::Or).len() == 1,
        exchanges(Op::Or, replacements_of(Op::Or)[0], Op::And),
{
    lemma_assign_family();
    reveal_strlit("logical");
    reveal_strlit(".");
    reveal_strlit("_to_");
    reveal_strlit("or");
    reveal_strlit("and");
    reveal_strlit("logical.or_to_and");
    assert("logical.or_to_and"@ =~= "logical"@ + "."@ + "or"@ + "_to_"@ + "and"@);
}

proof fn lemma_addassign()
    ensures
        replacements_of(Op::AddAssign).len() == 1,
        exchanges(Op::AddAssign, replacements_of(Op::AddAssign)[0], Op::SubAssign),
{
    lemma_assign_family();
    reveal_strlit("assign");
    reveal_strlit(".");
    reveal_strlit("_to_");
    reveal_strlit("add");
    reveal_strlit("sub");
    reveal_strlit("assign.add_to_sub");
    assert("assign.add_to_sub"@ =~= "assign"@ + "."@ + "add"@ + "_to_"@ + "sub"@);
}

proof fn lemma_subassign()
    ensures
        replacements_of(Op::SubAssign).len() == 1,
        exchanges(Op::SubAssign, replacements_of(Op::SubAssign)[0], Op::AddAssign),
{
    lemma_assign_family();
    reveal_strlit("assign");
    reveal_strlit(".");
    reveal_strlit("_to_");
    reveal_strlit("sub");
    reveal_strlit("add");
    reveal_strlit("assign.sub_to_add");
    assert("assign.sub_to_add"@ =~= "assign"@ + "."@ + "sub"@ + "_to_"@ + "add"@);
}

proof fn lemma_mulassign()
    ensures
        replacements_of(Op::MulAssign).len() == 1,
        exchanges(Op::MulAssign, replacements_of(Op::MulAssign)[0], Op::DivAssign),
{
    lemma_assign_family();
    reveal_strlit("assign");
    reveal_strlit(".");
    reveal_strlit("_to_");
    reveal_strlit("mul");
    reveal_strlit("div");
    reveal_strlit("assign.mul_to_div");
    assert("assign.mul_to_div"@ =~= "assign"@ + "."@ + "mul"@ + "_to_"@ + "div"@);
}

proof fn lemma_divassign()
    ensures
        replacements_of(Op::DivAssign).len() == 1,
        exchanges(Op::DivAssign, replacements_of(Op::DivAssign)[0], Op::MulAssign),
{
    lemma_assign_family();
    reveal_strlit("assign");
    reveal_strlit(".");
    reveal_strlit("_to_");
    reveal_strlit("div");
    reveal_strlit("mul");
    reveal_strlit("assign.div_to_mul");
    assert("assign.div_to_mul"@ =~= "assign"@ + "."@ + "div"@ + "_to_"@ + "mul"@);
}

proof fn lemma_remassign()
    ensures
        replacements_of(Op::RemAssign).len() == 1,
        exchanges(Op::RemAssign, replacements_of(Op::RemAssign)[0], Op::DivAssign),
{
    lemma_assign_family();
    reveal_strlit("assign");
    reveal_strlit(".");
    reveal_strlit("_to_");
    reveal_strlit("rem");
    reveal_strlit("div");
    reveal_strlit("assign.rem_to_div");
    assert("assign.rem_to_div"@ =~= "assign"@ + "."@ + "rem"@ + "_to_"@ + "div"@);
}

proof fn lemma_bitandassign()
    ensures
        replacements_of(Op::BitAndAssign).len() == 1,
        exchanges(Op::BitAndAssign, replacements_of(Op::BitAndAssign)[0], Op::BitOrAssign),
{
    lemma_assign_family();
    reveal_strlit("assign");
    reveal_strlit(".");
    reveal_strlit("_to_");
    reveal_strlit("and");
    reveal_strlit("or");
    reveal_strlit("assign.and_to_or");
    assert("assign.and_to_or"@ =~= "assign"@ + "."@ + "and"@ + "_to_"@ + "or"@);
}

proof fn lemma_bitorassign()
    ensures
        replacements_of(Op::BitOrAssign).len() == 1,
        exchanges(Op::BitOrAssign, replacements_of(Op::BitOrAssign)[0], Op::BitAndAssign),
{
    lemma_assign_family();
    reveal_strlit("assign");
    reveal_strlit(".");
    reveal_strlit("_to_");
    reveal_strlit("or");
    reveal_strlit("and");
    reveal_strlit("assign.or_to_and");
    assert("assign.or_to_and"@ =~= "assign"@ + "."@ + "or"@ + "_to_"@ + "and"@);
}

proof fn lemma_bitxorassign()
    ensures
        replacements_of(Op::BitXorAssign).len() == 1,
        exchanges(Op::BitXorAssign, replacements_of(Op::BitXorAssign)[0], Op::BitAndAssign),
{
    lemma_assign_family();
    reveal_strlit("assign");
    reveal_strlit(".");
    reveal_strlit("_to_");
    reveal_strlit("xor");
    reveal_strlit("and");
    reveal_strlit("assign.xor_to_and");
    assert("assign.xor_to_and"@ =~= "assign"@ + "."@ + "xor"@ + "_to_"@ + "and"@);
}

proof fn lemma_shlassign()
    ensures
        replacements_of(Op::ShlAssign).len() == 1,
        exchanges(Op::ShlAssign, replacements_of(Op::ShlAssign)[0], Op::ShrAssign),
{
    lemma_assign_family();
    reveal_strlit("assign");
    reveal_strlit(".");
    reveal_strlit("_to_");
    reveal_strlit("shl");
    reveal_strlit("shr");
    reveal_strlit("assign.shl_to_shr");
    assert("assign.shl_to_shr"@ =~= "assign"@ + "."@ + "shl"@ + "_to_"@ + "shr"@);
}

proof fn lemma_shrassign()
    ensures
        replacements_of(Op::ShrAssign).len() == 1,
        exchanges(Op::ShrAssign, replacements_of(Op::ShrAssign)[0], Op::ShlAssign),
{
    lemma_assign_family();
    reveal_strlit("assign");
    reveal_strlit(".");
    reveal_strlit("_to_");
    reveal_strlit("shr");
    reveal_strlit("shl");
    reveal_strlit("assign.shr_to_shl");
    assert("assign.shr_to_shl"@ =~= "assign"@ + "."@ + "shr"@ + "_to_"@ + "shl"@);
}

pub(crate) proof fn lemma_assign_family()
    ensures
        "relational"@ != "assign"@,
        "arith"@ != "assign"@,
        "bitwise"@ != "assign"@,
        "shift"@ != "assign"@,
        "logical"@ != "assign"@,
{
    reveal_strlit("assign");
    assert("assign"@.len() == 6);
    reveal_strlit("relational");
    assert("relational"@.len() == 10);
    reveal_strlit("arith");
    assert("arith"@.len() == 5);
    reveal_strlit("bitwise");
    assert("bitwise"@.len() == 7);
    reveal_strlit("shift");
    assert("shift"@.len() == 5);
    reveal_strlit("logical");
    assert("logical"@.len() == 7);
}

/// Every replacement of an operator exchanges it for another, and every exchange is a replacement.
proof fn lemma_exchanges(op: Op)
    ensures
        forall|i: int| 0 <= i < replacements_of(op).len() ==> exists|other: Op| #[trigger] exchanges(op, #[trigger] replacements_of(op)[i], other),
        forall|other: Op| #[trigger] is_exchanged(op, other) ==> exists|i: int|
            0 <= i < replacements_of(op).len() && exchanges(op, #[trigger] replacements_of(op)[i], other),
{
    match op {
        Op::Lt => lemma_lt(),
        Op::Le => lemma_le(),
        Op::Gt => lemma_gt(),
        Op::Ge => lemma_ge(),
        Op::Eq => lemma_eq(),
        Op::Ne => lemma_ne(),
        Op::Add => lemma_add(),
        Op::Sub => lemma_sub(),
        Op::Mul => lemma_mul(),
        Op::Div => lemma_div(),
        Op::Rem => lemma_rem(),
        Op::BitAnd => lemma_bitand(),
        Op::BitOr => lemma_bitor(),
        Op::BitXor => lemma_bitxor(),
        Op::Shl => lemma_shl(),
        Op::Shr => lemma_shr(),
        Op::And => lemma_and(),
        Op::Or => lemma_or(),
        Op::AddAssign => lemma_addassign(),
        Op::SubAssign => lemma_subassign(),
        Op::MulAssign => lemma_mulassign(),
        Op::DivAssign => lemma_divassign(),
        Op::RemAssign => lemma_remassign(),
        Op::BitAndAssign => lemma_bitandassign(),
        Op::BitOrAssign => lemma_bitorassign(),
        Op::BitXorAssign => lemma_bitxorassign(),
        Op::ShlAssign => lemma_shlassign(),
        Op::ShrAssign => lemma_shrassign(),
        Op::Other => {},
    }
    if op == Op::Lt {
        assert(exchanges(op, replacements_of(op)[0], Op::Le));
        assert(exchanges(op, replacements_of(op)[1], Op::Gt));
    }
    if op == Op::Le {
        assert(exchanges(op, replacements_of(op)[0], Op::Lt));
        assert(exchanges(op, replacements_of(op)[1], Op::Ge));
    }
    if op == Op::Gt {
        assert(exchanges(op, replacements_of(op)[0], Op::Ge));
        assert(exchanges(op, replacements_of(op)[1], Op::Lt));
    }
    if op == Op::Ge {
        assert(exchanges(op, replacements_of(op)[0], Op::Gt));
        assert(exchanges(op, replacements_of(op)[1], Op::Le));
    }
    if op == Op::Eq {
        assert(exchanges(op, replacements_of(op)[0], Op::Ne));
    }
    if op == Op::Ne {
        assert(exchanges(op, replacements_of(op)[0], Op::Eq));
    }
    if op == Op::Add {
        assert(exchanges(op, replacements_of(op)[0], Op::Sub));
        assert(exchanges(op, replacements_of(op)[1], Op::Mul));
    }
    if op == Op::Sub {
        assert(exchanges(op, replacements_of(op)[0], Op::Add));
        assert(exchanges(op, replacements_of(op)[1], Op::Div));
    }
    if op == Op::Mul {
        assert(exchanges(op, replacements_of(op)[0], Op::Div));
        assert(exchanges(op, replacements_of(op)[1], Op::Add));
    }
    if op == Op::Div {
        assert(exchanges(op, replacements_of(op)[0], Op::Mul));
        assert(exchanges(op, replacements_of(op)[1], Op::Rem));
    }
    if op == Op::Rem {
        assert(exchanges(op, replacements_of(op)[0], Op::Div));
        assert(exchanges(op, replacements_of(op)[1], Op::Mul));
    }
    if op == Op::BitAnd {
        assert(exchanges(op, replacements_of(op)[0], Op::BitOr));
        assert(exchanges(op, replacements_of(op)[1], Op::BitXor));
    }
    if op == Op::BitOr {
        assert(exchanges(op, replacements_of(op)[0], Op::BitAnd));
    }
    if op == Op::BitXor {
        assert(exchanges(op, replacements_of(op)[0], Op::BitAnd));
    }
    if op == Op::Shl {
        assert(exchanges(op, replacements_of(op)[0], Op::Shr));
    }
    if op == Op::Shr {
        assert(exchanges(op, replacements_of(op)[0], Op::Shl));
    }
    if op == Op::And {
        assert(exchanges(op, replacements_of(op)[0], Op::Or));
    }
    if op == Op::Or {
        assert(exchanges(op, replacements_of(op)[0], Op::And));
    }
    if op == Op::AddAssign {
        assert(exchanges(op, replacements_of(op)[0], Op::SubAssign));
    }
    if op == Op::SubAssign {
        assert(exchanges(op, replacements_of(op)[0], Op::AddAssign));
    }
    if op == Op::MulAssign {
        assert(exchanges(op, replacements_of(op)[0], Op::DivAssign));
    }
    if op == Op::DivAssign {
        assert(exchanges(op, replacements_of(op)[0], Op::MulAssign));
    }
    if op == Op::RemAssign {
        assert(exchanges(op, replacements_of(op)[0], Op::DivAssign));
    }
    if op == Op::BitAndAssign {
        assert(exchanges(op, replacements_of(op)[0], Op::BitOrAssign));
    }
    if op == Op::BitOrAssign {
        assert(exchanges(op, replacements_of(op)[0], Op::BitAndAssign));
    }
    if op == Op::BitXorAssign {
        assert(exchanges(op, replacements_of(op)[0], Op::BitAndAssign));
    }
    if op == Op::ShlAssign {
        assert(exchanges(op, replacements_of(op)[0], Op::ShrAssign));
    }
    if op == Op::ShrAssign {
        assert(exchanges(op, replacements_of(op)[0], Op::ShlAssign));
    }
}

proof fn lemma_operator_offered(s: Setting, c: Scope, e: Node, all: Seq<(Seq<char>, Seq<char>)>, assigns: bool, i: int)
    requires
        0 <= i < all.len(),
    ensures
        offered(
            s,
            c,
            operator_offers(s, c, e, all, assigns),
            e,
            all[i].0,
            operation(source_of(s.text, e.kids@[0]), all[i].1, source_of(s.text, e.kids@[2]), assigns),
            Shape::Expr,
        ),
    decreases all.len(),
{
    let (mutator, operator) = all.last();
    let text = operation(source_of(s.text, e.kids@[0]), operator, source_of(s.text, e.kids@[2]), assigns);
    let index = ordinal(all.len() - 1);
    let front = operator_offers(s, c, e, all.drop_last(), assigns);
    let own = offer_over(s, c, mutator, e, text, index, Shape::Expr);
    let wanted = operation(source_of(s.text, e.kids@[0]), all[i].1, source_of(s.text, e.kids@[2]), assigns);
    if i < all.len() - 1 {
        lemma_operator_offered(s, c, e, all.drop_last(), assigns, i);
    } else {
        lemma_offered_over(s, c, mutator, e, text, index, Shape::Expr);
    }
    lemma_offered_join(s, c, front, own, e, all[i].0, wanted, Shape::Expr);
}

/// An operator between two operands is exchanged for each of those that it can be taken for, unless a
/// pattern is bound there, and the mutator is named for the two.
pub proof fn law_operators_are_exchanged(s: Setting, c: Scope, e: Node, op: Op, other: Op)
    requires
        e.kind == Kind::Binary,
        e.kids@.len() == 3,
        e.kids@[1].kind == Kind::Operator(op),
        is_exchanged(op, other),
        !is_left_alone(e, s.cfg),
        op == Op::And ==> !binding(e.kids@[0]) && !binding(e.kids@[2]),
    ensures
        offered(
            s,
            c,
            visit(s, c, e),
            e,
            exchange(op, other),
            written(source_of(s.text, e.kids@[0]), other, source_of(s.text, e.kids@[2])),
            Shape::Expr,
        ),
{
    lemma_exchanges(op);
    let all = replacements_of(op);
    let i = choose|i: int| 0 <= i < all.len() && exchanges(op, #[trigger] all[i], other);
    lemma_operator_offered(s, c, e, all, assigning(op), i);
    let (left, right) = (source_of(s.text, e.kids@[0]), source_of(s.text, e.kids@[2]));
    assert(operation(left, all[i].1, right, assigning(op)) == written(left, other, right));
    assert(own_offers(s, c, e) == operator_offers(s, c, e, all, assigning(op)));
    lemma_own_offered(s, c, e, e, exchange(op, other), written(left, other, right), Shape::Expr);
}

/// Nothing else is done to an operator.
pub proof fn law_nothing_else_is_done_to_operators(s: Setting, c: Scope, e: Node, op: Op, i: int)
    requires
        e.kind == Kind::Binary,
        e.kids@.len() == 3,
        e.kids@[1].kind == Kind::Operator(op),
        0 <= i < own_offers(s, c, e).len(),
    ensures
        exists|other: Op| #[trigger]
            is_exchanged(op, other) && own_offers(s, c, e)[i].mutator == exchange(op, other) && own_offers(s, c, e)[i].replacement == written(
                source_of(s.text, e.kids@[0]),
                other,
                source_of(s.text, e.kids@[2]),
            ),
        own_offers(s, c, e)[i].start == e.start,
        own_offers(s, c, e)[i].end == e.end,
{
    lemma_exchanges(op);
    let all = replacements_of(op);
    let k = lemma_from_operator(s, c, e, all, assigning(op), i);
    let other = choose|other: Op| #[trigger] exchanges(op, all[k], other);
    assert(exchanges(op, all[k], other));
    assert(is_exchanged(op, other));
}

proof fn lemma_from_operator(s: Setting, c: Scope, e: Node, all: Seq<(Seq<char>, Seq<char>)>, assigns: bool, i: int) -> (k: int)
    requires
        0 <= i < operator_offers(s, c, e, all, assigns).len(),
    ensures
        0 <= k < all.len(),
        ({
            let o = operator_offers(s, c, e, all, assigns)[i];
            &&& o.mutator == all[k].0
            &&& o.replacement == operation(source_of(s.text, e.kids@[0]), all[k].1, source_of(s.text, e.kids@[2]), assigns)
            &&& o.start == e.start
            &&& o.end == e.end
        }),
    decreases all.len(),
{
    let front = operator_offers(s, c, e, all.drop_last(), assigns);
    if i < front.len() {
        lemma_from_operator(s, c, e, all.drop_last(), assigns, i)
    } else {
        all.len() - 1
    }
}

} // verus!
