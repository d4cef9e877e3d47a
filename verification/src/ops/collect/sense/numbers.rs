//! What is known to be a number, and where a mutant is.
use super::super::collector::indexes::{declaring, declaring_fields, importing, using, wanted_by, Evidence};
use super::super::collector::naming::{compact_from, layout_free, source_of};
use super::super::collector::predicates::{called_type, constant_case, digits, names_number, proves_number, yields_number};
use super::super::collector::resolve::{is_number, is_numeric_type_node, output_class};
use super::super::collector::scope::{known_numeric, latest, Scope, Setting};
use super::super::collector::visit::{body_scope, bound, function_scope, implementation_scope, parameters};
use crate::cfg::Build;
use crate::syntax::query::{last_name, path_ident};
use crate::syntax::{Kind, Node, Op};
use vstd::prelude::*;

verus! {

/// Whether an expression is a name and nothing more.
pub open spec fn is_name(e: Node, name: Seq<char>) -> bool {
    &&& e.kind == Kind::PathExpr
    &&& e.kids@.len() == 2
    &&& e.first_of(0) is None
    &&& path_ident(e.kids@[1]) == Some(name)
    &&& last_name(e.kids@[1]) == Some(name)
}

/// Whether an expression is two others with an operator between them.
pub open spec fn is_between(e: Node, left: Node, op: Op, right: Node) -> bool {
    &&& e.kind == Kind::Binary
    &&& e.kids@.len() == 3
    &&& e.kids@[0] == left
    &&& e.kids@[1].kind == Kind::Operator(op)
    &&& e.kids@[2] == right
}

/// A difference, a product, a quotient, a remainder and what has a sign are numbers. A sum is one where
/// either part is, since text is added to too. Comparisons and what is done to bits are not known to be.
pub proof fn law_arithmetic_gives_numbers(s: Setting, c: Scope, e: Node, left: Node, op: Op, right: Node)
    ensures
        is_between(e, left, op, right) && (op == Op::Sub || op == Op::Mul || op == Op::Div || op == Op::Rem) ==> known_numeric(s, c, e),
        is_between(e, left, Op::Add, right) ==> (known_numeric(s, c, e) <==> known_numeric(s, c, left) || known_numeric(s, c, right)),
        is_between(e, left, op, right) && op != Op::Add && op != Op::Sub && op != Op::Mul && op != Op::Div && op != Op::Rem
            ==> !known_numeric(s, c, e),
        e.kind == Kind::Negate ==> known_numeric(s, c, e),
        e.kind == Kind::Not || e.kind == Kind::Lit ==> !known_numeric(s, c, e),
        e.kind == Kind::Paren && e.kids@.len() > 0 ==> (known_numeric(s, c, e) <==> known_numeric(s, c, e.kids@[0])),
        e.kind == Kind::Cast && e.kids@.len() > 1 ==> (known_numeric(s, c, e) <==> is_numeric_type_node(e.kids@[1])),
        e.kind == Kind::MethodCall && e.kids@.len() > 1 ==> (known_numeric(s, c, e) <==> yields_number(e.kids@[1].text@)),
        e.kind == Kind::Call && e.kids@.len() > 0 ==> (known_numeric(s, c, e) <==> (called_type(e.kids@[0]) matches Some(name)
            && names_number(name))),
{
}

/// A name is a number where the last binding of it says so. Where it is not bound, it is one if it is used as
/// one, or is a constant that is declared as one or is not declared and written as constants are.
pub proof fn law_a_name_is_a_number_where_it_is_bound_as_one(s: Setting, c: Scope, e: Node, name: Seq<char>, numeric: bool)
    requires
        is_name(e, name),
        !constant_case(name),
        !s.evidence.constants.contains_key(name),
    ensures
        known_numeric(s, c.binding(name, numeric), e) == numeric,
        c.bindings.len() == 0 ==> known_numeric(s, c, e) == s.evidence.names.contains(name),
{
    let inner = c.binding(name, numeric);
    assert(inner.bindings.last() == (name, numeric));
    assert(latest(inner.bindings, name) == Some(numeric));
}

/// A binding says nothing of other names.
pub proof fn law_a_binding_says_nothing_of_other_names(s: Setting, c: Scope, e: Node, name: Seq<char>, other: Seq<char>, numeric: bool)
    requires
        is_name(e, name),
        name != other,
    ensures
        known_numeric(s, c.binding(other, numeric), e) == known_numeric(s, c, e),
{
    let inner = c.binding(other, numeric);
    assert(inner.bindings.last() == (other, numeric));
    assert(inner.bindings.drop_last() =~= c.bindings);
    assert(latest(inner.bindings, name) == latest(c.bindings, name));
}

/// A constant is a number where it is declared as one, and where it is not declared.
pub proof fn law_a_constant_is_a_number_as_it_is_declared(s: Setting, c: Scope, e: Node, name: Seq<char>)
    requires
        is_name(e, name),
        latest(c.bindings, name) is None,
        !s.evidence.names.contains(name),
    ensures
        s.evidence.constants.contains_key(name) ==> known_numeric(s, c, e) == s.evidence.constants[name],
        !s.evidence.constants.contains_key(name) ==> known_numeric(s, c, e) == constant_case(name),
{
}

/// Whether an expression reads a field of something.
pub open spec fn is_field(e: Node, name: Seq<char>) -> bool {
    e.kind == Kind::FieldAccess && e.kids@.len() == 2 && e.kids@[1].kind == Kind::MemberNamed && e.kids@[1].word(0) == name
}

/// A field is a number where each declaration of one by its name says so, and where none is declared and it is
/// used as one.
pub proof fn law_a_field_is_a_number_as_it_is_declared(s: Setting, c: Scope, e: Node, name: Seq<char>)
    requires
        is_field(e, name),
    ensures
        s.evidence.fields.contains_key(name) ==> known_numeric(s, c, e) == s.evidence.fields[name],
        !s.evidence.fields.contains_key(name) ==> known_numeric(s, c, e) == s.evidence.used_fields.contains(name),
{
}

/// What is declared twice is a number only if both declarations say so, in whichever order, and one
/// declaration says nothing of other names.
pub proof fn law_declarations_must_agree(known: Map<Seq<char>, bool>, name: Seq<char>, one: bool, two: bool, other: Seq<char>)
    ensures
        !known.contains_key(name) ==> declaring(known, name, one)[name] == one,
        declaring(declaring(known, name, one), name, two)[name] ==> one && two,
        declaring(declaring(known, name, one), name, two) =~= declaring(declaring(known, name, two), name, one),
        declaring(known, name, one).contains_key(name),
        other != name ==> (declaring(known, name, one).contains_key(other) <==> known.contains_key(other)),
        other != name && known.contains_key(other) ==> declaring(known, name, one)[other] == known[other],
{
}

/// The fields of a structure are declared by their types.
pub proof fn law_a_field_is_declared_by_its_type(known: Map<Seq<char>, bool>, fields: Seq<Node>, field: Node, name: Node, cfg: Build)
    requires
        field.kids@.len() == 3,
        field.first_of(0) == Some(name),
    ensures
        !cfg.skips(field.attrs@) ==> declaring_fields(known, fields.push(field), cfg).contains_key(name.text@),
        !cfg.skips(field.attrs@) && !is_numeric_type_node(field.kids@[1]) ==> !declaring_fields(known, fields.push(field), cfg)[name.text@],
        !cfg.skips(field.attrs@) && is_numeric_type_node(field.kids@[1]) && !declaring_fields(known, fields, cfg).contains_key(name.text@)
            ==> declaring_fields(known, fields.push(field), cfg)[name.text@],
        cfg.skips(field.attrs@) ==> declaring_fields(known, fields.push(field), cfg) == declaring_fields(known, fields, cfg),
{
    assert(fields.push(field).drop_last() =~= fields);
}

/// Whether an operator is applied to numbers alone.
pub open spec fn takes_numbers(op: Op) -> bool {
    op == Op::Sub || op == Op::Mul || op == Op::Div || op == Op::Rem || op == Op::SubAssign || op == Op::MulAssign || op == Op::DivAssign || op
        == Op::RemAssign
}

/// Whether an operator is applied to numbers where one operand is written as one.
pub open spec fn takes_numbers_too(op: Op) -> bool {
    op == Op::Add || op == Op::AddAssign || op == Op::Lt || op == Op::Gt || op == Op::Le || op == Op::Ge
}

/// A name is used as a number where it is an operand of what takes numbers alone, or stands beside a number
/// that is written out. No other operator says so.
pub proof fn law_operands_are_used_as_numbers(e: Node, left: Node, op: Op, right: Node, name: Seq<char>, cfg: Build)
    requires
        is_between(e, left, op, right),
    ensures
        is_name(left, name) && takes_numbers(op) ==> Evidence::nothing().counting(e, cfg).names.contains(name),
        is_name(right, name) && takes_numbers(op) ==> Evidence::nothing().counting(e, cfg).names.contains(name),
        is_name(left, name) && takes_numbers_too(op) && digits(right) is Some ==> Evidence::nothing().counting(e, cfg).names.contains(name),
        is_name(right, name) && takes_numbers_too(op) && digits(left) is Some ==> Evidence::nothing().counting(e, cfg).names.contains(name),
        takes_numbers_too(op) && digits(left) is None && digits(right) is None ==> Evidence::nothing().counting(e, cfg) == Evidence::nothing(),
        !takes_numbers(op) && !takes_numbers_too(op) ==> Evidence::nothing().counting(e, cfg) == Evidence::nothing(),
        is_field(left, name) && takes_numbers(op) ==> Evidence::nothing().counting(e, cfg).used_fields.contains(name),
{
    let none = Evidence::nothing();
    lemma_used_keeps(none.used(left), right);
    lemma_used_keeps(none, left);
    lemma_used_name(none, left, name);
    lemma_used_name(none.used(left), right, name);
    lemma_used_name(none, right, name);
    if digits(right) is Some {
        lemma_digits_unused(none, right);
        lemma_digits_unused(none.used(left), right);
    }
    if digits(left) is Some {
        lemma_digits_unused(none, left);
    }
}

proof fn lemma_used_keeps(known: Evidence, e: Node)
    ensures
        known.names.subset_of(known.used(e).names),
        known.used_fields.subset_of(known.used(e).used_fields),
    decreases e,
{
    if (e.kind == Kind::Paren || e.kind == Kind::Reference) && e.kids@.len() > 0 {
        lemma_used_keeps(known, e.kids@[0]);
    }
}

proof fn lemma_used_name(known: Evidence, e: Node, name: Seq<char>)
    ensures
        is_name(e, name) ==> known.used(e).names.contains(name),
        is_field(e, name) ==> known.used(e).used_fields.contains(name),
{
}

proof fn lemma_digits_unused(known: Evidence, e: Node)
    requires
        digits(e) is Some,
    ensures
        known.used(e) == known,
    decreases e,
{
    if e.kind == Kind::Paren && e.kids@.len() > 0 {
        lemma_digits_unused(known, e.kids@[0]);
    }
}

/// A name is used as a number where it picks an element, where a method is called on it that only numbers
/// have, and where a loop counts with it.
pub proof fn law_other_uses_as_a_number(e: Node, name: Seq<char>, cfg: Build)
    ensures
        e.kind == Kind::Index && e.kids@.len() > 1 && is_name(e.kids@[1], name) ==> Evidence::nothing().counting(e, cfg).names.contains(name),
        e.kind == Kind::MethodCall && e.kids@.len() > 0 && is_name(e.kids@[0], name) ==> (Evidence::nothing().counting(e, cfg).names.contains(
            name,
        ) <==> proves_number(e.word(1))),
        e.kind == Kind::ForLoop && e.kids@.len() == 4 && e.kids@[1].kind == Kind::PatIdent && e.kids@[1].word(0) == name ==> (
        Evidence::nothing().counting(e, cfg).names.contains(name) <==> e.kids@[2].kind == (Kind::Range { closed: false }) || e.kids@[2].kind
            == (Kind::Range { closed: true })),
{
}

/// A binding with a type is what the type says, and one without is a number where its value is one.
pub proof fn law_bindings_are_what_they_are_declared(s: Setting, c: Scope, statement: Node, pat: Node)
    requires
        statement.kind == Kind::Local,
        statement.kids@.len() == 3,
        statement.kids@[0] == pat,
    ensures
        pat.kind == Kind::PatType && pat.kids@.len() == 2 && pat.kids@[0].kind == Kind::PatIdent ==> latest(
            bound(s, c, statement).bindings,
            pat.kids@[0].word(0),
        ) == Some(is_numeric_type_node(pat.kids@[1])),
        pat.kind == Kind::PatIdent && statement.first_of(2) is None && (statement.first_of(1) matches Some(value) && known_numeric(
            s,
            c,
            value,
        )) ==> latest(bound(s, c, statement).bindings, pat.word(0)) == Some(true),
{
    if pat.kind == Kind::PatType && pat.kids@.len() == 2 && pat.kids@[0].kind == Kind::PatIdent {
        let all = bound(s, c, statement).bindings;
        assert(all.last() == (pat.kids@[0].word(0), is_numeric_type_node(pat.kids@[1])));
    }
    if pat.kind == Kind::PatIdent && statement.first_of(2) is None && (statement.first_of(1) matches Some(value) && known_numeric(s, c, value)) {
        let all = bound(s, c, statement).bindings;
        assert(all.last() == (pat.word(0), true));
    }
}

/// Inside a function its parameters are what their types say, and what is bound outside is forgotten. What it
/// returns is a number where its type says so.
pub proof fn law_parameters_are_what_they_are_declared(s: Setting, c: Scope, sig: Node, input: Node)
    requires
        sig.kids@.len() == 4,
        sig.kids@[2].kids@.len() > 0,
        sig.kids@[2].kids@.last() == input,
        input.kind == Kind::Typed,
        input.kids@.len() == 2,
        input.kids@[0].kind == Kind::PatIdent,
    ensures
        latest(body_scope(s, c, sig).bindings, input.kids@[0].word(0)) == Some(is_numeric_type_node(input.kids@[1])),
        body_scope(s, c, sig).bindings.len() <= sig.kids@[2].kids@.len(),
        body_scope(s, c, sig).deferred.len() == 0,
        body_scope(s, c, sig).numeric_return <==> (output_class(sig.kids@[3]) matches Some(class) && is_number(class)),
{
    let all = parameters(sig.all_of(2));
    assert(all.last() == (input.kids@[0].word(0), is_numeric_type_node(input.kids@[1])));
    lemma_few_parameters(sig.all_of(2));
}

proof fn lemma_few_parameters(inputs: Seq<Node>)
    ensures
        parameters(inputs).len() <= inputs.len(),
    decreases inputs.len(),
{
    if inputs.len() > 0 {
        lemma_few_parameters(inputs.drop_last());
    }
}

/// A mutant is found by the names of what it is in, from the outside in.
pub proof fn law_places_are_named_from_the_outside_in(s: Setting, c: Scope, node: Node, sig: Node, parent: Seq<char>)
    requires
        node.kids@.len() > 0,
        node.kids@[0] == sig,
    ensures
        c.item is None ==> function_scope(s, c, node).item_path() == sig.word(0),
        c.item == Some(parent) ==> function_scope(s, c, node).item_path() == parent + seq![':', ':'] + sig.word(0),
        function_scope(s, c, node).trait_impl == c.trait_impl,
{
    reveal_strlit("::");
    assert("::"@ =~= seq![':', ':']);
}

/// An implementation is named by its type, and by the trait too where it is of one. What is inside it knows
/// the trait by its last name.
pub proof fn law_implementations_are_named_by_type_and_trait(s: Setting, c: Scope, node: Node)
    requires
        node.kids@.len() > 2,
        c.item is None,
    ensures
        ({
            let own = layout_free(source_of(s.text, node.kids@[2]));
            let inner = implementation_scope(s, c, node);
            &&& node.first_of(1) is None ==> inner.item_path() == own && inner.trait_impl is None && !inner.in_default_impl
            &&& node.first_of(1) is Some && compact_from(source_of(s.text, node.first_of(1)->0), 0).len() > 0 ==> inner.item_path() == seq!['<']
                + own + seq![' ', 'a', 's', ' '] + compact_from(source_of(s.text, node.first_of(1)->0), 0) + seq!['>']
            &&& node.first_of(1) matches Some(path) ==> inner.trait_impl == last_name(path)
            &&& inner.self_type == Some(node.kids@[2])
            &&& inner.implementation == Some(node)
        }),
{
    reveal_strlit("<");
    reveal_strlit(" as ");
    reveal_strlit(">");
    assert("<"@ =~= seq!['<']);
    assert(" as "@ =~= seq![' ', 'a', 's', ' ']);
    assert(">"@ =~= seq!['>']);
}

/// A name is imported from one place. From two it is not known which is meant, whatever comes later.
pub proof fn law_a_name_comes_from_one_place(
    known: Map<Seq<char>, Option<Seq<Seq<char>>>>,
    name: Seq<char>,
    one: Seq<Seq<char>>,
    two: Seq<Seq<char>>,
    other: Seq<char>,
)
    ensures
        !known.contains_key(name) ==> importing(known, name, one)[name] == Some(one),
        !known.contains_key(name) ==> importing(importing(known, name, one), name, one)[name] == Some(one),
        one != two ==> importing(importing(known, name, one), name, two)[name] is None,
        known.contains_key(name) && known[name] is None ==> importing(known, name, one)[name] is None,
        other != name ==> (importing(known, name, one).contains_key(other) <==> known.contains_key(other)),
        other != name && known.contains_key(other) ==> importing(known, name, one)[other] == known[other],
{
}

/// An import binds a name to the path in front of it, under its own name or the one that it is given, and
/// `self` binds the name of what it is in.
pub proof fn law_imports_bind_names_to_paths(prefix: Seq<Seq<char>>, tree: Node)
    ensures
        ({
            let none = Map::<Seq<char>, Option<Seq<Seq<char>>>>::empty();
            &&& tree.kind == Kind::UseName && tree.word(0) != "self"@ ==> using(none, prefix, tree) =~= none.insert(tree.word(0), Some(prefix))
            &&& tree.kind == Kind::UseName && tree.word(0) == "self"@ && prefix.len() > 0 ==> using(none, prefix, tree) =~= none.insert(
                prefix.last(),
                Some(prefix.drop_last()),
            )
            &&& tree.kind == Kind::UseRename ==> using(none, prefix, tree) =~= none.insert(tree.word(1), Some(prefix))
            &&& tree.kind == Kind::UsePath && tree.kids@.len() == 2 ==> using(none, prefix, tree) == using(
                none,
                prefix.push(tree.kids@[0].text@),
                tree.kids@[1],
            )
        }),
{
}

/// What is read of a file depends on what is asked for: numbers where something is made one more or one less,
/// imports where a body is replaced or a success becomes a failure.
pub proof fn law_only_what_is_asked_for_is_read(selection: Set<Seq<char>>, name: Seq<char>)
    ensures
        wanted_by(selection).numeric <==> selection.contains("expr.increment"@) || selection.contains("expr.decrement"@),
        selection.contains("result.ok_to_err"@) ==> wanted_by(selection).imports,
        selection.contains(name) && name.len() >= 9 && name.take(9) == "fn_value."@ ==> wanted_by(selection).imports,
{
    reveal_strlit("fn_value");
    reveal_strlit(".");
    reveal_strlit("fn_value.");
    assert("fn_value."@ =~= "fn_value"@ + "."@);
    assert("fn_value."@.len() == 9);
}

} // verus!
