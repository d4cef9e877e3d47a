//! What the values of each type are, by the name the type is written with.
use super::super::resolve::{argument, class_of, class_of_name, is_iterator_bound, Class};
use super::super::types::{full_path, is_abstract, pointee_is_abstract, Typing};
use super::{
    capped, combinations_of, composed_values, inner_of, item_of, joined, path_text, pointee, return_values_of, tuple_text, tuples_of,
    values_of, wrapped, Value,
};
use crate::syntax::query::{last_arguments, last_name, path_names, path_types, stripped, type_path, types_among};
use crate::syntax::tree::{Kind, Node};
use crate::text::begins;
use vstd::prelude::*;

verus! {

// ---- How a type is written. ----

/// Whether a type is a path, such as `std::vec::Vec<T>`: these names, and these types behind the last one.
pub open spec fn is_written(ty: Node, names: Seq<Seq<char>>, args: Seq<Node>) -> bool {
    &&& ty.kind == Kind::TypePath
    &&& ty.kids@.len() == 2
    &&& ty.kids@[0].kids@.len() == 0
    &&& names.len() > 0
    &&& ty.kids@[1].kids@.len() == names.len()
    &&& forall|i: int| 0 <= i < names.len() ==> (#[trigger] ty.kids@[1].kids@[i]).word(0) == names[i]
    &&& has_arguments(ty.kids@[1].kids@.last(), args)
}

/// Whether a segment of a path has these types as its arguments.
pub open spec fn has_arguments(segment: Node, args: Seq<Node>) -> bool {
    &&& segment.kids@.len() == 2
    &&& if args.len() == 0 {
        segment.kids@[1].kind == Kind::NoArgs
    } else {
        &&& segment.kids@[1].kind == Kind::AngleArgs
        &&& segment.kids@[1].kids@.len() == args.len()
        &&& forall|i: int|
            0 <= i < args.len() ==> (#[trigger] segment.kids@[1].kids@[i]).kind == Kind::ArgType && segment.kids@[1].kids@[i].kids@.len() > 0
                && segment.kids@[1].kids@[i].kids@[0] == args[i]
    }
}

/// Names with colons between them.
pub open spec fn with_colons(names: Seq<Seq<char>>) -> Seq<char>
    decreases names.len(),
{
    if names.len() <= 1 {
        names.last()
    } else {
        with_colons(names.drop_last()) + "::"@ + names.last()
    }
}

/// The first few of several values.
pub open spec fn first_few(values: Seq<Value>) -> Seq<Value> {
    if values.len() <= 8 {
        values
    } else {
        values.take(8)
    }
}

/// Each of several values written into something, as a value of its own mutator.
pub open spec fn each_in(values: Seq<Value>, before: Seq<char>, after: Seq<char>) -> Seq<Value> {
    values.map_values(|value: Value| (value.0, before + value.1 + after))
}

/// Each of several values written into something, as a value of another mutator.
pub open spec fn each_as(values: Seq<Value>, mutator: Seq<char>, before: Seq<char>, after: Seq<char>) -> Seq<Value> {
    values.map_values(|value: Value| (mutator, before + value.1 + after))
}

proof fn lemma_types_among(args: Seq<Node>, types: Seq<Node>)
    requires
        args.len() == types.len(),
        forall|i: int| 0 <= i < args.len() ==> (#[trigger] args[i]).kind == Kind::ArgType && args[i].kids@.len() > 0 && args[i].kids@[0] == types[i],
    ensures
        types_among(args) == types,
    decreases args.len(),
{
    if args.len() > 0 {
        let (front, fewer) = (args.drop_last(), types.drop_last());
        assert forall|i: int| 0 <= i < front.len() implies (#[trigger] front[i]).kind == Kind::ArgType && front[i].kids@.len() > 0
            && front[i].kids@[0] == fewer[i] by {
            assert(front[i] == args[i]);
        }
        lemma_types_among(front, fewer);
        let last = args[args.len() - 1];
        assert(last.kind == Kind::ArgType && last.kids@[0] == types[types.len() - 1]);
        assert(last.kid(0) == Some(types.last()));
        assert(types_among(args) =~= types);
    } else {
        assert(types_among(args) =~= types);
    }
}

/// What is read off a type that is a path.
proof fn lemma_written(ty: Node, names: Seq<Seq<char>>, args: Seq<Node>)
    requires
        is_written(ty, names, args),
    ensures
        stripped(ty) == ty,
        type_path(ty) == Some(ty.kids@[1]),
        last_name(ty.kids@[1]) == Some(names.last()),
        path_names(ty.kids@[1]) == names,
        path_types(ty.kids@[1]) == args,
        class_of(ty) == class_of_name(names.last(), args.len()),
        forall|i: int| 0 <= i < args.len() ==> argument(ty, i) == Some(#[trigger] args[i]),
        args.len() == 0 ==> argument(ty, 0) is None,
        path_text(ty, "Vec"@) == with_colons(names),
        path_text(ty, "Default"@) == with_colons(names),
{
    let path = ty.kids@[1];
    let last = path.kids@.last();
    assert(ty.kids@[1].kids@[names.len() - 1].word(0) == names[names.len() - 1]);
    assert(path_names(path) =~= names) by {
        assert forall|i: int| 0 <= i < names.len() implies #[trigger] path_names(path)[i] == names[i] by {
            assert(ty.kids@[1].kids@[i].word(0) == names[i]);
        }
    }
    if args.len() == 0 {
        assert(last_arguments(path) is None);
        assert(path_types(path) =~= args);
    } else {
        assert(last_arguments(path) == Some(last.kids@[1]));
        lemma_types_among(last.kids@[1].kids@, args);
    }
    lemma_colons(names);
}

proof fn lemma_colons(names: Seq<Seq<char>>)
    requires
        names.len() > 0,
    ensures
        joined(names, "::"@) == with_colons(names),
    decreases names.len(),
{
    if names.len() > 1 {
        lemma_colons(names.drop_last());
    }
}

proof fn lemma_capped(values: Seq<Value>)
    ensures
        capped(values) == first_few(values),
{
}

proof fn lemma_each(values: Seq<Value>, mutator: Seq<char>, before: Seq<char>, after: Seq<char>)
    ensures
        wrapped(values, None, before, after) == each_in(values, before, after),
        wrapped(values, Some(mutator), before, after) == each_as(values, mutator, before, after),
{
    assert(wrapped(values, None, before, after) =~= each_in(values, before, after));
    assert(wrapped(values, Some(mutator), before, after) =~= each_as(values, mutator, before, after));
}

// ---- Names. ----

/// Makes the names of types known by their characters.
proof fn lemma_type_names()
    ensures
        class_of_name("bool"@, 0) == Class::Bool,
        class_of_name("i8"@, 0) == Class::Signed,
        class_of_name("i16"@, 0) == Class::Signed,
        class_of_name("i32"@, 0) == Class::Signed,
        class_of_name("i64"@, 0) == Class::Signed,
        class_of_name("i128"@, 0) == Class::Signed,
        class_of_name("isize"@, 0) == Class::Signed,
        class_of_name("u8"@, 0) == Class::Unsigned,
        class_of_name("u16"@, 0) == Class::Unsigned,
        class_of_name("u32"@, 0) == Class::Unsigned,
        class_of_name("u64"@, 0) == Class::Unsigned,
        class_of_name("u128"@, 0) == Class::Unsigned,
        class_of_name("usize"@, 0) == Class::Unsigned,
        class_of_name("f32"@, 0) == Class::Float,
        class_of_name("f64"@, 0) == Class::Float,
        class_of_name("String"@, 0) == Class::String,
{
    reveal_strlit("NonZero");
    assert("NonZero"@.len() == 7 && "NonZero"@[0] == 'N' && "NonZero"@[1] == 'o' && "NonZero"@[2] == 'n' && "NonZero"@[3] == 'Z' && "NonZero"@[4] == 'e' && "NonZero"@[5] == 'r' && "NonZero"@[6] == 'o');
    reveal_strlit("bool");
    assert("bool"@.len() == 4 && "bool"@[0] == 'b' && "bool"@[1] == 'o' && "bool"@[2] == 'o' && "bool"@[3] == 'l');
    reveal_strlit("i8");
    assert("i8"@.len() == 2 && "i8"@[0] == 'i' && "i8"@[1] == '8');
    reveal_strlit("i16");
    assert("i16"@.len() == 3 && "i16"@[0] == 'i' && "i16"@[1] == '1' && "i16"@[2] == '6');
    reveal_strlit("i32");
    assert("i32"@.len() == 3 && "i32"@[0] == 'i' && "i32"@[1] == '3' && "i32"@[2] == '2');
    reveal_strlit("i64");
    assert("i64"@.len() == 3 && "i64"@[0] == 'i' && "i64"@[1] == '6' && "i64"@[2] == '4');
    reveal_strlit("i128");
    assert("i128"@.len() == 4 && "i128"@[0] == 'i' && "i128"@[1] == '1' && "i128"@[2] == '2' && "i128"@[3] == '8');
    reveal_strlit("isize");
    assert("isize"@.len() == 5 && "isize"@[0] == 'i' && "isize"@[1] == 's' && "isize"@[2] == 'i' && "isize"@[3] == 'z' && "isize"@[4] == 'e');
    reveal_strlit("u8");
    assert("u8"@.len() == 2 && "u8"@[0] == 'u' && "u8"@[1] == '8');
    reveal_strlit("u16");
    assert("u16"@.len() == 3 && "u16"@[0] == 'u' && "u16"@[1] == '1' && "u16"@[2] == '6');
    reveal_strlit("u32");
    assert("u32"@.len() == 3 && "u32"@[0] == 'u' && "u32"@[1] == '3' && "u32"@[2] == '2');
    reveal_strlit("u64");
    assert("u64"@.len() == 3 && "u64"@[0] == 'u' && "u64"@[1] == '6' && "u64"@[2] == '4');
    reveal_strlit("u128");
    assert("u128"@.len() == 4 && "u128"@[0] == 'u' && "u128"@[1] == '1' && "u128"@[2] == '2' && "u128"@[3] == '8');
    reveal_strlit("usize");
    assert("usize"@.len() == 5 && "usize"@[0] == 'u' && "usize"@[1] == 's' && "usize"@[2] == 'i' && "usize"@[3] == 'z' && "usize"@[4] == 'e');
    reveal_strlit("f32");
    assert("f32"@.len() == 3 && "f32"@[0] == 'f' && "f32"@[1] == '3' && "f32"@[2] == '2');
    reveal_strlit("f64");
    assert("f64"@.len() == 3 && "f64"@[0] == 'f' && "f64"@[1] == '6' && "f64"@[2] == '4');
    reveal_strlit("String");
    assert("String"@.len() == 6 && "String"@[0] == 'S' && "String"@[1] == 't' && "String"@[2] == 'r' && "String"@[3] == 'i' && "String"@[4] == 'n' && "String"@[5] == 'g');

}

proof fn lemma_generic_names(n: nat)
    requires
        n > 0,
    ensures
        class_of_name("Option"@, n) == Class::Option,
        class_of_name("Result"@, n) == Class::Result,
        class_of_name("Vec"@, n) == Class::Collection,
        class_of_name("VecDeque"@, n) == Class::Collection,
        class_of_name("HashSet"@, n) == Class::Collection,
        class_of_name("BTreeSet"@, n) == Class::Collection,
        class_of_name("BinaryHeap"@, n) == Class::Collection,
        class_of_name("LinkedList"@, n) == Class::Collection,
        n >= 2 ==> class_of_name("HashMap"@, n) == Class::Mapping,
        n >= 2 ==> class_of_name("BTreeMap"@, n) == Class::Mapping,
        class_of_name("Box"@, n) == Class::Wrapper,
        class_of_name("Rc"@, n) == Class::Wrapper,
        class_of_name("Arc"@, n) == Class::Wrapper,
        class_of_name("Cow"@, n) == Class::Cow,
{
    reveal_strlit("NonZero");
    assert("NonZero"@.len() == 7 && "NonZero"@[0] == 'N' && "NonZero"@[1] == 'o' && "NonZero"@[2] == 'n' && "NonZero"@[3] == 'Z' && "NonZero"@[4] == 'e' && "NonZero"@[5] == 'r' && "NonZero"@[6] == 'o');
    reveal_strlit("Option");
    assert("Option"@.len() == 6 && "Option"@[0] == 'O' && "Option"@[1] == 'p' && "Option"@[2] == 't' && "Option"@[3] == 'i' && "Option"@[4] == 'o' && "Option"@[5] == 'n');
    reveal_strlit("Result");
    assert("Result"@.len() == 6 && "Result"@[0] == 'R' && "Result"@[1] == 'e' && "Result"@[2] == 's' && "Result"@[3] == 'u' && "Result"@[4] == 'l' && "Result"@[5] == 't');
    reveal_strlit("Vec");
    assert("Vec"@.len() == 3 && "Vec"@[0] == 'V' && "Vec"@[1] == 'e' && "Vec"@[2] == 'c');
    reveal_strlit("VecDeque");
    assert("VecDeque"@.len() == 8 && "VecDeque"@[0] == 'V' && "VecDeque"@[1] == 'e' && "VecDeque"@[2] == 'c' && "VecDeque"@[3] == 'D' && "VecDeque"@[4] == 'e' && "VecDeque"@[5] == 'q' && "VecDeque"@[6] == 'u' && "VecDeque"@[7] == 'e');
    reveal_strlit("HashSet");
    assert("HashSet"@.len() == 7 && "HashSet"@[0] == 'H' && "HashSet"@[1] == 'a' && "HashSet"@[2] == 's' && "HashSet"@[3] == 'h' && "HashSet"@[4] == 'S' && "HashSet"@[5] == 'e' && "HashSet"@[6] == 't');
    reveal_strlit("BTreeSet");
    assert("BTreeSet"@.len() == 8 && "BTreeSet"@[0] == 'B' && "BTreeSet"@[1] == 'T' && "BTreeSet"@[2] == 'r' && "BTreeSet"@[3] == 'e' && "BTreeSet"@[4] == 'e' && "BTreeSet"@[5] == 'S' && "BTreeSet"@[6] == 'e' && "BTreeSet"@[7] == 't');
    reveal_strlit("BinaryHeap");
    assert("BinaryHeap"@.len() == 10 && "BinaryHeap"@[0] == 'B' && "BinaryHeap"@[1] == 'i' && "BinaryHeap"@[2] == 'n' && "BinaryHeap"@[3] == 'a' && "BinaryHeap"@[4] == 'r' && "BinaryHeap"@[5] == 'y' && "BinaryHeap"@[6] == 'H' && "BinaryHeap"@[7] == 'e' && "BinaryHeap"@[8] == 'a' && "BinaryHeap"@[9] == 'p');
    reveal_strlit("LinkedList");
    assert("LinkedList"@.len() == 10 && "LinkedList"@[0] == 'L' && "LinkedList"@[1] == 'i' && "LinkedList"@[2] == 'n' && "LinkedList"@[3] == 'k' && "LinkedList"@[4] == 'e' && "LinkedList"@[5] == 'd' && "LinkedList"@[6] == 'L' && "LinkedList"@[7] == 'i' && "LinkedList"@[8] == 's' && "LinkedList"@[9] == 't');
    reveal_strlit("HashMap");
    assert("HashMap"@.len() == 7 && "HashMap"@[0] == 'H' && "HashMap"@[1] == 'a' && "HashMap"@[2] == 's' && "HashMap"@[3] == 'h' && "HashMap"@[4] == 'M' && "HashMap"@[5] == 'a' && "HashMap"@[6] == 'p');
    reveal_strlit("BTreeMap");
    assert("BTreeMap"@.len() == 8 && "BTreeMap"@[0] == 'B' && "BTreeMap"@[1] == 'T' && "BTreeMap"@[2] == 'r' && "BTreeMap"@[3] == 'e' && "BTreeMap"@[4] == 'e' && "BTreeMap"@[5] == 'M' && "BTreeMap"@[6] == 'a' && "BTreeMap"@[7] == 'p');
    reveal_strlit("Box");
    assert("Box"@.len() == 3 && "Box"@[0] == 'B' && "Box"@[1] == 'o' && "Box"@[2] == 'x');
    reveal_strlit("Rc");
    assert("Rc"@.len() == 2 && "Rc"@[0] == 'R' && "Rc"@[1] == 'c');
    reveal_strlit("Arc");
    assert("Arc"@.len() == 3 && "Arc"@[0] == 'A' && "Arc"@[1] == 'r' && "Arc"@[2] == 'c');
    reveal_strlit("Cow");
    assert("Cow"@.len() == 3 && "Cow"@[0] == 'C' && "Cow"@[1] == 'o' && "Cow"@[2] == 'w');
    assert("VecDeque"@.take(7)[0] == 'V');
    assert("HashSet"@.take(7)[0] == 'H');
    assert("BTreeSet"@.take(7)[0] == 'B');
    assert("BinaryHeap"@.take(7)[0] == 'B');
    assert("LinkedList"@.take(7)[0] == 'L');
    assert("HashMap"@.take(7)[0] == 'H');
    assert("BTreeMap"@.take(7)[0] == 'B');
}

/// A path that is not a parameter is a type that is known, and no alias of a formatting result where it
/// is not named like one.
proof fn lemma_known(ty: Node, names: Seq<Seq<char>>, args: Seq<Node>, types: Typing)
    requires
        is_written(ty, names, args),
        !types.abstracts.contains(names[0]),
        names.last() != "Result"@ || args.len() > 0,
    ensures
        !types.is_fmt_result(ty),
        names.last() != "Box"@ && names.last() != "Rc"@ && names.last() != "Arc"@ ==> !is_abstract(ty, types.abstracts),
{
    lemma_written(ty, names, args);
    let path = full_path(ty, types.imports);
    assert(path.last() == names.last());
    assert(ty.kids@[1].kids@[0].word(0) == names[0]);
    assert(ty.first_of(0) is None);
}

// ---- Values that are written out. ----

/// Whether a name is one of several.
pub open spec fn is_among(name: Seq<char>, names: Seq<Seq<char>>) -> bool {
    exists|i: int| 0 <= i < names.len() && #[trigger] names[i] == name
}

/// The integers with a sign.
pub open spec fn signed_names() -> Seq<Seq<char>> {
    seq!["i8"@, "i16"@, "i32"@, "i64"@, "i128"@, "isize"@]
}

/// The integers without one.
pub open spec fn unsigned_names() -> Seq<Seq<char>> {
    seq!["u8"@, "u16"@, "u32"@, "u64"@, "u128"@, "usize"@]
}

/// A number is replaced by nothing and by one, and where there is a sign also by one less than nothing. No
/// value of a type without a sign has one.
#[verifier::spinoff_prover]
#[verifier::rlimit(60)]
pub proof fn law_numbers_are_replaced_by_small_ones(ty: Node, names: Seq<Seq<char>>, depth: nat, types: Typing)
    requires
        is_written(ty, names, Seq::empty()),
        !types.abstracts.contains(names[0]),
        depth > 0,
    ensures
        is_among(names.last(), signed_names()) ==> values_of(ty, depth, types) == seq![
            ("fn_value.zero"@, "0"@),
            ("fn_value.one"@, "1"@),
            ("fn_value.minus_one"@, "-1"@),
        ],
        is_among(names.last(), unsigned_names()) ==> values_of(ty, depth, types) == seq![("fn_value.zero"@, "0"@), ("fn_value.one"@, "1"@)],
        names.last() == "f32"@ || names.last() == "f64"@ ==> values_of(ty, depth, types) == seq![
            ("fn_value.zero"@, "0.0"@),
            ("fn_value.one"@, "1.0"@),
            ("fn_value.minus_one"@, "-1.0"@),
        ],
{
    let none = Seq::<Node>::empty();
    let name = names.last();
    lemma_written(ty, names, none);
    lemma_type_names();
    lemma_not_special();
    if is_among(name, signed_names()) {
        let all = signed_names();
        let i = choose|i: int| 0 <= i < all.len() && #[trigger] all[i] == name;
        assert(i == 0 || i == 1 || i == 2 || i == 3 || i == 4 || i == 5);
        lemma_known(ty, names, none, types);
        assert(class_of(ty) == Class::Signed);
    }
    if is_among(name, unsigned_names()) {
        let all = unsigned_names();
        let i = choose|i: int| 0 <= i < all.len() && #[trigger] all[i] == name;
        assert(i == 0 || i == 1 || i == 2 || i == 3 || i == 4 || i == 5);
        lemma_known(ty, names, none, types);
        assert(class_of(ty) == Class::Unsigned);
    }
    if name == "f32"@ || name == "f64"@ {
        lemma_known(ty, names, none, types);
        assert(class_of(ty) == Class::Float);
    }
}

/// The names of plain types are not those that are treated in their own way.
proof fn lemma_not_special()
    ensures
        forall|i: int|
            0 <= i < 6 ==> #[trigger] signed_names()[i] != "Result"@ && signed_names()[i] != "Box"@ && signed_names()[i] != "Rc"@
                && signed_names()[i] != "Arc"@,
        forall|i: int|
            0 <= i < 6 ==> #[trigger] unsigned_names()[i] != "Result"@ && unsigned_names()[i] != "Box"@ && unsigned_names()[i] != "Rc"@
                && unsigned_names()[i] != "Arc"@,
        "f32"@ != "Result"@ && "f32"@ != "Box"@ && "f32"@ != "Rc"@ && "f32"@ != "Arc"@,
        "f64"@ != "Result"@ && "f64"@ != "Box"@ && "f64"@ != "Rc"@ && "f64"@ != "Arc"@,
        "bool"@ != "Result"@ && "bool"@ != "Box"@ && "bool"@ != "Rc"@ && "bool"@ != "Arc"@,
        "String"@ != "Result"@ && "String"@ != "Box"@ && "String"@ != "Rc"@ && "String"@ != "Arc"@,
{
    reveal_strlit("Result");
    assert("Result"@.len() == 6 && "Result"@[0] == 'R' && "Result"@[1] == 'e' && "Result"@[2] == 's' && "Result"@[3] == 'u' && "Result"@[4] == 'l' && "Result"@[5] == 't');
    reveal_strlit("Box");
    assert("Box"@.len() == 3 && "Box"@[0] == 'B' && "Box"@[1] == 'o' && "Box"@[2] == 'x');
    reveal_strlit("Rc");
    assert("Rc"@.len() == 2 && "Rc"@[0] == 'R' && "Rc"@[1] == 'c');
    reveal_strlit("Arc");
    assert("Arc"@.len() == 3 && "Arc"@[0] == 'A' && "Arc"@[1] == 'r' && "Arc"@[2] == 'c');
    reveal_strlit("bool");
    assert("bool"@.len() == 4 && "bool"@[0] == 'b' && "bool"@[1] == 'o' && "bool"@[2] == 'o' && "bool"@[3] == 'l');
    reveal_strlit("i8");
    assert("i8"@.len() == 2 && "i8"@[0] == 'i' && "i8"@[1] == '8');
    reveal_strlit("i16");
    assert("i16"@.len() == 3 && "i16"@[0] == 'i' && "i16"@[1] == '1' && "i16"@[2] == '6');
    reveal_strlit("i32");
    assert("i32"@.len() == 3 && "i32"@[0] == 'i' && "i32"@[1] == '3' && "i32"@[2] == '2');
    reveal_strlit("i64");
    assert("i64"@.len() == 3 && "i64"@[0] == 'i' && "i64"@[1] == '6' && "i64"@[2] == '4');
    reveal_strlit("i128");
    assert("i128"@.len() == 4 && "i128"@[0] == 'i' && "i128"@[1] == '1' && "i128"@[2] == '2' && "i128"@[3] == '8');
    reveal_strlit("isize");
    assert("isize"@.len() == 5 && "isize"@[0] == 'i' && "isize"@[1] == 's' && "isize"@[2] == 'i' && "isize"@[3] == 'z' && "isize"@[4] == 'e');
    reveal_strlit("u8");
    assert("u8"@.len() == 2 && "u8"@[0] == 'u' && "u8"@[1] == '8');
    reveal_strlit("u16");
    assert("u16"@.len() == 3 && "u16"@[0] == 'u' && "u16"@[1] == '1' && "u16"@[2] == '6');
    reveal_strlit("u32");
    assert("u32"@.len() == 3 && "u32"@[0] == 'u' && "u32"@[1] == '3' && "u32"@[2] == '2');
    reveal_strlit("u64");
    assert("u64"@.len() == 3 && "u64"@[0] == 'u' && "u64"@[1] == '6' && "u64"@[2] == '4');
    reveal_strlit("u128");
    assert("u128"@.len() == 4 && "u128"@[0] == 'u' && "u128"@[1] == '1' && "u128"@[2] == '2' && "u128"@[3] == '8');
    reveal_strlit("usize");
    assert("usize"@.len() == 5 && "usize"@[0] == 'u' && "usize"@[1] == 's' && "usize"@[2] == 'i' && "usize"@[3] == 'z' && "usize"@[4] == 'e');
    reveal_strlit("f32");
    assert("f32"@.len() == 3 && "f32"@[0] == 'f' && "f32"@[1] == '3' && "f32"@[2] == '2');
    reveal_strlit("f64");
    assert("f64"@.len() == 3 && "f64"@[0] == 'f' && "f64"@[1] == '6' && "f64"@[2] == '4');
    reveal_strlit("String");
    assert("String"@.len() == 6 && "String"@[0] == 'S' && "String"@[1] == 't' && "String"@[2] == 'r' && "String"@[3] == 'i' && "String"@[4] == 'n' && "String"@[5] == 'g');
    assert(signed_names()[0] == "i8"@ && signed_names()[1] == "i16"@ && signed_names()[2] == "i32"@ && signed_names()[3] == "i64"@);
    assert(signed_names()[4] == "i128"@ && signed_names()[5] == "isize"@);
    assert(unsigned_names()[0] == "u8"@ && unsigned_names()[1] == "u16"@ && unsigned_names()[2] == "u32"@ && unsigned_names()[3] == "u64"@);
    assert(unsigned_names()[4] == "u128"@ && unsigned_names()[5] == "usize"@);
}

/// A truth value is replaced by either of the two, and a string by an empty one and by one that is not.
pub proof fn law_truth_values_and_strings_are_replaced_by_two_others(ty: Node, names: Seq<Seq<char>>, depth: nat, types: Typing)
    requires
        is_written(ty, names, Seq::empty()),
        !types.abstracts.contains(names[0]),
        depth > 0,
    ensures
        names.last() == "bool"@ ==> values_of(ty, depth, types) == seq![("fn_value.bool_true"@, "true"@), ("fn_value.bool_false"@, "false"@)],
        names.last() == "String"@ ==> values_of(ty, depth, types) == seq![
            ("fn_value.empty_string"@, "String::new()"@),
            ("fn_value.xyzzy_string"@, "\"xyzzy\".to_owned()"@),
        ],
{
    let none = Seq::<Node>::empty();
    lemma_written(ty, names, none);
    lemma_type_names();
    lemma_not_special();
    if names.last() == "bool"@ || names.last() == "String"@ {
        lemma_known(ty, names, none, types);
    }
}

/// A number that is not zero is replaced by one and by two, made by its own type.
pub proof fn law_a_number_that_is_not_zero_is_replaced_by_others(ty: Node, names: Seq<Seq<char>>, depth: nat, types: Typing)
    requires
        is_written(ty, names, Seq::empty()),
        !types.abstracts.contains(names[0]),
        depth > 0,
        begins(names.last(), "NonZero"@),
        names.last().len() > 7,
    ensures
        values_of(ty, depth, types) == seq![
            ("fn_value.one"@, with_colons(names) + "::new(1).unwrap()"@),
            ("fn_value.two"@, with_colons(names) + "::new(2).unwrap()"@),
        ],
{
    let none = Seq::<Node>::empty();
    reveal_strlit("NonZero");
    reveal_strlit("Result");
    reveal_strlit("Box");
    reveal_strlit("Rc");
    reveal_strlit("Arc");
    lemma_written(ty, names, none);
    lemma_known(ty, names, none, types);
}

/// A function that returns nothing is left to do nothing, whether that is written out or not.
pub proof fn law_nothing_is_replaced_by_nothing(output: Node, types: Typing)
    requires
        output.kids@.len() == 0 || output.kids@[0].kind == Kind::TypeTuple && output.kids@[0].kids@.len() == 0,
    ensures
        return_values_of(output, types) == seq![("fn_value.unit"@, "()"@)],
{
    if output.kids@.len() > 0 {
        let ty = output.kids@[0];
        assert(output.kid(0) == Some(ty));
        assert(stripped(ty) == ty);
        assert(type_path(ty) is None);
        assert(!types.is_fmt_result(ty));
    }
}

/// Whether a type is a reference to another.
pub open spec fn is_reference(ty: Node, mutable: bool, to: Node) -> bool {
    ty.kind == (Kind::TypeReference { mutable }) && ty.kids@.len() > 0 && ty.kids@[0] == to
}

proof fn lemma_reference(ty: Node, mutable: bool, to: Node, types: Typing)
    requires
        is_reference(ty, mutable, to),
    ensures
        stripped(ty) == ty,
        !types.is_fmt_result(ty),
        !is_abstract(ty, types.abstracts),
        ty.kid(0) == Some(to),
        pointee(ty) == Some(to),
{
    assert(type_path(ty) is None);
}

/// A borrowed string is replaced by literals, and one that may be changed by strings that are leaked.
pub proof fn law_borrowed_strings_are_replaced_by_strings(ty: Node, mutable: bool, to: Node, depth: nat, types: Typing)
    requires
        is_reference(ty, mutable, to),
        is_written(to, seq!["str"@], Seq::empty()),
        to.kids@[1].kind == (Kind::Path { global: false }),
        depth > 0,
    ensures
        !mutable ==> values_of(ty, depth, types) == seq![("fn_value.empty_string"@, "\"\""@), ("fn_value.xyzzy_string"@, "\"xyzzy\""@)],
        mutable ==> values_of(ty, depth, types) == seq![
            ("fn_value.empty_string"@, "Box::leak(String::new().into_boxed_str())"@),
            ("fn_value.xyzzy_string"@, "Box::leak(String::from(\"xyzzy\").into_boxed_str())"@),
        ],
{
    lemma_reference(ty, mutable, to, types);
    lemma_written(to, seq!["str"@], Seq::empty());
    assert(to.kids@[1].kids@[0].word(0) == seq!["str"@][0]);
    assert(crate::syntax::query::path_ident(to.kids@[1]) == Some("str"@));
    if mutable {
        assert(class_of(ty) == Class::MutStr);
    } else {
        assert(class_of(ty) == Class::StaticStr);
    }
}

/// A reference to something else is one to each of its values, which is leaked so that it lives on.
pub proof fn law_a_reference_is_to_a_value_that_is_leaked(ty: Node, mutable: bool, to: Node, depth: nat, types: Typing)
    requires
        is_reference(ty, mutable, to),
        to.kind != Kind::TypePath,
        to.kind != Kind::TypeSlice,
        depth > 0,
    ensures
        !mutable ==> values_of(ty, depth, types) == first_few(
            each_in(values_of(to, (depth - 1) as nat, types), "&*Box::leak(Box::new("@, "))"@),
        ),
        mutable ==> values_of(ty, depth, types) == first_few(each_in(values_of(to, (depth - 1) as nat, types), "Box::leak(Box::new("@, "))"@)),
{
    lemma_reference(ty, mutable, to, types);
    lemma_reference_class(ty, mutable, to);
    lemma_leaked(ty, mutable, to, depth, types);
}

/// A reference to a type with a name is one to each of its values too, unless that is a string.
pub proof fn law_a_reference_to_a_named_type_is_to_a_value_of_it(
    ty: Node,
    mutable: bool,
    to: Node,
    names: Seq<Seq<char>>,
    args: Seq<Node>,
    depth: nat,
    types: Typing,
)
    requires
        is_reference(ty, mutable, to),
        is_written(to, names, args),
        names.last() != "str"@,
        depth > 0,
    ensures
        !mutable ==> values_of(ty, depth, types) == first_few(
            each_in(values_of(to, (depth - 1) as nat, types), "&*Box::leak(Box::new("@, "))"@),
        ),
        mutable ==> values_of(ty, depth, types) == first_few(each_in(values_of(to, (depth - 1) as nat, types), "Box::leak(Box::new("@, "))"@)),
{
    lemma_reference(ty, mutable, to, types);
    lemma_written(to, names, args);
    assert(to.kids@[1].kids@[names.len() - 1].word(0) == names[names.len() - 1]);
    lemma_reference_class(ty, mutable, to);
    lemma_leaked(ty, mutable, to, depth, types);
}

proof fn lemma_reference_class(ty: Node, mutable: bool, to: Node)
    requires
        is_reference(ty, mutable, to),
        to.kind != Kind::TypeSlice,
        type_path(to) matches Some(path) ==> last_name(path) != Some("str"@),
    ensures
        class_of(ty) == Class::Reference,
{
    if let Some(path) = type_path(to) {
        if crate::syntax::query::path_ident(path) == Some("str"@) {
            assert(path.kids@.last() == path.kids@[0]);
        }
    }
    assert(ty.kid(0) == Some(to));
}

proof fn lemma_leaked(ty: Node, mutable: bool, to: Node, depth: nat, types: Typing)
    requires
        is_reference(ty, mutable, to),
        class_of(ty) == Class::Reference,
        depth > 0,
    ensures
        !mutable ==> values_of(ty, depth, types) == first_few(
            each_in(values_of(to, (depth - 1) as nat, types), "&*Box::leak(Box::new("@, "))"@),
        ),
        mutable ==> values_of(ty, depth, types) == first_few(each_in(values_of(to, (depth - 1) as nat, types), "Box::leak(Box::new("@, "))"@)),
{
    lemma_reference(ty, mutable, to, types);
    let inner = values_of(to, (depth - 1) as nat, types);
    reveal_strlit("&*");
    reveal_strlit("");
    reveal_strlit("Box::leak(Box::new(");
    reveal_strlit("&*Box::leak(Box::new(");
    assert("&*"@ + "Box::leak(Box::new("@ =~= "&*Box::leak(Box::new("@);
    assert(""@ + "Box::leak(Box::new("@ =~= "Box::leak(Box::new("@);
    lemma_each(inner, Seq::empty(), "&*Box::leak(Box::new("@, "))"@);
    lemma_each(inner, Seq::empty(), "Box::leak(Box::new("@, "))"@);
    assert(values_of(ty, depth, types) == composed_values(Class::Reference, ty, (depth - 1) as nat, types));
    assert(composed_values(Class::Reference, ty, (depth - 1) as nat, types) == super::references_of(ty, (depth - 1) as nat, types));
}

// ---- Values that are built from those of another type. ----

proof fn lemma_composed(ty: Node, names: Seq<Seq<char>>, args: Seq<Node>, class: Class, depth: nat, types: Typing)
    requires
        is_written(ty, names, args),
        args.len() > 0,
        !types.abstracts.contains(names[0]),
        names.last() != "Box"@,
        names.last() != "Rc"@,
        names.last() != "Arc"@,
        depth > 0,
        class == class_of_name(names.last(), args.len()),
        class == Class::Option || class == Class::Result || class == Class::Collection || class == Class::Mapping || class == Class::Cow,
    ensures
        values_of(ty, depth, types) == composed_values(class, ty, (depth - 1) as nat, types),
        forall|i: int|
            0 <= i < args.len() ==> inner_of(ty, i, (depth - 1) as nat, types) == values_of(#[trigger] args[i], (depth - 1) as nat, types),
{
    lemma_written(ty, names, args);
    lemma_known(ty, names, args, types);
    assert forall|i: int| 0 <= i < args.len() implies inner_of(ty, i, (depth - 1) as nat, types) == values_of(
        #[trigger] args[i],
        (depth - 1) as nat,
        types,
    ) by {
        assert(argument(ty, i) == Some(args[i]));
    }
}

/// Makes the names of generic types known by their characters.
proof fn lemma_not_pointers()
    ensures
        "Option"@ != "Box"@ && "Option"@ != "Rc"@ && "Option"@ != "Arc"@,
        "Result"@ != "Box"@ && "Result"@ != "Rc"@ && "Result"@ != "Arc"@,
        "Vec"@ != "Box"@ && "Vec"@ != "Rc"@ && "Vec"@ != "Arc"@,
        "VecDeque"@.len() == 8 && "HashSet"@.len() == 7 && "BTreeSet"@.len() == 8 && "BinaryHeap"@.len() == 10 && "LinkedList"@.len() == 10,
        "HashMap"@.len() == 7 && "BTreeMap"@.len() == 8,
        "Cow"@ != "Box"@ && "Cow"@ != "Rc"@ && "Cow"@ != "Arc"@,
        "Box"@.len() == 3 && "Rc"@.len() == 2 && "Arc"@.len() == 3,
{
    reveal_strlit("Box");
    assert("Box"@.len() == 3 && "Box"@[0] == 'B' && "Box"@[1] == 'o' && "Box"@[2] == 'x');
    reveal_strlit("Rc");
    assert("Rc"@.len() == 2 && "Rc"@[0] == 'R' && "Rc"@[1] == 'c');
    reveal_strlit("Arc");
    assert("Arc"@.len() == 3 && "Arc"@[0] == 'A' && "Arc"@[1] == 'r' && "Arc"@[2] == 'c');
    reveal_strlit("Option");
    assert("Option"@.len() == 6 && "Option"@[0] == 'O' && "Option"@[1] == 'p' && "Option"@[2] == 't' && "Option"@[3] == 'i' && "Option"@[4] == 'o' && "Option"@[5] == 'n');
    reveal_strlit("Result");
    assert("Result"@.len() == 6 && "Result"@[0] == 'R' && "Result"@[1] == 'e' && "Result"@[2] == 's' && "Result"@[3] == 'u' && "Result"@[4] == 'l' && "Result"@[5] == 't');
    reveal_strlit("Vec");
    assert("Vec"@.len() == 3 && "Vec"@[0] == 'V' && "Vec"@[1] == 'e' && "Vec"@[2] == 'c');
    reveal_strlit("VecDeque");
    assert("VecDeque"@.len() == 8 && "VecDeque"@[0] == 'V' && "VecDeque"@[1] == 'e' && "VecDeque"@[2] == 'c' && "VecDeque"@[3] == 'D' && "VecDeque"@[4] == 'e' && "VecDeque"@[5] == 'q' && "VecDeque"@[6] == 'u' && "VecDeque"@[7] == 'e');
    reveal_strlit("HashSet");
    assert("HashSet"@.len() == 7 && "HashSet"@[0] == 'H' && "HashSet"@[1] == 'a' && "HashSet"@[2] == 's' && "HashSet"@[3] == 'h' && "HashSet"@[4] == 'S' && "HashSet"@[5] == 'e' && "HashSet"@[6] == 't');
    reveal_strlit("BTreeSet");
    assert("BTreeSet"@.len() == 8 && "BTreeSet"@[0] == 'B' && "BTreeSet"@[1] == 'T' && "BTreeSet"@[2] == 'r' && "BTreeSet"@[3] == 'e' && "BTreeSet"@[4] == 'e' && "BTreeSet"@[5] == 'S' && "BTreeSet"@[6] == 'e' && "BTreeSet"@[7] == 't');
    reveal_strlit("BinaryHeap");
    assert("BinaryHeap"@.len() == 10 && "BinaryHeap"@[0] == 'B' && "BinaryHeap"@[1] == 'i' && "BinaryHeap"@[2] == 'n' && "BinaryHeap"@[3] == 'a' && "BinaryHeap"@[4] == 'r' && "BinaryHeap"@[5] == 'y' && "BinaryHeap"@[6] == 'H' && "BinaryHeap"@[7] == 'e' && "BinaryHeap"@[8] == 'a' && "BinaryHeap"@[9] == 'p');
    reveal_strlit("LinkedList");
    assert("LinkedList"@.len() == 10 && "LinkedList"@[0] == 'L' && "LinkedList"@[1] == 'i' && "LinkedList"@[2] == 'n' && "LinkedList"@[3] == 'k' && "LinkedList"@[4] == 'e' && "LinkedList"@[5] == 'd' && "LinkedList"@[6] == 'L' && "LinkedList"@[7] == 'i' && "LinkedList"@[8] == 's' && "LinkedList"@[9] == 't');
    reveal_strlit("HashMap");
    assert("HashMap"@.len() == 7 && "HashMap"@[0] == 'H' && "HashMap"@[1] == 'a' && "HashMap"@[2] == 's' && "HashMap"@[3] == 'h' && "HashMap"@[4] == 'M' && "HashMap"@[5] == 'a' && "HashMap"@[6] == 'p');
    reveal_strlit("BTreeMap");
    assert("BTreeMap"@.len() == 8 && "BTreeMap"@[0] == 'B' && "BTreeMap"@[1] == 'T' && "BTreeMap"@[2] == 'r' && "BTreeMap"@[3] == 'e' && "BTreeMap"@[4] == 'e' && "BTreeMap"@[5] == 'M' && "BTreeMap"@[6] == 'a' && "BTreeMap"@[7] == 'p');
    reveal_strlit("Cow");
    assert("Cow"@.len() == 3 && "Cow"@[0] == 'C' && "Cow"@[1] == 'o' && "Cow"@[2] == 'w');

}

/// What may be missing is missing, or is some value of what it would be.
pub proof fn law_an_option_is_nothing_or_some_value(ty: Node, names: Seq<Seq<char>>, arg: Node, depth: nat, types: Typing)
    requires
        is_written(ty, names, seq![arg]),
        names.last() == "Option"@,
        !types.abstracts.contains(names[0]),
        depth > 0,
        values_of(arg, (depth - 1) as nat, types).len() > 0,
    ensures
        values_of(ty, depth, types) == first_few(
            seq![("fn_value.none"@, "None"@)] + each_as(values_of(arg, (depth - 1) as nat, types), "fn_value.some"@, "Some("@, ")"@),
        ),
{
    lemma_generic_names(1);
    lemma_not_pointers();
    lemma_composed(ty, names, seq![arg], Class::Option, depth, types);
    assert(seq![arg][0] == arg);
    lemma_each(values_of(arg, (depth - 1) as nat, types), "fn_value.some"@, "Some("@, ")"@);
}

/// What may fail succeeds with some value of what it gives, or fails with a default where there is one.
pub proof fn law_a_result_is_some_success_or_a_failure(ty: Node, names: Seq<Seq<char>>, good: Node, bad: Node, depth: nat, types: Typing)
    requires
        is_written(ty, names, seq![good, bad]),
        names.last() == "Result"@,
        !types.abstracts.contains(names[0]),
        depth > 0,
        values_of(good, (depth - 1) as nat, types).len() > 0,
    ensures
        values_of(ty, depth, types) == first_few(
            each_as(values_of(good, (depth - 1) as nat, types), "fn_value.ok"@, "Ok("@, ")"@) + (if types.is_undefaultable(bad) {
                Seq::empty()
            } else {
                seq![("fn_value.err_default"@, "Err(Default::default())"@)]
            }),
        ),
{
    lemma_generic_names(2);
    lemma_not_pointers();
    let args = seq![good, bad];
    lemma_composed(ty, names, args, Class::Result, depth, types);
    lemma_written(ty, names, args);
    assert(args[0] == good && args[1] == bad);
    lemma_each(values_of(good, (depth - 1) as nat, types), "fn_value.ok"@, "Ok("@, ")"@);
}

/// A collection is empty, or is made of one value of what it holds.
pub proof fn law_a_collection_is_empty_or_has_one_element(ty: Node, names: Seq<Seq<char>>, arg: Node, depth: nat, types: Typing)
    requires
        is_written(ty, names, seq![arg]),
        is_among(names.last(), seq!["Vec"@, "VecDeque"@, "HashSet"@, "BTreeSet"@, "BinaryHeap"@, "LinkedList"@]),
        !types.abstracts.contains(names[0]),
        depth > 0,
    ensures
        values_of(ty, depth, types) == first_few(
            seq![("fn_value.empty_collection"@, with_colons(names) + "::new()"@)] + each_as(
                values_of(arg, (depth - 1) as nat, types),
                "fn_value.one_element"@,
                "core::iter::once("@,
                ").collect()"@,
            ),
        ),
{
    lemma_generic_names(1);
    lemma_not_pointers();
    let all = seq!["Vec"@, "VecDeque"@, "HashSet"@, "BTreeSet"@, "BinaryHeap"@, "LinkedList"@];
    let i = choose|i: int| 0 <= i < all.len() && #[trigger] all[i] == names.last();
    assert(i == 0 || i == 1 || i == 2 || i == 3 || i == 4 || i == 5);
    lemma_composed(ty, names, seq![arg], Class::Collection, depth, types);
    lemma_written(ty, names, seq![arg]);
    assert(seq![arg][0] == arg);
    lemma_each(values_of(arg, (depth - 1) as nat, types), "fn_value.one_element"@, "core::iter::once("@, ").collect()"@);
}

/// A map is empty, or is made of the first key and the first value there are.
pub proof fn law_a_map_is_empty_or_has_one_entry(ty: Node, names: Seq<Seq<char>>, key: Node, held: Node, depth: nat, types: Typing)
    requires
        is_written(ty, names, seq![key, held]),
        names.last() == "HashMap"@ || names.last() == "BTreeMap"@,
        !types.abstracts.contains(names[0]),
        depth > 0,
        values_of(key, (depth - 1) as nat, types).len() > 0,
        values_of(held, (depth - 1) as nat, types).len() > 0,
    ensures
        values_of(ty, depth, types) == seq![
            ("fn_value.empty_collection"@, with_colons(names) + "::new()"@),
            (
                "fn_value.one_element"@,
                "core::iter::once(("@ + values_of(key, (depth - 1) as nat, types)[0].1 + ", "@ + values_of(held, (depth - 1) as nat, types)[0].1
                    + ")).collect()"@,
            ),
        ],
{
    lemma_generic_names(2);
    lemma_not_pointers();
    let args = seq![key, held];
    lemma_composed(ty, names, args, Class::Mapping, depth, types);
    lemma_written(ty, names, args);
    assert(args[0] == key && args[1] == held);
    let one = values_of(key, (depth - 1) as nat, types);
    let two = values_of(held, (depth - 1) as nat, types);
    assert(inner_of(ty, 0, (depth - 1) as nat, types) == one);
    assert(inner_of(ty, 1, (depth - 1) as nat, types) == two);
    assert(values_of(ty, depth, types) =~= seq![
        ("fn_value.empty_collection"@, with_colons(names) + "::new()"@),
        ("fn_value.one_element"@, "core::iter::once(("@ + one[0].1 + ", "@ + two[0].1 + ")).collect()"@),
    ]);
}

/// A pointer is one to each value of what it points to, which keeps its mutator.
pub proof fn law_a_pointer_is_to_a_value(ty: Node, names: Seq<Seq<char>>, arg: Node, depth: nat, types: Typing)
    requires
        is_written(ty, names, seq![arg]),
        names.last() == "Box"@ || names.last() == "Rc"@ || names.last() == "Arc"@,
        !types.abstracts.contains(names[0]),
        !is_abstract(arg, types.abstracts),
        depth > 0,
    ensures
        values_of(ty, depth, types) == first_few(each_in(values_of(arg, (depth - 1) as nat, types), with_colons(names) + "::new("@, ")"@)),
{
    lemma_generic_names(1);
    lemma_not_pointers();
    let args = seq![arg];
    lemma_written(ty, names, args);
    lemma_known(ty, names, args, types);
    assert(args[0] == arg);
    let segment = ty.kids@[1].kids@.last();
    assert(segment.kids@[1].kids@[0].kind == Kind::ArgType && segment.kids@[1].kids@[0].kids@[0] == args[0]);
    assert(ty.kid(1) == Some(ty.kids@[1]));
    assert(last_arguments(ty.kids@[1]) == Some(segment.kids@[1]));
    assert(!pointee_is_abstract(ty, types.abstracts));
    assert(ty.kids@[1].kids@[0].word(0) == names[0]);
    assert(ty.first_of(0) is None);
    assert(!is_abstract(ty, types.abstracts));
    assert(argument(ty, 0) == Some(args[0]));
    assert(class_of(ty) == Class::Wrapper);
    assert(values_of(ty, depth, types) == composed_values(Class::Wrapper, ty, (depth - 1) as nat, types));
    lemma_each(values_of(arg, (depth - 1) as nat, types), Seq::empty(), with_colons(names) + "::new("@, ")"@);
}

/// What may be borrowed or owned is owned.
pub proof fn law_what_may_be_owned_is_owned(ty: Node, names: Seq<Seq<char>>, arg: Node, depth: nat, types: Typing)
    requires
        is_written(ty, names, seq![arg]),
        names.last() == "Cow"@,
        !types.abstracts.contains(names[0]),
        depth > 0,
    ensures
        values_of(ty, depth, types) == first_few(each_in(values_of(arg, (depth - 1) as nat, types), with_colons(names) + "::Owned("@, ")"@)),
{
    lemma_generic_names(1);
    lemma_not_pointers();
    lemma_composed(ty, names, seq![arg], Class::Cow, depth, types);
    lemma_written(ty, names, seq![arg]);
    assert(seq![arg][0] == arg);
    lemma_each(values_of(arg, (depth - 1) as nat, types), Seq::empty(), with_colons(names) + "::Owned("@, ")"@);
}

/// Several parts in brackets, with commas between them.
pub open spec fn in_brackets(parts: Seq<Seq<char>>) -> Seq<char>
    decreases parts.len(),
{
    if parts.len() == 0 {
        "()"@
    } else if parts.len() == 1 {
        "("@ + parts[0] + ",)"@
    } else if parts.len() == 2 {
        "("@ + parts[0] + ", "@ + parts[1] + ")"@
    } else {
        in_brackets(parts.drop_last()).drop_last() + ", "@ + parts.last() + ")"@
    }
}

proof fn lemma_in_brackets(parts: Seq<Seq<char>>)
    requires
        parts.len() > 0,
    ensures
        tuple_text(parts) == in_brackets(parts),
    decreases parts.len(),
{
    reveal_strlit("(");
    reveal_strlit(")");
    reveal_strlit(", ");
    if parts.len() > 1 {
        let front = parts.drop_last();
        if parts.len() == 2 {
            assert(front[0] == parts[0]);
            assert(joined(front, ", "@) == parts[0]);
            assert(tuple_text(parts) =~= in_brackets(parts));
        } else {
            lemma_in_brackets(front);
            let text = "("@ + joined(front, ", "@);
            assert(tuple_text(front) =~= text + ")"@);
            assert((text + ")"@).drop_last() =~= text);
            assert(tuple_text(parts) =~= in_brackets(parts));
        }
    }
}

/// Whether a text is one value of each type, in brackets.
pub open spec fn is_tuple_of(text: Seq<char>, elems: Seq<Node>, depth: nat, types: Typing) -> bool {
    exists|parts: Seq<Seq<char>>| #[trigger]
        in_brackets(parts) == text && parts.len() == elems.len() && forall|i: int| 0 <= i < parts.len() ==> is_value(#[trigger] parts[i], elems[i], depth, types)
}

/// Whether a text is one of the values of a type.
pub open spec fn is_value(text: Seq<char>, ty: Node, depth: nat, types: Typing) -> bool {
    exists|k: int| 0 <= k < values_of(ty, depth, types).len() && #[trigger] values_of(ty, depth, types)[k].1 == text
}

proof fn lemma_products(existing: Seq<Seq<Seq<char>>>, choices: Seq<Value>, i: int)
    requires
        0 <= i < super::products(existing, choices).len(),
    ensures
        exists|a: int, b: int|
            0 <= a < existing.len() && 0 <= b < choices.len() && super::products(existing, choices)[i] == #[trigger] existing[a].push(#[trigger] choices[b].1),
    decreases existing.len(),
{
    let before = super::products(existing.drop_last(), choices);
    let all = super::products(existing, choices);
    if existing.len() > 0 {
        if i < before.len() {
            lemma_products(existing.drop_last(), choices, i);
            let (a, b) = choose|a: int, b: int|
                0 <= a < existing.drop_last().len() && 0 <= b < choices.len() && before[i] == #[trigger] existing.drop_last()[a].push(
                    #[trigger] choices[b].1,
                );
            assert(all[i] == existing[a].push(choices[b].1));
        } else {
            let b = i - before.len();
            assert(all[i] == existing[existing.len() - 1].push(choices[b].1));
        }
    }
}

proof fn lemma_combinations(elems: Seq<Node>, depth: nat, types: Typing, i: int)
    requires
        0 <= i < combinations_of(elems, depth, types).len(),
    ensures
        ({
            let parts = combinations_of(elems, depth, types)[i];
            parts.len() == elems.len() && forall|k: int| 0 <= k < parts.len() ==> is_value(#[trigger] parts[k], elems[k], depth, types)
        }),
    decreases elems.len(),
{
    let all = combinations_of(elems, depth, types);
    if elems.len() > 0 {
        let front = combinations_of(elems.drop_last(), depth, types);
        let choices = values_of(elems.last(), depth, types);
        let made = super::products(front, choices);
        assert(all == super::narrow(made));
        assert(all[i] == made[i]);
        lemma_products(front, choices, i);
        let (a, b) = choose|a: int, b: int|
            0 <= a < front.len() && 0 <= b < choices.len() && made[i] == #[trigger] front[a].push(#[trigger] choices[b].1);
        lemma_combinations(elems.drop_last(), depth, types, a);
        let parts = all[i];
        assert(parts == front[a].push(choices[b].1));
        assert forall|k: int| 0 <= k < parts.len() implies is_value(#[trigger] parts[k], elems[k], depth, types) by {
            if k < elems.len() - 1 {
                assert(parts[k] == front[a][k]);
                assert(elems.drop_last()[k] == elems[k]);
            } else {
                assert(parts[k] == choices[b].1);
                assert(elems[k] == elems.last());
            }
        }
    } else {
        assert(all[i] =~= Seq::<Seq<char>>::empty());
    }
}

/// Several values together are one of each.
pub proof fn law_a_tuple_is_one_value_of_each_type(ty: Node, depth: nat, types: Typing, i: int)
    requires
        ty.kind == Kind::TypeTuple,
        ty.kids@.len() > 0,
        depth > 0,
        0 <= i < values_of(ty, depth, types).len(),
    ensures
        values_of(ty, depth, types)[i].0 == "fn_value.tuple"@,
        is_tuple_of(values_of(ty, depth, types)[i].1, ty.kids@, (depth - 1) as nat, types),
{
    assert(stripped(ty) == ty);
    assert(type_path(ty) is None);
    assert(!types.is_fmt_result(ty));
    assert(!is_abstract(ty, types.abstracts));
    assert(class_of(ty) == Class::Tuple);
    let less = (depth - 1) as nat;
    assert(values_of(ty, depth, types) == composed_values(Class::Tuple, ty, less, types));
    assert(values_of(ty, depth, types) == tuples_of(ty, less, types));
    let all = combinations_of(ty.kids@, less, types);
    lemma_combinations(ty.kids@, less, types, i);
    lemma_in_brackets(all[i]);
    assert(in_brackets(all[i]) == values_of(ty, depth, types)[i].1);
}

/// There are values for several things together exactly where there are values for each of them.
pub proof fn law_a_tuple_of_types_with_values_has_values(ty: Node, depth: nat, types: Typing)
    requires
        ty.kind == Kind::TypeTuple,
        ty.kids@.len() > 0,
        depth > 0,
        forall|i: int| 0 <= i < ty.kids@.len() ==> values_of(#[trigger] ty.kids@[i], (depth - 1) as nat, types).len() > 0,
    ensures
        values_of(ty, depth, types).len() > 0,
{
    assert(stripped(ty) == ty);
    assert(type_path(ty) is None);
    assert(!types.is_fmt_result(ty));
    assert(!is_abstract(ty, types.abstracts));
    let less = (depth - 1) as nat;
    assert(values_of(ty, depth, types) == composed_values(Class::Tuple, ty, less, types));
    assert(values_of(ty, depth, types) == tuples_of(ty, less, types));
    lemma_some_combination(ty.kids@, less, types);
}

proof fn lemma_some_combination(elems: Seq<Node>, depth: nat, types: Typing)
    requires
        forall|i: int| 0 <= i < elems.len() ==> values_of(#[trigger] elems[i], depth, types).len() > 0,
    ensures
        combinations_of(elems, depth, types).len() > 0,
    decreases elems.len(),
{
    if elems.len() > 0 {
        let fewer = elems.drop_last();
        assert forall|i: int| 0 <= i < fewer.len() implies values_of(#[trigger] fewer[i], depth, types).len() > 0 by {
            assert(fewer[i] == elems[i]);
        }
        lemma_some_combination(fewer, depth, types);
        let choices = values_of(elems[elems.len() - 1], depth, types);
        let front = combinations_of(fewer, depth, types);
        assert(super::products(front, choices).len() >= choices.len());
        assert(combinations_of(elems, depth, types) == super::narrow(super::products(front, choices)));
    }
}

/// Whether a type is an iterator over values of another, such as `impl Iterator<Item = T>`.
pub open spec fn iterates(ty: Node, item: Node) -> bool {
    &&& ty.kind == Kind::TypeImplTrait
    &&& ty.kids@.len() == 1
    &&& ty.kids@[0].kind == Kind::BoundTrait
    &&& ty.kids@[0].kids@.len() > 0
    &&& ty.kids@[0].kids@[0].kids@.len() > 0
    &&& ({
        let segment = ty.kids@[0].kids@[0].kids@.last();
        &&& segment.word(0) == "Iterator"@
        &&& segment.kids@.len() == 2
        &&& segment.kids@[1].kind == Kind::AngleArgs
        &&& segment.kids@[1].kids@.len() == 1
        &&& segment.kids@[1].kids@[0].kind == Kind::ArgAssocType
        &&& segment.kids@[1].kids@[0].word(0) == "Item"@
        &&& segment.kids@[1].kids@[0].kids@.len() == 3
        &&& segment.kids@[1].kids@[0].kids@[2] == item
    })
}

/// An iterator gives nothing, or one value of what it is over.
pub proof fn law_an_iterator_gives_nothing_or_one_value(ty: Node, item: Node, depth: nat, types: Typing)
    requires
        iterates(ty, item),
        depth > 0,
    ensures
        values_of(ty, depth, types) == first_few(
            seq![("fn_value.empty_collection"@, "core::iter::empty()"@)] + each_as(
                values_of(item, (depth - 1) as nat, types),
                "fn_value.one_element"@,
                "core::iter::once("@,
                ")"@,
            ),
        ),
{
    let bound = ty.kids@[0];
    let path = bound.kids@[0];
    let args = path.kids@.last().kids@[1];
    assert(bound.kid(0) == Some(path));
    assert(last_name(path) == Some("Iterator"@));
    assert(is_iterator_bound(ty.kids@[0]));
    assert(stripped(ty) == ty);
    assert(type_path(ty) is None);
    assert(!types.is_fmt_result(ty));
    assert(class_of(ty) == Class::Iterator);
    assert(last_arguments(path) == Some(args));
    assert(super::item_among(args.kids@) == Some(item));
    assert(super::bound_item(bound) == Some(item));
    assert(item_of(ty) == Some(item));
    lemma_each(values_of(item, (depth - 1) as nat, types), "fn_value.one_element"@, "core::iter::once("@, ")"@);
}

/// No type has more than eight values.
pub proof fn law_no_type_has_more_than_eight_values(output: Node, types: Typing)
    ensures
        return_values_of(output, types).len() <= 8,
{
    super::law_a_return_type_contributes_a_bounded_number_of_values(output, types);
}

/// A type that nothing is known of is replaced by its default, unless it is known to have none.
pub proof fn law_what_is_unknown_is_replaced_by_its_default(ty: Node, names: Seq<Seq<char>>, depth: nat, types: Typing)
    requires
        is_written(ty, names, Seq::empty()),
        !types.abstracts.contains(names[0]),
        depth > 0,
        !is_among(names.last(), signed_names()),
        !is_among(names.last(), unsigned_names()),
        !is_among(names.last(), seq!["f32"@, "f64"@, "bool"@, "String"@, "Result"@, "Box"@, "Rc"@, "Arc"@]),
        !begins(names.last(), "NonZero"@) || names.last().len() == 7,
    ensures
        types.lacks_default(ty) ==> values_of(ty, depth, types) == Seq::<Value>::empty(),
        !types.lacks_default(ty) ==> values_of(ty, depth, types) == seq![("fn_value.default"@, "Default::default()"@)],
{
    let name = names.last();
    let (one, two) = (signed_names(), unsigned_names());
    let rest = seq!["f32"@, "f64"@, "bool"@, "String"@, "Result"@, "Box"@, "Rc"@, "Arc"@];
    assert(one[0] != name && one[1] != name && one[2] != name && one[3] != name && one[4] != name && one[5] != name);
    assert(two[0] != name && two[1] != name && two[2] != name && two[3] != name && two[4] != name && two[5] != name);
    assert(rest[0] != name && rest[1] != name && rest[2] != name && rest[3] != name);
    assert(rest[4] != name && rest[5] != name && rest[6] != name && rest[7] != name);
    if begins(name, "NonZero"@) {
        reveal_strlit("NonZero");
        assert(name.take(7) =~= name);
    }
    assert(class_of_name(name, 0) == Class::Unknown);
    lemma_written(ty, names, Seq::empty());
    lemma_known(ty, names, Seq::empty(), types);
}

} // verus!
