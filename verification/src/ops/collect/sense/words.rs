//! Which names mean what.
use super::super::collector::predicates::{names_number, proves_number, reserves_room, yields_number, yields_text};
use super::super::collector::resolve::{class_of_name, Class};
use crate::text::begins;
use vstd::prelude::*;

verus! {

/// Text comes of turning something into text, of writing it in another case, of putting it together and of
/// escaping it.
pub proof fn law_methods_that_yield_text(method: Seq<char>)
    ensures
        yields_text(method) <==> {
            ||| method == "to_"@ + "string"@
            ||| method == "into_"@ + "string"@
            ||| method == "to_"@ + "owned"@
            ||| method == "to_"@ + "string_lossy"@
            ||| method == "to_"@ + "upper"@ + "case"@
            ||| method == "to_"@ + "lower"@ + "case"@
            ||| method == "to_ascii_"@ + "upper"@ + "case"@
            ||| method == "to_ascii_"@ + "lower"@ + "case"@
            ||| method == "escape_"@ + "debug"@
            ||| method == "escape_"@ + "default"@
            ||| method == "concat"@
            ||| method == "join"@
            ||| method == "repeat"@
        },
{
    reveal_strlit("to_");
    reveal_strlit("string");
    reveal_strlit("to_string");
    reveal_strlit("into_");
    reveal_strlit("into_string");
    reveal_strlit("owned");
    reveal_strlit("to_owned");
    reveal_strlit("string_lossy");
    reveal_strlit("to_string_lossy");
    reveal_strlit("upper");
    reveal_strlit("case");
    reveal_strlit("to_uppercase");
    reveal_strlit("lower");
    reveal_strlit("to_lowercase");
    reveal_strlit("to_ascii_");
    reveal_strlit("to_ascii_uppercase");
    reveal_strlit("to_ascii_lowercase");
    reveal_strlit("escape_");
    reveal_strlit("debug");
    reveal_strlit("escape_debug");
    reveal_strlit("default");
    reveal_strlit("escape_default");
    reveal_strlit("concat");
    reveal_strlit("join");
    reveal_strlit("repeat");
    assert("to_string"@ =~= "to_"@ + "string"@);
    assert("into_string"@ =~= "into_"@ + "string"@);
    assert("to_owned"@ =~= "to_"@ + "owned"@);
    assert("to_string_lossy"@ =~= "to_"@ + "string_lossy"@);
    assert("to_uppercase"@ =~= "to_"@ + "upper"@ + "case"@);
    assert("to_lowercase"@ =~= "to_"@ + "lower"@ + "case"@);
    assert("to_ascii_uppercase"@ =~= "to_ascii_"@ + "upper"@ + "case"@);
    assert("to_ascii_lowercase"@ =~= "to_ascii_"@ + "lower"@ + "case"@);
    assert("escape_debug"@ =~= "escape_"@ + "debug"@);
    assert("escape_default"@ =~= "escape_"@ + "default"@);
}

/// Only a number has arithmetic that is checked, wraps or stays at the limit, has bits to count, a sign,
/// powers, a remainder and bytes.
pub proof fn law_methods_that_prove_a_number(method: Seq<char>)
    ensures
        proves_number(method) <==> {
            ||| method == "saturating_"@ + "add"@
            ||| method == "saturating_"@ + "sub"@
            ||| method == "saturating_"@ + "mul"@
            ||| method == "wrapping_"@ + "add"@
            ||| method == "wrapping_"@ + "sub"@
            ||| method == "wrapping_"@ + "mul"@
            ||| method == "checked_"@ + "add"@
            ||| method == "checked_"@ + "sub"@
            ||| method == "checked_"@ + "mul"@
            ||| method == "checked_"@ + "div"@
            ||| method == "rem"@ + "_euclid"@
            ||| method == "div"@ + "_euclid"@
            ||| method == "count_"@ + "ones"@
            ||| method == "count_"@ + "zeros"@
            ||| method == "leading_"@ + "zeros"@
            ||| method == "trailing_"@ + "zeros"@
            ||| method == "is_"@ + "power_of_two"@
            ||| method == "next_"@ + "power_of_two"@
            ||| method == "to_"@ + "le"@ + "_bytes"@
            ||| method == "to_"@ + "be"@ + "_bytes"@
            ||| method == "abs"@
            ||| method == "signum"@
            ||| method == "pow"@
        },
{
    reveal_strlit("saturating_");
    reveal_strlit("add");
    reveal_strlit("saturating_add");
    reveal_strlit("sub");
    reveal_strlit("saturating_sub");
    reveal_strlit("mul");
    reveal_strlit("saturating_mul");
    reveal_strlit("wrapping_");
    reveal_strlit("wrapping_add");
    reveal_strlit("wrapping_sub");
    reveal_strlit("wrapping_mul");
    reveal_strlit("checked_");
    reveal_strlit("checked_add");
    reveal_strlit("checked_sub");
    reveal_strlit("checked_mul");
    reveal_strlit("div");
    reveal_strlit("checked_div");
    reveal_strlit("rem");
    reveal_strlit("_euclid");
    reveal_strlit("rem_euclid");
    reveal_strlit("div_euclid");
    reveal_strlit("count_");
    reveal_strlit("ones");
    reveal_strlit("count_ones");
    reveal_strlit("zeros");
    reveal_strlit("count_zeros");
    reveal_strlit("leading_");
    reveal_strlit("leading_zeros");
    reveal_strlit("trailing_");
    reveal_strlit("trailing_zeros");
    reveal_strlit("is_");
    reveal_strlit("power_of_two");
    reveal_strlit("is_power_of_two");
    reveal_strlit("next_");
    reveal_strlit("next_power_of_two");
    reveal_strlit("to_");
    reveal_strlit("le");
    reveal_strlit("_bytes");
    reveal_strlit("to_le_bytes");
    reveal_strlit("be");
    reveal_strlit("to_be_bytes");
    reveal_strlit("abs");
    reveal_strlit("signum");
    reveal_strlit("pow");
    assert("saturating_add"@ =~= "saturating_"@ + "add"@);
    assert("saturating_sub"@ =~= "saturating_"@ + "sub"@);
    assert("saturating_mul"@ =~= "saturating_"@ + "mul"@);
    assert("wrapping_add"@ =~= "wrapping_"@ + "add"@);
    assert("wrapping_sub"@ =~= "wrapping_"@ + "sub"@);
    assert("wrapping_mul"@ =~= "wrapping_"@ + "mul"@);
    assert("checked_add"@ =~= "checked_"@ + "add"@);
    assert("checked_sub"@ =~= "checked_"@ + "sub"@);
    assert("checked_mul"@ =~= "checked_"@ + "mul"@);
    assert("checked_div"@ =~= "checked_"@ + "div"@);
    assert("rem_euclid"@ =~= "rem"@ + "_euclid"@);
    assert("div_euclid"@ =~= "div"@ + "_euclid"@);
    assert("count_ones"@ =~= "count_"@ + "ones"@);
    assert("count_zeros"@ =~= "count_"@ + "zeros"@);
    assert("leading_zeros"@ =~= "leading_"@ + "zeros"@);
    assert("trailing_zeros"@ =~= "trailing_"@ + "zeros"@);
    assert("is_power_of_two"@ =~= "is_"@ + "power_of_two"@);
    assert("next_power_of_two"@ =~= "next_"@ + "power_of_two"@);
    assert("to_le_bytes"@ =~= "to_"@ + "le"@ + "_bytes"@);
    assert("to_be_bytes"@ =~= "to_"@ + "be"@ + "_bytes"@);
}

/// A number is signed or not, of each width, or a float, or known not to be nothing.
pub proof fn law_types_that_are_numbers(name: Seq<char>)
    ensures
        names_number(name) <==> {
            ||| name == "u"@ + "8"@
            ||| name == "u"@ + "16"@
            ||| name == "u"@ + "32"@
            ||| name == "u"@ + "64"@
            ||| name == "u"@ + "128"@
            ||| name == "u"@ + "size"@
            ||| name == "i"@ + "8"@
            ||| name == "i"@ + "16"@
            ||| name == "i"@ + "32"@
            ||| name == "i"@ + "64"@
            ||| name == "i"@ + "128"@
            ||| name == "i"@ + "size"@
            ||| name == "f"@ + "32"@
            ||| name == "f"@ + "64"@
            ||| name == "NonZeroU"@ + "8"@
            ||| name == "NonZeroU"@ + "16"@
            ||| name == "NonZeroU"@ + "32"@
            ||| name == "NonZeroU"@ + "64"@
            ||| name == "NonZeroU"@ + "size"@
        },
{
    reveal_strlit("u");
    reveal_strlit("8");
    reveal_strlit("u8");
    reveal_strlit("16");
    reveal_strlit("u16");
    reveal_strlit("32");
    reveal_strlit("u32");
    reveal_strlit("64");
    reveal_strlit("u64");
    reveal_strlit("128");
    reveal_strlit("u128");
    reveal_strlit("size");
    reveal_strlit("usize");
    reveal_strlit("i");
    reveal_strlit("i8");
    reveal_strlit("i16");
    reveal_strlit("i32");
    reveal_strlit("i64");
    reveal_strlit("i128");
    reveal_strlit("isize");
    reveal_strlit("f");
    reveal_strlit("f32");
    reveal_strlit("f64");
    reveal_strlit("NonZeroU");
    reveal_strlit("NonZeroU8");
    reveal_strlit("NonZeroU16");
    reveal_strlit("NonZeroU32");
    reveal_strlit("NonZeroU64");
    reveal_strlit("NonZeroUsize");
    assert("u8"@ =~= "u"@ + "8"@);
    assert("u16"@ =~= "u"@ + "16"@);
    assert("u32"@ =~= "u"@ + "32"@);
    assert("u64"@ =~= "u"@ + "64"@);
    assert("u128"@ =~= "u"@ + "128"@);
    assert("usize"@ =~= "u"@ + "size"@);
    assert("i8"@ =~= "i"@ + "8"@);
    assert("i16"@ =~= "i"@ + "16"@);
    assert("i32"@ =~= "i"@ + "32"@);
    assert("i64"@ =~= "i"@ + "64"@);
    assert("i128"@ =~= "i"@ + "128"@);
    assert("isize"@ =~= "i"@ + "size"@);
    assert("f32"@ =~= "f"@ + "32"@);
    assert("f64"@ =~= "f"@ + "64"@);
    assert("NonZeroU8"@ =~= "NonZeroU"@ + "8"@);
    assert("NonZeroU16"@ =~= "NonZeroU"@ + "16"@);
    assert("NonZeroU32"@ =~= "NonZeroU"@ + "32"@);
    assert("NonZeroU64"@ =~= "NonZeroU"@ + "64"@);
    assert("NonZeroUsize"@ =~= "NonZeroU"@ + "size"@);
}

/// A number comes of counting, of choosing between numbers, of arithmetic, of measuring time and of counting
/// bits.
pub proof fn law_methods_that_yield_a_number(method: Seq<char>)
    ensures
        yields_number(method) <==> {
            ||| method == "len"@
            ||| method == "count"@
            ||| method == "capacity"@
            ||| method == "abs"@
            ||| method == "signum"@
            ||| method == "pow"@
            ||| method == "min"@
            ||| method == "max"@
            ||| method == "clamp"@
            ||| method == "saturating_"@ + "add"@
            ||| method == "saturating_"@ + "sub"@
            ||| method == "saturating_"@ + "mul"@
            ||| method == "wrapping_"@ + "add"@
            ||| method == "wrapping_"@ + "sub"@
            ||| method == "wrapping_"@ + "mul"@
            ||| method == "as_"@ + "millis"@
            ||| method == "as_"@ + "micros"@
            ||| method == "as_"@ + "nanos"@
            ||| method == "as_"@ + "secs"@
            ||| method == "subsec_"@ + "millis"@
            ||| method == "subsec_"@ + "nanos"@
            ||| method == "elapsed_"@ + "secs"@
            ||| method == "leading_"@ + "zeros"@
            ||| method == "trailing_"@ + "zeros"@
            ||| method == "count_"@ + "ones"@
            ||| method == "count_"@ + "zeros"@
        },
{
    reveal_strlit("len");
    reveal_strlit("count");
    reveal_strlit("capacity");
    reveal_strlit("abs");
    reveal_strlit("signum");
    reveal_strlit("pow");
    reveal_strlit("min");
    reveal_strlit("max");
    reveal_strlit("clamp");
    reveal_strlit("saturating_");
    reveal_strlit("add");
    reveal_strlit("saturating_add");
    reveal_strlit("sub");
    reveal_strlit("saturating_sub");
    reveal_strlit("mul");
    reveal_strlit("saturating_mul");
    reveal_strlit("wrapping_");
    reveal_strlit("wrapping_add");
    reveal_strlit("wrapping_sub");
    reveal_strlit("wrapping_mul");
    reveal_strlit("as_");
    reveal_strlit("millis");
    reveal_strlit("as_millis");
    reveal_strlit("micros");
    reveal_strlit("as_micros");
    reveal_strlit("nanos");
    reveal_strlit("as_nanos");
    reveal_strlit("secs");
    reveal_strlit("as_secs");
    reveal_strlit("subsec_");
    reveal_strlit("subsec_millis");
    reveal_strlit("subsec_nanos");
    reveal_strlit("elapsed_");
    reveal_strlit("elapsed_secs");
    reveal_strlit("leading_");
    reveal_strlit("zeros");
    reveal_strlit("leading_zeros");
    reveal_strlit("trailing_");
    reveal_strlit("trailing_zeros");
    reveal_strlit("count_");
    reveal_strlit("ones");
    reveal_strlit("count_ones");
    reveal_strlit("count_zeros");
    assert("saturating_add"@ =~= "saturating_"@ + "add"@);
    assert("saturating_sub"@ =~= "saturating_"@ + "sub"@);
    assert("saturating_mul"@ =~= "saturating_"@ + "mul"@);
    assert("wrapping_add"@ =~= "wrapping_"@ + "add"@);
    assert("wrapping_sub"@ =~= "wrapping_"@ + "sub"@);
    assert("wrapping_mul"@ =~= "wrapping_"@ + "mul"@);
    assert("as_millis"@ =~= "as_"@ + "millis"@);
    assert("as_micros"@ =~= "as_"@ + "micros"@);
    assert("as_nanos"@ =~= "as_"@ + "nanos"@);
    assert("as_secs"@ =~= "as_"@ + "secs"@);
    assert("subsec_millis"@ =~= "subsec_"@ + "millis"@);
    assert("subsec_nanos"@ =~= "subsec_"@ + "nanos"@);
    assert("elapsed_secs"@ =~= "elapsed_"@ + "secs"@);
    assert("leading_zeros"@ =~= "leading_"@ + "zeros"@);
    assert("trailing_zeros"@ =~= "trailing_"@ + "zeros"@);
    assert("count_ones"@ =~= "count_"@ + "ones"@);
    assert("count_zeros"@ =~= "count_"@ + "zeros"@);
}

/// Room is reserved when something is made, later, exactly or not, and given back.
pub proof fn law_functions_that_reserve_room(name: Seq<char>)
    ensures
        reserves_room(name) <==> {
            ||| name == "with_capacity"@
            ||| name == "with_capacity"@ + "_in"@
            ||| name == "reserve"@
            ||| name == "reserve"@ + "_exact"@
            ||| name == "try_"@ + "reserve"@
            ||| name == "try_"@ + "reserve"@ + "_exact"@
            ||| name == "shrink_to"@
        },
{
    reveal_strlit("with_capacity");
    reveal_strlit("_in");
    reveal_strlit("with_capacity_in");
    reveal_strlit("reserve");
    reveal_strlit("_exact");
    reveal_strlit("reserve_exact");
    reveal_strlit("try_");
    reveal_strlit("try_reserve");
    reveal_strlit("try_reserve_exact");
    reveal_strlit("shrink_to");
    assert("with_capacity_in"@ =~= "with_capacity"@ + "_in"@);
    assert("reserve_exact"@ =~= "reserve"@ + "_exact"@);
    assert("try_reserve"@ =~= "try_"@ + "reserve"@);
    assert("try_reserve_exact"@ =~= "try_"@ + "reserve"@ + "_exact"@);
}

/// How long a name is, and some of its letters.
spec fn outline(name: Seq<char>) -> (nat, char, char, char) {
    (name.len(), name[0], name[1], name[name.len() - 1])
}

proof fn lemma_outlines()
    ensures
        outline("i8"@) == (2nat, 'i', '8', '8'),
        outline("i16"@) == (3nat, 'i', '1', '6'),
        outline("i32"@) == (3nat, 'i', '3', '2'),
        outline("i64"@) == (3nat, 'i', '6', '4'),
        outline("i128"@) == (4nat, 'i', '1', '8'),
        outline("isize"@) == (5nat, 'i', 's', 'e'),
        outline("u8"@) == (2nat, 'u', '8', '8'),
        outline("u16"@) == (3nat, 'u', '1', '6'),
        outline("u32"@) == (3nat, 'u', '3', '2'),
        outline("u64"@) == (3nat, 'u', '6', '4'),
        outline("u128"@) == (4nat, 'u', '1', '8'),
        outline("usize"@) == (5nat, 'u', 's', 'e'),
        outline("f32"@) == (3nat, 'f', '3', '2'),
        outline("f64"@) == (3nat, 'f', '6', '4'),
        outline("bool"@) == (4nat, 'b', 'o', 'l'),
        outline("String"@) == (6nat, 'S', 't', 'g'),
        outline("Option"@) == (6nat, 'O', 'p', 'n'),
        outline("Result"@) == (6nat, 'R', 'e', 't'),
        outline("Vec"@) == (3nat, 'V', 'e', 'c'),
        outline("VecDeque"@) == (8nat, 'V', 'e', 'e'),
        outline("HashSet"@) == (7nat, 'H', 'a', 't'),
        outline("BTreeSet"@) == (8nat, 'B', 'T', 't'),
        outline("BinaryHeap"@) == (10nat, 'B', 'i', 'p'),
        outline("LinkedList"@) == (10nat, 'L', 'i', 't'),
        outline("HashMap"@) == (7nat, 'H', 'a', 'p'),
        outline("BTreeMap"@) == (8nat, 'B', 'T', 'p'),
        outline("Box"@) == (3nat, 'B', 'o', 'x'),
        outline("Rc"@) == (2nat, 'R', 'c', 'c'),
        outline("Arc"@) == (3nat, 'A', 'r', 'c'),
        outline("Cow"@) == (3nat, 'C', 'o', 'w'),
{
    reveal_strlit("i8");
    reveal_strlit("i16");
    reveal_strlit("i32");
    reveal_strlit("i64");
    reveal_strlit("i128");
    reveal_strlit("isize");
    reveal_strlit("u8");
    reveal_strlit("u16");
    reveal_strlit("u32");
    reveal_strlit("u64");
    reveal_strlit("u128");
    reveal_strlit("usize");
    reveal_strlit("f32");
    reveal_strlit("f64");
    reveal_strlit("bool");
    reveal_strlit("String");
    reveal_strlit("Option");
    reveal_strlit("Result");
    reveal_strlit("Vec");
    reveal_strlit("VecDeque");
    reveal_strlit("HashSet");
    reveal_strlit("BTreeSet");
    reveal_strlit("BinaryHeap");
    reveal_strlit("LinkedList");
    reveal_strlit("HashMap");
    reveal_strlit("BTreeMap");
    reveal_strlit("Box");
    reveal_strlit("Rc");
    reveal_strlit("Arc");
    reveal_strlit("Cow");
}

proof fn lemma_not_nonzero(name: Seq<char>)
    requires
        begins(name, "NonZero"@),
    ensures
        name.len() >= 7,
        name[0] == 'N',
{
    reveal_strlit("NonZero");
    assert("NonZero"@.len() == 7 && "NonZero"@[0] == 'N');
    assert(name.take(7)[0] == name[0]);
}

/// A type is known by its name and by how many types it is made of: numbers, truth values and strings are
/// made of none, and what holds others of one or more. What is known not to be nothing says so in front.
pub proof fn law_types_are_known_by_name(name: Seq<char>, arity: nat)
    ensures
        class_of_name(name, arity) == Class::Signed <==> arity == 0 && {
            ||| name == "i"@ + "8"@
            ||| name == "i"@ + "16"@
            ||| name == "i"@ + "32"@
            ||| name == "i"@ + "64"@
            ||| name == "i"@ + "128"@
            ||| name == "i"@ + "size"@
        },
        class_of_name(name, arity) == Class::Unsigned <==> arity == 0 && {
            ||| name == "u"@ + "8"@
            ||| name == "u"@ + "16"@
            ||| name == "u"@ + "32"@
            ||| name == "u"@ + "64"@
            ||| name == "u"@ + "128"@
            ||| name == "u"@ + "size"@
        },
        class_of_name(name, arity) == Class::Float <==> arity == 0 && {
            ||| name == "f"@ + "32"@
            ||| name == "f"@ + "64"@
        },
        class_of_name(name, arity) == Class::Bool <==> arity == 0 && {
            ||| name == "bool"@
        },
        class_of_name(name, arity) == Class::String <==> arity == 0 && {
            ||| name == "String"@
        },
        class_of_name(name, arity) == Class::Option <==> arity > 0 && {
            ||| name == "Option"@
        },
        class_of_name(name, arity) == Class::Result <==> arity > 0 && {
            ||| name == "Result"@
        },
        class_of_name(name, arity) == Class::Collection <==> arity > 0 && {
            ||| name == "Vec"@
            ||| name == "Vec"@ + "Deque"@
            ||| name == "Hash"@ + "Set"@
            ||| name == "BTree"@ + "Set"@
            ||| name == "BinaryHeap"@
            ||| name == "LinkedList"@
        },
        class_of_name(name, arity) == Class::Mapping <==> arity > 1 && {
            ||| name == "Hash"@ + "Map"@
            ||| name == "BTree"@ + "Map"@
        },
        class_of_name(name, arity) == Class::Wrapper <==> arity > 0 && {
            ||| name == "Box"@
            ||| name == "Rc"@
            ||| name == "Arc"@
        },
        class_of_name(name, arity) == Class::Cow <==> arity > 0 && {
            ||| name == "Cow"@
        },
        class_of_name(name, arity) == Class::NonZero <==> arity == 0 && begins(name, "NonZero"@) && name.len() > 7,
{
    lemma_outlines();
    reveal_strlit("NonZero");
    assert("NonZero"@.len() == 7);
    if begins(name, "NonZero"@) {
        lemma_not_nonzero(name);
        assert(name.take(7) == "NonZero"@);
        if name.len() == 7 {
            assert(name.take(7) =~= name);
        }
    }
    reveal_strlit("i");
    reveal_strlit("8");
    reveal_strlit("i8");
    reveal_strlit("16");
    reveal_strlit("i16");
    reveal_strlit("32");
    reveal_strlit("i32");
    reveal_strlit("64");
    reveal_strlit("i64");
    reveal_strlit("128");
    reveal_strlit("i128");
    reveal_strlit("size");
    reveal_strlit("isize");
    reveal_strlit("u");
    reveal_strlit("u8");
    reveal_strlit("u16");
    reveal_strlit("u32");
    reveal_strlit("u64");
    reveal_strlit("u128");
    reveal_strlit("usize");
    reveal_strlit("f");
    reveal_strlit("f32");
    reveal_strlit("f64");
    reveal_strlit("bool");
    reveal_strlit("String");
    reveal_strlit("Option");
    reveal_strlit("Result");
    reveal_strlit("Vec");
    reveal_strlit("Deque");
    reveal_strlit("VecDeque");
    reveal_strlit("Hash");
    reveal_strlit("Set");
    reveal_strlit("HashSet");
    reveal_strlit("BTree");
    reveal_strlit("BTreeSet");
    reveal_strlit("BinaryHeap");
    reveal_strlit("LinkedList");
    reveal_strlit("Map");
    reveal_strlit("HashMap");
    reveal_strlit("BTreeMap");
    reveal_strlit("Box");
    reveal_strlit("Rc");
    reveal_strlit("Arc");
    reveal_strlit("Cow");
    assert("i8"@ =~= "i"@ + "8"@);
    assert("i16"@ =~= "i"@ + "16"@);
    assert("i32"@ =~= "i"@ + "32"@);
    assert("i64"@ =~= "i"@ + "64"@);
    assert("i128"@ =~= "i"@ + "128"@);
    assert("isize"@ =~= "i"@ + "size"@);
    assert("u8"@ =~= "u"@ + "8"@);
    assert("u16"@ =~= "u"@ + "16"@);
    assert("u32"@ =~= "u"@ + "32"@);
    assert("u64"@ =~= "u"@ + "64"@);
    assert("u128"@ =~= "u"@ + "128"@);
    assert("usize"@ =~= "u"@ + "size"@);
    assert("f32"@ =~= "f"@ + "32"@);
    assert("f64"@ =~= "f"@ + "64"@);
    assert("VecDeque"@ =~= "Vec"@ + "Deque"@);
    assert("HashSet"@ =~= "Hash"@ + "Set"@);
    assert("BTreeSet"@ =~= "BTree"@ + "Set"@);
    assert("HashMap"@ =~= "Hash"@ + "Map"@);
    assert("BTreeMap"@ =~= "BTree"@ + "Map"@);
}

} // verus!
