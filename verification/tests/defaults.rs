//! Which types have a `Default`.
use gamma_engine::cfg::CfgSet;
use gamma_engine::ops::collect::defaults::{name_of, payload_name, standard_defaulted_parameters, DefaultPaths};
use gamma_engine::ops::collect::Defaults;
use gamma_engine::syntax::lower::read;
use gamma_engine::syntax::{Kind, Node};

/// The first item of a source.
fn item(source: &str) -> Node {
    read(source).expect("the fixture parses").kids.remove(0).kids.remove(0)
}

/// A type.
fn ty(source: &str) -> Node {
    item(&format!("type T = {source};")).kids.remove(2)
}

/// The path of an expression.
fn path(source: &str) -> Node {
    item(&format!("const C: u8 = {source};")).kids.remove(3).kids.remove(1)
}

/// The generics of a function.
fn generics(source: &str) -> Node {
    item(source).kids.remove(0).kids.remove(1)
}

fn index(sources: &[&str]) -> Defaults {
    let mut defaults = Defaults::default();

    for source in sources {
        defaults.absorb(Defaults::of(&read(source).unwrap()));
    }

    defaults
}

#[test]
fn a_type_the_workspace_defines_without_a_default_is_reported() {
    let defaults = index(&["pub struct Error { code: u8 }"]);
    let ty = ty("Error");

    assert!(defaults.lacks_default(&ty));
}

#[test]
fn a_derived_default_is_seen() {
    let defaults = index(&["#[derive(Debug, Default)] pub struct Error;"]);
    let ty = ty("Error");

    assert!(!defaults.lacks_default(&ty));
}

/// An `enum` is indexed the same way a `struct` is -- its own derive is read, and the type is
/// no longer merely optimistic about having a `Default`.
#[test]
fn an_enum_with_a_derived_default_is_seen() {
    let defaults = index(&["#[derive(Default)] pub enum Choice { #[default] A, B }"]);
    let ty = ty("Choice");

    assert!(!defaults.lacks_default(&ty));
}

#[test]
fn a_written_default_impl_is_seen_from_another_file() {
    let defaults = index(&["pub struct Error;", "impl Default for Error { fn default() -> Self { Self } }"]);
    let ty = ty("Error");

    assert!(!defaults.lacks_default(&ty));
}

#[test]
fn only_standard_default_implementations_and_derives_are_indexed() {
    let ty = ty("Error");
    let standard_alias = index(&[
        "pub struct Error;",
        "use core::default::Default as StdDefault; impl StdDefault for Error { fn default() -> Self { Self } }",
    ]);
    let standard_module_alias = index(&[
        "pub struct Error;",
        "use core::default as defaults; impl defaults::Default for Error { fn default() -> Self { Self } }",
    ]);
    let standard_derive = index(&["struct Default;", "#[derive(Default)] pub struct Error;"]);
    let custom = index(&[
        "pub struct Error;",
        "mod custom { pub trait Default { fn default() -> Self; } } impl custom::Default for Error { fn default() -> Self { Self } }",
    ]);
    let custom_alias = index(&[
        "pub struct Error;",
        "mod custom { pub trait Default { fn default() -> Self; } } use custom::Default as Alias; impl Alias for Error { fn default() -> Self { Self } }",
    ]);
    let custom_derive = index(&["#[derive(custom::Default)] pub struct Error;"]);

    assert!(!standard_alias.lacks_default(&ty));
    assert!(!standard_module_alias.lacks_default(&ty));
    assert!(!standard_derive.lacks_default(&ty));
    assert!(custom.lacks_default(&ty));
    assert!(custom_alias.lacks_default(&ty));
    assert!(custom_derive.lacks_default(&ty));
}

#[test]
fn nested_and_disabled_default_shadows_do_not_poison_an_outer_implementation() {
    let source = "
        struct Error;
        mod nested {
            trait Default {}
            use custom::Default;
        }
        #[cfg(any())]
        trait Default {}
        impl Default for Error {
            fn default() -> Self { Self }
        }
    ";
    let defaults = Defaults::of_in(&read(source).unwrap(), &CfgSet::parse("unix"));
    let ty = ty("Error");

    assert!(!defaults.lacks_default(&ty));
}

/// A `union` named `Default` shadows the prelude exactly like a `struct`, `enum`, `type` or
/// `mod` of that name does — `note_type_shadow` treats every kind of type-namespace
/// declaration alike.
#[test]
fn a_union_named_default_shadows_the_prelude() {
    let source = "
        struct Error;
        union Default { flag: u8 }
        impl Default for Error {
            fn default() -> Self { Self }
        }
    ";
    let defaults = Defaults::of_in(&read(source).unwrap(), &CfgSet::unconditional());
    let ty = ty("Error");

    assert!(defaults.lacks_default(&ty), "a custom `Default` union shadows the standard trait");
}

/// A grouped `use` such as `use std::{fmt, default::Default}` introduces every item in the
/// group, not only the first, and a glob import introduces no binding this module can
/// interpret — but must not panic doing nothing with it.
#[test]
fn grouped_and_glob_use_trees_are_both_handled() {
    let defaults = index(&["pub struct Error;
         use std::{fmt, default::Default as StdDefault};
         impl StdDefault for Error { fn default() -> Self { Self } }
         use std::collections::*;"]);
    let ty = ty("Error");

    assert!(
        !defaults.lacks_default(&ty),
        "the aliased Default inside the group must still resolve"
    );
}

/// Importing a custom, non-standard item under the bare name `Default` shadows the prelude —
/// the same outcome a locally *declared* `Default` produces, reached through the import path
/// instead of a declaration.
#[test]
fn importing_a_custom_default_directly_shadows_the_prelude() {
    let source = "
        struct Error;
        mod custom { pub trait Default { fn default() -> Self; } }
        use custom::Default;
        impl Default for Error {
            fn default() -> Self { Self }
        }
    ";
    let defaults = Defaults::of_in(&read(source).unwrap(), &CfgSet::unconditional());
    let ty = ty("Error");

    assert!(defaults.lacks_default(&ty), "importing a custom Default directly is still a shadow");
}

/// Aliasing the `core::default` module itself to the bare name `Default` — an unusual but
/// legal import — makes `Default` mean a module rather than the trait, and so must shadow the
/// prelude exactly as a locally declared or imported one does.
#[test]
fn aliasing_the_default_module_to_the_bare_name_shadows_the_prelude() {
    let source = "
        struct Error;
        use core::default as Default;
        impl Default for Error {
            fn default() -> Self { Self }
        }
    ";
    let defaults = Defaults::of_in(&read(source).unwrap(), &CfgSet::unconditional());
    let ty = ty("Error");

    assert!(
        defaults.lacks_default(&ty),
        "aliasing the default module to `Default` shadows the bare trait name"
    );
}

/// A single-segment alias of `std` or `core` itself (rather than of `std::default`) is
/// recorded as a standard module too, and a path built through it resolves exactly as one
/// built directly on `std`/`core` would.
#[test]
fn a_single_segment_standard_module_alias_still_resolves() {
    let defaults = index(&["pub struct Error;
         use std as MyStd;
         impl MyStd::default::Default for Error { fn default() -> Self { Self } }"]);
    let ty = ty("Error");

    assert!(!defaults.lacks_default(&ty));
}

#[test]
fn a_type_the_workspace_does_not_define_stays_optimistic() {
    let defaults = index(&["pub struct Error;"]);
    let ty = ty("Utf8Error");

    assert!(!defaults.lacks_default(&ty));
}

#[test]
fn a_qualified_path_is_keyed_by_its_last_segment() {
    let defaults = index(&["pub struct Error;"]);
    let ty = ty("crate::error::Error");

    assert!(defaults.lacks_default(&ty));
}

#[test]
fn a_name_two_crates_disagree_about_stays_optimistic() {
    let defaults = index(&["pub struct Config { a: u8 }", "#[derive(Default)] pub struct Config;"]);
    let ty = ty("Config");

    assert!(!defaults.lacks_default(&ty));
}

#[test]
fn an_alias_is_not_a_definition() {
    let defaults = index(&["pub type Handle = std::fs::File;"]);
    let ty = ty("Handle");

    assert!(!defaults.lacks_default(&ty));
}

#[test]
fn a_result_alias_records_the_error_it_defaults_to() {
    let defaults = index(&["pub type Result<T, E = Error> = core::result::Result<T, E>;"]);

    assert_eq!(defaults.aliased_error("Result"), Some("Error"));
}

#[test]
fn a_result_alias_records_the_error_written_into_its_target() {
    let defaults = index(&["pub type Result<T> = core::result::Result<T, Error>;"]);

    assert_eq!(defaults.aliased_error("Result"), Some("Error"));
}

#[test]
fn an_alias_for_something_other_than_a_result_is_not_recorded() {
    let defaults = index(&["pub type Pairs = Vec<(u8, u8)>;"]);

    assert_eq!(defaults.aliased_error("Pairs"), None);
}

/// Two crates that each call their alias `Result` leave the name meaning nothing, whichever
/// order their files were folded in.
///
/// The partials are built by worker threads and folded as they finish, so an index that let
/// the last writer win would give a different population — and a different score — on two runs
/// over an unchanged workspace.
#[test]
fn two_crates_disagreeing_about_result_demote_the_alias_in_either_order() {
    const ONE: &str = "pub type Result<T> = core::result::Result<T, ThisError>;";
    const TWO: &str = "pub type Result<T> = core::result::Result<T, ThatError>;";

    assert_eq!(index(&[ONE, TWO]).aliased_error("Result"), None);
    assert_eq!(index(&[TWO, ONE]).aliased_error("Result"), None);
}

/// Two crates that agree keep the answer, since there is nothing to disagree about.
#[test]
fn two_crates_agreeing_about_result_keep_the_error_they_agree_on() {
    const SAME: &str = "pub type Result<T> = core::result::Result<T, Error>;";

    assert_eq!(index(&[SAME, SAME]).aliased_error("Result"), Some("Error"));
}

/// A demoted alias stays demoted, rather than being revived by a later partial that happens to
/// name one of the two errors.
#[test]
fn an_alias_already_demoted_is_not_revived_by_a_later_agreement() {
    let defaults = index(&[
        "pub type Result<T> = core::result::Result<T, ThisError>;",
        "pub type Result<T> = core::result::Result<T, ThatError>;",
        "pub type Result<T> = core::result::Result<T, ThisError>;",
    ]);

    assert_eq!(defaults.aliased_error("Result"), None);
}

/// One file holding two aliases of the same name in separate modules is the same collision.
#[test]
fn one_file_disagreeing_with_itself_demotes_the_alias_too() {
    let defaults = index(&["mod one { pub type Result<T> = core::result::Result<T, ThisError>; }
         mod two { pub type Result<T> = core::result::Result<T, ThatError>; }"]);

    assert_eq!(defaults.aliased_error("Result"), None);
}

/// `is_standard_default_callee` is only ever true for a path whose last segment is literally
/// `default`; anything else — including a path that otherwise looks like it names the trait —
/// is refused before the qualifier is even inspected.
#[test]
fn a_callee_path_not_ending_in_default_is_refused() {
    let paths = DefaultPaths::default();
    let path = path("Default::new");

    assert!(!paths.is_standard_default_callee(&path));
}

/// `is_standard_default_segments` mirrors `is_standard_default_callee` for a segment list
/// that has already been split off a method name; an empty list has no last segment to
/// split and so is refused outright, and a non-`default` final segment is refused exactly as
/// the path form is.
#[test]
fn empty_or_non_default_segments_are_refused() {
    let paths = DefaultPaths::default();

    assert!(!paths.is_standard_default_segments(Vec::new()));
    assert!(!paths.is_standard_default_segments(vec!["Default".to_owned(), "new".to_owned()]));
    assert!(paths.is_standard_default_segments(vec!["Default".to_owned(), "default".to_owned()]));
}

/// A `where` clause is read the same way inline bounds are: a plain type bound reports its
/// parameter, and every other predicate shape -- a lifetime bound, a bound on a type this index
/// cannot key by a single name, and a bound on a multi-segment path -- is passed over rather than
/// mistaken for one.
#[test]
fn a_where_clause_bound_also_names_its_parameter_as_defaulted() {
    let defaults = DefaultPaths::default();
    let generics = generics("fn f<'a, T, U, V>() where T: Default, 'a: 'static, (U,): Default, some::U: Default, V: Clone {}");

    let names = standard_defaulted_parameters(&generics, &defaults);

    assert_eq!(names, vec!["T".to_owned()]);
}

/// The same parameter named twice -- once inline and once in the `where` clause -- is reported
/// only once.
#[test]
fn a_where_clause_repeating_an_inline_bound_is_not_reported_twice() {
    let defaults = DefaultPaths::default();
    let generics = generics("fn f<T: Default>() where T: Default {}");

    let names = standard_defaulted_parameters(&generics, &defaults);

    assert_eq!(names, vec!["T".to_owned()]);
}

/// Every item kind `Defaults` indexes is skipped, along with its own derive, when a predicate
/// controlling it does not hold -- matching the same rule every other item-level index in this
/// crate applies.
#[test]
fn every_indexed_item_kind_is_skipped_when_its_predicate_does_not_hold() {
    let source = "
    #[cfg(not(unix))]
    #[derive(Debug)]
    struct AStruct;

    #[cfg(not(unix))]
    #[derive(Debug)]
    enum AnEnum { Variant }

    #[cfg(not(unix))]
    #[derive(Debug)]
    union AUnion { flag: u8 }

    struct Excluded;

    #[cfg(not(unix))]
    impl Default for Excluded {
        fn default() -> Self { Self }
    }

    #[cfg(not(unix))]
    type ExcludedResult<T = Excluded> = core::result::Result<T, Excluded>;
";
    let defaults = Defaults::of_in(&read(source).unwrap(), &CfgSet::parse("unix"));

    assert!(
        !defaults.lacks_default(&ty("AStruct")),
        "an excluded struct stays unknown, rather than being screened as missing a default"
    );
    assert!(!defaults.lacks_default(&ty("AnEnum")), "an excluded enum stays unknown too");
    assert!(
        !defaults.lacks_default(&ty("AUnion")),
        "an excluded union stays unknown too"
    );
    assert!(
        defaults.lacks_default(&ty("Excluded")),
        "the excluded impl must not register a `Default` this type does not really have here"
    );
    assert_eq!(
        defaults.aliased_error("ExcludedResult"),
        None,
        "the excluded alias must not be registered"
    );
}

/// A type alias's generic parameter can be a lifetime or a `const`, which carries no default
/// type to read, rather than the type parameter the search is looking for.
#[test]
fn a_type_alias_with_no_type_parameter_reads_the_alias_target_instead() {
    let source = "struct Error; type MyResult<'a, const N: usize> = core::result::Result<u8, Error>;";
    let defaults = Defaults::of_in(&read(source).unwrap(), &CfgSet::unconditional());

    assert!(defaults.lacks_default(&ty("Error")));
}

/// An attribute that is not `#[derive(...)]` is passed over, so a `#[derive(Default)]` sitting
/// beside an unrelated attribute is still found.
#[test]
fn a_non_derive_attribute_beside_a_real_derive_does_not_hide_it() {
    let source = "#[allow(dead_code)] #[derive(Default)] struct S;";
    let defaults = Defaults::of_in(&read(source).unwrap(), &CfgSet::unconditional());

    assert!(!defaults.lacks_default(&ty("S")));
}

/// `name_of` steps through a parenthesized type to the name inside, the same way it already
/// does for any other wrapper it might be asked about.
#[test]
fn name_of_reads_through_a_parenthesized_type() {
    let ty = ty("(Error)");

    assert_eq!(name_of(&ty), Some("Error"));
}

/// `name_of` also steps through the invisible grouping `macro_rules!` hygiene can introduce,
/// which never appears in ordinary source but is still one token away from a parenthesized type.
#[test]
fn name_of_reads_through_an_invisible_group() {
    let ty = Node {
        kind: Kind::TypeGroup,
        start: 0,
        end: 0,
        text: String::new(),
        attrs: Vec::new(),
        kids: vec![ty("Error")],
    };

    assert_eq!(name_of(&ty), Some("Error"));
}

/// `payload_name` refuses a type it cannot key by a path, a path with no generic arguments at
/// all, and it steps over a non-type argument -- such as a lifetime -- to reach the type that
/// follows it.
#[test]
fn payload_name_handles_non_path_types_bare_paths_and_non_type_arguments() {
    let tuple = ty("(u8, Error)");
    let bare = ty("Error");
    let with_lifetime = ty("Result<'a, Error>");

    assert_eq!(payload_name(&tuple, 0), None);
    assert_eq!(payload_name(&bare, 0), None);
    assert_eq!(payload_name(&with_lifetime, 0), Some("Error"));
}

/// The attributes of every kind of item are read, so that a predicate on one decides whether the item
/// is in the build.
#[test]
fn item_attrs_reads_every_recognized_item_kind_and_falls_back_for_the_rest() {
    let sources = [
        "#[allow(dead_code)]\nextern crate core;",
        "#[allow(dead_code)]\nextern \"C\" {}",
        "#[allow(dead_code)]\nmacro_rules! m {\n    () => {};\n}",
        "#[allow(dead_code)]\ntrait Alias = Clone;",
        "#[allow(dead_code)]\nunion U {\n    a: u8,\n}",
    ];

    for source in sources {
        assert_eq!(item(source).attrs.len(), 1, "expected exactly the one attribute: {source}");
    }
}
