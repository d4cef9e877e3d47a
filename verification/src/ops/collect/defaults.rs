//! Which types have a `Default`, as far as the sources say.
use crate::cfg::{head, is_mark, is_word, lemma_comma, lemma_pieces, rest, Build, CfgSet};
use crate::syntax::query;
use crate::syntax::query::{last_name, path_ident, path_names, path_types, type_path};
use crate::syntax::{Kind, Node};
use crate::table::{Names, Table};
use crate::text;
use crate::text::{strings, viewed, viewed_string};
use vstd::prelude::*;

verus! {

// ---- The names of the trait. ----

/// What the names that can stand for the standard `Default` trait are bound to in one file.
#[verifier::ext_equal]
pub ghost struct Spellings {
    /// The names of the trait itself.
    pub aliases: Set<Seq<char>>,
    /// The names of standard modules, and the modules they name.
    pub modules: Map<Seq<char>, Seq<Seq<char>>>,
    /// Whether bare `Default` names something else among the types.
    pub shadowed: bool,
    /// Whether bare `Default` names something else among the derives.
    pub derive_shadowed: bool,
}

/// Whether a name is that of a crate of the standard library.
pub open spec fn is_std(name: Seq<char>) -> bool {
    name == "std"@ || name == "core"@
}

/// Whether a path spells the standard `Default` trait without imports.
pub open spec fn is_trait_path(path: Seq<Seq<char>>) -> bool {
    path.len() == 3 && is_std(path[0]) && path[1] == "default"@ && path[2] == "Default"@
}

/// Whether a path names a standard module that the trait can be reached through.
pub open spec fn is_module_path(path: Seq<Seq<char>>) -> bool {
    path.len() == 1 && is_std(path[0]) || path.len() == 2 && is_std(path[0]) && path[1] == "default"@
}

impl Spellings {
    /// Nothing is bound.
    pub open spec fn none() -> Spellings {
        Spellings { aliases: Set::empty(), modules: Map::empty(), shadowed: false, derive_shadowed: false }
    }

    /// A path with its first segment replaced by the module that it names, up to `n` times.
    pub open spec fn expanded(self, path: Seq<Seq<char>>, n: nat) -> Seq<Seq<char>>
        decreases n,
    {
        if n > 0 && path.len() > 0 && self.modules.contains_key(path[0]) {
            self.expanded(self.modules[path[0]] + path.drop_first(), (n - 1) as nat)
        } else {
            path
        }
    }

    /// Whether a path, given by its names, is that of the standard trait.
    pub open spec fn names_trait(self, path: Seq<Seq<char>>) -> bool {
        ||| path.len() == 1 && (self.aliases.contains(path[0]) || path[0] == "Default"@ && !self.shadowed)
        ||| is_trait_path(self.expanded(path, path.len()))
    }

    /// Whether a path, given by its names, is that of the standard trait's function.
    pub open spec fn names_function(self, path: Seq<Seq<char>>) -> bool {
        path.len() > 0 && path.last() == "default"@ && self.names_trait(path.drop_last())
    }

    /// Whether the text `Default::default()` calls a function of the trait that a path names.
    pub open spec fn is_fallback(self, path: Node) -> bool {
        ||| path.kids@.len() == 1 && path.kids@[0].word(0) == "Default"@
        ||| self.names_trait(path_names(path)) && !self.shadowed
    }

    /// What is bound once a name is imported from a path.
    pub open spec fn importing(self, binding: Seq<char>, prefix: Seq<Seq<char>>, source: Seq<char>) -> Spellings {
        let written = if source == "self"@ {
            prefix
        } else {
            prefix.push(source)
        };
        let path = self.expanded(written, written.len());
        if is_trait_path(path) {
            Spellings { aliases: self.aliases.insert(binding), ..self }
        } else if is_module_path(path) {
            Spellings { modules: self.modules.insert(binding, path), shadowed: self.shadowed || binding == "Default"@, ..self }
        } else if binding == "Default"@ {
            Spellings { shadowed: true, derive_shadowed: true, ..self }
        } else {
            self
        }
    }

    /// What is bound once every name of a `use` tree is imported.
    pub open spec fn using(self, prefix: Seq<Seq<char>>, tree: Node) -> Spellings
        decreases tree,
    {
        match tree.kind {
            Kind::UsePath => if tree.kids@.len() == 2 {
                self.using(prefix.push(tree.word(0)), tree.kids@[1])
            } else {
                self
            },
            Kind::UseName => self.importing(tree.word(0), prefix, tree.word(0)),
            Kind::UseRename => self.importing(tree.word(1), prefix, tree.word(0)),
            Kind::UseGroup => self.using_all(prefix, tree.kids@),
            _ => self,
        }
    }

    /// What is bound once every name of several `use` trees is imported.
    pub open spec fn using_all(self, prefix: Seq<Seq<char>>, trees: Seq<Node>) -> Spellings
        decreases trees,
    {
        if trees.len() == 0 {
            self
        } else {
            self.using_all(prefix, trees.drop_last()).using(prefix, trees.last())
        }
    }

    /// What is bound behind an item.
    pub open spec fn behind(self, item: Node, cfg: Build) -> Spellings {
        if !cfg.holds(item.attrs@) {
            self
        } else {
            match item.kind {
                Kind::ItemUse => match item.kid(0) {
                    Some(tree) => self.using(Seq::empty(), tree),
                    None => self,
                },
                Kind::ItemTrait | Kind::ItemStruct | Kind::ItemEnum | Kind::ItemUnion | Kind::ItemType | Kind::ItemMod => if item.word(0)
                    == "Default"@ {
                    Spellings { shadowed: true, ..self }
                } else {
                    self
                },
                _ => self,
            }
        }
    }
}

/// What is bound behind several items.
///
/// Only the items of the outermost scope count: a child module owns its imports and declarations.
/// Items that the build strips bind nothing.
pub open spec fn spellings_of(items: Seq<Node>, cfg: Build) -> Spellings
    decreases items.len(),
{
    if items.len() == 0 {
        Spellings::none()
    } else {
        spellings_of(items.drop_last(), cfg).behind(items.last(), cfg)
    }
}

/// The spellings in one file that name the standard-library `Default` trait.
///
/// The prelude makes bare `Default` normally mean `core::default::Default`, but local items and
/// imports can shadow it. There is no name resolution here, so explicit standard aliases and
/// explicit shadows are recorded before it is decided whether a call, a bound, a derive or an impl
/// refers to the standard trait.
#[derive(Debug)]
pub struct DefaultPaths {
    pub aliases: Names,
    pub modules: Table<Vec<String>>,
    pub shadowed: bool,
    pub derive_shadowed: bool,
}

/// The paths a table holds.
pub open spec fn paths_in(table: Map<Seq<char>, Vec<String>>) -> Map<Seq<char>, Seq<Seq<char>>> {
    table.map_values(|path: Vec<String>| strings(path@))
}

impl View for DefaultPaths {
    type V = Spellings;

    open spec fn view(&self) -> Spellings {
        Spellings {
            aliases: self.aliases@,
            modules: paths_in(self.modules@),
            shadowed: self.shadowed,
            derive_shadowed: self.derive_shadowed,
        }
    }
}

/// A copy of texts.
pub(crate) fn copied(texts: &Vec<String>, from: usize, out: &mut Vec<String>)
    requires
        from <= texts@.len(),
    ensures
        strings(final(out)@) == strings(old(out)@) + strings(texts@).skip(from as int),
{
    let ghost before = strings(out@);
    let mut at: usize = from;
    proof {
        assert(strings(out@) =~= before + strings(texts@).subrange(from as int, from as int));
    }
    while at < texts.len()
        invariant
            from <= at <= texts@.len(),
            strings(out@) == before + strings(texts@).subrange(from as int, at as int),
        decreases texts@.len() - at,
    {
        let ghost earlier = strings(out@);
        out.push(text::owned(texts[at].as_str()));
        at += 1;
        proof {
            assert(strings(out@) =~= earlier.push(texts@[at - 1]@));
            assert(strings(out@) =~= before + strings(texts@).subrange(from as int, at as int));
        }
    }
    proof {
        assert(strings(texts@).subrange(from as int, at as int) =~= strings(texts@).skip(from as int));
    }
}

/// Whether a name is that of a crate of the standard library.
fn is_std_name(name: &str) -> (r: bool)
    ensures
        r == is_std(name@),
{
    text::same(name, "std") || text::same(name, "core")
}

/// Whether a path spells the standard `Default` trait without imports.
fn is_standard_trait_path(path: &Vec<String>) -> (r: bool)
    ensures
        r == is_trait_path(strings(path@)),
{
    path.len() == 3 && is_std_name(path[0].as_str()) && text::same(path[1].as_str(), "default") && text::same(path[2].as_str(), "Default")
}

/// Whether a path names a standard module that can be imported under an alias.
fn is_standard_module_path(path: &Vec<String>) -> (r: bool)
    ensures
        r == is_module_path(strings(path@)),
{
    path.len() == 1 && is_std_name(path[0].as_str()) || path.len() == 2 && is_std_name(path[0].as_str()) && text::same(
        path[1].as_str(),
        "default",
    )
}

impl DefaultPaths {
    /// Nothing is bound.
    pub fn new() -> (r: DefaultPaths)
        ensures
            r@ == Spellings::none(),
    {
        let r = DefaultPaths { aliases: Names::new(), modules: Table::new(), shadowed: false, derive_shadowed: false };
        proof {
            assert(r@ =~= Spellings::none());
        }
        r
    }

    /// Collects standard-trait aliases and local shadows from a parsed file.
    pub fn of(file: &Node) -> (r: DefaultPaths)
        ensures
            r@ == spellings_of(file.all_of(0), Build::unknown()),
    {
        let cfg = CfgSet::unconditional();
        DefaultPaths::of_in(file, &cfg)
    }

    /// Collects bindings visible in this file's outer lexical scope.
    pub fn of_in(file: &Node, cfg: &CfgSet) -> (r: DefaultPaths)
        ensures
            r@ == spellings_of(file.all_of(0), cfg@),
    {
        let mut paths = DefaultPaths::new();
        let count = file.count_of(0);
        let mut at: usize = 0;
        let ghost items = file.all_of(0);
        proof {
            assert(items.take(0) =~= Seq::<Node>::empty());
        }
        while at < count
            invariant
                at <= count,
                count == items.len(),
                items == file.all_of(0),
                paths@ == spellings_of(items.take(at as int), cfg@),
            decreases count - at,
        {
            proof {
                assert(items.take(at + 1).drop_last() =~= items.take(at as int));
            }
            paths.pass(file.get_in(0, at), cfg);
            at += 1;
        }
        proof {
            assert(items.take(at as int) =~= items);
        }
        paths
    }

    /// Records what one item binds.
    fn pass(&mut self, item: &Node, cfg: &CfgSet)
        ensures
            final(self)@ == old(self)@.behind(*item, cfg@),
    {
        if !cfg.holds_for(&item.attrs) {
            return ;
        }
        match item.kind {
            Kind::ItemUse => {
                if let Some(tree) = item.get(0) {
                    let mut prefix: Vec<String> = Vec::new();
                    proof {
                        assert(strings(prefix@) =~= Seq::<Seq<char>>::empty());
                    }
                    self.descend_use(&mut prefix, tree);
                }
            },
            Kind::ItemTrait | Kind::ItemStruct | Kind::ItemEnum | Kind::ItemUnion | Kind::ItemType | Kind::ItemMod => {
                if text::same(item.get_word(0), "Default") {
                    self.shadowed = true;
                }
            },
            _ => {},
        }
    }

    /// Records every binding one `use` tree introduces.
    fn descend_use(&mut self, prefix: &mut Vec<String>, tree: &Node)
        ensures
            final(self)@ == old(self)@.using(strings(old(prefix)@), *tree),
            strings(final(prefix)@) == strings(old(prefix)@),
        decreases tree,
    {
        match tree.kind {
            Kind::UsePath => {
                if tree.kids.len() == 2 {
                    let ghost before = strings(prefix@);
                    prefix.push(text::owned(tree.get_word(0)));
                    proof {
                        assert(strings(prefix@) =~= before.push(tree.word(0)));
                    }
                    self.descend_use(prefix, &tree.kids[1]);
                    let ghost longer = strings(prefix@);
                    let _ = prefix.pop();
                    proof {
                        assert(strings(prefix@) =~= longer.drop_last());
                        assert(longer.drop_last() =~= before);
                    }
                }
            },
            Kind::UseName => {
                self.imported(tree.get_word(0), prefix, tree.get_word(0));
            },
            Kind::UseRename => {
                self.imported(tree.get_word(1), prefix, tree.get_word(0));
            },
            Kind::UseGroup => {
                let mut at: usize = 0;
                let ghost start = self@;
                let ghost names = strings(prefix@);
                proof {
                    assert(tree.kids@.take(0) =~= Seq::<Node>::empty());
                }
                while at < tree.kids.len()
                    invariant
                        at <= tree.kids@.len(),
                        strings(prefix@) == names,
                        self@ == start.using_all(names, tree.kids@.take(at as int)),
                    decreases tree.kids@.len() - at,
                {
                    proof {
                        assert(tree.kids@.take(at + 1).drop_last() =~= tree.kids@.take(at as int));
                    }
                    self.descend_use(prefix, &tree.kids[at]);
                    at += 1;
                }
                proof {
                    assert(tree.kids@.take(at as int) =~= tree.kids@);
                }
            },
            _ => {},
        }
    }

    /// Records one imported binding and the complete path it came from.
    fn imported(&mut self, binding: &str, prefix: &Vec<String>, source: &str)
        ensures
            final(self)@ == old(self)@.importing(binding@, strings(prefix@), source@),
    {
        let mut written: Vec<String> = Vec::new();
        copied(prefix, 0, &mut written);
        proof {
            assert(strings(written@) =~= strings(prefix@));
        }
        if !text::same(source, "self") {
            let ghost before = strings(written@);
            written.push(text::owned(source));
            proof {
                assert(strings(written@) =~= before.push(source@));
            }
        }
        let path = self.expand(written);
        let ghost start = *self;
        if is_standard_trait_path(&path) {
            self.aliases.insert(binding);
        } else if is_standard_module_path(&path) {
            let ghost names = strings(path@);
            let ghost held = path;
            self.modules.insert(binding, path);
            if text::same(binding, "Default") {
                self.shadowed = true;
            }
            proof {
                assert(paths_in(self.modules@) =~= paths_in(start.modules@).insert(binding@, names));
            }
        } else if text::same(binding, "Default") {
            self.shadowed = true;
            self.derive_shadowed = true;
        }
    }

    /// Resolves the first segment of a path through one or more imported standard modules.
    fn expand(&self, path: Vec<String>) -> (r: Vec<String>)
        ensures
            strings(r@) == self@.expanded(strings(path@), path@.len()),
    {
        let ghost given = strings(path@);
        let mut expanded = path;
        let mut left: usize = expanded.len();
        while left > 0
            invariant
                self@.expanded(strings(expanded@), left as nat) == self@.expanded(given, given.len()),
            ensures
                strings(expanded@) == self@.expanded(given, given.len()),
            decreases left,
        {
            if expanded.len() == 0 {
                break ;
            }
            proof {
                assert(strings(expanded@)[0] == expanded@[0]@);
            }
            match self.modules.get(expanded[0].as_str()) {
                Some(prefix) => {
                    let mut next: Vec<String> = Vec::new();
                    proof {
                        assert(strings(next@) =~= Seq::<Seq<char>>::empty());
                    }
                    copied(prefix, 0, &mut next);
                    copied(&expanded, 1, &mut next);
                    proof {
                        assert(strings(next@) =~= self@.modules[strings(expanded@)[0]] + strings(expanded@).drop_first());
                    }
                    expanded = next;
                },
                None => {
                    break ;
                },
            }
            left -= 1;
        }
        expanded
    }

    /// Returns whether a path, given by its names, is that of the standard trait.
    fn is_standard_trait_segments(&self, segments: Vec<String>) -> (r: bool)
        ensures
            r == self@.names_trait(strings(segments@)),
    {
        if segments.len() == 1 {
            let name = segments[0].as_str();
            proof {
                assert(strings(segments@)[0] == name@);
            }
            if self.aliases.contains(name) || text::same(name, "Default") && !self.shadowed {
                return true;
            }
        }
        is_standard_trait_path(&self.expand(segments))
    }

    /// Returns whether an implementation path names the standard `Default` trait.
    pub fn is_standard_trait(&self, path: &Node) -> (r: bool)
        ensures
            r == self@.names_trait(path_names(*path)),
    {
        self.is_standard_trait_segments(query::names_of(path))
    }

    /// Returns whether the fallback spelling `Default::default()` resolves to this trait.
    ///
    /// A bare custom trait named `Default` shadows the prelude, so it is not the standard trait,
    /// but the fallback text would still recurse inside its own `default` method. A standard trait
    /// written through an alias recurses only when bare `Default` still is that trait.
    pub fn is_fallback_trait(&self, path: &Node) -> (r: bool)
        ensures
            r == self@.is_fallback(*path),
    {
        path.kids.len() == 1 && text::same(path.kids[0].get_word(0), "Default") || self.is_standard_trait(path) && !self.shadowed
    }

    /// Returns whether a complete associated-function path calls the standard default trait.
    pub fn is_standard_default_callee(&self, path: &Node) -> (r: bool)
        ensures
            r == self@.names_function(path_names(*path)),
    {
        self.is_standard_default_segments(query::names_of(path))
    }

    /// Returns whether the names of a path are those of the standard trait's function.
    pub fn is_standard_default_segments(&self, segments: Vec<String>) -> (r: bool)
        ensures
            r == self@.names_function(strings(segments@)),
    {
        let mut qualifier = segments;
        let ghost given = strings(qualifier@);
        match qualifier.pop() {
            Some(method) => {
                proof {
                    assert(given.last() == method@);
                    assert(strings(qualifier@) =~= given.drop_last());
                }
                text::same(method.as_str(), "default") && self.is_standard_trait_segments(qualifier)
            },
            None => false,
        }
    }
}

impl Default for DefaultPaths {
    /// Nothing is bound.
    fn default() -> (r: DefaultPaths)
        ensures
            r@ == Spellings::none(),
    {
        DefaultPaths::new()
    }
}

// ---- Parameters. ----

/// Whether one type bound names the standard `Default` trait.
pub open spec fn is_default_bound(bound: Node, spellings: Spellings) -> bool {
    bound.kind == Kind::BoundTrait && (bound.kid(0) matches Some(path) && spellings.names_trait(path_names(path)))
}

/// Whether one of several type bounds names the standard `Default` trait.
pub open spec fn some_default_bound(bounds: Seq<Node>, spellings: Spellings) -> bool {
    exists|i: int| 0 <= i < bounds.len() && is_default_bound(#[trigger] bounds[i], spellings)
}

/// The type parameters whose own bounds promise the standard `Default` trait.
pub open spec fn bounded_params(params: Seq<Node>, spellings: Spellings) -> Seq<Seq<char>>
    decreases params.len(),
{
    if params.len() == 0 {
        Seq::empty()
    } else {
        let before = bounded_params(params.drop_last(), spellings);
        let param = params.last();
        if param.kind == Kind::TypeParam && some_default_bound(param.all_of(1), spellings) {
            before.push(param.word(0))
        } else {
            before
        }
    }
}

/// The name of a type that is nothing but a name.
pub open spec fn type_ident(ty: Node) -> Option<Seq<char>> {
    match type_path(ty) {
        Some(path) => path_ident(path),
        None => None,
    }
}

/// `names`, and the type parameters that predicates promise the standard `Default` trait for.
pub open spec fn promised_params(names: Seq<Seq<char>>, predicates: Seq<Node>, spellings: Spellings) -> Seq<Seq<char>>
    decreases predicates.len(),
{
    if predicates.len() == 0 {
        names
    } else {
        let before = promised_params(names, predicates.drop_last(), spellings);
        let predicate = predicates.last();
        if predicate.kind == Kind::WhereType && predicate.kids@.len() > 0 && some_default_bound(predicate.all_of(1), spellings) {
            match type_ident(predicate.kids@[0]) {
                Some(name) => if before.contains(name) {
                    before
                } else {
                    before.push(name)
                },
                None => before,
            }
        } else {
            before
        }
    }
}

/// The type parameters whose bounds promise the standard `Default` trait.
pub open spec fn defaulted_params(generics: Node, spellings: Spellings) -> Seq<Seq<char>> {
    promised_params(bounded_params(generics.all_of(0), spellings), generics.all_of(1), spellings)
}

/// Whether one of several type bounds names the standard `Default` trait.
fn has_default_bound(bounds: Option<&Node>, defaults: &DefaultPaths) -> (r: bool)
    ensures
        r == some_default_bound(query::listed(bounds), defaults@),
{
    let Some(list) = bounds else {
        return false;
    };
    let mut at: usize = 0;
    while at < list.kids.len()
        invariant
            at <= list.kids@.len(),
            query::listed(bounds) == list.kids@,
            forall|i: int| 0 <= i < at ==> !is_default_bound(#[trigger] list.kids@[i], defaults@),
        decreases list.kids@.len() - at,
    {
        let bound = &list.kids[at];
        if matches!(bound.kind, Kind::BoundTrait) {
            if let Some(path) = bound.get(0) {
                if defaults.is_standard_trait(path) {
                    proof {
                        assert(is_default_bound(list.kids@[at as int], defaults@));
                    }
                    return true;
                }
            }
        }
        at += 1;
    }
    false
}

/// Whether a name is among texts.
pub fn is_among(names: &Vec<String>, name: &str) -> (r: bool)
    ensures
        r == strings(names@).contains(name@),
{
    let mut at: usize = 0;
    while at < names.len()
        invariant
            at <= names@.len(),
            forall|i: int| 0 <= i < at ==> #[trigger] strings(names@)[i] != name@,
        decreases names@.len() - at,
    {
        if text::same(names[at].as_str(), name) {
            proof {
                assert(strings(names@)[at as int] == name@);
            }
            return true;
        }
        at += 1;
    }
    false
}

/// Names type parameters whose bounds explicitly promise the standard `Default` trait.
pub fn standard_defaulted_parameters(generics: &Node, defaults: &DefaultPaths) -> (r: Vec<String>)
    ensures
        strings(r@) == defaulted_params(*generics, defaults@),
{
    let mut names: Vec<String> = Vec::new();
    let ghost params = generics.all_of(0);
    let ghost predicates = generics.all_of(1);
    let count = generics.count_of(0);
    let mut at: usize = 0;
    proof {
        assert(strings(names@) =~= bounded_params(params.take(0), defaults@));
    }
    while at < count
        invariant
            at <= count,
            count == params.len(),
            params == generics.all_of(0),
            strings(names@) == bounded_params(params.take(at as int), defaults@),
        decreases count - at,
    {
        let param = generics.get_in(0, at);
        proof {
            assert(params.take(at + 1).drop_last() =~= params.take(at as int));
        }
        let ghost before = strings(names@);
        if matches!(param.kind, Kind::TypeParam) && has_default_bound(param.get(1), defaults) {
            names.push(text::owned(param.get_word(0)));
            proof {
                assert(strings(names@) =~= before.push(param.word(0)));
            }
        }
        at += 1;
    }
    proof {
        assert(params.take(at as int) =~= params);
    }
    let ghost own = strings(names@);
    let count = generics.count_of(1);
    at = 0;
    proof {
        assert(predicates.take(0) =~= Seq::<Node>::empty());
    }
    while at < count
        invariant
            at <= count,
            count == predicates.len(),
            predicates == generics.all_of(1),
            strings(names@) == promised_params(own, predicates.take(at as int), defaults@),
        decreases count - at,
    {
        let predicate = generics.get_in(1, at);
        proof {
            assert(predicates.take(at + 1).drop_last() =~= predicates.take(at as int));
        }
        let ghost before = strings(names@);
        if matches!(predicate.kind, Kind::WhereType) && predicate.kids.len() > 0 && has_default_bound(predicate.get(1), defaults) {
            if let Some(path) = query::path_of_type(&predicate.kids[0]) {
                if let Some(name) = query::ident_of(path) {
                    if !is_among(&names, name) {
                        names.push(text::owned(name));
                        proof {
                            assert(strings(names@) =~= before.push(name@));
                        }
                    }
                }
            }
        }
        at += 1;
    }
    proof {
        assert(predicates.take(at as int) =~= predicates);
    }
    names
}

// ---- Types. ----

/// The last segment of a type's path, which is the name that a type is known by.
pub open spec fn known_name(ty: Node) -> Option<Seq<char>>
    decreases ty,
{
    match ty.kind {
        Kind::TypePath => match ty.kid(1) {
            Some(path) => last_name(path),
            None => None,
        },
        Kind::TypeParen | Kind::TypeGroup => if ty.kids@.len() > 0 {
            known_name(ty.kids@[0])
        } else {
            None
        },
        _ => None,
    }
}

/// The last segment of a type's path, which is the name the index is keyed by.
pub fn name_of(ty: &Node) -> (r: Option<&str>)
    ensures
        viewed(r) == known_name(*ty),
    decreases ty,
{
    match ty.kind {
        Kind::TypePath => match ty.get(1) {
            Some(path) => query::last_name_of(path),
            None => None,
        },
        Kind::TypeParen | Kind::TypeGroup => if ty.kids.len() > 0 {
            name_of(&ty.kids[0])
        } else {
            None
        },
        _ => None,
    }
}

/// The name of a type argument of a type that is a path.
pub open spec fn argument_name(ty: Node, index: int) -> Option<Seq<char>> {
    match type_path(ty) {
        Some(path) => if 0 <= index < path_types(path).len() {
            known_name(path_types(path)[index])
        } else {
            None
        },
        None => None,
    }
}

/// The name of a type's `index`th generic argument.
pub fn payload_name(ty: &Node, index: usize) -> (r: Option<&str>)
    ensures
        viewed(r) == argument_name(*ty, index as int),
{
    match query::path_of_type(ty) {
        Some(path) => match query::type_at(path, index) {
            Some(inner) => name_of(inner),
            None => None,
        },
        None => None,
    }
}

// ---- The index. ----

/// Whether the arguments of a derive list `Default`.
pub open spec fn lists_default(tokens: Seq<Node>) -> bool
    decreases tokens,
{
    proof {
        lemma_pieces(tokens);
    }
    tokens.len() > 0 && (is_default_entry(head(tokens)) || lists_default(rest(tokens)))
}

/// Whether an entry of a derive is `Default`, and not a longer path.
pub open spec fn is_default_entry(tokens: Seq<Node>) -> bool {
    tokens.len() > 0 && is_word(tokens[0], "Default"@) && (tokens.len() > 1 ==> !is_mark(tokens[1], ":"@))
}

/// Whether an attribute derives `Default`.
pub open spec fn derives(attr: Node) -> bool {
    attr.kind == Kind::AttrList && attr.kids@.len() == 2 && path_ident(attr.kids@[0]) == Some("derive"@) && lists_default(
        attr.kids@[1].kids@,
    )
}

/// Whether one of several attributes derives the standard `Default`.
pub open spec fn derives_standard(attrs: Seq<Node>, spellings: Spellings) -> bool {
    !spellings.derive_shadowed && exists|i: int| 0 <= i < attrs.len() && derives(#[trigger] attrs[i])
}

/// What is known of the types of a workspace.
#[verifier::ext_equal]
pub ghost struct Known {
    /// The types it defines.
    pub defined: Set<Seq<char>>,
    /// The types that have the standard `Default`.
    pub defaulted: Set<Seq<char>>,
    /// The error type that each `Result` alias fixes, or nothing where that is disputed.
    pub errors: Map<Seq<char>, Option<Seq<char>>>,
}

/// The errors of aliases once one more is known: a disputed alias says nothing.
pub open spec fn with_alias(errors: Map<Seq<char>, Option<Seq<char>>>, alias: Seq<char>, error: Option<Seq<char>>) -> Map<
    Seq<char>,
    Option<Seq<char>>,
> {
    if errors.contains_key(alias) && errors[alias] != error {
        errors.insert(alias, None)
    } else {
        errors.insert(alias, error)
    }
}

/// The name of the default of the first type parameter that has one with a name.
pub open spec fn default_param(params: Seq<Node>) -> Option<Seq<char>>
    decreases params.len(),
{
    if params.len() == 0 {
        None
    } else {
        let before = default_param(params.drop_last());
        if before is Some {
            before
        } else if params.last().kind == Kind::TypeParam {
            match params.last().first_of(2) {
                Some(ty) => known_name(ty),
                None => None,
            }
        } else {
            None
        }
    }
}

/// The error type that an alias for `Result` fixes.
pub open spec fn alias_error(item: Node) -> Option<Seq<char>> {
    if item.kids@.len() == 3 && known_name(item.kids@[2]) == Some("Result"@) {
        match default_param(item.kids@[1].all_of(0)) {
            Some(error) => Some(error),
            None => argument_name(item.kids@[2], 1),
        }
    } else {
        None
    }
}

impl Known {
    /// Nothing is known.
    pub open spec fn nothing() -> Known {
        Known { defined: Set::empty(), defaulted: Set::empty(), errors: Map::empty() }
    }

    /// What is known once a node is looked at, but nothing beneath it.
    pub open spec fn noting(self, node: Node, spellings: Spellings) -> Known {
        match node.kind {
            Kind::ItemStruct | Kind::ItemEnum | Kind::ItemUnion => Known {
                defined: self.defined.insert(node.word(0)),
                defaulted: if derives_standard(node.attrs@, spellings) {
                    self.defaulted.insert(node.word(0))
                } else {
                    self.defaulted
                },
                ..self
            },
            Kind::ItemImpl => if node.kids@.len() == 4 && node.first_of(1) is Some && spellings.names_trait(
                path_names(node.first_of(1)->0),
            ) && known_name(node.kids@[2]) is Some {
                Known { defaulted: self.defaulted.insert(known_name(node.kids@[2])->0), ..self }
            } else {
                self
            },
            Kind::ItemType => match alias_error(node) {
                Some(error) => Known { errors: with_alias(self.errors, node.word(0), Some(error)), ..self },
                None => self,
            },
            _ => self,
        }
    }

    /// What is known once a node and everything beneath it is looked at.
    pub open spec fn reading(self, node: Node, spellings: Spellings, cfg: Build) -> Known
        decreases node,
    {
        proof {
            node.lemma_inside();
        }
        if is_indexed(node) && !cfg.holds(node.attrs@) {
            self
        } else {
            self.noting(node, spellings).reading_all(node.attrs@, spellings, cfg).reading_all(node.inside(), spellings, cfg)
        }
    }

    /// What is known once several nodes and everything beneath them is looked at.
    pub open spec fn reading_all(self, nodes: Seq<Node>, spellings: Spellings, cfg: Build) -> Known
        decreases nodes,
    {
        if nodes.len() == 0 {
            self
        } else {
            self.reading_all(nodes.drop_last(), spellings, cfg).reading(nodes.last(), spellings, cfg)
        }
    }

    /// What is known once another index is folded in.
    pub open spec fn absorbing(self, other: Known) -> Known {
        Known {
            defined: self.defined.union(other.defined),
            defaulted: self.defaulted.union(other.defaulted),
            errors: both(self.errors, other.errors),
        }
    }
}

/// The errors that two indexes know of: an alias that they disagree about says nothing.
pub open spec fn both(one: Map<Seq<char>, Option<Seq<char>>>, other: Map<Seq<char>, Option<Seq<char>>>) -> Map<
    Seq<char>,
    Option<Seq<char>>,
> {
    Map::new(
        |alias: Seq<char>| one.contains_key(alias) || other.contains_key(alias),
        |alias: Seq<char>|
            if !other.contains_key(alias) {
                one[alias]
            } else if !one.contains_key(alias) {
                other[alias]
            } else if one[alias] == other[alias] {
                one[alias]
            } else {
                None
            },
    )
}

/// Whether a node is one of the items that the index is made of.
pub open spec fn is_indexed(node: Node) -> bool {
    match node.kind {
        Kind::ItemStruct | Kind::ItemEnum | Kind::ItemUnion | Kind::ItemImpl | Kind::ItemType => true,
        _ => false,
    }
}

/// The errors a table holds.
pub open spec fn errors_in(table: Map<Seq<char>, Option<String>>) -> Map<Seq<char>, Option<Seq<char>>> {
    table.map_values(|error: Option<String>| viewed_string(error))
}

/// What the workspace's own sources say about which of their types implement `Default`.
///
/// For a type this workspace defines, the definition is in a file that was parsed anyway, and
/// either it derives the standard `Default`, something writes a standard `impl Default for` it, or
/// it has none.
///
/// The index is evidence of presence and never proof of absence for anything it cannot see whole. A
/// type it has no definition for stays optimistic, because it may come from a dependency that does
/// implement `Default`.
#[derive(Debug)]
pub struct Defaults {
    /// The bindings that decide whether `Default` means the standard trait.
    pub paths: DefaultPaths,
    /// The `struct`, `enum` and `union` names this workspace defines.
    pub defined: Names,
    /// Those of them that derive or implement the standard `Default` trait.
    pub defaulted: Names,
    /// For each alias of `Result`, the name of the error type it fixes.
    ///
    /// Nothing stands for an alias that was seen naming more than one.
    pub result_error: Table<Option<String>>,
}

impl View for Defaults {
    type V = Known;

    open spec fn view(&self) -> Known {
        Known { defined: self.defined@, defaulted: self.defaulted@, errors: errors_in(self.result_error@) }
    }
}

/// Whether one of the entries of a derive, from `from` on, is `Default`.
fn has_default_entry(tokens: &Vec<Node>, from: usize) -> (r: bool)
    requires
        from <= tokens@.len(),
    ensures
        r == lists_default(tokens@.skip(from as int)),
    decreases tokens@.len() - from,
{
    let ghost part = tokens@.skip(from as int);
    if from == tokens.len() {
        return false;
    }
    proof {
        assert(part =~= tokens@.subrange(from as int, tokens@.len() as int));
    }
    let (end, next) = crate::cfg::pieces(tokens, from, tokens.len());
    proof {
        assert(tokens@.skip(next as int) =~= tokens@.subrange(next as int, tokens@.len() as int));
        lemma_comma(part);
        if from < end {
            assert(head(part)[0] == tokens@[from as int]);
        }
        if end - from > 1 {
            assert(head(part)[1] == tokens@[from + 1]);
        }
    }
    from < end && crate::cfg::word_is(&tokens[from], "Default") && (end - from == 1 || !crate::cfg::mark_is(&tokens[from + 1], ":"))
        || has_default_entry(tokens, next)
}

/// Returns whether a `#[derive(...)]` on an item lists the standard `Default`.
fn derives_default(attributes: &Vec<Node>, paths: &DefaultPaths) -> (r: bool)
    ensures
        r == derives_standard(attributes@, paths@),
{
    if paths.derive_shadowed {
        return false;
    }
    let mut at: usize = 0;
    while at < attributes.len()
        invariant
            at <= attributes@.len(),
            !paths.derive_shadowed,
            forall|i: int| 0 <= i < at ==> !derives(#[trigger] attributes@[i]),
        decreases attributes@.len() - at,
    {
        let attr = &attributes[at];
        if matches!(attr.kind, Kind::AttrList) && attr.kids.len() == 2 && query::is_ident(&attr.kids[0], "derive") {
            let tokens = &attr.kids[1].kids;
            proof {
                assert(tokens@.skip(0) =~= tokens@);
            }
            if has_default_entry(tokens, 0) {
                proof {
                    assert(derives(attributes@[at as int]));
                }
                return true;
            }
        }
        at += 1;
    }
    false
}

/// The name of the default of the first type parameter that has one with a name.
fn default_param_of(generics: &Node) -> (r: Option<&str>)
    ensures
        viewed(r) == default_param(generics.all_of(0)),
{
    let ghost params = generics.all_of(0);
    let count = generics.count_of(0);
    let mut found: Option<&str> = None;
    let mut at: usize = 0;
    proof {
        assert(params.take(0) =~= Seq::<Node>::empty());
    }
    while at < count
        invariant
            at <= count,
            count == params.len(),
            params == generics.all_of(0),
            viewed(found) == default_param(params.take(at as int)),
        decreases count - at,
    {
        let param = generics.get_in(0, at);
        proof {
            assert(params.take(at + 1).drop_last() =~= params.take(at as int));
        }
        if found.is_none() && matches!(param.kind, Kind::TypeParam) {
            if let Some(ty) = param.get_first(2) {
                found = name_of(ty);
            }
        }
        at += 1;
    }
    proof {
        assert(params.take(at as int) =~= params);
    }
    found
}

/// The error type that an alias for `Result` fixes.
fn alias_error_of(item: &Node) -> (r: Option<&str>)
    ensures
        viewed(r) == alias_error(*item),
{
    if item.kids.len() != 3 {
        return None;
    }
    let target = &item.kids[2];
    let is_result = match name_of(target) {
        Some(name) => text::same(name, "Result"),
        None => false,
    };
    if !is_result {
        return None;
    }
    match default_param_of(&item.kids[1]) {
        Some(error) => Some(error),
        None => payload_name(target, 1),
    }
}

/// Whether two optional texts are the same.
fn is_same_option(left: &Option<String>, right: &Option<String>) -> (r: bool)
    ensures
        r == (viewed_string(*left) == viewed_string(*right)),
{
    match (left, right) {
        (Some(left), Some(right)) => text::same(left.as_str(), right.as_str()),
        (None, None) => true,
        _ => false,
    }
}

/// Folds one alias into the table, demoting an alias that is disputed.
///
/// The last writer must not win. Indexes are folded in whatever order they were finished, so a
/// table that overwrote on collision would give a different answer on every run over an unchanged
/// workspace.
fn merge_alias(into: &mut Table<Option<String>>, alias: &str, error: Option<String>)
    ensures
        errors_in(final(into)@) == with_alias(errors_in(old(into)@), alias@, viewed_string(error)),
{
    let ghost before = errors_in(into@);
    let ghost was = into@;
    let disputed = match into.get(alias) {
        Some(known) => !is_same_option(known, &error),
        None => false,
    };
    if disputed {
        into.insert(alias, None);
        proof {
            assert(errors_in(into@) =~= before.insert(alias@, None));
        }
    } else {
        let ghost value = viewed_string(error);
        into.insert(alias, error);
        proof {
            assert(errors_in(into@) =~= before.insert(alias@, value));
        }
    }
}

impl Defaults {
    /// Builds the index over one parsed file.
    ///
    /// A workspace's index is the [`absorb`](Self::absorb) of one of these per file.
    pub fn of(file: &Node) -> (r: Defaults)
        ensures
            r@ == Known::nothing().reading(*file, spellings_of(file.all_of(0), Build::unknown()), Build::unknown()),
    {
        let cfg = CfgSet::unconditional();
        Defaults::of_in(file, &cfg)
    }

    /// Builds the index over one parsed file for a configuration.
    pub fn of_in(file: &Node, cfg: &CfgSet) -> (r: Defaults)
        ensures
            r@ == Known::nothing().reading(*file, spellings_of(file.all_of(0), cfg@), cfg@),
    {
        let mut index = Defaults {
            paths: DefaultPaths::of_in(file, cfg),
            defined: Names::new(),
            defaulted: Names::new(),
            result_error: Table::new(),
        };
        proof {
            assert(errors_in(index.result_error@) =~= Map::<Seq<char>, Option<Seq<char>>>::empty());
            assert(index@ =~= Known::nothing());
        }
        index.read(file, cfg);
        index
    }

    /// Records what an item says, but nothing beneath it.
    fn note(&mut self, node: &Node)
        ensures
            final(self)@ == old(self)@.noting(*node, old(self).paths@),
            final(self).paths == old(self).paths,
    {
        match node.kind {
            Kind::ItemStruct | Kind::ItemEnum | Kind::ItemUnion => {
                self.defined.insert(node.get_word(0));
                if derives_default(&node.attrs, &self.paths) {
                    self.defaulted.insert(node.get_word(0));
                }
            },
            Kind::ItemImpl => {
                if node.kids.len() == 4 {
                    if let Some(path) = node.get_first(1) {
                        if self.paths.is_standard_trait(path) {
                            if let Some(name) = name_of(&node.kids[2]) {
                                self.defaulted.insert(name);
                            }
                        }
                    }
                }
            },
            Kind::ItemType => {
                if let Some(error) = alias_error_of(node) {
                    merge_alias(&mut self.result_error, node.get_word(0), Some(text::owned(error)));
                }
            },
            _ => {},
        }
    }

    /// Records what a node and everything beneath it says.
    fn read(&mut self, node: &Node, cfg: &CfgSet)
        ensures
            final(self)@ == old(self)@.reading(*node, old(self).paths@, cfg@),
            final(self).paths == old(self).paths,
        decreases node, 1nat,
    {
        proof {
            node.lemma_inside();
            assert(node.attrs@.take(node.attrs@.len() as int) =~= node.attrs@);
            assert(node.kids@.take(node.inside().len() as int) =~= node.inside());
        }
        match node.kind {
            Kind::ItemStruct | Kind::ItemEnum | Kind::ItemUnion | Kind::ItemImpl | Kind::ItemType => {
                if !cfg.holds_for(&node.attrs) {
                    return ;
                }
            },
            _ => {},
        }
        self.note(node);
        self.read_all(&node.attrs, node.attrs.len(), cfg);
        self.read_all(&node.kids, node.count_inside(), cfg);
    }

    /// Records what the first of several nodes and everything beneath them say.
    fn read_all(&mut self, nodes: &Vec<Node>, count: usize, cfg: &CfgSet)
        requires
            count <= nodes@.len(),
        ensures
            final(self)@ == old(self)@.reading_all(nodes@.take(count as int), old(self).paths@, cfg@),
            final(self).paths == old(self).paths,
        decreases nodes@, 0nat,
    {
        let ghost start = *self;
        let mut at: usize = 0;
        proof {
            assert(nodes@.take(0) =~= Seq::<Node>::empty());
        }
        while at < count
            invariant
                at <= count <= nodes@.len(),
                self@ == start@.reading_all(nodes@.take(at as int), start.paths@, cfg@),
                self.paths == start.paths,
            decreases count - at,
        {
            proof {
                assert(nodes@.take(at + 1).drop_last() =~= nodes@.take(at as int));
                assert(decreases_to!(nodes@ => nodes@[at as int]));
            }
            self.read(&nodes[at], cfg);
            at += 1;
        }
    }

    /// Returns whether the workspace defines this type and gives it no `Default`.
    ///
    /// Names are compared unqualified, so two crates in one workspace can both define a `Config`.
    /// Presence wins that collision: if either of them has a `Default`, neither is screened.
    pub fn lacks_default(&self, ty: &Node) -> (r: bool)
        ensures
            r == (known_name(*ty) matches Some(name) && self@.defined.contains(name) && !self@.defaulted.contains(name)),
    {
        match name_of(ty) {
            Some(name) => self.lacks_error_default(name),
            None => false,
        }
    }

    /// Folds another index into this one.
    ///
    /// Every field resolves a collision without reference to the order in which indexes are folded,
    /// because that order is not reproducible and the result decides which mutants exist.
    pub fn absorb(&mut self, other: Self)
        ensures
            final(self)@ == old(self)@.absorbing(other@),
    {
        let ghost start = *self;
        self.defined.extend(&other.defined);
        self.defaulted.extend(&other.defaulted);
        let ghost theirs = errors_in(other.result_error@);
        let ghost ours = errors_in(start.result_error@);
        let mut at: usize = 0;
        proof {
            assert(errors_in(self.result_error@) =~= both(ours, seen_of(other.result_error, 0)));
        }
        while at < other.result_error.entries.len()
            invariant
                at <= other.result_error.entries@.len(),
                self.defined@ == start.defined@.union(other.defined@),
                self.defaulted@ == start.defaulted@.union(other.defaulted@),
                ours == errors_in(start.result_error@),
                errors_in(self.result_error@) == both(ours, seen_of(other.result_error, at as int)),
            decreases other.result_error.entries@.len() - at,
        {
            let alias = other.result_error.entries[at].0.as_str();
            proof {
                other.result_error.lemma_some(alias@, at as int);
            }
            let ghost before = errors_in(self.result_error@);
            if let Some(error) = other.result_error.get(alias) {
                let value = match error {
                    Some(error) => Some(text::owned(error.as_str())),
                    None => None,
                };
                merge_alias(&mut self.result_error, alias, value);
            }
            proof {
                lemma_seen_grows(ours, other.result_error, at as int);
                assert(errors_in(self.result_error@) =~= both(ours, seen_of(other.result_error, at + 1)));
            }
            at += 1;
        }
        proof {
            lemma_seen_whole(other.result_error);
            assert(self@ =~= start@.absorbing(other@));
        }
    }

    /// Returns whether a type named by the index has no `Default`, given only its name.
    ///
    /// The by-name form exists for an error type reached through an alias, where what was recorded
    /// is a name rather than a type.
    pub fn lacks_error_default(&self, name: &str) -> (r: bool)
        ensures
            r == (self@.defined.contains(name@) && !self@.defaulted.contains(name@)),
    {
        self.defined.contains(name) && !self.defaulted.contains(name)
    }

    /// Returns the error type a `Result` alias fixed, given the alias's name.
    ///
    /// Nothing covers both "no such alias" and "the workspace disagrees about this one".
    pub fn aliased_error(&self, alias: &str) -> (r: Option<&str>)
        ensures
            viewed(r) == if self@.errors.contains_key(alias@) {
                self@.errors[alias@]
            } else {
                None
            },
    {
        match self.result_error.get(alias) {
            Some(error) => match error {
                Some(error) => Some(error.as_str()),
                None => None,
            },
            None => None,
        }
    }
}

impl Default for Defaults {
    /// An index that knows nothing, for a build of which nothing is known.
    fn default() -> (r: Defaults)
        ensures
            r@ == Known::nothing(),
    {
        let r = Defaults {
            paths: DefaultPaths::new(),
            defined: Names::new(),
            defaulted: Names::new(),
            result_error: Table::new(),
        };
        proof {
            assert(errors_in(r.result_error@) =~= Map::<Seq<char>, Option<Seq<char>>>::empty());
            assert(r@ =~= Known::nothing());
        }
        r
    }
}

/// What a table says of the names of its first entries.
spec fn seen_of(table: Table<Option<String>>, n: int) -> Map<Seq<char>, Option<Seq<char>>> {
    Map::new(
        |alias: Seq<char>| exists|i: int| 0 <= i < n && i < table.entries@.len() && (#[trigger] table.entries@[i]).0@ == alias,
        |alias: Seq<char>| errors_in(table@)[alias],
    )
}

/// One more entry folded in.
proof fn lemma_seen_grows(ours: Map<Seq<char>, Option<Seq<char>>>, table: Table<Option<String>>, at: int)
    requires
        0 <= at < table.entries@.len(),
        table@.contains_key(table.entries@[at].0@),
    ensures
        with_alias(both(ours, seen_of(table, at)), table.entries@[at].0@, errors_in(table@)[table.entries@[at].0@]) =~= both(
            ours,
            seen_of(table, at + 1),
        ),
{
    let alias = table.entries@[at].0@;
    let less = seen_of(table, at);
    let more = seen_of(table, at + 1);
    assert forall|name: Seq<char>| more.contains_key(name) == (less.contains_key(name) || name == alias) by {
        if less.contains_key(name) {
            let i = choose|i: int| 0 <= i < at && i < table.entries@.len() && (#[trigger] table.entries@[i]).0@ == name;
            assert(table.entries@[i].0@ == name);
        }
        if name == alias {
            assert(table.entries@[at].0@ == name);
        }
        if more.contains_key(name) {
            let i = choose|i: int| 0 <= i < at + 1 && i < table.entries@.len() && (#[trigger] table.entries@[i]).0@ == name;
            if i < at {
                assert(table.entries@[i].0@ == name);
            }
        }
    }
}

/// Every entry folded in.
proof fn lemma_seen_whole(table: Table<Option<String>>)
    ensures
        seen_of(table, table.entries@.len() as int) =~= errors_in(table@),
{
    assert forall|name: Seq<char>| seen_of(table, table.entries@.len() as int).contains_key(name) == errors_in(table@).contains_key(
        name,
    ) by {
        if table@.contains_key(name) {
            let i = choose|i: int| crate::table::is_last(table.entries@, name, i);
            assert(table.entries@[i].0@ == name);
        }
        if seen_of(table, table.entries@.len() as int).contains_key(name) {
            let i = choose|i: int| 0 <= i < table.entries@.len() && (#[trigger] table.entries@[i]).0@ == name;
            table.lemma_some(name, i);
        }
    }
}

// ---- What the index promises. ----

/// It does not matter in which order indexes are folded together.
pub proof fn law_folding_does_not_depend_on_the_order(one: Known, two: Known, three: Known)
    ensures
        one.absorbing(two) == two.absorbing(one),
        one.absorbing(two).absorbing(three) == one.absorbing(two.absorbing(three)),
{
    assert(one.absorbing(two) =~= two.absorbing(one));
    assert(one.absorbing(two).absorbing(three) =~= one.absorbing(two.absorbing(three)));
}

/// A type that some index knows to have a `Default` is not screened, whatever the others know.
pub proof fn law_presence_wins(one: Known, two: Known, name: Seq<char>)
    requires
        one.defaulted.contains(name) || two.defaulted.contains(name),
    ensures
        one.absorbing(two).defaulted.contains(name),
{
}

/// An alias that two indexes disagree about says nothing, and no further index revives it.
pub proof fn law_a_disputed_alias_stays_disputed(one: Known, two: Known, more: Known, alias: Seq<char>)
    requires
        one.errors.contains_key(alias),
        two.errors.contains_key(alias),
        one.errors[alias] != two.errors[alias],
    ensures
        one.absorbing(two).errors[alias] is None,
        one.absorbing(two).absorbing(more).errors[alias] is None,
{
}

} // verus!
