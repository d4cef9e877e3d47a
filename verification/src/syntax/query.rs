//! Questions about one node of the tree.
use super::tree::{Kind, Node};
use crate::text;
use crate::text::{strings, viewed};
use vstd::prelude::*;

verus! {

// ---- Lists. ----

/// The parts of a node that is a list, or none.
pub open spec fn listed(list: Option<&Node>) -> Seq<Node> {
    match list {
        Some(list) => list.kids@,
        None => Seq::empty(),
    }
}

impl Node {
    /// How many parts a part that is a list has.
    pub fn count_of(&self, at: usize) -> (r: usize)
        ensures
            r == self.all_of(at as int).len(),
    {
        match self.get(at) {
            Some(list) => list.kids.len(),
            None => 0,
        }
    }

    /// A part of a part that is a list.
    pub fn get_in(&self, at: usize, index: usize) -> (r: &Node)
        requires
            index < self.all_of(at as int).len(),
        ensures
            *r == self.all_of(at as int)[index as int],
            decreases_to!(*self => *r),
    {
        let list = &self.kids[at];
        let r = &list.kids[index];
        proof {
            assert(decreases_to!(*self => self.kids@));
            assert(decreases_to!(self.kids@ => self.kids@[at as int]));
            assert(decreases_to!(*list => list.kids@));
            assert(decreases_to!(list.kids@ => list.kids@[index as int]));
        }
        r
    }
}

// ---- Paths. ----

/// The names of a path's segments.
pub open spec fn path_names(path: Node) -> Seq<Seq<char>> {
    path.kids@.map_values(|segment: Node| segment.word(0))
}

/// Whether a path segment carries no arguments.
pub open spec fn is_plain(segment: Node) -> bool {
    segment.kid(1) matches Some(args) && args.kind == Kind::NoArgs
}

/// The one name a path consists of, if it is nothing but that.
pub open spec fn path_ident(path: Node) -> Option<Seq<char>> {
    if path.kind == (Kind::Path { global: false }) && path.kids@.len() == 1 && is_plain(path.kids@[0]) {
        Some(path.kids@[0].word(0))
    } else {
        None
    }
}

/// The name of a path's last segment.
pub open spec fn last_name(path: Node) -> Option<Seq<char>> {
    if path.kids@.len() > 0 {
        Some(path.kids@.last().word(0))
    } else {
        None
    }
}

/// The names of a path's segments.
pub fn names_of(path: &Node) -> (r: Vec<String>)
    ensures
        strings(r@) == path_names(*path),
{
    let mut names: Vec<String> = Vec::new();
    let mut at: usize = 0;
    while at < path.kids.len()
        invariant
            at <= path.kids@.len(),
            strings(names@) == path_names(*path).take(at as int),
        decreases path.kids@.len() - at,
    {
        let ghost before = names@;
        names.push(text::owned(path.kids[at].get_word(0)));
        at += 1;
        proof {
            assert(strings(names@) =~= strings(before).push(path.kids@[at - 1].word(0)));
            assert(path_names(*path).take(at as int) =~= path_names(*path).take(at - 1).push(path.kids@[at - 1].word(0)));
        }
    }
    proof {
        assert(path_names(*path).take(at as int) =~= path_names(*path));
    }
    names
}

/// Whether a path segment carries no arguments.
fn is_bare(segment: &Node) -> (r: bool)
    ensures
        r == is_plain(*segment),
{
    match segment.get(1) {
        Some(args) => matches!(args.kind, Kind::NoArgs),
        None => false,
    }
}

/// The one name a path consists of, if it is nothing but that.
pub fn ident_of(path: &Node) -> (r: Option<&str>)
    ensures
        viewed(r) == path_ident(*path),
{
    if matches!(path.kind, Kind::Path { global: false }) && path.kids.len() == 1 && is_bare(&path.kids[0]) {
        Some(path.kids[0].get_word(0))
    } else {
        None
    }
}

/// Whether a path is nothing but a given name.
pub fn is_ident(path: &Node, name: &str) -> (r: bool)
    ensures
        r == (path_ident(*path) == Some(name@)),
{
    match ident_of(path) {
        Some(ident) => text::same(ident, name),
        None => false,
    }
}

/// The name of a path's last segment.
pub fn last_name_of(path: &Node) -> (r: Option<&str>)
    ensures
        viewed(r) == last_name(*path),
{
    if path.kids.len() > 0 {
        Some(path.kids[path.kids.len() - 1].get_word(0))
    } else {
        None
    }
}

// ---- Types. ----

/// Sees through parentheses to the type underneath.
pub open spec fn stripped(ty: Node) -> Node
    decreases ty,
{
    if ty.kind == Kind::TypeParen && ty.kids@.len() > 0 {
        stripped(ty.kids@[0])
    } else {
        ty
    }
}

/// Sees through parentheses to the type underneath.
pub fn strip(ty: &Node) -> (r: &Node)
    ensures
        *r == stripped(*ty),
        *r == *ty || decreases_to!(*ty => *r),
    decreases ty,
{
    if matches!(ty.kind, Kind::TypeParen) && ty.kids.len() > 0 {
        let inner = &ty.kids[0];
        proof {
            assert(decreases_to!(*ty => ty.kids@));
            assert(decreases_to!(ty.kids@ => ty.kids@[0]));
        }
        strip(inner)
    } else {
        ty
    }
}

/// The path of a type that is one.
pub open spec fn type_path(ty: Node) -> Option<Node> {
    if ty.kind == Kind::TypePath {
        ty.kid(1)
    } else {
        None
    }
}

/// The path of a type that is one.
pub fn path_of_type(ty: &Node) -> (r: Option<&Node>)
    ensures
        r is Some <==> type_path(*ty) is Some,
        r matches Some(path) ==> type_path(*ty) == Some(*path) && decreases_to!(*ty => *path),
{
    if matches!(ty.kind, Kind::TypePath) {
        ty.get(1)
    } else {
        None
    }
}

/// The arguments in angle brackets behind the last segment of a path.
pub open spec fn last_arguments(path: Node) -> Option<Node> {
    if path.kids@.len() > 0 {
        match path.kids@.last().kid(1) {
            Some(args) => if args.kind == Kind::AngleArgs {
                Some(args)
            } else {
                None
            },
            None => None,
        }
    } else {
        None
    }
}

/// The arguments in angle brackets behind the last segment of a path.
pub fn arguments_of(path: &Node) -> (r: Option<&Node>)
    ensures
        r is Some <==> last_arguments(*path) is Some,
        r matches Some(args) ==> last_arguments(*path) == Some(*args) && decreases_to!(*path => *args),
{
    if path.kids.len() > 0 {
        let last = &path.kids[path.kids.len() - 1];
        proof {
            assert(decreases_to!(*path => path.kids@));
            assert(decreases_to!(path.kids@ => path.kids@[path.kids@.len() - 1]));
        }
        match last.get(1) {
            Some(args) => if matches!(args.kind, Kind::AngleArgs) {
                Some(args)
            } else {
                None
            },
            None => None,
        }
    } else {
        None
    }
}

/// The types among generic arguments, in order.
pub open spec fn types_among(args: Seq<Node>) -> Seq<Node>
    decreases args.len(),
{
    if args.len() == 0 {
        Seq::empty()
    } else {
        let before = types_among(args.drop_last());
        match args.last().kid(0) {
            Some(ty) => if args.last().kind == Kind::ArgType {
                before.push(ty)
            } else {
                before
            },
            None => before,
        }
    }
}

/// The type arguments of a path's last segment, leaving out lifetimes and constants.
pub open spec fn path_types(path: Node) -> Seq<Node> {
    match last_arguments(path) {
        Some(args) => types_among(args.kids@),
        None => Seq::empty(),
    }
}

/// How many of the first arguments are types never goes down.
proof fn lemma_types_grow(args: Seq<Node>, n: int)
    requires
        0 <= n <= args.len(),
    ensures
        types_among(args.take(n)).len() <= types_among(args).len(),
        types_among(args).take(types_among(args.take(n)).len() as int) == types_among(args.take(n)),
    decreases args.len(),
{
    if n < args.len() {
        lemma_types_grow(args.drop_last(), n);
        assert(args.drop_last().take(n) =~= args.take(n));
        let shorter = types_among(args.drop_last());
        let all = types_among(args);
        let first = types_among(args.take(n));
        assert(all.take(first.len() as int) =~= shorter.take(first.len() as int));
    } else {
        assert(args.take(n) =~= args);
        assert(types_among(args).take(types_among(args).len() as int) =~= types_among(args));
    }
}

/// How many types there are among generic arguments.
pub fn count_types(path: &Node) -> (r: usize)
    ensures
        r == path_types(*path).len(),
{
    let Some(args) = arguments_of(path) else {
        return 0;
    };
    let mut count: usize = 0;
    let mut at: usize = 0;
    proof {
        assert(types_among(args.kids@.take(0)) =~= Seq::<Node>::empty());
    }
    while at < args.kids.len()
        invariant
            at <= args.kids@.len(),
            count == types_among(args.kids@.take(at as int)).len(),
            count <= at,
        decreases args.kids@.len() - at,
    {
        proof {
            let next = args.kids@.take(at + 1);
            assert(next.drop_last() =~= args.kids@.take(at as int));
            assert(next.last() == args.kids@[at as int]);
        }
        if matches!(args.kids[at].kind, Kind::ArgType) && args.kids[at].get(0).is_some() {
            count += 1;
        }
        at += 1;
    }
    proof {
        assert(args.kids@.take(at as int) =~= args.kids@);
    }
    count
}

/// One of the types among generic arguments.
pub fn type_at(path: &Node, index: usize) -> (r: Option<&Node>)
    ensures
        r is Some <==> index < path_types(*path).len(),
        r matches Some(ty) ==> path_types(*path)[index as int] == *ty && decreases_to!(*path => *ty),
{
    let Some(args) = arguments_of(path) else {
        return None;
    };
    let mut count: usize = 0;
    let mut at: usize = 0;
    proof {
        assert(types_among(args.kids@.take(0)) =~= Seq::<Node>::empty());
    }
    while at < args.kids.len()
        invariant
            at <= args.kids@.len(),
            last_arguments(*path) == Some(*args),
            decreases_to!(*path => *args),
            count == types_among(args.kids@.take(at as int)).len(),
            count <= index,
        decreases args.kids@.len() - at,
    {
        let ghost next = args.kids@.take(at + 1);
        proof {
            assert(next.drop_last() =~= args.kids@.take(at as int));
            assert(next.last() == args.kids@[at as int]);
        }
        if matches!(args.kids[at].kind, Kind::ArgType) {
            if let Some(ty) = args.kids[at].get(0) {
                if count == index {
                    proof {
                        lemma_types_grow(args.kids@, at + 1);
                        assert(types_among(args.kids@).take(types_among(next).len() as int)[index as int] == *ty);
                        assert(decreases_to!(*args => args.kids@));
                        assert(decreases_to!(args.kids@ => args.kids@[at as int]));
                    }
                    return Some(ty);
                }
                count += 1;
            }
        }
        at += 1;
    }
    proof {
        assert(args.kids@.take(at as int) =~= args.kids@);
    }
    None
}

} // verus!
