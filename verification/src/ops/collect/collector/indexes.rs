//! What the collector reads off a whole file before it can judge an expression.
use super::gate::{is_left_alone, leaves_alone};
use super::predicates;
use super::predicates::{digits, proves_number};
use super::resolve;
use super::resolve::is_numeric_type_node;
use super::types::imports_in;
use crate::cfg::{Build, CfgSet};
use crate::ops::collect::defaults;
use crate::ops::registry::Selection;
use crate::syntax::query;
use crate::syntax::query::path_ident;
use crate::syntax::{Kind, Node, Op};
use crate::table::{Names, Table};
use crate::text;
use crate::text::{begins, strings};
use vstd::prelude::*;

verus! {

/// What a file says that a single expression does not.
///
/// Each of these is used above the item that establishes it at least as often as below, so they are
/// read before the traversal rather than during it.
#[verifier::ext_equal]
pub ghost struct Evidence {
    /// Whether each field name declared anywhere in the file holds a number.
    pub fields: Map<Seq<char>, bool>,
    /// Whether each constant and static declared anywhere in the file holds a number.
    pub constants: Map<Seq<char>, bool>,
    /// The names the file uses in a way only a number can be used.
    pub names: Set<Seq<char>>,
    /// The field names the file uses in a way only a number can be used.
    pub used_fields: Set<Seq<char>>,
    /// The path each imported name was brought in from, or nothing where that is disputed.
    pub imports: Map<Seq<char>, Option<Seq<Seq<char>>>>,
}

/// Which of it is asked for.
pub ghost struct Wanted {
    /// What says whether an expression is a number.
    pub numeric: bool,
    /// Where names were imported from.
    pub imports: bool,
}

/// What a selection asks for.
///
/// Only the perturbation family asks whether an expression is a number. Where names come from says
/// whether a type has a `Default`, which the `fn_value` family asks, and whether an `Err` can be
/// built at all, which `result.ok_to_err` asks.
pub open spec fn wanted_by(selection: Set<Seq<char>>) -> Wanted {
    Wanted {
        numeric: selection.contains("expr.increment"@) || selection.contains("expr.decrement"@),
        imports: (exists|name: Seq<char>| #[trigger] selection.contains(name) && begins(name, "fn_value"@ + "."@)) || selection.contains(
            "result.ok_to_err"@,
        ),
    }
}

/// What is known once one more declaration of a name is seen: two that disagree are no number.
pub open spec fn declaring(known: Map<Seq<char>, bool>, name: Seq<char>, numeric: bool) -> Map<Seq<char>, bool> {
    known.insert(name, numeric && (known.contains_key(name) ==> known[name]))
}

/// What is known once one more import of a name is seen: two that disagree say nothing.
pub open spec fn importing(
    known: Map<Seq<char>, Option<Seq<Seq<char>>>>,
    name: Seq<char>,
    prefix: Seq<Seq<char>>,
) -> Map<Seq<char>, Option<Seq<Seq<char>>>> {
    if known.contains_key(name) && known[name] != Some(prefix) {
        known.insert(name, None)
    } else {
        known.insert(name, Some(prefix))
    }
}

/// What is known once every name of a `use` tree is seen.
pub open spec fn using(known: Map<Seq<char>, Option<Seq<Seq<char>>>>, prefix: Seq<Seq<char>>, tree: Node) -> Map<
    Seq<char>,
    Option<Seq<Seq<char>>>,
>
    decreases tree,
{
    match tree.kind {
        Kind::UsePath => if tree.kids@.len() == 2 {
            using(known, prefix.push(tree.word(0)), tree.kids@[1])
        } else {
            known
        },
        Kind::UseName => if tree.word(0) == "self"@ {
            if prefix.len() > 0 {
                importing(known, prefix.last(), prefix.drop_last())
            } else {
                known
            }
        } else {
            importing(known, tree.word(0), prefix)
        },
        Kind::UseRename => importing(known, tree.word(1), prefix),
        Kind::UseGroup => using_all(known, prefix, tree.kids@),
        _ => known,
    }
}

/// What is known once every name of several `use` trees is seen.
pub open spec fn using_all(known: Map<Seq<char>, Option<Seq<Seq<char>>>>, prefix: Seq<Seq<char>>, trees: Seq<Node>) -> Map<
    Seq<char>,
    Option<Seq<Seq<char>>>,
>
    decreases trees,
{
    if trees.len() == 0 {
        known
    } else {
        using(using_all(known, prefix, trees.drop_last()), prefix, trees.last())
    }
}

/// What is known once the fields of a struct are seen. Fields that are left alone say nothing.
pub open spec fn declaring_fields(known: Map<Seq<char>, bool>, fields: Seq<Node>, cfg: Build) -> Map<Seq<char>, bool>
    decreases fields.len(),
{
    if fields.len() == 0 {
        known
    } else {
        let before = declaring_fields(known, fields.drop_last(), cfg);
        let field = fields.last();
        if cfg.skips(field.attrs@) || field.kids@.len() != 3 {
            before
        } else {
            match field.first_of(0) {
                Some(name) => declaring(before, name.text@, is_numeric_type_node(field.kids@[1])),
                None => before,
            }
        }
    }
}

/// Whether an operator applies to nothing in wide use but numbers.
pub open spec fn is_arithmetic(op: Op) -> bool {
    match op {
        Op::Sub | Op::Mul | Op::Div | Op::Rem | Op::SubAssign | Op::MulAssign | Op::DivAssign | Op::RemAssign => true,
        _ => false,
    }
}

/// Whether an operator applies to numbers where an integer literal is one of its operands.
pub open spec fn is_ambiguous(op: Op) -> bool {
    match op {
        Op::Add | Op::AddAssign | Op::Lt | Op::Gt | Op::Le | Op::Ge => true,
        _ => false,
    }
}

impl Evidence {
    /// Nothing is known.
    pub open spec fn nothing() -> Evidence {
        Evidence { fields: Map::empty(), constants: Map::empty(), names: Set::empty(), used_fields: Set::empty(), imports: Map::empty() }
    }

    /// An expression is used as a number: the name or the field that it is holds one.
    pub open spec fn used(self, e: Node) -> Evidence
        decreases e,
    {
        match e.kind {
            Kind::PathExpr => if e.first_of(0) is None && e.kids@.len() == 2 && path_ident(e.kids@[1]) is Some {
                Evidence { names: self.names.insert(path_ident(e.kids@[1])->0), ..self }
            } else {
                self
            },
            Kind::FieldAccess => if e.kids@.len() == 2 && e.kids@[1].kind == Kind::MemberNamed {
                Evidence { used_fields: self.used_fields.insert(e.kids@[1].word(0)), ..self }
            } else {
                self
            },
            Kind::Paren | Kind::Reference => if e.kids@.len() > 0 {
                self.used(e.kids@[0])
            } else {
                self
            },
            _ => self,
        }
    }

    /// A constant is declared.
    pub open spec fn constant(self, name: Seq<char>, ty: Option<Node>) -> Evidence {
        match ty {
            Some(ty) => Evidence { constants: declaring(self.constants, name, is_numeric_type_node(ty)), ..self },
            None => self,
        }
    }

    /// Two operands meet.
    pub open spec fn operands(self, left: Node, op: Op, right: Node) -> Evidence {
        if is_arithmetic(op) {
            self.used(left).used(right)
        } else if is_ambiguous(op) {
            let first = if digits(right) is Some {
                self.used(left)
            } else {
                self
            };
            if digits(left) is Some {
                first.used(right)
            } else {
                first
            }
        } else {
            self
        }
    }

    /// What is known once a node is looked at, but nothing beneath it.
    pub open spec fn noting(self, node: Node, wanted: Wanted, cfg: Build) -> Evidence {
        match node.kind {
            Kind::ItemUse => if wanted.imports && node.kid(0) is Some {
                Evidence { imports: using(self.imports, Seq::empty(), node.kid(0)->0), ..self }
            } else {
                self
            },
            _ => if wanted.numeric {
                self.counting(node, cfg)
            } else {
                self
            },
        }
    }

    /// What is known of numbers once a node is looked at, but nothing beneath it.
    pub open spec fn counting(self, node: Node, cfg: Build) -> Evidence {
        match node.kind {
            Kind::ItemStruct => Evidence { fields: declaring_fields(self.fields, node.all_of(2), cfg), ..self },
            Kind::ItemConst | Kind::ImplConst | Kind::TraitConst => self.constant(node.word(0), node.kid(2)),
            Kind::ItemStatic => self.constant(node.word(0), node.kid(1)),
            Kind::Binary => if node.kids@.len() == 3 {
                match node.kids@[1].kind {
                    Kind::Operator(op) => self.operands(node.kids@[0], op, node.kids@[2]),
                    _ => self,
                }
            } else {
                self
            },
            Kind::Index => match node.kid(1) {
                Some(index) => self.used(index),
                None => self,
            },
            Kind::MethodCall => if node.kids@.len() > 0 && proves_number(node.word(1)) {
                self.used(node.kids@[0])
            } else {
                self
            },
            Kind::ForLoop => if node.kids@.len() == 4 && (node.kids@[2].kind == (Kind::Range { closed: false }) || node.kids@[2].kind == (
            Kind::Range { closed: true })) && node.kids@[1].kind == Kind::PatIdent {
                Evidence { names: self.names.insert(node.kids@[1].word(0)), ..self }
            } else {
                self
            },
            _ => self,
        }
    }

    /// What is known once a node and everything beneath it is looked at.
    pub open spec fn reading(self, node: Node, wanted: Wanted, cfg: Build) -> Evidence
        decreases node,
    {
        proof {
            node.lemma_inside();
        }
        if is_left_alone(node, cfg) {
            self
        } else {
            self.noting(node, wanted, cfg).reading_all(node.attrs@, wanted, cfg).reading_all(node.inside(), wanted, cfg)
        }
    }

    /// What is known once several nodes and everything beneath them is looked at.
    pub open spec fn reading_all(self, nodes: Seq<Node>, wanted: Wanted, cfg: Build) -> Evidence
        decreases nodes,
    {
        if nodes.len() == 0 {
            self
        } else {
            self.reading_all(nodes.drop_last(), wanted, cfg).reading(nodes.last(), wanted, cfg)
        }
    }
}

/// What a file says under a selection and a configuration.
pub open spec fn evidence_of(file: Node, selection: Set<Seq<char>>, cfg: Build) -> Evidence {
    Evidence::nothing().reading(file, wanted_by(selection), cfg)
}

/// Where nothing is asked for, nothing is learned.
proof fn lemma_nothing_learned(known: Evidence, node: Node, wanted: Wanted, cfg: Build)
    requires
        !wanted.numeric,
        !wanted.imports,
    ensures
        known.reading(node, wanted, cfg) == known,
    decreases node,
{
    node.lemma_inside();
    lemma_nothing_learned_among(known, node.attrs@, wanted, cfg);
    lemma_nothing_learned_among(known, node.inside(), wanted, cfg);
}

/// The same of several nodes.
proof fn lemma_nothing_learned_among(known: Evidence, nodes: Seq<Node>, wanted: Wanted, cfg: Build)
    requires
        !wanted.numeric,
        !wanted.imports,
    ensures
        known.reading_all(nodes, wanted, cfg) == known,
    decreases nodes,
{
    if nodes.len() > 0 {
        lemma_nothing_learned_among(known, nodes.drop_last(), wanted, cfg);
        lemma_nothing_learned(known, nodes.last(), wanted, cfg);
    }
}

/// The names a file uses in a way only a number can be used.
#[derive(Debug)]
pub struct NumericUses {
    /// Bare identifiers: locals, parameters, loop indices.
    pub names: Names,
    /// Field names, which stand in for the declarations another file holds.
    pub fields: Names,
}

/// The per-file indexes the collector reads before it can judge an expression.
#[derive(Debug)]
pub struct Indexes {
    /// Whether each field name declared anywhere in this file holds a number.
    pub fields: Table<bool>,
    /// The module path each name this file imports was brought in from.
    pub imports: Table<Option<Vec<String>>>,
    /// Names the file uses somewhere in a way only a number can be used.
    pub numeric_uses: NumericUses,
    /// Whether each constant and static declared anywhere in this file holds a number.
    pub constants: Table<bool>,
}

impl View for Indexes {
    type V = Evidence;

    open spec fn view(&self) -> Evidence {
        Evidence {
            fields: self.fields@,
            constants: self.constants@,
            names: self.numeric_uses.names@,
            used_fields: self.numeric_uses.fields@,
            imports: imports_in(self.imports@),
        }
    }
}

impl Indexes {
    /// Nothing is known.
    pub fn new() -> (r: Indexes)
        ensures
            r@ == Evidence::nothing(),
    {
        let r = Indexes {
            fields: Table::new(),
            imports: Table::new(),
            numeric_uses: NumericUses { names: Names::new(), fields: Names::new() },
            constants: Table::new(),
        };
        proof {
            assert(imports_in(r.imports@) =~= Map::<Seq<char>, Option<Seq<Seq<char>>>>::empty());
            assert(r@ =~= Evidence::nothing());
        }
        r
    }
}

/// Records one declaration of a name, demoting a name two declarations disagree about.
fn declare(known: &mut Table<bool>, name: &str, numeric: bool)
    ensures
        final(known)@ == declaring(old(known)@, name@, numeric),
{
    let agreed = match known.get(name) {
        Some(earlier) => *earlier,
        None => true,
    };
    known.insert(name, numeric && agreed);
}

/// Whether two lists of texts are the same.
fn same_strings(left: &Vec<String>, right: &Vec<String>) -> (r: bool)
    ensures
        r == (strings(left@) == strings(right@)),
{
    if left.len() != right.len() {
        proof {
            assert(strings(left@).len() != strings(right@).len());
        }
        return false;
    }
    let mut at: usize = 0;
    while at < left.len()
        invariant
            at <= left@.len(),
            left@.len() == right@.len(),
            forall|i: int| 0 <= i < at ==> #[trigger] strings(left@)[i] == strings(right@)[i],
        decreases left@.len() - at,
    {
        if !text::same(left[at].as_str(), right[at].as_str()) {
            proof {
                assert(strings(left@)[at as int] != strings(right@)[at as int]);
            }
            return false;
        }
        at += 1;
    }
    proof {
        assert(strings(left@) =~= strings(right@));
    }
    true
}

/// Fills whichever indexes were asked for, ignoring scope.
#[derive(Debug)]
pub struct Walk<'cfg> {
    pub indexes: Indexes,
    /// Whether the numeric evidence, of fields, constants and uses, is wanted.
    pub numeric: bool,
    /// Whether the import paths are wanted.
    pub imports: bool,
    /// The configuration predicates that hold for the build this file will be part of.
    pub cfg: &'cfg CfgSet,
}

impl<'cfg> Walk<'cfg> {
    /// What the walk is asked for.
    pub open spec fn wanted(self) -> Wanted {
        Wanted { numeric: self.numeric, imports: self.imports }
    }

    /// Whether two walks differ in nothing but what they have found.
    pub open spec fn is_as(self, other: Walk<'cfg>) -> bool {
        self.numeric == other.numeric && self.imports == other.imports && self.cfg == other.cfg
    }

    /// An empty index set, gated by what a selection asks for.
    pub fn new(selection: &Selection, cfg: &'cfg CfgSet) -> (r: Walk<'cfg>)
        ensures
            r.indexes@ == Evidence::nothing(),
            r.wanted() == wanted_by(selection@),
            r.cfg == cfg,
    {
        Walk {
            indexes: Indexes::new(),
            numeric: selection.contains("expr.increment") || selection.contains("expr.decrement"),
            imports: selection.any_in_family("fn_value") || selection.contains("result.ok_to_err"),
            cfg,
        }
    }

    /// Notes a name, when the expression is the bare identifier or the field that proves it.
    pub fn note(&mut self, e: &Node)
        ensures
            final(self).indexes@ == old(self).indexes@.used(*e),
            final(self).is_as(*old(self)),
        decreases e,
    {
        match e.kind {
            Kind::PathExpr => {
                if e.get_first(0).is_none() && e.kids.len() == 2 {
                    if let Some(name) = query::ident_of(&e.kids[1]) {
                        self.indexes.numeric_uses.names.insert(name);
                    }
                }
            },
            Kind::FieldAccess => {
                if e.kids.len() == 2 && matches!(e.kids[1].kind, Kind::MemberNamed) {
                    self.indexes.numeric_uses.fields.insert(e.kids[1].get_word(0));
                }
            },
            Kind::Paren | Kind::Reference => {
                if e.kids.len() > 0 {
                    self.note(&e.kids[0]);
                }
            },
            _ => {},
        }
    }

    /// Records one constant's declaration, demoting a name two declarations disagree about.
    pub fn declared(&mut self, name: &str, ty: &Node)
        ensures
            final(self).indexes@ == if old(self).numeric {
                old(self).indexes@.constant(name@, Some(*ty))
            } else {
                old(self).indexes@
            },
            final(self).is_as(*old(self)),
    {
        if self.numeric {
            declare(&mut self.indexes.constants, name, resolve::is_numeric_binding(ty));
        }
    }

    /// Records every name one `use` tree brings into scope, and where each came from.
    pub fn descend(&mut self, prefix: &mut Vec<String>, tree: &Node)
        ensures
            final(self).indexes@ == (Evidence {
                imports: using(old(self).indexes@.imports, strings(old(prefix)@), *tree),
                ..old(self).indexes@
            }),
            final(self).is_as(*old(self)),
            strings(final(prefix)@) == strings(old(prefix)@),
        decreases tree,
    {
        match tree.kind {
            Kind::UsePath => {
                if tree.kids.len() == 2 {
                    let ghost before = strings(prefix@);
                    prefix.push(text::owned(tree.get_word(0)));
                    proof {
                        assert(strings(prefix@) =~= before.push(tree.word(0)));
                    }
                    self.descend(prefix, &tree.kids[1]);
                    let ghost longer = strings(prefix@);
                    let _ = prefix.pop();
                    proof {
                        assert(strings(prefix@) =~= longer.drop_last());
                        assert(longer.drop_last() =~= before);
                    }
                }
            },
            Kind::UseName => {
                if text::same(tree.get_word(0), "self") {
                    let size: usize = prefix.len();
                    if size > 0 {
                        let mut parent: Vec<String> = Vec::new();
                        proof {
                            assert(strings(parent@) =~= Seq::<Seq<char>>::empty());
                        }
                        defaults::copied(prefix, 0, &mut parent);
                        let ghost whole = strings(parent@);
                        let _ = parent.pop();
                        proof {
                            assert(whole =~= strings(prefix@));
                            assert(strings(parent@) =~= whole.drop_last());
                            assert(strings(prefix@).last() == prefix@[size - 1]@);
                        }
                        self.imported(prefix[size - 1].as_str(), &parent);
                    }
                } else {
                    self.imported(tree.get_word(0), prefix);
                }
            },
            Kind::UseRename => {
                self.imported(tree.get_word(1), prefix);
            },
            Kind::UseGroup => {
                let mut at: usize = 0;
                let ghost start = *self;
                let ghost names = strings(prefix@);
                proof {
                    assert(tree.kids@.take(0) =~= Seq::<Node>::empty());
                }
                while at < tree.kids.len()
                    invariant
                        at <= tree.kids@.len(),
                        strings(prefix@) == names,
                        self.is_as(start),
                        self.indexes@ == (Evidence {
                            imports: using_all(start.indexes@.imports, names, tree.kids@.take(at as int)),
                            ..start.indexes@
                        }),
                    decreases tree.kids@.len() - at,
                {
                    proof {
                        assert(tree.kids@.take(at + 1).drop_last() =~= tree.kids@.take(at as int));
                    }
                    self.descend(prefix, &tree.kids[at]);
                    at += 1;
                }
                proof {
                    assert(tree.kids@.take(at as int) =~= tree.kids@);
                }
            },
            _ => {},
        }
    }

    /// Records where one imported name came from, demoting a name two `use` items disagree about.
    ///
    /// The index is keyed by the bare name and spans the whole file, but a file may hold several
    /// modules. Demoting leaves a disputed name exactly as unknown as one that was never imported.
    /// Importing the same path twice is not a disagreement.
    fn imported(&mut self, name: &str, prefix: &Vec<String>)
        ensures
            final(self).indexes@ == (Evidence {
                imports: importing(old(self).indexes@.imports, name@, strings(prefix@)),
                ..old(self).indexes@
            }),
            final(self).is_as(*old(self)),
    {
        let ghost before = imports_in(self.indexes.imports@);
        let disputed = match self.indexes.imports.get(name) {
            Some(known) => match known {
                Some(known) => !same_strings(known, prefix),
                None => true,
            },
            None => false,
        };
        if disputed {
            self.indexes.imports.insert(name, None);
            proof {
                assert(imports_in(self.indexes.imports@) =~= before.insert(name@, None));
            }
        } else {
            let mut path: Vec<String> = Vec::new();
            proof {
                assert(strings(path@) =~= Seq::<Seq<char>>::empty());
            }
            defaults::copied(prefix, 0, &mut path);
            proof {
                assert(strings(path@) =~= strings(prefix@));
            }
            self.indexes.imports.insert(name, Some(path));
            proof {
                assert(imports_in(self.indexes.imports@) =~= before.insert(name@, Some(strings(prefix@))));
            }
        }
    }

    /// Records the fields of a struct.
    ///
    /// Two structs disagreeing about a name means neither answer can be trusted, so the name is
    /// demoted rather than won by whichever was seen last.
    fn fields(&mut self, node: &Node)
        ensures
            final(self).indexes@ == (Evidence {
                fields: declaring_fields(old(self).indexes@.fields, node.all_of(2), old(self).cfg@),
                ..old(self).indexes@
            }),
            final(self).is_as(*old(self)),
    {
        let ghost start = *self;
        let ghost all = node.all_of(2);
        let count = node.count_of(2);
        let mut at: usize = 0;
        proof {
            assert(all.take(0) =~= Seq::<Node>::empty());
        }
        while at < count
            invariant
                at <= count,
                count == all.len(),
                all == node.all_of(2),
                self.is_as(start),
                self.indexes@ == (Evidence {
                    fields: declaring_fields(start.indexes@.fields, all.take(at as int), start.cfg@),
                    ..start.indexes@
                }),
            decreases count - at,
        {
            let field = node.get_in(2, at);
            proof {
                assert(all.take(at + 1).drop_last() =~= all.take(at as int));
            }
            if !self.cfg.skip_gate(&field.attrs) && field.kids.len() == 3 {
                if let Some(name) = field.get_first(0) {
                    declare(&mut self.indexes.fields, name.text.as_str(), resolve::is_numeric_binding(&field.kids[1]));
                }
            }
            at += 1;
        }
        proof {
            assert(all.take(at as int) =~= all);
        }
    }

    /// Records what the operands of a binary expression say of each other.
    fn operands(&mut self, left: &Node, op: Op, right: &Node)
        ensures
            final(self).indexes@ == old(self).indexes@.operands(*left, op, *right),
            final(self).is_as(*old(self)),
    {
        match op {
            Op::Sub | Op::Mul | Op::Div | Op::Rem | Op::SubAssign | Op::MulAssign | Op::DivAssign | Op::RemAssign => {
                self.note(left);
                self.note(right);
            },
            Op::Add | Op::AddAssign | Op::Lt | Op::Gt | Op::Le | Op::Ge => {
                if predicates::is_int_literal(right) {
                    self.note(left);
                }
                if predicates::is_int_literal(left) {
                    self.note(right);
                }
            },
            _ => {},
        }
    }

    /// Records what a node says of numbers, but nothing beneath it.
    fn count(&mut self, node: &Node)
        requires
            old(self).numeric,
        ensures
            final(self).indexes@ == old(self).indexes@.counting(*node, old(self).cfg@),
            final(self).is_as(*old(self)),
    {
        match node.kind {
            Kind::ItemStruct => {
                self.fields(node);
            },
            Kind::ItemConst | Kind::ImplConst | Kind::TraitConst => {
                if let Some(ty) = node.get(2) {
                    self.declared(node.get_word(0), ty);
                }
            },
            Kind::ItemStatic => {
                if let Some(ty) = node.get(1) {
                    self.declared(node.get_word(0), ty);
                }
            },
            Kind::Binary => {
                if node.kids.len() == 3 {
                    if let Kind::Operator(op) = node.kids[1].kind {
                        self.operands(&node.kids[0], op, &node.kids[2]);
                    }
                }
            },
            Kind::Index => {
                if let Some(index) = node.get(1) {
                    self.note(index);
                }
            },
            Kind::MethodCall => {
                if node.kids.len() > 0 && predicates::is_numeric_receiver(node.get_word(1)) {
                    self.note(&node.kids[0]);
                }
            },
            Kind::ForLoop => {
                if node.kids.len() == 4 && matches!(node.kids[2].kind, Kind::Range { .. }) && matches!(node.kids[1].kind, Kind::PatIdent) {
                    self.indexes.numeric_uses.names.insert(node.kids[1].get_word(0));
                }
            },
            _ => {},
        }
    }

    /// Records what a node says, but nothing beneath it.
    pub fn pass(&mut self, node: &Node)
        ensures
            final(self).indexes@ == old(self).indexes@.noting(*node, old(self).wanted(), old(self).cfg@),
            final(self).is_as(*old(self)),
    {
        if matches!(node.kind, Kind::ItemUse) {
            if self.imports {
                if let Some(tree) = node.get(0) {
                    let mut prefix: Vec<String> = Vec::new();
                    proof {
                        assert(strings(prefix@) =~= Seq::<Seq<char>>::empty());
                    }
                    self.descend(&mut prefix, tree);
                }
            }
        } else if self.numeric {
            self.count(node);
        }
    }

    /// Records what a node and everything beneath it says.
    fn read(&mut self, node: &Node)
        ensures
            final(self).indexes@ == old(self).indexes@.reading(*node, old(self).wanted(), old(self).cfg@),
            final(self).is_as(*old(self)),
        decreases node, 1nat,
    {
        proof {
            node.lemma_inside();
            assert(node.attrs@.take(node.attrs@.len() as int) =~= node.attrs@);
            assert(node.kids@.take(node.inside().len() as int) =~= node.inside());
        }
        if leaves_alone(node, self.cfg) {
            return ;
        }
        self.pass(node);
        self.read_all(&node.attrs, node.attrs.len());
        self.read_all(&node.kids, node.count_inside());
    }

    /// Records what the first of several nodes and everything beneath them say.
    fn read_all(&mut self, nodes: &Vec<Node>, count: usize)
        requires
            count <= nodes@.len(),
        ensures
            final(self).indexes@ == old(self).indexes@.reading_all(nodes@.take(count as int), old(self).wanted(), old(self).cfg@),
            final(self).is_as(*old(self)),
        decreases nodes@, 0nat,
    {
        let ghost start = *self;
        let mut at: usize = 0;
        proof {
            assert(nodes@.take(0) =~= Seq::<Node>::empty());
        }
        while at < count
            invariant
                at <= count <= nodes@.len(),
                self.is_as(start),
                self.indexes@ == start.indexes@.reading_all(nodes@.take(at as int), start.wanted(), start.cfg@),
            decreases count - at,
        {
            proof {
                assert(nodes@.take(at + 1).drop_last() =~= nodes@.take(at as int));
                assert(decreases_to!(nodes@ => nodes@[at as int]));
            }
            self.read(&nodes[at]);
            at += 1;
        }
    }
}

/// Builds the indexes a selection actually consults under a build's active configuration, and skips
/// the walk entirely when the selection consults none of them.
pub fn indexes_in(file: &Node, selection: &Selection, cfg: &CfgSet) -> (r: Indexes)
    ensures
        r@ == evidence_of(*file, selection@, cfg@),
{
    let mut walk = Walk::new(selection, cfg);
    if !walk.numeric && !walk.imports {
        proof {
            lemma_nothing_learned(Evidence::nothing(), *file, wanted_by(selection@), cfg@);
        }
        return walk.indexes;
    }
    walk.read(file);
    walk.indexes
}

} // verus!
