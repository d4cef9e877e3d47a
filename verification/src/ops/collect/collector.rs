//! The traversal that finds the candidates of a file.
pub mod expressions;
pub mod gate;
pub mod indexes;
pub mod naming;
pub mod noop;
pub mod phase_one;
pub mod predicates;
pub mod resolve;
pub mod scope;
pub mod sites;
pub mod splices;
pub mod tables;
pub mod types;
pub mod values;
pub mod visit;

pub use naming::compact_path;

use crate::cfg::{Build, CfgSet};
use crate::ops::collect::candidate::{distinct, keep_distinct, offers, Candidate, Offer};
use crate::ops::collect::defaults::{spellings_of, DefaultPaths, Defaults, Known};
use crate::ops::registry::Selection;
use crate::parse::SourceFile;
use crate::syntax::tree::{Kind, Node};
use crate::text::strings;
use gate::is_left_alone;
use indexes::{evidence_of, indexes_in, Evidence, Indexes};
use scope::{entries, Frame, Lens, Scope, Setting};
use splices::{elements_offers, rename_offers, struct_offers};
use visit::bound;
use vstd::prelude::*;

verus! {

/// What holds for a whole file, given what is known of its names.
pub open spec fn setting_with(
    file: SourceFile,
    selection: Set<Seq<char>>,
    errors: Seq<Seq<char>>,
    cfg: Build,
    known: Known,
    evidence: Evidence,
) -> Setting {
    Setting {
        text: file.text@,
        selection,
        errors,
        cfg,
        known,
        spellings: spellings_of(file.ast.all_of(0), Build::unknown()),
        evidence,
    }
}

/// What holds for a whole file.
pub open spec fn setting_of(
    file: SourceFile,
    selection: Set<Seq<char>>,
    errors: Seq<Seq<char>>,
    cfg: Build,
    known: Known,
) -> Setting {
    setting_with(file, selection, errors, cfg, known, evidence_of(file.ast, selection, cfg))
}

/// The traversal state.
pub struct Collector<'a> {
    pub lens: Lens<'a>,
    pub frame: Frame<'a>,
    pub candidates: Vec<Candidate>,
}

impl<'a> Collector<'a> {
    /// Creates a collector rooted at the file's top-level scope.
    pub fn new(
        file: &'a SourceFile,
        selection: &'a Selection,
        errors: &'a Vec<String>,
        cfg: &'a CfgSet,
        defaults: &'a Defaults,
    ) -> (r: Self)
        ensures
            r.lens@ == setting_of(*file, selection@, strings(errors@), cfg@, defaults@),
            r.frame@ == Scope::outermost(),
            offers(r.candidates@) == Seq::<Offer>::empty(),
    {
        Collector::with_indexes(file, selection, errors, cfg, defaults, indexes_in(&file.ast, selection, cfg))
    }

    /// Creates a collector from indexes a caller already built.
    pub fn with_indexes(
        file: &'a SourceFile,
        selection: &'a Selection,
        errors: &'a Vec<String>,
        cfg: &'a CfgSet,
        defaults: &'a Defaults,
        indexes: Indexes,
    ) -> (r: Self)
        ensures
            r.lens@ == setting_with(*file, selection@, strings(errors@), cfg@, defaults@, indexes@),
            r.frame@ == Scope::outermost(),
            offers(r.candidates@) == Seq::<Offer>::empty(),
    {
        let paths = DefaultPaths::of(&file.ast);
        let lens = Lens { text: file.text.as_str(), selection, errors, cfg, defaults, paths, indexes };
        let candidates: Vec<Candidate> = Vec::new();
        proof {
            assert(offers(candidates@) =~= Seq::<Offer>::empty());
        }
        Collector { lens, frame: Frame::outermost(), candidates }
    }

    /// Consumes the collector, returning what it found, each edit once.
    pub fn finish(self) -> (r: Vec<Candidate>)
        ensures
            offers(r@) == distinct(offers(self.candidates@)),
    {
        keep_distinct(self.candidates)
    }

    /// Whether each name that is bound where the collector stands holds a number.
    pub fn bindings(&self) -> (r: &Vec<(&'a str, bool)>)
        ensures
            entries(r@) == self.frame@.bindings,
    {
        &self.frame.bindings
    }

    /// Visits a file.
    pub fn visit_file(&mut self, file: &'a Node)
        ensures
            final(self).lens == old(self).lens,
            final(self).frame@ == old(self).frame@,
            offers(final(self).candidates@) == offers(old(self).candidates@) + visit::visit(
                old(self).lens@,
                old(self).frame@,
                *file,
            ),
    {
        self.lens.visit(&mut self.frame, &mut self.candidates, file);
    }

    /// Records the type of a `let`, so that later uses of the name can be judged, and visits what is
    /// inside it.
    ///
    /// A binding that is not in the build says nothing about the types later statements see, and
    /// recording it would shadow the one that is.
    pub fn visit_local(&mut self, local: &'a Node)
        requires
            local.kind == Kind::Local,
        ensures
            final(self).lens == old(self).lens,
            final(self).frame@ == if is_left_alone(*local, old(self).lens@.cfg) {
                old(self).frame@
            } else {
                bound(old(self).lens@, old(self).frame@, *local)
            },
            offers(final(self).candidates@) == offers(old(self).candidates@) + visit::visit(
                old(self).lens@,
                old(self).frame@,
                *local,
            ),
    {
        self.lens.visit(&mut self.frame, &mut self.candidates, local);
        if !predicates::skips_stmt(self.lens.cfg, local) {
            self.lens.record_binding(&mut self.frame, local);
        }
    }

    /// Offers a mutant for each element of a list in a macro, with that element removed.
    pub fn omit_elements(&mut self, node: &Node, elements: &Vec<Node>)
        ensures
            final(self).lens == old(self).lens,
            final(self).frame == old(self).frame,
            offers(final(self).candidates@) == offers(old(self).candidates@) + elements_offers(
                old(self).lens@,
                old(self).frame@,
                *node,
                elements@,
                elements@.len() as int,
            ),
    {
        self.lens.omit_elements(&self.frame, &mut self.candidates, node, elements);
    }

    /// Offers the field-omission mutants for one struct literal.
    pub fn struct_fields(&mut self, node: &Node)
        ensures
            final(self).lens == old(self).lens,
            final(self).frame == old(self).frame,
            offers(final(self).candidates@) == offers(old(self).candidates@) + struct_offers(
                old(self).lens@,
                old(self).frame@,
                *node,
            ),
    {
        self.lens.struct_fields(&self.frame, &mut self.candidates, node);
    }

    /// Offers the curated same-shape renames of a standard-library method.
    pub fn rename_method(&mut self, node: &Node, method: &str)
        ensures
            final(self).lens == old(self).lens,
            final(self).frame == old(self).frame,
            offers(final(self).candidates@) == offers(old(self).candidates@) + rename_offers(
                old(self).lens@,
                old(self).frame@,
                *node,
                method@,
            ),
    {
        self.lens.rename_method(&self.frame, &mut self.candidates, node, method);
    }
}

} // verus!
