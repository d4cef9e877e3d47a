//! The stated-value audit and the indexes of a file, in one walk over its syntax tree.
//!
//! Both look at the same code: what a configuration leaves alone is neither audited nor learned
//! from, by the same rule that decides where a candidate may be offered. A malformed stated value
//! cannot fail a run that never compiles the code it sits in.
use super::gate::leaves_alone;
use super::indexes::{evidence_of, Indexes, Walk};
use crate::cfg::{Build, CfgSet};
use crate::error::Fault;
use crate::ops::collect::stated;
use crate::ops::collect::stated::{reports, Audit, Audited};
use crate::ops::registry::Selection;
use crate::parse::SourceFile;
use crate::syntax::Node;
use vstd::prelude::*;

verus! {

/// The combined walk: an audit and an index walk, driven by a single descent.
struct PhaseOne<'cfg> {
    audit: Audit,
    walk: Walk<'cfg>,
}

impl<'cfg> PhaseOne<'cfg> {
    /// Records what a node and everything beneath it says.
    fn read(&mut self, node: &Node)
        ensures
            final(self).audit@ == old(self).audit@.reading(*node, Some(old(self).walk.cfg@)),
            final(self).walk.indexes@ == old(self).walk.indexes@.reading(*node, old(self).walk.wanted(), old(self).walk.cfg@),
            final(self).walk.is_as(old(self).walk),
        decreases node, 1nat,
    {
        proof {
            node.lemma_inside();
            assert(node.attrs@.take(node.attrs@.len() as int) =~= node.attrs@);
            assert(node.kids@.take(node.inside().len() as int) =~= node.inside());
        }
        if leaves_alone(node, self.walk.cfg) {
            return ;
        }
        self.audit.note(node);
        self.walk.pass(node);
        self.read_all(&node.attrs, node.attrs.len());
        self.read_all(&node.kids, node.count_inside());
    }

    /// Records what the first of several nodes and everything beneath them say.
    fn read_all(&mut self, nodes: &Vec<Node>, count: usize)
        requires
            count <= nodes@.len(),
        ensures
            final(self).audit@ == old(self).audit@.reading_all(nodes@.take(count as int), Some(old(self).walk.cfg@)),
            final(self).walk.indexes@ == old(self).walk.indexes@.reading_all(
                nodes@.take(count as int),
                old(self).walk.wanted(),
                old(self).walk.cfg@,
            ),
            final(self).walk.is_as(old(self).walk),
        decreases nodes@, 0nat,
    {
        let ghost start = *self;
        let mut at: usize = 0;
        proof {
            assert(nodes@.take(0) =~= Seq::<Node>::empty());
        }
        while at < count
            invariant
                at <= count <= nodes@.len(),
                self.walk.is_as(start.walk),
                self.audit@ == start.audit@.reading_all(nodes@.take(at as int), Some(start.walk.cfg@)),
                self.walk.indexes@ == start.walk.indexes@.reading_all(nodes@.take(at as int), start.walk.wanted(), start.walk.cfg@),
            decreases count - at,
        {
            proof {
                assert(nodes@.take(at + 1).drop_last() =~= nodes@.take(at as int));
                assert(decreases_to!(nodes@ => nodes@[at as int]));
            }
            self.read(&nodes[at]);
            at += 1;
        }
    }
}

/// Whether the stated values that a configuration leaves in a file are all in order.
pub open spec fn is_sound(file: Node, cfg: Build) -> bool {
    stated::earliest(Audited::nothing().reading(file, Some(cfg)).complaints()) is None
}

/// Runs the stated-value audit and the indexes in the same walk over a file, then reports the
/// audit's fault.
///
/// The indexes are returned only when there is no fault to report: the audit has to fail the whole
/// file before the indexes are of any use.
pub fn run(file: &SourceFile, selection: &Selection, cfg: &CfgSet) -> (r: Result<Indexes, Fault>)
    requires
        file.is_navigable(),
    ensures
        r is Ok <==> is_sound(file.ast, cfg@),
        r matches Ok(indexes) ==> indexes@ == evidence_of(file.ast, selection@, cfg@),
        r matches Err(error) ==> reports(Err(error), *file, Audited::nothing().reading(file.ast, Some(cfg@))),
{
    let mut combined = PhaseOne { audit: Audit::new(), walk: Walk::new(selection, cfg) };
    combined.read(&file.ast);
    let PhaseOne { audit, walk } = combined;
    match stated::fault(file, audit) {
        Ok(()) => Ok(walk.indexes),
        Err(error) => Err(error),
    }
}

} // verus!
