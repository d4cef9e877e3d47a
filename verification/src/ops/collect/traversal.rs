//! Driving the collector over a syntax tree to produce the candidates a file admits.
use super::candidate::{distinct, offers, put_in_order, sorted, Candidate, Offer};
use super::collector::phase_one;
use super::collector::phase_one::is_sound;
use super::collector::scope::{Scope, Setting};
use super::collector::visit::visit;
use super::collector::{setting_of, Collector};
use super::defaults::{Defaults, Known};
use super::stated::{reports, Audited};
use crate::cfg::{Build, CfgSet};
use crate::error::Fault;
use crate::ops::registry::Selection;
use crate::parse::SourceFile;
use crate::syntax::tree::Node;
use vstd::prelude::*;

verus! {

/// What a file admits: everything it offers, each edit once, in the order of the source.
pub open spec fn admitted(s: Setting, file: Node) -> Seq<Offer> {
    sorted(distinct(visit(s, Scope::outermost(), file)))
}

/// Collects every candidate a file admits under the given selection, with nothing stripped for
/// configuration.
///
/// Equivalent to [`collect_in`] with an unconditional set. Use it where the build's configuration
/// is not known, which is every caller that is examining a fragment of source rather than a real
/// workspace.
///
/// The result is sorted by span start, then by mutator name, so that two runs over the same source
/// produce the same order regardless of how the traversal happened to visit siblings.
pub fn collect(file: &SourceFile, selection: &Selection) -> (r: Vec<Candidate>)
    ensures
        offers(r@) == admitted(
            setting_of(*file, selection@, selection.payloads(), Build::unknown(), Known::nothing()),
            file.ast,
        ),
{
    let cfg = CfgSet::unconditional();
    collect_in(file, selection, &cfg)
}

/// Collects every candidate a file admits, under a selection and a build configuration.
///
/// `cfg` decides which conditionally compiled code is actually in the build. Code behind a
/// predicate that does not hold produces no candidates at all: the compiler strips it, so a guard
/// there would never be compiled and its mutant could never be activated by any test.
pub fn collect_in(file: &SourceFile, selection: &Selection, cfg: &CfgSet) -> (r: Vec<Candidate>)
    ensures
        offers(r@) == admitted(setting_of(*file, selection@, selection.payloads(), cfg@, Known::nothing()), file.ast),
{
    let defaults = Defaults::default();
    collect_with(file, selection, cfg, &defaults)
}

/// Collects every candidate a file admits, told what the rest of the workspace implements.
///
/// The extra argument is what lets a `Default::default()` be withheld for a type the workspace
/// defines and gives no `Default`. An empty index is not a claim that nothing has one; it says
/// nothing was looked at, and every type stays optimistic, which is what [`collect_in`] passes.
pub fn collect_with(file: &SourceFile, selection: &Selection, cfg: &CfgSet, defaults: &Defaults) -> (r: Vec<Candidate>)
    ensures
        offers(r@) == admitted(setting_of(*file, selection@, selection.payloads(), cfg@, defaults@), file.ast),
{
    let collector = Collector::new(file, selection, selection.errors(), cfg, defaults);
    finish(file, collector)
}

/// Reports a file's stated-value errors and collects its candidates, the errors and what the file
/// says of its names being read in one walk of the syntax tree.
///
/// The candidates are exactly those [`collect_with`] produces from the same inputs, and a fault stops
/// collection before it starts. Only the stated values that `cfg` says the measured build compiles
/// are audited: one in configured-out or test-gated code produces no mutant, so it is passed over.
pub fn check_stated_and_collect_with(
    file: &SourceFile,
    selection: &Selection,
    cfg: &CfgSet,
    defaults: &Defaults,
) -> (r: Result<Vec<Candidate>, Fault>)
    requires
        file.is_navigable(),
    ensures
        r is Ok <==> is_sound(file.ast, cfg@),
        r matches Ok(candidates) ==> offers(candidates@) == admitted(
            setting_of(*file, selection@, selection.payloads(), cfg@, defaults@),
            file.ast,
        ),
        r matches Err(error) ==> reports(Err(error), *file, Audited::nothing().reading(file.ast, Some(cfg@))),
{
    match phase_one::run(file, selection, cfg) {
        Ok(indexes) => {
            let collector = Collector::with_indexes(file, selection, selection.errors(), cfg, defaults, indexes);
            Ok(finish(file, collector))
        },
        Err(error) => Err(error),
    }
}

/// Drives a collector's own traversal to completion and returns its candidates in the stable order
/// every caller depends on.
fn finish<'a>(file: &'a SourceFile, collector: Collector<'a>) -> (r: Vec<Candidate>)
    requires
        collector.frame@ == Scope::outermost(),
        offers(collector.candidates@) == Seq::<Offer>::empty(),
    ensures
        offers(r@) == admitted(collector.lens@, file.ast),
{
    let mut collector = collector;
    let ghost s = collector.lens@;
    collector.visit_file(&file.ast);
    proof {
        let all = visit(s, Scope::outermost(), file.ast);
        assert(Seq::<Offer>::empty() + all =~= all);
    }
    put_in_order(collector.finish())
}

} // verus!
