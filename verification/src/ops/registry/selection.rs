//! A resolved set of mutator names.
use crate::error::Fault;
use crate::ops::registry::lookup;
use crate::ops::registry::lookup::{is_unknown, names_asked, resolved, Ask};
use crate::text;
use crate::text::{begins, pieces_from, sorts_before, strings, texts, trim, without_first};
use vstd::prelude::*;

verus! {

/// The mutator that consumes caller-supplied error values.
pub const ERR_WITH: &'static str = "fn_value.err_with";

/// A resolved set of mutator names.
#[derive(Debug, PartialEq, Eq)]
pub struct Selection {
    names: Vec<&'static str>,
    errors: Vec<String>,
}

/// Whether texts stand in their order, none of them twice.
pub open spec fn ascending(names: Seq<Seq<char>>) -> bool {
    forall|i: int, j: int| 0 <= i < j < names.len() ==> sorts_before(#[trigger] names[i], #[trigger] names[j])
}

impl View for Selection {
    type V = Set<Seq<char>>;

    closed spec fn view(&self) -> Set<Seq<char>> {
        texts(self.names@).to_set()
    }
}

// ---- What a selector list does to a set. ----

/// What one selector of a list does to a set of names, or the selector that matches nothing.
pub open spec fn applied_one(names: Set<Seq<char>>, raw: Seq<char>) -> Result<Set<Seq<char>>, Seq<char>> {
    let selector = trim(raw);
    if selector.len() == 0 {
        Ok(names)
    } else {
        match without_first(selector, '!') {
            Some(rest) => match resolved(trim(rest)) {
                Ok(found) => Ok(names.difference(found.to_set())),
                Err(unmatched) => Err(unmatched),
            },
            None => match resolved(selector) {
                Ok(found) => Ok(names.union(found.to_set())),
                Err(unmatched) => Err(unmatched),
            },
        }
    }
}

/// What the first `n` selectors of a list do to a set of names, from left to right: the set they
/// leave, and the first of them that matches nothing, at which the list is left off.
pub open spec fn applied(names: Set<Seq<char>>, list: Seq<Seq<char>>, n: nat) -> (Set<Seq<char>>, Option<Seq<char>>)
    decreases n,
{
    if n == 0 {
        (names, None)
    } else {
        let (before, failed) = applied(names, list, (n - 1) as nat);
        if failed is Some {
            (before, failed)
        } else {
            match applied_one(before, list[n - 1]) {
                Ok(after) => (after, None),
                Err(unmatched) => (before, Some(unmatched)),
            }
        }
    }
}

/// What a comma-separated selector list does to a set of names.
pub open spec fn applied_list(names: Set<Seq<char>>, selectors: Seq<char>) -> (Set<Seq<char>>, Option<Seq<char>>) {
    let list = pieces_from(selectors, ',', 0);
    applied(names, list, list.len())
}

/// Once a selector matches nothing, the list is left off there.
proof fn lemma_left_off(names: Set<Seq<char>>, list: Seq<Seq<char>>, n: nat, m: nat)
    requires
        n <= m,
        applied(names, list, n).1 is Some,
    ensures
        applied(names, list, m) == applied(names, list, n),
    decreases m - n,
{
    if n < m {
        lemma_left_off(names, list, n, (m - 1) as nat);
    }
}

impl Selection {
    #[verifier::type_invariant]
    spec fn wf(&self) -> bool {
        ascending(texts(self.names@))
    }

    /// The caller-supplied `Err(...)` payloads.
    pub closed spec fn payloads(&self) -> Seq<Seq<char>> {
        strings(self.errors@)
    }

    /// An empty set.
    pub fn empty() -> (r: Self)
        ensures
            r@ == Set::<Seq<char>>::empty(),
            r.payloads() == Seq::<Seq<char>>::empty(),
    {
        let names: Vec<&'static str> = Vec::new();
        let errors: Vec<String> = Vec::new();
        proof {
            assert(texts(names@).to_set() =~= Set::<Seq<char>>::empty());
            assert(strings(errors@) =~= Seq::<Seq<char>>::empty());
        }
        Selection { names, errors }
    }

    /// The set enabled when the user names nothing.
    pub fn default_preset() -> (r: Self)
        ensures
            r@ == names_asked(Ask::Default).to_set(),
            r.payloads() == Seq::<Seq<char>>::empty(),
    {
        let mut selection = Self::empty();
        selection.insert_all(&lookup::default_names());
        proof {
            assert(selection@ =~= names_asked(Ask::Default).to_set());
        }
        selection
    }

    /// Every registered mutator.
    pub fn everything() -> (r: Self)
        ensures
            r@ == names_asked(Ask::All).to_set(),
            r.payloads() == Seq::<Seq<char>>::empty(),
    {
        let mut selection = Self::empty();
        selection.insert_all(&lookup::all_names());
        proof {
            assert(selection@ =~= names_asked(Ask::All).to_set());
        }
        selection
    }

    /// Where a name stands among the names, or where it would.
    fn place(&self, name: &str) -> (r: usize)
        ensures
            r <= self.names@.len(),
            forall|i: int| 0 <= i < r ==> sorts_before(#[trigger] texts(self.names@)[i], name@),
            r < self.names@.len() ==> !sorts_before(texts(self.names@)[r as int], name@),
    {
        let mut at: usize = 0;
        while at < self.names.len() && text::is_before(self.names[at], name)
            invariant
                at <= self.names@.len(),
                forall|i: int| 0 <= i < at ==> sorts_before(#[trigger] texts(self.names@)[i], name@),
            decreases self.names@.len() - at,
        {
            at += 1;
        }
        at
    }

    /// Adds one name.
    fn insert(&mut self, name: &'static str)
        ensures
            final(self)@ == old(self)@.insert(name@),
            final(self).payloads() == old(self).payloads(),
    {
        proof {
            use_type_invariant(&*self);
        }
        let at = self.place(name);
        let ghost before = texts(self.names@);
        if at < self.names.len() && text::same(self.names[at], name) {
            proof {
                assert(before[at as int] == name@);
                assert(self@.insert(name@) =~= self@);
            }
            return ;
        }
        let mut names = copied(&self.names);
        names.insert(at, name);
        proof {
            let after = texts(names@);
            assert(after =~= before.insert(at as int, name@));
            assert forall|i: int, j: int| 0 <= i < j < after.len() implies sorts_before(
                #[trigger] after[i],
                #[trigger] after[j],
            ) by {
                if j == at {
                    assert(after[i] == before[i]);
                } else if i == at {
                    assert(after[j] == before[j - 1]);
                    text::lemma_sorts_one_way(before[at as int], name@);
                    if j - 1 > at {
                        text::lemma_sorts_on(name@, before[at as int], before[j - 1]);
                    }
                } else {
                    let a = if i < at {
                        i
                    } else {
                        i - 1
                    };
                    let b = if j < at {
                        j
                    } else {
                        j - 1
                    };
                    assert(after[i] == before[a] && after[j] == before[b]);
                }
            }
            assert forall|other: Seq<char>| after.to_set().contains(other) <==> before.to_set().insert(
                name@,
            ).contains(other) by {
                if before.contains(other) {
                    let k = choose|k: int| 0 <= k < before.len() && before[k] == other;
                    assert(after[if k < at {
                        k
                    } else {
                        k + 1
                    }] == other);
                }
                if after.contains(other) {
                    let k = choose|k: int| 0 <= k < after.len() && after[k] == other;
                    if k != at {
                        assert(before[if k < at {
                            k
                        } else {
                            k - 1
                        }] == other);
                    }
                }
                assert(after[at as int] == name@);
            }
            assert(after.to_set() =~= before.to_set().insert(name@));
        }
        self.names = names;
    }

    /// Removes one name.
    fn delete(&mut self, name: &str)
        ensures
            final(self)@ == old(self)@.remove(name@),
            final(self).payloads() == old(self).payloads(),
    {
        proof {
            use_type_invariant(&*self);
        }
        let at = self.place(name);
        let ghost before = texts(self.names@);
        if at >= self.names.len() || !text::same(self.names[at], name) {
            proof {
                assert forall|k: int| 0 <= k < before.len() implies before[k] != name@ by {
                    if k < at {
                        text::lemma_sorts_one_way(before[k], name@);
                    } else if k > at {
                        if before[k] == name@ {
                            assert(sorts_before(before[at as int], before[k]));
                        }
                    }
                }
                assert(self@.remove(name@) =~= self@);
            }
            return ;
        }
        let mut names = copied(&self.names);
        let _ = names.remove(at);
        proof {
            let after = texts(names@);
            assert(after =~= before.remove(at as int));
            assert(before[at as int] == name@);
            assert forall|i: int, j: int| 0 <= i < j < after.len() implies sorts_before(
                #[trigger] after[i],
                #[trigger] after[j],
            ) by {
                let a = if i < at {
                    i
                } else {
                    i + 1
                };
                let b = if j < at {
                    j
                } else {
                    j + 1
                };
                assert(after[i] == before[a] && after[j] == before[b]);
            }
            assert forall|other: Seq<char>| after.to_set().contains(other) <==> before.to_set().remove(
                name@,
            ).contains(other) by {
                if before.contains(other) && other != name@ {
                    let k = choose|k: int| 0 <= k < before.len() && before[k] == other;
                    assert(after[if k < at {
                        k
                    } else {
                        k - 1
                    }] == other);
                }
                if after.contains(other) {
                    let k = choose|k: int| 0 <= k < after.len() && after[k] == other;
                    let b = if k < at {
                        k
                    } else {
                        k + 1
                    };
                    assert(before[b] == other);
                    if b < at {
                        assert(sorts_before(before[b], before[at as int]));
                    } else {
                        assert(sorts_before(before[at as int], before[b]));
                    }
                    text::lemma_sorts_one_way(before[b], before[at as int]);
                }
            }
            assert(after.to_set() =~= before.to_set().remove(name@));
        }
        self.names = names;
    }

    /// Adds several names.
    fn insert_all(&mut self, more: &Vec<&'static str>)
        ensures
            final(self)@ == old(self)@.union(texts(more@).to_set()),
            final(self).payloads() == old(self).payloads(),
    {
        let ghost before = self@;
        let ghost all = texts(more@);
        let mut at: usize = 0;
        proof {
            assert(self@ =~= before.union(all.take(0).to_set()));
        }
        while at < more.len()
            invariant
                at <= more@.len(),
                all == texts(more@),
                self@ == before.union(all.take(at as int).to_set()),
                self.payloads() == old(self).payloads(),
            decreases more@.len() - at,
        {
            self.insert(more[at]);
            proof {
                lemma_take_set(all, at as int);
                assert(self@ =~= before.union(all.take(at + 1).to_set()));
            }
            at += 1;
        }
        proof {
            assert(all.take(at as int) =~= all);
        }
    }

    /// Removes several names.
    fn delete_all(&mut self, less: &Vec<&'static str>)
        ensures
            final(self)@ == old(self)@.difference(texts(less@).to_set()),
            final(self).payloads() == old(self).payloads(),
    {
        let ghost before = self@;
        let ghost all = texts(less@);
        let mut at: usize = 0;
        proof {
            assert(self@ =~= before.difference(all.take(0).to_set()));
        }
        while at < less.len()
            invariant
                at <= less@.len(),
                all == texts(less@),
                self@ == before.difference(all.take(at as int).to_set()),
                self.payloads() == old(self).payloads(),
            decreases less@.len() - at,
        {
            self.delete(less[at]);
            proof {
                lemma_take_set(all, at as int);
                assert(self@ =~= before.difference(all.take(at + 1).to_set()));
            }
            at += 1;
        }
        proof {
            assert(all.take(at as int) =~= all);
        }
    }

    /// Sets the caller-supplied `Err(...)` payloads that `fn_value.err_with` will use.
    ///
    /// Supplying any also turns the mutator on.
    pub fn set_errors(&mut self, errors: Vec<String>)
        ensures
            final(self).payloads() == strings(errors@),
            final(self)@ == if errors@.len() == 0 {
                old(self)@
            } else {
                old(self)@.insert(ERR_WITH@)
            },
    {
        proof {
            use_type_invariant(&*self);
        }
        if errors.len() > 0 {
            self.insert(ERR_WITH);
        }
        proof {
            use_type_invariant(&*self);
        }
        self.errors = errors;
    }

    /// Removes the error mutator, for a selection the user spelled out without it.
    pub fn drop_errors(&mut self)
        ensures
            final(self).payloads() == Seq::<Seq<char>>::empty(),
            final(self)@ == old(self)@.remove(ERR_WITH@),
    {
        self.delete(ERR_WITH);
        let none: Vec<String> = Vec::new();
        proof {
            use_type_invariant(&*self);
            assert(strings(none@) =~= Seq::<Seq<char>>::empty());
        }
        self.errors = none;
    }

    /// The caller-supplied `Err(...)` payloads.
    pub fn errors(&self) -> (r: &Vec<String>)
        ensures
            strings(r@) == self.payloads(),
    {
        &self.errors
    }

    /// Whether a mutator is in the set.
    pub fn contains(&self, name: &str) -> (r: bool)
        ensures
            r == self@.contains(name@),
    {
        lookup::holds(&self.names, name)
    }

    /// Whether any mutator of a family is selected.
    pub fn any_in_family(&self, family: &str) -> (r: bool)
        ensures
            r == exists|name: Seq<char>| #[trigger] self@.contains(name) && begins(name, family@ + "."@),
    {
        let prefix = text::joined(family, ".");
        let mut at: usize = 0;
        while at < self.names.len()
            invariant
                at <= self.names@.len(),
                prefix@ == family@ + "."@,
                forall|i: int| 0 <= i < at ==> !begins(#[trigger] texts(self.names@)[i], prefix@),
            decreases self.names@.len() - at,
        {
            if text::starts_with(self.names[at], prefix.as_str()) {
                proof {
                    assert(texts(self.names@)[at as int] == self.names@[at as int]@);
                    assert(self@.contains(self.names@[at as int]@));
                }
                return true;
            }
            at += 1;
        }
        proof {
            assert forall|name: Seq<char>| #[trigger] self@.contains(name) implies !begins(name, prefix@) by {
                let k = choose|k: int| 0 <= k < texts(self.names@).len() && texts(self.names@)[k] == name;
                assert(!begins(texts(self.names@)[k], prefix@));
            }
        }
        false
    }

    /// The names in sorted order.
    pub fn sorted(&self) -> (r: Vec<&'static str>)
        ensures
            ascending(texts(r@)),
            texts(r@).to_set() == self@,
    {
        proof {
            use_type_invariant(&*self);
        }
        copied(&self.names)
    }

    /// Applies a comma-separated selector list to this set.
    ///
    /// Selectors are applied left to right, so a later `!family` can carve out of an earlier
    /// preset.
    ///
    /// # Errors
    ///
    /// A selector matches nothing. What stood before it has been applied.
    pub fn apply(&mut self, selectors: &str) -> (r: Result<(), Fault>)
        ensures
            final(self)@ == applied_list(old(self)@, selectors@).0,
            final(self).payloads() == old(self).payloads(),
            r is Ok <==> applied_list(old(self)@, selectors@).1 is None,
            r matches Err(error) ==> is_unknown(error, applied_list(old(self)@, selectors@).1->0),
    {
        let parts = text::split(selectors, ',');
        let ghost list = pieces_from(selectors@, ',', 0);
        let ghost before = self@;
        let mut at: usize = 0;
        proof {
            assert(list.len() == parts@.len());
        }
        while at < parts.len()
            invariant
                at <= parts@.len(),
                list == texts(parts@),
                list.len() == parts@.len(),
                list == pieces_from(selectors@, ',', 0),
                before == old(self)@,
                applied(before, list, at as nat) == (self@, None::<Seq<char>>),
                self.payloads() == old(self).payloads(),
            decreases parts@.len() - at,
        {
            proof {
                assert(list[at as int] == parts@[at as int]@);
            }
            let selector = text::trimmed(parts[at]);
            if !selector.is_empty() {
                match text::strip_first(selector, '!') {
                    Some(rest) => match lookup::resolve(text::trimmed(rest)) {
                        Ok(names) => self.delete_all(&names),
                        Err(error) => {
                            proof {
                                lemma_left_off(before, list, at as nat + 1, list.len());
                            }
                            return Err(error);
                        },
                    },
                    None => match lookup::resolve(selector) {
                        Ok(names) => self.insert_all(&names),
                        Err(error) => {
                            proof {
                                lemma_left_off(before, list, at as nat + 1, list.len());
                            }
                            return Err(error);
                        },
                    },
                }
            }
            at += 1;
        }
        Ok(())
    }

    /// Builds a selection from a selector list, starting from nothing.
    ///
    /// # Errors
    ///
    /// A selector matches nothing.
    pub fn parse(selectors: &str) -> (r: Result<Self, Fault>)
        ensures
            r is Ok <==> applied_list(Set::empty(), selectors@).1 is None,
            r matches Ok(selection) ==> selection@ == applied_list(Set::empty(), selectors@).0 && selection.payloads()
                == Seq::<Seq<char>>::empty(),
            r matches Err(error) ==> is_unknown(error, applied_list(Set::empty(), selectors@).1->0),
    {
        let mut selection = Self::empty();
        match selection.apply(selectors) {
            Ok(()) => Ok(selection),
            Err(error) => Err(error),
        }
    }
}

impl Clone for Selection {
    fn clone(&self) -> (r: Self)
        ensures
            r@ == self@,
            r.payloads() == self.payloads(),
    {
        proof {
            use_type_invariant(&*self);
        }
        let names = copied(&self.names);
        let mut errors: Vec<String> = Vec::new();
        let mut at: usize = 0;
        proof {
            assert(strings(errors@) =~= strings(self.errors@).take(0));
        }
        while at < self.errors.len()
            invariant
                at <= self.errors@.len(),
                strings(errors@) == strings(self.errors@).take(at as int),
            decreases self.errors@.len() - at,
        {
            let ghost earlier = strings(errors@);
            errors.push(text::owned(self.errors[at].as_str()));
            proof {
                assert(strings(errors@) =~= earlier.push(self.errors@[at as int]@));
                assert(strings(errors@) =~= strings(self.errors@).take(at + 1));
            }
            at += 1;
        }
        proof {
            assert(strings(self.errors@).take(at as int) =~= strings(self.errors@));
        }
        Selection { names, errors }
    }
}

impl Default for Selection {
    fn default() -> (r: Self)
        ensures
            r@ == Set::<Seq<char>>::empty(),
            r.payloads() == Seq::<Seq<char>>::empty(),
    {
        Selection::empty()
    }
}

/// A copy of several names.
fn copied(names: &Vec<&'static str>) -> (r: Vec<&'static str>)
    ensures
        r@ == names@,
{
    let mut out: Vec<&'static str> = Vec::new();
    let mut at: usize = 0;
    while at < names.len()
        invariant
            at <= names@.len(),
            out@ == names@.take(at as int),
        decreases names@.len() - at,
    {
        out.push(names[at]);
        at += 1;
        proof {
            assert(out@ =~= names@.take(at as int));
        }
    }
    proof {
        assert(names@.take(at as int) =~= names@);
    }
    out
}

/// One more element makes one more member.
proof fn lemma_take_set(all: Seq<Seq<char>>, at: int)
    requires
        0 <= at < all.len(),
    ensures
        all.take(at + 1).to_set() == all.take(at).to_set().insert(all[at]),
{
    let longer = all.take(at + 1);
    let shorter = all.take(at);
    assert forall|x: Seq<char>| longer.to_set().contains(x) <==> shorter.to_set().insert(all[at]).contains(x) by {
        if longer.contains(x) {
            let k = choose|k: int| 0 <= k < longer.len() && longer[k] == x;
            if k < at {
                assert(shorter[k] == x);
            }
        }
        if shorter.contains(x) {
            let k = choose|k: int| 0 <= k < shorter.len() && shorter[k] == x;
            assert(longer[k] == x);
        }
        assert(longer[at] == all[at]);
    }
    assert(longer.to_set() =~= shorter.to_set().insert(all[at]));
}

// ---- What selecting promises. ----

/// Applying two lists one after the other is applying the one list they make together.
pub proof fn law_lists_apply_from_left_to_right(
    names: Set<Seq<char>>,
    first: Seq<Seq<char>>,
    second: Seq<Seq<char>>,
    n: nat,
)
    requires
        n <= second.len(),
        applied(names, first, first.len()).1 is None,
    ensures
        applied(names, first + second, first.len() + n) == applied(applied(names, first, first.len()).0, second, n),
    decreases n,
{
    if n == 0 {
        lemma_prefix_applies(names, first, second, first.len());
    } else {
        law_lists_apply_from_left_to_right(names, first, second, (n - 1) as nat);
        assert((first + second)[first.len() + n - 1] == second[n - 1]);
    }
}

proof fn lemma_prefix_applies(names: Set<Seq<char>>, first: Seq<Seq<char>>, second: Seq<Seq<char>>, n: nat)
    requires
        n <= first.len(),
    ensures
        applied(names, first + second, n) == applied(names, first, n),
    decreases n,
{
    if n > 0 {
        lemma_prefix_applies(names, first, second, (n - 1) as nat);
        assert((first + second)[n - 1] == first[n - 1]);
    }
}

/// An exclusion takes out everything its selector matches, and nothing else.
pub proof fn law_an_exclusion_carves_out_what_it_matches(names: Set<Seq<char>>, raw: Seq<char>, rest: Seq<char>)
    requires
        without_first(trim(raw), '!') == Some(rest),
        resolved(trim(rest)) is Ok,
    ensures
        applied_one(names, raw) is Ok,
        forall|name: Seq<char>| #[trigger]
            applied_one(names, raw)->Ok_0.contains(name) <==> names.contains(name) && !resolved(
                trim(rest),
            )->Ok_0.contains(name),
{
}

} // verus!
