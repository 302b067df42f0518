//! The table that gives each binding label its group and numbers the bindings
//! of a group in the order in which they are asked for.

use crate::keyed::{find_key, keys_of, lemma_position_found, position};
use crate::text::{chars_of, copy_of};
use vstd::prelude::*;

verus! {

/// The labels in the order in which they were first seen, so that the group of
/// `labels[i]` is `i`, and for each the number that its next binding gets.
#[verifier::ext_equal]
pub struct Bindings {
    pub labels: Seq<Seq<char>>,
    pub next: Seq<nat>,
}

impl Bindings {
    /// The group and the binding that the next use of `label` gets: a label
    /// that was seen before keeps its group and gets its next binding, a new
    /// label gets the next unused group and binding 0.
    pub open spec fn group_and_binding(self, label: Seq<char>) -> (nat, nat) {
        match position(self.labels, label) {
            Some(i) => (i as nat, self.next[i]),
            None => (self.labels.len(), 0),
        }
    }

    /// The table after `label` has been given a binding.
    pub open spec fn assign(self, label: Seq<char>) -> Bindings {
        match position(self.labels, label) {
            Some(i) => Bindings { labels: self.labels, next: self.next.update(i, self.next[i] + 1) },
            None => Bindings { labels: self.labels.push(label), next: self.next.push(1) },
        }
    }

    /// Whether `n` more bindings can be given without a group or a binding
    /// leaving the range of `u32`.
    pub open spec fn has_room(self, n: nat) -> bool {
        &&& self.labels.len() == self.next.len()
        &&& self.labels.len() + n <= u32::MAX
        &&& forall|i: int| 0 <= i < self.next.len() ==> #[trigger] self.next[i] + n <= u32::MAX
    }
}

/// Giving a binding takes one of the places that were left.
pub proof fn lemma_assign_room(b: Bindings, label: Seq<char>, n: nat)
    requires
        b.has_room(n + 1),
    ensures
        b.assign(label).has_room(n),
{
    lemma_position_found(b.labels, label);
    let after = b.assign(label);
    assert forall|i: int| 0 <= i < after.next.len() implies #[trigger] after.next[i] + n
        <= u32::MAX by {
        match position(b.labels, label) {
            Some(p) => {
                assert(b.next[i] + (n + 1) <= u32::MAX);
            },
            None => {
                if i < b.next.len() {
                    assert(b.next[i] + (n + 1) <= u32::MAX);
                }
            },
        }
    }
}

/// A table of binding labels. It only grows.
pub struct SymbolicBindingTable {
    entries: Vec<(Vec<char>, u32)>,
}

impl View for SymbolicBindingTable {
    type V = Bindings;

    closed spec fn view(&self) -> Bindings {
        Bindings {
            labels: keys_of(self.entries@),
            next: self.entries@.map_values(|e: (Vec<char>, u32)| e.1 as nat),
        }
    }
}

impl SymbolicBindingTable {
    /// A table without labels.
    pub fn new() -> (t: SymbolicBindingTable)
        ensures
            t@.labels.len() == 0,
            t@.next.len() == 0,
            forall|n: nat| n <= u32::MAX ==> t@.has_room(n),
    {
        SymbolicBindingTable { entries: Vec::new() }
    }

    /// The number of labels, which is the number of groups given out.
    pub fn len(&self) -> (n: usize)
        ensures
            n == self@.labels.len(),
    {
        self.entries.len()
    }

    /// Whether `n` more bindings can be given.
    pub fn has_room(&self, n: u32) -> (b: bool)
        ensures
            b == self@.has_room(n as nat),
    {
        if self.entries.len() > (u32::MAX - n) as usize {
            return false;
        }
        let mut i: usize = 0;
        while i < self.entries.len()
            invariant
                i <= self.entries.len(),
                self@.labels.len() + n <= u32::MAX,
                forall|k: int| 0 <= k < i ==> #[trigger] self@.next[k] + n <= u32::MAX,
            decreases self.entries.len() - i,
        {
            if self.entries[i].1 > u32::MAX - n {
                assert(self@.next[i as int] + n > u32::MAX);
                return false;
            }
            i += 1;
        }
        true
    }

    pub(crate) fn assign_chars(&mut self, label: &Vec<char>) -> (r: (u32, u32))
        requires
            old(self)@.has_room(1),
        ensures
            (r.0 as nat, r.1 as nat) == old(self)@.group_and_binding(label@),
            final(self)@ == old(self)@.assign(label@),
    {
        let ghost before = self@;
        proof {
            lemma_position_found(before.labels, label@);
        }
        match find_key(&self.entries, label) {
            Some(i) => {
                let binding = self.entries[i].1;
                assert(before.next[i as int] + 1 <= u32::MAX);
                self.entries.set(i, (copy_of(label), binding + 1));
                assert(self@.labels =~= before.labels);
                assert(self@.next =~= before.next.update(i as int, before.next[i as int] + 1));
                (i as u32, binding)
            },
            None => {
                let group = self.entries.len();
                self.entries.push((copy_of(label), 1));
                assert(self@.labels =~= before.labels.push(label@));
                assert(self@.next =~= before.next.push(1));
                (group as u32, 0)
            },
        }
    }

    /// Gives the next binding of `label`: its group and its number in the group.
    pub fn assign(&mut self, label: &str) -> (r: (u32, u32))
        requires
            old(self)@.has_room(1),
        ensures
            (r.0 as nat, r.1 as nat) == old(self)@.group_and_binding(label@),
            final(self)@ == old(self)@.assign(label@),
    {
        self.assign_chars(&chars_of(label))
    }
}

} // verus!
