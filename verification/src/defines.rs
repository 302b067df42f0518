//! The table of macro definitions that `#define` and `#undef` change and that
//! is applied to every line that passes through.

use crate::keyed::{
    distinct, find_key, keys_of, lemma_distinct_kept, lemma_position_found, position,
};
use crate::text::{chars_of, copy_of, replace, replaced, string_of};
use vstd::prelude::*;

verus! {

/// The definitions in the order in which they are applied: `keys[i]` is
/// replaced by `values[i]`.
#[verifier::ext_equal]
pub struct Defines {
    pub keys: Seq<Seq<char>>,
    pub values: Seq<Seq<char>>,
}

impl Defines {
    /// Whether `key` is defined.
    pub open spec fn contains_key(self, key: Seq<char>) -> bool {
        position(self.keys, key) is Some
    }

    /// The replacement text of `key`.
    pub open spec fn get(self, key: Seq<char>) -> Option<Seq<char>> {
        match position(self.keys, key) {
            Some(i) => Some(self.values[i]),
            None => None,
        }
    }

    /// The definitions with `key` standing for `value`: in its old place where
    /// it was defined, else at the end.
    pub open spec fn insert(self, key: Seq<char>, value: Seq<char>) -> Defines {
        match position(self.keys, key) {
            Some(i) => Defines { keys: self.keys, values: self.values.update(i, value) },
            None => Defines { keys: self.keys.push(key), values: self.values.push(value) },
        }
    }

    /// The definitions without `key`.
    pub open spec fn remove(self, key: Seq<char>) -> Defines {
        match position(self.keys, key) {
            Some(i) => Defines { keys: self.keys.remove(i), values: self.values.remove(i) },
            None => self,
        }
    }

    /// `line` after the first `n` definitions have been applied, one after the
    /// other, each to the result of the one before.
    pub open spec fn apply_first(self, line: Seq<char>, n: nat) -> Seq<char>
        decreases n,
    {
        if n == 0 {
            line
        } else {
            replace(
                self.apply_first(line, (n - 1) as nat),
                self.keys[n - 1],
                self.values[n - 1],
            )
        }
    }

    /// `line` after all definitions have been applied.
    pub open spec fn apply(self, line: Seq<char>) -> Seq<char> {
        self.apply_first(line, self.keys.len())
    }

    /// Whether every key has a value and no key stands twice.
    pub open spec fn well_formed(self) -> bool {
        self.keys.len() == self.values.len() && distinct(self.keys)
    }
}

/// A table of macro definitions.
///
/// A table that is made by `new`, `insert` and `remove` holds no key twice.
pub struct DefineTable {
    entries: Vec<(Vec<char>, Vec<char>)>,
}

impl View for DefineTable {
    type V = Defines;

    closed spec fn view(&self) -> Defines {
        Defines {
            keys: keys_of(self.entries@),
            values: self.entries@.map_values(|e: (Vec<char>, Vec<char>)| e.1@),
        }
    }
}

impl DefineTable {
    /// A table without definitions.
    pub fn new() -> (t: DefineTable)
        ensures
            t@.keys.len() == 0,
            t@.values.len() == 0,
            t@.well_formed(),
    {
        DefineTable { entries: Vec::new() }
    }

    /// The number of definitions.
    pub fn len(&self) -> (n: usize)
        ensures
            n == self@.keys.len(),
            n == self@.values.len(),
    {
        self.entries.len()
    }

    pub(crate) fn contains_chars(&self, key: &Vec<char>) -> (b: bool)
        ensures
            b == self@.contains_key(key@),
    {
        find_key(&self.entries, key).is_some()
    }

    pub(crate) fn insert_chars(&mut self, key: Vec<char>, value: Vec<char>)
        ensures
            final(self)@ == old(self)@.insert(key@, value@),
            old(self)@.well_formed() ==> final(self)@.well_formed(),
    {
        let ghost before = self@;
        proof {
            lemma_position_found(before.keys, key@);
            if before.well_formed() {
                lemma_distinct_kept(before.keys, key@);
            }
        }
        match find_key(&self.entries, &key) {
            Some(i) => {
                self.entries.set(i, (key, value));
                assert(self@.values =~= before.values.update(i as int, value@));
                assert(self@.keys =~= before.keys);
            },
            None => {
                self.entries.push((key, value));
                assert(self@.keys =~= before.keys.push(key@));
                assert(self@.values =~= before.values.push(value@));
            },
        }
    }

    pub(crate) fn remove_chars(&mut self, key: &Vec<char>)
        ensures
            final(self)@ == old(self)@.remove(key@),
            old(self)@.well_formed() ==> final(self)@.well_formed(),
    {
        let ghost before = self@;
        proof {
            if before.well_formed() {
                lemma_distinct_kept(before.keys, key@);
            }
        }
        match find_key(&self.entries, key) {
            Some(i) => {
                self.entries.remove(i);
                assert(self@.keys =~= before.keys.remove(i as int));
                assert(self@.values =~= before.values.remove(i as int));
            },
            None => {},
        }
    }

    pub(crate) fn apply_chars(&self, line: &Vec<char>) -> (r: Vec<char>)
        ensures
            r@ == self@.apply(line@),
    {
        let mut r: Vec<char> = copy_of(line);
        let mut i: usize = 0;
        while i < self.entries.len()
            invariant
                i <= self.entries.len(),
                r@ == self@.apply_first(line@, i as nat),
            decreases self.entries.len() - i,
        {
            r = replaced(&r, &self.entries[i].0, &self.entries[i].1);
            i += 1;
        }
        r
    }

    /// Whether `key` is defined.
    pub fn contains_key(&self, key: &str) -> (b: bool)
        ensures
            b == self@.contains_key(key@),
    {
        self.contains_chars(&chars_of(key))
    }

    /// The replacement text of `key`.
    pub fn get(&self, key: &str) -> (r: Option<String>)
        ensures
            match r {
                Some(v) => self@.get(key@) == Some(v@),
                None => self@.get(key@) is None,
            },
    {
        match find_key(&self.entries, &chars_of(key)) {
            Some(i) => Some(string_of(&self.entries[i].1)),
            None => None,
        }
    }

    /// Defines `key` as `value`, in place of what it stood for before.
    pub fn insert(&mut self, key: &str, value: &str)
        ensures
            final(self)@ == old(self)@.insert(key@, value@),
            old(self)@.well_formed() ==> final(self)@.well_formed(),
    {
        self.insert_chars(chars_of(key), chars_of(value))
    }

    /// Removes the definition of `key`.
    pub fn remove(&mut self, key: &str)
        ensures
            final(self)@ == old(self)@.remove(key@),
            old(self)@.well_formed() ==> final(self)@.well_formed(),
    {
        self.remove_chars(&chars_of(key))
    }

    /// `line` with every definition applied, in the table's order.
    pub fn apply(&self, line: &str) -> (r: String)
        ensures
            r@ == self@.apply(line@),
    {
        string_of(&self.apply_chars(&chars_of(line)))
    }
}

} // verus!
