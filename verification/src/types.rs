//! The map from the built-in types of the shading language, and from structs
//! that are told to be taken from elsewhere, to the types that stand for them
//! on the host.

use crate::keyed::{distinct, lemma_distinct_kept, lemma_position_found, lemma_position_is, position};
use crate::text::{chars_of, string_of};
use vstd::prelude::*;

verus! {

/// The vector types of the shading language.
#[derive(Clone, Copy, Debug, PartialEq, Eq, Structural)]
pub enum WgslVecType {
    Vec2i,
    Vec3i,
    Vec4i,
    Vec2u,
    Vec3u,
    Vec4u,
    Vec2f,
    Vec3f,
    Vec4f,
    Vec2h,
    Vec3h,
    Vec4h,
}

/// The matrix types of the shading language.
#[derive(Clone, Copy, Debug, PartialEq, Eq, Structural)]
pub enum WgslMatType {
    Mat2x2f,
    Mat2x3f,
    Mat2x4f,
    Mat3x2f,
    Mat3x3f,
    Mat3x4f,
    Mat4x2f,
    Mat4x3f,
    Mat4x4f,
    Mat2x2h,
    Mat2x3h,
    Mat2x4h,
    Mat3x2h,
    Mat3x3h,
    Mat3x4h,
    Mat4x2h,
    Mat4x3h,
    Mat4x4h,
}

/// A type of the shading language that the map can give a host type.
#[derive(Clone, Debug, PartialEq, Eq)]
pub enum WgslType {
    Vector(WgslVecType),
    Matrix(WgslMatType),
    Struct { fully_qualified_name: String },
}

/// What a `WgslType` is known by: a struct by the text of its name.
pub enum WgslTypeKey {
    Vector(WgslVecType),
    Matrix(WgslMatType),
    Struct(Seq<char>),
}

impl View for WgslType {
    type V = WgslTypeKey;

    open spec fn view(&self) -> WgslTypeKey {
        match self {
            WgslType::Vector(v) => WgslTypeKey::Vector(*v),
            WgslType::Matrix(m) => WgslTypeKey::Matrix(*m),
            WgslType::Struct { fully_qualified_name } => WgslTypeKey::Struct(fully_qualified_name@),
        }
    }
}

impl WgslType {
    /// Whether the two are the same type.
    pub fn same(&self, other: &WgslType) -> (b: bool)
        ensures
            b == (self@ == other@),
    {
        match (self, other) {
            (WgslType::Vector(a), WgslType::Vector(b)) => *a == *b,
            (WgslType::Matrix(a), WgslType::Matrix(b)) => *a == *b,
            (
                WgslType::Struct { fully_qualified_name: a },
                WgslType::Struct { fully_qualified_name: b },
            ) => *a == *b,
            _ => false,
        }
    }

    /// The same type anew.
    pub fn copy(&self) -> (r: WgslType)
        ensures
            r@ == self@,
    {
        match self {
            WgslType::Vector(v) => WgslType::Vector(*v),
            WgslType::Matrix(m) => WgslType::Matrix(*m),
            WgslType::Struct { fully_qualified_name } => WgslType::Struct {
                fully_qualified_name: fully_qualified_name.clone(),
            },
        }
    }
}

/// The types that have a host type, in the order in which they were first
/// given one, and the text of the host type of each.
#[verifier::ext_equal]
pub struct TypeMapping {
    pub keys: Seq<WgslTypeKey>,
    pub values: Seq<Seq<char>>,
}

impl TypeMapping {
    /// The host type of `key`.
    pub open spec fn get(self, key: WgslTypeKey) -> Option<Seq<char>> {
        match position(self.keys, key) {
            Some(i) => Some(self.values[i]),
            None => None,
        }
    }

    /// The mapping with `value` for `key`: in its old place where it had a
    /// host type, else at the end.
    pub open spec fn insert(self, key: WgslTypeKey, value: Seq<char>) -> TypeMapping {
        match position(self.keys, key) {
            Some(i) => TypeMapping { keys: self.keys, values: self.values.update(i, value) },
            None => TypeMapping { keys: self.keys.push(key), values: self.values.push(value) },
        }
    }

    /// The mapping with the first `n` entries of `other` inserted one after
    /// the other.
    pub open spec fn extend_first(self, other: TypeMapping, n: nat) -> TypeMapping
        decreases n,
    {
        if n == 0 {
            self
        } else {
            self.extend_first(other, (n - 1) as nat).insert(other.keys[n - 1], other.values[n - 1])
        }
    }

    /// The mapping with all entries of `other` inserted one after the other.
    pub open spec fn extend(self, other: TypeMapping) -> TypeMapping {
        self.extend_first(other, other.keys.len())
    }

    /// Whether every type has a host type and no type stands twice.
    pub open spec fn well_formed(self) -> bool {
        self.keys.len() == self.values.len() && distinct(self.keys)
    }
}

/// The map from types of the shading language to the text of host types.
///
/// A map that is made by `new`, `insert` and `extend` holds no type twice.
#[derive(Debug)]
pub struct WgslTypeMap {
    entries: Vec<(WgslType, String)>,
}

/// What the types of the entries are known by.
pub open spec fn type_keys(entries: Seq<(WgslType, String)>) -> Seq<WgslTypeKey> {
    entries.map_values(|e: (WgslType, String)| e.0@)
}

impl View for WgslTypeMap {
    type V = TypeMapping;

    closed spec fn view(&self) -> TypeMapping {
        TypeMapping {
            keys: type_keys(self.entries@),
            values: self.entries@.map_values(|e: (WgslType, String)| e.1@),
        }
    }
}

fn find_type(entries: &Vec<(WgslType, String)>, key: &WgslType) -> (r: Option<usize>)
    ensures
        match r {
            Some(i) => position(type_keys(entries@), key@) == Some(i as int) && i < entries.len(),
            None => position(type_keys(entries@), key@) is None,
        },
{
    let mut i: usize = 0;
    while i < entries.len()
        invariant
            i <= entries.len(),
            forall|k: int| 0 <= k < i ==> type_keys(entries@)[k] != key@,
        decreases entries.len() - i,
    {
        if entries[i].0.same(key) {
            proof {
                lemma_position_is(type_keys(entries@), key@, Some(i as int));
            }
            return Some(i);
        }
        i += 1;
    }
    proof {
        lemma_position_is(type_keys(entries@), key@, None);
    }
    None
}

impl WgslTypeMap {
    /// A map without entries.
    pub fn new() -> (m: WgslTypeMap)
        ensures
            m@.keys.len() == 0,
            m@.values.len() == 0,
            m@.well_formed(),
    {
        WgslTypeMap { entries: Vec::new() }
    }

    /// The number of entries.
    pub fn len(&self) -> (n: usize)
        ensures
            n == self@.keys.len(),
            n == self@.values.len(),
    {
        self.entries.len()
    }

    /// Whether the type has a host type.
    pub fn contains_key(&self, key: &WgslType) -> (b: bool)
        ensures
            b == (self@.get(key@) is Some),
    {
        find_type(&self.entries, key).is_some()
    }

    /// The text of the host type of `key`.
    pub fn get(&self, key: &WgslType) -> (r: Option<String>)
        ensures
            match r {
                Some(v) => self@.get(key@) == Some(v@),
                None => self@.get(key@) is None,
            },
    {
        match find_type(&self.entries, key) {
            Some(i) => Some(self.entries[i].1.clone()),
            None => None,
        }
    }

    /// The type and the host type of the entry of index `i`.
    pub fn entry(&self, i: usize) -> (r: (WgslType, String))
        requires
            i < self@.keys.len(),
        ensures
            r.0@ == self@.keys[i as int],
            r.1@ == self@.values[i as int],
    {
        (self.entries[i].0.copy(), self.entries[i].1.clone())
    }

    /// Gives `key` the host type `value`, in place of the one it had.
    pub fn insert(&mut self, key: WgslType, value: String)
        ensures
            final(self)@ == old(self)@.insert(key@, value@),
            old(self)@.well_formed() ==> final(self)@.well_formed(),
    {
        let ghost before = self@;
        proof {
            lemma_position_found(before.keys, key@);
            if before.well_formed() {
                lemma_distinct_kept(before.keys, key@);
            }
        }
        match find_type(&self.entries, &key) {
            Some(i) => {
                self.entries.set(i, (key, value));
                assert(self@.values =~= before.values.update(i as int, value@));
                assert(self@.keys =~= before.keys);
            },
            None => {
                self.entries.push((key, value));
                assert(self@.keys =~= before.keys.push(key@));
                assert(self@.values =~= before.values.push(value@));
            },
        }
    }

    /// Inserts the entries of `other` in their order.
    pub fn extend(&mut self, other: &WgslTypeMap)
        ensures
            final(self)@ == old(self)@.extend(other@),
            old(self)@.well_formed() ==> final(self)@.well_formed(),
    {
        let mut i: usize = 0;
        while i < other.entries.len()
            invariant
                i <= other.entries.len(),
                self@ == old(self)@.extend_first(other@, i as nat),
                old(self)@.well_formed() ==> self@.well_formed(),
            decreases other.entries.len() - i,
        {
            let (key, value) = other.entry(i);
            self.insert(key, value);
            i += 1;
        }
    }
}

/// What builds a map from types of the shading language to host types.
pub trait WgslTypeMapBuild {
    /// Builds the map.
    fn build(&self) -> WgslTypeMap;
}

impl WgslTypeMapBuild for WgslTypeMap {
    fn build(&self) -> (m: WgslTypeMap)
        ensures
            m@ == WgslTypeMap::new_spec().extend(self@),
    {
        let mut m = WgslTypeMap::new();
        proof {
            assert(m@ =~= WgslTypeMap::new_spec());
        }
        m.extend(self);
        m
    }
}

impl WgslTypeMap {
    /// The mapping without entries.
    pub open spec fn new_spec() -> TypeMapping {
        TypeMapping { keys: Seq::empty(), values: Seq::empty() }
    }
}

/// Host types that are arrays and arrays of arrays: no type is mapped.
#[derive(Clone, Copy, Debug)]
pub struct RustWgslTypeMap;

impl WgslTypeMapBuild for RustWgslTypeMap {
    fn build(&self) -> (m: WgslTypeMap)
        ensures
            m@.keys.len() == 0,
            m@.values.len() == 0,
    {
        WgslTypeMap::new()
    }
}

/// Host types of `glam` for the vectors and matrices that it can stand for
/// without a change of layout; all other types are not mapped.
#[derive(Clone, Copy, Debug)]
pub struct GlamWgslTypeMap;

/// The entries of the `glam` map.
pub open spec fn glam_mapping() -> TypeMapping {
    TypeMapping {
        keys: seq![
            WgslTypeKey::Vector(WgslVecType::Vec3f),
            WgslTypeKey::Vector(WgslVecType::Vec4f),
            WgslTypeKey::Matrix(WgslMatType::Mat3x3f),
            WgslTypeKey::Matrix(WgslMatType::Mat4x4f),
        ],
        values: seq!["glam::Vec3A"@, "glam::Vec4"@, "glam::Mat3A"@, "glam::Mat4"@],
    }
}

impl WgslTypeMapBuild for GlamWgslTypeMap {
    fn build(&self) -> (m: WgslTypeMap)
        ensures
            m@ == glam_mapping(),
    {
        let mut m = WgslTypeMap::new();
        let ghost all = glam_mapping().keys;
        proof {
            assert(m@.keys =~= all.take(0));
            lemma_position_is(m@.keys, all[0], None);
        }
        m.insert(WgslType::Vector(WgslVecType::Vec3f), string_of(&chars_of("glam::Vec3A")));
        proof {
            assert(m@.keys =~= all.take(1));
            lemma_position_is(m@.keys, all[1], None);
        }
        m.insert(WgslType::Vector(WgslVecType::Vec4f), string_of(&chars_of("glam::Vec4")));
        proof {
            assert(m@.keys =~= all.take(2));
            lemma_position_is(m@.keys, all[2], None);
        }
        m.insert(WgslType::Matrix(WgslMatType::Mat3x3f), string_of(&chars_of("glam::Mat3A")));
        proof {
            assert(m@.keys =~= all.take(3));
            lemma_position_is(m@.keys, all[3], None);
        }
        m.insert(WgslType::Matrix(WgslMatType::Mat4x4f), string_of(&chars_of("glam::Mat4")));
        proof {
            assert(m@.keys =~= glam_mapping().keys);
            assert(m@.values =~= glam_mapping().values);
        }
        m
    }
}

} // verus!
