//! The structs of a module that the host has to know: those that an entry
//! point takes as input and those that a global variable uses, with the byte
//! layout of the ones that are shared with the host.

use crate::ir::{EntryPoint, Module, StructMember, Type, TypeInner};
use crate::layout::{alignment_of, layout_fields, offset_of, size_of, StructLayout};
use crate::options::{
    string_text_of, OverrideStructAlignment, OverrideStructFieldType, WgslBindgenOption,
};
use crate::patterns::{any_matches, hits, is_match, matches_any};
use crate::reach::{global_variable_types, used_by_global};
use crate::types::{TypeMapping, WgslType, WgslTypeKey};
use crate::wgsl::{has_dynamic_member, struct_has_rts_array_member};
use vstd::prelude::*;

verus! {

/// A field of a struct: its name, the handle of its type, its size and its
/// alignment, the host type that it is told to have, if it is told one, and
/// whether it is a padding field, which occupies its bytes but is left out
/// where the struct is built from its fields.
#[derive(Debug, PartialEq, Eq)]
pub struct FieldDescriptor {
    pub name: Option<String>,
    pub ty: usize,
    pub size: u32,
    pub align: u32,
    pub override_type: Option<String>,
    pub is_padding: bool,
}

/// A struct that the host has to know.
#[derive(Debug, PartialEq, Eq)]
pub struct StructDescriptor {
    pub name: Option<String>,
    pub ty: usize,
    pub fields: Vec<FieldDescriptor>,
    /// The byte layout, for a struct that is shared with the host. Other
    /// structs are laid out as the host lays out their fields.
    pub layout: Option<StructLayout>,
    pub is_host_shareable: bool,
    pub has_trailing_dynamic_array: bool,
}

/// Whether the entry point returns a value of the type.
pub open spec fn gives_back(entry: EntryPoint, t: int) -> bool {
    entry.result matches Some(r) && r.ty == t
}

/// Whether an entry point returns a value of the type.
pub open spec fn is_result(entries: Seq<EntryPoint>, t: int) -> bool {
    exists|e: int|
        0 <= e < entries.len() && gives_back(#[trigger] entries[e], t)
}

/// Whether the entry point takes an argument of the type.
pub open spec fn takes(entry: EntryPoint, t: int) -> bool {
    exists|a: int| 0 <= a < entry.arguments@.len() && (#[trigger] entry.arguments@[a]).ty == t
}

/// Whether an entry point takes an argument of the type.
pub open spec fn is_argument(entries: Seq<EntryPoint>, t: int) -> bool {
    exists|e: int| 0 <= e < entries.len() && takes(#[trigger] entries[e], t)
}

/// Whether the struct of the name is taken from elsewhere.
pub open spec fn taken_elsewhere(type_map: TypeMapping, name: Option<String>) -> bool {
    name matches Some(n) && type_map.get(WgslTypeKey::Struct(n@)) is Some
}

/// Whether the type is a struct that the host has to know: one that an entry
/// point takes and none returns, or one that a global variable uses, and that
/// is not taken from elsewhere.
pub open spec fn selected(module: Module, type_map: TypeMapping, t: int) -> bool {
    &&& 0 <= t < module.types@.len()
    &&& module.types@[t].inner is Struct
    &&& (is_argument(module.entry_points@, t) && !is_result(module.entry_points@, t))
        || used_by_global(module, t)
    &&& !taken_elsewhere(type_map, module.types@[t].name)
}

/// The handles below `n` of the types that are selected, in rising order.
pub open spec fn selection(module: Module, type_map: TypeMapping, n: nat) -> Seq<usize>
    decreases n,
{
    if n == 0 {
        Seq::empty()
    } else if selected(module, type_map, n - 1) {
        selection(module, type_map, (n - 1) as nat).push((n - 1) as usize)
    } else {
        selection(module, type_map, (n - 1) as nat)
    }
}

/// The alignment that the first pattern that picks the name tells.
pub open spec fn told_by(overrides: Seq<OverrideStructAlignment>, name: Seq<char>) -> Option<u32>
    decreases overrides.len(),
{
    if overrides.len() == 0 {
        None
    } else if hits(overrides[0].struct_regex@, name) {
        Some(overrides[0].alignment as u32)
    } else {
        told_by(overrides.skip(1), name)
    }
}

/// The alignment that a type is told to have: that of the first pattern that
/// picks its name, where the type is a struct with a name.
pub open spec fn told_alignment(overrides: Seq<OverrideStructAlignment>, ty: Type) -> Option<u32> {
    match ty.name {
        Some(n) => if ty.inner is Struct {
            told_by(overrides, n@)
        } else {
            None
        },
        None => None,
    }
}

/// The alignment of a field of the type.
pub open spec fn field_alignment(overrides: Seq<OverrideStructAlignment>, ty: Type) -> u32 {
    match told_alignment(overrides, ty) {
        Some(a) => a,
        None => ty.alignment,
    }
}

/// The size and the alignment of each member.
pub open spec fn shapes(
    types: Seq<Type>,
    overrides: Seq<OverrideStructAlignment>,
    members: Seq<StructMember>,
) -> Seq<(u32, u32)> {
    Seq::new(
        members.len(),
        |i: int|
            (types[members[i].ty as int].size, field_alignment(overrides, types[members[i].ty as int])),
    )
}

/// The type that the first pair of patterns that picks the struct and the
/// field tells.
pub open spec fn type_told_by(
    overrides: Seq<OverrideStructFieldType>,
    struct_name: Seq<char>,
    field_name: Seq<char>,
) -> Option<Seq<char>>
    decreases overrides.len(),
{
    if overrides.len() == 0 {
        None
    } else if hits(overrides[0].struct_regex@, struct_name) && hits(
        overrides[0].field_regex@,
        field_name,
    ) {
        Some(overrides[0].override_type@)
    } else {
        type_told_by(overrides.skip(1), struct_name, field_name)
    }
}

/// The host type that a member of a struct is told to have, where both have
/// names.
pub open spec fn told_type(
    overrides: Seq<OverrideStructFieldType>,
    struct_name: Option<String>,
    member: StructMember,
) -> Option<Seq<char>> {
    match (struct_name, member.name) {
        (Some(s), Some(f)) => type_told_by(overrides, s@, f@),
        _ => None,
    }
}

/// Whether the name of the member is one that a padding pattern picks.
pub open spec fn is_padding(patterns: Seq<String>, member: StructMember) -> bool {
    member.name matches Some(n) && any_matches(patterns, n@)
}

/// Whether `d` describes the struct type of the handle `t`.
pub open spec fn describes(module: Module, options: WgslBindgenOption, t: usize, d: StructDescriptor) -> bool {
    let ty = module.types@[t as int];
    let members = crate::vertex::members_of(module.types@, t);
    let overrides = options.override_struct_alignment@;
    let fields = shapes(module.types@, overrides, members);
    let told = told_alignment(overrides, ty);
    &&& d.ty == t
    &&& d.name == ty.name
    &&& d.is_host_shareable == used_by_global(module, t as int)
    &&& d.has_trailing_dynamic_array == has_dynamic_member(members, module.types@)
    &&& d.fields@.len() == members.len()
    &&& forall|k: int|
        0 <= k < members.len() ==> {
            let f = #[trigger] d.fields@[k];
            &&& f.name == members[k].name
            &&& f.ty == members[k].ty
            &&& f.size == fields[k].0
            &&& f.align == fields[k].1
            &&& string_text_of(f.override_type) == told_type(
                options.override_struct_field_type@,
                ty.name,
                members[k],
            )
            &&& f.is_padding == is_padding(options.custom_padding_field_regexps@, members[k])
        }
    &&& match d.layout {
        Some(layout) => {
            &&& d.is_host_shareable
            &&& layout.offsets@.len() == members.len()
            &&& forall|k: int|
                0 <= k < members.len() ==> #[trigger] layout.offsets@[k] == offset_of(fields, k)
            &&& layout.alignment == alignment_of(fields, told)
            &&& layout.size == size_of(fields, told)
        },
        None => !d.is_host_shareable,
    }
}

fn is_result_type(entries: &Vec<EntryPoint>, t: usize) -> (b: bool)
    ensures
        b == is_result(entries@, t as int),
{
    let mut e: usize = 0;
    while e < entries.len()
        invariant
            e <= entries.len(),
            forall|k: int|
                0 <= k < e ==> !gives_back(#[trigger] entries@[k], t as int),
        decreases entries.len() - e,
    {
        match &entries[e].result {
            Some(r) => {
                if r.ty == t {
                    return true;
                }
            },
            None => {},
        }
        e += 1;
    }
    false
}

fn entry_takes(entry: &EntryPoint, t: usize) -> (b: bool)
    ensures
        b == takes(*entry, t as int),
{
    let mut a: usize = 0;
    while a < entry.arguments.len()
        invariant
            a <= entry.arguments.len(),
            forall|k: int| 0 <= k < a ==> (#[trigger] entry.arguments@[k]).ty != t,
        decreases entry.arguments.len() - a,
    {
        if entry.arguments[a].ty == t {
            return true;
        }
        a += 1;
    }
    false
}

fn is_argument_type(entries: &Vec<EntryPoint>, t: usize) -> (b: bool)
    ensures
        b == is_argument(entries@, t as int),
{
    let mut e: usize = 0;
    while e < entries.len()
        invariant
            e <= entries.len(),
            forall|k: int| 0 <= k < e ==> !takes(#[trigger] entries@[k], t as int),
        decreases entries.len() - e,
    {
        if entry_takes(&entries[e], t) {
            return true;
        }
        e += 1;
    }
    false
}

fn tell_by(overrides: &Vec<OverrideStructAlignment>, name: &str) -> (r: Option<u32>)
    ensures
        r == told_by(overrides@, name@),
{
    let mut i: usize = 0;
    assert(overrides@.skip(0) == overrides@);
    while i < overrides.len()
        invariant
            i <= overrides.len(),
            told_by(overrides@, name@) == told_by(overrides@.skip(i as int), name@),
        decreases overrides.len() - i,
    {
        assert(overrides@.skip(i as int).skip(1) == overrides@.skip(i + 1));
        assert(overrides@.skip(i as int)[0] == overrides@[i as int]);
        if is_match(overrides[i].struct_regex.as_str(), name) {
            return Some(overrides[i].alignment as u32);
        }
        i += 1;
    }
    None
}

fn tell_alignment(overrides: &Vec<OverrideStructAlignment>, ty: &Type) -> (r: Option<u32>)
    ensures
        r == told_alignment(overrides@, *ty),
{
    match &ty.name {
        Some(n) => match &ty.inner {
            TypeInner::Struct { .. } => tell_by(overrides, n.as_str()),
            _ => None,
        },
        None => None,
    }
}

fn tell_type(overrides: &Vec<OverrideStructFieldType>, struct_name: &str, field_name: &str) -> (r:
    Option<String>)
    ensures
        string_text_of(r) == type_told_by(overrides@, struct_name@, field_name@),
{
    let mut i: usize = 0;
    assert(overrides@.skip(0) == overrides@);
    while i < overrides.len()
        invariant
            i <= overrides.len(),
            type_told_by(overrides@, struct_name@, field_name@) == type_told_by(
                overrides@.skip(i as int),
                struct_name@,
                field_name@,
            ),
        decreases overrides.len() - i,
    {
        assert(overrides@.skip(i as int).skip(1) == overrides@.skip(i + 1));
        assert(overrides@.skip(i as int)[0] == overrides@[i as int]);
        if is_match(overrides[i].struct_regex.as_str(), struct_name) && is_match(
            overrides[i].field_regex.as_str(),
            field_name,
        ) {
            return Some(overrides[i].override_type.clone());
        }
        i += 1;
    }
    None
}

fn copy_name(name: &Option<String>) -> (r: Option<String>)
    ensures
        r == *name,
{
    match name {
        Some(s) => Some(s.clone()),
        None => None,
    }
}

fn describe_fields(
    module: &Module,
    options: &WgslBindgenOption,
    struct_name: &Option<String>,
    members: &Vec<StructMember>,
) -> (r: (Vec<FieldDescriptor>, Vec<(u32, u32)>))
    requires
        forall|k: int| 0 <= k < members@.len() ==> (#[trigger] members@[k]).ty < module.types@.len(),
    ensures
        r.1@ == shapes(module.types@, options.override_struct_alignment@, members@),
        r.0@.len() == members@.len(),
        forall|k: int|
            0 <= k < members@.len() ==> {
                let f = #[trigger] r.0@[k];
                &&& f.name == members@[k].name
                &&& f.ty == members@[k].ty
                &&& f.size == r.1@[k].0
                &&& f.align == r.1@[k].1
                &&& string_text_of(f.override_type) == told_type(
                    options.override_struct_field_type@,
                    *struct_name,
                    members@[k],
                )
                &&& f.is_padding == is_padding(options.custom_padding_field_regexps@, members@[k])
            },
{
    let mut fields: Vec<FieldDescriptor> = Vec::new();
    let mut sizes: Vec<(u32, u32)> = Vec::new();
    let ghost all = shapes(module.types@, options.override_struct_alignment@, members@);
    let mut k: usize = 0;
    while k < members.len()
        invariant
            k <= members.len(),
            forall|j: int|
                0 <= j < members@.len() ==> (#[trigger] members@[j]).ty < module.types@.len(),
            all == shapes(module.types@, options.override_struct_alignment@, members@),
            fields@.len() == k,
            sizes@ == all.take(k as int),
            forall|j: int|
                0 <= j < k ==> {
                    let f = #[trigger] fields@[j];
                    &&& f.name == members@[j].name
                    &&& f.ty == members@[j].ty
                    &&& f.size == all[j].0
                    &&& f.align == all[j].1
                    &&& string_text_of(f.override_type) == told_type(
                        options.override_struct_field_type@,
                        *struct_name,
                        members@[j],
                    )
                    &&& f.is_padding == is_padding(
                        options.custom_padding_field_regexps@,
                        members@[j],
                    )
                },
        decreases members.len() - k,
    {
        let member = &members[k];
        let ty = &module.types[member.ty];
        let align = match tell_alignment(&options.override_struct_alignment, ty) {
            Some(a) => a,
            None => ty.alignment,
        };
        let padding = match &member.name {
            Some(n) => matches_any(&options.custom_padding_field_regexps, n.as_str()),
            None => false,
        };
        let override_type = match (struct_name, &member.name) {
            (Some(s), Some(f)) => tell_type(
                &options.override_struct_field_type,
                s.as_str(),
                f.as_str(),
            ),
            _ => None,
        };
        fields.push(
            FieldDescriptor {
                name: copy_name(&member.name),
                ty: member.ty,
                size: ty.size,
                align,
                override_type,
                is_padding: padding,
            },
        );
        sizes.push((ty.size, align));
        assert(sizes@ =~= all.take(k + 1));
        k += 1;
    }
    assert(all.take(members@.len() as int) =~= all);
    (fields, sizes)
}

/// The description of the struct type with the handle `t`, which has the
/// members `members`.
fn describe(
    module: &Module,
    options: &WgslBindgenOption,
    t: usize,
    members: &Vec<StructMember>,
    shared: bool,
) -> (d: StructDescriptor)
    requires
        module.well_formed(),
        t < module.types@.len(),
        module.types@[t as int].inner matches TypeInner::Struct { members: m, .. } && m == *members,
        shared == used_by_global(*module, t as int),
    ensures
        describes(*module, *options, t, d),
{
    let ty = &module.types[t];
    proof {
        assert(crate::ir::type_in_range(module.types@[t as int], module.types@.len()));
    }
    let (fields, sizes) = describe_fields(module, options, &ty.name, members);
    let layout = if shared {
        let told = tell_alignment(&options.override_struct_alignment, ty);
        Some(layout_fields(&sizes, told))
    } else {
        None
    };
    StructDescriptor {
        name: copy_name(&ty.name),
        ty: t,
        fields,
        layout,
        is_host_shareable: shared,
        has_trailing_dynamic_array: struct_has_rts_array_member(members, module),
    }
}

fn is_taken_elsewhere(options: &WgslBindgenOption, name: &Option<String>) -> (b: bool)
    ensures
        b == taken_elsewhere(options.type_map@, *name),
{
    match name {
        Some(n) => options.type_map.contains_key(
            &WgslType::Struct { fully_qualified_name: n.clone() },
        ),
        None => false,
    }
}

/// The structs of the module that the host has to know, in the order of their
/// handles.
pub fn structs_items(module: &Module, options: &WgslBindgenOption) -> (items: Vec<StructDescriptor>)
    requires
        module.well_formed(),
    ensures
        ({
            let chosen = selection(*module, options.type_map@, module.types@.len());
            &&& items@.len() == chosen.len()
            &&& forall|k: int|
                0 <= k < chosen.len() ==> describes(*module, *options, chosen[k], #[trigger] items@[k])
        }),
{
    let used = global_variable_types(module);
    let mut items: Vec<StructDescriptor> = Vec::new();
    let mut t: usize = 0;
    while t < module.types.len()
        invariant
            t <= module.types.len(),
            module.well_formed(),
            used@.len() == module.types@.len(),
            forall|k: int| 0 <= k < used@.len() ==> #[trigger] used@[k] == used_by_global(*module, k),
            items@.len() == selection(*module, options.type_map@, t as nat).len(),
            forall|k: int|
                0 <= k < items@.len() ==> describes(
                    *module,
                    *options,
                    selection(*module, options.type_map@, t as nat)[k],
                    #[trigger] items@[k],
                ),
        decreases module.types.len() - t,
    {
        let ty = &module.types[t];
        let shared = used[t];
        match &ty.inner {
            TypeInner::Struct { members, .. } => {
                let wanted = ((is_argument_type(&module.entry_points, t) && !is_result_type(
                    &module.entry_points,
                    t,
                )) || shared) && !is_taken_elsewhere(options, &ty.name);
                assert(wanted == selected(*module, options.type_map@, t as int));
                if wanted {
                    let d = describe(module, options, t, members, shared);
                    let ghost before = selection(*module, options.type_map@, t as nat);
                    items.push(d);
                    assert forall|k: int| 0 <= k < items@.len() implies describes(
                        *module,
                        *options,
                        selection(*module, options.type_map@, (t + 1) as nat)[k],
                        #[trigger] items@[k],
                    ) by {
                        if k < before.len() {
                            assert(selection(*module, options.type_map@, (t + 1) as nat)[k]
                                == before[k]);
                        }
                    }
                }
            },
            _ => {
                assert(!selected(*module, options.type_map@, t as int));
            },
        }
        t += 1;
    }
    items
}

} // verus!
