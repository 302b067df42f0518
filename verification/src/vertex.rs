//! The vertex inputs of a module and the render targets of its fragment
//! entry points.

use crate::ir::{
    Binding, EntryPoint, FunctionArgument, Module, Scalar, ScalarKind, ShaderStage, StructMember,
    Type, TypeInner, VectorSize,
};
use crate::wgsl::{ReflectionError, VertexFormat};
use vstd::prelude::*;

verus! {

/// The vertex format of a scalar.
pub open spec fn scalar_format_of(scalar: Scalar) -> Option<VertexFormat> {
    match scalar.kind {
        ScalarKind::Sint => if scalar.width == 4 {
            Some(VertexFormat::Sint32)
        } else {
            None
        },
        ScalarKind::Uint => if scalar.width == 4 {
            Some(VertexFormat::Uint32)
        } else {
            None
        },
        ScalarKind::Float => if scalar.width == 4 {
            Some(VertexFormat::Float32)
        } else if scalar.width == 8 {
            Some(VertexFormat::Float64)
        } else {
            None
        },
        _ => None,
    }
}

/// The vertex format of a vector of two components.
pub open spec fn pair_format_of(scalar: Scalar) -> Option<VertexFormat> {
    match scalar.kind {
        ScalarKind::Sint => if scalar.width == 1 {
            Some(VertexFormat::Sint8x2)
        } else if scalar.width == 2 {
            Some(VertexFormat::Sint16x2)
        } else if scalar.width == 4 {
            Some(VertexFormat::Sint32x2)
        } else {
            None
        },
        ScalarKind::Uint => if scalar.width == 1 {
            Some(VertexFormat::Uint8x2)
        } else if scalar.width == 2 {
            Some(VertexFormat::Uint16x2)
        } else if scalar.width == 4 {
            Some(VertexFormat::Uint32x2)
        } else {
            None
        },
        ScalarKind::Float => if scalar.width == 4 {
            Some(VertexFormat::Float32x2)
        } else if scalar.width == 8 {
            Some(VertexFormat::Float64x2)
        } else {
            None
        },
        _ => None,
    }
}

/// The vertex format of a vector of three components.
pub open spec fn triple_format_of(scalar: Scalar) -> Option<VertexFormat> {
    match scalar.kind {
        ScalarKind::Sint => if scalar.width == 4 {
            Some(VertexFormat::Sint32x3)
        } else {
            None
        },
        ScalarKind::Uint => if scalar.width == 4 {
            Some(VertexFormat::Uint32x3)
        } else {
            None
        },
        ScalarKind::Float => if scalar.width == 4 {
            Some(VertexFormat::Float32x3)
        } else if scalar.width == 8 {
            Some(VertexFormat::Float64x3)
        } else {
            None
        },
        _ => None,
    }
}

/// The vertex format of a vector of four components.
pub open spec fn quad_format_of(scalar: Scalar) -> Option<VertexFormat> {
    match scalar.kind {
        ScalarKind::Sint => if scalar.width == 1 {
            Some(VertexFormat::Sint8x4)
        } else if scalar.width == 2 {
            Some(VertexFormat::Sint16x4)
        } else if scalar.width == 4 {
            Some(VertexFormat::Sint32x4)
        } else {
            None
        },
        ScalarKind::Uint => if scalar.width == 1 {
            Some(VertexFormat::Uint8x4)
        } else if scalar.width == 2 {
            Some(VertexFormat::Uint16x4)
        } else if scalar.width == 4 {
            Some(VertexFormat::Uint32x4)
        } else {
            None
        },
        ScalarKind::Float => if scalar.width == 4 {
            Some(VertexFormat::Float32x4)
        } else if scalar.width == 8 {
            Some(VertexFormat::Float64x4)
        } else {
            None
        },
        _ => None,
    }
}

/// The vertex format of a type: that of a scalar or a vector of signed,
/// unsigned or floating-point components of a width that a format exists for.
pub open spec fn vertex_format_of(inner: TypeInner) -> Option<VertexFormat> {
    match inner {
        TypeInner::Scalar(scalar) => scalar_format_of(scalar),
        TypeInner::Vector { size, scalar } => match size {
            VectorSize::Bi => pair_format_of(scalar),
            VectorSize::Tri => triple_format_of(scalar),
            VectorSize::Quad => quad_format_of(scalar),
        },
        _ => None,
    }
}

fn scalar_format(scalar: Scalar) -> (r: Option<VertexFormat>)
    ensures
        r == scalar_format_of(scalar),
{
    match scalar.kind {
        ScalarKind::Sint => if scalar.width == 4 {
            Some(VertexFormat::Sint32)
        } else {
            None
        },
        ScalarKind::Uint => if scalar.width == 4 {
            Some(VertexFormat::Uint32)
        } else {
            None
        },
        ScalarKind::Float => if scalar.width == 4 {
            Some(VertexFormat::Float32)
        } else if scalar.width == 8 {
            Some(VertexFormat::Float64)
        } else {
            None
        },
        _ => None,
    }
}

fn pair_format(scalar: Scalar) -> (r: Option<VertexFormat>)
    ensures
        r == pair_format_of(scalar),
{
    match scalar.kind {
        ScalarKind::Sint => if scalar.width == 1 {
            Some(VertexFormat::Sint8x2)
        } else if scalar.width == 2 {
            Some(VertexFormat::Sint16x2)
        } else if scalar.width == 4 {
            Some(VertexFormat::Sint32x2)
        } else {
            None
        },
        ScalarKind::Uint => if scalar.width == 1 {
            Some(VertexFormat::Uint8x2)
        } else if scalar.width == 2 {
            Some(VertexFormat::Uint16x2)
        } else if scalar.width == 4 {
            Some(VertexFormat::Uint32x2)
        } else {
            None
        },
        ScalarKind::Float => if scalar.width == 4 {
            Some(VertexFormat::Float32x2)
        } else if scalar.width == 8 {
            Some(VertexFormat::Float64x2)
        } else {
            None
        },
        _ => None,
    }
}

fn triple_format(scalar: Scalar) -> (r: Option<VertexFormat>)
    ensures
        r == triple_format_of(scalar),
{
    match scalar.kind {
        ScalarKind::Sint => if scalar.width == 4 {
            Some(VertexFormat::Sint32x3)
        } else {
            None
        },
        ScalarKind::Uint => if scalar.width == 4 {
            Some(VertexFormat::Uint32x3)
        } else {
            None
        },
        ScalarKind::Float => if scalar.width == 4 {
            Some(VertexFormat::Float32x3)
        } else if scalar.width == 8 {
            Some(VertexFormat::Float64x3)
        } else {
            None
        },
        _ => None,
    }
}

fn quad_format(scalar: Scalar) -> (r: Option<VertexFormat>)
    ensures
        r == quad_format_of(scalar),
{
    match scalar.kind {
        ScalarKind::Sint => if scalar.width == 1 {
            Some(VertexFormat::Sint8x4)
        } else if scalar.width == 2 {
            Some(VertexFormat::Sint16x4)
        } else if scalar.width == 4 {
            Some(VertexFormat::Sint32x4)
        } else {
            None
        },
        ScalarKind::Uint => if scalar.width == 1 {
            Some(VertexFormat::Uint8x4)
        } else if scalar.width == 2 {
            Some(VertexFormat::Uint16x4)
        } else if scalar.width == 4 {
            Some(VertexFormat::Uint32x4)
        } else {
            None
        },
        ScalarKind::Float => if scalar.width == 4 {
            Some(VertexFormat::Float32x4)
        } else if scalar.width == 8 {
            Some(VertexFormat::Float64x4)
        } else {
            None
        },
        _ => None,
    }
}

/// The vertex format of a value of the type, or an error where there is none.
pub fn vertex_format(ty: &Type) -> (r: Result<VertexFormat, ReflectionError>)
    ensures
        match vertex_format_of(ty.inner) {
            Some(format) => r == Ok::<VertexFormat, ReflectionError>(format),
            None => r == Err::<VertexFormat, ReflectionError>(
                ReflectionError::UnsupportedVertexFormat,
            ),
        },
{
    let found = match &ty.inner {
        TypeInner::Scalar(scalar) => scalar_format(*scalar),
        TypeInner::Vector { size, scalar } => match size {
            VectorSize::Bi => pair_format(*scalar),
            VectorSize::Tri => triple_format(*scalar),
            VectorSize::Quad => quad_format(*scalar),
        },
        _ => None,
    };
    match found {
        Some(format) => Ok(format),
        None => Err(ReflectionError::UnsupportedVertexFormat),
    }
}

/// A struct that a vertex entry point takes as input: the name and the handle
/// of its type, and for each member that has a location the location and the
/// index of the member.
#[derive(Debug, PartialEq, Eq)]
pub struct VertexInput {
    pub name: Option<String>,
    pub ty: usize,
    pub fields: Vec<(u32, usize)>,
}

/// A vertex input as a value of specifications.
pub struct VertexInputModel {
    pub name: Option<String>,
    pub ty: usize,
    pub fields: Seq<(u32, usize)>,
}

impl View for VertexInput {
    type V = VertexInputModel;

    open spec fn view(&self) -> VertexInputModel {
        VertexInputModel { name: self.name, ty: self.ty, fields: self.fields@ }
    }
}

/// The first entry point of the vertex stage.
pub open spec fn first_vertex(entries: Seq<EntryPoint>) -> Option<int>
    decreases entries.len(),
{
    if entries.len() == 0 {
        None
    } else if entries[0].stage == ShaderStage::Vertex {
        Some(0)
    } else {
        match first_vertex(entries.skip(1)) {
            Some(i) => Some(i + 1),
            None => None,
        }
    }
}

/// The members that have a location, each with its location and its index.
/// Members that are built-in values or have no binding are passed over.
pub open spec fn located(members: Seq<StructMember>) -> Seq<(u32, usize)>
    decreases members.len(),
{
    if members.len() == 0 {
        Seq::empty()
    } else {
        let before = located(members.drop_last());
        match members.last().binding {
            Some(Binding::Location { location }) => before.push(
                (location, (members.len() - 1) as usize),
            ),
            _ => before,
        }
    }
}

/// The structs among the arguments that have no binding of their own.
pub open spec fn inputs_of(args: Seq<FunctionArgument>, types: Seq<Type>) -> Seq<VertexInputModel>
    decreases args.len(),
{
    if args.len() == 0 {
        Seq::empty()
    } else {
        let before = inputs_of(args.drop_last(), types);
        let arg = args.last();
        if arg.binding is None {
            match types[arg.ty as int].inner {
                TypeInner::Struct { members, .. } => before.push(
                    VertexInputModel {
                        name: types[arg.ty as int].name,
                        ty: arg.ty,
                        fields: located(members@),
                    },
                ),
                _ => before,
            }
        } else {
            before
        }
    }
}

/// The vertex inputs of a module: the input structs of its first vertex entry
/// point, and none where it has no such entry point.
pub open spec fn vertex_inputs_of(module: Module) -> Seq<VertexInputModel> {
    match first_vertex(module.entry_points@) {
        Some(i) => inputs_of(module.entry_points@[i].arguments@, module.types@),
        None => Seq::empty(),
    }
}

/// The vertex inputs as values of specifications.
pub open spec fn input_views(inputs: Seq<VertexInput>) -> Seq<VertexInputModel> {
    inputs.map_values(|v: VertexInput| v@)
}

fn find_first_vertex(entries: &Vec<EntryPoint>) -> (r: Option<usize>)
    ensures
        match r {
            Some(i) => first_vertex(entries@) == Some(i as int) && i < entries@.len(),
            None => first_vertex(entries@) is None,
        },
{
    let mut i: usize = 0;
    assert(entries@.skip(0) == entries@);
    while i < entries.len()
        invariant
            i <= entries.len(),
            match first_vertex(entries@.skip(i as int)) {
                Some(k) => first_vertex(entries@) == Some(k + i),
                None => first_vertex(entries@) is None,
            },
        decreases entries.len() - i,
    {
        assert(entries@.skip(i as int).skip(1) == entries@.skip(i + 1));
        assert(entries@.skip(i as int)[0] == entries@[i as int]);
        if entries[i].stage == ShaderStage::Vertex {
            return Some(i);
        }
        i += 1;
    }
    None
}

fn locate(members: &Vec<StructMember>) -> (r: Vec<(u32, usize)>)
    ensures
        r@ == located(members@),
{
    let mut r: Vec<(u32, usize)> = Vec::new();
    let mut k: usize = 0;
    while k < members.len()
        invariant
            k <= members.len(),
            r@ == located(members@.take(k as int)),
        decreases members.len() - k,
    {
        proof {
            assert(members@.take(k + 1).drop_last() == members@.take(k as int));
            assert(members@.take(k + 1).last() == members@[k as int]);
        }
        match members[k].binding {
            Some(Binding::Location { location }) => {
                r.push((location, k));
            },
            _ => {},
        }
        k += 1;
    }
    assert(members@.take(members@.len() as int) == members@);
    r
}

/// The structs that the module's first vertex entry point takes as input.
pub fn get_vertex_input_structs(module: &Module) -> (r: Vec<VertexInput>)
    requires
        module.well_formed(),
    ensures
        input_views(r@) == vertex_inputs_of(*module),
{
    let mut r: Vec<VertexInput> = Vec::new();
    match find_first_vertex(&module.entry_points) {
        None => {
            assert(input_views(r@) =~= Seq::<VertexInputModel>::empty());
        },
        Some(e) => {
            let args = &module.entry_points[e].arguments;
            assert(crate::ir::entry_in_range(module.entry_points@[e as int], module.types@.len()));
            assert(input_views(r@) =~= Seq::<VertexInputModel>::empty());
            let mut a: usize = 0;
            while a < args.len()
                invariant
                    a <= args.len(),
                    forall|k: int| 0 <= k < args@.len() ==> (#[trigger] args@[k]).ty < module.types@.len(),
                    input_views(r@) == inputs_of(args@.take(a as int), module.types@),
                decreases args.len() - a,
            {
                proof {
                    assert(args@.take(a + 1).drop_last() == args@.take(a as int));
                    assert(args@.take(a + 1).last() == args@[a as int]);
                }
                let arg = &args[a];
                let ghost before = input_views(r@);
                if arg.binding.is_none() {
                    let ty = &module.types[arg.ty];
                    match &ty.inner {
                        TypeInner::Struct { members, .. } => {
                            let name = match &ty.name {
                                Some(s) => Some(s.clone()),
                                None => None,
                            };
                            let input = VertexInput { name, ty: arg.ty, fields: locate(members) };
                            r.push(input);
                            assert(input_views(r@) =~= before.push(
                                VertexInputModel {
                                    name: ty.name,
                                    ty: arg.ty,
                                    fields: located(members@),
                                },
                            ));
                        },
                        _ => {},
                    }
                }
                a += 1;
            }
            assert(args@.take(args@.len() as int) == args@);
        },
    }
    r
}

/// One attribute of a vertex input: its location, its format and the index of
/// the member that holds it.
#[derive(Clone, Copy, Debug, PartialEq, Eq)]
pub struct VertexAttribute {
    pub location: u32,
    pub format: VertexFormat,
    pub member: usize,
}

/// The members of the struct type with the handle, or none where the type is
/// no struct.
pub open spec fn members_of(types: Seq<Type>, ty: usize) -> Seq<StructMember> {
    match types[ty as int].inner {
        TypeInner::Struct { members, .. } => members@,
        _ => Seq::empty(),
    }
}

/// The format of the member of index `member`.
pub open spec fn member_format(types: Seq<Type>, ty: usize, member: usize) -> Option<VertexFormat> {
    vertex_format_of(types[members_of(types, ty)[member as int].ty as int].inner)
}

/// The attributes of a vertex input, one for each of its fields and in their
/// order, or an error where the type of a field has no vertex format.
pub fn vertex_attributes(input: &VertexInput, module: &Module) -> (r: Result<
    Vec<VertexAttribute>,
    ReflectionError,
>)
    requires
        module.well_formed(),
        input.ty < module.types@.len(),
        forall|k: int|
            0 <= k < input.fields@.len() ==> (#[trigger] input.fields@[k]).1 < members_of(
                module.types@,
                input.ty,
            ).len(),
    ensures
        match r {
            Ok(attributes) => {
                &&& attributes@.len() == input.fields@.len()
                &&& forall|k: int|
                    0 <= k < attributes@.len() ==> member_format(
                        module.types@,
                        input.ty,
                        input.fields@[k].1,
                    ) == Some((#[trigger] attributes@[k]).format) && attributes@[k].location
                        == input.fields@[k].0 && attributes@[k].member == input.fields@[k].1
            },
            Err(e) => e == ReflectionError::UnsupportedVertexFormat && exists|k: int|
                0 <= k < input.fields@.len() && member_format(
                    module.types@,
                    input.ty,
                    (#[trigger] input.fields@[k]).1,
                ) is None,
        },
{
    let mut attributes: Vec<VertexAttribute> = Vec::new();
    match &module.types[input.ty].inner {
        TypeInner::Struct { members, .. } => {
            assert(crate::ir::type_in_range(module.types@[input.ty as int], module.types@.len()));
            let mut k: usize = 0;
            while k < input.fields.len()
                invariant
                    k <= input.fields.len(),
                    input.ty < module.types@.len(),
                    members@ == members_of(module.types@, input.ty),
                    forall|j: int| 0 <= j < members@.len() ==> (#[trigger] members@[j]).ty < module.types@.len(),
                    forall|j: int|
                        0 <= j < input.fields@.len() ==> (#[trigger] input.fields@[j]).1
                            < members@.len(),
                    attributes@.len() == k,
                    forall|j: int|
                        0 <= j < k ==> member_format(module.types@, input.ty, input.fields@[j].1)
                            == Some((#[trigger] attributes@[j]).format) && attributes@[j].location
                            == input.fields@[j].0 && attributes@[j].member == input.fields@[j].1,
                decreases input.fields.len() - k,
            {
                let (location, member) = input.fields[k];
                match vertex_format(&module.types[members[member].ty]) {
                    Ok(format) => {
                        attributes.push(VertexAttribute { location, format, member });
                    },
                    Err(e) => {
                        assert(member_format(module.types@, input.ty, input.fields@[k as int].1) is None);
                        return Err(e);
                    },
                }
                k += 1;
            }
            Ok(attributes)
        },
        _ => {
            proof {
                if input.fields@.len() > 0 {
                    assert(input.fields@[0].1 < members_of(module.types@, input.ty).len());
                }
            }
            Ok(attributes)
        },
    }
}

/// How many of the members have a location.
pub open spec fn count_located(members: Seq<StructMember>) -> nat
    decreases members.len(),
{
    if members.len() == 0 {
        0
    } else {
        count_located(members.drop_last()) + if members.last().binding matches Some(
            Binding::Location { .. },
        ) {
            1nat
        } else {
            0nat
        }
    }
}

/// The number of render targets of an entry point: one where its result has a
/// location, the number of located members where the result is a struct
/// without a binding of its own, and none else.
pub open spec fn target_count_of(entry: EntryPoint, types: Seq<Type>) -> nat {
    match entry.result {
        Some(result) => match result.binding {
            Some(Binding::Location { .. }) => 1,
            Some(Binding::BuiltIn) => 0,
            None => count_located(members_of(types, result.ty)),
        },
        None => 0,
    }
}

/// The number of render targets that a fragment entry point writes.
pub fn fragment_target_count(module: &Module, entry: &EntryPoint) -> (n: usize)
    requires
        crate::ir::entry_in_range(*entry, module.types@.len()),
    ensures
        n == target_count_of(*entry, module.types@),
{
    match &entry.result {
        Some(result) => match result.binding {
            Some(Binding::Location { .. }) => 1,
            Some(Binding::BuiltIn) => 0,
            None => match &module.types[result.ty].inner {
                TypeInner::Struct { members, .. } => {
                    let mut n: usize = 0;
                    let mut k: usize = 0;
                    while k < members.len()
                        invariant
                            k <= members.len(),
                            n <= k,
                            n == count_located(members@.take(k as int)),
                        decreases members.len() - k,
                    {
                        proof {
                            assert(members@.take(k + 1).drop_last() == members@.take(k as int));
                            assert(members@.take(k + 1).last() == members@[k as int]);
                        }
                        match members[k].binding {
                            Some(Binding::Location { .. }) => {
                                n += 1;
                            },
                            _ => {},
                        }
                        k += 1;
                    }
                    assert(members@.take(members@.len() as int) == members@);
                    n
                },
                _ => 0,
            },
        },
        None => 0,
    }
}

} // verus!
