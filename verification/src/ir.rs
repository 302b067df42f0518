//! The declarations of a validated shader module, as far as the binding model
//! is derived from them: types, global resources, entry points and overridable
//! constants.
//!
//! A type is known by its handle, its index among the module's types.

use vstd::prelude::*;

verus! {

/// The kind of a number or truth value.
#[derive(Clone, Copy, Debug, PartialEq, Eq, Structural)]
pub enum ScalarKind {
    Sint,
    Uint,
    Float,
    Bool,
    AbstractInt,
    AbstractFloat,
}

/// A scalar type: a kind and a width.
#[derive(Clone, Copy, Debug, PartialEq, Eq)]
pub struct Scalar {
    pub kind: ScalarKind,
    /// The size of a value in bytes.
    pub width: u8,
}

/// The number of components of a vector.
#[derive(Clone, Copy, Debug, PartialEq, Eq, Structural)]
pub enum VectorSize {
    Bi,
    Tri,
    Quad,
}

/// The length of an array: fixed, or known only when the shader runs.
#[derive(Clone, Copy, Debug, PartialEq, Eq, Structural)]
pub enum ArraySize {
    Constant(u32),
    Dynamic,
}

/// The dimensions of an image.
#[derive(Clone, Copy, Debug, PartialEq, Eq, Structural)]
pub enum ImageDimension {
    D1,
    D2,
    D3,
    Cube,
}

/// How a storage resource is reached by the shader.
#[derive(Clone, Copy, Debug, PartialEq, Eq)]
pub struct StorageAccess {
    pub load: bool,
    pub store: bool,
}

/// What an image is used as.
#[derive(Clone, Debug, PartialEq, Eq)]
pub enum ImageClass {
    Sampled { kind: ScalarKind, multi: bool },
    Depth { multi: bool },
    /// A storage image; `format` is the name of its texel format.
    Storage { format: String, access: StorageAccess },
}

/// Where a variable lives.
#[derive(Clone, Copy, Debug, PartialEq, Eq)]
pub enum AddressSpace {
    Function,
    Private,
    WorkGroup,
    Uniform,
    Storage { access: StorageAccess },
    Handle,
    PushConstant,
}

/// How a value enters or leaves a shader stage.
#[derive(Clone, Copy, Debug, PartialEq, Eq)]
pub enum Binding {
    BuiltIn,
    Location { location: u32 },
}

/// A member of a struct.
#[derive(Clone, Debug, PartialEq, Eq)]
pub struct StructMember {
    pub name: Option<String>,
    pub ty: usize,
    pub binding: Option<Binding>,
    pub offset: u32,
}

/// The shape of a type.
#[derive(Clone, Debug, PartialEq, Eq)]
pub enum TypeInner {
    Scalar(Scalar),
    Vector { size: VectorSize, scalar: Scalar },
    Matrix { columns: VectorSize, rows: VectorSize, scalar: Scalar },
    Atomic(Scalar),
    Pointer { base: usize, space: AddressSpace },
    ValuePointer { size: Option<VectorSize>, scalar: Scalar, space: AddressSpace },
    Array { base: usize, size: ArraySize, stride: u32 },
    Struct { members: Vec<StructMember>, span: u32 },
    Image { dim: ImageDimension, arrayed: bool, class: ImageClass },
    Sampler { comparison: bool },
    AccelerationStructure,
    RayQuery,
    BindingArray { base: usize, size: ArraySize },
}

/// A type of the module, with the layout of its values.
#[derive(Clone, Debug, PartialEq, Eq)]
pub struct Type {
    pub name: Option<String>,
    pub inner: TypeInner,
    /// The size of a value in bytes, where the type has a fixed size.
    pub size: u32,
    /// The alignment of a value in bytes.
    pub alignment: u32,
}

/// The slot of a resource: the group and the binding within it.
#[derive(Clone, Copy, Debug, PartialEq, Eq)]
pub struct ResourceBinding {
    pub group: u32,
    pub binding: u32,
}

/// A variable of the module; a resource where it has a binding.
#[derive(Clone, Debug, PartialEq, Eq)]
pub struct GlobalVariable {
    pub name: Option<String>,
    pub space: AddressSpace,
    pub binding: Option<ResourceBinding>,
    pub ty: usize,
}

/// The stage of a pipeline that an entry point belongs to.
#[derive(Clone, Copy, Debug, PartialEq, Eq, Structural)]
pub enum ShaderStage {
    Vertex,
    Fragment,
    Compute,
}

/// An argument of an entry point.
#[derive(Clone, Debug, PartialEq, Eq)]
pub struct FunctionArgument {
    pub name: Option<String>,
    pub ty: usize,
    pub binding: Option<Binding>,
}

/// What an entry point returns.
#[derive(Clone, Debug, PartialEq, Eq)]
pub struct FunctionResult {
    pub ty: usize,
    pub binding: Option<Binding>,
}

/// An entry point of the module.
#[derive(Clone, Debug, PartialEq, Eq)]
pub struct EntryPoint {
    pub name: String,
    pub stage: ShaderStage,
    pub arguments: Vec<FunctionArgument>,
    pub result: Option<FunctionResult>,
}

/// A constant whose value can be given when a pipeline is made.
#[derive(Clone, Debug, PartialEq, Eq)]
pub struct Override {
    pub name: String,
    pub id: Option<u16>,
    pub ty: usize,
    /// Whether the shader gives the constant a value of its own.
    pub has_default: bool,
}

/// The declarations of a shader module.
#[derive(Clone, Debug, PartialEq, Eq)]
pub struct Module {
    pub types: Vec<Type>,
    pub global_variables: Vec<GlobalVariable>,
    pub entry_points: Vec<EntryPoint>,
    pub overrides: Vec<Override>,
}

/// Whether the handles that the type holds are handles of the module's types.
pub open spec fn type_in_range(ty: Type, count: nat) -> bool {
    match ty.inner {
        TypeInner::Pointer { base, .. } => base < count,
        TypeInner::Array { base, .. } => base < count,
        TypeInner::BindingArray { base, .. } => base < count,
        TypeInner::Struct { members, .. } => forall|k: int|
            0 <= k < members@.len() ==> (#[trigger] members@[k]).ty < count,
        _ => true,
    }
}

/// Whether the handles that the entry point holds are handles of the module's types.
pub open spec fn entry_in_range(entry: EntryPoint, count: nat) -> bool {
    &&& forall|k: int|
        0 <= k < entry.arguments@.len() ==> (#[trigger] entry.arguments@[k]).ty < count
    &&& entry.result matches Some(r) ==> r.ty < count
}

impl Module {
    /// Whether every handle in the module is the handle of one of its types.
    pub open spec fn well_formed(&self) -> bool {
        let count = self.types@.len();
        &&& forall|t: int| 0 <= t < count ==> type_in_range(#[trigger] self.types@[t], count)
        &&& forall|g: int|
            0 <= g < self.global_variables@.len() ==> (#[trigger] self.global_variables@[g]).ty
                < count
        &&& forall|e: int|
            0 <= e < self.entry_points@.len() ==> entry_in_range(
                #[trigger] self.entry_points@[e],
                count,
            )
        &&& forall|o: int|
            0 <= o < self.overrides@.len() ==> (#[trigger] self.overrides@[o]).ty < count
    }

    /// Tests whether every handle in the module is the handle of one of its types.
    #[verifier::loop_isolation(false)]
    pub fn is_well_formed(&self) -> (b: bool)
        ensures
            b == self.well_formed(),
    {
        let count = self.types.len();
        let mut t: usize = 0;
        while t < count
            invariant
                t <= count,
                count == self.types@.len(),
                forall|k: int| 0 <= k < t ==> type_in_range(#[trigger] self.types@[k], count as nat),
            decreases count - t,
        {
            if !type_is_in_range(&self.types[t], count) {
                return false;
            }
            t += 1;
        }
        let mut g: usize = 0;
        while g < self.global_variables.len()
            invariant
                g <= self.global_variables.len(),
                count == self.types@.len(),
                forall|k: int| 0 <= k < g ==> (#[trigger] self.global_variables@[k]).ty < count,
            decreases self.global_variables.len() - g,
        {
            if self.global_variables[g].ty >= count {
                return false;
            }
            g += 1;
        }
        let mut e: usize = 0;
        while e < self.entry_points.len()
            invariant
                e <= self.entry_points.len(),
                count == self.types@.len(),
                forall|k: int|
                    0 <= k < e ==> entry_in_range(#[trigger] self.entry_points@[k], count as nat),
            decreases self.entry_points.len() - e,
        {
            if !entry_is_in_range(&self.entry_points[e], count) {
                return false;
            }
            e += 1;
        }
        let mut o: usize = 0;
        while o < self.overrides.len()
            invariant
                o <= self.overrides.len(),
                count == self.types@.len(),
                forall|k: int| 0 <= k < o ==> (#[trigger] self.overrides@[k]).ty < count,
            decreases self.overrides.len() - o,
        {
            if self.overrides[o].ty >= count {
                return false;
            }
            o += 1;
        }
        true
    }
}

fn type_is_in_range(ty: &Type, count: usize) -> (b: bool)
    ensures
        b == type_in_range(*ty, count as nat),
{
    match &ty.inner {
        TypeInner::Pointer { base, .. } => *base < count,
        TypeInner::Array { base, .. } => *base < count,
        TypeInner::BindingArray { base, .. } => *base < count,
        TypeInner::Struct { members, .. } => {
            let mut k: usize = 0;
            while k < members.len()
                invariant
                    k <= members.len(),
                    ty.inner matches TypeInner::Struct { members: m, .. } && m == *members,
                    forall|j: int| 0 <= j < k ==> (#[trigger] members@[j]).ty < count,
                decreases members.len() - k,
            {
                if members[k].ty >= count {
                    return false;
                }
                k += 1;
            }
            true
        },
        _ => true,
    }
}

fn entry_is_in_range(entry: &EntryPoint, count: usize) -> (b: bool)
    ensures
        b == entry_in_range(*entry, count as nat),
{
    let mut k: usize = 0;
    while k < entry.arguments.len()
        invariant
            k <= entry.arguments.len(),
            forall|j: int| 0 <= j < k ==> (#[trigger] entry.arguments@[j]).ty < count,
        decreases entry.arguments.len() - k,
    {
        if entry.arguments[k].ty >= count {
            return false;
        }
        k += 1;
    }
    match &entry.result {
        Some(r) => r.ty < count,
        None => true,
    }
}

} // verus!
