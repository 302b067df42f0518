//! The constants of a module whose values can be given when a pipeline is made.

use crate::ir::{Module, Override, Scalar, ScalarKind, Type, TypeInner};
use crate::text::{decimal, push_decimal, string_of};
use vstd::prelude::*;

verus! {

/// An overridable constant: its name, the key under which a value is given
/// for it, whether the shader gives it a value of its own, so that the caller
/// may leave it out, and whether it is a boolean, which is handed over as 1
/// or 0.
#[derive(Debug, PartialEq, Eq)]
pub struct OverridableConstant {
    pub name: String,
    pub key: String,
    pub ty: usize,
    pub has_default: bool,
    pub is_bool: bool,
}

/// The key of an overridable constant: its id in decimal where it has one,
/// its name else.
pub open spec fn override_key_of(o: Override) -> Seq<char> {
    match o.id {
        Some(id) => decimal(id as nat),
        None => o.name@,
    }
}

/// Whether the type is the boolean scalar.
pub open spec fn is_bool_type(ty: Type) -> bool {
    ty.inner matches TypeInner::Scalar(s) && s.kind == ScalarKind::Bool
}

/// The key under which a value for the constant is given.
pub fn override_key(o: &Override) -> (key: String)
    ensures
        key@ == override_key_of(*o),
{
    match o.id {
        Some(id) => {
            let mut out: Vec<char> = Vec::new();
            push_decimal(&mut out, id as u32);
            string_of(&out)
        },
        None => o.name.clone(),
    }
}

fn type_is_bool(ty: &Type) -> (b: bool)
    ensures
        b == is_bool_type(*ty),
{
    match &ty.inner {
        TypeInner::Scalar(s) => s.kind == ScalarKind::Bool,
        _ => false,
    }
}

/// The overridable constants of the module, in the order of their declaration.
pub fn pipeline_overridable_constants(module: &Module) -> (r: Vec<OverridableConstant>)
    requires
        module.well_formed(),
    ensures
        r@.len() == module.overrides@.len(),
        forall|i: int|
            0 <= i < r@.len() ==> {
                let c = #[trigger] r@[i];
                let o = module.overrides@[i];
                &&& c.name@ == o.name@
                &&& c.key@ == override_key_of(o)
                &&& c.ty == o.ty
                &&& c.has_default == o.has_default
                &&& c.is_bool == is_bool_type(module.types@[o.ty as int])
            },
{
    let mut r: Vec<OverridableConstant> = Vec::new();
    let mut i: usize = 0;
    while i < module.overrides.len()
        invariant
            i <= module.overrides.len(),
            module.well_formed(),
            r@.len() == i,
            forall|k: int|
                0 <= k < i ==> {
                    let c = #[trigger] r@[k];
                    let o = module.overrides@[k];
                    &&& c.name@ == o.name@
                    &&& c.key@ == override_key_of(o)
                    &&& c.ty == o.ty
                    &&& c.has_default == o.has_default
                    &&& c.is_bool == is_bool_type(module.types@[o.ty as int])
                },
        decreases module.overrides.len() - i,
    {
        let o = &module.overrides[i];
        r.push(
            OverridableConstant {
                name: o.name.clone(),
                key: override_key(o),
                ty: o.ty,
                has_default: o.has_default,
                is_bool: type_is_bool(&module.types[o.ty]),
            },
        );
        i += 1;
    }
    r
}

} // verus!
