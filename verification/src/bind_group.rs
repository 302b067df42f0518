//! The groups of a module's resources: which global variables are bound, and
//! to which group and binding.

use crate::ir::{AddressSpace, GlobalVariable, Module, ResourceBinding};
use crate::text::{chars_of, push_all, push_decimal, string_of};
use vstd::prelude::*;

verus! {

/// Errors while the binding model of a shader module is made.
#[derive(Clone, Copy, Debug, PartialEq, Eq)]
pub enum CreateModuleError {
    /// Bind groups must be consecutive and start from 0.
    NonConsecutiveBindGroups,
    /// Each resource must have a binding index of its own within its group.
    DuplicateBinding { binding: u32 },
}

impl CreateModuleError {
    /// The error in words.
    pub open spec fn message_text(self) -> Seq<char> {
        match self {
            CreateModuleError::NonConsecutiveBindGroups =>
                "bind groups are non-consecutive or do not start from 0"@,
            CreateModuleError::DuplicateBinding { binding } =>
                "duplicate binding found with index `"@ + crate::text::decimal(binding as nat) + "`"@,
        }
    }

    /// The error in words.
    pub fn message(&self) -> (s: String)
        ensures
            s@ == self.message_text(),
    {
        match self {
            CreateModuleError::NonConsecutiveBindGroups => string_of(
                &chars_of("bind groups are non-consecutive or do not start from 0"),
            ),
            CreateModuleError::DuplicateBinding { binding } => {
                let mut out = chars_of("duplicate binding found with index `");
                push_decimal(&mut out, *binding);
                push_all(&mut out, &chars_of("`"));
                string_of(&out)
            },
        }
    }
}

/// A bound resource: its name, its binding within the group, the handle of its
/// type and its address space.
#[derive(Debug, PartialEq, Eq)]
pub struct GroupBinding {
    pub name: Option<String>,
    pub binding_index: u32,
    pub binding_type: usize,
    pub address_space: AddressSpace,
}

/// The resources of one group, in the order of their declaration.
#[derive(Debug, PartialEq, Eq)]
pub struct GroupData {
    pub bindings: Vec<GroupBinding>,
}

/// The resource that a bound global variable is.
pub open spec fn entry_of(global: GlobalVariable, slot: ResourceBinding) -> GroupBinding {
    GroupBinding {
        name: global.name,
        binding_index: slot.binding,
        binding_type: global.ty,
        address_space: global.space,
    }
}

/// The resources that the global variables bind to `group`, in their order.
pub open spec fn in_group(globals: Seq<GlobalVariable>, group: nat) -> Seq<GroupBinding>
    decreases globals.len(),
{
    if globals.len() == 0 {
        Seq::empty()
    } else {
        let before = in_group(globals.drop_last(), group);
        match globals.last().binding {
            Some(slot) => if slot.group == group {
                before.push(entry_of(globals.last(), slot))
            } else {
                before
            },
            None => before,
        }
    }
}

/// Whether the global variable `j` has the group and binding of an earlier one.
pub open spec fn duplicate_at(globals: Seq<GlobalVariable>, j: int) -> bool {
    globals[j].binding matches Some(slot) && exists|i: int|
        0 <= i < j && #[trigger] globals[i].binding == Some(slot)
}

/// One more than the highest group that a global variable is bound to, or 0
/// where none is bound.
pub open spec fn group_count(globals: Seq<GlobalVariable>) -> nat
    decreases globals.len(),
{
    if globals.len() == 0 {
        0
    } else {
        let before = group_count(globals.drop_last());
        match globals.last().binding {
            Some(slot) => if slot.group + 1 > before {
                (slot.group + 1) as nat
            } else {
                before
            },
            None => before,
        }
    }
}

fn clone_name(name: &Option<String>) -> (r: Option<String>)
    ensures
        r == *name,
{
    match name {
        Some(s) => Some(s.clone()),
        None => None,
    }
}

fn same_slot(binding: &Option<ResourceBinding>, slot: ResourceBinding) -> (b: bool)
    ensures
        b == (*binding == Some(slot)),
{
    match binding {
        Some(other) => other.group == slot.group && other.binding == slot.binding,
        None => false,
    }
}

fn first_duplicate(globals: &Vec<GlobalVariable>) -> (r: Option<u32>)
    ensures
        match r {
            Some(binding) => exists|j: int|
                0 <= j < globals@.len() && #[trigger] duplicate_at(globals@, j) && (forall|k: int|
                    0 <= k < j ==> !duplicate_at(globals@, k)) && globals@[j].binding->0.binding
                    == binding,
            None => forall|j: int| 0 <= j < globals@.len() ==> !duplicate_at(globals@, j),
        },
{
    let mut j: usize = 0;
    while j < globals.len()
        invariant
            j <= globals.len(),
            forall|k: int| 0 <= k < j ==> !duplicate_at(globals@, k),
        decreases globals.len() - j,
    {
        match globals[j].binding {
            Some(slot) => {
                let mut i: usize = 0;
                while i < j
                    invariant
                        i <= j < globals.len(),
                        forall|k: int| 0 <= k < j ==> !duplicate_at(globals@, k),
                        globals@[j as int].binding == Some(slot),
                        forall|k: int| 0 <= k < i ==> globals@[k].binding != Some(slot),
                    decreases j - i,
                {
                    if same_slot(&globals[i].binding, slot) {
                        assert(duplicate_at(globals@, j as int));
                        return Some(slot.binding);
                    }
                    i += 1;
                }
            },
            None => {},
        }
        j += 1;
    }
    None
}

fn count_groups(globals: &Vec<GlobalVariable>) -> (n: u64)
    ensures
        n == group_count(globals@),
        n <= u32::MAX + 1,
{
    let mut n: u64 = 0;
    let mut i: usize = 0;
    while i < globals.len()
        invariant
            i <= globals.len(),
            n == group_count(globals@.take(i as int)),
            n <= u32::MAX + 1,
        decreases globals.len() - i,
    {
        proof {
            assert(globals@.take(i + 1).drop_last() == globals@.take(i as int));
            assert(globals@.take(i + 1).last() == globals@[i as int]);
        }
        match globals[i].binding {
            Some(slot) => {
                if slot.group as u64 + 1 > n {
                    n = slot.group as u64 + 1;
                }
            },
            None => {},
        }
        i += 1;
    }
    assert(globals@.take(globals@.len() as int) == globals@);
    n
}

fn collect_group(globals: &Vec<GlobalVariable>, group: u32) -> (r: Vec<GroupBinding>)
    ensures
        r@ == in_group(globals@, group as nat),
{
    let mut r: Vec<GroupBinding> = Vec::new();
    let mut i: usize = 0;
    while i < globals.len()
        invariant
            i <= globals.len(),
            r@ == in_group(globals@.take(i as int), group as nat),
        decreases globals.len() - i,
    {
        proof {
            assert(globals@.take(i + 1).drop_last() == globals@.take(i as int));
            assert(globals@.take(i + 1).last() == globals@[i as int]);
        }
        let global = &globals[i];
        match global.binding {
            Some(slot) => {
                if slot.group == group {
                    r.push(
                        GroupBinding {
                            name: clone_name(&global.name),
                            binding_index: slot.binding,
                            binding_type: global.ty,
                            address_space: global.space,
                        },
                    );
                }
            },
            None => {},
        }
        i += 1;
    }
    assert(globals@.take(globals@.len() as int) == globals@);
    r
}

/// The groups of the module's bound resources, the group of index `g` holding
/// the resources bound to group `g` in the order of their declaration.
///
/// Global variables without a binding are passed over. Two resources with the
/// same group and binding are an error, reported for the first resource that
/// repeats an earlier one; groups that do not run from 0 without a gap are an
/// error where no binding is repeated.
pub fn get_bind_group_data(module: &Module) -> (r: Result<Vec<GroupData>, CreateModuleError>)
    ensures
        ({
            let globals = module.global_variables@;
            match r {
                Ok(groups) => {
                    &&& forall|j: int| 0 <= j < globals.len() ==> !duplicate_at(globals, j)
                    &&& groups@.len() == group_count(globals)
                    &&& forall|g: int|
                        0 <= g < groups@.len() ==> (#[trigger] groups@[g]).bindings@ == in_group(
                            globals,
                            g as nat,
                        ) && groups@[g].bindings@.len() > 0
                },
                Err(CreateModuleError::DuplicateBinding { binding }) => exists|j: int|
                    0 <= j < globals.len() && #[trigger] duplicate_at(globals, j) && (forall|k: int|
                        0 <= k < j ==> !duplicate_at(globals, k)) && globals[j].binding->0.binding
                        == binding,
                Err(CreateModuleError::NonConsecutiveBindGroups) => {
                    &&& forall|j: int| 0 <= j < globals.len() ==> !duplicate_at(globals, j)
                    &&& exists|g: int|
                        0 <= g < group_count(globals) && #[trigger] in_group(globals, g as nat).len()
                            == 0
                },
            }
        }),
{
    let globals = &module.global_variables;
    match first_duplicate(globals) {
        Some(binding) => {
            return Err(CreateModuleError::DuplicateBinding { binding });
        },
        None => {},
    }
    let count = count_groups(globals);
    let mut groups: Vec<GroupData> = Vec::new();
    let mut g: u64 = 0;
    while g < count
        invariant
            g <= count <= u32::MAX + 1,
            groups@.len() == g,
            globals == &module.global_variables,
            count == group_count(globals@),
            forall|j: int| 0 <= j < globals@.len() ==> !duplicate_at(globals@, j),
            forall|h: int|
                0 <= h < groups@.len() ==> (#[trigger] groups@[h]).bindings@ == in_group(
                    globals@,
                    h as nat,
                ) && groups@[h].bindings@.len() > 0,
        decreases count - g,
    {
        let bindings = collect_group(globals, g as u32);
        if bindings.len() == 0 {
            proof {
                let gap: int = g as int;
                assert(in_group(module.global_variables@, gap as nat).len() == 0);
            }
            return Err(CreateModuleError::NonConsecutiveBindGroups);
        }
        groups.push(GroupData { bindings });
        g += 1;
    }
    Ok(groups)
}

} // verus!
