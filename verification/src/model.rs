//! The binding model of a shader module: all that the host has to know of it,
//! put together from the passes over its declarations.

use crate::bind_group::{
    duplicate_at, get_bind_group_data, group_count, in_group, CreateModuleError, GroupBinding,
    GroupData,
};
use crate::consts::{is_bool_type, override_key_of, pipeline_overridable_constants, OverridableConstant};
use crate::ir::{EntryPoint, GlobalVariable, Module, ShaderStage};
use crate::names::{
    entry_constant_name, entry_point_constants, pascal_case, sanitize_and_pascal_case, sanitized,
};
use crate::options::WgslBindgenOption;
use crate::structs::{describes, selection, structs_items, StructDescriptor};
use crate::vertex::{
    fragment_target_count, get_vertex_input_structs, input_views, member_format, members_of,
    target_count_of, vertex_attributes, vertex_inputs_of, VertexAttribute, VertexInput,
    VertexInputModel,
};
use crate::wgsl::{
    bind_group_layout_entry, has_stage, layout_entry_of, shader_stages, BindGroupLayoutEntry,
    ReflectionError, ShaderStages,
};
use vstd::prelude::*;

verus! {

/// Why a module has no binding model.
#[derive(Clone, Copy, Debug, PartialEq, Eq)]
pub enum ModelError {
    /// The groups and bindings of the resources are not in order.
    Groups(CreateModuleError),
    /// A declaration has no counterpart on the host.
    Reflection(ReflectionError),
}

/// An entry point: its name, the name of the constant that holds its name, its
/// stage, and the number of its render targets, which is 0 for an entry point
/// that is not of the fragment stage.
#[derive(Debug, PartialEq, Eq)]
pub struct EntryPointInfo {
    pub name: String,
    pub constant_name: String,
    pub stage: ShaderStage,
    pub target_count: usize,
}

/// A vertex input with the attributes of its fields.
#[derive(Debug, PartialEq, Eq)]
pub struct VertexInputLayout {
    pub input: VertexInput,
    pub attributes: Vec<VertexAttribute>,
}

/// The binding model of a module.
#[derive(Debug, PartialEq, Eq)]
pub struct BindingModel {
    /// The name of the module.
    pub module_name: String,
    /// The name under which the module's items are generated.
    pub entry_name: String,
    /// The stages of the module's entry points.
    pub stages: ShaderStages,
    /// For each group, in the order of the groups, the layout entries of its
    /// resources.
    pub bind_groups: Vec<Vec<BindGroupLayoutEntry>>,
    pub structs: Vec<StructDescriptor>,
    pub vertex_inputs: Vec<VertexInputLayout>,
    pub overridable_constants: Vec<OverridableConstant>,
    pub entry_points: Vec<EntryPointInfo>,
}

/// Whether the groups of the bound resources run from 0 without a gap.
pub open spec fn consecutive(globals: Seq<GlobalVariable>) -> bool {
    forall|g: int| 0 <= g < group_count(globals) ==> #[trigger] in_group(globals, g as nat).len() > 0
}

/// Whether no resource has the group and binding of an earlier one.
pub open spec fn unrepeated(globals: Seq<GlobalVariable>) -> bool {
    forall|j: int| 0 <= j < globals.len() ==> !duplicate_at(globals, j)
}

/// The stages of the module's entry points.
pub open spec fn stages_of(module: Module) -> ShaderStages {
    ShaderStages {
        vertex: has_stage(module.entry_points@, ShaderStage::Vertex),
        fragment: has_stage(module.entry_points@, ShaderStage::Fragment),
        compute: has_stage(module.entry_points@, ShaderStage::Compute),
    }
}

/// Whether the entries are the layout entries of the resources of the group.
pub open spec fn is_group(module: Module, group: Seq<GroupBinding>, entries: Seq<BindGroupLayoutEntry>) -> bool {
    &&& entries.len() == group.len()
    &&& forall|k: int|
        0 <= k < group.len() ==> layout_entry_of(module.types@, stages_of(module), group[k]) == Ok::<
            BindGroupLayoutEntry,
            ReflectionError,
        >(#[trigger] entries[k])
}

/// Whether the layout holds the attributes of the input of the module.
pub open spec fn is_vertex_layout(module: Module, input: VertexInputModel, layout: VertexInputLayout) -> bool {
    &&& layout.input@ == input
    &&& layout.attributes@.len() == input.fields.len()
    &&& forall|k: int|
        0 <= k < input.fields.len() ==> {
            let a = #[trigger] layout.attributes@[k];
            &&& a.location == input.fields[k].0
            &&& a.member == input.fields[k].1
            &&& member_format(module.types@, input.ty, input.fields[k].1) == Some(a.format)
        }
}

/// Whether the info is that of the entry point.
pub open spec fn is_entry_info(module: Module, entry: EntryPoint, info: EntryPointInfo) -> bool {
    &&& info.name@ == entry.name@
    &&& info.constant_name@ == entry_constant_name(entry.name@)
    &&& info.stage == entry.stage
    &&& info.target_count == if entry.stage == ShaderStage::Fragment {
        target_count_of(entry, module.types@)
    } else {
        0
    }
}

/// Whether `model` is the binding model of the module under the options.
pub open spec fn is_model(
    module_name: Seq<char>,
    module: Module,
    options: WgslBindgenOption,
    model: BindingModel,
) -> bool {
    let globals = module.global_variables@;
    let chosen = selection(module, options.type_map@, module.types@.len());
    let inputs = vertex_inputs_of(module);
    &&& model.module_name@ == module_name
    &&& model.entry_name@ == pascal_case(sanitized(module_name))
    &&& model.stages == stages_of(module)
    &&& model.bind_groups@.len() == group_count(globals)
    &&& forall|g: int|
        0 <= g < model.bind_groups@.len() ==> is_group(
            module,
            in_group(globals, g as nat),
            (#[trigger] model.bind_groups@[g])@,
        )
    &&& model.structs@.len() == chosen.len()
    &&& forall|k: int|
        0 <= k < chosen.len() ==> describes(module, options, chosen[k], #[trigger] model.structs@[k])
    &&& model.vertex_inputs@.len() == inputs.len()
    &&& forall|k: int|
        0 <= k < inputs.len() ==> is_vertex_layout(
            module,
            inputs[k],
            #[trigger] model.vertex_inputs@[k],
        )
    &&& model.overridable_constants@.len() == module.overrides@.len()
    &&& forall|i: int|
        0 <= i < module.overrides@.len() ==> {
            let c = #[trigger] model.overridable_constants@[i];
            let o = module.overrides@[i];
            &&& c.name@ == o.name@
            &&& c.key@ == override_key_of(o)
            &&& c.ty == o.ty
            &&& c.has_default == o.has_default
            &&& c.is_bool == is_bool_type(module.types@[o.ty as int])
        }
    &&& model.entry_points@.len() == module.entry_points@.len()
    &&& forall|e: int|
        0 <= e < module.entry_points@.len() ==> is_entry_info(
            module,
            module.entry_points@[e],
            #[trigger] model.entry_points@[e],
        )
}

/// Whether a declaration of the module has no counterpart on the host, for the
/// reason that `e` gives: a resource without a kind of binding, or a vertex
/// attribute without a format.
pub open spec fn fails_with(module: Module, e: ReflectionError) -> bool {
    let globals = module.global_variables@;
    ||| exists|g: int, k: int|
        0 <= g < group_count(globals) && 0 <= k < in_group(globals, g as nat).len()
            && #[trigger] layout_entry_of(
            module.types@,
            stages_of(module),
            in_group(globals, g as nat)[k],
        ) == Err::<BindGroupLayoutEntry, ReflectionError>(e)
    ||| e == ReflectionError::UnsupportedVertexFormat && exists|i: int, k: int|
        0 <= i < vertex_inputs_of(module).len() && 0 <= k < vertex_inputs_of(module)[i].fields.len()
            && #[trigger] member_format(
            module.types@,
            vertex_inputs_of(module)[i].ty,
            vertex_inputs_of(module)[i].fields[k].1,
        ) is None
}

/// The types of the resources of a group are types of the module.
pub proof fn lemma_group_in_range(globals: Seq<GlobalVariable>, group: nat, count: nat)
    requires
        forall|j: int| 0 <= j < globals.len() ==> (#[trigger] globals[j]).ty < count,
    ensures
        forall|k: int|
            0 <= k < in_group(globals, group).len() ==> (#[trigger] in_group(
                globals,
                group,
            )[k]).binding_type < count,
    decreases globals.len(),
{
    if globals.len() > 0 {
        let front = globals.drop_last();
        assert forall|j: int| 0 <= j < front.len() implies (#[trigger] front[j]).ty < count by {
            assert(front[j] == globals[j]);
        }
        lemma_group_in_range(front, group, count);
        assert(globals.last() == globals[globals.len() - 1]);
    }
}

/// The fields of a vertex input are members of its struct.
pub proof fn lemma_located_in_range(members: Seq<crate::ir::StructMember>)
    requires
        members.len() <= usize::MAX,
    ensures
        forall|k: int|
            0 <= k < crate::vertex::located(members).len() ==> (#[trigger] crate::vertex::located(
                members,
            )[k]).1 < members.len(),
    decreases members.len(),
{
    if members.len() > 0 {
        let front = members.drop_last();
        lemma_located_in_range(front);
        let all = crate::vertex::located(members);
        let before = crate::vertex::located(front);
        assert forall|k: int| 0 <= k < all.len() implies (#[trigger] all[k]).1 < members.len() by {
            if k < before.len() {
                assert(all[k] == before[k]);
                assert(before[k].1 < front.len());
            } else {
                assert(all[k].1 == (members.len() - 1) as usize);
            }
        }
    }
}

/// The vertex inputs are structs of the module, and their fields are members
/// of these structs.
pub proof fn lemma_inputs_in_range(args: Seq<crate::ir::FunctionArgument>, types: Seq<crate::ir::Type>)
    requires
        forall|j: int| 0 <= j < args.len() ==> (#[trigger] args[j]).ty < types.len(),
    ensures
        forall|i: int|
            0 <= i < crate::vertex::inputs_of(args, types).len() ==> {
                let input = #[trigger] crate::vertex::inputs_of(args, types)[i];
                &&& input.ty < types.len()
                &&& forall|k: int|
                    0 <= k < input.fields.len() ==> (#[trigger] input.fields[k]).1 < members_of(
                        types,
                        input.ty,
                    ).len()
            },
    decreases args.len(),
{
    if args.len() > 0 {
        let front = args.drop_last();
        assert forall|j: int| 0 <= j < front.len() implies (#[trigger] front[j]).ty < types.len() by {
            assert(front[j] == args[j]);
        }
        lemma_inputs_in_range(front, types);
        let arg = args.last();
        assert(arg == args[args.len() - 1]);
        match types[arg.ty as int].inner {
            crate::ir::TypeInner::Struct { members, .. } => {
                vstd::std_specs::vec::axiom_spec_len(&members);
                lemma_located_in_range(members@);
            },
            _ => {},
        }
    }
}

fn group_entries(module: &Module, stages: ShaderStages, group: &GroupData) -> (r: Result<
    Vec<BindGroupLayoutEntry>,
    ReflectionError,
>)
    requires
        module.well_formed(),
        stages == stages_of(*module),
        forall|k: int|
            0 <= k < group.bindings@.len() ==> (#[trigger] group.bindings@[k]).binding_type
                < module.types@.len(),
    ensures
        match r {
            Ok(entries) => is_group(*module, group.bindings@, entries@),
            Err(e) => exists|k: int|
                0 <= k < group.bindings@.len() && #[trigger] layout_entry_of(
                    module.types@,
                    stages,
                    group.bindings@[k],
                ) == Err::<BindGroupLayoutEntry, ReflectionError>(e),
        },
{
    let mut entries: Vec<BindGroupLayoutEntry> = Vec::new();
    let mut k: usize = 0;
    while k < group.bindings.len()
        invariant
            k <= group.bindings.len(),
            module.well_formed(),
            stages == stages_of(*module),
            forall|j: int|
                0 <= j < group.bindings@.len() ==> (#[trigger] group.bindings@[j]).binding_type
                    < module.types@.len(),
            entries@.len() == k,
            forall|j: int|
                0 <= j < k ==> layout_entry_of(module.types@, stages, group.bindings@[j]) == Ok::<
                    BindGroupLayoutEntry,
                    ReflectionError,
                >(#[trigger] entries@[j]),
        decreases group.bindings.len() - k,
    {
        match bind_group_layout_entry(module, stages, &group.bindings[k]) {
            Ok(entry) => {
                entries.push(entry);
            },
            Err(e) => {
                return Err(e);
            },
        }
        k += 1;
    }
    Ok(entries)
}

fn entry_infos(module: &Module) -> (r: Vec<EntryPointInfo>)
    requires
        module.well_formed(),
    ensures
        r@.len() == module.entry_points@.len(),
        forall|e: int|
            0 <= e < module.entry_points@.len() ==> is_entry_info(
                *module,
                module.entry_points@[e],
                #[trigger] r@[e],
            ),
{
    let constants = entry_point_constants(module);
    let mut r: Vec<EntryPointInfo> = Vec::new();
    let mut e: usize = 0;
    while e < module.entry_points.len()
        invariant
            e <= module.entry_points.len(),
            module.well_formed(),
            constants@.len() == module.entry_points@.len(),
            forall|i: int|
                0 <= i < constants@.len() ==> (#[trigger] constants@[i]).0@ == entry_constant_name(
                    module.entry_points@[i].name@,
                ),
            r@.len() == e,
            forall|i: int|
                0 <= i < e ==> is_entry_info(*module, module.entry_points@[i], #[trigger] r@[i]),
        decreases module.entry_points.len() - e,
    {
        let entry = &module.entry_points[e];
        let target_count = match entry.stage {
            ShaderStage::Fragment => fragment_target_count(module, entry),
            _ => 0,
        };
        r.push(
            EntryPointInfo {
                name: entry.name.clone(),
                constant_name: constants[e].0.clone(),
                stage: entry.stage,
                target_count,
            },
        );
        e += 1;
    }
    r
}

fn vertex_layouts(module: &Module) -> (r: Result<Vec<VertexInputLayout>, ReflectionError>)
    requires
        module.well_formed(),
    ensures
        match r {
            Ok(layouts) => {
                &&& layouts@.len() == vertex_inputs_of(*module).len()
                &&& forall|k: int|
                    0 <= k < layouts@.len() ==> is_vertex_layout(
                        *module,
                        vertex_inputs_of(*module)[k],
                        #[trigger] layouts@[k],
                    )
            },
            Err(e) => fails_with_format(*module, e),
        },
{
    let mut inputs = get_vertex_input_structs(module);
    let ghost all = vertex_inputs_of(*module);
    proof {
        match crate::vertex::first_vertex(module.entry_points@) {
            Some(i) => {
                lemma_first_vertex_bound(module.entry_points@);
                assert(crate::ir::entry_in_range(module.entry_points@[i], module.types@.len()));
                lemma_inputs_in_range(module.entry_points@[i].arguments@, module.types@);
            },
            None => {},
        }
    }
    let mut layouts: Vec<VertexInputLayout> = Vec::new();
    let count = inputs.len();
    assert(count == all.len());
    let mut done: usize = 0;
    while inputs.len() > 0
        invariant
            module.well_formed(),
            all == vertex_inputs_of(*module),
            count == all.len(),
            done + inputs@.len() == all.len(),
            input_views(inputs@) == all.take(inputs@.len() as int),
            forall|i: int|
                0 <= i < all.len() ==> {
                    let input = #[trigger] all[i];
                    &&& input.ty < module.types@.len()
                    &&& forall|k: int|
                        0 <= k < input.fields.len() ==> (#[trigger] input.fields[k]).1
                            < members_of(module.types@, input.ty).len()
                },
            layouts@.len() == done,
            forall|k: int|
                0 <= k < done ==> is_vertex_layout(
                    *module,
                    all[all.len() - 1 - k],
                    #[trigger] layouts@[k],
                ),
        decreases inputs@.len(),
    {
        let ghost before = inputs@;
        let input = inputs.pop().unwrap();
        proof {
            let at = before.len() - 1;
            assert(input_views(before)[at] == input@);
            assert(all.take(before.len() as int)[at] == all[at]);
            assert(input@ == all[at]);
            assert(input_views(inputs@) =~= all.take(inputs@.len() as int)) by {
                assert forall|j: int| 0 <= j < inputs@.len() implies input_views(inputs@)[j]
                    == all.take(inputs@.len() as int)[j] by {
                    assert(input_views(before)[j] == before[j]@);
                    assert(inputs@[j] == before[j]);
                }
            }
            assert(all[at].ty < module.types@.len());
            assert forall|k: int| 0 <= k < input.fields@.len() implies (#[trigger] input.fields@[k]).1
                < members_of(module.types@, input.ty).len() by {
                assert(input.fields@[k] == all[at].fields[k]);
            }
        }
        match vertex_attributes(&input, module) {
            Ok(attributes) => {
                layouts.push(VertexInputLayout { input, attributes });
            },
            Err(e) => {
                proof {
                    let at = before.len() - 1;
                    let k = choose|k: int|
                        0 <= k < input.fields@.len() && member_format(
                            module.types@,
                            input.ty,
                            (#[trigger] input.fields@[k]).1,
                        ) is None;
                    assert(member_format(module.types@, all[at].ty, all[at].fields[k].1) is None);
                }
                return Err(e);
            },
        }
        done += 1;
    }
    let mut ordered: Vec<VertexInputLayout> = Vec::new();
    while layouts.len() > 0
        invariant
            all == vertex_inputs_of(*module),
            layouts@.len() + ordered@.len() == all.len(),
            forall|k: int|
                0 <= k < layouts@.len() ==> is_vertex_layout(
                    *module,
                    all[all.len() - 1 - k],
                    #[trigger] layouts@[k],
                ),
            forall|k: int|
                0 <= k < ordered@.len() ==> is_vertex_layout(*module, all[k], #[trigger] ordered@[k]),
        decreases layouts@.len(),
    {
        let ghost before = layouts@;
        let layout = layouts.pop().unwrap();
        proof {
            assert(layout == before[before.len() - 1]);
            assert(is_vertex_layout(*module, all[all.len() - 1 - (before.len() - 1)], layout));
            assert forall|k: int| 0 <= k < layouts@.len() implies is_vertex_layout(
                *module,
                all[all.len() - 1 - k],
                #[trigger] layouts@[k],
            ) by {
                assert(layouts@[k] == before[k]);
            }
        }
        let ghost ordered_before = ordered@;
        ordered.push(layout);
        proof {
            assert forall|k: int| 0 <= k < ordered@.len() implies is_vertex_layout(
                *module,
                all[k],
                #[trigger] ordered@[k],
            ) by {
                if k < ordered_before.len() {
                    assert(ordered@[k] == ordered_before[k]);
                }
            }
        }
    }
    Ok(ordered)
}

/// Whether a field of a vertex input of the module has no format, which is
/// what `e` says.
pub open spec fn fails_with_format(module: Module, e: ReflectionError) -> bool {
    e == ReflectionError::UnsupportedVertexFormat && exists|i: int, k: int|
        0 <= i < vertex_inputs_of(module).len() && 0 <= k < vertex_inputs_of(module)[i].fields.len()
            && #[trigger] member_format(
            module.types@,
            vertex_inputs_of(module)[i].ty,
            vertex_inputs_of(module)[i].fields[k].1,
        ) is None
}

proof fn lemma_first_vertex_bound(entries: Seq<EntryPoint>)
    ensures
        crate::vertex::first_vertex(entries) matches Some(i) ==> 0 <= i < entries.len(),
    decreases entries.len(),
{
    if entries.len() > 0 && entries[0].stage != ShaderStage::Vertex {
        lemma_first_vertex_bound(entries.skip(1));
    }
}

/// The binding model of the module of the name, under the options.
///
/// The groups are looked at first: a repeated binding, and then groups that do
/// not run from 0 without a gap, are reported before anything else. After
/// that every declaration without a counterpart on the host is an error.
pub fn create_binding_model(module_name: &str, module: &Module, options: &WgslBindgenOption) -> (r:
    Result<BindingModel, ModelError>)
    requires
        module.well_formed(),
    ensures
        match r {
            Ok(model) => {
                &&& unrepeated(module.global_variables@)
                &&& consecutive(module.global_variables@)
                &&& is_model(module_name@, *module, *options, model)
            },
            Err(ModelError::Groups(CreateModuleError::DuplicateBinding { binding })) =>
                exists|j: int|
                0 <= j < module.global_variables@.len() && #[trigger] duplicate_at(
                    module.global_variables@,
                    j,
                ) && (forall|k: int| 0 <= k < j ==> !duplicate_at(module.global_variables@, k))
                    && module.global_variables@[j].binding->0.binding == binding,
            Err(ModelError::Groups(CreateModuleError::NonConsecutiveBindGroups)) => unrepeated(
                module.global_variables@,
            ) && !consecutive(module.global_variables@),
            Err(ModelError::Reflection(e)) => {
                &&& unrepeated(module.global_variables@)
                &&& consecutive(module.global_variables@)
                &&& fails_with(*module, e)
            },
        },
{
    let groups = match get_bind_group_data(module) {
        Ok(groups) => groups,
        Err(e) => {
            proof {
                match e {
                    CreateModuleError::NonConsecutiveBindGroups => {
                        let g = choose|g: int|
                            0 <= g < group_count(module.global_variables@) && #[trigger] in_group(
                                module.global_variables@,
                                g as nat,
                            ).len() == 0;
                        assert(!(in_group(module.global_variables@, g as nat).len() > 0));
                    },
                    _ => {},
                }
            }
            return Err(ModelError::Groups(e));
        },
    };
    proof {
        assert forall|g: int| 0 <= g < group_count(module.global_variables@) implies #[trigger] in_group(
            module.global_variables@,
            g as nat,
        ).len() > 0 by {
            assert(groups@[g].bindings@.len() > 0);
        }
    }
    let stages = shader_stages(module);
    let structs = structs_items(module, options);
    let mut bind_groups: Vec<Vec<BindGroupLayoutEntry>> = Vec::new();
    let mut g: usize = 0;
    while g < groups.len()
        invariant
            g <= groups.len(),
            module.well_formed(),
            stages == stages_of(*module),
            groups@.len() == group_count(module.global_variables@),
            unrepeated(module.global_variables@),
            consecutive(module.global_variables@),
            forall|h: int|
                0 <= h < groups@.len() ==> (#[trigger] groups@[h]).bindings@ == in_group(
                    module.global_variables@,
                    h as nat,
                ),
            bind_groups@.len() == g,
            forall|h: int|
                0 <= h < g ==> is_group(
                    *module,
                    in_group(module.global_variables@, h as nat),
                    (#[trigger] bind_groups@[h])@,
                ),
        decreases groups.len() - g,
    {
        proof {
            lemma_group_in_range(module.global_variables@, g as nat, module.types@.len());
            assert(groups@[g as int].bindings@ == in_group(module.global_variables@, g as nat));
        }
        match group_entries(module, stages, &groups[g]) {
            Ok(entries) => {
                bind_groups.push(entries);
            },
            Err(e) => {
                proof {
                    let k = choose|k: int|
                        0 <= k < groups@[g as int].bindings@.len() && #[trigger] layout_entry_of(
                            module.types@,
                            stages,
                            groups@[g as int].bindings@[k],
                        ) == Err::<BindGroupLayoutEntry, ReflectionError>(e);
                    let group: int = g as int;
                    assert(layout_entry_of(
                        module.types@,
                        stages_of(*module),
                        in_group(module.global_variables@, group as nat)[k],
                    ) == Err::<BindGroupLayoutEntry, ReflectionError>(e));
                }
                return Err(ModelError::Reflection(e));
            },
        }
        g += 1;
    }
    let vertex_inputs = match vertex_layouts(module) {
        Ok(layouts) => layouts,
        Err(e) => {
            return Err(ModelError::Reflection(e));
        },
    };
    let overridable_constants = pipeline_overridable_constants(module);
    let entry_points = entry_infos(module);
    let name: Vec<char> = crate::text::chars_of(module_name);
    Ok(
        BindingModel {
            module_name: crate::text::string_of(&name),
            entry_name: sanitize_and_pascal_case(module_name),
            stages,
            bind_groups,
            structs,
            vertex_inputs,
            overridable_constants,
            entry_points,
        },
    )
}

} // verus!
