//! Which types a module's global variables use, directly or through pointers,
//! arrays, binding arrays and struct members.

use crate::ir::{Module, Type, TypeInner};
use vstd::prelude::*;

verus! {

/// Whether the type `a` holds the type `b`: as what a pointer points to, as
/// the element of an array or of a binding array, or as a struct member.
pub open spec fn refers_to(types: Seq<Type>, a: int, b: int) -> bool {
    0 <= a < types.len() && match types[a].inner {
        TypeInner::Pointer { base, .. } => base == b,
        TypeInner::Array { base, .. } => base == b,
        TypeInner::BindingArray { base, .. } => base == b,
        TypeInner::Struct { members, .. } => exists|k: int|
            0 <= k < members@.len() && (#[trigger] members@[k]).ty == b,
        _ => false,
    }
}

/// Whether each type of the chain holds the next one.
pub open spec fn chain(types: Seq<Type>, path: Seq<int>) -> bool {
    forall|i: int| 0 <= i < path.len() - 1 ==> refers_to(types, #[trigger] path[i], path[i + 1])
}

/// Whether the chain leads from `a` to `b`.
pub open spec fn leads(types: Seq<Type>, path: Seq<int>, a: int, b: int) -> bool {
    path.len() > 0 && path[0] == a && path.last() == b && chain(types, path)
}

/// Whether the type `t` is reached from the type of a global variable: a chain
/// leads to it from there.
pub open spec fn used_by_global(module: Module, t: int) -> bool {
    exists|g: int, path: Seq<int>|
        0 <= g < module.global_variables@.len() && #[trigger] leads(
            module.types@,
            path,
            module.global_variables@[g].ty as int,
            t,
        )
}

/// Whether all that a marked type holds is marked, but for the types on the
/// stack and the one at hand.
spec fn closed(types: Seq<Type>, marked: Seq<bool>, stack: Seq<usize>, at_hand: Option<usize>) -> bool {
    forall|a: int, b: int|
        0 <= a < marked.len() && marked[a] && !held(stack, a) && !is_at_hand(at_hand, a)
            && #[trigger] refers_to(types, a, b) ==> 0 <= b < marked.len() && marked[b]
}

/// Whether the type `a` is on the stack.
spec fn held(stack: Seq<usize>, a: int) -> bool {
    exists|k: int| 0 <= k < stack.len() && #[trigger] stack[k] as int == a
}

spec fn is_at_hand(at_hand: Option<usize>, a: int) -> bool {
    at_hand matches Some(h) && h as int == a
}

spec fn sound(module: Module, marked: Seq<bool>) -> bool {
    forall|t: int| 0 <= t < marked.len() && #[trigger] marked[t] ==> used_by_global(module, t)
}

spec fn on_stack(marked: Seq<bool>, stack: Seq<usize>) -> bool {
    forall|k: int| 0 <= k < stack.len() ==> (#[trigger] stack[k]) < marked.len() && marked[stack[k] as int]
}

/// How many of the types are not marked.
spec fn unmarked(marked: Seq<bool>) -> nat
    decreases marked.len(),
{
    if marked.len() == 0 {
        0
    } else {
        unmarked(marked.drop_last()) + if marked.last() {
            0nat
        } else {
            1nat
        }
    }
}

proof fn lemma_mark_one(marked: Seq<bool>, t: int)
    requires
        0 <= t < marked.len(),
        !marked[t],
    ensures
        unmarked(marked.update(t, true)) + 1 == unmarked(marked),
    decreases marked.len(),
{
    let after = marked.update(t, true);
    if t == marked.len() - 1 {
        assert(after.drop_last() == marked.drop_last());
    } else {
        assert(after.drop_last() == marked.drop_last().update(t, true));
        lemma_mark_one(marked.drop_last(), t);
    }
}

/// A marked and closed set holds all that a chain leads to from one of its
/// members.
proof fn lemma_closed_holds_all(types: Seq<Type>, marked: Seq<bool>, path: Seq<int>)
    requires
        closed(types, marked, Seq::empty(), None),
        path.len() > 0,
        0 <= path[0] < marked.len(),
        marked[path[0]],
        chain(types, path),
    ensures
        0 <= path.last() < marked.len(),
        marked[path.last()],
    decreases path.len(),
{
    if path.len() > 1 {
        let front = path.drop_last();
        assert forall|i: int| 0 <= i < front.len() - 1 implies refers_to(
            types,
            #[trigger] front[i],
            front[i + 1],
        ) by {
            assert(front[i] == path[i] && front[i + 1] == path[i + 1]);
        }
        lemma_closed_holds_all(types, marked, front);
        let a = front.last();
        assert(a == path[path.len() - 2]);
        assert(refers_to(types, path[path.len() - 2], path[path.len() - 2 + 1]));
        assert(!held(Seq::<usize>::empty(), a));
    }
}

/// Whether the marks are sound, the stack holds marked types only, and all
/// that a marked type holds is marked, but for the types on the stack and the
/// one at hand.
#[verifier::opaque]
spec fn in_order(module: Module, marked: Seq<bool>, stack: Seq<usize>, at_hand: Option<usize>) -> bool {
    &&& marked.len() == module.types@.len()
    &&& sound(module, marked)
    &&& on_stack(marked, stack)
    &&& closed(module.types@, marked, stack, at_hand)
}

/// Whether `marked` has all the marks of `before`.
spec fn keeps(before: Seq<bool>, marked: Seq<bool>) -> bool {
    before.len() == marked.len() && forall|k: int|
        0 <= k < before.len() && before[k] ==> #[trigger] marked[k]
}

/// Whether the stack grew by as many types as were marked.
spec fn grown(
    before: Seq<bool>,
    stack_before: Seq<usize>,
    marked: Seq<bool>,
    stack: Seq<usize>,
) -> bool {
    &&& keeps(before, marked)
    &&& stack_before.is_prefix_of(stack)
    &&& unmarked(marked) + (stack.len() - stack_before.len()) == unmarked(before)
}

proof fn lemma_grown_twice(
    m0: Seq<bool>,
    s0: Seq<usize>,
    m1: Seq<bool>,
    s1: Seq<usize>,
    m2: Seq<bool>,
    s2: Seq<usize>,
)
    requires
        grown(m0, s0, m1, s1),
        grown(m1, s1, m2, s2),
    ensures
        grown(m0, s0, m2, s2),
{
    assert(s0 =~= s1.subrange(0, s0.len() as int));
    assert(s1 =~= s2.subrange(0, s1.len() as int));
    assert(s0 =~= s2.subrange(0, s0.len() as int));
}

fn mark(
    marked: &mut Vec<bool>,
    stack: &mut Vec<usize>,
    t: usize,
    Ghost(module): Ghost<Module>,
    Ghost(at_hand): Ghost<Option<usize>>,
)
    requires
        t < old(marked)@.len(),
        used_by_global(module, t as int),
        in_order(module, old(marked)@, old(stack)@, at_hand),
    ensures
        final(marked)@[t as int],
        in_order(module, final(marked)@, final(stack)@, at_hand),
        grown(old(marked)@, old(stack)@, final(marked)@, final(stack)@),
{
    reveal(in_order);
    if !marked[t] {
        proof {
            lemma_mark_one(marked@, t as int);
        }
        let ghost before = marked@;
        let ghost before_stack = stack@;
        marked.set(t, true);
        stack.push(t);
        proof {
            assert(stack@.last() == t);
            assert forall|a: int, b: int|
                0 <= a < marked@.len() && marked@[a] && !held(stack@, a) && !is_at_hand(at_hand, a)
                    && #[trigger] refers_to(module.types@, a, b) implies 0 <= b < marked@.len()
                && marked@[b] by {
                assert(a != t) by {
                    if a == t {
                        assert(stack@[stack@.len() - 1] as int == a);
                    }
                }
                assert(before[a]);
                if held(before_stack, a) {
                    let k = choose|k: int|
                        0 <= k < before_stack.len() && #[trigger] before_stack[k] as int == a;
                    assert(stack@[k] as int == a);
                }
            }
            assert(before_stack =~= stack@.subrange(0, before_stack.len() as int));
        }
    } else {
        assert(stack@ =~= stack@.subrange(0, stack@.len() as int));
    }
}

/// Whether all that the type `a` holds is marked.
spec fn holds_marked(types: Seq<Type>, marked: Seq<bool>, a: int) -> bool {
    forall|y: int| #[trigger] refers_to(types, a, y) ==> 0 <= y < marked.len() && marked[y]
}

proof fn lemma_done(module: Module, marked: Seq<bool>, stack: Seq<usize>, a: usize)
    requires
        in_order(module, marked, stack, Some(a)),
        holds_marked(module.types@, marked, a as int),
    ensures
        in_order(module, marked, stack, None),
{
    reveal(in_order);
    assert forall|x: int, y: int|
        0 <= x < marked.len() && marked[x] && !held(stack, x) && !is_at_hand(None, x)
            && #[trigger] refers_to(module.types@, x, y) implies 0 <= y < marked.len() && marked[y] by {
        if x != a as int {
            assert(!is_at_hand(Some(a), x));
        }
    }
}

proof fn lemma_taken(module: Module, marked: Seq<bool>, before: Seq<usize>, stack: Seq<usize>, a: usize)
    requires
        in_order(module, marked, before, None),
        before.len() > 0,
        a == before.last(),
        stack == before.drop_last(),
    ensures
        in_order(module, marked, stack, Some(a)),
        a < marked.len(),
        marked[a as int],
        used_by_global(module, a as int),
{
    reveal(in_order);
    assert(before[before.len() - 1] == a);
    assert forall|x: int, y: int|
        0 <= x < marked.len() && marked[x] && !held(stack, x) && !is_at_hand(Some(a), x)
            && #[trigger] refers_to(module.types@, x, y) implies 0 <= y < marked.len() && marked[y] by {
        if held(before, x) {
            let k = choose|k: int| 0 <= k < before.len() && #[trigger] before[k] as int == x;
            assert(k < stack.len());
            assert(stack[k] as int == x);
        }
    }
    assert forall|k: int| 0 <= k < stack.len() implies (#[trigger] stack[k]) < marked.len()
        && marked[stack[k] as int] by {
        assert(stack[k] == before[k]);
    }
}

fn visit_members(
    marked: &mut Vec<bool>,
    stack: &mut Vec<usize>,
    a: usize,
    members: &Vec<crate::ir::StructMember>,
    Ghost(module): Ghost<Module>,
)
    requires
        a < module.types@.len(),
        used_by_global(module, a as int),
        module.types@[a as int].inner matches TypeInner::Struct { members: m, .. } && m == *members,
        forall|j: int| 0 <= j < members@.len() ==> (#[trigger] members@[j]).ty < module.types@.len(),
        old(marked)@.len() == module.types@.len(),
        in_order(module, old(marked)@, old(stack)@, Some(a)),
    ensures
        in_order(module, final(marked)@, final(stack)@, Some(a)),
        grown(old(marked)@, old(stack)@, final(marked)@, final(stack)@),
        holds_marked(module.types@, final(marked)@, a as int),
{
    let mut k: usize = 0;
    proof {
        assert(old(stack)@ =~= old(stack)@.subrange(0, old(stack)@.len() as int));
    }
    while k < members.len()
        invariant
            k <= members.len(),
            a < module.types@.len(),
            used_by_global(module, a as int),
            module.types@[a as int].inner matches TypeInner::Struct { members: m, .. } && m
                == *members,
            forall|j: int|
                0 <= j < members@.len() ==> (#[trigger] members@[j]).ty < module.types@.len(),
            marked@.len() == module.types@.len(),
            in_order(module, marked@, stack@, Some(a)),
            grown(old(marked)@, old(stack)@, marked@, stack@),
            forall|j: int| 0 <= j < k ==> marked@[(#[trigger] members@[j]).ty as int],
        decreases members.len() - k,
    {
        proof {
            lemma_step(module, a as int, members@[k as int].ty as int);
        }
        let ghost m1 = marked@;
        let ghost s1 = stack@;
        mark(marked, stack, members[k].ty, Ghost(module), Ghost(Some(a)));
        proof {
            lemma_grown_twice(old(marked)@, old(stack)@, m1, s1, marked@, stack@);
            assert forall|j: int| 0 <= j < k + 1 implies marked@[(#[trigger] members@[j]).ty as int] by {
                if j < k {
                    assert(m1[members@[j].ty as int]);
                }
            }
        }
        k += 1;
    }
    proof {
        assert forall|y: int| #[trigger] refers_to(module.types@, a as int, y) implies 0 <= y
            < marked@.len() && marked@[y] by {
            let j = choose|j: int| 0 <= j < members@.len() && (#[trigger] members@[j]).ty == y;
            assert(marked@[members@[j].ty as int]);
        }
    }
}

fn visit_base(
    marked: &mut Vec<bool>,
    stack: &mut Vec<usize>,
    a: usize,
    base: usize,
    Ghost(module): Ghost<Module>,
)
    requires
        a < module.types@.len(),
        base < module.types@.len(),
        used_by_global(module, a as int),
        refers_to(module.types@, a as int, base as int),
        forall|y: int| #[trigger] refers_to(module.types@, a as int, y) ==> y == base,
        old(marked)@.len() == module.types@.len(),
        in_order(module, old(marked)@, old(stack)@, Some(a)),
    ensures
        in_order(module, final(marked)@, final(stack)@, Some(a)),
        grown(old(marked)@, old(stack)@, final(marked)@, final(stack)@),
        holds_marked(module.types@, final(marked)@, a as int),
{
    proof {
        lemma_step(module, a as int, base as int);
    }
    mark(marked, stack, base, Ghost(module), Ghost(Some(a)));
}

/// Marks all that the type `a` holds.
fn visit(marked: &mut Vec<bool>, stack: &mut Vec<usize>, a: usize, module: &Module)
    requires
        module.well_formed(),
        a < module.types@.len(),
        used_by_global(*module, a as int),
        old(marked)@.len() == module.types@.len(),
        in_order(*module, old(marked)@, old(stack)@, Some(a)),
    ensures
        in_order(*module, final(marked)@, final(stack)@, None),
        grown(old(marked)@, old(stack)@, final(marked)@, final(stack)@),
{
    proof {
        assert(crate::ir::type_in_range(module.types@[a as int], module.types@.len()));
    }
    match &module.types[a].inner {
        TypeInner::Pointer { base, .. } => {
            visit_base(marked, stack, a, *base, Ghost(*module));
        },
        TypeInner::Array { base, .. } => {
            visit_base(marked, stack, a, *base, Ghost(*module));
        },
        TypeInner::BindingArray { base, .. } => {
            visit_base(marked, stack, a, *base, Ghost(*module));
        },
        TypeInner::Struct { members, .. } => {
            visit_members(marked, stack, a, members, Ghost(*module));
        },
        _ => {
            assert(stack@ =~= stack@.subrange(0, stack@.len() as int));
        },
    }
    proof {
        lemma_done(*module, marked@, stack@, a);
    }
}

spec fn roots_marked(module: Module, marked: Seq<bool>) -> bool {
    forall|k: int|
        0 <= k < module.global_variables@.len() ==> marked[(
        #[trigger] module.global_variables@[k]).ty as int]
}

proof fn lemma_roots_kept(module: Module, before: Seq<bool>, marked: Seq<bool>)
    requires
        module.well_formed(),
        before.len() == module.types@.len(),
        roots_marked(module, before),
        keeps(before, marked),
    ensures
        roots_marked(module, marked),
{
    assert forall|k: int| 0 <= k < module.global_variables@.len() implies marked[(
    #[trigger] module.global_variables@[k]).ty as int] by {
        assert(before[module.global_variables@[k].ty as int]);
    }
}

proof fn lemma_all_found(module: Module, marked: Seq<bool>)
    requires
        module.well_formed(),
        in_order(module, marked, Seq::empty(), None),
        roots_marked(module, marked),
    ensures
        marked.len() == module.types@.len(),
        forall|t: int| 0 <= t < marked.len() ==> #[trigger] marked[t] == used_by_global(module, t),
        forall|t: int| used_by_global(module, t) ==> 0 <= t < marked.len(),
{
    reveal(in_order);
    assert forall|t: int| used_by_global(module, t) implies 0 <= t < marked.len() && marked[t] by {
        let (g, path) = choose|g: int, path: Seq<int>|
            0 <= g < module.global_variables@.len() && #[trigger] leads(
                module.types@,
                path,
                module.global_variables@[g].ty as int,
                t,
            );
        assert(marked[module.global_variables@[g].ty as int]);
        lemma_closed_holds_all(module.types@, marked, path);
    }
}

/// For each type of the module, whether a global variable uses it.
pub fn global_variable_types(module: &Module) -> (r: Vec<bool>)
    requires
        module.well_formed(),
    ensures
        r@.len() == module.types@.len(),
        forall|t: int| 0 <= t < r@.len() ==> #[trigger] r@[t] == used_by_global(*module, t),
        forall|t: int| used_by_global(*module, t) ==> 0 <= t < r@.len(),
{
    let count = module.types.len();
    let mut marked: Vec<bool> = Vec::new();
    let mut i: usize = 0;
    while i < count
        invariant
            i <= count,
            marked@.len() == i,
            forall|k: int| 0 <= k < i ==> !(#[trigger] marked@[k]),
        decreases count - i,
    {
        marked.push(false);
        i += 1;
    }
    let mut stack: Vec<usize> = Vec::new();
    proof {
        reveal(in_order);
        assert(in_order(*module, marked@, stack@, None));
    }
    let mut g: usize = 0;
    while g < module.global_variables.len()
        invariant
            g <= module.global_variables.len(),
            module.well_formed(),
            marked@.len() == module.types@.len(),
            in_order(*module, marked@, stack@, None),
            forall|k: int| 0 <= k < g ==> marked@[(#[trigger] module.global_variables@[k]).ty as int],
        decreases module.global_variables.len() - g,
    {
        let root = module.global_variables[g].ty;
        proof {
            assert(leads(module.types@, seq![root as int], root as int, root as int));
        }
        let ghost m1 = marked@;
        mark(&mut marked, &mut stack, root, Ghost(*module), Ghost(None));
        proof {
            assert forall|k: int| 0 <= k < g + 1 implies marked@[(
            #[trigger] module.global_variables@[k]).ty as int] by {
                if k < g {
                    assert(m1[module.global_variables@[k].ty as int]);
                }
            }
        }
        g += 1;
    }
    while stack.len() > 0
        invariant
            module.well_formed(),
            marked@.len() == module.types@.len(),
            in_order(*module, marked@, stack@, None),
            roots_marked(*module, marked@),
        decreases unmarked(marked@), stack@.len(),
    {
        let ghost before_stack = stack@;
        let ghost m1 = marked@;
        let a = stack.pop().unwrap();
        proof {
            assert(stack@ =~= before_stack.drop_last());
            lemma_taken(*module, marked@, before_stack, stack@, a);
        }
        visit(&mut marked, &mut stack, a, module);
        proof {
            lemma_roots_kept(*module, m1, marked@);
        }
    }
    proof {
        assert(stack@ =~= Seq::<usize>::empty());
        lemma_all_found(*module, marked@);
    }
    marked
}

/// What a type that a global variable uses holds is used by a global variable.
proof fn lemma_step(module: Module, a: int, b: int)
    requires
        used_by_global(module, a),
        refers_to(module.types@, a, b),
    ensures
        used_by_global(module, b),
{
    let (g, path) = choose|g: int, path: Seq<int>|
        0 <= g < module.global_variables@.len() && #[trigger] leads(
            module.types@,
            path,
            module.global_variables@[g].ty as int,
            a,
        );
    let longer = path.push(b);
    assert forall|i: int| 0 <= i < longer.len() - 1 implies refers_to(
        module.types@,
        #[trigger] longer[i],
        longer[i + 1],
    ) by {
        if i < path.len() - 1 {
            assert(longer[i] == path[i] && longer[i + 1] == path[i + 1]);
            assert(refers_to(module.types@, path[i], path[i + 1]));
        } else {
            assert(longer[i] == a && longer[i + 1] == b);
        }
    }
    assert(leads(module.types@, longer, module.global_variables@[g].ty as int, b));
}

} // verus!
