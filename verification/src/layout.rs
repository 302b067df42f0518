//! The byte layout of a struct that the host shares with the shader.
//!
//! The fields lie in their order. Each begins at the first multiple of its
//! alignment at or after the end of the one before; the struct is aligned as
//! its most aligned field, or as it is told to be, and its size is a multiple
//! of its alignment.

use vstd::prelude::*;

verus! {

/// The first multiple of `align` at or after `x`; `x` itself where `align`
/// is 0.
pub open spec fn round_up(x: nat, align: nat) -> nat {
    if align == 0 || x % align == 0 {
        x
    } else {
        (x + align - x % align) as nat
    }
}

/// The end of the last of the fields, each given by its size and alignment.
pub open spec fn end_of(fields: Seq<(u32, u32)>) -> nat
    decreases fields.len(),
{
    if fields.len() == 0 {
        0
    } else {
        round_up(end_of(fields.drop_last()), fields.last().1 as nat) + fields.last().0 as nat
    }
}

/// Where the field of index `i` begins.
pub open spec fn offset_of(fields: Seq<(u32, u32)>, i: int) -> nat {
    round_up(end_of(fields.take(i)), fields[i].1 as nat)
}

/// The greatest alignment among the fields, and 1 where there is none.
pub open spec fn widest(fields: Seq<(u32, u32)>) -> nat
    decreases fields.len(),
{
    if fields.len() == 0 {
        1
    } else if fields.last().1 > widest(fields.drop_last()) {
        fields.last().1 as nat
    } else {
        widest(fields.drop_last())
    }
}

/// The alignment of the struct: the one it is told to have, else that of its
/// most aligned field.
pub open spec fn alignment_of(fields: Seq<(u32, u32)>, told: Option<u32>) -> nat {
    match told {
        Some(a) => a as nat,
        None => widest(fields),
    }
}

/// The size of the struct.
pub open spec fn size_of(fields: Seq<(u32, u32)>, told: Option<u32>) -> nat {
    round_up(end_of(fields), alignment_of(fields, told))
}

/// The layout of a struct: where each field begins, and the size and the
/// alignment of the whole.
#[derive(Debug, PartialEq, Eq)]
pub struct StructLayout {
    pub offsets: Vec<u128>,
    pub size: u128,
    pub alignment: u32,
}

/// Rounding up gives a multiple of the alignment that is neither below the
/// number nor more than the alignment above it.
pub proof fn lemma_round_up(x: nat, align: nat)
    ensures
        x <= round_up(x, align),
        round_up(x, align) <= x + align,
        align > 0 ==> round_up(x, align) % align == 0,
{
    if align > 0 && x % align != 0 {
        let r = x % align;
        assert(r < align) by (nonlinear_arith)
            requires
                r == x % align,
                align > 0,
        ;
        assert((x + align - r) % (align as int) == 0) by (nonlinear_arith)
            requires
                r == x % align,
                align > 0,
        ;
    }
}

/// The fields end within `2^33` bytes for each of them.
proof fn lemma_end_bound(fields: Seq<(u32, u32)>)
    ensures
        end_of(fields) <= fields.len() * 0x2_0000_0000,
    decreases fields.len(),
{
    if fields.len() > 0 {
        lemma_end_bound(fields.drop_last());
        lemma_round_up(end_of(fields.drop_last()), fields.last().1 as nat);
        let n = fields.len() - 1;
        assert((n + 1) * 0x2_0000_0000 == n * 0x2_0000_0000 + 0x2_0000_0000) by (nonlinear_arith);
    } else {
        assert(0 * 0x2_0000_0000 == 0) by (nonlinear_arith);
    }
}

fn rounded(x: u128, align: u32) -> (r: u128)
    requires
        x + align <= u128::MAX,
    ensures
        r == round_up(x as nat, align as nat),
{
    if align == 0 {
        return x;
    }
    let a: u128 = align as u128;
    let rest: u128 = x % a;
    if rest == 0 {
        x
    } else {
        x + a - rest
    }
}

/// Lays the fields out, each given by its size and alignment, in a struct that
/// has the alignment `told`, if one is told.
pub fn layout_fields(fields: &Vec<(u32, u32)>, told: Option<u32>) -> (layout: StructLayout)
    ensures
        layout.offsets@.len() == fields@.len(),
        forall|i: int|
            0 <= i < fields@.len() ==> #[trigger] layout.offsets@[i] == offset_of(fields@, i),
        layout.alignment == alignment_of(fields@, told),
        layout.size == size_of(fields@, told),
{
    let mut offsets: Vec<u128> = Vec::new();
    let mut end: u128 = 0;
    let mut widest_so_far: u32 = 1;
    let mut i: usize = 0;
    while i < fields.len()
        invariant
            i <= fields.len(),
            offsets@.len() == i,
            end == end_of(fields@.take(i as int)),
            widest_so_far == widest(fields@.take(i as int)),
            forall|k: int| 0 <= k < i ==> #[trigger] offsets@[k] == offset_of(fields@, k),
        decreases fields.len() - i,
    {
        let (size, align) = fields[i];
        proof {
            assert(fields@.take(i + 1).drop_last() == fields@.take(i as int));
            assert(fields@.take(i + 1).last() == fields@[i as int]);
            lemma_round_up(end as nat, align as nat);
            lemma_end_bound(fields@.take(i as int));
            assert(i * 0x2_0000_0000 <= 0xffff_ffff_ffff_ffff * 0x2_0000_0000) by (nonlinear_arith)
                requires
                    i <= 0xffff_ffff_ffff_ffff,
            ;
        }
        let begin = rounded(end, align);
        offsets.push(begin);
        end = begin + size as u128;
        if align > widest_so_far {
            widest_so_far = align;
        }
        i += 1;
    }
    assert(fields@.take(fields@.len() as int) == fields@);
    let alignment = match told {
        Some(a) => a,
        None => widest_so_far,
    };
    proof {
        lemma_end_bound(fields@);
        let n = fields@.len();
        assert(n * 0x2_0000_0000 <= 0xffff_ffff_ffff_ffff * 0x2_0000_0000) by (nonlinear_arith)
            requires
                n <= 0xffff_ffff_ffff_ffff,
        ;
    }
    let size = rounded(end, alignment);
    StructLayout { offsets, size, alignment }
}

} // verus!
