//! How the types relate.

use crate::element::{Elem, FP4Kind, FP6Kind, FP8Kind};
use crate::item::Item;
use crate::variable::Variable;
use vstd::prelude::*;

verus! {

/// An `x2` element holds two numbers of the type that it is named after.
pub proof fn law_pairs_hold_two(fp4: FP4Kind, fp6: FP6Kind, fp8: FP8Kind)
    ensures
        Elem::F16x2.spec_unpacked() == Elem::F16 && Elem::F16x2.spec_packing_factor() == 2,
        Elem::BF16x2.spec_unpacked() == Elem::BF16 && Elem::BF16x2.spec_packing_factor() == 2,
        Elem::FP4x2(fp4).spec_unpacked() == Elem::FP4(fp4),
        Elem::FP4x2(fp4).spec_packing_factor() == 2,
        Elem::FP6x2(fp6).spec_unpacked() == Elem::FP6(fp6),
        Elem::FP6x2(fp6).spec_packing_factor() == 2,
        Elem::FP8x2(fp8).spec_unpacked() == Elem::FP8(fp8),
        Elem::FP8x2(fp8).spec_packing_factor() == 2,
{
}

/// Two numbers share an element.
pub open spec fn is_pair(elem: Elem) -> bool {
    elem is F16x2 || elem is BF16x2 || elem is FP4x2 || elem is FP6x2 || elem is FP8x2
}

/// Any other element holds one number, of its own type.
pub proof fn law_singles_hold_one(elem: Elem)
    requires
        !is_pair(elem),
    ensures
        elem.spec_unpacked() == elem,
        elem.spec_packing_factor() == 1,
{
}

/// Every type of one number is an fp4 or fp6, an fp8, an integer, or a float that CUDA computes
/// with, and only one of these. The scaling factor is the one fp8 that is e8m0.
pub proof fn law_families(elem: Elem)
    requires
        !is_pair(elem),
    ensures
        elem.is_fp4_fp6() <==> elem is FP4 || elem is FP6,
        elem.is_fp8() <==> elem is FP8,
        elem.is_scale() <==> elem == Elem::FP8(FP8Kind::UE8M0),
        elem.is_minifloat() <==> elem is FP4 || elem is FP6 || elem is FP8,
        elem.is_wide() <==> elem is TF32 || elem is F32 || elem is F64,
        elem.is_plain_float() <==> elem is TF32 || elem is F32 || elem is F64 || elem is F16
            || elem is BF16,
        elem.is_integer() <==> !elem.is_minifloat() && !elem.is_plain_float(),
{
}

/// A pair is in the family of its numbers, except that it is no number that CUDA computes with.
pub proof fn law_pairs_are_in_the_family_of_their_numbers(elem: Elem)
    requires
        is_pair(elem),
    ensures
        elem.is_fp4_fp6() == elem.spec_unpacked().is_fp4_fp6(),
        elem.is_fp8() == elem.spec_unpacked().is_fp8(),
        elem.is_scale() == elem.spec_unpacked().is_scale(),
        elem.is_minifloat() == elem.spec_unpacked().is_minifloat(),
        !elem.is_wide() && !elem.is_plain_float() && !elem.is_integer(),
        elem.spec_unpacked().is_minifloat() || elem.spec_unpacked() is F16
            || elem.spec_unpacked() is BF16,
{
}

/// A value is packed just where its elements are single numbers that come in pairs and there is an
/// even number of them. It then has half as many elements, each with two of the same numbers.
pub proof fn law_packing(item: Item)
    ensures
        ({
            let packed = item.spec_optimized();
            let pairable = item.elem is F16 || item.elem is BF16 || item.elem is FP4
                || item.elem is FP6 || item.elem is FP8;
            &&& item.lanes() == if is_pair(item.elem) {
                2 * item.vectorization
            } else {
                1 * item.vectorization
            }
            &&& item.fits() <==> item.lanes() <= usize::MAX
            &&& packed.lanes() == item.lanes()
            &&& packed.elem.spec_unpacked() == item.elem.spec_unpacked()
            &&& packed.native == item.native
            &&& if pairable && item.vectorization % 2 == 0 {
                &&& is_pair(packed.elem)
                &&& 2 * packed.vectorization == item.vectorization
            } else {
                packed == item
            }
        }),
{
    item.lemma_lanes();
    item.lemma_optimized();
}

/// Packing changes how a variable is seen, not which variable it is.
pub proof fn law_packing_keeps_the_variable(id: u32, item: Item)
    ensures
        (Variable::Named { id, item }).spec_optimized() == (Variable::Named {
            id,
            item: item.spec_optimized(),
        }),
        (Variable::Tmp { id, item }).spec_optimized() == (Variable::Tmp {
            id,
            item: item.spec_optimized(),
        }),
        (Variable::Named { id, item }).spec_item() == item,
        (Variable::Tmp { id, item }).spec_item() == item,
{
}

/// The kinds are named as they are in CUDA's interpretation constants.
pub proof fn law_kind_names()
    ensures
        FP4Kind::E2M1.spec_name() == "E2M1"@,
        FP6Kind::E2M3.spec_name() == "E2M3"@,
        FP6Kind::E3M2.spec_name() == "E3M2"@,
        FP8Kind::E4M3.spec_name() == "E4M3"@,
        FP8Kind::E5M2.spec_name() == "E5M2"@,
        FP8Kind::UE8M0.spec_name() == "UE8M0"@,
{
}

} // verus!
