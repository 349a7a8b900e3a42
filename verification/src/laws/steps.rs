//! Which conversions are chosen.

use crate::convert::{count, width};
use crate::element::{Elem, FP8Kind};
use crate::item::Item;
use crate::plan::{
    broadcast_scalar, broadcasts, convertible, leave_integers, plan, steps_text, widen,
    widened_item, Step,
};
use crate::text::{lemma_cat_empty, Text};
use crate::variable::Variable;
use vstd::prelude::*;

verus! {

/// The conversions between types of one number that CUDA has for the minifloats.
pub open spec fn available(from: Elem, to: Elem) -> bool {
    ||| from.is_plain_float() && (to == Elem::FP8(FP8Kind::E4M3) || to == Elem::FP8(FP8Kind::E5M2))
    ||| from.is_plain_float() && (to is FP4 || to is FP6)
    ||| from.is_plain_float() && !(from is F16) && to == Elem::FP8(FP8Kind::UE8M0)
    ||| (from == Elem::FP8(FP8Kind::E4M3) || from == Elem::FP8(FP8Kind::E5M2) || from is FP4
        || from is FP6) && to is F16
    ||| from == Elem::FP8(FP8Kind::UE8M0) && to is BF16
}

/// The step is a conversion that CUDA has.
pub open spec fn step_available(step: Step) -> bool {
    available(step.input.spec_elem().spec_unpacked(), step.out.spec_elem().spec_unpacked())
}

/// Every step that is no plain assignment is a conversion that CUDA has.
pub open spec fn only_available(steps: Seq<Step>) -> bool {
    forall|i: int|
        0 <= i < steps.len() && !((#[trigger] steps[i]).kind is Assign) ==> step_available(
            steps[i],
        )
}

/// Every step that is no plain assignment is a conversion that CUDA has.
pub proof fn law_conversions_are_available(input: Variable, out: Variable, next_tmp: u32, i: int)
    requires
        convertible(input, out),
        0 <= i < plan(input, out, next_tmp).steps.len(),
        !(plan(input, out, next_tmp).steps[i].kind is Assign),
    ensures
        step_available(plan(input, out, next_tmp).steps[i]),
{
    let wide = widen(input, out, next_tmp);
    let copied = broadcast_scalar(wide, out);
    let float = leave_integers(copied);
    assert(only_available(wide.steps));
    assert(only_available(copied.steps));
    assert(only_available(float.steps));
    assert(only_available(plan(input, out, next_tmp).steps));
}

/// No plain assignment reads or writes a minifloat.
pub proof fn law_assignments_avoid_minifloats(
    input: Variable,
    out: Variable,
    next_tmp: u32,
    i: int,
)
    requires
        convertible(input, out),
        0 <= i < plan(input, out, next_tmp).steps.len(),
        plan(input, out, next_tmp).steps[i].kind is Assign,
    ensures
        !plan(input, out, next_tmp).steps[i].input.spec_elem().is_minifloat(),
        !plan(input, out, next_tmp).steps[i].out.spec_elem().is_minifloat(),
{
}

/// A minifloat is first converted to f16, or to bf16 if it is e8m0, by a conversion that CUDA has
/// and with all its numbers, each in an element of its own.
pub proof fn law_minifloats_widen_first(input: Variable, out: Variable, next_tmp: u32)
    requires
        convertible(input, out),
        input.spec_elem().is_minifloat(),
    ensures
        ({
            let steps = plan(input, out, next_tmp).steps;
            &&& steps.len() > 0
            &&& steps[0].input == input
            &&& !(steps[0].kind is Assign)
            &&& step_available(steps[0])
            &&& steps[0].out.spec_elem() == if input.spec_elem().is_scale() {
                Elem::BF16
            } else {
                Elem::F16
            }
            &&& steps[0].out.spec_item().vectorization == input.spec_item().lanes()
        }),
{
}

/// The first conversion of a minifloat writes as many numbers as its result has: two for each pair
/// that is read, or one for each single one.
pub proof fn law_widening_fills_its_result(input: Variable, out: Variable, next_tmp: u32)
    requires
        convertible(input, out),
        input.spec_elem().is_minifloat(),
    ensures
        ({
            let wide = plan(input, out, next_tmp).steps[0].out;
            if width(input) > 1 {
                wide.spec_item().vectorization == 2 * count(input)
            } else {
                count(wide) == count(input) && width(wide) == 1
            }
        }),
{
    input.spec_item().lemma_optimized();
    input.spec_item().spec_optimized().elem.lemma_packing_factor();
}

/// Each step goes on from where the one before it ended, the first from `input`.
pub open spec fn connected(steps: Seq<Step>, input: Variable, end: Variable) -> bool {
    &&& steps.len() == 0 ==> end == input
    &&& steps.len() > 0 ==> steps[0].input == input && steps.last().out == end
    &&& forall|i: int, j: int|
        #![trigger steps[i], steps[j]]
        0 <= i < j < steps.len() && j == i + 1 ==> steps[j].input == steps[i].out
}

/// With no minifloat on either side, `input` has the type of `out` once it is repeated for a packed
/// element and no integer any more. It is then left there.
pub open spec fn stops_short(input: Variable, out: Variable) -> bool {
    let item = input.spec_item();
    &&& !item.elem.is_minifloat()
    &&& out.spec_item() == Item {
        elem: if item.elem.is_integer() {
            Elem::BF16
        } else {
            item.elem
        },
        vectorization: if broadcasts(input, out) {
            out.spec_elem().spec_packing_factor()
        } else {
            item.vectorization
        },
        native: item.native,
    }
}

proof fn lemma_connected(input: Variable, out: Variable, next_tmp: u32)
    ensures
        connected(plan(input, out, next_tmp).steps, input, plan(input, out, next_tmp).value),
{
    let wide = widen(input, out, next_tmp);
    let copied = broadcast_scalar(wide, out);
    let float = leave_integers(copied);
    assert(connected(wide.steps, input, wide.value));
    assert(connected(copied.steps, input, copied.value));
    assert(connected(float.steps, input, float.value));
}

proof fn lemma_end(input: Variable, out: Variable, next_tmp: u32)
    requires
        convertible(input, out),
    ensures
        plan(input, out, next_tmp).value.spec_item() == out.spec_item(),
        !stops_short(input, out) ==> plan(input, out, next_tmp).value == out,
{
    let wide = widen(input, out, next_tmp);
    let float = leave_integers(broadcast_scalar(wide, out));
    if input.spec_elem().is_minifloat() {
        assert(float.value == out || float.value.spec_item() != out.spec_item());
    } else if !out.spec_elem().is_minifloat() {
        assert(stops_short(input, out) <==> float.value.spec_item() == out.spec_item());
    }
}

/// The steps lead from `input` to a variable of the type of `out`. Unless they stop short, that is
/// `out` itself; they do not where a minifloat stands on either side.
pub proof fn law_steps_lead_to_out(input: Variable, out: Variable, next_tmp: u32)
    requires
        convertible(input, out),
    ensures
        ({
            let chain = plan(input, out, next_tmp);
            &&& connected(chain.steps, input, chain.value)
            &&& chain.value.spec_item() == out.spec_item()
            &&& !stops_short(input, out) ==> chain.value == out
            &&& input.spec_elem().is_minifloat() || out.spec_elem().is_minifloat() ==> !stops_short(
                input,
                out,
            )
        }),
{
    lemma_connected(input, out, next_tmp);
    lemma_end(input, out, next_tmp);
}

/// One conversion is enough where CUDA has the one that is asked for.
pub proof fn law_available_conversion_is_one_step(input: Variable, out: Variable, next_tmp: u32)
    requires
        convertible(input, out),
        !broadcasts(input, out),
        available(input.spec_elem().spec_unpacked(), out.spec_elem().spec_unpacked()),
        input.spec_elem().is_minifloat() ==> out.spec_item() == widened_item(input),
    ensures
        plan(input, out, next_tmp).steps.len() == 1,
        !(plan(input, out, next_tmp).steps[0].kind is Assign),
        plan(input, out, next_tmp).steps[0].input == input,
        plan(input, out, next_tmp).steps[0].out == out,
{
}

/// An integer becomes a bf16 before anything else than being copied, and a minifloat is then made
/// from that.
pub proof fn law_integers_go_through_bfloat(input: Variable, out: Variable, next_tmp: u32)
    requires
        convertible(input, out),
        input.spec_elem().is_integer(),
    ensures
        ({
            let steps = plan(input, out, next_tmp).steps;
            let at: int = if broadcasts(input, out) {
                1
            } else {
                0
            };
            &&& steps.len() > at
            &&& steps[at].kind is Assign
            &&& steps[at].input.spec_elem() == input.spec_elem()
            &&& steps[at].out.spec_elem() is BF16
            &&& out.spec_elem().is_minifloat() ==> steps.len() == at + 2
                && steps.last().input.spec_elem() is BF16
        }),
{
}

/// One minifloat becomes another by way of a new half or bfloat that has all its numbers. Between
/// the two conversions are only plain assignments: one where a single number is repeated, and one
/// where a half has to become e8m0.
pub proof fn law_minifloats_meet_as_wider_floats(input: Variable, out: Variable, next_tmp: u32)
    requires
        convertible(input, out),
        input.spec_elem().is_minifloat(),
        out.spec_elem().is_minifloat(),
    ensures
        ({
            let chain = plan(input, out, next_tmp);
            let steps = chain.steps;
            let wide = Variable::Tmp { id: next_tmp, item: widened_item(input) };
            let repeats: int = if broadcasts(wide, out) {
                1
            } else {
                0
            };
            let leaves_half: int = if out.spec_elem().is_scale() && !input.spec_elem().is_scale() {
                1
            } else {
                0
            };
            &&& steps.len() == 2 + repeats + leaves_half
            &&& steps[0].input == input && steps[0].out == wide
            &&& steps.last().out == out
            &&& forall|i: int|
                0 <= i < steps.len() ==> ((#[trigger] steps[i]).kind is Assign <==> 0 < i
                    < steps.len() - 1)
            &&& steps.len() == 2 ==> steps[1].input == wide && chain.text()
                == steps[0].text().cat(steps[1].text())
        }),
{
    let chain = plan(input, out, next_tmp);
    if chain.steps.len() == 2 {
        let first = chain.steps.drop_last();
        assert(first.drop_last() =~= Seq::empty());
        assert(steps_text(first.drop_last()) == Text::empty());
        lemma_cat_empty(first.last().text());
        assert(steps_text(first) == first.last().text());
        assert(first.last() == chain.steps[0]);
    }
}

/// A half becomes a bf16 before it becomes e8m0.
pub proof fn law_halves_reach_the_scale_through_bfloat(
    input: Variable,
    out: Variable,
    next_tmp: u32,
)
    requires
        convertible(input, out),
        out.spec_elem().is_scale(),
        input.spec_elem() is F16 || input.spec_elem().is_minifloat()
            && !input.spec_elem().is_scale(),
    ensures
        ({
            let steps = plan(input, out, next_tmp).steps;
            let last = steps.len() - 1;
            &&& steps.len() >= 2
            &&& steps[last].kind is ToScale
            &&& steps[last].input.spec_elem() is BF16
            &&& steps[last - 1].kind is Assign
            &&& steps[last - 1].input.spec_elem() is F16
        }),
{
}

} // verus!
