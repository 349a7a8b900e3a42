//! Which types a conversion goes through, and by which of CUDA's conversions.

use crate::element::{Elem, FP8Kind};
use crate::item::Item;
use crate::laws::meaning::{
    law_minifloat_to_half, law_scale_to_bfloat, law_to_fp4_fp6, law_to_fp8, law_to_scale, narrows,
    widens,
};
use crate::laws::spelling::{assigns_plainly, intrinsic};
use crate::laws::steps::{connected, law_steps_lead_to_out};
use crate::laws::types::{is_pair, law_packing};
use crate::plan::{
    broadcast_scalar, convertible, finish, leave_integers, plan, steps_text, widen, Step, StepKind,
};
use crate::text::Glyph;
use crate::variable::Variable;
use vstd::prelude::*;

verus! {

/// The type of one number of a variable.
pub open spec fn number_type(var: Variable) -> Elem {
    var.spec_elem().spec_unpacked()
}

pub open spec fn mini(elem: Elem) -> bool {
    elem is FP4 || elem is FP6 || elem is FP8
}

/// The text of a step converts from the type of its input to the type of its result, by the one
/// conversion that does that, or assigns the one to the other where no minifloat is involved.
pub open spec fn does_what_its_types_say(step: Step) -> bool {
    let from = number_type(step.input);
    let to = number_type(step.out);
    let call = intrinsic(from, to);
    if mini(to) {
        &&& call.source() == from && call.result() == to
        &&& !mini(from)
        &&& narrows(step.text(), call, step.input, step.out, step.tmp)
    } else if mini(from) {
        &&& call.source() == from && call.result() == to
        &&& widens(step.text(), call, step.input, step.out, step.tmp)
        &&& !is_pair(step.out.spec_elem())
        &&& step.out.spec_item().vectorization == step.input.spec_item().lanes()
    } else {
        assigns_plainly(step.text(), step.input, step.out)
    }
}

/// What kind a step is follows from the types that it goes between.
pub open spec fn kind_follows_types(step: Step) -> bool {
    let from = number_type(step.input);
    let to = number_type(step.out);
    let scale = Elem::FP8(FP8Kind::UE8M0);
    &&& step.kind is ToScale <==> to == scale
    &&& step.kind is ToFp8 <==> to is FP8 && to != scale
    &&& step.kind is ToFp4Fp6 <==> to is FP4 || to is FP6
    &&& step.kind is ScaleToBfloat <==> !mini(to) && from == scale
    &&& step.kind is MinifloatToHalf <==> !mini(to) && mini(from) && from != scale
    &&& step.kind is Assign <==> !mini(to) && !mini(from)
}

/// The step can be carried out: from a float that CUDA converts to the minifloat, with its numbers
/// countable; or from a minifloat to the half or bfloat that holds it.
spec fn sound(step: Step) -> bool {
    let from = number_type(step.input);
    let to = number_type(step.out);
    &&& kind_follows_types(step)
    &&& mini(to) ==> {
        &&& from.is_plain_float()
        &&& to is FP8 ==> step.input.spec_elem().is_plain_float()
        &&& to == Elem::FP8(FP8Kind::UE8M0) ==> !(from is F16)
        &&& step.input.spec_elem().is_wide() ==> step.out.spec_item().fits()
    }
    &&& !mini(to) && mini(from) ==> {
        &&& step.out.spec_elem() == if from == Elem::FP8(FP8Kind::UE8M0) {
            Elem::BF16
        } else {
            Elem::F16
        }
        &&& step.out.spec_item().vectorization == step.input.spec_item().lanes()
    }
}

spec fn all_sound(steps: Seq<Step>) -> bool {
    forall|i: int| 0 <= i < steps.len() ==> sound(#[trigger] steps[i])
}

proof fn lemma_sound(input: Variable, out: Variable, next_tmp: u32)
    requires
        convertible(input, out),
    ensures
        all_sound(plan(input, out, next_tmp).steps),
{
    let wide = widen(input, out, next_tmp);
    let copied = broadcast_scalar(wide, out);
    let float = leave_integers(copied);
    law_packing(input.spec_item());
    assert(all_sound(wide.steps));
    assert(all_sound(copied.steps));
    assert(all_sound(float.steps));
    if out.spec_elem().is_scale() && float.value.spec_elem() is F16 {
        let source = float.to_new(
            StepKind::Assign,
            Item { elem: Elem::BF16, ..float.value.spec_item() },
        );
        assert(all_sound(source.steps));
    }
}

/// What kind a step is follows from the types that it goes between: whatever ends in e8m0 is a
/// conversion to the scaling factor and nothing else is, and so on for every type.
pub proof fn law_kinds_follow_types(input: Variable, out: Variable, next_tmp: u32, i: int)
    requires
        convertible(input, out),
        0 <= i < plan(input, out, next_tmp).steps.len(),
    ensures
        kind_follows_types(plan(input, out, next_tmp).steps[i]),
{
    lemma_sound(input, out, next_tmp);
    assert(sound(plan(input, out, next_tmp).steps[i]));
}

/// What every step writes converts from the type of its input to the type of its result, every
/// number from its own.
pub proof fn law_steps_do_what_their_types_say(
    input: Variable,
    out: Variable,
    next_tmp: u32,
    i: int,
)
    requires
        convertible(input, out),
        0 <= i < plan(input, out, next_tmp).steps.len(),
    ensures
        does_what_its_types_say(plan(input, out, next_tmp).steps[i]),
{
    lemma_sound(input, out, next_tmp);
    let step = plan(input, out, next_tmp).steps[i];
    assert(sound(step));
    reveal(Step::text);
    match step.kind {
        StepKind::MinifloatToHalf => {
            law_minifloat_to_half(step.input, step.out, step.tmp);
        },
        StepKind::ScaleToBfloat => {
            law_scale_to_bfloat(step.input, step.out, step.tmp);
        },
        StepKind::Assign => {},
        StepKind::ToFp4Fp6 => {
            law_to_fp4_fp6(step.input, step.out, step.tmp);
        },
        StepKind::ToScale => {
            law_to_scale(step.input, step.out, step.tmp);
        },
        StepKind::ToFp8 => {
            law_to_fp8(step.input, step.out, step.tmp);
        },
    }
}

/// The glyphs of each step.
pub open spec fn step_glyphs(steps: Seq<Step>) -> Seq<Seq<Glyph>> {
    Seq::new(steps.len(), |i: int| steps[i].text().glyphs)
}

/// The text of the steps is the text of each of them, one after the other.
pub proof fn law_text_is_that_of_the_steps(steps: Seq<Step>)
    ensures
        steps_text(steps).glyphs == step_glyphs(steps).flatten(),
    decreases steps.len(),
{
    let glyphs = step_glyphs(steps);
    glyphs.lemma_flatten_and_flatten_alt_are_equivalent();
    if steps.len() > 0 {
        law_text_is_that_of_the_steps(steps.drop_last());
        assert(step_glyphs(steps.drop_last()) =~= glyphs.drop_last());
        glyphs.drop_last().lemma_flatten_and_flatten_alt_are_equivalent();
    }
}

/// The text of a conversion is that of its steps.
pub proof fn law_conversion_is_its_steps(input: Variable, out: Variable, next_tmp: u32)
    ensures
        plan(input, out, next_tmp).text().glyphs == step_glyphs(
            plan(input, out, next_tmp).steps,
        ).flatten(),
{
    law_text_is_that_of_the_steps(plan(input, out, next_tmp).steps);
}

/// A conversion is a chain of steps from `input` to a variable of the type of `out`, each of which
/// does what its types say, and its text is theirs. The variable is `out` itself wherever a
/// minifloat is involved.
pub proof fn law_conversion(input: Variable, out: Variable, next_tmp: u32)
    requires
        convertible(input, out),
    ensures
        ({
            let chain = plan(input, out, next_tmp);
            &&& chain.text().glyphs == step_glyphs(chain.steps).flatten()
            &&& connected(chain.steps, input, chain.value)
            &&& chain.value.spec_item() == out.spec_item()
            &&& mini(number_type(input)) || mini(number_type(out)) ==> chain.value == out
            &&& forall|i: int|
                0 <= i < chain.steps.len() ==> does_what_its_types_say(#[trigger] chain.steps[i])
        }),
{
    let chain = plan(input, out, next_tmp);
    law_conversion_is_its_steps(input, out, next_tmp);
    law_steps_lead_to_out(input, out, next_tmp);
    assert forall|i: int| 0 <= i < chain.steps.len() implies does_what_its_types_say(
        #[trigger] chain.steps[i],
    ) by {
        law_steps_do_what_their_types_say(input, out, next_tmp, i);
    }
}

/// A minifloat as the type that holds its numbers; anything else as it is.
pub open spec fn as_float(item: Item) -> Item {
    let number = item.elem.spec_unpacked();
    if mini(number) {
        Item {
            elem: if number == Elem::FP8(FP8Kind::UE8M0) {
                Elem::BF16
            } else {
                Elem::F16
            },
            vectorization: item.lanes() as usize,
            native: false,
        }
    } else {
        item
    }
}

/// Each of the steps leads to the type that is listed for it, from the type before.
pub open spec fn goes_through(steps: Seq<Step>, types: Seq<Item>) -> bool {
    &&& steps.len() == types.len()
    &&& forall|i: int|
        0 <= i < steps.len() ==> (#[trigger] steps[i]).out.spec_item() == types[i]
}

/// The types that lie between, each only where it is needed: a minifloat becomes the float that
/// holds it, one element becomes the two that a packed one wants, an integer becomes bfloat, and so
/// does a half that is to be e8m0. What is then not of the type of `out` yet is converted to it; a
/// minifloat always is.
pub proof fn law_types_on_the_way(input: Variable, out: Variable, next_tmp: u32)
    requires
        convertible(input, out),
    ensures
        ({
            let (from, to) = (input.spec_item(), out.spec_item());
            let float = as_float(from);
            let copied = if is_pair(to.elem) && float.vectorization == 1 {
                Item { vectorization: 2, ..float }
            } else {
                float
            };
            let bfloat = Item { elem: Elem::BF16, ..copied };
            let scale = to.elem.spec_unpacked() == Elem::FP8(FP8Kind::UE8M0);
            let last = if copied.elem.is_integer() || scale && copied.elem is F16 {
                bfloat
            } else {
                copied
            };
            let types = (if float != from {
                seq![float]
            } else {
                seq![]
            }) + (if copied != float {
                seq![copied]
            } else {
                seq![]
            }) + (if last != copied {
                seq![last]
            } else {
                seq![]
            }) + (if last != to || mini(to.elem.spec_unpacked()) {
                seq![to]
            } else {
                seq![]
            });
            goes_through(plan(input, out, next_tmp).steps, types)
        }),
{
    law_packing(input.spec_item());
    let wide = widen(input, out, next_tmp);
    let copied = broadcast_scalar(wide, out);
    let float = leave_integers(copied);
    let end = finish(float, out);
    assert(wide.value.spec_item() == as_float(input.spec_item()));
    assert(goes_through(
        wide.steps,
        if wide.value.spec_item() != input.spec_item() {
            seq![wide.value.spec_item()]
        } else {
            seq![]
        },
    ));
    assert(end == plan(input, out, next_tmp));
}

spec fn keep_count(steps: Seq<Step>, n: int) -> bool {
    forall|i: int|
        0 <= i < steps.len() ==> (#[trigger] steps[i]).input.spec_item().lanes() == n
            && steps[i].out.spec_item().lanes() == n
}

/// The numbers are all there after every step, where `out` is to have as many as `input` has. The
/// exception is one packed half or bfloat, which is repeated for another packed type.
pub proof fn law_steps_keep_the_count(input: Variable, out: Variable, next_tmp: u32, i: int)
    requires
        convertible(input, out),
        input.spec_item().lanes() == out.spec_item().lanes(),
        !((input.spec_elem() is F16x2 || input.spec_elem() is BF16x2)
            && input.spec_item().vectorization == 1 && is_pair(out.spec_elem())),
        0 <= i < plan(input, out, next_tmp).steps.len(),
    ensures
        plan(input, out, next_tmp).steps[i].input.spec_item().lanes() == input.spec_item().lanes(),
        plan(input, out, next_tmp).steps[i].out.spec_item().lanes() == input.spec_item().lanes(),
{
    let n = input.spec_item().lanes();
    let wide = widen(input, out, next_tmp);
    let copied = broadcast_scalar(wide, out);
    let float = leave_integers(copied);
    let bfloat = Item { elem: Elem::BF16, ..copied.value.spec_item() };
    law_packing(input.spec_item());
    law_packing(out.spec_item());
    law_packing(wide.value.spec_item());
    law_packing(bfloat);
    assert(keep_count(wide.steps, n) && wide.value.spec_item().lanes() == n);
    assert(copied == wide);
    assert(keep_count(float.steps, n) && float.value.spec_item().lanes() == n);
    assert(keep_count(plan(input, out, next_tmp).steps, n));
}

/// Everything is converted whose numbers can be counted, except that packed halves and bfloats do
/// not become fp8.
pub proof fn law_what_is_converted(input: Variable, out: Variable)
    ensures
        input.spec_item().vectorization <= usize::MAX / 2 && out.spec_item().vectorization
            <= usize::MAX / 2 ==> (convertible(input, out) <==> !(number_type(out) is FP8 && (
        input.spec_elem() is F16x2 || input.spec_elem() is BF16x2))),
        !mini(number_type(input)) && !mini(number_type(out)) ==> convertible(input, out),
        mini(number_type(input)) && input.spec_item().lanes() > usize::MAX ==> !convertible(
            input,
            out,
        ),
        mini(number_type(input)) && input.spec_item().lanes() <= usize::MAX ==> convertible(
            input,
            out,
        ),
        mini(number_type(out)) && input.spec_elem().is_wide() ==> (convertible(input, out)
            <==> out.spec_item().lanes() <= usize::MAX),
        !mini(number_type(input)) && !input.spec_elem().is_wide() ==> (convertible(input, out)
            <==> !(number_type(out) is FP8 && is_pair(input.spec_elem()))),
{
    law_packing(input.spec_item());
    law_packing(out.spec_item());
}

} // verus!
