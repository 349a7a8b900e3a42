//! Which elements are read.

use crate::convert::{
    bfloat_call, bfloat_pair_call, count, fp4_fp6_call, fp8_call, half_call, half_pair_call,
    minifloat_to_half, operand, pair_entry, scale_call, scale_to_bfloat, split, to_fp4_fp6, to_fp8,
    to_scale, unrolled, width,
};
use crate::laws::steps::law_widening_fills_its_result;
use crate::plan::{
    broadcast_scalar, broadcasts, convertible, leave_integers, plan, steps_text, widen, Step,
};
use crate::text::{join, Glyph, Shown, Text};
use crate::variable::Variable;
use vstd::prelude::*;

verus! {

/// Every element that the text reads is one that its variable has.
#[verifier::opaque]
pub open spec fn reads_in_range(text: Text) -> bool {
    forall|k: int|
        0 <= k < text.glyphs.len() ==> (#[trigger] text.glyphs[k] matches Glyph::Gap(
            Shown::Indexed(read),
        ) ==> read.index < read.var.spec_item().vectorization)
}

broadcast proof fn lemma_in_range_lit(text: Text, chars: Seq<char>)
    requires
        reads_in_range(text),
    ensures
        #[trigger] reads_in_range(text.lit(chars)),
{
    reveal(reads_in_range);
}

broadcast proof fn lemma_in_range_show(text: Text, shown: Shown)
    requires
        reads_in_range(text),
        shown matches Shown::Indexed(read) ==> read.index < read.var.spec_item().vectorization,
    ensures
        #[trigger] reads_in_range(text.show(shown)),
{
    reveal(reads_in_range);
}

broadcast proof fn lemma_in_range_cat(text: Text, other: Text)
    requires
        reads_in_range(text),
        reads_in_range(other),
    ensures
        #[trigger] reads_in_range(text.cat(other)),
{
    reveal(reads_in_range);
}

broadcast proof fn lemma_in_range_empty()
    ensures
        #[trigger] reads_in_range(Text::empty()),
{
    reveal(reads_in_range);
}

broadcast group group_in_range {
    lemma_in_range_lit,
    lemma_in_range_show,
    lemma_in_range_cat,
    lemma_in_range_empty,
}

proof fn lemma_in_range_join(entries: Seq<Text>, separator: Seq<char>)
    requires
        forall|i: int| 0 <= i < entries.len() ==> reads_in_range(#[trigger] entries[i]),
    ensures
        reads_in_range(join(entries, separator)),
    decreases entries.len(),
{
    broadcast use group_in_range;

    if entries.len() > 1 {
        lemma_in_range_join(entries.drop_last(), separator);
    }
}

proof fn lemma_in_range_unrolled(out: Variable, tmp: u32, entries: Seq<Text>)
    requires
        forall|i: int| 0 <= i < entries.len() ==> reads_in_range(#[trigger] entries[i]),
    ensures
        reads_in_range(unrolled(out, tmp, entries)),
{
    broadcast use group_in_range;

    lemma_in_range_join(entries, ",\n"@);
}

proof fn lemma_in_range_split(out: Variable, calls: Seq<Text>)
    requires
        forall|i: int| 0 <= i < calls.len() ==> reads_in_range(#[trigger] calls[i]),
    ensures
        reads_in_range(split(out, calls)),
{
    broadcast use group_in_range;

    let entries = Seq::new(calls.len(), |i: int| pair_entry(out, calls[i]));
    assert forall|i: int| 0 <= i < entries.len() implies reads_in_range(#[trigger] entries[i]) by {
        assert(reads_in_range(calls[i]));
    }
    lemma_in_range_join(entries, ",\n"@);
    lemma_in_range_join(entries, ""@);
}

/// The numbers that the conversions into `out` read are there.
pub open spec fn covers(input: Variable, out: Variable) -> bool {
    if input.spec_elem().is_wide() {
        count(out) * width(out) <= input.spec_item().vectorization
    } else {
        count(out) <= count(input)
    }
}

proof fn lemma_in_range_operand(input: Variable, out: Variable, i: int)
    requires
        input.spec_elem().spec_unpacked().is_plain_float(),
        covers(input, out),
        0 <= i < count(out),
    ensures
        reads_in_range(operand(input.spec_optimized(), i, width(out))),
{
    broadcast use group_in_range;

    out.spec_item().spec_optimized().elem.lemma_packing_factor();
    assert(0 <= i * width(out) && i * width(out) + width(out) <= count(out) * width(out))
        by (nonlinear_arith)
        requires
            0 <= i < count(out),
            width(out) > 0,
    ;
}

proof fn lemma_in_range_narrowing(input: Variable, out: Variable, tmp: u32)
    requires
        input.spec_elem().spec_unpacked().is_plain_float(),
        covers(input, out),
    ensures
        reads_in_range(to_fp4_fp6(input, out, tmp)),
        reads_in_range(to_scale(input, out, tmp)),
        reads_in_range(to_fp8(input, out, tmp)),
{
    broadcast use group_in_range;

    reveal(to_fp4_fp6);
    reveal(to_scale);
    reveal(to_fp8);
    let fp4_fp6 = Seq::new(count(out), |i: int| fp4_fp6_call(input, out, i));
    let scale = Seq::new(count(out), |i: int| scale_call(input, out, i));
    let fp8 = Seq::new(count(out), |i: int| fp8_call(input, out, i));
    assert forall|i: int| 0 <= i < count(out) implies reads_in_range(#[trigger] fp4_fp6[i]) by {
        lemma_in_range_operand(input, out, i);
    }
    assert forall|i: int| 0 <= i < count(out) implies reads_in_range(#[trigger] scale[i]) by {
        lemma_in_range_operand(input, out, i);
    }
    assert forall|i: int| 0 <= i < count(out) implies reads_in_range(#[trigger] fp8[i]) by {
        lemma_in_range_operand(input, out, i);
    }
    lemma_in_range_unrolled(out, tmp, fp4_fp6);
    lemma_in_range_unrolled(out, tmp, scale);
    lemma_in_range_unrolled(out, tmp, fp8);
}

proof fn lemma_in_range_widening(input: Variable, out: Variable, tmp: u32)
    requires
        width(input) > 1 || count(out) <= count(input),
    ensures
        reads_in_range(minifloat_to_half(input, out, tmp)),
        reads_in_range(scale_to_bfloat(input, out, tmp)),
{
    broadcast use group_in_range;

    reveal(minifloat_to_half);
    reveal(scale_to_bfloat);
    if width(input) > 1 {
        lemma_in_range_split(out, Seq::new(count(input), |i: int| half_pair_call(input, i)));
        lemma_in_range_split(out, Seq::new(count(input), |i: int| bfloat_pair_call(input, i)));
    } else {
        lemma_in_range_unrolled(out, tmp, Seq::new(count(out), |i: int| half_call(input, i)));
        lemma_in_range_unrolled(out, tmp, Seq::new(count(out), |i: int| bfloat_call(input, i)));
    }
}

/// Both sides hold equally many numbers, or one element each.
pub open spec fn matched(input: Variable, out: Variable) -> bool {
    ||| input.spec_item().lanes() == out.spec_item().lanes()
    ||| input.spec_item().vectorization == 1 && out.spec_item().vectorization == 1
}

/// A packable value is taken by twos just where its numbers come out even.
proof fn lemma_width(var: Variable)
    requires
        var.spec_elem().is_minifloat() || var.spec_elem().spec_unpacked() is F16
            || var.spec_elem().spec_unpacked() is BF16,
    ensures
        count(var) == if var.spec_item().lanes() % 2 == 0 {
            var.spec_item().lanes() / 2
        } else {
            var.spec_item().lanes()
        },
{
    var.spec_item().lemma_lanes();
}

proof fn lemma_covers_same_lanes(value: Variable, out: Variable)
    requires
        value.spec_elem().spec_unpacked().is_plain_float(),
        out.spec_elem().is_minifloat(),
        value.spec_item().lanes() == out.spec_item().lanes(),
    ensures
        covers(value, out),
{
    if value.spec_elem().is_wide() {
        value.spec_item().lemma_lanes();
        out.spec_item().lemma_optimized();
    } else {
        lemma_width(value);
        lemma_width(out);
    }
}

proof fn lemma_covers_one_element(value: Variable, out: Variable)
    requires
        value.spec_elem().spec_unpacked().is_plain_float(),
        out.spec_elem().is_minifloat(),
        out.spec_item().vectorization == 1,
        value.spec_item().vectorization >= out.spec_elem().spec_packing_factor(),
    ensures
        covers(value, out),
{
    assert(out.spec_item().spec_optimized() == out.spec_item());
    assert(count(out) * width(out) == out.spec_elem().spec_packing_factor()) by (nonlinear_arith)
        requires
            count(out) == 1,
            width(out) == out.spec_elem().spec_packing_factor(),
    ;
}

spec fn steps_in_range(steps: Seq<Step>) -> bool {
    forall|i: int| 0 <= i < steps.len() ==> reads_in_range((#[trigger] steps[i]).text())
}

proof fn lemma_in_range_steps(steps: Seq<Step>)
    requires
        steps_in_range(steps),
    ensures
        reads_in_range(steps_text(steps)),
    decreases steps.len(),
{
    broadcast use group_in_range;

    if steps.len() > 0 {
        lemma_in_range_steps(steps.drop_last());
    }
}

/// Nothing is read past the end of a variable, as long as what the last conversion reads has all
/// the numbers that it takes.
#[verifier::rlimit(30)]
pub proof fn law_reads_stay_in_range(input: Variable, out: Variable, next_tmp: u32)
    requires
        convertible(input, out),
        out.spec_elem().is_minifloat() ==> covers(
            plan(input, out, next_tmp).steps.last().input,
            out,
        ),
    ensures
        reads_in_range(plan(input, out, next_tmp).text()),
{
    broadcast use group_in_range;

    reveal(Step::text);
    let wide = widen(input, out, next_tmp);
    let copied = broadcast_scalar(wide, out);
    let float = leave_integers(copied);
    let chain = plan(input, out, next_tmp);
    let last = chain.steps.last();
    if input.spec_elem().is_minifloat() {
        law_widening_fills_its_result(input, out, next_tmp);
        lemma_in_range_widening(input, wide.value, wide.steps[0].tmp);
    }
    if out.spec_elem().is_minifloat() {
        lemma_in_range_narrowing(last.input, out, last.tmp);
    }
    assert(steps_in_range(wide.steps));
    assert(steps_in_range(copied.steps));
    assert(steps_in_range(float.steps));
    lemma_in_range_steps(chain.steps);
}

/// What the last conversion reads has all the numbers that it takes, where both sides hold equally
/// many, or one element each.
pub proof fn law_matched_sides_are_covered(input: Variable, out: Variable, next_tmp: u32)
    requires
        convertible(input, out),
        matched(input, out),
        out.spec_elem().is_minifloat(),
    ensures
        covers(plan(input, out, next_tmp).steps.last().input, out),
{
    let wide = widen(input, out, next_tmp);
    let copied = broadcast_scalar(wide, out);
    let float = leave_integers(copied);
    let value = plan(input, out, next_tmp).steps.last().input;
    input.spec_item().lemma_lanes();
    value.spec_item().lemma_lanes();
    out.spec_item().lemma_lanes();
    input.spec_elem().lemma_packing_factor();
    out.spec_elem().lemma_packing_factor();
    if broadcasts(wide.value, out) {
        assert(out.spec_item().vectorization == 1);
        lemma_covers_one_element(value, out);
    } else if input.spec_item().lanes() == out.spec_item().lanes() {
        lemma_covers_same_lanes(value, out);
    } else {
        lemma_covers_one_element(value, out);
    }
}

} // verus!
