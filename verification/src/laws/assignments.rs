//! Which variables are assigned.

use crate::convert::{
    bfloat_call, bfloat_pair_call, count, fp4_fp6_call, fp8_call, half_call, half_pair_call,
    minifloat_to_half, pair_entry, scale_call, scale_to_bfloat, split, to_fp4_fp6, to_fp8, to_scale,
    unroll_target, unrolled,
};
use crate::element::Elem;
use crate::item::Item;
use crate::laws::temporaries::{law_temporaries_are_distinct, numbers, step_numbers};
use crate::plan::{
    broadcast_scalar, convertible, leave_integers, plan, steps_text, widen, widened_item, Step,
    StepKind,
};
use crate::text::{characters, join, Glyph, Shown, Text};
use crate::variable::{Instruction, Variable};
use vstd::prelude::*;

verus! {

/// The variables that a glyph assigns.
pub open spec fn assigned_by(glyph: Glyph) -> Seq<Variable> {
    match glyph {
        Glyph::Gap(Shown::Left(var)) => seq![var],
        Glyph::Gap(Shown::Instruction(Instruction::Assign(assign))) => seq![assign.out],
        _ => seq![],
    }
}

/// The variables that the glyphs assign, in order.
pub open spec fn assigned(glyphs: Seq<Glyph>) -> Seq<Variable>
    decreases glyphs.len(),
{
    if glyphs.len() == 0 {
        seq![]
    } else {
        assigned(glyphs.drop_last()) + assigned_by(glyphs.last())
    }
}

/// The variables that a text assigns, in order.
#[verifier::opaque]
pub open spec fn assigns(text: Text) -> Seq<Variable> {
    assigned(text.glyphs)
}

proof fn lemma_assigned_add(a: Seq<Glyph>, b: Seq<Glyph>)
    ensures
        assigned(a + b) == assigned(a) + assigned(b),
    decreases b.len(),
{
    if b.len() == 0 {
        assert(a + b =~= a);
    } else {
        assert((a + b).drop_last() =~= a + b.drop_last());
        lemma_assigned_add(a, b.drop_last());
    }
    assert(assigned(a + b) =~= assigned(a) + assigned(b));
}

proof fn lemma_assigned_characters(chars: Seq<char>)
    ensures
        assigned(characters(chars)) == Seq::<Variable>::empty(),
    decreases chars.len(),
{
    if chars.len() > 0 {
        assert(characters(chars).drop_last() =~= characters(chars.drop_last()));
        lemma_assigned_characters(chars.drop_last());
    }
    assert(assigned(characters(chars)) =~= seq![]);
}

broadcast proof fn lemma_assigns_empty()
    ensures
        #[trigger] assigns(Text::empty()) == Seq::<Variable>::empty(),
{
    reveal(assigns);
}

broadcast proof fn lemma_assigns_lit(text: Text, chars: Seq<char>)
    ensures
        #[trigger] assigns(text.lit(chars)) == assigns(text),
{
    reveal(assigns);
    lemma_assigned_add(text.glyphs, characters(chars));
    lemma_assigned_characters(chars);
}

broadcast proof fn lemma_assigns_show(text: Text, shown: Shown)
    ensures
        #[trigger] assigns(text.show(shown)) == assigns(text) + assigned_by(Glyph::Gap(shown)),
{
    reveal(assigns);
    assert(text.show(shown).glyphs.drop_last() =~= text.glyphs);
}

broadcast proof fn lemma_assigns_cat(text: Text, other: Text)
    ensures
        #[trigger] assigns(text.cat(other)) == assigns(text) + assigns(other),
{
    reveal(assigns);
    lemma_assigned_add(text.glyphs, other.glyphs);
}

broadcast group group_assigns {
    lemma_assigns_empty,
    lemma_assigns_lit,
    lemma_assigns_show,
    lemma_assigns_cat,
}

/// The text assigns nothing.
pub open spec fn only_reads(text: Text) -> bool {
    assigns(text) == Seq::<Variable>::empty()
}

proof fn lemma_assigns_join(entries: Seq<Text>, separator: Seq<char>)
    requires
        forall|i: int| 0 <= i < entries.len() ==> only_reads(#[trigger] entries[i]),
    ensures
        only_reads(join(entries, separator)),
    decreases entries.len(),
{
    broadcast use group_assigns;

    if entries.len() > 1 {
        lemma_assigns_join(entries.drop_last(), separator);
        assert(assigns(join(entries, separator)) =~= seq![]);
    }
}

proof fn lemma_assigns_unrolled(out: Variable, tmp: u32, entries: Seq<Text>)
    requires
        forall|i: int| 0 <= i < entries.len() ==> only_reads(#[trigger] entries[i]),
    ensures
        assigns(unrolled(out, tmp, entries)) == if out.spec_item()
            != out.spec_item().spec_optimized() {
            seq![unroll_target(out, tmp), out]
        } else {
            seq![out]
        },
{
    broadcast use group_assigns;

    lemma_assigns_join(entries, ",\n"@);
    if out.spec_item() != out.spec_item().spec_optimized() {
        assert(assigns(unrolled(out, tmp, entries)) =~= seq![unroll_target(out, tmp), out]);
    } else {
        assert(assigns(unrolled(out, tmp, entries)) =~= seq![out]);
    }
}

proof fn lemma_assigns_split(out: Variable, calls: Seq<Text>)
    requires
        forall|i: int| 0 <= i < calls.len() ==> only_reads(#[trigger] calls[i]),
    ensures
        assigns(split(out, calls)) == seq![out],
{
    broadcast use group_assigns;

    let entries = Seq::new(calls.len(), |i: int| pair_entry(out, calls[i]));
    assert forall|i: int| 0 <= i < entries.len() implies only_reads(#[trigger] entries[i]) by {
        assert(only_reads(calls[i]));
        assert(assigns(entries[i]) =~= seq![]);
    }
    lemma_assigns_join(entries, ",\n"@);
    lemma_assigns_join(entries, ""@);
    assert(assigns(split(out, calls)) =~= seq![out]);
}

/// The variables that a step assigns: the temporary that it needs for itself, then its result.
pub open spec fn step_assigns(step: Step) -> Seq<Variable> {
    if step.next_tmp() != step.tmp {
        seq![
            Variable::Tmp { id: step.tmp, item: step.out.spec_item().spec_optimized() },
            step.out,
        ]
    } else {
        seq![step.out]
    }
}

/// A step assigns its result once, at the end, and before it the temporary that it needs for
/// itself, if any.
pub proof fn law_step_assigns_its_result(step: Step)
    ensures
        assigns(step.text()) == step_assigns(step),
{
    broadcast use group_assigns;

    reveal(Step::text);
    reveal(Step::next_tmp);
    reveal(minifloat_to_half);
    reveal(scale_to_bfloat);
    reveal(to_fp4_fp6);
    reveal(to_scale);
    reveal(to_fp8);
    let (input, out, tmp) = (step.input, step.out, step.tmp);
    match step.kind {
        StepKind::MinifloatToHalf => {
            lemma_assigns_split(out, Seq::new(count(input), |i: int| half_pair_call(input, i)));
            lemma_assigns_unrolled(out, tmp, Seq::new(count(out), |i: int| half_call(input, i)));
        },
        StepKind::ScaleToBfloat => {
            lemma_assigns_split(out, Seq::new(count(input), |i: int| bfloat_pair_call(input, i)));
            lemma_assigns_unrolled(out, tmp, Seq::new(count(out), |i: int| bfloat_call(input, i)));
        },
        StepKind::Assign => {
            assert(assigns(step.text()) =~= seq![out]);
        },
        StepKind::ToFp4Fp6 => {
            lemma_assigns_unrolled(
                out,
                tmp,
                Seq::new(count(out), |i: int| fp4_fp6_call(input, out, i)),
            );
        },
        StepKind::ToScale => {
            lemma_assigns_unrolled(
                out,
                tmp,
                Seq::new(count(out), |i: int| scale_call(input, out, i)),
            );
        },
        StepKind::ToFp8 => {
            lemma_assigns_unrolled(
                out,
                tmp,
                Seq::new(count(out), |i: int| fp8_call(input, out, i)),
            );
        },
    }
}

/// The variables that the steps assign, in order.
pub open spec fn steps_assign(steps: Seq<Step>) -> Seq<Variable>
    decreases steps.len(),
{
    if steps.len() == 0 {
        seq![]
    } else {
        steps_assign(steps.drop_last()) + step_assigns(steps.last())
    }
}

/// A conversion assigns nothing but what its steps assign, in their order.
pub proof fn law_conversion_assigns_its_steps(steps: Seq<Step>)
    ensures
        assigns(steps_text(steps)) == steps_assign(steps),
    decreases steps.len(),
{
    broadcast use group_assigns;

    if steps.len() > 0 {
        law_conversion_assigns_its_steps(steps.drop_last());
        law_step_assigns_its_result(steps.last());
    }
}

/// Every step makes a temporary.
pub open spec fn all_fresh(steps: Seq<Step>) -> bool {
    forall|i: int| 0 <= i < steps.len() ==> (#[trigger] steps[i]).fresh && steps[i].out is Tmp
}

/// The variable is a temporary that the steps make.
pub open spec fn made_by(steps: Seq<Step>, var: Variable) -> bool {
    var is Tmp && numbers(steps).contains(var->Tmp_id)
}

proof fn lemma_fresh_steps_assign_once(steps: Seq<Step>)
    requires
        all_fresh(steps),
        numbers(steps).no_duplicates(),
    ensures
        steps_assign(steps).no_duplicates(),
        forall|k: int|
            0 <= k < steps_assign(steps).len() ==> made_by(steps, #[trigger] steps_assign(
                steps,
            )[k]),
    decreases steps.len(),
{
    if steps.len() > 0 {
        let rest = steps.drop_last();
        let step = steps.last();
        let before = numbers(rest);
        let new = step_numbers(step);
        assert forall|i: int, j: int| 0 <= i < before.len() && 0 <= j < new.len() implies before[i]
            != new[j] by {
            assert(numbers(steps)[i] != numbers(steps)[before.len() + j]);
        }
        assert forall|i: int, j: int| 0 <= i < j < before.len() implies before[i] != before[j] by {
            assert(numbers(steps)[i] != numbers(steps)[j]);
        }
        assert forall|i: int, j: int| 0 <= i < j < new.len() implies new[i] != new[j] by {
            assert(numbers(steps)[before.len() + i] != numbers(steps)[before.len() + j]);
        }
        lemma_fresh_steps_assign_once(rest);
        assert(steps[steps.len() - 1] == step);
        assert(new[0] == step.out->Tmp_id);
        if step.next_tmp() != step.tmp {
            assert(new[1] == step.tmp);
        }
        let vars = steps_assign(steps);
        let old_vars = steps_assign(rest);
        assert forall|k: int| 0 <= k < vars.len() implies made_by(steps, #[trigger] vars[k]) by {
            if k < old_vars.len() {
                assert(made_by(rest, old_vars[k]));
                let at = before.index_of(vars[k]->Tmp_id);
                assert(numbers(steps)[at] == vars[k]->Tmp_id);
            } else if vars[k] == step.out {
                assert(numbers(steps)[before.len() as int] == vars[k]->Tmp_id);
            } else {
                assert(numbers(steps)[before.len() as int + 1] == vars[k]->Tmp_id);
            }
        }
        assert forall|i: int, j: int| 0 <= i < j < vars.len() implies vars[i] != vars[j] by {
            if i < old_vars.len() {
                assert(made_by(rest, old_vars[i]));
            }
        }
    }
}

/// No variable is assigned twice, as long as `out` is none of the temporaries.
pub proof fn law_variables_are_assigned_once(input: Variable, out: Variable, next_tmp: u32)
    requires
        convertible(input, out),
        !made_by(plan(input, out, next_tmp).steps, out),
    ensures
        assigns(plan(input, out, next_tmp).text()).no_duplicates(),
{
    let steps = plan(input, out, next_tmp).steps;
    law_conversion_assigns_its_steps(steps);
    law_temporaries_are_distinct(input, out, next_tmp);
    lemma_only_the_last_step_is_not_fresh(input, out, next_tmp);
    if all_fresh(steps) {
        lemma_fresh_steps_assign_once(steps);
    } else {
        let rest = steps.drop_last();
        let step = steps.last();
        let before = numbers(rest);
        assert forall|i: int, j: int| 0 <= i < j < before.len() implies before[i] != before[j] by {
            assert(numbers(steps)[i] != numbers(steps)[j]);
        }
        lemma_fresh_steps_assign_once(rest);
        let vars = steps_assign(steps);
        let old_vars = steps_assign(rest);
        assert forall|i: int, j: int| 0 <= i < j < vars.len() implies vars[i] != vars[j] by {
            if i < old_vars.len() {
                assert(made_by(rest, old_vars[i]));
                let at = before.index_of(old_vars[i]->Tmp_id);
                assert(numbers(steps)[at] == old_vars[i]->Tmp_id);
                assert(made_by(steps, old_vars[i]));
                if step.next_tmp() != step.tmp {
                    assert(numbers(steps)[before.len() as int] == step.tmp);
                }
            } else {
                assert(numbers(steps)[before.len() as int] == step.tmp);
            }
        }
    }
}

proof fn lemma_only_the_last_step_is_not_fresh(input: Variable, out: Variable, next_tmp: u32)
    requires
        convertible(input, out),
    ensures
        ({
            let steps = plan(input, out, next_tmp).steps;
            ||| all_fresh(steps)
            ||| steps.len() > 0 && all_fresh(steps.drop_last()) && !steps.last().fresh
                && steps.last().out == out
        }),
{
    let wide = widen(input, out, next_tmp);
    let copied = broadcast_scalar(wide, out);
    let float = leave_integers(copied);
    let chain = plan(input, out, next_tmp);
    if input.spec_elem().is_minifloat() && widened_item(input) == out.spec_item() {
        assert(chain == wide);
        assert(chain.steps.drop_last() =~= seq![]);
    } else {
        assert(all_fresh(wide.steps));
        assert(all_fresh(copied.steps));
        assert(all_fresh(float.steps));
        if out.spec_elem().is_scale() && float.value.spec_elem() is F16 {
            let item = Item { elem: Elem::BF16, ..float.value.spec_item() };
            let source = float.to_new(StepKind::Assign, item);
            assert(all_fresh(source.steps));
            assert(chain.steps.drop_last() =~= source.steps);
        } else if chain.steps.len() > float.steps.len() {
            assert(chain.steps.drop_last() =~= float.steps);
        }
    }
}

} // verus!
