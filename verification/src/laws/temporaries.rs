//! How the temporaries are numbered.

use crate::element::Elem;
use crate::item::Item;
use crate::plan::{
    broadcast_scalar, broadcasts, convertible, leave_integers, plan, widen, Chain, Step, StepKind,
};
use crate::text::next_id;
use crate::variable::Variable;
use vstd::prelude::*;

verus! {

/// The numbers of the temporaries that a step makes: its result, and the one it needs for itself.
pub open spec fn step_numbers(step: Step) -> Seq<u32> {
    let result = if step.fresh {
        seq![step.out->Tmp_id]
    } else {
        seq![]
    };
    let inner = if step.next_tmp() != step.tmp {
        seq![step.tmp]
    } else {
        seq![]
    };
    result + inner
}

/// The numbers of the temporaries that the steps make, in order.
pub open spec fn numbers(steps: Seq<Step>) -> Seq<u32>
    decreases steps.len(),
{
    if steps.len() == 0 {
        seq![]
    } else {
        numbers(steps.drop_last()) + step_numbers(steps.last())
    }
}

/// The `n`-th number after `first`, starting over where they run out.
pub open spec fn number_after(first: u32, n: int) -> u32 {
    ((first + n) % (u32::MAX + 1)) as u32
}

/// The temporaries of the chain have the numbers from `first` on, in order and without a gap.
pub open spec fn numbered_from(chain: Chain, first: u32) -> bool {
    let used = numbers(chain.steps);
    &&& used == Seq::new(used.len(), |i: int| number_after(first, i))
    &&& chain.next_tmp == number_after(first, used.len() as int)
}

proof fn lemma_numbered_push(chain: Chain, step: Step, first: u32)
    requires
        numbered_from(chain, first),
        step.fresh ==> step.out == (Variable::Tmp {
            id: chain.next_tmp,
            item: step.out.spec_item(),
        }) && step.tmp == next_id(chain.next_tmp),
        !step.fresh ==> step.tmp == chain.next_tmp,
    ensures
        numbered_from(chain.push(step), first),
        numbers(chain.push(step).steps).len() <= numbers(chain.steps).len() + 2,
        step.kind is Assign || !step.fresh ==> numbers(chain.push(step).steps).len() <= numbers(
            chain.steps,
        ).len() + 1,
{
    step.lemma_next_tmp();
    let next = chain.push(step);
    let used = numbers(chain.steps);
    assert(next.steps.drop_last() =~= chain.steps);
    assert(numbers(next.steps) == used + step_numbers(step));
    assert(numbers(next.steps) =~= Seq::new(
        numbers(next.steps).len(),
        |i: int| number_after(first, i),
    ));
}

proof fn lemma_few_numbers_are_distinct(chain: Chain, first: u32)
    requires
        numbered_from(chain, first),
        numbers(chain.steps).len() <= u32::MAX,
    ensures
        numbers(chain.steps).no_duplicates(),
        !numbers(chain.steps).contains(chain.next_tmp),
{
    let used = numbers(chain.steps);
    assert forall|i: int, j: int| 0 <= i < j <= used.len() implies number_after(first, i)
        != number_after(first, j) by {}
    assert forall|i: int| 0 <= i < used.len() implies used[i] == number_after(first, i) by {}
}

/// The temporaries of a conversion are at most five. They are numbered from the given number on,
/// so no two are the same, and what comes next has another number again.
pub proof fn law_temporaries_are_distinct(input: Variable, out: Variable, next_tmp: u32)
    requires
        convertible(input, out),
    ensures
        ({
            let chain = plan(input, out, next_tmp);
            let used = numbers(chain.steps);
            &&& numbered_from(chain, next_tmp)
            &&& used.len() <= 5
            &&& used.no_duplicates()
            &&& !used.contains(chain.next_tmp)
        }),
{
    let start = Chain::start(input, next_tmp);
    let wide = widen(input, out, next_tmp);
    let copied = broadcast_scalar(wide, out);
    let float = leave_integers(copied);
    let chain = plan(input, out, next_tmp);
    assert(numbers(start.steps) =~= Seq::new(0, |i: int| number_after(next_tmp, i)));
    if input.spec_elem().is_minifloat() {
        lemma_numbered_push(start, wide.steps.last(), next_tmp);
    }
    assert(numbered_from(wide, next_tmp) && numbers(wide.steps).len() <= 2);
    if broadcasts(wide.value, out) {
        lemma_numbered_push(wide, copied.steps.last(), next_tmp);
    }
    assert(numbered_from(copied, next_tmp) && numbers(copied.steps).len() <= 3);
    if copied.value.spec_elem().is_integer() {
        assert(numbers(wide.steps).len() == 0);
        lemma_numbered_push(copied, float.steps.last(), next_tmp);
    }
    assert(numbered_from(float, next_tmp) && numbers(float.steps).len() <= 3);
    if out.spec_elem().is_scale() && float.value.spec_elem() is F16 {
        let item = Item { elem: Elem::BF16, ..float.value.spec_item() };
        let source = float.to_new(StepKind::Assign, item);
        lemma_numbered_push(float, source.steps.last(), next_tmp);
        lemma_numbered_push(source, chain.steps.last(), next_tmp);
    } else if chain != float {
        lemma_numbered_push(float, chain.steps.last(), next_tmp);
    }
    assert(numbered_from(chain, next_tmp) && numbers(chain.steps).len() <= 5);
    lemma_few_numbers_are_distinct(chain, next_tmp);
}

} // verus!
