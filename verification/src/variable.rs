//! Kernel variables, and the instruction that copies one into another.

use crate::element::Elem;
use crate::item::Item;
use vstd::prelude::*;

verus! {

/// A variable of the kernel, as seen under the type `item`.
#[derive(Clone, Copy, Debug, PartialEq, Eq, Structural)]
pub enum Variable {
    /// One that the kernel declares elsewhere.
    Named { id: u32, item: Item },
    /// A temporary, declared where it is first written.
    Tmp { id: u32, item: Item },
}

/// One element of a variable.
#[derive(Clone, Copy, Debug, PartialEq, Eq, Structural)]
pub struct IndexedVariable {
    pub var: Variable,
    pub index: usize,
}

/// What an instruction with one operand reads and writes.
#[derive(Clone, Copy, Debug, PartialEq, Eq, Structural)]
pub struct UnaryInstruction {
    pub input: Variable,
    pub out: Variable,
}

/// The instructions that a conversion is made of besides CUDA's own conversions.
#[derive(Clone, Copy, Debug, PartialEq, Eq, Structural)]
pub enum Instruction {
    /// Copies the input to the output, with the casts that the language has.
    Assign(UnaryInstruction),
}

impl Variable {
    pub open spec fn spec_item(self) -> Item {
        match self {
            Variable::Named { item, .. } => item,
            Variable::Tmp { item, .. } => item,
        }
    }

    pub open spec fn spec_elem(self) -> Elem {
        self.spec_item().elem
    }

    /// The same variable under another type.
    pub open spec fn spec_with_item(self, item: Item) -> Variable {
        match self {
            Variable::Named { id, .. } => Variable::Named { id, item },
            Variable::Tmp { id, .. } => Variable::Tmp { id, item },
        }
    }

    /// The same variable, its numbers taken two at a time where they can be.
    pub open spec fn spec_optimized(self) -> Variable {
        self.spec_with_item(self.spec_item().spec_optimized())
    }

    /// The type of the variable.
    pub fn item(self) -> (item: Item)
        ensures
            item == self.spec_item(),
    {
        match self {
            Variable::Named { item, .. } => item,
            Variable::Tmp { item, .. } => item,
        }
    }

    /// The type of the variable's elements.
    pub fn elem(self) -> (elem: Elem)
        ensures
            elem == self.spec_elem(),
    {
        self.item().elem
    }

    /// The same variable, its numbers taken two at a time where they can be.
    pub fn optimized(self) -> (var: Variable)
        ensures
            var == self.spec_optimized(),
    {
        match self {
            Variable::Named { id, item } => Variable::Named { id, item: item.optimized() },
            Variable::Tmp { id, item } => Variable::Tmp { id, item: item.optimized() },
        }
    }

    /// One element of the variable.
    pub fn index(self, index: usize) -> (indexed: IndexedVariable)
        ensures
            indexed == (IndexedVariable { var: self, index }),
    {
        IndexedVariable { var: self, index }
    }
}

} // verus!
