//! The instruction and field model: what one cell of the core holds, and the
//! execution cursor that runs through it.

use vstd::prelude::*;

verus! {

/// What an instruction does when it is executed.
#[derive(Clone, Copy, Debug, PartialEq, Eq, Structural)]
pub enum Opcode {
    Dat,
    Mov,
    Add,
    Sub,
    Mul,
    Div,
    Mod,
    Jmp,
    Jmz,
    Jmn,
    Djn,
    /// `CMP`, the older name of `SEQ`.
    Cmp,
    /// `SEQ`: skip the next instruction if source and destination are equal.
    SkipEq,
    /// `SNE`: skip the next instruction if source and destination differ.
    SkipNe,
    /// `SLT`: skip the next instruction if the source is less than the destination.
    SkipLt,
    Spl,
    Nop,
}

/// Which field(s) of the source and of the destination an opcode works on.
#[derive(Clone, Copy, Debug, PartialEq, Eq, Structural)]
pub enum Modifier {
    A,
    B,
    AB,
    BA,
    F,
    X,
    I,
}

/// How a field's value is turned into an effective address.
#[derive(Clone, Copy, Debug, PartialEq, Eq, Structural)]
pub enum AddressMode {
    Immediate,
    Direct,
    IndirectA,
    IndirectB,
    PreDecIndirectA,
    PreDecIndirectB,
    PostIncIndirectA,
    PostIncIndirectB,
}

/// One of the two fields of a cell.
#[derive(Clone, Copy, Debug, PartialEq, Eq, Structural)]
pub enum Which {
    A,
    B,
}

/// An operand: an address mode and a value on the ring `[0, coresize)`.
#[derive(Clone, Copy, Debug, PartialEq, Eq, Structural)]
pub struct Field {
    pub address_mode: AddressMode,
    pub value: usize,
}

/// One cell of the core. Data is a `DAT` instruction.
#[derive(Clone, Copy, Debug, PartialEq, Eq, Structural)]
pub struct Instruction {
    pub opcode: Opcode,
    pub modifier: Modifier,
    pub field_a: Field,
    pub field_b: Field,
}

/// An execution cursor: the team it fights for and its program counter.
#[derive(Clone, Copy, Debug, PartialEq, Eq, Structural)]
pub struct Process {
    pub team: u8,
    pub pointer: usize,
}

impl AddressMode {
    /// The field of the pointer cell that an indirect mode reads, if any.
    pub open spec fn pointer_field(self) -> Option<Which> {
        match self {
            AddressMode::Immediate | AddressMode::Direct => None,
            AddressMode::IndirectA | AddressMode::PreDecIndirectA | AddressMode::PostIncIndirectA => Some(
                Which::A,
            ),
            AddressMode::IndirectB | AddressMode::PreDecIndirectB | AddressMode::PostIncIndirectB => Some(
                Which::B,
            ),
        }
    }

    /// The field of the pointer cell that is decremented before resolution, if any.
    pub open spec fn pre_decrements(self) -> Option<Which> {
        match self {
            AddressMode::PreDecIndirectA => Some(Which::A),
            AddressMode::PreDecIndirectB => Some(Which::B),
            _ => None,
        }
    }

    /// The field of the pointer cell that is incremented after execution, if any.
    pub open spec fn post_increments(self) -> Option<Which> {
        match self {
            AddressMode::PostIncIndirectA => Some(Which::A),
            AddressMode::PostIncIndirectB => Some(Which::B),
            _ => None,
        }
    }

    /// Whether resolving this mode leaves the core as it was.
    pub open spec fn is_pure(self) -> bool {
        self.pre_decrements() is None && self.post_increments() is None
    }
}

impl Instruction {
    /// The value of the chosen field.
    pub open spec fn value(self, which: Which) -> int {
        match which {
            Which::A => self.field_a.value as int,
            Which::B => self.field_b.value as int,
        }
    }

    /// This cell with the value of the chosen field replaced.
    pub open spec fn with_value(self, which: Which, value: int) -> Instruction {
        match which {
            Which::A => Instruction {
                field_a: Field { value: value as usize, ..self.field_a },
                ..self
            },
            Which::B => Instruction {
                field_b: Field { value: value as usize, ..self.field_b },
                ..self
            },
        }
    }

    /// Both field values lie on the ring of size `coresize`.
    pub open spec fn in_range(self, coresize: int) -> bool {
        self.field_a.value < coresize && self.field_b.value < coresize
    }

    /// The value of the chosen field.
    pub fn get(&self, which: Which) -> (r: usize)
        ensures
            r == self.value(which),
    {
        match which {
            Which::A => self.field_a.value,
            Which::B => self.field_b.value,
        }
    }

    /// Replaces the value of the chosen field.
    pub fn set(&mut self, which: Which, value: usize)
        ensures
            *final(self) == old(self).with_value(which, value as int),
    {
        match which {
            Which::A => {
                self.field_a.value = value;
            },
            Which::B => {
                self.field_b.value = value;
            },
        }
    }
}

/// The cell that an empty core is filled with: `DAT.F #0, #0`.
pub open spec fn default_cell() -> Instruction {
    Instruction {
        opcode: Opcode::Dat,
        modifier: Modifier::F,
        field_a: Field { address_mode: AddressMode::Immediate, value: 0 },
        field_b: Field { address_mode: AddressMode::Immediate, value: 0 },
    }
}

/// The cell that an empty core is filled with: `DAT.F #0, #0`.
pub fn default_instruction() -> (cell: Instruction)
    ensures
        cell == default_cell(),
{
    Instruction {
        opcode: Opcode::Dat,
        modifier: Modifier::F,
        field_a: Field { address_mode: AddressMode::Immediate, value: 0 },
        field_b: Field { address_mode: AddressMode::Immediate, value: 0 },
    }
}

} // verus!
