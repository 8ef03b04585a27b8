//! The linear three-address intermediate representation.
use crate::types::{Data, Primitive};
use vstd::prelude::*;

verus! {

#[derive(Debug, Clone, Copy, PartialEq, Eq, Structural)]
pub enum Operation {
    Str,
    Ldr,
    Ldg,
    Stg,
    Mov,
    Add,
    Sub,
    Lsl,
    Asr,
    Orr,
    Eor,
    Div,
    Mul,
    Neg,
    Cmp,
    CSet,
    And,
    Ret,
    SCvtF,
    FCvtZS,
    Lbl,
    BEq,
    B,
}

/// The condition a `cset` tests.
#[derive(Debug, Clone, Copy, PartialEq, Eq, Structural)]
pub enum Condition {
    Eq,
    Ne,
    Gt,
    Lt,
    Ge,
    Le,
}

#[derive(Debug, Clone)]
pub enum Operand {
    /// A variable by its scope-qualified name, and an element index.
    Identifier(String, usize),
    /// Text handed to the assembler as it is.
    Asm(Condition),
    /// The result of the instruction at this index.
    Address(usize),
    Label(String),
    Data(Data),
    /// A fresh result register, allocated by the assembler.
    Temp,
    Empty,
}

#[derive(Debug)]
pub struct Instruction {
    pub operation: Operation,
    pub operand1: Operand,
    pub operand2: Operand,
}

/// An operand with its text as a sequence of characters.
pub enum OperandView {
    Identifier(Seq<char>, usize),
    Asm(Condition),
    Address(usize),
    Label(Seq<char>),
    Data(Data),
    Temp,
    Empty,
}

pub struct InstructionView {
    pub operation: Operation,
    pub operand1: OperandView,
    pub operand2: OperandView,
}

impl View for Operand {
    type V = OperandView;

    open spec fn view(&self) -> OperandView {
        match self {
            Operand::Identifier(name, index) => OperandView::Identifier(name@, *index),
            Operand::Asm(c) => OperandView::Asm(*c),
            Operand::Address(a) => OperandView::Address(*a),
            Operand::Label(l) => OperandView::Label(l@),
            Operand::Data(d) => OperandView::Data(*d),
            Operand::Temp => OperandView::Temp,
            Operand::Empty => OperandView::Empty,
        }
    }
}

impl View for Instruction {
    type V = InstructionView;

    open spec fn view(&self) -> InstructionView {
        InstructionView { operation: self.operation, operand1: self.operand1@, operand2: self.operand2@ }
    }
}

pub open spec fn code_of(instructions: Seq<Instruction>) -> Seq<InstructionView> {
    instructions.map_values(|i: Instruction| i@)
}

/// The mask that keeps the low byte of a flag.
pub fn byte_mask() -> (r: Operand)
    ensures
        r == Operand::Data(Data::Integer(255)),
{
    Operand::Data(Data::Integer(255))
}

pub fn zero() -> (r: Operand)
    ensures
        r == Operand::Data(Data::Integer(0)),
{
    Operand::Data(Data::Integer(0))
}

/// A copy of an operand, equal to it.
pub fn copy_operand(o: &Operand) -> (r: Operand)
    ensures
        r == *o,
{
    match o {
        Operand::Identifier(name, index) => Operand::Identifier(name.clone(), *index),
        Operand::Asm(c) => Operand::Asm(*c),
        Operand::Address(a) => Operand::Address(*a),
        Operand::Label(l) => Operand::Label(l.clone()),
        Operand::Data(d) => Operand::Data(*d),
        Operand::Temp => Operand::Temp,
        Operand::Empty => Operand::Empty,
    }
}

/// Every address an operand refers to lies below `bound`.
pub open spec fn operand_before(o: OperandView, bound: nat) -> bool {
    match o {
        OperandView::Address(a) => a < bound,
        _ => true,
    }
}

/// Every instruction refers only to instructions before it.
pub open spec fn well_ordered(instructions: Seq<InstructionView>) -> bool {
    forall|i: int|
        0 <= i < instructions.len() ==> operand_before(#[trigger] instructions[i].operand1, i as nat)
            && operand_before(instructions[i].operand2, i as nat)
}

} // verus!
