//! The bytecode operation set of the companion virtual machine, and its
//! decoding from a byte; unknown bytes decode to the illegal marker.

use vstd::prelude::*;

verus! {

/// One virtual-machine operation.
#[derive(Debug, Clone, Copy, PartialEq, Eq, Structural)]
pub enum OpCode {
    Load,
    Add,
    Sub,
    Div,
    Mul,
    Jmp,
    Jeq,
    Jne,
    Eq,
    Neq,
    Inc,
    Dec,
    Prts,
    Hlt,
    Nop,
    /// Illegal instruction: what any unassigned byte decodes to.
    Ige,
}

/// The operation a byte encodes.
pub open spec fn spec_opcode_of(value: u8) -> OpCode {
    if value == 0 {
        OpCode::Load
    } else if value == 1 {
        OpCode::Add
    } else if value == 2 {
        OpCode::Sub
    } else if value == 3 {
        OpCode::Div
    } else if value == 4 {
        OpCode::Mul
    } else if value == 5 {
        OpCode::Jmp
    } else if value == 6 {
        OpCode::Jeq
    } else if value == 7 {
        OpCode::Jne
    } else if value == 8 {
        OpCode::Eq
    } else if value == 9 {
        OpCode::Neq
    } else if value == 10 {
        OpCode::Inc
    } else if value == 11 {
        OpCode::Dec
    } else if value == 12 {
        OpCode::Prts
    } else if value == 13 {
        OpCode::Hlt
    } else if value == 14 {
        OpCode::Nop
    } else {
        OpCode::Ige
    }
}

impl From<u8> for OpCode {
    fn from(value: u8) -> (r: Self)
        ensures
            r == spec_opcode_of(value),
    {
        match value {
            0 => Self::Load,
            1 => Self::Add,
            2 => Self::Sub,
            3 => Self::Div,
            4 => Self::Mul,
            5 => Self::Jmp,
            6 => Self::Jeq,
            7 => Self::Jne,
            8 => Self::Eq,
            9 => Self::Neq,
            10 => Self::Inc,
            11 => Self::Dec,
            12 => Self::Prts,
            13 => Self::Hlt,
            14 => Self::Nop,
            _ => Self::Ige,
        }
    }
}

impl vstd::std_specs::convert::FromSpecImpl<u8> for OpCode {
    open spec fn obeys_from_spec() -> bool {
        true
    }

    open spec fn from_spec(v: u8) -> OpCode {
        spec_opcode_of(v)
    }
}

} // verus!
