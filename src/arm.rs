//! How operands and mnemonics are written in ARM64 assembly.
use crate::ieee::{float_can_be_immediate, float_text, float_is_immediate, push_float};
use crate::ir::{Condition, Operation};
use crate::text::{decimal, push_decimal, push_signed, signed_decimal};
use crate::types::{Data, Primitive};
use vstd::prelude::*;

verus! {

/// Operands that can be written as an immediate.
pub trait ImmediateCompat {
    spec fn spec_can_be_immediate(&self) -> bool;

    spec fn spec_represent(&self) -> Seq<char>;

    fn can_be_immediate(&self) -> (r: bool)
        ensures
            r == self.spec_can_be_immediate(),
    ;

    fn represent(&self) -> (r: String)
        ensures
            r@ == self.spec_represent(),
    ;
}

/// An integer fits an immediate when its magnitude is at most 2^16.
pub open spec fn integer_is_immediate(x: int) -> bool {
    -65536 <= x <= 65536
}

/// An immediate integer is written in decimal; a larger one after `=`, to be
/// loaded from the literal pool.
pub open spec fn integer_text(x: int) -> Seq<char> {
    if integer_is_immediate(x) { signed_decimal(x) } else { seq!['='] + signed_decimal(x) }
}

impl ImmediateCompat for i64 {
    open spec fn spec_can_be_immediate(&self) -> bool {
        integer_is_immediate(*self as int)
    }

    open spec fn spec_represent(&self) -> Seq<char> {
        integer_text(*self as int)
    }

    fn can_be_immediate(&self) -> (r: bool) {
        -65536 <= *self && *self <= 65536
    }

    fn represent(&self) -> (r: String) {
        let mut s = String::new();
        if !self.can_be_immediate() {
            proof { reveal_strlit("="); }
            s.append("=");
        }
        push_signed(&mut s, *self);
        assert(s@ =~= integer_text(*self as int));
        s
    }
}

/// The integer value of a literal, as `as i64` gives it.
pub open spec fn data_integer(d: Data) -> int {
    match d {
        Data::Long(x) => x as int,
        Data::Integer(x) => x as int,
        Data::Short(x) => x as int,
        Data::Byte(x) => x as int,
        Data::Float(bits) => crate::ieee::float_truncate(bits),
    }
}

/// The single-precision bit pattern of a literal, as `as f32` gives it.
pub open spec fn data_float(d: Data) -> nat {
    match d {
        Data::Float(bits) => bits as nat,
        _ => crate::ieee::integer_to_float(data_integer(d)),
    }
}

pub fn integer_of(d: &Data) -> (r: i64)
    ensures
        r as int == data_integer(*d),
{
    match *d {
        Data::Long(x) => x,
        Data::Integer(x) => x as i64,
        Data::Short(x) => x as i64,
        Data::Byte(x) => x as i64,
        Data::Float(bits) => crate::ieee::float_to_integer(bits),
    }
}

pub fn float_of(d: &Data) -> (r: u32)
    ensures
        r as nat == data_float(*d),
{
    match *d {
        Data::Float(bits) => bits,
        _ => crate::ieee::integer_to_float_bits(integer_of(d)),
    }
}

impl ImmediateCompat for Data {
    open spec fn spec_can_be_immediate(&self) -> bool {
        match *self {
            Data::Float(bits) => float_is_immediate(bits),
            _ => integer_is_immediate(data_integer(*self)),
        }
    }

    open spec fn spec_represent(&self) -> Seq<char> {
        match *self {
            Data::Float(bits) => float_text(bits),
            _ => integer_text(data_integer(*self)),
        }
    }

    fn can_be_immediate(&self) -> (r: bool) {
        match *self {
            Data::Float(bits) => float_can_be_immediate(bits),
            _ => integer_of(self).can_be_immediate(),
        }
    }

    fn represent(&self) -> (r: String) {
        match *self {
            Data::Float(bits) => {
                let mut s = String::new();
                push_float(&mut s, bits);
                assert(s@ =~= float_text(bits));
                s
            },
            _ => integer_of(self).represent(),
        }
    }
}

/// The register prefix of a primitive: `w` for 32-bit and narrower
/// integers, `x` for 64-bit ones, `s` for single precision.
pub open spec fn register_prefix(p: Primitive) -> Seq<char> {
    match p {
        Primitive::Byte | Primitive::Short | Primitive::Int => "w"@,
        Primitive::Float => "s"@,
        Primitive::Long => "x"@,
    }
}

pub fn as_register(p: Primitive) -> (r: &'static str)
    ensures
        r@ == register_prefix(p),
{
    match p {
        Primitive::Byte | Primitive::Short | Primitive::Int => "w",
        Primitive::Float => "s",
        Primitive::Long => "x",
    }
}

/// The text of a `cset` condition.
pub open spec fn condition_text(c: Condition) -> Seq<char> {
    match c {
        Condition::Eq => "eq"@,
        Condition::Ne => "ne"@,
        Condition::Gt => "gt"@,
        Condition::Lt => "lt"@,
        Condition::Ge => "ge"@,
        Condition::Le => "le"@,
    }
}

pub fn condition(c: Condition) -> (r: &'static str)
    ensures
        r@ == condition_text(c),
{
    match c {
        Condition::Eq => "eq",
        Condition::Ne => "ne",
        Condition::Gt => "gt",
        Condition::Lt => "lt",
        Condition::Ge => "ge",
        Condition::Le => "le",
    }
}

/// The base mnemonic of an operation.
pub open spec fn base_mnemonic(op: Operation) -> Seq<char> {
    match op {
        Operation::Mov => "mov"@,
        Operation::Add => "add"@,
        Operation::Sub => "sub"@,
        Operation::Mul => "mul"@,
        Operation::Div => "div"@,
        Operation::And => "and"@,
        Operation::Orr => "orr"@,
        Operation::Eor => "eor"@,
        Operation::Asr => "asr"@,
        Operation::Lsl => "lsl"@,
        Operation::CSet => "cset"@,
        Operation::Cmp => "cmp"@,
        Operation::Str => "str"@,
        Operation::Ldr => "ldr"@,
        Operation::Ldg => "ldg"@,
        Operation::Stg => "stg"@,
        Operation::Neg => "neg"@,
        Operation::Ret => "ret"@,
        Operation::FCvtZS => "fcvtzs"@,
        Operation::SCvtF => "scvtf"@,
        Operation::Lbl => ""@,
        Operation::B => "b"@,
        Operation::BEq => "b.eq"@,
    }
}

/// The mnemonic of an operation on operands of a primitive type: `f` before
/// floating-point arithmetic, `s` before integer division, and the byte and
/// half-word forms of loads and stores. `None` when the operation needs a
/// type and has none.
pub open spec fn mnemonic(op: Operation, datatype: Option<Primitive>) -> Option<Seq<char>> {
    let base = base_mnemonic(op);
    let arithmetic = op == Operation::Mov || op == Operation::Add || op == Operation::Mul
        || op == Operation::Sub || op == Operation::Div;
    match datatype {
        None => if arithmetic || op == Operation::Str || op == Operation::Ldr { None } else { Some(base) },
        Some(p) => if arithmetic && p == Primitive::Float {
            Some(seq!['f'] + base)
        } else if op == Operation::Div {
            Some(seq!['s'] + base)
        } else if (op == Operation::Str || op == Operation::Ldr) && p == Primitive::Byte {
            Some(base + seq!['b'])
        } else if op == Operation::Ldr && p == Primitive::Short {
            Some(base + seq!['s', 'h'])
        } else if op == Operation::Str && p == Primitive::Short {
            Some(base + seq!['h'])
        } else {
            Some(base)
        },
    }
}

/// The shape of an operation: how many of its two operands it writes, how
/// many fresh result registers it needs, and whether the operands are
/// written in reverse order.
pub open spec fn spec_arity(op: Operation) -> (nat, nat, bool) {
    match op {
        Operation::Add | Operation::Sub | Operation::Mul | Operation::Div | Operation::And
        | Operation::Orr | Operation::Eor | Operation::Asr | Operation::Lsl => (2, 1, false),
        Operation::Neg | Operation::CSet | Operation::FCvtZS | Operation::SCvtF => (1, 1, false),
        Operation::Cmp | Operation::Mov | Operation::Ldr => (2, 0, false),
        Operation::Lbl | Operation::B | Operation::BEq => (1, 0, false),
        Operation::Ret | Operation::Ldg | Operation::Stg => (0, 0, false),
        Operation::Str => (2, 0, true),
    }
}

impl Operation {
    fn base(&self) -> (r: &'static str)
        ensures
            r@ == base_mnemonic(*self),
    {
        match self {
            Operation::Mov => "mov",
            Operation::Add => "add",
            Operation::Sub => "sub",
            Operation::Mul => "mul",
            Operation::Div => "div",
            Operation::And => "and",
            Operation::Orr => "orr",
            Operation::Eor => "eor",
            Operation::Asr => "asr",
            Operation::Lsl => "lsl",
            Operation::CSet => "cset",
            Operation::Cmp => "cmp",
            Operation::Str => "str",
            Operation::Ldr => "ldr",
            Operation::Ldg => "ldg",
            Operation::Stg => "stg",
            Operation::Neg => "neg",
            Operation::Ret => "ret",
            Operation::FCvtZS => "fcvtzs",
            Operation::SCvtF => "scvtf",
            Operation::Lbl => "",
            Operation::B => "b",
            Operation::BEq => "b.eq",
        }
    }

    /// The mnemonic for operands of the given type.
    pub fn instruction(&self, datatype: Option<Primitive>) -> (r: Option<String>)
        ensures
            match mnemonic(*self, datatype) {
                Some(m) => r is Some && r->Some_0@ == m,
                None => r is None,
            },
    {
        let op = *self;
        let arithmetic = op == Operation::Mov || op == Operation::Add || op == Operation::Mul
            || op == Operation::Sub || op == Operation::Div;
        let base = self.base();
        match datatype {
            None => if arithmetic || op == Operation::Str || op == Operation::Ldr {
                None
            } else {
                Some(String::from_str(base))
            },
            Some(p) => {
                proof {
                    reveal_strlit("f");
                    reveal_strlit("s");
                    reveal_strlit("b");
                    reveal_strlit("sh");
                    reveal_strlit("h");
                }
                let mut s = String::new();
                if arithmetic && p == Primitive::Float {
                    s.append("f");
                    s.append(base);
                } else if op == Operation::Div {
                    s.append("s");
                    s.append(base);
                } else if (op == Operation::Str || op == Operation::Ldr) && p == Primitive::Byte {
                    s.append(base);
                    s.append("b");
                } else if op == Operation::Ldr && p == Primitive::Short {
                    s.append(base);
                    s.append("sh");
                } else if op == Operation::Str && p == Primitive::Short {
                    s.append(base);
                    s.append("h");
                } else {
                    s.append(base);
                }
                Some(s)
            },
        }
    }

    pub fn arity(&self) -> (r: (usize, usize, bool))
        ensures
            (r.0 as nat, r.1 as nat, r.2) == spec_arity(*self),
    {
        match self {
            Operation::Add | Operation::Sub | Operation::Mul | Operation::Div | Operation::And
            | Operation::Orr | Operation::Eor | Operation::Asr | Operation::Lsl => (2, 1, false),
            Operation::Neg | Operation::CSet | Operation::FCvtZS | Operation::SCvtF => (1, 1, false),
            Operation::Cmp | Operation::Mov | Operation::Ldr => (2, 0, false),
            Operation::Lbl | Operation::B | Operation::BEq => (1, 0, false),
            Operation::Ret | Operation::Ldg | Operation::Stg => (0, 0, false),
            Operation::Str => (2, 0, true),
        }
    }
}

} // verus!
