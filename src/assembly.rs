//! The assembler: register allocation by liveness, stack layout and the
//! emission of ARM64 text from the intermediate representation.
use crate::arm::{ImmediateCompat, as_register, condition, condition_text, register_prefix};
use crate::ir::{Instruction, InstructionView, Operand, OperandView, Operation};
use crate::error::{AsmFault, AssemblyError, fault_message, fault_text};
use crate::program::{Global, Local, Program, compound_of, locals_size, round16};
use crate::text::{decimal, push_decimal, push_signed, signed_decimal};
use crate::types::{Compound, Primitive};
use vstd::prelude::*;

verus! {

/// The number of general-purpose registers the allocator hands out.
pub const REGISTER_COUNT: usize = 29;

/// A local bound to its offset from the stack pointer.
pub struct Binding {
    pub name: String,
    pub offset: usize,
}

/// The allocator's state: for each register the last instruction that still
/// reads its value, the register holding each instruction's result, and the
/// locals placed on the stack so far.
pub struct Registers {
    pub slots: Vec<usize>,
    pub results: Vec<Option<usize>>,
    pub stack: Vec<Binding>,
}

pub struct RegistersView {
    pub slots: Seq<usize>,
    pub results: Seq<Option<usize>>,
    pub stack: Seq<(Seq<char>, usize)>,
}

impl View for Registers {
    type V = RegistersView;

    open spec fn view(&self) -> RegistersView {
        RegistersView {
            slots: self.slots@,
            results: self.results@,
            stack: self.stack@.map_values(|b: Binding| (b.name@, b.offset)),
        }
    }
}

/// A written operand: text, or a global with a byte offset, which is written
/// `name@offset`.
pub enum Part {
    Text(String),
    Global(String, usize),
}

pub enum PartView {
    Text(Seq<char>),
    Global(Seq<char>, usize),
}

impl View for Part {
    type V = PartView;

    open spec fn view(&self) -> PartView {
        match self {
            Part::Text(s) => PartView::Text(s@),
            Part::Global(n, o) => PartView::Global(n@, *o),
        }
    }
}

pub open spec fn part_text(p: PartView) -> Seq<char> {
    match p {
        PartView::Text(s) => s,
        PartView::Global(n, o) => n + seq!['@'] + decimal(o as nat),
    }
}

/// The allocator before the first instruction: every register free.
pub open spec fn initial(n: nat) -> RegistersView {
    RegistersView {
        slots: Seq::new(REGISTER_COUNT as nat, |i: int| 0usize),
        results: Seq::new(n, |i: int| None::<usize>),
        stack: Seq::empty(),
    }
}

/// The first register from `i` on that is free at `address`: its value's
/// last reader is not after it.
pub open spec fn first_free(slots: Seq<usize>, address: int, i: int) -> Option<nat>
    decreases slots.len() - i,
{
    if i < 0 || i >= slots.len() {
        None
    } else if slots[i] <= address {
        Some(i as nat)
    } else {
        first_free(slots, address, i + 1)
    }
}

pub open spec fn reads(ins: InstructionView, a: nat) -> bool {
    ins.operand1 == OperandView::Address(a as usize) || ins.operand2 == OperandView::Address(a as usize)
}

/// The last instruction below `k` that reads the result of `a`, or `a`.
pub open spec fn last_reader(code: Seq<InstructionView>, a: nat, k: int) -> nat
    decreases k,
{
    if k <= 0 {
        a
    } else if reads(code[k - 1], a) {
        (k - 1) as nat
    } else {
        last_reader(code, a, k - 1)
    }
}

/// Picks a register at `address`. A result register is held until the last
/// instruction that reads it; a temporary one is not held.
pub open spec fn allocate(code: Seq<InstructionView>, st: RegistersView, address: nat, temp: bool) -> Result<(RegistersView, nat), AsmFault> {
    match first_free(st.slots, address as int, 0) {
        Some(i) => if temp {
            Ok((st, i))
        } else {
            Ok((
                RegistersView {
                    slots: st.slots.update(i as int, last_reader(code, address, code.len() as int) as usize),
                    results: st.results.update(address as int, Some(i as usize)),
                    stack: st.stack,
                },
                i,
            ))
        },
        None => Err(AsmFault::OutOfRegisters),
    }
}

/// The address at which a temporary is picked for the instruction at
/// `address`: registers whose values that instruction still reads stay
/// taken.
pub open spec fn temporary_at(address: nat) -> nat {
    if address > 0 { (address - 1) as nat } else { 0 }
}

/// The offset a local is bound to, if it is.
pub open spec fn bound_offset(stack: Seq<(Seq<char>, usize)>, key: Seq<char>) -> Option<usize>
    decreases stack.len(),
{
    if stack.len() == 0 {
        None
    } else if stack.last().0 == key {
        Some(stack.last().1)
    } else {
        bound_offset(stack.drop_last(), key)
    }
}

/// The lowest offset bound so far, or the frame size.
pub open spec fn lowest(stack: Seq<(Seq<char>, usize)>, frame: nat) -> nat
    decreases stack.len(),
{
    if stack.len() == 0 {
        frame
    } else {
        let rest = lowest(stack.drop_last(), frame);
        if (stack.last().1 as nat) < rest { stack.last().1 as nat } else { rest }
    }
}

pub open spec fn is_global_key(globals: Seq<Global>, key: Seq<char>) -> bool {
    exists|i: int| 0 <= i < globals.len() && #[trigger] globals[i].name@ == key
}

/// The compound of the first local stored under `key`.
pub open spec fn local_compound(locals: Seq<Local>, key: Seq<char>) -> Option<Compound>
    decreases locals.len(),
{
    if locals.len() == 0 {
        None
    } else {
        match local_compound(locals.drop_last(), key) {
            Some(c) => Some(c),
            None => if locals.last().name@ == key { Some(locals.last().compound) } else { None },
        }
    }
}

/// `[sp, n]`.
pub open spec fn stack_slot(n: nat) -> Seq<char> {
    "[sp, "@ + decimal(n) + "]"@
}

/// Where element `index` of a variable lives: a bound local's stack slot, a
/// global's name and byte offset, or a local bound now just below the lowest
/// slot so far.
pub open spec fn lookup(locals: Seq<Local>, globals: Seq<Global>, st: RegistersView, frame: nat, key: Seq<char>, index: usize) -> Result<(RegistersView, PartView), AsmFault> {
    match compound_of(locals, globals, key) {
        Some(c) => {
            let offset = index * c.0.spec_size();
            if offset > usize::MAX {
                Err(AsmFault::UnknownSize)
            } else {
                match bound_offset(st.stack, key) {
                    Some(pointer) => if pointer + offset > usize::MAX {
                        Err(AsmFault::UnknownSize)
                    } else {
                        Ok((st, PartView::Text(stack_slot((pointer + offset) as nat))))
                    },
                    None => if is_global_key(globals, key) {
                        Ok((st, PartView::Global(key, offset as usize)))
                    } else {
                        match local_compound(locals, key) {
                            Some(lc) => {
                                let all = lowest(st.stack, frame);
                                if lc.spec_size() > all || all - lc.spec_size() + offset > usize::MAX {
                                    Err(AsmFault::UnknownSize)
                                } else {
                                    let pointer = (all - lc.spec_size()) as usize;
                                    Ok((
                                        RegistersView { stack: st.stack.push((key, pointer)), ..st },
                                        PartView::Text(stack_slot((pointer + offset) as nat)),
                                    ))
                                }
                            },
                            None => Err(AsmFault::UnknownSize),
                        }
                    },
                }
            }
        },
        None => Err(AsmFault::UnknownSize),
    }
}

/// How an operand of the instruction at `address` is written, with `datatype`
/// choosing the register width.
pub open spec fn operand_part(locals: Seq<Local>, globals: Seq<Global>, code: Seq<InstructionView>, st: RegistersView, frame: nat, o: OperandView, address: nat, datatype: Option<Primitive>) -> Result<(RegistersView, PartView), AsmFault> {
    match o {
        OperandView::Identifier(key, index) => lookup(locals, globals, st, frame, key, index),
        OperandView::Label(l) => Ok((st, PartView::Text(l))),
        OperandView::Data(d) => Ok((st, PartView::Text(d.spec_represent()))),
        OperandView::Asm(c) => Ok((st, PartView::Text(condition_text(c)))),
        OperandView::Empty => Ok((st, PartView::Text(Seq::empty()))),
        OperandView::Temp => match datatype {
            Some(p) => match allocate(code, st, address, false) {
                Ok((s2, i)) => Ok((s2, PartView::Text(register_prefix(p) + decimal(i)))),
                Err(f) => Err(f),
            },
            None => Err(AsmFault::UntypedOperand),
        },
        OperandView::Address(x) => match datatype {
            Some(p) => if x < st.results.len() && st.results[x as int] is Some {
                Ok((st, PartView::Text(register_prefix(p) + decimal(st.results[x as int]->Some_0 as nat))))
            } else {
                Err(AsmFault::UnknownResult)
            },
            None => Err(AsmFault::UntypedOperand),
        },
    }
}

/// Appends `[sp, n]` to `out`.
fn push_stack_slot(out: &mut String, n: usize)
    ensures
        final(out)@ == old(out)@ + stack_slot(n as nat),
{
    out.append("[sp, ");
    push_decimal(out, n as u64);
    out.append("]");
    assert(final(out)@ =~= old(out)@ + stack_slot(n as nat));
}

fn last_reader_of(code: &Vec<Instruction>, a: usize, k: usize) -> (r: usize)
    requires
        k <= code@.len(),
    ensures
        r as nat == last_reader(crate::ir::code_of(code@), a as nat, k as int),
    decreases k,
{
    if k == 0 {
        a
    } else if reads_result(&code[k - 1], a) {
        k - 1
    } else {
        last_reader_of(code, a, k - 1)
    }
}

fn reads_result(ins: &Instruction, a: usize) -> (r: bool)
    ensures
        r == reads(ins@, a as nat),
{
    let first = match &ins.operand1 {
        Operand::Address(x) => *x == a,
        _ => false,
    };
    let second = match &ins.operand2 {
        Operand::Address(x) => *x == a,
        _ => false,
    };
    first || second
}

impl Registers {
    pub fn new(n: usize) -> (r: Registers)
        ensures
            r@ == initial(n as nat),
    {
        let mut slots: Vec<usize> = Vec::new();
        let mut i: usize = 0;
        while i < REGISTER_COUNT
            invariant
                i <= REGISTER_COUNT,
                slots@ == Seq::new(i as nat, |j: int| 0usize),
            decreases REGISTER_COUNT - i,
        {
            slots.push(0);
            i = i + 1;
            proof {
                assert(slots@ =~= Seq::new(i as nat, |j: int| 0usize));
            }
        }
        let mut results: Vec<Option<usize>> = Vec::new();
        let mut i: usize = 0;
        while i < n
            invariant
                i <= n,
                results@ == Seq::new(i as nat, |j: int| None::<usize>),
            decreases n - i,
        {
            results.push(None);
            i = i + 1;
            proof {
                assert(results@ =~= Seq::new(i as nat, |j: int| None::<usize>));
            }
        }
        let r = Registers { slots, results, stack: Vec::new() };
        assert(r@.stack =~= Seq::<(Seq<char>, usize)>::empty());
        r
    }

    fn free_register(&self, address: usize) -> (r: Option<usize>)
        ensures
            r is Some ==> r->Some_0 < self.slots@.len(),
            match first_free(self.slots@, address as int, 0) {
                Some(i) => r is Some && r->Some_0 as nat == i,
                None => r is None,
            },
    {
        let mut i: usize = 0;
        while i < self.slots.len()
            invariant
                i <= self.slots@.len(),
                first_free(self.slots@, address as int, 0) == first_free(self.slots@, address as int, i as int),
            decreases self.slots@.len() - i,
        {
            if self.slots[i] <= address {
                return Some(i);
            }
            i = i + 1;
        }
        None
    }

    /// Picks the first free register at `address`; unless it is temporary,
    /// holds it until the last reader of the result and records it as the
    /// result's register.
    pub fn allocate(&mut self, code: &Vec<Instruction>, address: usize, temp: bool) -> (r: Result<usize, AsmFault>)
        requires
            !temp ==> address < old(self).results@.len(),
        ensures
            match allocate(crate::ir::code_of(code@), old(self)@, address as nat, temp) {
                Ok((st, i)) => r is Ok && r->Ok_0 as nat == i && final(self)@ == st,
                Err(f) => r == Err::<usize, AsmFault>(f) && final(self)@ == old(self)@,
            },
    {
        let index = match self.free_register(address) {
            Some(i) => i,
            None => return Err(AsmFault::OutOfRegisters),
        };
        if temp {
            return Ok(index);
        }
        let last = last_reader_of(code, address, code.len());
        self.slots.set(index, last);
        self.results.set(address, Some(index));
        proof {
            let expected = allocate(crate::ir::code_of(code@), old(self)@, address as nat, temp);
            assert(self@.slots =~= expected->Ok_0.0.slots);
            assert(self@.stack =~= expected->Ok_0.0.stack);
        }
        Ok(index)
    }
}

impl Registers {
    fn bound(&self, key: &String) -> (r: Option<usize>)
        ensures
            r == bound_offset(self@.stack, key@),
    {
        let mut k = self.stack.len();
        proof {
            assert(self@.stack.take(k as int) =~= self@.stack);
        }
        while k > 0
            invariant
                k <= self.stack@.len(),
                bound_offset(self@.stack, key@) == bound_offset(self@.stack.take(k as int), key@),
            decreases k,
        {
            proof {
                assert(self@.stack.take(k as int).drop_last() =~= self@.stack.take(k - 1));
            }
            if self.stack[k - 1].name == *key {
                return Some(self.stack[k - 1].offset);
            }
            k = k - 1;
        }
        None
    }

    fn lowest_offset(&self, frame: usize) -> (r: usize)
        ensures
            r as nat == lowest(self@.stack, frame as nat),
    {
        let mut low = frame;
        let mut k: usize = 0;
        while k < self.stack.len()
            invariant
                k <= self.stack@.len(),
                low as nat == lowest(self@.stack.take(k as int), frame as nat),
            decreases self.stack@.len() - k,
        {
            proof {
                assert(self@.stack.take(k + 1).drop_last() =~= self@.stack.take(k as int));
            }
            if self.stack[k].offset < low {
                low = self.stack[k].offset;
            }
            k = k + 1;
        }
        proof {
            assert(self@.stack.take(k as int) =~= self@.stack);
        }
        low
    }

    /// Where element `index` of the variable stored under `key` lives.
    pub fn lookup(&mut self, program: &Program, frame: usize, key: &String, index: usize) -> (r: Result<Part, AsmFault>)
        ensures
            final(self).results@ == old(self).results@,
            match lookup(program.locals@, program.globals@, old(self)@, frame as nat, key@, index) {
                Ok((st, part)) => r is Ok && r->Ok_0@ == part && final(self)@ == st,
                Err(f) => r is Err && r->Err_0 == f,
            },
    {
        let c = match program.compound_under(key) {
            Some(c) => c,
            None => return Err(AsmFault::UnknownSize),
        };
        let size = c.0.size();
        if index > usize::MAX / size {
            proof {
                assert(index * size > usize::MAX) by (nonlinear_arith)
                    requires index > usize::MAX / size, size > 0;
            }
            return Err(AsmFault::UnknownSize);
        }
        proof {
            assert(index * size <= usize::MAX) by (nonlinear_arith)
                requires index <= usize::MAX / size, size > 0;
        }
        let offset = index * size;
        match self.bound(key) {
            Some(pointer) => {
                if pointer > usize::MAX - offset {
                    return Err(AsmFault::UnknownSize);
                }
                let mut text = String::new();
                push_stack_slot(&mut text, pointer + offset);
                return Ok(Part::Text(text));
            },
            None => {},
        }
        if global_key(program, key) {
            return Ok(Part::Global(key.clone(), offset));
        }
        let lc = match first_local(program, key) {
            Some(lc) => lc,
            None => return Err(AsmFault::UnknownSize),
        };
        let all = self.lowest_offset(frame);
        let local_size = match lc.size() {
            Some(n) => n,
            None => return Err(AsmFault::UnknownSize),
        };
        if local_size > all || all - local_size > usize::MAX - offset {
            return Err(AsmFault::UnknownSize);
        }
        let pointer = all - local_size;
        self.stack.push(Binding { name: key.clone(), offset: pointer });
        proof {
            assert(self@.stack =~= old(self)@.stack.push((key@, pointer)));
        }
        let mut text = String::new();
        push_stack_slot(&mut text, pointer + offset);
        Ok(Part::Text(text))
    }
}

fn global_key(program: &Program, key: &String) -> (r: bool)
    ensures
        r == is_global_key(program.globals@, key@),
{
    let mut i: usize = 0;
    while i < program.globals.len()
        invariant
            i <= program.globals@.len(),
            forall|j: int| 0 <= j < i ==> #[trigger] program.globals@[j].name@ != key@,
        decreases program.globals@.len() - i,
    {
        if program.globals[i].name == *key {
            return true;
        }
        i = i + 1;
    }
    false
}

fn first_local(program: &Program, key: &String) -> (r: Option<Compound>)
    ensures
        r == local_compound(program.locals@, key@),
{
    let mut i: usize = 0;
    while i < program.locals.len()
        invariant
            i <= program.locals@.len(),
            local_compound(program.locals@.take(i as int), key@) is None,
        decreases program.locals@.len() - i,
    {
        proof {
            assert(program.locals@.take(i + 1).drop_last() =~= program.locals@.take(i as int));
        }
        if program.locals[i].name == *key {
            proof {
                lemma_local_compound_prefix(program.locals@, key@, (i + 1) as int);
            }
            return Some(program.locals[i].compound);
        }
        i = i + 1;
    }
    proof {
        assert(program.locals@.take(i as int) =~= program.locals@);
    }
    None
}

/// Once a prefix holds a match, the first match stays the same.
proof fn lemma_local_compound_prefix(locals: Seq<Local>, key: Seq<char>, k: int)
    requires
        0 <= k <= locals.len(),
        local_compound(locals.take(k), key) is Some,
    ensures
        local_compound(locals, key) == local_compound(locals.take(k), key),
    decreases locals.len() - k,
{
    if k < locals.len() {
        assert(locals.take(k + 1).drop_last() =~= locals.take(k));
        lemma_local_compound_prefix(locals, key, k + 1);
    } else {
        assert(locals.take(k) =~= locals);
    }
}

impl Registers {
    /// Writes an operand of the instruction at `address`.
    pub fn operand_part(&mut self, program: &Program, frame: usize, o: &Operand, address: usize, datatype: Option<Primitive>) -> (r: Result<Part, AsmFault>)
        requires
            address < old(self).results@.len(),
        ensures
            final(self).results@.len() == old(self).results@.len(),
            match operand_part(program.locals@, program.globals@, program.code(), old(self)@, frame as nat, o@, address as nat, datatype) {
                Ok((st, part)) => r is Ok && r->Ok_0@ == part && final(self)@ == st,
                Err(f) => r is Err && r->Err_0 == f,
            },
    {
        match o {
            Operand::Identifier(key, index) => {
                self.lookup(program, frame, key, *index)
            },
            Operand::Label(l) => Ok(Part::Text(l.clone())),
            Operand::Data(d) => Ok(Part::Text(d.represent())),
            Operand::Asm(c) => Ok(Part::Text(String::from_str(condition(*c)))),
            Operand::Empty => Ok(Part::Text(String::new())),
            Operand::Temp => match datatype {
                Some(p) => match self.allocate(&program.instructions, address, false) {
                    Ok(i) => {
                        let mut text = String::from_str(as_register(p));
                        push_decimal(&mut text, i as u64);
                        Ok(Part::Text(text))
                    },
                    Err(f) => Err(f),
                },
                None => Err(AsmFault::UntypedOperand),
            },
            Operand::Address(x) => match datatype {
                Some(p) => if *x < self.results.len() {
                    match self.results[*x] {
                        Some(reg) => {
                            let mut text = String::from_str(as_register(p));
                            push_decimal(&mut text, reg as u64);
                            Ok(Part::Text(text))
                        },
                        None => Err(AsmFault::UnknownResult),
                    }
                } else {
                    Err(AsmFault::UnknownResult)
                },
                None => Err(AsmFault::UntypedOperand),
            },
        }
    }
}

pub open spec fn starts_with(s: Seq<char>, prefix: Seq<char>) -> bool {
    s.len() >= prefix.len() && s.subrange(0, prefix.len() as int) == prefix
}

/// Arguments separated by `, `.
pub open spec fn join_arguments(args: Seq<Seq<char>>) -> Seq<char>
    decreases args.len(),
{
    if args.len() == 0 {
        Seq::empty()
    } else if args.len() == 1 {
        args[0]
    } else {
        join_arguments(args.drop_last()) + ", "@ + args.last()
    }
}

/// The lines an instruction is written as, given its written operands and
/// the type of its result. A floating-point `mov` of a `#` immediate goes
/// through a temporary integer register; an immediate after `=` is loaded
/// from the literal pool; global loads and stores address the global through
/// a temporary 64-bit register.
pub open spec fn emit(code: Seq<InstructionView>, st: RegistersView, op: Operation, address: nat, datatype: Option<Primitive>, lhs: PartView, rhs: PartView) -> Result<(RegistersView, Seq<Seq<char>>), AsmFault> {
    let l = part_text(lhs);
    let r = part_text(rhs);
    if op == Operation::Mov && datatype == Some(Primitive::Float) && starts_with(r, "#"@) {
        match allocate(code, st, temporary_at(address), true) {
            Ok((_, t)) => {
                let temp = "w"@ + decimal(t);
                Ok((st, seq!["mov "@ + temp + ", "@ + r, "fmov "@ + l + ", "@ + temp]))
            },
            Err(f) => Err(f),
        }
    } else if op == Operation::Mov && starts_with(r, "="@) {
        Ok((st, seq!["ldr "@ + l + ", "@ + r]))
    } else if op == Operation::Lbl {
        Ok((st, seq![l + ":"@]))
    } else if op == Operation::Ldg {
        match rhs {
            PartView::Global(n, o) => match allocate(code, st, temporary_at(address), true) {
                Ok((_, t)) => {
                    let temp = "x"@ + decimal(t);
                    Ok((st, seq![
                        "adrp "@ + temp + ", "@ + n + "@GOTPAGE"@,
                        "ldr "@ + temp + ", ["@ + temp + ", "@ + n + "@GOTPAGEOFF]"@,
                        "ldr "@ + l + ", ["@ + temp + ", "@ + decimal(o as nat) + "]"@,
                    ]))
                },
                Err(f) => Err(f),
            },
            _ => Err(AsmFault::InvalidGlobal),
        }
    } else if op == Operation::Stg {
        match lhs {
            PartView::Global(n, o) => match allocate(code, st, temporary_at(address), true) {
                Ok((_, t)) => {
                    let temp = "x"@ + decimal(t);
                    Ok((st, seq![
                        "adrp "@ + temp + ", "@ + n + "@PAGE"@,
                        "str "@ + r + ", ["@ + temp + ", "@ + decimal(o as nat) + "]"@,
                    ]))
                },
                Err(f) => Err(f),
            },
            _ => Err(AsmFault::InvalidGlobal),
        }
    } else if op == Operation::Ret {
        if l == "w0"@ || l == "x0"@ || l == "s0"@ {
            Ok((st, seq!["ret"@]))
        } else {
            Ok((st, seq!["mov w0, "@ + l, "ret"@]))
        }
    } else {
        let (operands, extra, inverted) = crate::arm::spec_arity(op);
        let allocated: Result<(RegistersView, Seq<Seq<char>>), AsmFault> = if extra == 1 {
            match datatype {
                Some(p) => match allocate(code, st, address, false) {
                    Ok((s2, i)) => Ok((s2, seq![register_prefix(p) + decimal(i)])),
                    Err(f) => Err(f),
                },
                None => Err(AsmFault::UntypedOperand),
            }
        } else {
            Ok((st, Seq::empty()))
        };
        match allocated {
            Ok((s2, first)) => match crate::arm::mnemonic(op, datatype) {
                Some(m) => {
                    let given = if operands == 2 { seq![l, r] } else if operands == 1 { seq![l] } else { Seq::empty() };
                    let args = if inverted { first + given.reverse() } else { first + given };
                    Ok((s2, seq![m + " "@ + join_arguments(args)]))
                },
                None => Err(AsmFault::UntypedOperand),
            },
            Err(f) => Err(f),
        }
    }
}

/// A type, or `fallback` when there is none.
pub open spec fn or_else(t: Option<Primitive>, fallback: Option<Primitive>) -> Option<Primitive> {
    match t {
        Some(p) => Some(p),
        None => fallback,
    }
}

/// The lines of the instruction at `a`.
pub open spec fn step(locals: Seq<Local>, globals: Seq<Global>, code: Seq<InstructionView>, frame: nat, st: RegistersView, a: nat) -> Result<(RegistersView, Seq<Seq<char>>), AsmFault> {
    let ins = code[a as int];
    let result = crate::program::instruction_type(locals, globals, code, a);
    let lt = or_else(crate::program::operand_type(locals, globals, code, ins.operand1, code.len()), result);
    let rt = or_else(crate::program::operand_type(locals, globals, code, ins.operand2, code.len()), result);
    match operand_part(locals, globals, code, st, frame, ins.operand1, a, lt) {
        Ok((s1, lhs)) => match operand_part(locals, globals, code, s1, frame, ins.operand2, a, rt) {
            Ok((s2, rhs)) => emit(code, s2, ins.operation, a, result, lhs, rhs),
            Err(f) => Err(f),
        },
        Err(f) => Err(f),
    }
}

/// The lines of the first `k` instructions, or the first fault.
pub open spec fn run(locals: Seq<Local>, globals: Seq<Global>, code: Seq<InstructionView>, frame: nat, k: nat) -> Result<(RegistersView, Seq<Seq<char>>), AsmFault>
    decreases k,
{
    if k == 0 {
        Ok((initial(code.len()), Seq::empty()))
    } else {
        match run(locals, globals, code, frame, (k - 1) as nat) {
            Ok((st, lines)) => match step(locals, globals, code, frame, st, (k - 1) as nat) {
                Ok((s2, more)) => Ok((s2, lines + more)),
                Err(f) => Err(f),
            },
            Err(f) => Err(f),
        }
    }
}

/// Lines joined by newlines.
pub open spec fn join_lines(lines: Seq<Seq<char>>) -> Seq<char>
    decreases lines.len(),
{
    if lines.len() == 0 {
        Seq::empty()
    } else if lines.len() == 1 {
        lines[0]
    } else {
        join_lines(lines.drop_last()) + seq!['\n'] + lines.last()
    }
}

/// A label stands at the margin; an instruction is indented.
pub open spec fn indent(line: Seq<char>) -> Seq<char> {
    if line.len() > 0 && line.last() == ':' { line } else { "  "@ + line }
}

/// The frame size of a program, when it fits.
pub open spec fn frame_of(p: Program) -> Option<nat> {
    if round16(locals_size(p.locals@)) <= usize::MAX { Some(round16(locals_size(p.locals@))) } else { None }
}

/// The body of `main`: the frame set up, the instructions, and the frame
/// torn down before the final `ret` (or at the end when there is none).
pub open spec fn text_lines(p: Program) -> Result<Seq<Seq<char>>, AsmFault> {
    match frame_of(p) {
        Some(frame) => match run(p.locals@, p.globals@, p.code(), frame, p.code().len()) {
            Ok((_, lines)) => {
                let body = seq!["sub sp, sp, "@ + decimal(frame)] + lines;
                let teardown = "add sp, sp, "@ + decimal(frame);
                Ok(if starts_with(body.last(), "ret"@) {
                    body.drop_last().push(teardown).push(body.last())
                } else {
                    body.push(teardown)
                })
            },
            Err(f) => Err(f),
        },
        None => Err(AsmFault::FrameTooLarge),
    }
}

pub open spec fn text_section(p: Program) -> Result<Seq<char>, AsmFault> {
    match text_lines(p) {
        Ok(lines) => Ok(join_lines(lines.map_values(|l: Seq<char>| indent(l)))),
        Err(f) => Err(f),
    }
}

/// The width directive of a primitive's size.
pub open spec fn directive(p: Primitive) -> Seq<char> {
    if p.spec_size() == 8 { "xword"@ }
    else if p.spec_size() == 4 { "word"@ }
    else if p.spec_size() == 2 { "hword"@ }
    else { "byte"@ }
}

/// The value a global's element is stored as: the bit pattern for a float,
/// else the integer.
pub open spec fn stored_value(p: Primitive, d: crate::types::Data) -> int {
    if p == Primitive::Float { crate::arm::data_float(d) as int } else { crate::arm::data_integer(d) }
}

pub open spec fn global_text(g: Global) -> Seq<char> {
    g.name@ + ":\n"@ + join_lines(g.values@.map_values(|d: crate::types::Data|
        "  ."@ + directive(g.compound.0) + " "@ + crate::text::signed_decimal(stored_value(g.compound.0, d))))
}

/// The data section's entries, one per global, in order of definition.
pub open spec fn data_text(globals: Seq<Global>) -> Seq<char> {
    join_lines(globals.map_values(|g: Global| global_text(g)))
}

/// The whole assembly text of a program: the data section when there are
/// globals, then the text section with `main`; or the first fault.
pub open spec fn assembly_text(p: Program) -> Result<Seq<char>, AsmFault> {
    match text_section(p) {
        Ok(text) => {
            let data = if p.globals@.len() == 0 {
                Seq::empty()
            } else {
                ".section __DATA,__data\n"@ + data_text(p.globals@) + "\n\n"@
            };
            Ok(data + ".section __TEXT,__text\n.global main\nmain:\n"@ + text)
        },
        Err(f) => Err(f),
    }
}

pub open spec fn lines_of(v: Seq<String>) -> Seq<Seq<char>> {
    v.map_values(|s: String| s@)
}

fn render(part: &Part) -> (r: String)
    ensures
        r@ == part_text(part@),
{
    match part {
        Part::Text(t) => t.clone(),
        Part::Global(n, o) => {
            let mut s = n.clone();
            s.append("@");
            push_decimal(&mut s, *o as u64);
            proof { reveal_strlit("@"); }
            assert(s@ =~= part_text(part@));
            s
        },
    }
}

pub fn has_prefix(s: &String, prefix: &str) -> (r: bool)
    ensures
        r == starts_with(s@, prefix@),
{
    let n = s.as_str().unicode_len();
    let m = prefix.unicode_len();
    if n < m {
        return false;
    }
    let head = String::from_str(s.as_str().substring_char(0, m));
    head == String::from_str(prefix)
}

fn join_args(args: &Vec<String>) -> (r: String)
    ensures
        r@ == join_arguments(lines_of(args@)),
{
    let mut out = String::new();
    let mut k: usize = 0;
    while k < args.len()
        invariant
            k <= args@.len(),
            out@ == join_arguments(lines_of(args@).take(k as int)),
        decreases args@.len() - k,
    {
        proof {
            assert(lines_of(args@).take(k + 1).drop_last() =~= lines_of(args@).take(k as int));
        }
        if k > 0 {
            out.append(", ");
        }
        out.append(args[k].as_str());
        k = k + 1;
        proof {
            if k == 1 {
                assert(out@ =~= lines_of(args@).take(1)[0]);
            } else {
                assert(out@ =~= join_arguments(lines_of(args@).take(k - 1)) + ", "@ + lines_of(args@).take(k as int).last());
            }
        }
    }
    proof {
        assert(lines_of(args@).take(k as int) =~= lines_of(args@));
    }
    out
}

fn one(s: String) -> (r: Vec<String>)
    ensures
        lines_of(r@) == seq![s@],
{
    let mut v = Vec::new();
    v.push(s);
    assert(lines_of(v@) =~= seq![s@]);
    v
}

impl Operation {
    /// The lines of one instruction, given its written operands and the type
    /// of its result.
    pub fn assemble(&self, regs: &mut Registers, program: &Program, address: usize, datatype: Option<Primitive>, lhs: &Part, rhs: &Part) -> (r: Result<Vec<String>, AsmFault>)
        requires
            address < old(regs).results@.len(),
        ensures
            match emit(program.code(), old(regs)@, *self, address as nat, datatype, lhs@, rhs@) {
                Ok((st, lines)) => r is Ok && lines_of(r->Ok_0@) == lines && final(regs)@ == st,
                Err(f) => r is Err && r->Err_0 == f,
            },
            final(regs).results@.len() == old(regs).results@.len(),
    {
        let op = *self;
        let l = render(lhs);
        let r = render(rhs);
        if op == Operation::Mov && datatype == Some(Primitive::Float) && has_prefix(&r, "#") {
            let t = match regs.allocate(&program.instructions, temporary(address), true) {
                Ok(t) => t,
                Err(f) => return Err(f),
            };
            let mut temp = String::from_str("w");
            push_decimal(&mut temp, t as u64);
            let mut first = String::from_str("mov ");
            first.append(temp.as_str());
            first.append(", ");
            first.append(r.as_str());
            let mut second = String::from_str("fmov ");
            second.append(l.as_str());
            second.append(", ");
            second.append(temp.as_str());
            let mut lines: Vec<String> = Vec::new();
            lines.push(first);
            lines.push(second);
            proof {
                let e = emit(program.code(), old(regs)@, op, address as nat, datatype, lhs@, rhs@);
                assert(lines_of(lines@) =~= e->Ok_0.1);
            }
            return Ok(lines);
        }
        if op == Operation::Mov && has_prefix(&r, "=") {
            let mut line = String::from_str("ldr ");
            line.append(l.as_str());
            line.append(", ");
            line.append(r.as_str());
            proof {
                let e = emit(program.code(), old(regs)@, op, address as nat, datatype, lhs@, rhs@);
                assert(seq![line@] =~= e->Ok_0.1);
            }
            return Ok(one(line));
        }
        if op == Operation::Lbl {
            let mut line = l;
            line.append(":");
            proof {
                let e = emit(program.code(), old(regs)@, op, address as nat, datatype, lhs@, rhs@);
                assert(seq![line@] =~= e->Ok_0.1);
            }
            return Ok(one(line));
        }
        if op == Operation::Ldg || op == Operation::Stg {
            let global = if op == Operation::Ldg { rhs } else { lhs };
            let (name, offset) = match global {
                Part::Global(n, o) => (n, *o),
                Part::Text(_) => return Err(AsmFault::InvalidGlobal),
            };
            let t = match regs.allocate(&program.instructions, temporary(address), true) {
                Ok(t) => t,
                Err(f) => return Err(f),
            };
            let mut temp = String::from_str("x");
            push_decimal(&mut temp, t as u64);
            let mut lines: Vec<String> = Vec::new();
            let mut first = String::from_str("adrp ");
            first.append(temp.as_str());
            first.append(", ");
            first.append(name.as_str());
            if op == Operation::Ldg {
                first.append("@GOTPAGE");
                let mut second = String::from_str("ldr ");
                second.append(temp.as_str());
                second.append(", [");
                second.append(temp.as_str());
                second.append(", ");
                second.append(name.as_str());
                second.append("@GOTPAGEOFF]");
                let mut third = String::from_str("ldr ");
                third.append(l.as_str());
                third.append(", [");
                third.append(temp.as_str());
                third.append(", ");
                push_decimal(&mut third, offset as u64);
                third.append("]");
                lines.push(first);
                lines.push(second);
                lines.push(third);
            } else {
                first.append("@PAGE");
                let mut second = String::from_str("str ");
                second.append(r.as_str());
                second.append(", [");
                second.append(temp.as_str());
                second.append(", ");
                push_decimal(&mut second, offset as u64);
                second.append("]");
                lines.push(first);
                lines.push(second);
            }
            proof {
                let e = emit(program.code(), old(regs)@, op, address as nat, datatype, lhs@, rhs@);
                assert(lines_of(lines@) =~= e->Ok_0.1);
            }
            return Ok(lines);
        }
        if op == Operation::Ret {
            let w0 = String::from_str("w0");
            let x0 = String::from_str("x0");
            let s0 = String::from_str("s0");
            let mut lines: Vec<String> = Vec::new();
            if !(l == w0 || l == x0 || l == s0) {
                let mut line = String::from_str("mov w0, ");
                line.append(l.as_str());
                lines.push(line);
            }
            lines.push(String::from_str("ret"));
            proof {
                let e = emit(program.code(), old(regs)@, op, address as nat, datatype, lhs@, rhs@);
                assert(lines_of(lines@) =~= e->Ok_0.1);
            }
            return Ok(lines);
        }
        let (operands, extra, inverted) = op.arity();
        let mut args: Vec<String> = Vec::new();
        if extra == 1 {
            let p = match datatype {
                Some(p) => p,
                None => return Err(AsmFault::UntypedOperand),
            };
            match regs.allocate(&program.instructions, address, false) {
                Ok(i) => {
                    let mut reg = String::from_str(as_register(p));
                    push_decimal(&mut reg, i as u64);
                    args.push(reg);
                },
                Err(f) => return Err(f),
            }
        }
        let mnemonic = match op.instruction(datatype) {
            Some(m) => m,
            None => return Err(AsmFault::UntypedOperand),
        };
        let ghost first = lines_of(args@);
        if inverted {
            if operands == 2 {
                args.push(r);
            }
            if operands >= 1 {
                args.push(l);
            }
        } else {
            if operands >= 1 {
                args.push(l);
            }
            if operands == 2 {
                args.push(r);
            }
        }
        let joined = join_args(&args);
        let mut line = mnemonic;
        line.append(" ");
        line.append(joined.as_str());
        proof {
            let e = emit(program.code(), old(regs)@, op, address as nat, datatype, lhs@, rhs@);
            let given = if operands == 2 { seq![l@, r@] } else if operands == 1 { seq![l@] } else { Seq::<Seq<char>>::empty() };
            let args_spec = if inverted { first + given.reverse() } else { first + given };
            assert(lines_of(args@) =~= args_spec);
            let (so, se, si) = crate::arm::spec_arity(op);
            if se == 1 {
                let al = allocate(program.code(), old(regs)@, address as nat, false);
                assert(first == seq![register_prefix(datatype->Some_0) + decimal(al->Ok_0.1)]);
            }
            assert(seq![line@] =~= e->Ok_0.1);
        }
        Ok(one(line))
    }
}

fn temporary(address: usize) -> (r: usize)
    ensures
        r as nat == temporary_at(address as nat),
{
    if address > 0 { address - 1 } else { 0 }
}

proof fn lemma_lines_push(v: Seq<String>, s: String)
    ensures
        lines_of(v.push(s)) == lines_of(v).push(s@),
{
    assert(lines_of(v.push(s)) =~= lines_of(v).push(s@));
}

proof fn lemma_run_fails_on(locals: Seq<Local>, globals: Seq<Global>, code: Seq<InstructionView>, frame: nat, k: nat, j: nat)
    requires
        k <= j,
        run(locals, globals, code, frame, k) is Err,
    ensures
        run(locals, globals, code, frame, j) == run(locals, globals, code, frame, k),
    decreases j - k,
{
    if k < j {
        lemma_run_fails_on(locals, globals, code, frame, k, (j - 1) as nat);
    }
}

/// Appends the lines, joined by newlines, to `out`.
fn push_joined(out: &mut String, lines: &Vec<String>)
    ensures
        final(out)@ == old(out)@ + join_lines(lines_of(lines@)),
{
    let mut k: usize = 0;
    while k < lines.len()
        invariant
            k <= lines@.len(),
            out@ == old(out)@ + join_lines(lines_of(lines@).take(k as int)),
        decreases lines@.len() - k,
    {
        proof {
            assert(lines_of(lines@).take(k + 1).drop_last() =~= lines_of(lines@).take(k as int));
        }
        if k > 0 {
            out.append("\n");
        }
        out.append(lines[k].as_str());
        k = k + 1;
        proof {
            reveal_strlit("\n");
            if k == 1 {
                assert(out@ =~= old(out)@ + join_lines(lines_of(lines@).take(1)));
            } else {
                assert(out@ =~= old(out)@ + join_lines(lines_of(lines@).take(k - 1)) + seq!['\n']
                    + lines_of(lines@).take(k as int).last());
            }
        }
    }
    proof {
        assert(lines_of(lines@).take(k as int) =~= lines_of(lines@));
    }
}

fn or_else_type(t: Option<Primitive>, fallback: Option<Primitive>) -> (r: Option<Primitive>)
    ensures
        r == or_else(t, fallback),
{
    match t {
        Some(p) => Some(p),
        None => fallback,
    }
}

/// The lines of every instruction, in order.
fn instruction_lines(program: &Program, frame: usize) -> (r: Result<Vec<String>, AsmFault>)
    ensures
        match run(program.locals@, program.globals@, program.code(), frame as nat, program.code().len()) {
            Ok((_, lines)) => r is Ok && lines_of(r->Ok_0@) == lines,
            Err(f) => r is Err && r->Err_0 == f,
        },
{
    let n = program.instructions.len();
    let mut regs = Registers::new(n);
    let mut lines: Vec<String> = Vec::new();
    let mut k: usize = 0;
    assert(lines_of(lines@) =~= Seq::<Seq<char>>::empty());
    while k < n
        invariant
            n == program.instructions@.len(),
            k <= n,
            regs.results@.len() == n,
            run(program.locals@, program.globals@, program.code(), frame as nat, k as nat) == Ok::<(RegistersView, Seq<Seq<char>>), AsmFault>((regs@, lines_of(lines@))),
        decreases n - k,
    {
        let ins = &program.instructions[k];
        let result = ins.datatype(program, k);
        let lt = or_else_type(ins.operand1.datatype(program), result);
        let rt = or_else_type(ins.operand2.datatype(program), result);
        let ghost before = regs@;
        let lhs = regs.operand_part(program, frame, &ins.operand1, k, lt);
        let lhs = match lhs {
            Ok(part) => part,
            Err(f) => {
                proof { lemma_run_fails_on(program.locals@, program.globals@, program.code(), frame as nat, (k + 1) as nat, n as nat); }
                return Err(f);
            },
        };
        let rhs = regs.operand_part(program, frame, &ins.operand2, k, rt);
        let rhs = match rhs {
            Ok(part) => part,
            Err(f) => {
                proof { lemma_run_fails_on(program.locals@, program.globals@, program.code(), frame as nat, (k + 1) as nat, n as nat); }
                return Err(f);
            },
        };
        let more = ins.operation.assemble(&mut regs, program, k, result, &lhs, &rhs);
        let more = match more {
            Ok(m) => m,
            Err(f) => {
                proof { lemma_run_fails_on(program.locals@, program.globals@, program.code(), frame as nat, (k + 1) as nat, n as nat); }
                return Err(f);
            },
        };
        let ghost old_lines = lines_of(lines@);
        let mut j: usize = 0;
        while j < more.len()
            invariant
                j <= more@.len(),
                lines_of(lines@) == old_lines + lines_of(more@).take(j as int),
            decreases more@.len() - j,
        {
            let ghost prev = lines@;
            let item = more[j].clone();
            lines.push(item);
            proof {
                lemma_lines_push(prev, item);
                assert(lines_of(more@).take(j + 1) =~= lines_of(more@).take(j as int).push(item@));
            }
            j = j + 1;
        }
        proof {
            assert(lines_of(more@).take(j as int) =~= lines_of(more@));
        }
        k = k + 1;
    }
    Ok(lines)
}

impl Program {
    /// The body of `main`, each line indented but labels.
    fn text_section(&self) -> (r: Result<String, AsmFault>)
        ensures
            match text_section(*self) {
                Ok(t) => r is Ok && r->Ok_0@ == t,
                Err(f) => r is Err && r->Err_0 == f,
            },
    {
        let frame = match self.stack_size() {
            Some(f) => f,
            None => return Err(AsmFault::FrameTooLarge),
        };
        let lines = match instruction_lines(self, frame) {
            Ok(l) => l,
            Err(f) => return Err(f),
        };
        let mut body: Vec<String> = Vec::new();
        let mut setup = String::from_str("sub sp, sp, ");
        push_decimal(&mut setup, frame as u64);
        body.push(setup);
        let mut k: usize = 0;
        while k < lines.len()
            invariant
                k <= lines@.len(),
                lines_of(body@) == seq!["sub sp, sp, "@ + decimal(frame as nat)] + lines_of(lines@).take(k as int),
            decreases lines@.len() - k,
        {
            let ghost prev = body@;
            let item = lines[k].clone();
            body.push(item);
            proof {
                lemma_lines_push(prev, item);
                assert(lines_of(lines@).take(k + 1) =~= lines_of(lines@).take(k as int).push(item@));
            }
            k = k + 1;
        }
        proof {
            assert(lines_of(lines@).take(k as int) =~= lines_of(lines@));
        }
        let mut teardown = String::from_str("add sp, sp, ");
        push_decimal(&mut teardown, frame as u64);
        let ghost whole = lines_of(body@);
        let last_is_ret = has_prefix(&body[body.len() - 1], "ret");
        if last_is_ret {
            let last = body.pop();
            match last {
                Some(last) => {
                    body.push(teardown);
                    body.push(last);
                },
                None => {},
            }
            proof {
                assert(lines_of(body@) =~= whole.drop_last().push(whole.last()).drop_last().push(teardown@).push(whole.last()));
                assert(whole.drop_last().push(whole.last()).drop_last() =~= whole.drop_last());
            }
        } else {
            body.push(teardown);
            proof {
                assert(lines_of(body@) =~= whole.push(teardown@));
            }
        }
        let mut indented: Vec<String> = Vec::new();
        let mut k: usize = 0;
        while k < body.len()
            invariant
                k <= body@.len(),
                lines_of(indented@) == lines_of(body@).take(k as int).map_values(|l: Seq<char>| indent(l)),
            decreases body@.len() - k,
        {
            let line = &body[k];
            let n = line.as_str().unicode_len();
            let label = n > 0 && line.as_str().get_char(n - 1) == ':';
            let item = if label {
                line.clone()
            } else {
                let mut s = String::from_str("  ");
                s.append(line.as_str());
                s
            };
            proof {
                reveal_strlit("  ");
                assert(item@ == indent(line@));
            }
            let ghost prev = indented@;
            indented.push(item);
            proof {
                lemma_lines_push(prev, item);
                assert(lines_of(body@).take(k + 1).map_values(|l: Seq<char>| indent(l))
                    =~= lines_of(body@).take(k as int).map_values(|l: Seq<char>| indent(l)).push(indent(line@)));
            }
            k = k + 1;
        }
        proof {
            assert(lines_of(body@).take(k as int) =~= lines_of(body@));
        }
        let mut out = String::new();
        push_joined(&mut out, &indented);
        assert(out@ =~= text_section(*self)->Ok_0);
        Ok(out)
    }
}

fn directive_text(p: Primitive) -> (r: &'static str)
    ensures
        r@ == directive(p),
{
    let size = p.size();
    if size == 8 { "xword" } else if size == 4 { "word" } else if size == 2 { "hword" } else { "byte" }
}

/// `name:` and one directive line per element.
fn global_section(g: &Global) -> (r: String)
    ensures
        r@ == global_text(*g),
{
    let primitive = g.compound.0;
    let mut entries: Vec<String> = Vec::new();
    let mut k: usize = 0;
    while k < g.values.len()
        invariant
            k <= g.values@.len(),
            primitive == g.compound.0,
            lines_of(entries@) == g.values@.take(k as int).map_values(|d: crate::types::Data|
                "  ."@ + directive(g.compound.0) + " "@ + signed_decimal(stored_value(g.compound.0, d))),
        decreases g.values@.len() - k,
    {
        let d = g.values[k];
        let value: i64 = if primitive.floating() {
            crate::arm::float_of(&d) as i64
        } else {
            crate::arm::integer_of(&d)
        };
        let mut line = String::from_str("  .");
        line.append(directive_text(primitive));
        line.append(" ");
        push_signed(&mut line, value);
        proof {
            assert(line@ =~= "  ."@ + directive(g.compound.0) + " "@ + signed_decimal(stored_value(g.compound.0, d)));
        }
        let ghost prev = entries@;
        entries.push(line);
        proof {
            lemma_lines_push(prev, line);
            assert(g.values@.take(k + 1).map_values(|d: crate::types::Data|
                "  ."@ + directive(g.compound.0) + " "@ + signed_decimal(stored_value(g.compound.0, d)))
                =~= g.values@.take(k as int).map_values(|d: crate::types::Data|
                "  ."@ + directive(g.compound.0) + " "@ + signed_decimal(stored_value(g.compound.0, d))).push(line@));
        }
        k = k + 1;
    }
    proof {
        assert(g.values@.take(k as int) =~= g.values@);
    }
    let mut out = g.name.clone();
    out.append(":\n");
    push_joined(&mut out, &entries);
    out
}

/// The data section: one entry per global, in order of definition.
fn globals(program: &Program) -> (r: String)
    ensures
        r@ == data_text(program.globals@),
{
    let mut sections: Vec<String> = Vec::new();
    let mut k: usize = 0;
    while k < program.globals.len()
        invariant
            k <= program.globals@.len(),
            lines_of(sections@) == program.globals@.take(k as int).map_values(|g: Global| global_text(g)),
        decreases program.globals@.len() - k,
    {
        let text = global_section(&program.globals[k]);
        let ghost prev = sections@;
        sections.push(text);
        proof {
            lemma_lines_push(prev, text);
            assert(program.globals@.take(k + 1).map_values(|g: Global| global_text(g))
                =~= program.globals@.take(k as int).map_values(|g: Global| global_text(g)).push(text@));
        }
        k = k + 1;
    }
    proof {
        assert(program.globals@.take(k as int) =~= program.globals@);
    }
    let mut out = String::new();
    push_joined(&mut out, &sections);
    out
}

impl Program {
    /// The program as ARM64 assembly: the data section when there are
    /// globals, then `main`.
    pub fn assemble(&self) -> (r: Result<String, AssemblyError>)
        ensures
            match assembly_text(*self) {
                Ok(t) => r is Ok && r->Ok_0@ == t,
                Err(f) => r is Err && r->Err_0.fault == f && r->Err_0.message@ == fault_message(f),
            },
    {
        let text = match self.text_section() {
            Ok(t) => t,
            Err(f) => {
                return Err(AssemblyError { fault: f, message: String::from_str(fault_text(f)) });
            },
        };
        let mut out = String::new();
        if self.globals.len() > 0 {
            out.append(".section __DATA,__data\n");
            let data = globals(self);
            out.append(data.as_str());
            out.append("\n\n");
        }
        out.append(".section __TEXT,__text\n.global main\nmain:\n");
        out.append(text.as_str());
        assert(out@ =~= assembly_text(*self)->Ok_0);
        Ok(out)
    }
}

/// Assembly is deterministic: two programs with the same symbol tables and
/// the same instructions assemble to the same text, or fail with the same
/// fault (and so the same message).
pub proof fn assembly_is_deterministic(p: Program, q: Program)
    requires
        p.locals@ == q.locals@,
        p.globals@ == q.globals@,
        p.code() == q.code(),
    ensures
        assembly_text(p) == assembly_text(q),
{
}

} // verus!
