//! Lowering of the syntax tree into the intermediate representation.
use crate::error::{Fault, SemanticError, fail, reports};
use crate::ir::{
    Condition, Instruction, InstructionView, Operand, OperandView, Operation, byte_mask, copy_operand,
    operand_before, zero,
};
use crate::program::{Global, Local, Program, compound_of, conversion, operand_type, scoped};
use crate::types::{
    Assignment, BinaryOperator, Data, Expression, Function, Initializer, Loop, Primitive, Statement, Type,
    UnaryOperator, Value, Variable, spec_widest, widest,
};
use vstd::prelude::*;

verus! {

pub open spec fn ins(operation: Operation, operand1: OperandView, operand2: OperandView) -> InstructionView {
    InstructionView { operation, operand1, operand2 }
}

pub open spec fn byte_view() -> OperandView {
    OperandView::Data(Data::Integer(255))
}

pub open spec fn zero_view() -> OperandView {
    OperandView::Data(Data::Integer(0))
}

/// `new` is `old` with more instructions after it.
pub open spec fn extends(new: Seq<InstructionView>, old: Seq<InstructionView>) -> bool {
    &&& new.len() >= old.len()
    &&& forall|i: int| 0 <= i < old.len() ==> #[trigger] new[i] == old[i]
}

/// The result of the last instruction of `code`.
pub open spec fn last_of(code: Seq<InstructionView>) -> OperandView {
    OperandView::Address((code.len() - 1) as usize)
}

/// `code` followed by a `cset` of `condition` and the mask that keeps its
/// low byte.
pub open spec fn flag(code: Seq<InstructionView>, condition: Condition) -> Seq<InstructionView> {
    code.push(ins(Operation::CSet, OperandView::Asm(condition), OperandView::Empty)).push(
        ins(Operation::And, OperandView::Address(code.len() as usize), byte_view()),
    )
}

/// The condition a comparison operator sets its flag on.
pub open spec fn comparison(op: BinaryOperator) -> Option<Condition> {
    match op {
        BinaryOperator::Equal => Some(Condition::Eq),
        BinaryOperator::NotEqual => Some(Condition::Ne),
        BinaryOperator::Greater => Some(Condition::Gt),
        BinaryOperator::Less => Some(Condition::Lt),
        BinaryOperator::GreaterEqual => Some(Condition::Ge),
        BinaryOperator::LessEqual => Some(Condition::Le),
        _ => None,
    }
}

/// The single instruction of an arithmetic, bitwise or shift operator.
pub open spec fn arithmetic(op: BinaryOperator) -> Operation {
    match op {
        BinaryOperator::Addition => Operation::Add,
        BinaryOperator::Subtraction => Operation::Sub,
        BinaryOperator::Division => Operation::Div,
        BinaryOperator::Multiplication => Operation::Mul,
        BinaryOperator::BitwiseAnd => Operation::And,
        BinaryOperator::BitwiseOr => Operation::Orr,
        BinaryOperator::BitwiseXor => Operation::Eor,
        BinaryOperator::LeftShift => Operation::Lsl,
        _ => Operation::Asr,
    }
}

/// The instructions of a binary operator on two operands of one type.
pub open spec fn binary_code(code: Seq<InstructionView>, op: BinaryOperator, a: OperandView, b: OperandView) -> Seq<InstructionView> {
    let n = code.len();
    match op {
        BinaryOperator::Remainder => code.push(ins(Operation::Div, a, b)).push(
            ins(Operation::Mul, b, OperandView::Address(n as usize)),
        ).push(ins(Operation::Sub, a, OperandView::Address((n + 1) as usize))),
        BinaryOperator::And => flag(
            code.push(ins(Operation::And, a, b)).push(
                ins(Operation::Cmp, OperandView::Address(n as usize), zero_view()),
            ),
            Condition::Ne,
        ),
        BinaryOperator::Or => flag(
            code.push(ins(Operation::Orr, a, b)).push(
                ins(Operation::Cmp, OperandView::Address(n as usize), zero_view()),
            ),
            Condition::Ne,
        ),
        _ => match comparison(op) {
            Some(c) => flag(code.push(ins(Operation::Cmp, a, b)), c),
            None => code.push(ins(arithmetic(op), a, b)),
        },
    }
}

/// The type of an operand in `code`.
pub open spec fn type_at(locals: Seq<Local>, globals: Seq<Global>, code: Seq<InstructionView>, o: OperandView) -> Option<Primitive> {
    operand_type(locals, globals, code, o, code.len())
}

/// `code` with the conversion of `o` to `to`, if one is needed, and the
/// operand that holds the converted value.
pub open spec fn cast_code(locals: Seq<Local>, globals: Seq<Global>, code: Seq<InstructionView>, o: OperandView, to: Option<Primitive>) -> (Seq<InstructionView>, OperandView) {
    match conversion(type_at(locals, globals, code, o), to) {
        Some(op) => (code.push(ins(op, o, OperandView::Empty)), OperandView::Address(code.len() as usize)),
        None => (code, o),
    }
}

/// The scope a name resolves to, as `Program::resolves` gives it.
pub open spec fn resolve(locals: Seq<Local>, globals: Seq<Global>, depth: nat, name: Seq<char>) -> Option<nat> {
    crate::program::find_scope(locals, globals, name, depth)
}

/// The code an expression lowers to, appended to `code`: each value is
/// moved or loaded into a fresh register, operators follow their operands,
/// and the two operands of a binary operator are first widened to the wider
/// of their types.
pub open spec fn lower(locals: Seq<Local>, globals: Seq<Global>, depth: nat, code: Seq<InstructionView>, e: Expression) -> Result<Seq<InstructionView>, (Fault, Seq<char>)>
    decreases e,
{
    match e {
        Expression::Value(Value::Data(d)) => Ok(code.push(ins(Operation::Mov, OperandView::Temp, OperandView::Data(d)))),
        Expression::Value(Value::Pointer(p)) => match resolve(locals, globals, depth, p.name@) {
            Some(s) => Ok(code.push(
                ins(
                    if s == 0 { Operation::Ldg } else { Operation::Ldr },
                    OperandView::Temp,
                    OperandView::Identifier(scoped(p.name@, s), p.index),
                ),
            )),
            None => Err((Fault::UndefinedVariable, p.name@)),
        },
        Expression::Unary { op, lhs } => match lower(locals, globals, depth, code, *lhs) {
            Ok(c) => match op {
                UnaryOperator::Negation => Ok(c.push(ins(Operation::Neg, last_of(c), OperandView::Empty))),
                UnaryOperator::Inversion => Ok(flag(c.push(ins(Operation::Cmp, last_of(c), zero_view())), Condition::Eq)),
            },
            Err(f) => Err(f),
        },
        Expression::Binary { op, lhs, rhs } => match lower(locals, globals, depth, code, *lhs) {
            Ok(c1) => match lower(locals, globals, depth, c1, *rhs) {
                Ok(c2) => {
                    let a = last_of(c1);
                    let b = last_of(c2);
                    let up = spec_widest(type_at(locals, globals, c2, a), type_at(locals, globals, c2, b));
                    let (c3, a2) = cast_code(locals, globals, c2, a, up);
                    let (c4, b2) = cast_code(locals, globals, c3, b, up);
                    Ok(binary_code(c4, op, a2, b2))
                },
                Err(f) => Err(f),
            },
            Err(f) => Err(f),
        },
    }
}

impl Program {
    /// The code an expression lowers to in this program.
    pub open spec fn lowered(&self, e: Expression) -> Result<Seq<InstructionView>, (Fault, Seq<char>)> {
        lower(self.locals@, self.globals@, self.scope as nat, self.code(), e)
    }

    fn flag(&mut self, condition: Condition)
        requires
            old(self).wf(),
        ensures
            final(self).wf(),
            final(self).same_tables(old(self)),
            final(self).code() == flag(old(self).code(), condition),
            final(self).instructions@.len() == old(self).instructions@.len() + 2,
    {
        self.instruct(Operation::CSet, Operand::Asm(condition), Operand::Empty);
        let last = self.last();
        self.instruct(Operation::And, last, byte_mask());
    }

    fn binary(&mut self, op: BinaryOperator, a: Operand, b: Operand)
        requires
            old(self).wf(),
            operand_before(a@, old(self).instructions@.len()),
            operand_before(b@, old(self).instructions@.len()),
        ensures
            final(self).wf(),
            final(self).same_tables(old(self)),
            final(self).code() == binary_code(old(self).code(), op, a@, b@),
            final(self).instructions@.len() > old(self).instructions@.len(),
    {
        match op {
            BinaryOperator::Remainder => {
                let b2 = copy_operand(&b);
                let a2 = copy_operand(&a);
                self.instruct(Operation::Div, a, b);
                let last = self.last();
                self.instruct(Operation::Mul, b2, last);
                let last = self.last();
                self.instruct(Operation::Sub, a2, last);
            },
            BinaryOperator::And | BinaryOperator::Or => {
                self.instruct(if op == BinaryOperator::And { Operation::And } else { Operation::Orr }, a, b);
                let last = self.last();
                self.instruct(Operation::Cmp, last, zero());
                self.flag(Condition::Ne);
            },
            BinaryOperator::Equal => {
                self.instruct(Operation::Cmp, a, b);
                self.flag(Condition::Eq);
            },
            BinaryOperator::NotEqual => {
                self.instruct(Operation::Cmp, a, b);
                self.flag(Condition::Ne);
            },
            BinaryOperator::Greater => {
                self.instruct(Operation::Cmp, a, b);
                self.flag(Condition::Gt);
            },
            BinaryOperator::Less => {
                self.instruct(Operation::Cmp, a, b);
                self.flag(Condition::Lt);
            },
            BinaryOperator::GreaterEqual => {
                self.instruct(Operation::Cmp, a, b);
                self.flag(Condition::Ge);
            },
            BinaryOperator::LessEqual => {
                self.instruct(Operation::Cmp, a, b);
                self.flag(Condition::Le);
            },
            BinaryOperator::Addition => self.instruct(Operation::Add, a, b),
            BinaryOperator::Subtraction => self.instruct(Operation::Sub, a, b),
            BinaryOperator::Division => self.instruct(Operation::Div, a, b),
            BinaryOperator::Multiplication => self.instruct(Operation::Mul, a, b),
            BinaryOperator::BitwiseAnd => self.instruct(Operation::And, a, b),
            BinaryOperator::BitwiseOr => self.instruct(Operation::Orr, a, b),
            BinaryOperator::BitwiseXor => self.instruct(Operation::Eor, a, b),
            BinaryOperator::LeftShift => self.instruct(Operation::Lsl, a, b),
            BinaryOperator::RightShift => self.instruct(Operation::Asr, a, b),
        }
    }
}

impl Expression {
    /// Appends the code of this expression; its value is the result of the
    /// last instruction appended.
    pub fn translate(&self, program: &mut Program) -> (r: Result<(), SemanticError>)
        requires
            old(program).wf(),
        ensures
            final(program).wf(),
            final(program).same_tables(old(program)),
            final(program).instructions@.len() >= old(program).instructions@.len(),
            extends(final(program).code(), old(program).code()),
            match old(program).lowered(*self) {
                Ok(c) => r is Ok && final(program).code() == c
                    && final(program).instructions@.len() > old(program).instructions@.len(),
                Err(f) => r is Err && reports(r->Err_0, f.0, f.1),
            },
            r is Err && self is Value ==> final(program).code() == old(program).code(),
        decreases self,
    {
        match self {
            Expression::Value(Value::Data(d)) => {
                program.instruct(Operation::Mov, Operand::Temp, Operand::Data(*d));
                Ok(())
            },
            Expression::Value(Value::Pointer(p)) => {
                let global = program.is_global(&p.name)?;
                let key = program.infer_name(&p.name)?;
                program.instruct(
                    if global { Operation::Ldg } else { Operation::Ldr },
                    Operand::Temp,
                    Operand::Identifier(key, p.index),
                );
                Ok(())
            },
            Expression::Unary { op, lhs } => {
                lhs.translate(program)?;
                let last = program.last();
                match op {
                    UnaryOperator::Negation => {
                        program.instruct(Operation::Neg, last, Operand::Empty);
                    },
                    UnaryOperator::Inversion => {
                        program.instruct(Operation::Cmp, last, zero());
                        program.flag(Condition::Eq);
                    },
                }
                Ok(())
            },
            Expression::Binary { op, lhs, rhs } => {
                lhs.translate(program)?;
                let operand1 = program.last();
                let ghost c1 = program.code();
                rhs.translate(program)?;
                let operand2 = program.last();
                let upcast = widest(operand1.datatype(program), operand2.datatype(program));
                let operand1 = program.cast(operand1, upcast);
                let operand2 = program.cast(operand2, upcast);
                program.binary(*op, operand1, operand2);
                Ok(())
            },
        }
    }
}

/// The code that stores the value of `e` into element `index` of `name`:
/// the expression, its conversion to the variable's type, then `str` for a
/// local or `stg` for a global.
pub open spec fn store(locals: Seq<Local>, globals: Seq<Global>, depth: nat, code: Seq<InstructionView>, name: Seq<char>, index: int, e: Expression) -> Result<Seq<InstructionView>, (Fault, Seq<char>)> {
    if index > usize::MAX {
        Err((Fault::IndexOutOfRange, name))
    } else {
        match lower(locals, globals, depth, code, e) {
            Ok(c) => match resolve(locals, globals, depth, name) {
                Some(s) => {
                    let key = scoped(name, s);
                    let to = match compound_of(locals, globals, key) {
                        Some(k) => Some(k.0),
                        None => None,
                    };
                    let (c2, v) = cast_code(locals, globals, c, last_of(c), to);
                    Ok(c2.push(
                        ins(
                            if s == 0 { Operation::Stg } else { Operation::Str },
                            OperandView::Identifier(key, index as usize),
                            v,
                        ),
                    ))
                },
                None => Err((Fault::UndefinedVariable, name)),
            },
            Err(f) => Err(f),
        }
    }
}

/// The stores of a list of expressions into consecutive elements from
/// `index` on.
pub open spec fn store_all(locals: Seq<Local>, globals: Seq<Global>, depth: nat, code: Seq<InstructionView>, name: Seq<char>, index: int, es: Seq<Expression>) -> Result<Seq<InstructionView>, (Fault, Seq<char>)>
    decreases es.len(),
{
    if es.len() == 0 {
        Ok(code)
    } else {
        match store_all(locals, globals, depth, code, name, index, es.drop_last()) {
            Ok(c) => store(locals, globals, depth, c, name, index + es.len() - 1, es.last()),
            Err(f) => Err(f),
        }
    }
}

/// The expressions of an initializer.
pub open spec fn elements(init: Initializer) -> Seq<Expression> {
    match init {
        Initializer::Expression(e) => seq![e],
        Initializer::List(v) => v@,
    }
}

/// The constants of a top-level initializer, when it holds nothing else.
pub open spec fn constants(init: Initializer) -> Option<Seq<Data>> {
    match init {
        Initializer::Expression(Expression::Value(Value::Data(d))) => Some(seq![d]),
        Initializer::Expression(_) => None,
        Initializer::List(v) => if forall|i: int| 0 <= i < v@.len() ==> (#[trigger] v@[i]) is Value
            && v@[i]->Value_0 is Data {
            Some(v@.map_values(|e: Expression| e->Value_0->Data_0))
        } else {
            None
        },
    }
}

/// What an assignment does to a program.
pub open spec fn assignment_effect(old: Program, new: Program, a: Assignment, r: Result<(), SemanticError>) -> bool {
    &&& new.same_tables(&old)
    &&& if old.scope == 0 {
        r is Err && reports(r->Err_0, Fault::TopLevelAssignment, a.name@) && new.code() == old.code()
    } else {
        match store_all(old.locals@, old.globals@, old.scope as nat, old.code(), a.name@, a.index as int, elements(a.value)) {
            Ok(c) => r is Ok && new.code() == c,
            Err(f) => r is Err && reports(r->Err_0, f.0, f.1),
        }
    }
}

/// What a variable declaration does to a program: a top-level one becomes a
/// global holding its constants; one in a function body becomes a local of
/// the current scope, then takes its initial value.
pub open spec fn variable_effect(old: Program, new: Program, v: Variable, r: Result<(), SemanticError>) -> bool {
    &&& new.types@ == old.types@
    &&& new.scope == old.scope
    &&& new.label == old.label
    &&& if old.scope == 0 {
        &&& new.locals@ == old.locals@
        &&& new.instructions@ == old.instructions@
        &&& match (match v.assignment { Some(a) => constants(a.value), None => None }) {
            None => {
                &&& r is Err
                &&& reports(r->Err_0, if v.assignment is Some && v.assignment->Some_0.value is List {
                    Fault::NonConstantList
                } else {
                    Fault::NonConstantInitializer
                }, v.name@)
                &&& new.globals@ == old.globals@
            },
            Some(values) => if old.defined_here(v.name@) {
                r is Err && reports(r->Err_0, Fault::Redefinition, v.name@) && new.globals@ == old.globals@
            } else if old.resolved(v.datatype) is None {
                r is Err && reports(r->Err_0, Fault::UndefinedType, v.datatype->Alias_0@) && new.globals@ == old.globals@
            } else {
                &&& r is Ok
                &&& new.globals@.drop_last() == old.globals@
                &&& new.globals@.len() == old.globals@.len() + 1
                &&& new.globals@.last().ident@ == v.name@
                &&& new.globals@.last().compound == old.resolved(v.datatype).unwrap()
                &&& new.globals@.last().values@ == values
            },
        }
    } else {
        &&& new.globals@ == old.globals@
        &&& if old.defined_here(v.name@) {
            r is Err && reports(r->Err_0, Fault::Redefinition, v.name@) && new.locals@ == old.locals@
        } else if old.resolved(v.datatype) is None {
            r is Err && reports(r->Err_0, Fault::UndefinedType, v.datatype->Alias_0@) && new.locals@ == old.locals@
        } else {
            &&& new.locals@.drop_last() == old.locals@
            &&& new.locals@.len() == old.locals@.len() + 1
            &&& new.locals@.last().ident@ == v.name@
            &&& new.locals@.last().scope == old.scope
            &&& new.locals@.last().compound == old.resolved(v.datatype).unwrap()
            &&& match v.assignment {
                None => r is Ok && new.code() == old.code(),
                Some(a) => match store_all(new.locals@, new.globals@, new.scope as nat, old.code(), a.name@, a.index as int, elements(a.value)) {
                    Ok(c) => r is Ok && new.code() == c,
                    Err(f) => r is Err && reports(r->Err_0, f.0, f.1),
                },
            }
        }
    }
}

/// What a `return` does to a program: the expression, its conversion to
/// `int`, and `ret`.
pub open spec fn return_effect(old: Program, new: Program, e: Expression, r: Result<(), SemanticError>) -> bool {
    &&& new.same_tables(&old)
    &&& if old.scope == 0 {
        r is Err && reports(r->Err_0, Fault::TopLevelReturn, Seq::empty()) && new.code() == old.code()
    } else {
        match old.lowered(e) {
            Ok(c) => {
                let (c2, v) = cast_code(old.locals@, old.globals@, c, last_of(c), Some(Primitive::Int));
                r is Ok && new.code() == c2.push(ins(Operation::Ret, v, OperandView::Empty))
            },
            Err(f) => r is Err && reports(r->Err_0, f.0, f.1),
        }
    }
}

impl Program {
    fn store_element(&mut self, name: &String, index: usize, e: &Expression) -> (r: Result<(), SemanticError>)
        requires
            old(self).wf(),
        ensures
            final(self).wf(),
            final(self).same_tables(old(self)),
            extends(final(self).code(), old(self).code()),
            match store(old(self).locals@, old(self).globals@, old(self).scope as nat, old(self).code(), name@, index as int, *e) {
                Ok(c) => r is Ok && final(self).code() == c,
                Err(f) => r is Err && reports(r->Err_0, f.0, f.1),
            },
    {
        e.translate(self)?;
        let key = self.infer_name(name)?;
        let global = self.is_global(name)?;
        let last = self.last();
        let to = self.type_of(&key);
        let value = self.cast(last, to);
        self.instruct(
            if global { Operation::Stg } else { Operation::Str },
            Operand::Identifier(key, index),
            value,
        );
        Ok(())
    }
}

impl Assignment {
    pub fn translate(&self, program: &mut Program) -> (r: Result<(), SemanticError>)
        requires
            old(program).wf(),
        ensures
            final(program).wf(),
            assignment_effect(*old(program), *final(program), *self, r),
            extends(final(program).code(), old(program).code()),
    {
        if program.toplevel() {
            return Err(fail(Fault::TopLevelAssignment, &self.name));
        }
        match &self.value {
            Initializer::Expression(e) => {
                proof {
                    assert(seq![*e].drop_last() =~= Seq::<Expression>::empty());
                    assert(elements(self.value) == seq![*e]);
                    reveal_with_fuel(store_all, 2);
                }
                program.store_element(&self.name, self.index, e)
            },
            Initializer::List(values) => {
                let mut k: usize = 0;
                while k < values.len()
                    invariant
                        program.wf(),
                        program.same_tables(old(program)),
                        extends(program.code(), old(program).code()),
                        old(program).scope != 0,
                        self.value == Initializer::List(*values),
                        k <= values@.len(),
                        store_all(old(program).locals@, old(program).globals@, old(program).scope as nat, old(program).code(),
                            self.name@, self.index as int, values@.take(k as int)) == Ok::<Seq<InstructionView>, (Fault, Seq<char>)>(program.code()),
                    decreases values@.len() - k,
                {
                    proof {
                        assert(values@.take(k + 1).drop_last() =~= values@.take(k as int));
                        assert(values@.take(k + 1).last() == values@[k as int]);
                        assert(elements(self.value) == values@);
                    }
                    if self.index > usize::MAX - k {
                        proof {
                            lemma_store_all_error_persists(old(program).locals@, old(program).globals@, old(program).scope as nat,
                                old(program).code(), self.name@, self.index as int, values@, (k + 1) as int);
                        }
                        return Err(fail(Fault::IndexOutOfRange, &self.name));
                    }
                    let r = program.store_element(&self.name, self.index + k, &values[k]);
                    if r.is_err() {
                        proof {
                            lemma_store_all_error_persists(old(program).locals@, old(program).globals@, old(program).scope as nat,
                                old(program).code(), self.name@, self.index as int, values@, (k + 1) as int);
                        }
                        return r;
                    }
                    k = k + 1;
                }
                proof {
                    assert(values@.take(k as int) =~= values@);
                }
                Ok(())
            },
        }
    }
}

/// Once a prefix of the list fails to store, the whole list fails the same
/// way.
proof fn lemma_store_all_error_persists(locals: Seq<Local>, globals: Seq<Global>, depth: nat, code: Seq<InstructionView>, name: Seq<char>, index: int, es: Seq<Expression>, k: int)
    requires
        0 <= k <= es.len(),
        store_all(locals, globals, depth, code, name, index, es.take(k)) is Err,
    ensures
        store_all(locals, globals, depth, code, name, index, es) == store_all(locals, globals, depth, code, name, index, es.take(k)),
    decreases es.len() - k,
{
    if k < es.len() {
        assert(es.take(k + 1).drop_last() =~= es.take(k));
        lemma_store_all_error_persists(locals, globals, depth, code, name, index, es, k + 1);
    } else {
        assert(es.take(k) =~= es);
    }
}

/// The constants of a top-level initializer, or the fault it raises.
fn constant_values(init: &Initializer) -> (r: Option<Vec<Data>>)
    ensures
        match r {
            Some(v) => constants(*init) == Some(v@),
            None => constants(*init) is None,
        },
{
    match init {
        Initializer::Expression(Expression::Value(Value::Data(d))) => {
            let mut v = Vec::new();
            v.push(*d);
            proof { assert(v@ =~= seq![*d]); }
            Some(v)
        },
        Initializer::Expression(_) => None,
        Initializer::List(values) => {
            let mut out: Vec<Data> = Vec::new();
            let mut k: usize = 0;
            while k < values.len()
                invariant
                    *init == Initializer::List(*values),
                    k <= values@.len(),
                    out@.len() == k,
                    forall|i: int| 0 <= i < k ==> (#[trigger] values@[i]) is Value && values@[i]->Value_0 is Data
                        && out@[i] == values@[i]->Value_0->Data_0,
                decreases values@.len() - k,
            {
                match &values[k] {
                    Expression::Value(Value::Data(d)) => out.push(*d),
                    _ => return None,
                }
                k = k + 1;
            }
            proof {
                assert(out@ =~= values@.map_values(|e: Expression| e->Value_0->Data_0));
            }
            Some(out)
        },
    }
}

impl Variable {
    pub fn translate(&self, program: &mut Program) -> (r: Result<(), SemanticError>)
        requires
            old(program).wf(),
        ensures
            final(program).wf(),
            variable_effect(*old(program), *final(program), *self, r),
            extends(final(program).code(), old(program).code()),
    {
        if program.toplevel() {
            let values = match &self.assignment {
                Some(a) => constant_values(&a.value),
                None => None,
            };
            match values {
                Some(values) => program.define_variable(&self.name, &self.datatype, values),
                None => {
                    let list = match &self.assignment {
                        Some(a) => match &a.value {
                            Initializer::List(_) => true,
                            _ => false,
                        },
                        None => false,
                    };
                    Err(fail(if list { Fault::NonConstantList } else { Fault::NonConstantInitializer }, &self.name))
                },
            }
        } else {
            program.define_variable(&self.name, &self.datatype, Vec::new())?;
            match &self.assignment {
                Some(a) => a.translate(program),
                None => Ok(()),
            }
        }
    }
}

impl Program {
    fn return_value(&mut self, e: &Expression) -> (r: Result<(), SemanticError>)
        requires
            old(self).wf(),
        ensures
            final(self).wf(),
            return_effect(*old(self), *final(self), *e, r),
            extends(final(self).code(), old(self).code()),
    {
        if self.toplevel() {
            return Err(fail(Fault::TopLevelReturn, &String::new()));
        }
        e.translate(self)?;
        let last = self.last();
        let operand = self.cast(last, Some(Primitive::Int));
        self.instruct(Operation::Ret, operand, Operand::Empty);
        Ok(())
    }
}

/// Marks the intermediate state and result a relation below is witnessed
/// by.
pub open spec fn witness(p: Program, r: Result<(), SemanticError>) -> bool {
    true
}

/// Marks the two intermediate states and the result a relation below is
/// witnessed by.
pub open spec fn witnesses(p: Program, q: Program, r: Result<(), SemanticError>) -> bool {
    true
}

/// Two programs hold the same tables, scope, label counter and code.
pub open spec fn same_state(a: Program, b: Program) -> bool {
    a.same_tables(&b) && a.code() == b.code()
}

/// `inner` is `old` one scope deeper, with `labels` more labels made.
pub open spec fn entered(old: Program, inner: Program, labels: nat) -> bool {
    &&& inner.globals@ == old.globals@
    &&& inner.locals@ == old.locals@
    &&& inner.types@ == old.types@
    &&& inner.scope == old.scope + 1
    &&& inner.label == old.label + labels
    &&& inner.code() == old.code()
}

/// `new` holds the tables and label counter of `inner`, at scope `scope`,
/// with code `code`.
pub open spec fn left(inner: Program, new: Program, scope: nat, code: Seq<InstructionView>) -> bool {
    &&& new.globals@ == inner.globals@
    &&& new.locals@ == inner.locals@
    &&& new.types@ == inner.types@
    &&& new.label == inner.label
    &&& new.scope == scope
    &&& new.code() == code
}

/// A program before any statement: empty tables, no code, at the top level.
pub open spec fn fresh(p: Program) -> bool {
    &&& p.globals@.len() == 0
    &&& p.locals@.len() == 0
    &&& p.types@.len() == 0
    &&& p.instructions@.len() == 0
    &&& p.scope == 0
    &&& p.label == 0
}

/// What a `typedef` does to a program.
pub open spec fn type_effect(old: Program, new: Program, t: Type, r: Result<(), SemanticError>) -> bool {
    &&& new.globals@ == old.globals@
    &&& new.locals@ == old.locals@
    &&& new.scope == old.scope
    &&& new.label == old.label
    &&& new.code() == old.code()
    &&& match old.resolved(t.datatype) {
        Some(c) => {
            &&& r is Ok
            &&& new.types@.len() == old.types@.len() + 1
            &&& new.types@.drop_last() == old.types@
            &&& new.types@.last().name@ == t.name@
            &&& new.types@.last().compound == c
        },
        None => r is Err && reports(r->Err_0, Fault::UndefinedType, t.datatype->Alias_0@) && new.types@
            == old.types@,
    }
}

/// What a loop does to a program. At the top level it is refused. Else it
/// enters a scope, makes the labels `loop_start_n` and `loop_end_{n+1}`
/// (`n` counts the labels made before), and appends: the initialization,
/// `loop_start_n:`, the condition, a comparison of it with 0 and a branch to
/// `loop_end_{n+1}` when equal, the body, the increment, a branch back to
/// `loop_start_n` and `loop_end_{n+1}:`; then it leaves the scope. The first
/// part that fails gives the error.
pub open spec fn loop_effect(old: Program, new: Program, l: Loop, r: Result<(), SemanticError>) -> bool
    decreases l,
{
    let start = scoped("loop_start"@, old.label as nat);
    let end = scoped("loop_end"@, old.label as nat + 1);
    if old.scope == 0 {
        r is Err && reports(r->Err_0, Fault::TopLevelLoop, l.initialization.name@) && same_state(new, old)
    } else if old.scope == usize::MAX || old.label >= usize::MAX - 1 {
        r is Err && reports(r->Err_0, Fault::Limit, Seq::empty()) && same_state(new, old)
    } else {
        exists|p0: Program, p1: Program, r1: Result<(), SemanticError>|
            #[trigger] witnesses(p0, p1, r1) && entered(old, p0, 2) && variable_effect(p0, p1, l.initialization, r1) && if r1 is Err {
                r == r1
            } else {
                match lower(p1.locals@, p1.globals@, p1.scope as nat,
                    p1.code().push(ins(Operation::Lbl, OperandView::Label(start), OperandView::Empty)), l.condition) {
                    Err(f) => r is Err && reports(r->Err_0, f.0, f.1),
                    Ok(c3) => {
                        let c4 = c3.push(ins(Operation::Cmp, last_of(c3), zero_view())).push(
                            ins(Operation::BEq, OperandView::Label(end), OperandView::Empty),
                        );
                        exists|p4: Program, p5: Program, r5: Result<(), SemanticError>|
                            #[trigger] witnesses(p4, p5, r5) && left(p1, p4, p1.scope as nat, c4) && block_from(p4, p5, l.body@, 0, r5) && if r5 is Err {
                                r == r5
                            } else {
                                exists|p6: Program, r6: Result<(), SemanticError>|
                                    #[trigger] witness(p6, r6) && assignment_effect(p5, p6, l.increment, r6) && if r6 is Err {
                                        r == r6
                                    } else {
                                        r is Ok && left(p6, new, old.scope as nat, p6.code().push(
                                            ins(Operation::B, OperandView::Label(start), OperandView::Empty),
                                        ).push(ins(Operation::Lbl, OperandView::Label(end), OperandView::Empty)))
                                    }
                            }
                    },
                }
            }
    }
}

/// What a function does to a program: only `main` is accepted; its body is
/// translated one scope deeper, and the scope is left again.
pub open spec fn function_effect(old: Program, new: Program, f: Function, r: Result<(), SemanticError>) -> bool
    decreases f,
{
    if f.name@ != "main"@ {
        r is Err && reports(r->Err_0, Fault::UnsupportedFunction, f.name@) && same_state(new, old)
    } else if old.scope == usize::MAX {
        r is Err && reports(r->Err_0, Fault::Limit, Seq::empty()) && same_state(new, old)
    } else {
        exists|p0: Program, p1: Program, r1: Result<(), SemanticError>|
            #[trigger] witnesses(p0, p1, r1) && entered(old, p0, 0) && block_from(p0, p1, f.body@, 0, r1) && if r1 is Err {
                r == r1
            } else {
                r is Ok && left(p1, new, old.scope as nat, p1.code())
            }
    }
}

/// What a statement does to a program.
pub open spec fn statement_effect(old: Program, new: Program, s: Statement, r: Result<(), SemanticError>) -> bool
    decreases s,
{
    match s {
        Statement::Type(t) => type_effect(old, new, t, r),
        Statement::Assignment(a) => assignment_effect(old, new, a, r),
        Statement::Variable(v) => variable_effect(old, new, v, r),
        Statement::Return(e) => return_effect(old, new, e, r),
        Statement::Loop(l) => loop_effect(old, new, l, r),
        Statement::Function(f) => function_effect(old, new, f, r),
        Statement::Noop => r is Ok && same_state(new, old),
    }
}

/// What the statements from `k` on do to a program, in order, up to the
/// first error.
pub open spec fn block_from(old: Program, new: Program, statements: Seq<Statement>, k: int, r: Result<(), SemanticError>) -> bool
    decreases statements, statements.len() - k,
{
    if k < 0 || k >= statements.len() {
        r is Ok && same_state(new, old)
    } else {
        exists|mid: Program, r1: Result<(), SemanticError>|
            #[trigger] witness(mid, r1) && statement_effect(old, mid, statements[k], r1) && if r1 is Err {
                r == r1
            } else {
                block_from(mid, new, statements, k + 1, r)
            }
    }
}

/// Appends the code of the statements from `k` on, in order, stopping at
/// the first error.
fn translate_from(statements: &Vec<Statement>, k: usize, program: &mut Program) -> (r: Result<(), SemanticError>)
    requires
        old(program).wf(),
    ensures
        final(program).wf(),
        block_from(*old(program), *final(program), statements@, k as int, r),
        r is Ok ==> final(program).scope == old(program).scope && final(program).label >= old(program).label
            && extends(final(program).code(), old(program).code()),
    decreases statements@, statements@.len() - k,
{
    if k >= statements.len() {
        return Ok(());
    }
    proof {
        vstd::seq::axiom_seq_index_decreases(statements@, k as int);
    }
    let r1 = statements[k].translate(program);
    let ghost mid = *program;
    if r1.is_err() {
        proof {
            assert(witness(mid, r1) && statement_effect(*old(program), mid, statements@[k as int], r1));
        }
        return r1;
    }
    let r = translate_from(statements, k + 1, program);
    proof {
        assert(witness(mid, r1) && statement_effect(*old(program), mid, statements@[k as int], r1));
        assert(block_from(mid, *program, statements@, k + 1, r));
    }
    r
}

/// Appends the code of each statement in turn, stopping at the first error.
pub fn translate_block(statements: &Vec<Statement>, program: &mut Program) -> (r: Result<(), SemanticError>)
    requires
        old(program).wf(),
    ensures
        final(program).wf(),
        block_from(*old(program), *final(program), statements@, 0, r),
        r is Ok ==> final(program).scope == old(program).scope && final(program).label >= old(program).label
            && extends(final(program).code(), old(program).code()),
    decreases statements@, statements@.len() + 1,
{
    translate_from(statements, 0, program)
}

impl Loop {
    #[verifier::spinoff_prover]
    #[verifier::rlimit(100)]
    pub fn translate(&self, program: &mut Program) -> (r: Result<(), SemanticError>)
        requires
            old(program).wf(),
        ensures
            final(program).wf(),
            loop_effect(*old(program), *final(program), *self, r),
            r is Ok ==> final(program).scope == old(program).scope && final(program).label >= old(program).label
                && extends(final(program).code(), old(program).code()),
        decreases self,
    {
        if program.toplevel() {
            return Err(fail(Fault::TopLevelLoop, &self.initialization.name));
        }
        if program.scope == usize::MAX || program.label >= usize::MAX - 1 {
            return Err(fail(Fault::Limit, &String::new()));
        }
        program.push_scope();
        let loop_start = program.generate_label("loop_start");
        let loop_end = program.generate_label("loop_end");
        let loop_start2 = loop_start.clone();
        let loop_end2 = loop_end.clone();
        let ghost p0 = *program;
        let r1 = self.initialization.translate(program);
        let ghost p1 = *program;
        if r1.is_err() {
            proof {
                assert(witnesses(p0, p1, r1) && entered(*old(program), p0, 2) && variable_effect(p0, p1, self.initialization, r1));
            }
            return r1;
        }
        program.instruct(Operation::Lbl, Operand::Label(loop_start), Operand::Empty);
        let rc = self.condition.translate(program);
        if rc.is_err() {
            proof {
                assert(witnesses(p0, p1, r1) && entered(*old(program), p0, 2) && variable_effect(p0, p1, self.initialization, r1));
            }
            return rc;
        }
        let last = program.last();
        program.instruct(Operation::Cmp, last, zero());
        program.instruct(Operation::BEq, Operand::Label(loop_end), Operand::Empty);
        let ghost p4 = *program;
        let r5 = translate_block(&self.body, program);
        let ghost p5 = *program;
        if r5.is_err() {
            proof {
                assert(left(p1, p4, p1.scope as nat, p4.code()));
                assert(witnesses(p4, p5, r5) && block_from(p4, p5, self.body@, 0, r5));
                assert(witnesses(p0, p1, r1) && entered(*old(program), p0, 2) && variable_effect(p0, p1, self.initialization, r1));
            }
            return r5;
        }
        let r6 = self.increment.translate(program);
        let ghost p6 = *program;
        if r6.is_err() {
            proof {
                assert(witness(p6, r6) && assignment_effect(p5, p6, self.increment, r6));
                assert(left(p1, p4, p1.scope as nat, p4.code()));
                assert(witnesses(p4, p5, r5) && block_from(p4, p5, self.body@, 0, r5));
                assert(witnesses(p0, p1, r1) && entered(*old(program), p0, 2) && variable_effect(p0, p1, self.initialization, r1));
            }
            return r6;
        }
        program.instruct(Operation::B, Operand::Label(loop_start2), Operand::Empty);
        program.instruct(Operation::Lbl, Operand::Label(loop_end2), Operand::Empty);
        program.pop_scope();
        proof {
            assert(witness(p6, r6) && assignment_effect(p5, p6, self.increment, r6));
            assert(left(p6, *program, old(program).scope as nat, program.code()));
            assert(left(p1, p4, p1.scope as nat, p4.code()));
            assert(witnesses(p4, p5, r5) && block_from(p4, p5, self.body@, 0, r5));
            assert(witnesses(p0, p1, r1) && entered(*old(program), p0, 2) && variable_effect(p0, p1, self.initialization, r1));
        }
        Ok(())
    }
}

impl Statement {
    pub fn translate(&self, program: &mut Program) -> (r: Result<(), SemanticError>)
        requires
            old(program).wf(),
        ensures
            final(program).wf(),
            statement_effect(*old(program), *final(program), *self, r),
            r is Ok ==> final(program).scope == old(program).scope && final(program).label >= old(program).label
                && extends(final(program).code(), old(program).code()),
        decreases self,
    {
        match self {
            Statement::Type(t) => program.define_type(&t.name, &t.datatype),
            Statement::Assignment(a) => a.translate(program),
            Statement::Variable(v) => v.translate(program),
            Statement::Loop(l) => l.translate(program),
            Statement::Return(e) => program.return_value(e),
            Statement::Function(f) => f.translate(program),
            Statement::Noop => Ok(()),
        }
    }
}

impl Function {
    /// The body of `main`, in a scope of its own; no other function is
    /// accepted.
    pub fn translate(&self, program: &mut Program) -> (r: Result<(), SemanticError>)
        requires
            old(program).wf(),
        ensures
            final(program).wf(),
            function_effect(*old(program), *final(program), *self, r),
            r is Ok ==> final(program).scope == old(program).scope && final(program).label >= old(program).label
                && extends(final(program).code(), old(program).code()),
        decreases self,
    {
        let main = String::from_str("main");
        if self.name != main {
            return Err(fail(Fault::UnsupportedFunction, &self.name));
        }
        if program.scope == usize::MAX {
            return Err(fail(Fault::Limit, &String::new()));
        }
        program.push_scope();
        let ghost p0 = *program;
        proof {
            vstd::std_specs::vec::axiom_vec_decreases_to_view(self.body);
        }
        let r1 = translate_block(&self.body, program);
        let ghost p1 = *program;
        if r1.is_err() {
            proof {
                assert(witnesses(p0, p1, r1) && entered(*old(program), p0, 0) && block_from(p0, p1, self.body@, 0, r1));
            }
            return r1;
        }
        program.pop_scope();
        proof {
            assert(witnesses(p0, p1, r1) && entered(*old(program), p0, 0) && block_from(p0, p1, self.body@, 0, r1));
        }
        Ok(())
    }
}

/// Translates a whole program: its top-level statements in order, from
/// empty tables at the top level.
pub fn translate_program(statements: &Vec<Statement>) -> (r: Result<Program, SemanticError>)
    ensures
        match r {
            Ok(p) => p.wf() && p.scope == 0 && exists|start: Program, done: Result<(), SemanticError>|
                #[trigger] witness(start, done) && done is Ok && fresh(start) && block_from(start, p, statements@, 0, done),
            Err(e) => exists|start: Program, end: Program|
                #[trigger] witnesses(start, end, Err::<(), SemanticError>(e)) && fresh(start) && block_from(start, end, statements@, 0, Err::<(), SemanticError>(e)),
        },
{
    let mut program = Program::new();
    let ghost start = program;
    let r = translate_block(statements, &mut program);
    proof {
        assert(fresh(start) && block_from(start, program, statements@, 0, r));
    }
    if r.is_ok() {
        proof {
            assert(witness(start, r));
        }
        return Ok(program);
    }
    match r {
        Ok(()) => Ok(program),
        Err(e) => {
            proof {
                assert(witnesses(start, program, Err::<(), SemanticError>(e)));
            }
            Err(e)
        },
    }
}

} // verus!
