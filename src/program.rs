//! The translated program: symbol tables, type aliases and the instruction
//! list that the translator fills and the assembler reads.
use crate::error::{Fault, SemanticError, fail, reports};
use crate::ir::{Instruction, InstructionView, Operand, OperandView, Operation, code_of, operand_before, well_ordered};
use crate::text::{decimal, push_decimal};
use crate::types::{Compound, DataType, Data, Primitive};
use vstd::prelude::*;

verus! {

/// A variable of the function body, stored under `name`, which is `ident`
/// qualified by its scope.
#[derive(Debug)]
pub struct Local {
    pub name: String,
    pub ident: String,
    pub scope: usize,
    pub compound: Compound,
}

/// A top-level variable with its initial values, stored under `ident`
/// qualified by scope 0.
#[derive(Debug)]
pub struct Global {
    pub name: String,
    pub ident: String,
    pub compound: Compound,
    pub values: Vec<Data>,
}

/// A `typedef`.
#[derive(Debug)]
pub struct Alias {
    pub name: String,
    pub compound: Compound,
}

/// `ident_scope`, the key under which a variable is stored.
pub open spec fn scoped(ident: Seq<char>, scope: nat) -> Seq<char> {
    ident + seq!['_'] + decimal(scope)
}

pub open spec fn has_local(locals: Seq<Local>, ident: Seq<char>, scope: nat) -> bool {
    exists|i: int| 0 <= i < locals.len() && #[trigger] locals[i].ident@ == ident && locals[i].scope == scope
}

pub open spec fn has_global(globals: Seq<Global>, ident: Seq<char>) -> bool {
    exists|i: int| 0 <= i < globals.len() && #[trigger] globals[i].ident@ == ident
}

/// The scope a name resolves to: the deepest scope from `depth` down to 1
/// that defines it, else 0 when it is a global.
pub open spec fn find_scope(locals: Seq<Local>, globals: Seq<Global>, ident: Seq<char>, depth: nat) -> Option<nat>
    decreases depth,
{
    if depth == 0 {
        if has_global(globals, ident) { Some(0) } else { None }
    } else if has_local(locals, ident, depth) {
        Some(depth)
    } else {
        find_scope(locals, globals, ident, (depth - 1) as nat)
    }
}

/// The compound stored under a scope-qualified name: locals first, then
/// globals.
pub open spec fn compound_of(locals: Seq<Local>, globals: Seq<Global>, key: Seq<char>) -> Option<Compound> {
    if exists|i: int| 0 <= i < locals.len() && #[trigger] locals[i].name@ == key
        && forall|j: int| 0 <= j < i ==> #[trigger] locals[j].name@ != key {
        let i = choose|i: int| 0 <= i < locals.len() && #[trigger] locals[i].name@ == key
            && forall|j: int| 0 <= j < i ==> #[trigger] locals[j].name@ != key;
        Some(locals[i].compound)
    } else if exists|i: int| 0 <= i < globals.len() && #[trigger] globals[i].name@ == key
        && forall|j: int| 0 <= j < i ==> #[trigger] globals[j].name@ != key {
        let i = choose|i: int| 0 <= i < globals.len() && #[trigger] globals[i].name@ == key
            && forall|j: int| 0 <= j < i ==> #[trigger] globals[j].name@ != key;
        Some(globals[i].compound)
    } else {
        None
    }
}

/// The type of an operand as read by instructions before `bound`.
pub open spec fn operand_type(locals: Seq<Local>, globals: Seq<Global>, instructions: Seq<InstructionView>, o: OperandView, bound: nat) -> Option<Primitive>
    decreases bound, 0nat,
{
    match o {
        OperandView::Address(x) => if x < bound && x < instructions.len() {
            instruction_type(locals, globals, instructions, x as nat)
        } else {
            None
        },
        OperandView::Identifier(key, _) => match compound_of(locals, globals, key) {
            Some(c) => Some(c.0),
            None => None,
        },
        OperandView::Data(d) => Some(d.spec_primitive()),
        _ => None,
    }
}

/// The type of the result of instruction `i`.
pub open spec fn instruction_type(locals: Seq<Local>, globals: Seq<Global>, instructions: Seq<InstructionView>, i: nat) -> Option<Primitive>
    decreases i, 1nat,
{
    let ins = instructions[i as int];
    match ins.operation {
        Operation::SCvtF => Some(Primitive::Float),
        Operation::FCvtZS => Some(Primitive::Int),
        Operation::CSet => Some(Primitive::Int),
        _ => {
            let t1 = operand_type(locals, globals, instructions, ins.operand1, i);
            let t2 = operand_type(locals, globals, instructions, ins.operand2, i);
            match (t1, t2) {
                (Some(x), Some(y)) => if x == y { Some(x) } else { crate::types::spec_narrowest(t1, t2) },
                (Some(x), None) => Some(x),
                (None, Some(y)) => Some(y),
                _ => None,
            }
        },
    }
}

/// Total size of the locals, in bytes.
pub open spec fn locals_size(locals: Seq<Local>) -> nat
    decreases locals.len(),
{
    if locals.len() == 0 {
        0
    } else {
        locals_size(locals.drop_last()) + locals.last().compound.spec_size()
    }
}

/// `n` rounded up to a multiple of 16.
pub open spec fn round16(n: nat) -> nat {
    ((n + 15) / 16 * 16) as nat
}

pub struct Program {
    pub globals: Vec<Global>,
    pub locals: Vec<Local>,
    pub instructions: Vec<Instruction>,
    pub types: Vec<Alias>,
    pub scope: usize,
    pub label: usize,
}

impl Program {
    /// The symbol tables hold each variable once under its scope-qualified
    /// name, and every instruction refers only to earlier ones.
    pub open spec fn wf(&self) -> bool {
        &&& forall|i: int| 0 <= i < self.locals@.len() ==> #[trigger] self.locals@[i].name@
            == scoped(self.locals@[i].ident@, self.locals@[i].scope as nat) && self.locals@[i].scope >= 1
        &&& forall|i: int| 0 <= i < self.globals@.len() ==> #[trigger] self.globals@[i].name@
            == scoped(self.globals@[i].ident@, 0)
        &&& forall|i: int, j: int| 0 <= i < j < self.locals@.len() ==> !(#[trigger] self.locals@[i].ident@
            == #[trigger] self.locals@[j].ident@ && self.locals@[i].scope == self.locals@[j].scope)
        &&& forall|i: int, j: int| 0 <= i < j < self.globals@.len() ==> #[trigger] self.globals@[i].ident@
            != #[trigger] self.globals@[j].ident@
        &&& well_ordered(self.code())
    }

    pub open spec fn resolves(&self, ident: Seq<char>) -> Option<nat> {
        find_scope(self.locals@, self.globals@, ident, self.scope as nat)
    }

    pub open spec fn code(&self) -> Seq<InstructionView> {
        code_of(self.instructions@)
    }

    pub open spec fn type_in(&self, o: OperandView) -> Option<Primitive> {
        operand_type(self.locals@, self.globals@, self.code(), o, self.instructions@.len())
    }

    /// The tables and counters agree; only the instructions may differ.
    pub open spec fn same_tables(&self, other: &Program) -> bool {
        &&& self.globals@ == other.globals@
        &&& self.locals@ == other.locals@
        &&& self.types@ == other.types@
        &&& self.scope == other.scope
        &&& self.label == other.label
    }

    pub fn new() -> (r: Program)
        ensures
            r.wf(),
            r.globals@.len() == 0,
            r.locals@.len() == 0,
            r.instructions@.len() == 0,
            r.types@.len() == 0,
            r.scope == 0,
            r.label == 0,
    {
        Program {
            globals: Vec::new(),
            locals: Vec::new(),
            instructions: Vec::new(),
            types: Vec::new(),
            scope: 0,
            label: 0,
        }
    }

    pub fn toplevel(&self) -> (r: bool)
        ensures
            r == (self.scope == 0),
    {
        self.scope == 0
    }

    pub fn push_scope(&mut self)
        requires
            old(self).scope < usize::MAX,
        ensures
            old(self).wf() ==> final(self).wf(),
            final(self).scope == old(self).scope + 1,
            final(self).globals@ == old(self).globals@,
            final(self).locals@ == old(self).locals@,
            final(self).instructions@ == old(self).instructions@,
            final(self).types@ == old(self).types@,
            final(self).label == old(self).label,
    {
        self.scope = self.scope + 1;
    }

    pub fn pop_scope(&mut self)
        requires
            old(self).scope > 0,
        ensures
            old(self).wf() ==> final(self).wf(),
            final(self).scope == old(self).scope - 1,
            final(self).globals@ == old(self).globals@,
            final(self).locals@ == old(self).locals@,
            final(self).instructions@ == old(self).instructions@,
            final(self).types@ == old(self).types@,
            final(self).label == old(self).label,
    {
        self.scope = self.scope - 1;
    }

    fn defines_local(&self, ident: &String, scope: usize) -> (r: bool)
        ensures
            r == has_local(self.locals@, ident@, scope as nat),
    {
        let mut i: usize = 0;
        while i < self.locals.len()
            invariant
                i <= self.locals@.len(),
                forall|j: int| 0 <= j < i ==> !(#[trigger] self.locals@[j].ident@ == ident@ && self.locals@[j].scope == scope),
            decreases self.locals@.len() - i,
        {
            if self.locals[i].scope == scope && self.locals[i].ident == *ident {
                return true;
            }
            i = i + 1;
        }
        false
    }

    fn defines_global(&self, ident: &String) -> (r: bool)
        ensures
            r == has_global(self.globals@, ident@),
    {
        let mut i: usize = 0;
        while i < self.globals.len()
            invariant
                i <= self.globals@.len(),
                forall|j: int| 0 <= j < i ==> #[trigger] self.globals@[j].ident@ != ident@,
            decreases self.globals@.len() - i,
        {
            if self.globals[i].ident == *ident {
                return true;
            }
            i = i + 1;
        }
        false
    }

    /// The scope that a name resolves to, searching from the current depth
    /// down to 1, then among the globals.
    pub fn infer_scope(&self, name: &String) -> (r: Result<usize, SemanticError>)
        ensures
            match r {
                Ok(s) => self.resolves(name@) == Some(s as nat),
                Err(e) => self.resolves(name@) is None && reports(e, Fault::UndefinedVariable, name@),
            },
    {
        let mut depth = self.scope;
        while depth > 0
            invariant
                depth <= self.scope,
                find_scope(self.locals@, self.globals@, name@, self.scope as nat)
                    == find_scope(self.locals@, self.globals@, name@, depth as nat),
            decreases depth,
        {
            if self.defines_local(name, depth) {
                return Ok(depth);
            }
            depth = depth - 1;
        }
        if self.defines_global(name) {
            Ok(0)
        } else {
            Err(fail(Fault::UndefinedVariable, name))
        }
    }

    /// The scope-qualified name that a name resolves to.
    pub fn infer_name(&self, name: &String) -> (r: Result<String, SemanticError>)
        ensures
            match r {
                Ok(k) => self.resolves(name@) is Some && k@ == scoped(name@, self.resolves(name@).unwrap()),
                Err(e) => self.resolves(name@) is None && reports(e, Fault::UndefinedVariable, name@),
            },
    {
        let scope = self.infer_scope(name)?;
        Ok(qualify(name, scope))
    }

    pub fn is_global(&self, name: &String) -> (r: Result<bool, SemanticError>)
        ensures
            match r {
                Ok(g) => self.resolves(name@) is Some && g == (self.resolves(name@) == Some(0nat)),
                Err(e) => self.resolves(name@) is None && reports(e, Fault::UndefinedVariable, name@),
            },
    {
        let scope = self.infer_scope(name)?;
        Ok(scope == 0)
    }

    fn is_defined_here(&self, name: &String) -> (r: bool)
        ensures
            r == (if self.scope == 0 {
                has_global(self.globals@, name@)
            } else {
                has_local(self.locals@, name@, self.scope as nat)
            }),
    {
        if self.scope == 0 {
            self.defines_global(name)
        } else {
            self.defines_local(name, self.scope)
        }
    }

    pub fn local_name(&self, name: &String) -> (r: String)
        ensures
            r@ == scoped(name@, self.scope as nat),
    {
        qualify(name, self.scope)
    }

    pub open spec fn alias_of(&self, name: Seq<char>) -> Option<Compound> {
        alias_in(self.types@, name)
    }

    /// The compound a declared type stands for: itself, or what its alias was
    /// last defined as.
    pub open spec fn resolved(&self, datatype: DataType) -> Option<Compound> {
        match datatype {
            DataType::Type(c) => Some(c),
            DataType::Alias(name) => self.alias_of(name@),
        }
    }

    pub fn resolve_type(&self, datatype: &DataType) -> (r: Result<Compound, SemanticError>)
        ensures
            match r {
                Ok(c) => self.resolved(*datatype) == Some(c),
                Err(e) => self.resolved(*datatype) is None && reports(e, Fault::UndefinedType, datatype->Alias_0@),
            },
    {
        match datatype {
            DataType::Type(c) => Ok(*c),
            DataType::Alias(alias) => {
                let mut i = self.types.len();
                while i > 0
                    invariant
                        *datatype == DataType::Alias(*alias),
                        i <= self.types@.len(),
                        forall|j: int| i <= j < self.types@.len() ==> #[trigger] self.types@[j].name@ != alias@,
                    decreases i,
                {
                    if self.types[i - 1].name == *alias {
                        let c = self.types[i - 1].compound;
                        proof {
                            let k = (i - 1) as int;
                            assert(self.types@[k].name@ == alias@);
                            assert(forall|j: int| k < j < self.types@.len() ==> #[trigger] self.types@[j].name@ != alias@);
                            let w = choose|w: int|
                                0 <= w < self.types@.len() && #[trigger] self.types@[w].name@ == alias@
                                    && forall|j: int| w < j < self.types@.len() ==> #[trigger] self.types@[j].name@ != alias@;
                            if w < k {
                                assert(self.types@[k].name@ != alias@);
                            } else if w > k {
                                assert(self.types@[w].name@ != alias@);
                            }
                            assert(w == k);

                        }
                        return Ok(c);
                    }
                    i = i - 1;
                }
                Err(fail(Fault::UndefinedType, alias))
            },
        }
    }

    /// A fresh label `prefix_n`, where `n` counts the labels made so far.
    pub fn generate_label(&mut self, prefix: &str) -> (r: String)
        requires
            old(self).label < usize::MAX,
        ensures
            old(self).wf() ==> final(self).wf(),
            r@ == scoped(prefix@, old(self).label as nat),
            final(self).label == old(self).label + 1,
            final(self).globals@ == old(self).globals@,
            final(self).locals@ == old(self).locals@,
            final(self).instructions@ == old(self).instructions@,
            final(self).types@ == old(self).types@,
            final(self).scope == old(self).scope,
    {
        let mut label = String::from_str(prefix);
        label.append("_");
        push_decimal(&mut label, self.label as u64);
        proof {
            reveal_strlit("_");
        }
        self.label = self.label + 1;
        label
    }

    /// The primitive of the variable stored under a scope-qualified name.
    pub fn type_of(&self, key: &String) -> (r: Option<Primitive>)
        ensures
            r == (match compound_of(self.locals@, self.globals@, key@) {
                Some(c) => Some(c.0),
                None => None,
            }),
    {
        match self.compound_under(key) {
            Some(c) => Some(c.0),
            None => None,
        }
    }

    pub fn compound_under(&self, key: &String) -> (r: Option<Compound>)
        ensures
            r == compound_of(self.locals@, self.globals@, key@),
    {
        let mut i: usize = 0;
        while i < self.locals.len()
            invariant
                i <= self.locals@.len(),
                forall|j: int| 0 <= j < i ==> #[trigger] self.locals@[j].name@ != key@,
            decreases self.locals@.len() - i,
        {
            if self.locals[i].name == *key {
                proof {
                    let w = choose|w: int| 0 <= w < self.locals@.len() && #[trigger] self.locals@[w].name@ == key@
                        && forall|j: int| 0 <= j < w ==> #[trigger] self.locals@[j].name@ != key@;
                    if w < i {} else if w > i { assert(self.locals@[i as int].name@ == key@); }
                }
                return Some(self.locals[i].compound);
            }
            i = i + 1;
        }
        let mut i: usize = 0;
        while i < self.globals.len()
            invariant
                i <= self.globals@.len(),
                forall|j: int| 0 <= j < self.locals@.len() ==> #[trigger] self.locals@[j].name@ != key@,
                forall|j: int| 0 <= j < i ==> #[trigger] self.globals@[j].name@ != key@,
            decreases self.globals@.len() - i,
        {
            if self.globals[i].name == *key {
                proof {
                    let w = choose|w: int| 0 <= w < self.globals@.len() && #[trigger] self.globals@[w].name@ == key@
                        && forall|j: int| 0 <= j < w ==> #[trigger] self.globals@[j].name@ != key@;
                    if w < i {} else if w > i { assert(self.globals@[i as int].name@ == key@); }
                }
                return Some(self.globals[i].compound);
            }
            i = i + 1;
        }
        None
    }
}

/// The conversion that `cast` emits from one type to another, if any.
pub open spec fn conversion(from: Option<Primitive>, to: Option<Primitive>) -> Option<Operation> {
    match (from, to) {
        (Some(f), Some(t)) => if f != Primitive::Float && t == Primitive::Float {
            Some(Operation::SCvtF)
        } else if f == Primitive::Float && t != Primitive::Float {
            Some(Operation::FCvtZS)
        } else {
            None
        },
        _ => None,
    }
}

impl Program {
    #[verifier::spinoff_prover]
    #[verifier::rlimit(100)]
    pub fn define_variable(&mut self, name: &String, datatype: &DataType, values: Vec<Data>) -> (r: Result<(), SemanticError>)
        requires
            old(self).wf(),
        ensures
            final(self).wf(),
            final(self).instructions@ == old(self).instructions@,
            final(self).types@ == old(self).types@,
            final(self).scope == old(self).scope,
            final(self).label == old(self).label,
            match r {
                Ok(()) => {
                    &&& !old(self).defined_here(name@)
                    &&& old(self).resolved(*datatype) is Some
                    &&& if old(self).scope == 0 {
                        &&& final(self).locals@ == old(self).locals@
                        &&& final(self).globals@.len() == old(self).globals@.len() + 1
                        &&& final(self).globals@.drop_last() == old(self).globals@
                        &&& final(self).globals@.last().ident@ == name@
                        &&& final(self).globals@.last().compound == old(self).resolved(*datatype).unwrap()
                        &&& final(self).globals@.last().values@ == values@
                    } else {
                        &&& final(self).globals@ == old(self).globals@
                        &&& final(self).locals@.len() == old(self).locals@.len() + 1
                        &&& final(self).locals@.drop_last() == old(self).locals@
                        &&& final(self).locals@.last().ident@ == name@
                        &&& final(self).locals@.last().scope == old(self).scope
                        &&& final(self).locals@.last().compound == old(self).resolved(*datatype).unwrap()
                    }
                },
                Err(e) => {
                    &&& final(self).globals@ == old(self).globals@
                    &&& final(self).locals@ == old(self).locals@
                    &&& if old(self).defined_here(name@) {
                        reports(e, Fault::Redefinition, name@)
                    } else {
                        old(self).resolved(*datatype) is None && reports(e, Fault::UndefinedType, datatype->Alias_0@)
                    }
                },
            },
    {
        if self.is_defined_here(name) {
            return Err(fail(Fault::Redefinition, name));
        }
        let compound = self.resolve_type(datatype)?;
        let key = self.local_name(name);
        if self.scope == 0 {
            let global = Global { name: key, ident: name.clone(), compound, values };
            self.globals.push(global);
            proof {
                assert(self.globals@.drop_last() =~= old(self).globals@);
                assert forall|i: int, j: int| 0 <= i < j < self.globals@.len() implies #[trigger] self.globals@[i].ident@
                    != #[trigger] self.globals@[j].ident@ by {
                    if j == self.globals@.len() - 1 {
                        assert(old(self).globals@[i].ident@ != name@);
                    }
                }
            }
        } else {
            let local = Local { name: key, ident: name.clone(), scope: self.scope, compound };
            self.locals.push(local);
            proof {
                assert(self.locals@.drop_last() =~= old(self).locals@);
                assert forall|i: int, j: int| 0 <= i < j < self.locals@.len() implies !(#[trigger] self.locals@[i].ident@
                    == #[trigger] self.locals@[j].ident@ && self.locals@[i].scope == self.locals@[j].scope) by {
                    if j == self.locals@.len() - 1 {
                        assert(!(old(self).locals@[i].ident@ == name@ && old(self).locals@[i].scope == self.scope));
                    }
                }
            }
        }
        Ok(())
    }

    /// Whether a name is already defined in the current scope.
    pub open spec fn defined_here(&self, name: Seq<char>) -> bool {
        if self.scope == 0 {
            has_global(self.globals@, name)
        } else {
            has_local(self.locals@, name, self.scope as nat)
        }
    }

    #[verifier::spinoff_prover]
    #[verifier::rlimit(100)]
    #[verifier::spinoff_prover]
    #[verifier::rlimit(100)]
    pub fn define_type(&mut self, name: &String, datatype: &DataType) -> (r: Result<(), SemanticError>)
        requires
            old(self).wf(),
        ensures
            final(self).wf(),
            final(self).globals@ == old(self).globals@,
            final(self).locals@ == old(self).locals@,
            final(self).instructions@ == old(self).instructions@,
            final(self).scope == old(self).scope,
            final(self).label == old(self).label,
            match r {
                Ok(()) => {
                    &&& old(self).resolved(*datatype) is Some
                    &&& final(self).types@.len() == old(self).types@.len() + 1
                    &&& final(self).types@.drop_last() == old(self).types@
                    &&& final(self).types@.last().name@ == name@
                    &&& final(self).types@.last().compound == old(self).resolved(*datatype).unwrap()
                    &&& final(self).alias_of(name@) == old(self).resolved(*datatype)
                },
                Err(e) => {
                    &&& old(self).resolved(*datatype) is None
                    &&& reports(e, Fault::UndefinedType, datatype->Alias_0@)
                    &&& final(self).types@ == old(self).types@
                },
            },
    {
        let compound = match self.resolve_type(datatype) {
            Ok(c) => c,
            Err(e) => return Err(e),
        };
        let ghost before = *self;
        self.types.push(Alias { name: name.clone(), compound });
        assert(self.globals@ == before.globals@ && self.locals@ == before.locals@ && self.instructions@ == before.instructions@);
        assert(self.code() == before.code());
        proof {
            assert(self.types@.drop_last() =~= old(self).types@);
            lemma_alias_last(self.types@, name@);
        }
        Ok(())
    }

    pub fn last(&self) -> (r: Operand)
        requires
            self.instructions@.len() > 0,
        ensures
            r == Operand::Address((self.instructions@.len() - 1) as usize),
    {
        Operand::Address(self.instructions.len() - 1)
    }

    pub fn instruct(&mut self, operation: Operation, operand1: Operand, operand2: Operand)
        requires
            old(self).wf(),
            operand_before(operand1@, old(self).instructions@.len()),
            operand_before(operand2@, old(self).instructions@.len()),
        ensures
            final(self).wf(),
            final(self).code() == old(self).code().push(
                InstructionView { operation, operand1: operand1@, operand2: operand2@ },
            ),
            final(self).instructions@.len() == old(self).instructions@.len() + 1,
            final(self).same_tables(old(self)),
    {
        self.instructions.push(Instruction { operation, operand1, operand2 });
        proof {
            assert(self.code() =~= old(self).code().push(self.instructions@.last()@));
        }
    }

    /// The stack frame: the size of all locals rounded up to a multiple of
    /// 16, or `None` when it does not fit in a `usize`.
    pub fn stack_size(&self) -> (r: Option<usize>)
        ensures
            r == (if round16(locals_size(self.locals@)) <= usize::MAX {
                Some(round16(locals_size(self.locals@)) as usize)
            } else {
                None::<usize>
            }),
    {
        let mut total: usize = 0;
        let mut i: usize = 0;
        while i < self.locals.len()
            invariant
                i <= self.locals@.len(),
                total == locals_size(self.locals@.take(i as int)),
            decreases self.locals@.len() - i,
        {
            proof {
                assert(self.locals@.take(i + 1).drop_last() =~= self.locals@.take(i as int));
                lemma_locals_size_prefix(self.locals@, (i + 1) as int);
            }
            match self.locals[i].compound.size() {
                Some(size) => {
                    if total > usize::MAX - size {
                        proof { lemma_locals_size_prefix(self.locals@, (i + 1) as int); }
                        return None;
                    }
                    total = total + size;
                },
                None => {
                    proof { lemma_locals_size_prefix(self.locals@, (i + 1) as int); }
                    return None;
                },
            }
            i = i + 1;
        }
        proof {
            assert(self.locals@.take(i as int) =~= self.locals@);
        }
        if total > usize::MAX - 15 {
            return None;
        }
        Some((total + 15) / 16 * 16)
    }
}

proof fn lemma_locals_size_prefix(locals: Seq<Local>, k: int)
    requires
        0 <= k <= locals.len(),
    ensures
        locals_size(locals.take(k)) <= locals_size(locals),
    decreases locals.len() - k,
{
    if k < locals.len() {
        lemma_locals_size_prefix(locals, k + 1);
        assert(locals.take(k + 1).drop_last() =~= locals.take(k));
    } else {
        assert(locals.take(k) =~= locals);
    }
}

/// A stack frame is a multiple of 16 bytes and holds every local.
pub proof fn stack_frame_holds_locals(p: &Program)
    ensures
        round16(locals_size(p.locals@)) % 16 == 0,
        round16(locals_size(p.locals@)) >= locals_size(p.locals@),
{
    let n = locals_size(p.locals@);
    assert((n + 15) / 16 * 16 >= n) by (nonlinear_arith);
    assert(((n + 15) / 16 * 16) % 16 == 0) by (nonlinear_arith);
}

fn operand_type_below(p: &Program, o: &Operand, bound: usize) -> (r: Option<Primitive>)
    requires
        bound <= p.instructions@.len(),
    ensures
        r == operand_type(p.locals@, p.globals@, p.code(), o@, bound as nat),
    decreases bound, 0nat,
{
    match o {
        Operand::Address(x) => if *x < bound {
            instruction_type_at(p, *x)
        } else {
            None
        },
        Operand::Identifier(key, _) => p.type_of(key),
        Operand::Data(d) => Some(d.primitive()),
        _ => None,
    }
}

fn instruction_type_at(p: &Program, i: usize) -> (r: Option<Primitive>)
    requires
        i < p.instructions@.len(),
    ensures
        r == instruction_type(p.locals@, p.globals@, p.code(), i as nat),
    decreases i, 1nat,
{
    let ins = &p.instructions[i];
    match ins.operation {
        Operation::SCvtF => Some(Primitive::Float),
        Operation::FCvtZS => Some(Primitive::Int),
        Operation::CSet => Some(Primitive::Int),
        _ => {
            let t1 = operand_type_below(p, &ins.operand1, i);
            let t2 = operand_type_below(p, &ins.operand2, i);
            match (t1, t2) {
                (Some(x), Some(y)) => if x == y { Some(x) } else { crate::types::narrowest(t1, t2) },
                (Some(x), None) => Some(x),
                (None, Some(y)) => Some(y),
                _ => None,
            }
        },
    }
}

impl Operand {
    /// The primitive type of the value an operand stands for.
    pub fn datatype(&self, program: &Program) -> (r: Option<Primitive>)
        ensures
            r == program.type_in(self@),
    {
        operand_type_below(program, self, program.instructions.len())
    }
}

impl Instruction {
    /// The primitive type of an instruction's result, from its operands.
    pub fn datatype(&self, program: &Program, address: usize) -> (r: Option<Primitive>)
        requires
            address < program.instructions@.len(),
            program.instructions@[address as int] == *self,
        ensures
            r == instruction_type(program.locals@, program.globals@, program.code(), address as nat),
    {
        instruction_type_at(program, address)
    }
}

impl Program {
    /// Converts an operand to the primitive `to`: emits `scvtf` or `fcvtzs`
    /// when it crosses between integer and floating point and returns the
    /// converted result, else returns the operand as it is.
    pub fn cast(&mut self, operand: Operand, to: Option<Primitive>) -> (r: Operand)
        requires
            old(self).wf(),
            operand_before(operand@, old(self).instructions@.len()),
        ensures
            final(self).wf(),
            final(self).same_tables(old(self)),
            operand_before(r@, final(self).instructions@.len()),
            match conversion(old(self).type_in(operand@), to) {
                Some(op) => {
                    &&& final(self).code() == old(self).code().push(
                        InstructionView { operation: op, operand1: operand@, operand2: OperandView::Empty },
                    )
                    &&& r == Operand::Address(old(self).instructions@.len() as usize)
                },
                None => final(self).instructions@ == old(self).instructions@ && r == operand,
            },
    {
        let from = operand.datatype(self);
        let conversion = match (from, to) {
            (Some(f), Some(t)) => if !f.floating() && t.floating() {
                Some(Operation::SCvtF)
            } else if f.floating() && !t.floating() {
                Some(Operation::FCvtZS)
            } else {
                None
            },
            _ => None,
        };
        match conversion {
            Some(op) => {
                self.instruct(op, operand, Operand::Empty);
                self.last()
            },
            None => operand,
        }
    }
}

/// Every variable of a well-formed program is stored under its name
/// qualified by its scope, `name_scope`: locals at a scope of at least 1,
/// globals at 0; and no two variables share both name and scope.
pub proof fn scoped_names_are_unique(p: &Program)
    requires
        p.wf(),
    ensures
        forall|i: int| 0 <= i < p.locals@.len() ==> #[trigger] p.locals@[i].name@
            == scoped(p.locals@[i].ident@, p.locals@[i].scope as nat) && p.locals@[i].scope >= 1,
        forall|i: int| 0 <= i < p.globals@.len() ==> #[trigger] p.globals@[i].name@
            == scoped(p.globals@[i].ident@, 0),
        forall|i: int, j: int| 0 <= i < p.locals@.len() && 0 <= j < p.locals@.len() && i != j
            ==> !(#[trigger] p.locals@[i].ident@ == #[trigger] p.locals@[j].ident@
                && p.locals@[i].scope == p.locals@[j].scope),
        forall|i: int, j: int| 0 <= i < p.globals@.len() && 0 <= j < p.globals@.len() && i != j
            ==> #[trigger] p.globals@[i].ident@ != #[trigger] p.globals@[j].ident@,
{
    assert forall|i: int, j: int| 0 <= i < p.locals@.len() && 0 <= j < p.locals@.len() && i != j
        implies !(#[trigger] p.locals@[i].ident@ == #[trigger] p.locals@[j].ident@
            && p.locals@[i].scope == p.locals@[j].scope) by {
        if i > j {
            assert(!(p.locals@[j].ident@ == p.locals@[i].ident@ && p.locals@[j].scope == p.locals@[i].scope));
        }
    }
    assert forall|i: int, j: int| 0 <= i < p.globals@.len() && 0 <= j < p.globals@.len() && i != j
        implies #[trigger] p.globals@[i].ident@ != #[trigger] p.globals@[j].ident@ by {
        if i > j {
            assert(p.globals@[j].ident@ != p.globals@[i].ident@);
        }
    }
}

/// What the last alias named `name` stands for.
pub open spec fn alias_in(types: Seq<Alias>, name: Seq<char>) -> Option<Compound> {
    if exists|i: int| 0 <= i < types.len() && #[trigger] types[i].name@ == name {
        let i = choose|i: int|
            0 <= i < types.len() && #[trigger] types[i].name@ == name
                && forall|j: int| i < j < types.len() ==> #[trigger] types[j].name@ != name;
        Some(types[i].compound)
    } else {
        None
    }
}

proof fn lemma_alias_last(types: Seq<Alias>, name: Seq<char>)
    requires
        types.len() > 0,
        types.last().name@ == name,
    ensures
        alias_in(types, name) == Some(types.last().compound),
{
    let k = types.len() - 1;
    assert(types[k].name@ == name);
    assert(forall|j: int| k < j < types.len() ==> #[trigger] types[j].name@ != name);
    let w = choose|w: int|
        0 <= w < types.len() && #[trigger] types[w].name@ == name
            && forall|j: int| w < j < types.len() ==> #[trigger] types[j].name@ != name;
    if w < k {
        assert(types[k].name@ != name);
    }
}

/// `name_scope`.
pub fn qualify(name: &String, scope: usize) -> (r: String)
    ensures
        r@ == scoped(name@, scope as nat),
{
    let mut key = name.clone();
    key.append("_");
    push_decimal(&mut key, scope as u64);
    proof {
        reveal_strlit("_");
    }
    key
}

} // verus!
