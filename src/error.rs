//! The errors of the three stages.
use crate::types::Token;
use vstd::prelude::*;

verus! {

/// A token that the parser did not expect; `found` is `None` at the end of
/// the input.
#[derive(Debug)]
pub struct SyntaxError {
    pub expected: String,
    pub found: Option<Token>,
}

/// Which rule of the language a program broke.
#[derive(Debug, Clone, Copy, PartialEq, Eq, Structural)]
pub enum Fault {
    UndefinedVariable,
    UndefinedType,
    Redefinition,
    TopLevelReturn,
    TopLevelAssignment,
    TopLevelLoop,
    NonConstantInitializer,
    NonConstantList,
    UnsupportedFunction,
    IndexOutOfRange,
    Limit,
}

/// The message a semantic error of kind `f` about `name` carries.
pub open spec fn message_of(f: Fault, name: Seq<char>) -> Seq<char> {
    match f {
        Fault::UndefinedVariable => "'"@ + name + "' is not defined!"@,
        Fault::UndefinedType => "Type '"@ + name + "' is not defined!"@,
        Fault::Redefinition => "Variable '"@ + name + "' is already defined in this scope!"@,
        Fault::TopLevelReturn => "Return is not allowed on the top-level!"@,
        Fault::TopLevelAssignment => "Assignments are not allowed on the top-level!"@,
        Fault::TopLevelLoop => "Loops are not allowed on the top-level!"@,
        Fault::NonConstantInitializer => "Top-level variable '"@ + name
            + "' must be initialized with a constant value!"@,
        Fault::NonConstantList => "Top-level variable '"@ + name
            + "' initialization list cannot contain expressions!"@,
        Fault::UnsupportedFunction => "Only 'main' function is supported by this implementation!"@,
        Fault::IndexOutOfRange => "Array index is out of range!"@,
        Fault::Limit => "Too many nested scopes or loops!"@,
    }
}

/// The source text a semantic error of kind `f` about `name` points at.
pub open spec fn token_of(f: Fault, name: Seq<char>) -> Option<Seq<char>> {
    match f {
        Fault::TopLevelReturn | Fault::Limit => None,
        _ => Some(name),
    }
}

pub open spec fn text_of(t: Option<String>) -> Option<Seq<char>> {
    match t {
        Some(s) => Some(s@),
        None => None,
    }
}

/// `e` is the error of kind `f` about `name`, with its message and token.
pub open spec fn reports(e: SemanticError, f: Fault, name: Seq<char>) -> bool {
    &&& e.fault == f
    &&& e.message@ == message_of(f, name)
    &&& text_of(e.token) == token_of(f, name)
}

#[derive(Debug)]
pub struct SemanticError {
    pub fault: Fault,
    pub message: String,
    pub token: Option<String>,
}

/// Why a program cannot be assembled.
#[derive(Debug, Clone, Copy, PartialEq, Eq, Structural)]
pub enum AsmFault {
    /// Every register holds a value that is still to be read.
    OutOfRegisters,
    /// A register is needed for a value whose type is unknown.
    UntypedOperand,
    /// An operand refers to a result that has no register.
    UnknownResult,
    /// A variable has no type, or its element lies beyond what can be
    /// addressed.
    UnknownSize,
    /// A global load or store names no global.
    InvalidGlobal,
    /// The stack frame does not fit in a machine word.
    FrameTooLarge,
}

/// The message of each assembly fault.
pub open spec fn fault_message(f: AsmFault) -> Seq<char> {
    match f {
        AsmFault::OutOfRegisters => "Compilation impossible! Ran out of registers!"@,
        AsmFault::UntypedOperand => "Unable to infer a type for a register!"@,
        AsmFault::UnknownResult => "Operation does not have a result register!"@,
        AsmFault::UnknownSize => "Unknown datatype size!"@,
        AsmFault::InvalidGlobal => "Operand on global load or store instruction is invalid!"@,
        AsmFault::FrameTooLarge => "Stack frame is too large!"@,
    }
}

pub fn fault_text(f: AsmFault) -> (r: &'static str)
    ensures
        r@ == fault_message(f),
{
    match f {
        AsmFault::OutOfRegisters => "Compilation impossible! Ran out of registers!",
        AsmFault::UntypedOperand => "Unable to infer a type for a register!",
        AsmFault::UnknownResult => "Operation does not have a result register!",
        AsmFault::UnknownSize => "Unknown datatype size!",
        AsmFault::InvalidGlobal => "Operand on global load or store instruction is invalid!",
        AsmFault::FrameTooLarge => "Stack frame is too large!",
    }
}

#[derive(Debug)]
pub struct AssemblyError {
    pub fault: AsmFault,
    pub message: String,
}

/// A failure of the outside assembler, linker or the compiled program.
#[derive(Debug)]
pub struct CompileError {
    pub message: String,
}

/// The text of a token as it stood in the source.
pub open spec fn token_text(t: Token) -> Seq<char> {
    match t {
        Token::Data(_, x) => x@,
        Token::Identifier(x) => x@,
        Token::Keyword(x) => x@,
        Token::Symbol(x) => x@,
    }
}

impl SyntaxError {
    pub fn kind() -> (r: &'static str)
        ensures
            r@ == "SyntaxError"@,
    {
        "SyntaxError"
    }

    /// The token the error points at, as it stood in the source.
    pub fn slice(&self) -> (r: Option<String>)
        ensures
            match self.found {
                Some(t) => r is Some && r->Some_0@ == token_text(t),
                None => r is None,
            },
    {
        match &self.found {
            Some(Token::Data(_, x)) => Some(x.clone()),
            Some(Token::Identifier(x)) => Some(x.clone()),
            Some(Token::Keyword(x)) => Some(x.clone()),
            Some(Token::Symbol(x)) => Some(x.clone()),
            None => None,
        }
    }

    /// `Expected <expected>, but found <token>!`, or, at the end of the
    /// input, `Unexpected end of file! (expected <expected>)`.
    pub fn message(&self) -> (r: String)
        ensures
            r@ == match self.found {
                Some(t) => "Expected "@ + self.expected@ + ", but found "@ + token_text(t) + "!"@,
                None => "Unexpected end of file! (expected "@ + self.expected@ + ")"@,
            },
    {
        match self.slice() {
            Some(x) => {
                let mut m = String::from_str("Expected ");
                m.append(self.expected.as_str());
                m.append(", but found ");
                m.append(x.as_str());
                m.append("!");
                m
            },
            None => {
                let mut m = String::from_str("Unexpected end of file! (expected ");
                m.append(self.expected.as_str());
                m.append(")");
                m
            },
        }
    }
}

/// The error of kind `f` about `name`.
pub fn fail(f: Fault, name: &String) -> (e: SemanticError)
    ensures
        reports(e, f, name@),
{
    let mut message = String::new();
    match f {
        Fault::UndefinedVariable => {
            message.append("'");
            message.append(name.as_str());
            message.append("' is not defined!");
        },
        Fault::UndefinedType => {
            message.append("Type '");
            message.append(name.as_str());
            message.append("' is not defined!");
        },
        Fault::Redefinition => {
            message.append("Variable '");
            message.append(name.as_str());
            message.append("' is already defined in this scope!");
        },
        Fault::TopLevelReturn => message.append("Return is not allowed on the top-level!"),
        Fault::TopLevelAssignment => message.append("Assignments are not allowed on the top-level!"),
        Fault::TopLevelLoop => message.append("Loops are not allowed on the top-level!"),
        Fault::NonConstantInitializer => {
            message.append("Top-level variable '");
            message.append(name.as_str());
            message.append("' must be initialized with a constant value!");
        },
        Fault::NonConstantList => {
            message.append("Top-level variable '");
            message.append(name.as_str());
            message.append("' initialization list cannot contain expressions!");
        },
        Fault::UnsupportedFunction => message.append("Only 'main' function is supported by this implementation!"),
        Fault::IndexOutOfRange => message.append("Array index is out of range!"),
        Fault::Limit => message.append("Too many nested scopes or loops!"),
    }
    let token = match f {
        Fault::TopLevelReturn | Fault::Limit => None,
        _ => Some(name.clone()),
    };
    assert(message@ =~= message_of(f, name@));
    SemanticError { fault: f, message, token }
}

impl SemanticError {
    pub fn kind() -> (r: &'static str)
        ensures
            r@ == "SemanticError"@,
    {
        "SemanticError"
    }

    pub fn message(&self) -> (r: String)
        ensures
            r@ == self.message@,
    {
        self.message.clone()
    }

    pub fn slice(&self) -> (r: Option<String>)
        ensures
            r == self.token,
    {
        match &self.token {
            Some(t) => Some(t.clone()),
            None => None,
        }
    }
}

impl AssemblyError {
    pub fn kind() -> (r: &'static str)
        ensures
            r@ == "AssemblyError"@,
    {
        "AssemblyError"
    }

    pub fn message(&self) -> (r: String)
        ensures
            r@ == self.message@,
    {
        self.message.clone()
    }
}

impl CompileError {
    pub fn kind() -> (r: &'static str)
        ensures
            r@ == "CompileError"@,
    {
        "CompileError"
    }

    pub fn message(&self) -> (r: String)
        ensures
            r@ == self.message@,
    {
        self.message.clone()
    }
}

} // verus!
