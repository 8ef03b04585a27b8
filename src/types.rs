use vstd::prelude::*;

verus! {

/// The scalar types of the source language, ordered by the widening
/// hierarchy `Byte < Short < Int < Long < Float`.
#[derive(Debug, Clone, Copy, PartialEq, Eq, Structural)]
pub enum Primitive {
    Int,
    Float,
    Short,
    Long,
    Byte,
}

impl Primitive {
    /// Size of one value of this primitive, in bytes.
    pub open spec fn spec_size(self) -> nat {
        match self {
            Primitive::Long => 8,
            Primitive::Int => 4,
            Primitive::Float => 4,
            Primitive::Short => 2,
            Primitive::Byte => 1,
        }
    }

    /// Position in the widening hierarchy.
    pub open spec fn rank(self) -> nat {
        match self {
            Primitive::Byte => 0,
            Primitive::Short => 1,
            Primitive::Int => 2,
            Primitive::Long => 3,
            Primitive::Float => 4,
        }
    }

    pub fn size(&self) -> (r: usize)
        ensures
            r == self.spec_size(),
    {
        match self {
            Primitive::Long => 8,
            Primitive::Int => 4,
            Primitive::Float => 4,
            Primitive::Short => 2,
            Primitive::Byte => 1,
        }
    }

    pub fn floating(&self) -> (r: bool)
        ensures
            r == (*self == Primitive::Float),
    {
        match self {
            Primitive::Float => true,
            _ => false,
        }
    }

    pub fn order(&self) -> (r: u8)
        ensures
            r == self.rank(),
    {
        match self {
            Primitive::Byte => 0,
            Primitive::Short => 1,
            Primitive::Int => 2,
            Primitive::Long => 3,
            Primitive::Float => 4,
        }
    }
}

/// The wider of two optional primitives; an absent type is narrower than
/// any present one.
pub open spec fn spec_widest(a: Option<Primitive>, b: Option<Primitive>) -> Option<Primitive> {
    match (a, b) {
        (Some(x), Some(y)) => if x.rank() >= y.rank() { Some(x) } else { Some(y) },
        (Some(x), None) => Some(x),
        (None, y) => y,
    }
}

/// The narrower of two optional primitives; an absent type is narrower than
/// any present one.
pub open spec fn spec_narrowest(a: Option<Primitive>, b: Option<Primitive>) -> Option<Primitive> {
    match (a, b) {
        (Some(x), Some(y)) => if x.rank() <= y.rank() { Some(x) } else { Some(y) },
        _ => None,
    }
}

pub fn widest(a: Option<Primitive>, b: Option<Primitive>) -> (r: Option<Primitive>)
    ensures
        r == spec_widest(a, b),
{
    match (a, b) {
        (Some(x), Some(y)) => if x.order() >= y.order() { Some(x) } else { Some(y) },
        (Some(x), None) => Some(x),
        (None, y) => y,
    }
}

pub fn narrowest(a: Option<Primitive>, b: Option<Primitive>) -> (r: Option<Primitive>)
    ensures
        r == spec_narrowest(a, b),
{
    match (a, b) {
        (Some(x), Some(y)) => if x.order() <= y.order() { Some(x) } else { Some(y) },
        _ => None,
    }
}

/// A primitive together with an element count: a scalar when the count is
/// one, a fixed-size array otherwise.
#[derive(Debug, Clone, Copy, PartialEq, Eq, Structural)]
pub struct Compound(pub Primitive, pub usize);

impl Compound {
    pub open spec fn spec_size(self) -> nat {
        (self.0.spec_size() * self.1) as nat
    }

    /// Size in bytes, or `None` when it does not fit in a `usize`.
    pub fn size(&self) -> (r: Option<usize>)
        ensures
            r == (if self.spec_size() <= usize::MAX {
                Some(self.spec_size() as usize)
            } else {
                None::<usize>
            }),
    {
        let element = self.0.size();
        if self.1 <= usize::MAX / element {
            proof {
                assert(self.1 * element <= (usize::MAX / element) * element) by (nonlinear_arith)
                    requires self.1 <= usize::MAX / element, element > 0;
                assert((usize::MAX / element) * element <= usize::MAX) by (nonlinear_arith)
                    requires element > 0;
            }
            Some(element * self.1)
        } else {
            proof {
                assert(self.1 * element > usize::MAX) by (nonlinear_arith)
                    requires self.1 > usize::MAX / element, element > 0;
            }
            None
        }
    }
}

/// A declared type: a concrete compound, or the name of a `typedef`.
#[derive(Debug, Clone)]
pub enum DataType {
    Type(Compound),
    Alias(String),
}

impl DataType {
    pub fn size(&self) -> (r: Option<usize>)
        ensures
            r == (match self {
                DataType::Type(c) => if c.spec_size() <= usize::MAX {
                    Some(c.spec_size() as usize)
                } else {
                    None::<usize>
                },
                DataType::Alias(_) => None,
            }),
    {
        match self {
            DataType::Type(c) => c.size(),
            DataType::Alias(_) => None,
        }
    }

    pub fn primitive(&self) -> (r: Option<Primitive>)
        ensures
            r == (match self {
                DataType::Type(c) => Some(c.0),
                DataType::Alias(_) => None,
            }),
    {
        match self {
            DataType::Type(c) => Some(c.0),
            DataType::Alias(_) => None,
        }
    }

    pub fn floating(&self) -> (r: bool)
        ensures
            r == (match self {
                DataType::Type(c) => c.0 == Primitive::Float,
                DataType::Alias(_) => false,
            }),
    {
        match self.primitive() {
            Some(p) => p.floating(),
            None => false,
        }
    }
}

/// The operators that can stand on the expression parser's operator stack.
#[derive(Debug, Clone, Copy, PartialEq, Eq, Structural)]
pub enum Operator {
    Binary(BinaryOperator),
    Unary(UnaryOperator),
    Group,
}

#[derive(Debug, Clone, Copy, PartialEq, Eq, Structural)]
pub enum BinaryOperator {
    Addition,
    Subtraction,
    Division,
    Multiplication,
    Remainder,
    Greater,
    Less,
    GreaterEqual,
    LessEqual,
    Equal,
    NotEqual,
    Or,
    And,
    BitwiseAnd,
    BitwiseOr,
    BitwiseXor,
    LeftShift,
    RightShift,
}

impl BinaryOperator {
    /// Binding strength: a lower number binds tighter.
    pub open spec fn spec_precedence(self) -> int {
        match self {
            BinaryOperator::Division => 3,
            BinaryOperator::Multiplication => 3,
            BinaryOperator::Remainder => 3,
            BinaryOperator::Addition => 4,
            BinaryOperator::Subtraction => 4,
            BinaryOperator::LeftShift => 5,
            BinaryOperator::RightShift => 5,
            BinaryOperator::Greater => 6,
            BinaryOperator::Less => 6,
            BinaryOperator::GreaterEqual => 6,
            BinaryOperator::LessEqual => 6,
            BinaryOperator::Equal => 7,
            BinaryOperator::NotEqual => 7,
            BinaryOperator::BitwiseAnd => 8,
            BinaryOperator::BitwiseXor => 9,
            BinaryOperator::BitwiseOr => 10,
            BinaryOperator::And => 11,
            BinaryOperator::Or => 12,
        }
    }

    pub fn precedence(&self) -> (r: i32)
        ensures
            r == self.spec_precedence(),
            3 <= r <= 12,
    {
        match *self {
            BinaryOperator::Division => 3,
            BinaryOperator::Multiplication => 3,
            BinaryOperator::Remainder => 3,
            BinaryOperator::Addition => 4,
            BinaryOperator::Subtraction => 4,
            BinaryOperator::LeftShift => 5,
            BinaryOperator::RightShift => 5,
            BinaryOperator::Greater => 6,
            BinaryOperator::Less => 6,
            BinaryOperator::GreaterEqual => 6,
            BinaryOperator::LessEqual => 6,
            BinaryOperator::Equal => 7,
            BinaryOperator::NotEqual => 7,
            BinaryOperator::BitwiseAnd => 8,
            BinaryOperator::BitwiseXor => 9,
            BinaryOperator::BitwiseOr => 10,
            BinaryOperator::And => 11,
            BinaryOperator::Or => 12,
        }
    }
}

#[derive(Debug, Clone, Copy, PartialEq, Eq, Structural)]
pub enum UnaryOperator {
    Negation,
    Inversion,
}

/// A literal value. A `Float` holds the IEEE-754 single-precision bit
/// pattern of the number.
#[derive(Debug, Clone, Copy, PartialEq, Eq, Structural)]
pub enum Data {
    Long(i64),
    Integer(i32),
    Float(u32),
    Short(i16),
    Byte(i8),
}

impl Data {
    /// The primitive type of a literal.
    pub open spec fn spec_primitive(self) -> Primitive {
        match self {
            Data::Long(_) => Primitive::Long,
            Data::Integer(_) => Primitive::Int,
            Data::Float(_) => Primitive::Float,
            Data::Short(_) => Primitive::Short,
            Data::Byte(_) => Primitive::Byte,
        }
    }

    pub fn primitive(&self) -> (r: Primitive)
        ensures
            r == self.spec_primitive(),
    {
        match self {
            Data::Long(_) => Primitive::Long,
            Data::Integer(_) => Primitive::Int,
            Data::Float(_) => Primitive::Float,
            Data::Short(_) => Primitive::Short,
            Data::Byte(_) => Primitive::Byte,
        }
    }
}

/// A reference to a variable, or to one element of an array variable.
#[derive(Debug, Clone)]
pub struct Pointer {
    pub name: String,
    pub index: usize,
}

#[derive(Debug, Clone)]
pub enum Value {
    Data(Data),
    Pointer(Pointer),
}

#[derive(Debug)]
#[allow(inconsistent_fields)]
pub enum Expression {
    Value(Value),
    Binary { op: BinaryOperator, lhs: Box<Expression>, rhs: Box<Expression> },
    Unary { op: UnaryOperator, lhs: Box<Expression> },
}

/// The right-hand side of an assignment: one expression, or a brace list for
/// an array.
#[derive(Debug)]
pub enum Initializer {
    Expression(Expression),
    List(Vec<Expression>),
}

/// An assignment to `name[index]` (index 0 for a scalar).
#[derive(Debug)]
pub struct Assignment {
    pub name: String,
    pub index: usize,
    pub value: Initializer,
}

#[derive(Debug)]
pub struct Variable {
    pub datatype: DataType,
    pub name: String,
    pub assignment: Option<Assignment>,
}

#[derive(Debug)]
pub struct Loop {
    pub initialization: Variable,
    pub condition: Expression,
    pub increment: Assignment,
    pub body: Vec<Statement>,
}

#[derive(Debug)]
pub struct Function {
    pub datatype: DataType,
    pub name: String,
    pub body: Vec<Statement>,
}

/// A `typedef`: `name` becomes an alias of `datatype`.
#[derive(Debug, Clone)]
pub struct Type {
    pub datatype: DataType,
    pub name: String,
}

#[derive(Debug)]
pub enum Statement {
    Assignment(Assignment),
    Variable(Variable),
    Function(Function),
    Type(Type),
    Loop(Loop),
    Return(Expression),
    Noop,
}

/// A literal as the tokenizer reads it. A `Floating` holds the IEEE-754
/// single-precision bit pattern of the number.
#[derive(Debug, Clone, Copy, PartialEq, Eq, Structural)]
pub enum Literal {
    Integer(i32),
    Long(i64),
    Floating(u32),
    Character(char),
}

/// A token with the text it was read from.
#[derive(Debug, Clone)]
pub enum Token {
    Data(Literal, String),
    Identifier(String),
    Keyword(String),
    Symbol(String),
}

} // verus!
