//! The expression parser: a shunting-yard over the token sequence.
use crate::error::SyntaxError;
use crate::types::{
    BinaryOperator, Data, Expression, Literal, Operator, Pointer, Token, UnaryOperator, Value,
};
use vstd::prelude::*;

verus! {

/// Whether a token is the symbol `s`.
pub open spec fn is_symbol(t: Token, s: Seq<char>) -> bool {
    t is Symbol && t->Symbol_0@ == s
}

pub fn text_is(s: &String, literal: &str) -> (r: bool)
    ensures
        r == (s@ == literal@),
{
    *s == String::from_str(literal)
}

pub fn token_is_symbol(t: &Token, s: &str) -> (r: bool)
    ensures
        r == is_symbol(*t, s@),
{
    match t {
        Token::Symbol(x) => text_is(x, s),
        _ => false,
    }
}

/// A copy of a token, equal to it.
pub fn copy_token(t: &Token) -> (r: Token)
    ensures
        r == *t,
{
    match t {
        Token::Data(l, s) => Token::Data(*l, s.clone()),
        Token::Identifier(s) => Token::Identifier(s.clone()),
        Token::Keyword(s) => Token::Keyword(s.clone()),
        Token::Symbol(s) => Token::Symbol(s.clone()),
    }
}

/// The token at `pos`, or `None` past the end.
pub open spec fn token_at(tokens: Seq<Token>, pos: int) -> Option<Token> {
    if 0 <= pos < tokens.len() { Some(tokens[pos]) } else { None }
}

pub fn peek(tokens: &Vec<Token>, pos: usize) -> (r: Option<Token>)
    ensures
        r == token_at(tokens@, pos as int),
{
    if pos < tokens.len() {
        Some(copy_token(&tokens[pos]))
    } else {
        None
    }
}

/// The binary operator a symbol denotes.
pub open spec fn binary_of(s: Seq<char>) -> Option<BinaryOperator> {
    if s == "+"@ { Some(BinaryOperator::Addition) }
    else if s == "-"@ { Some(BinaryOperator::Subtraction) }
    else if s == "/"@ { Some(BinaryOperator::Division) }
    else if s == "*"@ { Some(BinaryOperator::Multiplication) }
    else if s == "%"@ { Some(BinaryOperator::Remainder) }
    else if s == ">"@ { Some(BinaryOperator::Greater) }
    else if s == "<"@ { Some(BinaryOperator::Less) }
    else if s == ">="@ { Some(BinaryOperator::GreaterEqual) }
    else if s == "<="@ { Some(BinaryOperator::LessEqual) }
    else if s == "=="@ { Some(BinaryOperator::Equal) }
    else if s == "!="@ { Some(BinaryOperator::NotEqual) }
    else if s == "&&"@ { Some(BinaryOperator::And) }
    else if s == "||"@ { Some(BinaryOperator::Or) }
    else if s == "&"@ { Some(BinaryOperator::BitwiseAnd) }
    else if s == "|"@ { Some(BinaryOperator::BitwiseOr) }
    else if s == "^"@ { Some(BinaryOperator::BitwiseXor) }
    else if s == "<<"@ { Some(BinaryOperator::LeftShift) }
    else if s == ">>"@ { Some(BinaryOperator::RightShift) }
    else { None }
}

/// The unary operator a symbol denotes.
pub open spec fn unary_of(s: Seq<char>) -> Option<UnaryOperator> {
    if s == "-"@ { Some(UnaryOperator::Negation) }
    else if s == "!"@ { Some(UnaryOperator::Inversion) }
    else { None }
}

pub fn binary_operator(s: &String) -> (r: Option<BinaryOperator>)
    ensures
        r == binary_of(s@),
{
    if text_is(s, "+") { Some(BinaryOperator::Addition) }
    else if text_is(s, "-") { Some(BinaryOperator::Subtraction) }
    else if text_is(s, "/") { Some(BinaryOperator::Division) }
    else if text_is(s, "*") { Some(BinaryOperator::Multiplication) }
    else if text_is(s, "%") { Some(BinaryOperator::Remainder) }
    else if text_is(s, ">") { Some(BinaryOperator::Greater) }
    else if text_is(s, "<") { Some(BinaryOperator::Less) }
    else if text_is(s, ">=") { Some(BinaryOperator::GreaterEqual) }
    else if text_is(s, "<=") { Some(BinaryOperator::LessEqual) }
    else if text_is(s, "==") { Some(BinaryOperator::Equal) }
    else if text_is(s, "!=") { Some(BinaryOperator::NotEqual) }
    else if text_is(s, "&&") { Some(BinaryOperator::And) }
    else if text_is(s, "||") { Some(BinaryOperator::Or) }
    else if text_is(s, "&") { Some(BinaryOperator::BitwiseAnd) }
    else if text_is(s, "|") { Some(BinaryOperator::BitwiseOr) }
    else if text_is(s, "^") { Some(BinaryOperator::BitwiseXor) }
    else if text_is(s, "<<") { Some(BinaryOperator::LeftShift) }
    else if text_is(s, ">>") { Some(BinaryOperator::RightShift) }
    else { None }
}

pub fn unary_operator(s: &String) -> (r: Option<UnaryOperator>)
    ensures
        r == unary_of(s@),
{
    if text_is(s, "-") { Some(UnaryOperator::Negation) }
    else if text_is(s, "!") { Some(UnaryOperator::Inversion) }
    else { None }
}

/// The value of a literal token: a character is a signed byte.
pub open spec fn literal_data(l: Literal) -> Data {
    match l {
        Literal::Integer(x) => Data::Integer(x),
        Literal::Long(x) => Data::Long(x),
        Literal::Floating(x) => Data::Float(x),
        Literal::Character(c) => Data::Byte((c as u32 % 256) as u8 as i8),
    }
}

pub fn literal(l: Literal) -> (r: Data)
    ensures
        r == literal_data(l),
{
    match l {
        Literal::Integer(x) => Data::Integer(x),
        Literal::Long(x) => Data::Long(x),
        Literal::Floating(x) => Data::Float(x),
        Literal::Character(c) => Data::Byte((c as u32 % 256) as u8 as i8),
    }
}

/// Whether the tokens from `pos` are `[ N ]` with `N` a non-negative integer.
pub open spec fn index_at(tokens: Seq<Token>, pos: int) -> Option<usize> {
    if 0 <= pos && pos + 3 <= tokens.len() && is_symbol(tokens[pos], "["@) && tokens[pos + 1] is Data
        && tokens[pos + 1]->Data_0 is Integer && tokens[pos + 1]->Data_0->Integer_0 >= 0
        && is_symbol(tokens[pos + 2], "]"@) {
        Some(tokens[pos + 1]->Data_0->Integer_0 as usize)
    } else {
        None
    }
}

pub fn index(tokens: &Vec<Token>, pos: usize) -> (r: Option<usize>)
    ensures
        r == index_at(tokens@, pos as int),
{
    if pos < tokens.len() && tokens.len() - pos >= 3 && token_is_symbol(&tokens[pos], "[")
        && token_is_symbol(&tokens[pos + 2], "]") {
        match &tokens[pos + 1] {
            Token::Data(Literal::Integer(n), _) => if *n >= 0 { Some(*n as usize) } else { None },
            _ => None,
        }
    } else {
        None
    }
}

/// The output stack after applying an operator to its top, or `None` when it
/// holds too few operands.
pub open spec fn apply(out: Seq<Expression>, op: Operator) -> Option<Seq<Expression>> {
    match op {
        Operator::Unary(u) => if out.len() >= 1 {
            Some(out.drop_last().push(Expression::Unary { op: u, lhs: Box::new(out.last()) }))
        } else {
            None
        },
        Operator::Binary(b) => if out.len() >= 2 {
            Some(out.subrange(0, out.len() - 2).push(
                Expression::Binary { op: b, lhs: Box::new(out[out.len() - 2]), rhs: Box::new(out[out.len() - 1]) },
            ))
        } else {
            None
        },
        Operator::Group => Some(out),
    }
}

/// Applies the operators on top of the stack while they are unary, or
/// binary with a precedence number at most `limit`.
pub open spec fn reduce(out: Seq<Expression>, stack: Seq<Operator>, limit: int) -> Option<(Seq<Expression>, Seq<Operator>)>
    decreases stack.len(),
{
    if stack.len() == 0 {
        Some((out, stack))
    } else {
        let top = stack.last();
        let pops = match top {
            Operator::Unary(_) => true,
            Operator::Binary(b) => b.spec_precedence() <= limit,
            Operator::Group => false,
        };
        if pops {
            match apply(out, top) {
                Some(o) => reduce(o, stack.drop_last(), limit),
                None => None,
            }
        } else {
            Some((out, stack))
        }
    }
}

/// One step of the parser.
pub enum Step {
    /// A term was read: the new stacks, whether an operand was just read, and
    /// the position after it.
    Advance(Seq<Expression>, Seq<Operator>, bool, int),
    /// The token does not continue the expression.
    NoTerm,
    /// An operator lacks operands.
    Malformed,
}

/// Reads one term at `pos`: a literal or variable, an operator (unary where
/// an operand is expected), or a parenthesis.
pub open spec fn term(tokens: Seq<Token>, pos: int, out: Seq<Expression>, stack: Seq<Operator>, complete: bool) -> Step {
    if pos < 0 || pos >= tokens.len() {
        Step::NoTerm
    } else {
        let t = tokens[pos];
        match t {
            Token::Data(l, _) => Step::Advance(out.push(Expression::Value(Value::Data(literal_data(l)))), stack, true, pos + 1),
            Token::Identifier(name) => match index_at(tokens, pos + 1) {
                Some(i) => Step::Advance(out.push(Expression::Value(Value::Pointer(Pointer { name, index: i }))), stack, true, pos + 4),
                None => Step::Advance(out.push(Expression::Value(Value::Pointer(Pointer { name, index: 0 }))), stack, true, pos + 1),
            },
            Token::Symbol(s) => if !complete && unary_of(s@) is Some {
                Step::Advance(out, stack.push(Operator::Unary(unary_of(s@)->Some_0)), false, pos + 1)
            } else if binary_of(s@) is Some {
                let b = binary_of(s@)->Some_0;
                match reduce(out, stack, b.spec_precedence()) {
                    Some((o, st)) => Step::Advance(o, st.push(Operator::Binary(b)), false, pos + 1),
                    None => Step::Malformed,
                }
            } else if s@ == "("@ {
                Step::Advance(out, stack.push(Operator::Group), false, pos + 1)
            } else if s@ == ")"@ && stack.contains(Operator::Group) {
                match reduce(out, stack, 13) {
                    Some((o, st)) => Step::Advance(o, if st.len() > 0 { st.drop_last() } else { st }, true, pos + 1),
                    None => Step::Malformed,
                }
            } else {
                Step::NoTerm
            },
            Token::Keyword(_) => Step::NoTerm,
        }
    }
}

/// How an expression parse fails: `Term(found)` when a token cannot stand
/// in an expression, `Shape` when operators and operands do not fit.
pub enum ParseFailure {
    Term(Option<Token>),
    Shape,
}

/// Whether `t` is one of the terminator symbols.
pub open spec fn terminates(t: Token, terminators: Seq<&str>) -> bool {
    t is Symbol && exists|i: int| 0 <= i < terminators.len() && terminators[i]@ == t->Symbol_0@
}

/// The expression left when every operator still on the stack is applied.
pub open spec fn finish(out: Seq<Expression>, stack: Seq<Operator>) -> Option<Expression> {
    match reduce(out, stack, 13) {
        Some((o, st)) => if st.len() == 0 && o.len() == 1 { Some(o[0]) } else { None },
        None => None,
    }
}

/// The parse from `pos` on with the given stacks: terms are read until a
/// token that is no term; a terminator there ends the expression, which is
/// returned with the terminator and the position after it.
pub open spec fn shunt(tokens: Seq<Token>, pos: int, out: Seq<Expression>, stack: Seq<Operator>, complete: bool, terminators: Seq<&str>) -> Result<(Expression, Token, int), ParseFailure>
    decreases tokens.len() - pos,
{
    match term(tokens, pos, out, stack, complete) {
        Step::Advance(o, st, c, p) => if pos < p <= tokens.len() {
            shunt(tokens, p, o, st, c, terminators)
        } else {
            Err(ParseFailure::Shape)
        },
        Step::Malformed => Err(ParseFailure::Shape),
        Step::NoTerm => if 0 <= pos < tokens.len() && terminates(tokens[pos], terminators) {
            match finish(out, stack) {
                Some(e) => Ok((e, tokens[pos], pos + 1)),
                None => Err(ParseFailure::Shape),
            }
        } else {
            Err(ParseFailure::Term(token_at(tokens, pos)))
        },
    }
}

/// The expression that starts at `pos` and ends at one of `terminators`.
pub open spec fn parse_expression(tokens: Seq<Token>, pos: int, terminators: Seq<&str>) -> Result<(Expression, Token, int), ParseFailure> {
    shunt(tokens, pos, Seq::empty(), Seq::empty(), false, terminators)
}

/// The error a failed expression parse reports: `expected` and `found`.
pub open spec fn expression_error(tokens: Seq<Token>, pos: int, f: ParseFailure) -> (Seq<char>, Option<Token>) {
    match f {
        ParseFailure::Term(found) => ("expression term"@, found),
        ParseFailure::Shape => ("expression"@, token_at(tokens, pos)),
    }
}

fn apply_operator(out: &mut Vec<Expression>, op: Operator) -> (r: bool)
    ensures
        match apply(old(out)@, op) {
            Some(o) => r && final(out)@ == o,
            None => !r,
        },
{
    match op {
        Operator::Unary(u) => match out.pop() {
            Some(lhs) => {
                out.push(Expression::Unary { op: u, lhs: Box::new(lhs) });
                true
            },
            None => false,
        },
        Operator::Binary(b) => {
            if out.len() < 2 {
                return false;
            }
            let ghost before = out@;
            match out.pop() {
                Some(rhs) => match out.pop() {
                    Some(lhs) => {
                        out.push(Expression::Binary { op: b, lhs: Box::new(lhs), rhs: Box::new(rhs) });
                        proof {
                            assert(before.drop_last().drop_last() =~= before.subrange(0, before.len() - 2));
                        }
                        true
                    },
                    None => false,
                },
                None => false,
            }
        },
        Operator::Group => true,
    }
}

fn reduce_stack(out: &mut Vec<Expression>, stack: &mut Vec<Operator>, limit: i32) -> (r: bool)
    ensures
        match reduce(old(out)@, old(stack)@, limit as int) {
            Some((o, st)) => r && final(out)@ == o && final(stack)@ == st,
            None => !r,
        },
{
    loop
        invariant
            reduce(out@, stack@, limit as int) == reduce(old(out)@, old(stack)@, limit as int),
        decreases stack@.len(),
    {
        if stack.len() == 0 {
            return true;
        }
        let top = stack[stack.len() - 1];
        let pops = match top {
            Operator::Unary(_) => true,
            Operator::Binary(b) => b.precedence() <= limit,
            Operator::Group => false,
        };
        if !pops {
            return true;
        }
        let ghost s = stack@;
        stack.pop();
        proof {
            assert(stack@ == s.drop_last());
        }
        if !apply_operator(out, top) {
            return false;
        }
    }
}

fn has_group(stack: &Vec<Operator>) -> (r: bool)
    ensures
        r == stack@.contains(Operator::Group),
{
    let mut i: usize = 0;
    while i < stack.len()
        invariant
            i <= stack@.len(),
            forall|j: int| 0 <= j < i ==> stack@[j] != Operator::Group,
        decreases stack@.len() - i,
    {
        if stack[i] == Operator::Group {
            return true;
        }
        i = i + 1;
    }
    false
}

/// What one step of the parser did.
pub enum TermResult {
    Next(bool, usize),
    NoTerm,
    Malformed,
}

fn term_step(tokens: &Vec<Token>, pos: usize, out: &mut Vec<Expression>, stack: &mut Vec<Operator>, complete: bool) -> (r: TermResult)
    ensures
        match term(tokens@, pos as int, old(out)@, old(stack)@, complete) {
            Step::Advance(o, st, c, p) => r is Next && r->Next_0 == c && r->Next_1 == p && final(out)@ == o
                && final(stack)@ == st && pos < p <= tokens@.len(),
            Step::NoTerm => r is NoTerm && final(out)@ == old(out)@ && final(stack)@ == old(stack)@,
            Step::Malformed => r is Malformed,
        },
{
    if pos >= tokens.len() {
        return TermResult::NoTerm;
    }
    match &tokens[pos] {
        Token::Data(l, _) => {
            out.push(Expression::Value(Value::Data(literal(*l))));
            TermResult::Next(true, pos + 1)
        },
        Token::Identifier(name) => match index(tokens, pos + 1) {
            Some(i) => {
                out.push(Expression::Value(Value::Pointer(Pointer { name: name.clone(), index: i })));
                TermResult::Next(true, pos + 4)
            },
            None => {
                out.push(Expression::Value(Value::Pointer(Pointer { name: name.clone(), index: 0 })));
                TermResult::Next(true, pos + 1)
            },
        },
        Token::Symbol(s) => {
            let unary = unary_operator(s);
            if !complete && unary.is_some() {
                match unary {
                    Some(u) => stack.push(Operator::Unary(u)),
                    None => {},
                }
                return TermResult::Next(false, pos + 1);
            }
            match binary_operator(s) {
                Some(b) => {
                    if reduce_stack(out, stack, b.precedence()) {
                        stack.push(Operator::Binary(b));
                        return TermResult::Next(false, pos + 1);
                    } else {
                        return TermResult::Malformed;
                    }
                },
                None => {},
            }
            if text_is(s, "(") {
                stack.push(Operator::Group);
                TermResult::Next(false, pos + 1)
            } else if text_is(s, ")") && has_group(stack) {
                if reduce_stack(out, stack, 13) {
                    if stack.len() > 0 {
                        stack.pop();
                    }
                    TermResult::Next(true, pos + 1)
                } else {
                    TermResult::Malformed
                }
            } else {
                TermResult::NoTerm
            }
        },
        Token::Keyword(_) => TermResult::NoTerm,
    }
}

fn is_terminator(t: &Token, terminators: &[&str]) -> (r: bool)
    ensures
        r == terminates(*t, terminators@),
{
    match t {
        Token::Symbol(x) => {
            let mut i: usize = 0;
            while i < terminators.len()
                invariant
                    i <= terminators@.len(),
                    *t == Token::Symbol(*x),
                    forall|j: int| 0 <= j < i ==> terminators@[j]@ != x@,
                decreases terminators@.len() - i,
            {
                if text_is(x, terminators[i]) {
                    return true;
                }
                i = i + 1;
            }
            false
        },
        _ => false,
    }
}

impl Expression {
    /// Parses the expression that starts at `pos` and ends at one of the
    /// terminator symbols; returns it with the terminator and the position
    /// after the terminator.
    pub fn from_stream(tokens: &Vec<Token>, pos: usize, terminators: &[&str]) -> (r: Result<(Expression, Token, usize), SyntaxError>)
        ensures
            match parse_expression(tokens@, pos as int, terminators@) {
                Ok((e, t, p)) => r is Ok && r->Ok_0.0 == e && r->Ok_0.1 == t && r->Ok_0.2 == p,
                Err(f) => r is Err && (r->Err_0.expected@, r->Err_0.found) == expression_error(tokens@, pos as int, f),
            },
    {
        if pos >= tokens.len() {
            return Err(SyntaxError { expected: String::from_str("expression term"), found: None });
        }
        let mut out: Vec<Expression> = Vec::new();
        let mut stack: Vec<Operator> = Vec::new();
        let mut complete = false;
        let mut p = pos;
        loop
            invariant
                p <= tokens@.len(),
                shunt(tokens@, p as int, out@, stack@, complete, terminators@)
                    == parse_expression(tokens@, pos as int, terminators@),
            decreases tokens@.len() - p,
        {
            match term_step(tokens, p, &mut out, &mut stack, complete) {
                TermResult::Next(c, next) => {
                    complete = c;
                    p = next;
                },
                TermResult::Malformed => {
                    return Err(SyntaxError { expected: String::from_str("expression"), found: peek(tokens, pos) });
                },
                TermResult::NoTerm => {
                    if p < tokens.len() && is_terminator(&tokens[p], terminators) {
                        if reduce_stack(&mut out, &mut stack, 13) && stack.len() == 0 && out.len() == 1 {
                            match out.pop() {
                                Some(e) => {
                                    return Ok((e, copy_token(&tokens[p]), p + 1));
                                },
                                None => {},
                            }
                        }
                        return Err(SyntaxError { expected: String::from_str("expression"), found: peek(tokens, pos) });
                    }
                    return Err(SyntaxError { expected: String::from_str("expression term"), found: peek(tokens, p) });
                },
            }
        }
    }
}

/// The expression of an operand token: a literal's value, or a variable.
pub open spec fn operand_expression(t: Token) -> Expression {
    match t {
        Token::Identifier(name) => Expression::Value(Value::Pointer(Pointer { name, index: 0 })),
        _ => Expression::Value(Value::Data(literal_data(t->Data_0))),
    }
}

/// `a op1 b op2 c`, closed by a terminator, groups as `(a op1 b) op2 c` when
/// the precedence number of `op1` is at most that of `op2`, and as
/// `a op1 (b op2 c)` when it is greater.
pub proof fn precedence_law(a: Token, op1: Token, b: Token, op2: Token, c: Token, end: Token, terminators: Seq<&str>)
    requires
        a is Data || a is Identifier,
        b is Data || b is Identifier,
        c is Data || c is Identifier,
        op1 is Symbol && binary_of(op1->Symbol_0@) is Some,
        op2 is Symbol && binary_of(op2->Symbol_0@) is Some,
        terminates(end, terminators),
        binary_of(end->Symbol_0@) is None,
        end->Symbol_0@ != "("@,
    ensures
        ({
            let tokens = seq![a, op1, b, op2, c, end];
            let o1 = binary_of(op1->Symbol_0@)->Some_0;
            let o2 = binary_of(op2->Symbol_0@)->Some_0;
            let (x, y, z) = (operand_expression(a), operand_expression(b), operand_expression(c));
            let grouped = if o1.spec_precedence() <= o2.spec_precedence() {
                Expression::Binary {
                    op: o2,
                    lhs: Box::new(Expression::Binary { op: o1, lhs: Box::new(x), rhs: Box::new(y) }),
                    rhs: Box::new(z),
                }
            } else {
                Expression::Binary {
                    op: o1,
                    lhs: Box::new(x),
                    rhs: Box::new(Expression::Binary { op: o2, lhs: Box::new(y), rhs: Box::new(z) }),
                }
            };
            parse_expression(tokens, 0, terminators) == Ok::<(Expression, Token, int), ParseFailure>((grouped, end, 6))
        }),
{
    let tokens = seq![a, op1, b, op2, c, end];
    lemma_symbols();
    assert(index_at(tokens, 1) is None);
    assert(index_at(tokens, 3) is None);
    assert(index_at(tokens, 5) is None);
    reveal_with_fuel(shunt, 7);
    reveal_with_fuel(reduce, 4);
    let o1 = binary_of(op1->Symbol_0@)->Some_0;
    let o2 = binary_of(op2->Symbol_0@)->Some_0;
    let (x, y, z) = (operand_expression(a), operand_expression(b), operand_expression(c));
    let e0 = Seq::<Expression>::empty();
    let s0 = Seq::<Operator>::empty();
    assert(term(tokens, 0, e0, s0, false) == Step::Advance(e0.push(x), s0, true, 1));
    assert(reduce(e0.push(x), s0, o1.spec_precedence()) == Some((e0.push(x), s0)));
    assert(term(tokens, 1, e0.push(x), s0, true) == Step::Advance(e0.push(x), s0.push(Operator::Binary(o1)), false, 2));
    let s1 = s0.push(Operator::Binary(o1));
    assert(term(tokens, 2, e0.push(x), s1, false) == Step::Advance(e0.push(x).push(y), s1, true, 3));
    let out2 = e0.push(x).push(y);
    if o1.spec_precedence() <= o2.spec_precedence() {
        let xy = Expression::Binary { op: o1, lhs: Box::new(x), rhs: Box::new(y) };
        assert(apply(out2, Operator::Binary(o1)) == Some(e0.push(xy))) by {
            assert(out2.subrange(0, 0) =~= e0);
        }
        assert(s1.drop_last() =~= s0);
        assert(reduce(out2, s1, o2.spec_precedence()) == Some((e0.push(xy), s0)));
        let s2 = s0.push(Operator::Binary(o2));
        assert(term(tokens, 3, out2, s1, true) == Step::Advance(e0.push(xy), s2, false, 4));
        assert(term(tokens, 4, e0.push(xy), s2, false) == Step::Advance(e0.push(xy).push(z), s2, true, 5));
        assert(term(tokens, 5, e0.push(xy).push(z), s2, true) == Step::NoTerm);
        assert(s2.drop_last() =~= s0);
        assert(e0.push(xy).push(z).subrange(0, 0) =~= e0);
    } else {
        assert(reduce(out2, s1, o2.spec_precedence()) == Some((out2, s1)));
        let s2 = s1.push(Operator::Binary(o2));
        assert(term(tokens, 3, out2, s1, true) == Step::Advance(out2, s2, false, 4));
        let out3 = out2.push(z);
        assert(term(tokens, 4, out2, s2, false) == Step::Advance(out3, s2, true, 5));
        assert(term(tokens, 5, out3, s2, true) == Step::NoTerm);
        let yz = Expression::Binary { op: o2, lhs: Box::new(y), rhs: Box::new(z) };
        assert(out3.subrange(0, 1) =~= e0.push(x));
        assert(apply(out3, Operator::Binary(o2)) == Some(e0.push(x).push(yz)));
        assert(s2.drop_last() =~= s1);
        assert(s1.drop_last() =~= s0);
        assert(e0.push(x).push(yz).subrange(0, 0) =~= e0);
    }
}

/// The symbol of a binary operator.
pub open spec fn binary_text(op: BinaryOperator) -> Seq<char> {
    match op {
        BinaryOperator::Addition => "+"@,
        BinaryOperator::Subtraction => "-"@,
        BinaryOperator::Division => "/"@,
        BinaryOperator::Multiplication => "*"@,
        BinaryOperator::Remainder => "%"@,
        BinaryOperator::Greater => ">"@,
        BinaryOperator::Less => "<"@,
        BinaryOperator::GreaterEqual => ">="@,
        BinaryOperator::LessEqual => "<="@,
        BinaryOperator::Equal => "=="@,
        BinaryOperator::NotEqual => "!="@,
        BinaryOperator::And => "&&"@,
        BinaryOperator::Or => "||"@,
        BinaryOperator::BitwiseAnd => "&"@,
        BinaryOperator::BitwiseOr => "|"@,
        BinaryOperator::BitwiseXor => "^"@,
        BinaryOperator::LeftShift => "<<"@,
        BinaryOperator::RightShift => ">>"@,
    }
}

/// The symbol of a unary operator.
pub open spec fn unary_text(op: UnaryOperator) -> Seq<char> {
    match op {
        UnaryOperator::Negation => "-"@,
        UnaryOperator::Inversion => "!"@,
    }
}

/// The literal that reads back as a value, for the values a literal can
/// denote.
pub open spec fn literal_of(d: Data) -> Option<Literal> {
    match d {
        Data::Integer(x) => Some(Literal::Integer(x)),
        Data::Long(x) => Some(Literal::Long(x)),
        Data::Float(x) => Some(Literal::Floating(x)),
        Data::Byte(x) => Some(Literal::Character((x as u8) as char)),
        Data::Short(_) => None,
    }
}

proof fn lemma_byte_literal(x: i8)
    ensures
        literal_data(Literal::Character((x as u8) as char)) == Data::Byte(x),
{
    let c = (x as u8) as char;
    assert((c as u32) == (x as u8) as u32);
    assert((((x as u8) as u32) % 256) as u8 == x as u8) by (bit_vector);
    assert(((x as u8) as i8) == x) by (bit_vector);
}

/// An expression that can be written as tokens: its values are integer,
/// long, floating or character literals or variables, with element indices
/// that fit an integer literal.
pub open spec fn printable(e: Expression) -> bool
    decreases e,
{
    match e {
        Expression::Value(Value::Data(d)) => literal_of(d) is Some,
        Expression::Value(Value::Pointer(p)) => p.index <= i32::MAX,
        Expression::Unary { op, lhs } => printable(*lhs),
        Expression::Binary { op, lhs, rhs } => printable(*lhs) && printable(*rhs),
    }
}

/// `symbol` makes the symbol token of a text.
pub open spec fn makes_symbol(symbol: spec_fn(Seq<char>) -> Token, s: Seq<char>) -> bool {
    symbol(s) is Symbol && symbol(s)->Symbol_0@ == s
}

/// `symbol` makes the symbol token of each operator, parenthesis and
/// bracket.
pub open spec fn makes_symbols(symbol: spec_fn(Seq<char>) -> Token) -> bool {
    &&& forall|op: BinaryOperator| #[trigger] makes_symbol(symbol, binary_text(op))
    &&& forall|op: UnaryOperator| #[trigger] makes_symbol(symbol, unary_text(op))
    &&& makes_symbol(symbol, "("@)
    &&& makes_symbol(symbol, ")"@)
    &&& makes_symbol(symbol, "["@)
    &&& makes_symbol(symbol, "]"@)
}

/// An operand of a binary operator needs parentheses when it binds more
/// loosely, or, on the right, as loosely: operators group to the left.
pub open spec fn left_needs_parentheses(l: Expression, op: BinaryOperator) -> bool {
    l is Binary && l->Binary_op.spec_precedence() > op.spec_precedence()
}

pub open spec fn right_needs_parentheses(r: Expression, op: BinaryOperator) -> bool {
    r is Binary && r->Binary_op.spec_precedence() >= op.spec_precedence()
}

/// `e` written as tokens with the fewest parentheses: variables carry their
/// index, operands of unary operators are parenthesized when binary.
pub open spec fn print(e: Expression, symbol: spec_fn(Seq<char>) -> Token) -> Seq<Token>
    decreases e,
{
    match e {
        Expression::Value(Value::Data(d)) => seq![Token::Data(literal_of(d)->Some_0, arbitrary())],
        Expression::Value(Value::Pointer(p)) => seq![
            Token::Identifier(p.name),
            symbol("["@),
            Token::Data(Literal::Integer(p.index as i32), arbitrary()),
            symbol("]"@),
        ],
        Expression::Unary { op, lhs } => seq![symbol(unary_text(op))] + if (*lhs) is Binary {
            seq![symbol("("@)] + print(*lhs, symbol) + seq![symbol(")"@)]
        } else {
            print(*lhs, symbol)
        },
        Expression::Binary { op, lhs, rhs } => (if left_needs_parentheses(*lhs, op) {
            seq![symbol("("@)] + print(*lhs, symbol) + seq![symbol(")"@)]
        } else {
            print(*lhs, symbol)
        }) + seq![symbol(binary_text(op))] + (if right_needs_parentheses(*rhs, op) {
            seq![symbol("("@)] + print(*rhs, symbol) + seq![symbol(")"@)]
        } else {
            print(*rhs, symbol)
        }),
    }
}

/// The precedence number below which the operators a written expression
/// leaves on the stack are not yet applied: its operator's when binary.
pub open spec fn level(e: Expression) -> int {
    if e is Binary { e->Binary_op.spec_precedence() } else { 0 }
}

/// The stack stops a reduction at precedence number `p`: it is empty, or a
/// group or a looser binary operator is on top.
pub open spec fn guards(stack: Seq<Operator>, p: int) -> bool {
    stack.len() == 0 || stack.last() is Group || (stack.last() is Binary
        && stack.last()->Binary_0.spec_precedence() > p)
}

proof fn lemma_guard_stops(out: Seq<Expression>, stack: Seq<Operator>, p: int)
    requires
        guards(stack, p),
    ensures
        reduce(out, stack, p) == Some((out, stack)),
{
}

proof fn lemma_symbols()
    ensures
        forall|op: BinaryOperator| #[trigger] binary_of(binary_text(op)) == Some(op),
        forall|op: UnaryOperator| #[trigger] unary_of(unary_text(op)) == Some(op),
        binary_of("("@) is None,
        binary_of(")"@) is None,
        unary_of("("@) is None,
        unary_of(")"@) is None,
        binary_of("["@) is None,
        "("@ != ")"@,
{
    reveal_strlit("+");
    reveal_strlit("-");
    reveal_strlit("/");
    reveal_strlit("*");
    reveal_strlit("%");
    reveal_strlit(">");
    reveal_strlit("<");
    reveal_strlit(">=");
    reveal_strlit("<=");
    reveal_strlit("==");
    reveal_strlit("!=");
    reveal_strlit("&&");
    reveal_strlit("||");
    reveal_strlit("&");
    reveal_strlit("|");
    reveal_strlit("^");
    reveal_strlit("<<");
    reveal_strlit(">>");
    reveal_strlit("!");
    reveal_strlit("(");
    reveal_strlit(")");
    reveal_strlit("[");
    assert("["@.len() == 1 && "["@[0] == '[');
    assert("+"@.len() == 1 && "+"@[0] == '+');
    assert("-"@.len() == 1 && "-"@[0] == '-');
    assert("/"@.len() == 1 && "/"@[0] == '/');
    assert("*"@.len() == 1 && "*"@[0] == '*');
    assert("%"@.len() == 1 && "%"@[0] == '%');
    assert(">"@.len() == 1 && ">"@[0] == '>');
    assert("<"@.len() == 1 && "<"@[0] == '<');
    assert(">="@.len() == 2 && ">="@[0] == '>' && ">="@[1] == '=');
    assert("<="@.len() == 2 && "<="@[0] == '<' && "<="@[1] == '=');
    assert("=="@.len() == 2 && "=="@[0] == '=' && "=="@[1] == '=');
    assert("!="@.len() == 2 && "!="@[0] == '!' && "!="@[1] == '=');
    assert("&&"@.len() == 2 && "&&"@[0] == '&' && "&&"@[1] == '&');
    assert("||"@.len() == 2 && "||"@[0] == '|' && "||"@[1] == '|');
    assert("&"@.len() == 1 && "&"@[0] == '&');
    assert("|"@.len() == 1 && "|"@[0] == '|');
    assert("^"@.len() == 1 && "^"@[0] == '^');
    assert("<<"@.len() == 2 && "<<"@[0] == '<' && "<<"@[1] == '<');
    assert(">>"@.len() == 2 && ">>"@[0] == '>' && ">>"@[1] == '>');
    assert("!"@.len() == 1 && "!"@[0] == '!');
    assert("("@.len() == 1 && "("@[0] == '(');
    assert(")"@.len() == 1 && ")"@[0] == ')');
    assert forall|op: BinaryOperator| #[trigger] binary_of(binary_text(op)) == Some(op) by {
        match op {
            BinaryOperator::Addition => {},
            BinaryOperator::Subtraction => {},
            BinaryOperator::Division => {},
            BinaryOperator::Multiplication => {},
            BinaryOperator::Remainder => {},
            BinaryOperator::Greater => {},
            BinaryOperator::Less => {},
            BinaryOperator::GreaterEqual => {},
            BinaryOperator::LessEqual => {},
            BinaryOperator::Equal => {},
            BinaryOperator::NotEqual => {},
            BinaryOperator::And => {},
            BinaryOperator::Or => {},
            BinaryOperator::BitwiseAnd => {},
            BinaryOperator::BitwiseOr => {},
            BinaryOperator::BitwiseXor => {},
            BinaryOperator::LeftShift => {},
            BinaryOperator::RightShift => {},
        }
    }
}

proof fn lemma_split(tokens: Seq<Token>, pos: int, a: Seq<Token>, b: Seq<Token>)
    requires
        0 <= pos,
        pos + a.len() + b.len() <= tokens.len(),
        tokens.subrange(pos, pos + a.len() + b.len()) == a + b,
    ensures
        tokens.subrange(pos, pos + a.len()) == a,
        tokens.subrange(pos + a.len(), pos + a.len() + b.len()) == b,
{
    assert(tokens.subrange(pos, pos + a.len()) =~= (a + b).subrange(0, a.len() as int));
    assert(tokens.subrange(pos + a.len(), pos + a.len() + b.len()) =~= (a + b).subrange(a.len() as int, (a.len() + b.len()) as int));
}

proof fn lemma_one(tokens: Seq<Token>, pos: int, t: Token)
    requires
        0 <= pos,
        pos + 1 <= tokens.len(),
        tokens.subrange(pos, pos + 1) == seq![t],
    ensures
        tokens[pos] == t,
{
    assert(tokens.subrange(pos, pos + 1)[0] == tokens[pos]);
}

/// Reading `( x )` from a state expecting an operand pushes `x`.
proof fn lemma_parse_grouped(x: Expression, symbol: spec_fn(Seq<char>) -> Token, tokens: Seq<Token>, pos: int, out: Seq<Expression>, stack: Seq<Operator>, terminators: Seq<&str>)
    requires
        printable(x),
        makes_symbols(symbol),
        0 <= pos,
        pos + print(x, symbol).len() + 2 <= tokens.len(),
        tokens.subrange(pos, pos + print(x, symbol).len() + 2) == seq![symbol("("@)] + print(x, symbol) + seq![symbol(")"@)],
    ensures
        shunt(tokens, pos, out, stack, false, terminators)
            == shunt(tokens, pos + print(x, symbol).len() + 2, out.push(x), stack, true, terminators),
    decreases x, 2nat,
{
    let n = print(x, symbol).len();
    lemma_symbols();
    lemma_split(tokens, pos, seq![symbol("("@)] + print(x, symbol), seq![symbol(")"@)]);
    lemma_split(tokens, pos, seq![symbol("("@)], print(x, symbol));
    lemma_one(tokens, pos, symbol("("@));
    lemma_one(tokens, pos + n + 1, symbol(")"@));
    let inner = stack.push(Operator::Group);
    assert(term(tokens, pos, out, stack, false) == Step::Advance(out, inner, false, pos + 1));
    let (o2, s2) = lemma_parse_printed(x, symbol, tokens, pos + 1, out, inner, terminators);
    assert(s2[stack.len() as int] == Operator::Group) by {
        assert(s2.subrange(0, inner.len() as int)[stack.len() as int] == inner[stack.len() as int]);
    }
    assert(s2.contains(Operator::Group));
    assert(reduce(o2, s2, 13) == reduce(out.push(x), inner, 13));
    assert(inner.drop_last() =~= stack);
    assert(term(tokens, pos + n + 1, o2, s2, true) == Step::Advance(out.push(x), stack, true, pos + n + 2));
}

/// Reading the tokens of `e` from a state expecting an operand, with a stack
/// that stops reductions at `e`'s level, reaches a state that reduces to
/// `e` pushed on the output.
proof fn lemma_parse_printed(e: Expression, symbol: spec_fn(Seq<char>) -> Token, tokens: Seq<Token>, pos: int, out: Seq<Expression>, stack: Seq<Operator>, terminators: Seq<&str>) -> (r: (Seq<Expression>, Seq<Operator>))
    requires
        printable(e),
        makes_symbols(symbol),
        0 <= pos,
        pos + print(e, symbol).len() <= tokens.len(),
        tokens.subrange(pos, pos + print(e, symbol).len()) == print(e, symbol),
        e is Binary ==> guards(stack, level(e)),
    ensures
        shunt(tokens, pos, out, stack, false, terminators)
            == shunt(tokens, pos + print(e, symbol).len(), r.0, r.1, true, terminators),
        r.1.len() >= stack.len(),
        r.1.subrange(0, stack.len() as int) == stack,
        forall|k: int| stack.len() <= k < r.1.len() ==> !(#[trigger] r.1[k] is Group),
        forall|limit: int| level(e) <= limit <= 13 ==> #[trigger] reduce(r.0, r.1, limit)
            == reduce(out.push(e), stack, limit),
    decreases e, 1nat,
{
    lemma_symbols();
    let n = print(e, symbol).len();
    match e {
        Expression::Value(Value::Data(d)) => {
            if d is Byte {
                lemma_byte_literal(d->Byte_0);
            }
            lemma_one(tokens, pos, print(e, symbol)[0]);
            assert(term(tokens, pos, out, stack, false) == Step::Advance(out.push(e), stack, true, pos + 1));
            assert(stack.subrange(0, stack.len() as int) =~= stack);
            (out.push(e), stack)
        },
        Expression::Value(Value::Pointer(p)) => {
            assert(tokens[pos] == print(e, symbol)[0]);
            assert(tokens[pos + 1] == print(e, symbol)[1]);
            assert(tokens[pos + 2] == print(e, symbol)[2]);
            assert(tokens[pos + 3] == print(e, symbol)[3]);
            assert(index_at(tokens, pos + 1) == Some(p.index));
            assert(term(tokens, pos, out, stack, false) == Step::Advance(out.push(e), stack, true, pos + 4));
            assert(stack.subrange(0, stack.len() as int) =~= stack);
            (out.push(e), stack)
        },
        Expression::Unary { op, lhs } => {
            let x = *lhs;
            let pushed = stack.push(Operator::Unary(op));
            let rest = if x is Binary {
                seq![symbol("("@)] + print(x, symbol) + seq![symbol(")"@)]
            } else {
                print(x, symbol)
            };
            assert(makes_symbol(symbol, unary_text(op)));
            lemma_split(tokens, pos, seq![symbol(unary_text(op))], rest);
            lemma_one(tokens, pos, symbol(unary_text(op)));
            assert(term(tokens, pos, out, stack, false) == Step::Advance(out, pushed, false, pos + 1));
            let (o2, s2) = if x is Binary {
                lemma_parse_grouped(x, symbol, tokens, pos + 1, out, pushed, terminators);
                assert(pushed.subrange(0, pushed.len() as int) =~= pushed);
                (out.push(x), pushed)
            } else {
                lemma_parse_printed(x, symbol, tokens, pos + 1, out, pushed, terminators)
            };
            assert(pushed.drop_last() =~= stack);
            assert forall|limit: int| level(e) <= limit <= 13 implies #[trigger] reduce(o2, s2, limit)
                == reduce(out.push(e), stack, limit) by {
                assert(reduce(o2, s2, limit) == reduce(out.push(x), pushed, limit));
                assert(out.push(x).drop_last() =~= out);
                assert(apply(out.push(x), Operator::Unary(op)) == Some(out.push(e)));
            }
            assert(s2.subrange(0, stack.len() as int) =~= s2.subrange(0, pushed.len() as int).subrange(0, stack.len() as int));
            assert(s2[stack.len() as int] == s2.subrange(0, pushed.len() as int)[stack.len() as int]);
            (o2, s2)
        },
        Expression::Binary { op, lhs, rhs } => {
            let (l, rr) = (*lhs, *rhs);
            let left = if left_needs_parentheses(l, op) {
                seq![symbol("("@)] + print(l, symbol) + seq![symbol(")"@)]
            } else {
                print(l, symbol)
            };
            let right = if right_needs_parentheses(rr, op) {
                seq![symbol("("@)] + print(rr, symbol) + seq![symbol(")"@)]
            } else {
                print(rr, symbol)
            };
            let q = pos + left.len();
            assert(makes_symbol(symbol, binary_text(op)));
            lemma_split(tokens, pos, left + seq![symbol(binary_text(op))], right);
            lemma_split(tokens, pos, left, seq![symbol(binary_text(op))]);
            lemma_one(tokens, q, symbol(binary_text(op)));
            let (o1, s1) = if left_needs_parentheses(l, op) {
                lemma_parse_grouped(l, symbol, tokens, pos, out, stack, terminators);
                (out.push(l), stack)
            } else {
                lemma_parse_printed(l, symbol, tokens, pos, out, stack, terminators)
            };
            assert(reduce(o1, s1, op.spec_precedence()) == reduce(out.push(l), stack, op.spec_precedence()));
            lemma_guard_stops(out.push(l), stack, op.spec_precedence());
            let pushed = stack.push(Operator::Binary(op));
            assert(term(tokens, q, o1, s1, true) == Step::Advance(out.push(l), pushed, false, q + 1));
            let (o2, s2) = if right_needs_parentheses(rr, op) {
                lemma_parse_grouped(rr, symbol, tokens, q + 1, out.push(l), pushed, terminators);
                assert(pushed.subrange(0, pushed.len() as int) =~= pushed);
                (out.push(l).push(rr), pushed)
            } else {
                lemma_parse_printed(rr, symbol, tokens, q + 1, out.push(l), pushed, terminators)
            };
            assert(pushed.drop_last() =~= stack);
            assert forall|limit: int| level(e) <= limit <= 13 implies #[trigger] reduce(o2, s2, limit)
                == reduce(out.push(e), stack, limit) by {
                assert(reduce(o2, s2, limit) == reduce(out.push(l).push(rr), pushed, limit));
                assert(out.push(l).push(rr).subrange(0, out.len() as int) =~= out);
                assert(apply(out.push(l).push(rr), Operator::Binary(op)) == Some(out.push(e)));
            }
            assert(s2.subrange(0, stack.len() as int) =~= s2.subrange(0, pushed.len() as int).subrange(0, stack.len() as int));
            assert(s2[stack.len() as int] == s2.subrange(0, pushed.len() as int)[stack.len() as int]);
            (o2, s2)
        },
    }
}

/// Writing an expression with the fewest parentheses and reading it back,
/// closed by a terminator that is neither a binary operator nor `(`, gives
/// the same expression.
pub proof fn print_then_parse(e: Expression, symbol: spec_fn(Seq<char>) -> Token, end: Token, terminators: Seq<&str>)
    requires
        printable(e),
        makes_symbols(symbol),
        terminates(end, terminators),
        binary_of(end->Symbol_0@) is None,
        end->Symbol_0@ != "("@,
    ensures
        parse_expression(print(e, symbol).push(end), 0, terminators)
            == Ok::<(Expression, Token, int), ParseFailure>((e, end, print(e, symbol).len() + 1 as int)),
{
    let printed = print(e, symbol);
    let tokens = printed.push(end);
    let n = printed.len();
    assert(tokens.subrange(0, n as int) =~= printed);
    let (o, s) = lemma_parse_printed(e, symbol, tokens, 0, Seq::empty(), Seq::empty(), terminators);
    assert(!s.contains(Operator::Group));
    assert(term(tokens, n as int, o, s, true) == Step::NoTerm);
    assert(reduce(o, s, 13) == reduce(Seq::<Expression>::empty().push(e), Seq::<Operator>::empty(), 13));
    assert(finish(o, s) == Some(e));
}

} // verus!
