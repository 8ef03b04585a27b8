//! The recursive-descent parser of statements and declarations.
use crate::error::SyntaxError;
use crate::expression::{copy_token, is_symbol, parse_expression, peek, text_is, token_at, token_is_symbol};
use crate::types::{
    Assignment, Compound, DataType, Expression, Function, Initializer, Literal, Loop, Primitive, Statement,
    Token, Type, Variable,
};
use vstd::prelude::*;

verus! {

/// Whether a token is the keyword `k`.
pub open spec fn is_keyword(t: Token, k: Seq<char>) -> bool {
    t is Keyword && t->Keyword_0@ == k
}

/// The primitive a type keyword names.
pub open spec fn primitive_keyword(t: Token) -> Option<Primitive> {
    if is_keyword(t, "int"@) { Some(Primitive::Int) }
    else if is_keyword(t, "float"@) { Some(Primitive::Float) }
    else if is_keyword(t, "short"@) { Some(Primitive::Short) }
    else if is_keyword(t, "long"@) { Some(Primitive::Long) }
    else if is_keyword(t, "char"@) { Some(Primitive::Byte) }
    else { None }
}

fn keyword_is(t: &Token, k: &str) -> (r: bool)
    ensures
        r == is_keyword(*t, k@),
{
    match t {
        Token::Keyword(x) => text_is(x, k),
        _ => false,
    }
}

fn primitive_of(t: &Token) -> (r: Option<Primitive>)
    ensures
        r == primitive_keyword(*t),
{
    if keyword_is(t, "int") { Some(Primitive::Int) }
    else if keyword_is(t, "float") { Some(Primitive::Float) }
    else if keyword_is(t, "short") { Some(Primitive::Short) }
    else if keyword_is(t, "long") { Some(Primitive::Long) }
    else if keyword_is(t, "char") { Some(Primitive::Byte) }
    else { None }
}

fn error(expected: &str, tokens: &Vec<Token>, pos: usize) -> (r: SyntaxError)
    ensures
        r.expected@ == expected@,
        r.found == token_at(tokens@, pos as int),
{
    SyntaxError { expected: String::from_str(expected), found: peek(tokens, pos) }
}

/// The declared type a token names: a type keyword, or an alias.
pub open spec fn datatype_of(t: Token) -> Option<DataType> {
    match primitive_keyword(t) {
        Some(p) => Some(DataType::Type(Compound(p, 1))),
        None => if t is Identifier { Some(DataType::Alias(t->Identifier_0)) } else { None },
    }
}

pub open spec fn datatype_at(tokens: Seq<Token>, pos: int) -> Option<DataType> {
    match token_at(tokens, pos) {
        Some(t) => datatype_of(t),
        None => None,
    }
}

/// Reads a type keyword or an alias name.
pub fn datatype(tokens: &Vec<Token>, pos: usize) -> (r: Result<(DataType, usize), SyntaxError>)
    ensures
        match datatype_at(tokens@, pos as int) {
            Some(d) => r is Ok && r->Ok_0.0 == d && r->Ok_0.1 == pos + 1,
            None => r is Err && r->Err_0.expected@ == "datatype"@ && r->Err_0.found == token_at(tokens@, pos as int),
        },
{
    if pos < tokens.len() {
        match primitive_of(&tokens[pos]) {
            Some(p) => return Ok((DataType::Type(Compound(p, 1)), pos + 1)),
            None => {},
        }
        match &tokens[pos] {
            Token::Identifier(name) => return Ok((DataType::Alias(name.clone()), pos + 1)),
            _ => {},
        }
    }
    Err(error("datatype", tokens, pos))
}

/// The text that `symbol` reports when `s` is missing: `symbol("s")`.
pub open spec fn expected_symbol(s: Seq<char>) -> Seq<char> {
    "symbol(\""@ + s + "\")"@
}

/// Reads the symbol `s`.
pub fn symbol(tokens: &Vec<Token>, pos: usize, s: &str) -> (r: Result<usize, SyntaxError>)
    ensures
        match token_at(tokens@, pos as int) {
            Some(t) => if is_symbol(t, s@) {
                r is Ok && r->Ok_0 == pos + 1
            } else {
                r is Err && r->Err_0.expected@ == expected_symbol(s@) && r->Err_0.found == Some(t)
            },
            None => r is Err && r->Err_0.expected@ == expected_symbol(s@) && r->Err_0.found is None,
        },
{
    if pos < tokens.len() && token_is_symbol(&tokens[pos], s) {
        return Ok(pos + 1);
    }
    let mut expected = String::from_str("symbol(\"");
    expected.append(s);
    expected.append("\")");
    Err(SyntaxError { expected, found: peek(tokens, pos) })
}

/// A name, with the size in `[N]` after it, or 0 without one.
pub open spec fn identifier_at(tokens: Seq<Token>, pos: int) -> Option<(String, usize, int)> {
    match token_at(tokens, pos) {
        Some(Token::Identifier(name)) => match crate::expression::index_at(tokens, pos + 1) {
            Some(n) => Some((name, n, pos + 4)),
            None => Some((name, 0, pos + 1)),
        },
        _ => None,
    }
}

/// Reads a name and the optional `[N]` after it.
pub fn identifier(tokens: &Vec<Token>, pos: usize) -> (r: Result<(String, usize, usize), SyntaxError>)
    ensures
        match identifier_at(tokens@, pos as int) {
            Some((name, n, p)) => r is Ok && r->Ok_0.0 == name && r->Ok_0.1 == n && r->Ok_0.2 == p
                && p <= tokens@.len(),
            None => r is Err && r->Err_0.expected@ == "identifier"@ && r->Err_0.found == token_at(tokens@, pos as int),
        },
{
    if pos < tokens.len() {
        match &tokens[pos] {
            Token::Identifier(name) => {
                return match crate::expression::index(tokens, pos + 1) {
                    Some(n) => Ok((name.clone(), n, pos + 4)),
                    None => Ok((name.clone(), 0, pos + 1)),
                };
            },
            _ => {},
        }
    }
    Err(error("identifier", tokens, pos))
}

/// What a failed parse reports: what it expected and the token it found.
pub type ErrorView = (Seq<char>, Option<Token>);

pub open spec fn view_of(e: SyntaxError) -> ErrorView {
    (e.expected@, e.found)
}

/// `[ N ]`, an element index, or the error at the first token that does not
/// fit: the bracket, the number, or the closing bracket.
pub open spec fn index_res(tokens: Seq<Token>, pos: int) -> Result<(usize, int), ErrorView> {
    match crate::expression::index_at(tokens, pos) {
        Some(n) => Ok((n, pos + 3)),
        None => {
            let at = if token_at(tokens, pos) is Some && is_symbol(tokens[pos], "["@) {
                if token_at(tokens, pos + 1) is Some && tokens[pos + 1] is Data && tokens[pos + 1]->Data_0 is Integer {
                    pos + 2
                } else {
                    pos + 1
                }
            } else {
                pos
            };
            Err(("index"@, token_at(tokens, at)))
        },
    }
}

/// Reads `[ N ]`, an element index.
pub fn index(tokens: &Vec<Token>, pos: usize) -> (r: Result<(usize, usize), SyntaxError>)
    ensures
        match index_res(tokens@, pos as int) {
            Ok((n, p)) => r is Ok && r->Ok_0.0 == n && r->Ok_0.1 == p,
            Err(x) => r is Err && view_of(r->Err_0) == x,
        },
{
    let length = tokens.len();
    match crate::expression::index(tokens, pos) {
        Some(n) => Ok((n, pos + 3)),
        None => {
            let at = if pos < tokens.len() && token_is_symbol(&tokens[pos], "[") {
                if pos + 1 < tokens.len() && matches!(tokens[pos + 1], Token::Data(Literal::Integer(_), _)) {
                    pos + 2
                } else {
                    pos + 1
                }
            } else {
                pos
            };
            Err(error("index", tokens, at))
        },
    }
}

/// The symbol `s` at `pos`, or the error naming it.
pub open spec fn symbol_res(tokens: Seq<Token>, pos: int, s: Seq<char>) -> Result<int, ErrorView> {
    if token_at(tokens, pos) is Some && is_symbol(tokens[pos], s) {
        Ok(pos + 1)
    } else {
        Err((expected_symbol(s), token_at(tokens, pos)))
    }
}

pub open spec fn datatype_res(tokens: Seq<Token>, pos: int) -> Result<(DataType, int), ErrorView> {
    match datatype_at(tokens, pos) {
        Some(d) => Ok((d, pos + 1)),
        None => Err(("datatype"@, token_at(tokens, pos))),
    }
}

pub open spec fn identifier_res(tokens: Seq<Token>, pos: int) -> Result<(String, usize, int), ErrorView> {
    match identifier_at(tokens, pos) {
        Some(x) => Ok(x),
        None => Err(("identifier"@, token_at(tokens, pos))),
    }
}

pub open spec fn expression_res(tokens: Seq<Token>, pos: int, terminators: Seq<&str>) -> Result<(Expression, Token, int), ErrorView> {
    match parse_expression(tokens, pos, terminators) {
        Ok(x) => Ok(x),
        Err(f) => Err(crate::expression::expression_error(tokens, pos, f)),
    }
}

/// The error for an index on an alias.
pub open spec fn alias_array_error(name: String) -> ErrorView {
    ("no index because arrays of aliases are not supported"@, Some(Token::Identifier(name)))
}

/// The rest of a `typedef`: a type, a name with an optional array size, and
/// `;`. An alias cannot be given a size.
pub open spec fn typedef_res(tokens: Seq<Token>, pos: int) -> Result<(Type, int), ErrorView> {
    match datatype_res(tokens, pos) {
        Err(x) => Err(x),
        Ok((d, p1)) => match identifier_res(tokens, p1) {
            Err(x) => Err(x),
            Ok((name, size, p2)) => if size > 1 && d is Alias {
                Err(alias_array_error(name))
            } else {
                let dt = if size > 1 { DataType::Type(Compound(d->Type_0.0, size)) } else { d };
                match symbol_res(tokens, p2, ";"@) {
                    Err(x) => Err(x),
                    Ok(p3) => Ok((Type { datatype: dt, name }, p3)),
                }
            },
        },
    }
}

/// Parses the rest of a `typedef`.
pub fn typedef(tokens: &Vec<Token>, pos: usize) -> (r: Result<(Type, usize), SyntaxError>)
    ensures
        match typedef_res(tokens@, pos as int) {
            Ok((t, p)) => r is Ok && r->Ok_0.0 == t && r->Ok_0.1 == p,
            Err(x) => r is Err && view_of(r->Err_0) == x,
        },
{
    let (d, p) = datatype(tokens, pos)?;
    let (name, size, p) = identifier(tokens, p)?;
    let datatype = if size > 1 {
        match d {
            DataType::Type(c) => DataType::Type(Compound(c.0, size)),
            DataType::Alias(_) => {
                return Err(SyntaxError {
                    expected: String::from_str("no index because arrays of aliases are not supported"),
                    found: Some(Token::Identifier(name)),
                });
            },
        }
    } else {
        d
    };
    let p = symbol(tokens, p, ";")?;
    Ok((Type { datatype, name }, p))
}

/// Parses an expression closed by one of `terminators`.
pub fn expression(tokens: &Vec<Token>, pos: usize, terminators: &[&str]) -> (r: Result<(Expression, Token, usize), SyntaxError>)
    ensures
        match expression_res(tokens@, pos as int, terminators@) {
            Ok((e, t, p)) => r is Ok && r->Ok_0.0 == e && r->Ok_0.1 == t && r->Ok_0.2 == p,
            Err(x) => r is Err && view_of(r->Err_0) == x,
        },
{
    Expression::from_stream(tokens, pos, terminators)
}

/// Whether a statement can start with this token.
pub open spec fn starts_statement(t: Token) -> bool {
    is_keyword(t, "typedef"@) || is_keyword(t, "return"@) || is_keyword(t, "for"@)
        || primitive_keyword(t) is Some || t is Identifier || is_symbol(t, ";"@)
}

/// An initializer as values: one expression, or the expressions of a list.
pub enum InitView {
    Single(Expression),
    List(Seq<Expression>),
}

pub open spec fn init_view(i: Initializer) -> InitView {
    match i {
        Initializer::Expression(e) => InitView::Single(e),
        Initializer::List(v) => InitView::List(v@),
    }
}

/// The elements of a brace list from `pos` on, after `acc`: expressions
/// separated by `,` up to `}`, then `terminator`.
pub open spec fn elements_res(tokens: Seq<Token>, pos: int, acc: Seq<Expression>, terminator: Seq<char>) -> Result<(Seq<Expression>, int), ErrorView>
    decreases tokens.len() - pos,
{
    match expression_res(tokens, pos, seq![",", "}"]) {
        Err(x) => Err(x),
        Ok((e, t, q)) => if is_symbol(t, "}"@) {
            match symbol_res(tokens, q, terminator) {
                Ok(q2) => Ok((acc.push(e), q2)),
                Err(x) => Err(x),
            }
        } else if pos < q <= tokens.len() {
            elements_res(tokens, q, acc.push(e), terminator)
        } else {
            Err(("expression"@, None))
        },
    }
}

/// A brace list and the terminator after it.
pub open spec fn list_res(tokens: Seq<Token>, pos: int, terminator: Seq<char>) -> Result<(Seq<Expression>, int), ErrorView> {
    match symbol_res(tokens, pos, "{"@) {
        Err(x) => Err(x),
        Ok(p) => elements_res(tokens, p, Seq::empty(), terminator),
    }
}

/// The right-hand side of an assignment, closed by `terminator`: a brace
/// list when it starts with `{`, else one expression.
pub open spec fn assignment_res(tokens: Seq<Token>, pos: int, terminator: &str) -> Result<(InitView, int), ErrorView> {
    if token_at(tokens, pos) is Some && is_symbol(tokens[pos], "{"@) {
        match list_res(tokens, pos, terminator@) {
            Ok((v, p)) => Ok((InitView::List(v), p)),
            Err(x) => Err(x),
        }
    } else {
        match expression_res(tokens, pos, seq![terminator]) {
            Ok((e, _, p)) => Ok((InitView::Single(e), p)),
            Err(x) => Err(x),
        }
    }
}

/// What follows a variable's name: `= initializer ;` or `;`.
pub open spec fn variable_res(tokens: Seq<Token>, pos: int) -> Result<(Option<InitView>, int), ErrorView> {
    if token_at(tokens, pos) is Some && is_symbol(tokens[pos], "="@) {
        match assignment_res(tokens, pos + 1, ";") {
            Ok((v, p)) => Ok((Some(v), p)),
            Err(x) => Err(x),
        }
    } else {
        match symbol_res(tokens, pos, ";"@) {
            Ok(p) => Ok((None, p)),
            Err(x) => Err(x),
        }
    }
}

pub open spec fn assignment_matches(a: Assignment, name: String, index: usize, v: InitView) -> bool {
    a.name == name && a.index == index && init_view(a.value) == v
}

pub open spec fn variable_matches(v: Variable, datatype: DataType, name: String, o: Option<InitView>) -> bool {
    &&& v.datatype == datatype
    &&& v.name == name
    &&& match (v.assignment, o) {
        (None, None) => true,
        (Some(a), Some(i)) => assignment_matches(a, name, 0, i),
        _ => false,
    }
}

/// Marks the parse result a relation below is witnessed by.
pub open spec fn seen<T>(x: T) -> bool {
    true
}

/// The error that ends a block: a token where no statement starts that is
/// the block's terminator, or the end of the input for the outermost block.
pub open spec fn ends_block(e: ErrorView, terminator: Option<Seq<char>>) -> bool {
    e.0 == "statement"@ && match (e.1, terminator) {
        (None, None) => true,
        (Some(t), Some(end)) => is_symbol(t, end),
        _ => false,
    }
}

/// `r` is the result of parsing a statement at `pos`.
pub open spec fn statement_is(tokens: Seq<Token>, pos: int, r: Result<(Statement, usize), SyntaxError>) -> bool
    decreases tokens.len() - pos, 0nat,
{
    if !(0 <= pos < tokens.len() && starts_statement(tokens[pos])) {
        r is Err && view_of(r->Err_0) == ("statement"@, token_at(tokens, pos))
    } else {
        let t = tokens[pos];
        if is_keyword(t, "typedef"@) {
            match typedef_res(tokens, pos + 1) {
                Ok((ty, p)) => r is Ok && r->Ok_0.0 == Statement::Type(ty) && r->Ok_0.1 == p,
                Err(x) => r is Err && view_of(r->Err_0) == x,
            }
        } else if is_keyword(t, "return"@) {
            match expression_res(tokens, pos + 1, seq![";"]) {
                Ok((e, _, p)) => r is Ok && r->Ok_0.0 == Statement::Return(e) && r->Ok_0.1 == p,
                Err(x) => r is Err && view_of(r->Err_0) == x,
            }
        } else if primitive_keyword(t) is Some {
            declaration_is(tokens, pos + 1, DataType::Type(Compound(primitive_keyword(t)->Some_0, 1)), r)
        } else if t is Identifier {
            declaration_is(tokens, pos + 1, DataType::Alias(t->Identifier_0), r)
        } else if is_keyword(t, "for"@) {
            exists|l: Result<(Loop, usize), SyntaxError>| #[trigger] seen(l) && repetition_is(tokens, pos + 1, l)
                && match l {
                Ok((lp, p)) => r is Ok && r->Ok_0.0 == Statement::Loop(lp) && r->Ok_0.1 == p,
                Err(e) => r == Err::<(Statement, usize), SyntaxError>(e),
            }
        } else {
            r is Ok && r->Ok_0.0 == Statement::Noop && r->Ok_0.1 == pos + 1
        }
    }
}

/// `r` is the result of parsing what follows a leading type or name at
/// `pos`: an assignment when an alias name is followed by `=` or `[`, else a
/// function (name, `(`) or a variable.
pub open spec fn declaration_is(tokens: Seq<Token>, pos: int, datatype: DataType, r: Result<(Statement, usize), SyntaxError>) -> bool
    decreases tokens.len() - pos, 0nat,
{
    if datatype is Alias && token_at(tokens, pos) is Some && is_symbol(tokens[pos], "="@) {
        match assignment_res(tokens, pos + 1, ";") {
            Ok((v, p)) => r is Ok && r->Ok_0.0 is Assignment && assignment_matches(r->Ok_0.0->Assignment_0, datatype->Alias_0, 0, v)
                && r->Ok_0.1 == p,
            Err(x) => r is Err && view_of(r->Err_0) == x,
        }
    } else if datatype is Alias && token_at(tokens, pos) is Some && is_symbol(tokens[pos], "["@) {
        match index_res(tokens, pos) {
            Err(x) => r is Err && view_of(r->Err_0) == x,
            Ok((i, p1)) => match symbol_res(tokens, p1, "="@) {
                Err(x) => r is Err && view_of(r->Err_0) == x,
                Ok(p2) => match assignment_res(tokens, p2, ";") {
                    Ok((v, p)) => r is Ok && r->Ok_0.0 is Assignment && assignment_matches(r->Ok_0.0->Assignment_0, datatype->Alias_0, i, v)
                        && r->Ok_0.1 == p,
                    Err(x) => r is Err && view_of(r->Err_0) == x,
                },
            },
        }
    } else {
        match identifier_res(tokens, pos) {
            Err(x) => r is Err && view_of(r->Err_0) == x,
            Ok((name, size, p)) => if size != 0 && datatype is Alias {
                r is Err && view_of(r->Err_0) == alias_array_error(name)
            } else {
                let dt = if size != 0 { DataType::Type(Compound(datatype->Type_0.0, size)) } else { datatype };
                if token_at(tokens, p) is Some && is_symbol(tokens[p], "("@) {
                    if pos < p + 1 {
                        exists|f: Result<(Function, usize), SyntaxError>| #[trigger] seen(f) && function_is(tokens, p + 1, dt, name, f)
                            && match f {
                            Ok((func, q)) => r is Ok && r->Ok_0.0 == Statement::Function(func) && r->Ok_0.1 == q,
                            Err(e) => r == Err::<(Statement, usize), SyntaxError>(e),
                        }
                    } else {
                        false
                    }
                } else {
                    match variable_res(tokens, p) {
                        Ok((o, q)) => r is Ok && r->Ok_0.0 is Variable && variable_matches(r->Ok_0.0->Variable_0, dt, name, o)
                            && r->Ok_0.1 == q,
                        Err(x) => r is Err && view_of(r->Err_0) == x,
                    }
                }
            },
        }
    }
}

/// `r` is the result of parsing `) { body }` at `pos`, after a function's
/// name and `(`.
pub open spec fn function_is(tokens: Seq<Token>, pos: int, datatype: DataType, name: String, r: Result<(Function, usize), SyntaxError>) -> bool
    decreases tokens.len() - pos, 0nat,
{
    match symbol_res(tokens, pos, ")"@) {
        Err(x) => r is Err && view_of(r->Err_0) == (x.0 + " because function arguments are not supported"@, x.1),
        Ok(p1) => match symbol_res(tokens, p1, "{"@) {
            Err(x) => r is Err && view_of(r->Err_0) == x,
            Ok(p2) => if pos < p2 {
                exists|b: Result<(Vec<Statement>, usize), SyntaxError>| #[trigger] seen(b) && block_is(tokens, p2, Some("}"@), b)
                    && match b {
                    Ok((body, q)) => r is Ok && r->Ok_0.0 == (Function { datatype, name, body }) && r->Ok_0.1 == q,
                    Err(e) => r == Err::<(Function, usize), SyntaxError>(e),
                }
            } else {
                false
            },
        },
    }
}

/// `r` is the result of parsing `(decl; condition; name = value) { body }`
/// at `pos`, after `for`.
pub open spec fn repetition_is(tokens: Seq<Token>, pos: int, r: Result<(Loop, usize), SyntaxError>) -> bool
    decreases tokens.len() - pos, 0nat,
{
    match symbol_res(tokens, pos, "("@) {
        Err(x) => r is Err && view_of(r->Err_0) == x,
        Ok(p1) => match datatype_res(tokens, p1) {
            Err(x) => r is Err && view_of(r->Err_0) == x,
            Ok((d, p2)) => match identifier_res(tokens, p2) {
                Err(x) => r is Err && view_of(r->Err_0) == x,
                Ok((name, _, p3)) => match variable_res(tokens, p3) {
                    Err(x) => r is Err && view_of(r->Err_0) == x,
                    Ok((init, p4)) => match expression_res(tokens, p4, seq![";"]) {
                        Err(x) => r is Err && view_of(r->Err_0) == x,
                        Ok((condition, _, p5)) => match identifier_res(tokens, p5) {
                            Err(x) => r is Err && view_of(r->Err_0) == x,
                            Ok((id, i, p6)) => match symbol_res(tokens, p6, "="@) {
                                Err(x) => r is Err && view_of(r->Err_0) == x,
                                Ok(p7) => match assignment_res(tokens, p7, ")") {
                                    Err(x) => r is Err && view_of(r->Err_0) == x,
                                    Ok((increment, p8)) => match symbol_res(tokens, p8, "{"@) {
                                        Err(x) => r is Err && view_of(r->Err_0) == x,
                                        Ok(p9) => if pos < p9 {
                                            exists|b: Result<(Vec<Statement>, usize), SyntaxError>| #[trigger] seen(b)
                                                && block_is(tokens, p9, Some("}"@), b) && match b {
                                                Ok((body, q)) => r is Ok && variable_matches(r->Ok_0.0.initialization, d, name, init)
                                                    && r->Ok_0.0.condition == condition
                                                    && assignment_matches(r->Ok_0.0.increment, id, i, increment)
                                                    && r->Ok_0.0.body == body && r->Ok_0.1 == q,
                                                Err(e) => r == Err::<(Loop, usize), SyntaxError>(e),
                                            }
                                        } else {
                                            false
                                        },
                                    },
                                },
                            },
                        },
                    },
                },
            },
        },
    }
}

/// `r` is the result of parsing statements from `pos` on, after `acc`, up to
/// a token where no statement starts: the block's terminator (consumed), or
/// the end of the input for the outermost block.
pub open spec fn block_is(tokens: Seq<Token>, pos: int, terminator: Option<Seq<char>>, r: Result<(Vec<Statement>, usize), SyntaxError>) -> bool
    decreases tokens.len() - pos, 2nat,
{
    block_rest(tokens, pos, terminator, Seq::empty(), r)
}

pub open spec fn block_rest(tokens: Seq<Token>, pos: int, terminator: Option<Seq<char>>, acc: Seq<Statement>, r: Result<(Vec<Statement>, usize), SyntaxError>) -> bool
    decreases tokens.len() - pos, 1nat,
{
    exists|s: Result<(Statement, usize), SyntaxError>| #[trigger] seen(s) && statement_is(tokens, pos, s) && match s {
        Ok((st, p)) => if pos < p <= tokens.len() {
            block_rest(tokens, p as int, terminator, acc.push(st), r)
        } else {
            false
        },
        Err(e) => if ends_block(view_of(e), terminator) {
            match terminator {
                None => r is Ok && r->Ok_0.0@ == acc && r->Ok_0.1 == pos,
                Some(end) => match symbol_res(tokens, pos, end) {
                    Ok(q) => r is Ok && r->Ok_0.0@ == acc && r->Ok_0.1 == q,
                    Err(x) => r is Err && view_of(r->Err_0) == x,
                },
            }
        } else {
            r == Err::<(Vec<Statement>, usize), SyntaxError>(e)
        },
    }
}

/// A parsed expression ends just after its terminator.
proof fn lemma_parsed_terminator(tokens: Seq<Token>, pos: int, terminators: Seq<&str>)
    requires
        parse_expression(tokens, pos, terminators) is Ok,
    ensures
        ({
            let (e, t, p) = parse_expression(tokens, pos, terminators)->Ok_0;
            pos < p <= tokens.len() && t == tokens[p - 1]
        }),
{
    lemma_shunt_terminator(tokens, pos, Seq::empty(), Seq::empty(), false, terminators);
}

proof fn lemma_shunt_terminator(tokens: Seq<Token>, pos: int, out: Seq<Expression>, stack: Seq<crate::types::Operator>, complete: bool, terminators: Seq<&str>)
    requires
        crate::expression::shunt(tokens, pos, out, stack, complete, terminators) is Ok,
    ensures
        ({
            let (e, t, p) = crate::expression::shunt(tokens, pos, out, stack, complete, terminators)->Ok_0;
            pos < p <= tokens.len() && t == tokens[p - 1]
        }),
    decreases tokens.len() - pos,
{
    match crate::expression::term(tokens, pos, out, stack, complete) {
        crate::expression::Step::Advance(o, st, c, p) => {
            if pos < p <= tokens.len() {
                lemma_shunt_terminator(tokens, p, o, st, c, terminators);
            }
        },
        _ => {},
    }
}

pub open spec fn opt_view(o: Option<&str>) -> Option<Seq<char>> {
    match o {
        Some(t) => Some(t@),
        None => None,
    }
}

/// Parses the right-hand side of `name[index] = ...`, closed by
/// `terminator`: a brace list or one expression.
pub fn assignment(tokens: &Vec<Token>, pos: usize, name: &String, index: usize, terminator: &str) -> (r: Result<(Assignment, usize), SyntaxError>)
    requires
        pos <= tokens@.len(),
    ensures
        r is Ok ==> pos < r->Ok_0.1 <= tokens@.len(),
        match assignment_res(tokens@, pos as int, terminator) {
            Ok((v, p)) => r is Ok && assignment_matches(r->Ok_0.0, *name, index, v) && r->Ok_0.1 == p,
            Err(x) => r is Err && view_of(r->Err_0) == x,
        },
{
    if pos < tokens.len() && token_is_symbol(&tokens[pos], "{") {
        let (values, p) = initializer(tokens, pos, terminator)?;
        Ok((Assignment { name: name.clone(), index, value: Initializer::List(values) }, p))
    } else {
        let array = [terminator];
        let terminators = array.as_slice();
        proof {
            assert(terminators@ =~= seq![terminator]);
        }
        let (e, _t, p) = expression(tokens, pos, terminators)?;
        proof {
            lemma_parsed_terminator(tokens@, pos as int, seq![terminator]);
        }
        Ok((Assignment { name: name.clone(), index, value: Initializer::Expression(e) }, p))
    }
}

/// Parses `{ e, e, ... }` followed by `terminator`.
fn initializer(tokens: &Vec<Token>, pos: usize, terminator: &str) -> (r: Result<(Vec<Expression>, usize), SyntaxError>)
    requires
        pos <= tokens@.len(),
    ensures
        r is Ok ==> pos < r->Ok_0.1 <= tokens@.len(),
        match list_res(tokens@, pos as int, terminator@) {
            Ok((v, p)) => r is Ok && r->Ok_0.0@ == v && r->Ok_0.1 == p,
            Err(x) => r is Err && view_of(r->Err_0) == x,
        },
{
    let mut p = symbol(tokens, pos, "{")?;
    let mut elements: Vec<Expression> = Vec::new();
    let array = [",", "}"];
    let terminators = array.as_slice();
    proof {
        assert(terminators@ =~= seq![",", "}"]);
    }
    loop
        invariant
            pos < p <= tokens@.len(),
            terminators@ == seq![",", "}"],
            elements_res(tokens@, p as int, elements@, terminator@) == list_res(tokens@, pos as int, terminator@),
        decreases tokens@.len() - p,
    {
        let (e, t, next) = expression(tokens, p, terminators)?;
        proof {
            lemma_parsed_terminator(tokens@, p as int, terminators@);
        }
        let closing = match &t {
            Token::Symbol(x) => text_is(x, "}"),
            _ => false,
        };
        if closing {
            let q = symbol(tokens, next, terminator)?;
            elements.push(e);
            return Ok((elements, q));
        }
        elements.push(e);
        p = next;
    }
}

/// Parses `= initializer ;` or `;` after a variable's name.
pub fn variable(tokens: &Vec<Token>, pos: usize, datatype: DataType, name: String) -> (r: Result<(Variable, usize), SyntaxError>)
    requires
        pos <= tokens@.len(),
    ensures
        r is Ok ==> pos < r->Ok_0.1 <= tokens@.len(),
        match variable_res(tokens@, pos as int) {
            Ok((o, p)) => r is Ok && variable_matches(r->Ok_0.0, datatype, name, o) && r->Ok_0.1 == p,
            Err(x) => r is Err && view_of(r->Err_0) == x,
        },
{
    if pos < tokens.len() && token_is_symbol(&tokens[pos], "=") {
        let (a, p) = assignment(tokens, pos + 1, &name, 0, ";")?;
        Ok((Variable { datatype, name, assignment: Some(a) }, p))
    } else {
        let p = symbol(tokens, pos, ";")?;
        Ok((Variable { datatype, name, assignment: None }, p))
    }
}

/// Parses `) { body }` after a function's name and `(`.
pub fn function(tokens: &Vec<Token>, pos: usize, datatype: DataType, name: String) -> (r: Result<(Function, usize), SyntaxError>)
    requires
        pos <= tokens@.len(),
    ensures
        r is Ok ==> pos < r->Ok_0.1 <= tokens@.len(),
        function_is(tokens@, pos as int, datatype, name, r),
    decreases tokens@.len() - pos, 0nat,
{
    let p = match symbol(tokens, pos, ")") {
        Ok(p) => p,
        Err(e) => {
            let mut expected = e.expected;
            expected.append(" because function arguments are not supported");
            return Err(SyntaxError { expected, found: e.found });
        },
    };
    let p = symbol(tokens, p, "{")?;
    let b = block(tokens, p, Some("}"));
    proof {
        assert(seen(b));
    }
    match b {
        Ok((body, q)) => Ok((Function { datatype, name, body }, q)),
        Err(e) => Err(e),
    }
}

/// Parses what follows a leading type or name: an assignment when an alias
/// name is followed by `=` or `[`, else a declaration of a variable or of a
/// function.
pub fn declaration(tokens: &Vec<Token>, pos: usize, datatype: DataType) -> (r: Result<(Statement, usize), SyntaxError>)
    requires
        pos <= tokens@.len(),
    ensures
        r is Ok ==> pos < r->Ok_0.1 <= tokens@.len(),
        declaration_is(tokens@, pos as int, datatype, r),
    decreases tokens@.len() - pos, 0nat,
{
    match &datatype {
        DataType::Alias(alias) => {
            if pos < tokens.len() && token_is_symbol(&tokens[pos], "=") {
                let (a, p) = assignment(tokens, pos + 1, alias, 0, ";")?;
                return Ok((Statement::Assignment(a), p));
            }
            if pos < tokens.len() && token_is_symbol(&tokens[pos], "[") {
                let (i, p) = index(tokens, pos)?;
                let p = symbol(tokens, p, "=")?;
                let (a, p) = assignment(tokens, p, alias, i, ";")?;
                return Ok((Statement::Assignment(a), p));
            }
        },
        _ => {},
    }
    let (name, size, p) = identifier(tokens, pos)?;
    let declared = if size != 0 {
        match datatype {
            DataType::Type(c) => DataType::Type(Compound(c.0, size)),
            DataType::Alias(_) => {
                return Err(SyntaxError {
                    expected: String::from_str("no index because arrays of aliases are not supported"),
                    found: Some(Token::Identifier(name)),
                });
            },
        }
    } else {
        datatype
    };
    if p < tokens.len() && token_is_symbol(&tokens[p], "(") {
        let f = function(tokens, p + 1, declared, name);
        proof {
            assert(seen(f));
        }
        match f {
            Ok((func, q)) => Ok((Statement::Function(func), q)),
            Err(e) => Err(e),
        }
    } else {
        let (v, q) = variable(tokens, p, declared, name)?;
        Ok((Statement::Variable(v), q))
    }
}

/// Parses `for (decl; condition; name = value) { body }` after `for`.
pub fn repetition(tokens: &Vec<Token>, pos: usize) -> (r: Result<(Loop, usize), SyntaxError>)
    requires
        pos <= tokens@.len(),
    ensures
        r is Ok ==> pos < r->Ok_0.1 <= tokens@.len(),
        repetition_is(tokens@, pos as int, r),
    decreases tokens@.len() - pos, 0nat,
{
    let p = symbol(tokens, pos, "(")?;
    let (d, p) = datatype(tokens, p)?;
    let (name, _size, p) = identifier(tokens, p)?;
    let (initialization, p) = variable(tokens, p, d, name)?;
    let array = [";"];
    let terminators = array.as_slice();
    proof {
        assert(terminators@ =~= seq![";"]);
    }
    let start = p;
    let (condition, _t, p) = expression(tokens, p, terminators)?;
    proof {
        lemma_parsed_terminator(tokens@, start as int, terminators@);
    }
    let (id, i, p) = identifier(tokens, p)?;
    let p = symbol(tokens, p, "=")?;
    let (increment, p) = assignment(tokens, p, &id, i, ")")?;
    let p = symbol(tokens, p, "{")?;
    let b = block(tokens, p, Some("}"));
    proof {
        assert(seen(b));
    }
    match b {
        Ok((body, q)) => Ok((Loop { initialization, condition, increment, body }, q)),
        Err(e) => Err(e),
    }
}

/// Parses one statement at `pos`.
pub fn statement(tokens: &Vec<Token>, pos: usize) -> (r: Result<(Statement, usize), SyntaxError>)
    requires
        pos <= tokens@.len(),
    ensures
        r is Ok ==> pos < r->Ok_0.1 <= tokens@.len(),
        statement_is(tokens@, pos as int, r),
    decreases tokens@.len() - pos, 0nat,
{
    if pos >= tokens.len() {
        return Err(error("statement", tokens, pos));
    }
    proof {
        reveal_strlit("typedef");
        reveal_strlit("return");
        reveal_strlit("for");
        reveal_strlit(";");
        assert("typedef"@.len() == 7);
        assert("return"@.len() == 6);
        assert("for"@.len() == 3);
        reveal_strlit("int");
        reveal_strlit("float");
        reveal_strlit("short");
        reveal_strlit("long");
        reveal_strlit("char");
        assert("int"@[0] != "for"@[0]);
        assert("float"@.len() != 3);
        assert("short"@.len() != 3);
        assert("long"@.len() != 3);
        assert("char"@.len() != 3);
    }
    let t = &tokens[pos];
    if keyword_is(t, "typedef") {
        let (ty, p) = typedef(tokens, pos + 1)?;
        proof {
            lemma_typedef_progress(tokens@, pos + 1);
        }
        return Ok((Statement::Type(ty), p));
    }
    if keyword_is(t, "return") {
        let array = [";"];
        let terminators = array.as_slice();
        proof {
            assert(terminators@ =~= seq![";"]);
        }
        let (e, _t, p) = expression(tokens, pos + 1, terminators)?;
        proof {
            lemma_parsed_terminator(tokens@, pos + 1, terminators@);
        }
        return Ok((Statement::Return(e), p));
    }
    match primitive_of(t) {
        Some(primitive) => {
            return declaration(tokens, pos + 1, DataType::Type(Compound(primitive, 1)));
        },
        None => {},
    }
    match t {
        Token::Identifier(name) => {
            return declaration(tokens, pos + 1, DataType::Alias(name.clone()));
        },
        _ => {},
    }
    if keyword_is(t, "for") {
        let l = repetition(tokens, pos + 1);
        proof {
            assert(seen(l));
        }
        return match l {
            Ok((lp, p)) => Ok((Statement::Loop(lp), p)),
            Err(e) => Err(e),
        };
    }
    if token_is_symbol(t, ";") {
        return Ok((Statement::Noop, pos + 1));
    }
    Err(error("statement", tokens, pos))
}

proof fn lemma_typedef_progress(tokens: Seq<Token>, pos: int)
    requires
        typedef_res(tokens, pos) is Ok,
    ensures
        pos < typedef_res(tokens, pos)->Ok_0.1 <= tokens.len(),
{
}

fn block_rest_from(tokens: &Vec<Token>, pos: usize, terminator: Option<&str>, acc: Vec<Statement>) -> (r: Result<(Vec<Statement>, usize), SyntaxError>)
    requires
        pos <= tokens@.len(),
    ensures
        r is Ok ==> pos <= r->Ok_0.1 <= tokens@.len(),
        r is Ok && terminator is Some ==> pos < r->Ok_0.1,
        block_rest(tokens@, pos as int, opt_view(terminator), acc@, r),
    decreases tokens@.len() - pos, 1nat,
{
    let s = statement(tokens, pos);
    proof {
        assert(seen(s));
    }
    match s {
        Ok((st, p)) => {
            let mut acc = acc;
            acc.push(st);
            block_rest_from(tokens, p, terminator, acc)
        },
        Err(e) => {
            let ends = text_is(&e.expected, "statement") && match (&e.found, terminator) {
                (None, None) => true,
                (Some(found), Some(end)) => token_is_symbol(found, end),
                _ => false,
            };
            if !ends {
                return Err(e);
            }
            match terminator {
                Some(end) => {
                    let q = symbol(tokens, pos, end)?;
                    Ok((acc, q))
                },
                None => Ok((acc, pos)),
            }
        },
    }
}

/// Parses statements until one cannot start; that token must be the
/// terminator symbol (or the end of the input when there is none), which is
/// then consumed.
pub fn block(tokens: &Vec<Token>, pos: usize, terminator: Option<&str>) -> (r: Result<(Vec<Statement>, usize), SyntaxError>)
    requires
        pos <= tokens@.len(),
    ensures
        r is Ok ==> pos <= r->Ok_0.1 <= tokens@.len(),
        r is Ok && terminator is Some ==> pos < r->Ok_0.1,
        block_is(tokens@, pos as int, opt_view(terminator), r),
    decreases tokens@.len() - pos, 2nat,
{
    let acc: Vec<Statement> = Vec::new();
    assert(acc@ =~= Seq::<Statement>::empty());
    block_rest_from(tokens, pos, terminator, acc)
}

/// Parses a whole token sequence into its top-level statements. Running
/// out of tokens where a statement could start ends the sequence cleanly.
pub fn analyze(tokens: &Vec<Token>) -> (r: Result<Vec<Statement>, SyntaxError>)
    ensures
        exists|b: Result<(Vec<Statement>, usize), SyntaxError>| #[trigger] seen(b) && block_is(tokens@, 0, None, b)
            && match b {
            Ok((v, _)) => r == Ok::<Vec<Statement>, SyntaxError>(v),
            Err(e) => r == Err::<Vec<Statement>, SyntaxError>(e),
        },
{
    let b = block(tokens, 0, None);
    proof {
        assert(seen(b));
    }
    match b {
        Ok((statements, _p)) => Ok(statements),
        Err(e) => Err(e),
    }
}

} // verus!
