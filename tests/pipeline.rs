use arm_compiler::assembly::{Part, Registers};
use arm_compiler::error::AsmFault;
use arm_compiler::error::{Fault, SemanticError};
use arm_compiler::ir::{Condition, Instruction, Operand, Operation};
use arm_compiler::parser::analyze;
use arm_compiler::program::Program;
use arm_compiler::translator::translate_program;
use arm_compiler::types::{
    BinaryOperator, Compound, Data, Expression, Literal, Primitive, Statement, Token, UnaryOperator,
    Value,
};

fn kw(s: &str) -> Token {
    Token::Keyword(s.to_string())
}

fn sym(s: &str) -> Token {
    Token::Symbol(s.to_string())
}

fn id(s: &str) -> Token {
    Token::Identifier(s.to_string())
}

fn num(n: i32) -> Token {
    Token::Data(Literal::Integer(n), n.to_string())
}

fn float(x: f32) -> Token {
    Token::Data(Literal::Floating(x.to_bits()), x.to_string())
}

/// `int main() { <body> }`
fn main_of(body: Vec<Token>) -> Vec<Token> {
    let mut tokens = vec![kw("int"), id("main"), sym("("), sym(")"), sym("{")];
    tokens.extend(body);
    tokens.push(sym("}"));
    tokens
}

fn translate(tokens: &Vec<Token>) -> Result<Program, SemanticError> {
    let statements = analyze(tokens).ok().expect("parses");
    translate_program(&statements)
}

fn operations(program: &Program) -> Vec<Operation> {
    program.instructions.iter().map(|i| i.operation).collect()
}

fn is_address(o: &Operand, a: usize) -> bool {
    matches!(o, Operand::Address(x) if *x == a)
}

#[test]
fn return_zero() {
    let tokens = main_of(vec![kw("return"), num(0), sym(";")]);
    let program = translate(&tokens).ok().unwrap();
    assert_eq!(program.instructions.len(), 2);
    let first: &Instruction = &program.instructions[0];
    assert_eq!(first.operation, Operation::Mov);
    assert!(matches!(first.operand1, Operand::Temp));
    assert!(matches!(first.operand2, Operand::Data(Data::Integer(0))));
    assert_eq!(program.instructions[1].operation, Operation::Ret);
    assert!(is_address(&program.instructions[1].operand1, 0));
    assert!(matches!(program.instructions[1].operand2, Operand::Empty));
    let text = program.assemble().ok().unwrap();
    assert_eq!(text, ".section __TEXT,__text\n.global main\nmain:\n  sub sp, sp, 0\n  mov w0, 0\n  add sp, sp, 0\n  ret");
}

#[test]
fn multiplication_before_addition() {
    let tokens = main_of(vec![kw("return"), num(2), sym("+"), num(3), sym("*"), num(4), sym(";")]);
    let program = translate(&tokens).ok().unwrap();
    assert_eq!(
        operations(&program),
        vec![Operation::Mov, Operation::Mov, Operation::Mov, Operation::Mul, Operation::Add, Operation::Ret]
    );
    assert!(is_address(&program.instructions[3].operand1, 1));
    assert!(is_address(&program.instructions[3].operand2, 2));
    assert!(is_address(&program.instructions[4].operand1, 0));
    assert!(is_address(&program.instructions[4].operand2, 3));
    let text = program.assemble().ok().unwrap();
    assert!(text.contains("  mul w1, w1, w2\n  add w0, w0, w1\n"));
}

#[test]
fn global_array_through_alias() {
    let tokens = vec![
        kw("typedef"), kw("int"), id("myint"), sym("["), num(3), sym("]"), sym(";"),
        id("myint"), id("xs"), sym("="), sym("{"), num(10), sym(","), num(20), sym(","), num(30), sym("}"), sym(";"),
        kw("int"), id("main"), sym("("), sym(")"), sym("{"),
        kw("return"), id("xs"), sym("["), num(1), sym("]"), sym(";"),
        sym("}"),
    ];
    let program = translate(&tokens).ok().unwrap();
    assert_eq!(program.globals.len(), 1);
    let xs = &program.globals[0];
    assert_eq!(xs.name, "xs_0");
    assert_eq!(xs.compound, Compound(Primitive::Int, 3));
    assert_eq!(xs.values, vec![Data::Integer(10), Data::Integer(20), Data::Integer(30)]);
    assert_eq!(program.instructions[0].operation, Operation::Ldg);
    assert!(matches!(&program.instructions[0].operand2, Operand::Identifier(k, 1) if k == "xs_0"));
    let text = program.assemble().ok().unwrap();
    assert!(text.starts_with(".section __DATA,__data\nxs_0:\n  .word 10\n  .word 20\n  .word 30\n\n.section __TEXT,__text\n"));
    assert!(text.contains("  adrp x1, xs_0@GOTPAGE\n  ldr x1, [x1, xs_0@GOTPAGEOFF]\n  ldr w0, [x1, 4]\n"));
}

#[test]
fn counting_loop() {
    let tokens = main_of(vec![
        kw("int"), id("i"), sym("="), num(0), sym(";"),
        kw("for"), sym("("), kw("int"), id("j"), sym("="), num(0), sym(";"),
        id("j"), sym("<"), num(5), sym(";"),
        id("j"), sym("="), id("j"), sym("+"), num(1), sym(")"),
        sym("{"), id("i"), sym("="), id("i"), sym("+"), id("j"), sym(";"), sym("}"),
        kw("return"), id("i"), sym(";"),
    ]);
    let program = translate(&tokens).ok().unwrap();
    let labels: Vec<&Instruction> = program.instructions.iter().filter(|i| i.operation == Operation::Lbl).collect();
    assert_eq!(labels.len(), 2);
    assert!(matches!(&labels[0].operand1, Operand::Label(l) if l == "loop_start_0"));
    assert!(matches!(&labels[1].operand1, Operand::Label(l) if l == "loop_end_1"));
    let branches: Vec<&Instruction> = program.instructions.iter().filter(|i| i.operation == Operation::BEq).collect();
    assert_eq!(branches.len(), 1);
    assert!(matches!(&branches[0].operand1, Operand::Label(l) if l == "loop_end_1"));
    let names: Vec<&str> = program.locals.iter().map(|l| l.name.as_str()).collect();
    assert_eq!(names, vec!["i_1", "j_2"]);
    let text = program.assemble().ok().unwrap();
    assert!(text.contains("\nloop_start_0:\n"));
    assert!(text.contains("  b.eq loop_end_1\n"));
    assert!(text.contains("  b loop_start_0\nloop_end_1:\n"));
    assert!(text.contains("  sub sp, sp, 16\n"));
}

#[test]
fn float_times_int() {
    let tokens = main_of(vec![
        kw("float"), id("f"), sym("="), float(3.0), sym(";"),
        kw("int"), id("i"), sym("="), num(2), sym(";"),
        kw("return"), id("f"), sym("*"), id("i"), sym(";"),
    ]);
    let program = translate(&tokens).ok().unwrap();
    let ops = operations(&program);
    let mul = ops.iter().position(|o| *o == Operation::Mul).unwrap();
    assert_eq!(ops[mul - 1], Operation::SCvtF);
    assert_eq!(ops[mul + 1], Operation::FCvtZS);
    assert_eq!(ops[mul + 2], Operation::Ret);
    let text = program.assemble().ok().unwrap();
    assert!(text.contains("  fmov s0, 3e0\n"));
    assert!(text.contains("scvtf"));
    assert!(text.contains("fmul"));
    assert!(text.contains("fcvtzs"));
}

#[test]
fn uninitialized_global() {
    let tokens = vec![
        kw("int"), id("x"), sym(";"),
        kw("int"), id("main"), sym("("), sym(")"), sym("{"), kw("return"), id("x"), sym(";"), sym("}"),
    ];
    let error = translate(&tokens).err().unwrap();
    assert_eq!(error.fault, Fault::NonConstantInitializer);
    assert_eq!(error.message, "Top-level variable 'x' must be initialized with a constant value!");
}

#[test]
fn precedence_groups_left() {
    // a - b + c parses as (a - b) + c
    let tokens = vec![num(1), sym("-"), num(2), sym("+"), num(3), sym(";")];
    let (e, end, next) = Expression::from_stream(&tokens, 0, &[";"]).ok().unwrap();
    assert!(matches!(end, Token::Symbol(ref s) if s == ";"));
    assert_eq!(next, 6);
    match e {
        Expression::Binary { op: BinaryOperator::Addition, lhs, .. } => {
            assert!(matches!(*lhs, Expression::Binary { op: BinaryOperator::Subtraction, .. }));
        }
        _ => panic!("expected an addition at the top"),
    }
}

#[test]
fn precedence_groups_right() {
    // 1 | 2 & 3 parses as 1 | (2 & 3)
    let tokens = vec![num(1), sym("|"), num(2), sym("&"), num(3), sym(";")];
    let (e, _, _) = Expression::from_stream(&tokens, 0, &[";"]).ok().unwrap();
    match e {
        Expression::Binary { op: BinaryOperator::BitwiseOr, rhs, .. } => {
            assert!(matches!(*rhs, Expression::Binary { op: BinaryOperator::BitwiseAnd, .. }));
        }
        _ => panic!("expected an or at the top"),
    }
}

#[test]
fn unary_and_parentheses() {
    // -(1 + 2) * !3
    let tokens = vec![
        sym("-"), sym("("), num(1), sym("+"), num(2), sym(")"), sym("*"), sym("!"), num(3), sym(")"),
    ];
    let (e, end, next) = Expression::from_stream(&tokens, 0, &[")"]).ok().unwrap();
    assert!(matches!(end, Token::Symbol(ref s) if s == ")"));
    assert_eq!(next, 10);
    match e {
        Expression::Binary { op: BinaryOperator::Multiplication, lhs, rhs } => {
            assert!(matches!(*lhs, Expression::Unary { op: UnaryOperator::Negation, .. }));
            assert!(matches!(*rhs, Expression::Unary { op: UnaryOperator::Inversion, .. }));
        }
        _ => panic!("expected a multiplication at the top"),
    }
}

#[test]
fn array_element_operand() {
    let tokens = vec![id("xs"), sym("["), num(2), sym("]"), sym(";")];
    let (e, _, next) = Expression::from_stream(&tokens, 0, &[";"]).ok().unwrap();
    assert_eq!(next, 5);
    assert!(matches!(e, Expression::Value(Value::Pointer(ref p)) if p.name == "xs" && p.index == 2));
}

#[test]
fn dangling_operator_is_an_expression_error() {
    let tokens = vec![num(1), sym("+"), sym(";")];
    let error = Expression::from_stream(&tokens, 0, &[";"]).err().unwrap();
    assert_eq!(error.expected, "expression");
    assert!(matches!(error.found, Some(Token::Data(Literal::Integer(1), _))));
}

#[test]
fn stray_token_is_a_term_error() {
    let tokens = vec![num(1), kw("int"), sym(";")];
    let error = Expression::from_stream(&tokens, 0, &[";"]).err().unwrap();
    assert_eq!(error.expected, "expression term");
    assert!(matches!(error.found, Some(Token::Keyword(ref k)) if k == "int"));
}

#[test]
fn statement_error_names_the_token() {
    let tokens = vec![sym("}")];
    let error = analyze(&tokens).err().unwrap();
    assert_eq!(error.expected, "statement");
    assert!(matches!(error.found, Some(Token::Symbol(ref s)) if s == "}"));
    assert_eq!(error.message(), "Expected statement, but found }!");
}

#[test]
fn function_arguments_are_rejected() {
    let tokens = vec![kw("int"), id("main"), sym("("), kw("int"), sym(")"), sym("{"), sym("}")];
    let error = analyze(&tokens).err().unwrap();
    assert_eq!(error.expected, "symbol(\")\") because function arguments are not supported");
    let unfinished = analyze(&vec![kw("typedef")]).err().unwrap();
    assert_eq!(unfinished.message(), "Unexpected end of file! (expected datatype)");
}

#[test]
fn empty_input_is_an_empty_program() {
    let statements = analyze(&Vec::new()).ok().unwrap();
    assert!(statements.is_empty());
}

#[test]
fn noop_statement() {
    let statements = analyze(&vec![sym(";")]).ok().unwrap();
    assert!(matches!(statements[0], Statement::Noop));
}

#[test]
fn undefined_variable() {
    let tokens = main_of(vec![kw("return"), id("y"), sym(";")]);
    let error = translate(&tokens).err().unwrap();
    assert_eq!(error.fault, Fault::UndefinedVariable);
    assert_eq!(error.message, "'y' is not defined!");
}

#[test]
fn undefined_type() {
    let tokens = main_of(vec![id("meters"), id("d"), sym(";")]);
    let error = translate(&tokens).err().unwrap();
    assert_eq!(error.fault, Fault::UndefinedType);
    assert_eq!(error.message, "Type 'meters' is not defined!");
}

#[test]
fn redefinition_in_one_scope() {
    let tokens = main_of(vec![kw("int"), id("a"), sym(";"), kw("long"), id("a"), sym(";")]);
    let error = translate(&tokens).err().unwrap();
    assert_eq!(error.fault, Fault::Redefinition);
}

#[test]
fn shadowing_in_an_inner_scope() {
    let tokens = vec![
        kw("int"), id("a"), sym("="), num(1), sym(";"),
        kw("int"), id("main"), sym("("), sym(")"), sym("{"),
        kw("int"), id("a"), sym("="), num(2), sym(";"),
        kw("return"), id("a"), sym(";"),
        sym("}"),
    ];
    let program = translate(&tokens).ok().unwrap();
    assert_eq!(program.globals[0].name, "a_0");
    assert_eq!(program.locals[0].name, "a_1");
    let ret_load = &program.instructions[program.instructions.len() - 2];
    assert_eq!(ret_load.operation, Operation::Ldr);
    assert!(matches!(&ret_load.operand2, Operand::Identifier(k, 0) if k == "a_1"));
}

#[test]
fn top_level_return() {
    let error = translate(&vec![kw("return"), num(1), sym(";")]).err().unwrap();
    assert_eq!(error.fault, Fault::TopLevelReturn);
}

#[test]
fn top_level_assignment() {
    let tokens = vec![kw("int"), id("a"), sym("="), num(1), sym(";"), id("a"), sym("="), num(2), sym(";")];
    let error = translate(&tokens).err().unwrap();
    assert_eq!(error.fault, Fault::TopLevelAssignment);
}

#[test]
fn top_level_loop() {
    let tokens = vec![
        kw("for"), sym("("), kw("int"), id("j"), sym("="), num(0), sym(";"), id("j"), sym(";"),
        id("j"), sym("="), num(1), sym(")"), sym("{"), sym("}"),
    ];
    let error = translate(&tokens).err().unwrap();
    assert_eq!(error.fault, Fault::TopLevelLoop);
}

#[test]
fn non_constant_list() {
    let tokens = vec![
        kw("int"), id("b"), sym("["), num(2), sym("]"), sym("="), sym("{"), num(1), sym(","), num(1), sym("+"), num(1), sym("}"), sym(";"),
    ];
    let error = translate(&tokens).err().unwrap();
    assert_eq!(error.fault, Fault::NonConstantList);
}

#[test]
fn only_main_is_accepted() {
    let tokens = vec![kw("int"), id("helper"), sym("("), sym(")"), sym("{"), sym("}")];
    let error = translate(&tokens).err().unwrap();
    assert_eq!(error.fault, Fault::UnsupportedFunction);
}

#[test]
fn remainder_lowering() {
    let tokens = main_of(vec![kw("return"), num(7), sym("%"), num(3), sym(";")]);
    let program = translate(&tokens).ok().unwrap();
    assert_eq!(
        operations(&program),
        vec![Operation::Mov, Operation::Mov, Operation::Div, Operation::Mul, Operation::Sub, Operation::Ret]
    );
    assert!(is_address(&program.instructions[3].operand1, 1));
    assert!(is_address(&program.instructions[3].operand2, 2));
    assert!(is_address(&program.instructions[4].operand1, 0));
    assert!(is_address(&program.instructions[4].operand2, 3));
    let text = program.assemble().ok().unwrap();
    assert!(text.contains("sdiv"));
}

#[test]
fn comparison_sets_a_masked_flag() {
    let tokens = main_of(vec![kw("return"), num(1), sym("<"), num(2), sym(";")]);
    let program = translate(&tokens).ok().unwrap();
    assert_eq!(
        operations(&program),
        vec![Operation::Mov, Operation::Mov, Operation::Cmp, Operation::CSet, Operation::And, Operation::Ret]
    );
    assert!(matches!(program.instructions[3].operand1, Operand::Asm(Condition::Lt)));
    assert!(matches!(program.instructions[4].operand2, Operand::Data(Data::Integer(255))));
}

#[test]
fn scoped_names_follow_the_pattern() {
    let tokens = main_of(vec![
        kw("short"), id("s"), sym(";"),
        kw("for"), sym("("), kw("int"), id("k"), sym("="), num(0), sym(";"), id("k"), sym(";"),
        id("k"), sym("="), num(0), sym(")"), sym("{"), kw("long"), id("s"), sym(";"), sym("}"),
    ]);
    let program = translate(&tokens).ok().unwrap();
    let names: Vec<&str> = program.locals.iter().map(|l| l.name.as_str()).collect();
    assert_eq!(names, vec!["s_1", "k_2", "s_2"]);
}

#[test]
fn frame_is_rounded_to_sixteen() {
    let tokens = main_of(vec![
        kw("char"), id("c"), sym(";"), kw("long"), id("l"), sym("["), num(2), sym("]"), sym(";"),
    ]);
    let program = translate(&tokens).ok().unwrap();
    // 1 + 16 bytes of locals
    assert_eq!(program.stack_size(), Some(32));
    let empty = Program::new();
    assert_eq!(empty.stack_size(), Some(0));
}

#[test]
fn assembly_is_repeatable() {
    let tokens = vec![
        kw("int"), id("a"), sym("="), num(1), sym(";"),
        kw("long"), id("b"), sym("="), num(2), sym(";"),
        kw("int"), id("main"), sym("("), sym(")"), sym("{"), kw("return"), id("a"), sym("+"), id("b"), sym(";"), sym("}"),
    ];
    let first = translate(&tokens).ok().unwrap().assemble().ok().unwrap();
    let second = translate(&tokens).ok().unwrap().assemble().ok().unwrap();
    assert_eq!(first, second);
    assert!(first.contains("a_0:\n  .word 1\nb_0:\n  .xword 2\n"));
}

#[test]
fn local_store_and_load() {
    let tokens = main_of(vec![kw("int"), id("x"), sym("="), num(5), sym(";"), kw("return"), id("x"), sym(";")]);
    let program = translate(&tokens).ok().unwrap();
    let text = program.assemble().ok().unwrap();
    assert!(text.ends_with("  mov w0, 5\n  str w0, [sp, 12]\n  ldr w0, [sp, 12]\n  add sp, sp, 16\n  ret"));
}

#[test]
fn byte_and_short_forms() {
    let tokens = main_of(vec![
        kw("char"), id("c"), sym("="), num(1), sym(";"),
        kw("short"), id("h"), sym("="), num(2), sym(";"),
        kw("return"), id("c"), sym("+"), id("h"), sym(";"),
    ]);
    let text = translate(&tokens).ok().unwrap().assemble().ok().unwrap();
    assert!(text.contains("strb"));
    assert!(text.contains("strh"));
    assert!(text.contains("ldrb"));
    assert!(text.contains("ldrsh"));
}

#[test]
fn registers_start_free() {
    let registers = Registers::new(3);
    assert_eq!(registers.slots.len(), 29);
    assert!(registers.slots.iter().all(|s| *s == 0));
    assert_eq!(registers.results, vec![None, None, None]);
}

fn value(n: i32) -> Expression {
    Expression::Value(Value::Data(Data::Integer(n)))
}

fn binary(op: BinaryOperator, lhs: Expression, rhs: Expression) -> Expression {
    Expression::Binary { op, lhs: Box::new(lhs), rhs: Box::new(rhs) }
}

#[test]
fn printed_expression_reads_back() {
    // (1 - 2) - (3 * -4), written with the fewest parentheses
    let expected = binary(
        BinaryOperator::Subtraction,
        binary(BinaryOperator::Subtraction, value(1), value(2)),
        binary(
            BinaryOperator::Multiplication,
            value(3),
            Expression::Unary { op: UnaryOperator::Negation, lhs: Box::new(value(4)) },
        ),
    );
    let tokens = vec![num(1), sym("-"), num(2), sym("-"), num(3), sym("*"), sym("-"), num(4), sym(";")];
    let (parsed, _, _) = Expression::from_stream(&tokens, 0, &[";"]).ok().unwrap();
    assert_eq!(format!("{:?}", parsed), format!("{:?}", expected));
}

#[test]
fn printed_parentheses_read_back() {
    // 1 - (2 - 3) and (1 + 2) * 3 keep their grouping
    let right = binary(
        BinaryOperator::Subtraction,
        value(1),
        binary(BinaryOperator::Subtraction, value(2), value(3)),
    );
    let tokens = vec![num(1), sym("-"), sym("("), num(2), sym("-"), num(3), sym(")"), sym(";")];
    let (parsed, _, _) = Expression::from_stream(&tokens, 0, &[";"]).ok().unwrap();
    assert_eq!(format!("{:?}", parsed), format!("{:?}", right));

    let left = binary(
        BinaryOperator::Multiplication,
        binary(BinaryOperator::Addition, value(1), value(2)),
        value(3),
    );
    let tokens = vec![sym("("), num(1), sym("+"), num(2), sym(")"), sym("*"), num(3), sym(",")];
    let (parsed, end, _) = Expression::from_stream(&tokens, 0, &[",", "}"]).ok().unwrap();
    assert_eq!(format!("{:?}", parsed), format!("{:?}", left));
    assert!(matches!(end, Token::Symbol(ref s) if s == ","));
}

#[test]
fn global_store_keeps_the_stored_register() {
    let tokens = vec![
        kw("int"), id("g"), sym("="), num(1), sym(";"),
        kw("int"), id("main"), sym("("), sym(")"), sym("{"),
        id("g"), sym("="), num(2), sym(";"), kw("return"), id("g"), sym(";"),
        sym("}"),
    ];
    let text = translate(&tokens).ok().unwrap().assemble().ok().unwrap();
    assert!(text.contains("  mov w0, 2\n  adrp x1, g_0@PAGE\n  str w0, [x1, 0]\n"));
    assert!(text.contains("g_0:\n  .word 1\n\n.section __TEXT,__text\n.global main\nmain:\n"));
}

#[test]
fn float_move_of_a_hash_immediate() {
    let program = Program::new();
    let mut registers = Registers::new(1);
    let lines = Operation::Mov
        .assemble(
            &mut registers,
            &program,
            0,
            Some(Primitive::Float),
            &Part::Text("s0".to_string()),
            &Part::Text("#1.5".to_string()),
        )
        .ok()
        .unwrap();
    assert_eq!(lines, vec!["mov w0, #1.5".to_string(), "fmov s0, w0".to_string()]);
}

#[test]
fn running_out_of_registers() {
    // thirty values all read by the last instruction
    let mut body = vec![kw("return")];
    for k in 0..30 {
        if k > 0 {
            body.push(sym("+"));
            body.push(sym("("));
        }
        body.push(num(k));
    }
    for _ in 1..30 {
        body.push(sym(")"));
    }
    body.push(sym(";"));
    let program = translate(&main_of(body)).ok().unwrap();
    let error = program.assemble().err().unwrap();
    assert_eq!(error.fault, AsmFault::OutOfRegisters);
    assert_eq!(error.message, "Compilation impossible! Ran out of registers!");
}

#[test]
fn index_error_names_the_bad_token() {
    let tokens = main_of(vec![id("xs"), sym("["), id("a"), sym("]"), sym("="), num(1), sym(";")]);
    let error = analyze(&tokens).err().unwrap();
    assert_eq!(error.expected, "index");
    assert!(matches!(error.found, Some(Token::Identifier(ref s)) if s == "a"));
}

#[test]
fn failed_loop_at_top_level_changes_nothing() {
    let tokens = vec![
        kw("for"), sym("("), kw("int"), id("j"), sym("="), num(0), sym(";"), id("j"), sym(";"),
        id("j"), sym("="), num(1), sym(")"), sym("{"), sym("}"),
    ];
    let error = translate(&tokens).err().unwrap();
    assert_eq!(error.message, "Loops are not allowed on the top-level!");
    assert_eq!(error.token.as_deref(), Some("j"));
}
