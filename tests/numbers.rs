use arm_compiler::arm::{as_register, ImmediateCompat};
use arm_compiler::ieee::{float_can_be_immediate, float_to_integer, integer_to_float_bits, push_float};
use arm_compiler::ir::Operation;
use arm_compiler::text::{push_decimal, push_signed};
use arm_compiler::types::{BinaryOperator, Compound, Data, DataType, Primitive};

fn float_text(x: f32) -> String {
    let mut s = String::new();
    push_float(&mut s, x.to_bits());
    s
}

#[test]
fn decimal_text() {
    let mut s = String::new();
    push_decimal(&mut s, 1234567890);
    assert_eq!(s, "1234567890");
    let mut s = String::new();
    push_signed(&mut s, i64::MIN);
    assert_eq!(s, "-9223372036854775808");
    let mut s = String::from("x");
    push_signed(&mut s, 0);
    assert_eq!(s, "x0");
}

#[test]
fn integer_immediates() {
    assert!(65536i64.can_be_immediate());
    assert!((-65536i64).can_be_immediate());
    assert!(!65537i64.can_be_immediate());
    assert_eq!(70000i64.represent(), "=70000");
    assert_eq!((-5i64).represent(), "-5");
    assert_eq!(Data::Byte(-3).represent(), "-3");
    assert_eq!(Data::Long(1 << 40).represent(), "=1099511627776");
}

#[test]
fn float_immediates() {
    assert!(float_can_be_immediate(0.0f32.to_bits()));
    assert!(float_can_be_immediate((-0.0f32).to_bits()));
    assert!(float_can_be_immediate(3.0f32.to_bits()));
    assert!(float_can_be_immediate(0.125f32.to_bits()));
    assert!(float_can_be_immediate(31.0f32.to_bits()));
    assert!(!float_can_be_immediate(32.0f32.to_bits()));
    assert!(!float_can_be_immediate(0.1f32.to_bits()));
    assert!(!float_can_be_immediate(0.0625f32.to_bits()));
}

#[test]
fn float_texts_match_scientific_notation() {
    for x in [3.0f32, 0.125, 1.25, -2.5, 31.0, 0.1875, 17.0, 0.0, -0.0, 4.0] {
        assert_eq!(float_text(x), format!("{:e}", x));
    }
    assert_eq!(float_text(0.1), format!("={}", 0.1f32.to_bits()));
    assert_eq!(Data::Float(1.5f32.to_bits()).represent(), "1.5e0");
}

#[test]
fn float_truncation() {
    for x in [2.5f32, -2.5, 0.75, -0.75, 1e10, -1e10, 16777216.0, 123456.789, 1e30, -1e30] {
        assert_eq!(float_to_integer(x.to_bits()), x as i64);
    }
    assert_eq!(float_to_integer(f32::NAN.to_bits()), 0);
    assert_eq!(float_to_integer(f32::INFINITY.to_bits()), i64::MAX);
    assert_eq!(float_to_integer(f32::NEG_INFINITY.to_bits()), i64::MIN);
}

#[test]
fn integer_to_float_rounding() {
    for x in [0i64, 1, -1, 3, 16777216, 16777217, 16777219, -33554435, i64::MAX, i64::MIN, 123456789] {
        assert_eq!(integer_to_float_bits(x), (x as f32).to_bits());
    }
}

#[test]
fn sizes_and_types() {
    assert_eq!(Primitive::Long.size(), 8);
    assert_eq!(Primitive::Byte.size(), 1);
    assert!(Primitive::Float.floating());
    assert!(!Primitive::Int.floating());
    assert_eq!(Compound(Primitive::Short, 3).size(), Some(6));
    assert_eq!(Compound(Primitive::Long, usize::MAX).size(), None);
    assert_eq!(DataType::Type(Compound(Primitive::Int, 2)).size(), Some(8));
    assert_eq!(DataType::Alias("t".to_string()).size(), None);
    assert_eq!(DataType::Type(Compound(Primitive::Float, 1)).primitive(), Some(Primitive::Float));
    assert!(DataType::Type(Compound(Primitive::Float, 1)).floating());
}

#[test]
fn precedence_table() {
    assert_eq!(BinaryOperator::Multiplication.precedence(), 3);
    assert_eq!(BinaryOperator::Subtraction.precedence(), 4);
    assert_eq!(BinaryOperator::RightShift.precedence(), 5);
    assert_eq!(BinaryOperator::LessEqual.precedence(), 6);
    assert_eq!(BinaryOperator::NotEqual.precedence(), 7);
    assert_eq!(BinaryOperator::BitwiseAnd.precedence(), 8);
    assert_eq!(BinaryOperator::BitwiseXor.precedence(), 9);
    assert_eq!(BinaryOperator::BitwiseOr.precedence(), 10);
    assert_eq!(BinaryOperator::And.precedence(), 11);
    assert_eq!(BinaryOperator::Or.precedence(), 12);
}

#[test]
fn mnemonics() {
    assert_eq!(Operation::Add.instruction(Some(Primitive::Float)).unwrap(), "fadd");
    assert_eq!(Operation::Div.instruction(Some(Primitive::Long)).unwrap(), "sdiv");
    assert_eq!(Operation::Div.instruction(Some(Primitive::Float)).unwrap(), "fdiv");
    assert_eq!(Operation::Ldr.instruction(Some(Primitive::Short)).unwrap(), "ldrsh");
    assert_eq!(Operation::Str.instruction(Some(Primitive::Short)).unwrap(), "strh");
    assert_eq!(Operation::Str.instruction(Some(Primitive::Byte)).unwrap(), "strb");
    assert_eq!(Operation::BEq.instruction(None).unwrap(), "b.eq");
    assert!(Operation::Mov.instruction(None).is_none());
    assert_eq!(Operation::Str.arity(), (2, 0, true));
    assert_eq!(Operation::Neg.arity(), (1, 1, false));
    assert_eq!(as_register(Primitive::Long), "x");
    assert_eq!(as_register(Primitive::Float), "s");
    assert_eq!(as_register(Primitive::Short), "w");
}

use arm_compiler::lexer::{to_token, tokenize, Lexeme};
use arm_compiler::types::{Literal, Token};

fn kinds(source: &str) -> Vec<String> {
    tokenize(source)
        .unwrap()
        .iter()
        .map(|l| match l {
            Lexeme::Token(Token::Keyword(x)) => format!("k:{x}"),
            Lexeme::Token(Token::Symbol(x)) => format!("s:{x}"),
            Lexeme::Token(Token::Identifier(x)) => format!("i:{x}"),
            Lexeme::Token(Token::Data(Literal::Integer(v), _)) => format!("n:{v}"),
            Lexeme::Token(Token::Data(Literal::Long(v), _)) => format!("l:{v}"),
            Lexeme::Token(Token::Data(Literal::Character(c), _)) => format!("c:{c}"),
            Lexeme::Token(Token::Data(Literal::Floating(_), x)) => format!("f:{x}"),
            Lexeme::Float(x) => format!("f:{x}"),
            Lexeme::Comment(x) => format!("#:{x}"),
        })
        .collect()
}

#[test]
fn lexing_a_program() {
    assert_eq!(
        kinds("int main() { // entry\n  return x[2] <= 3.5 && 'a' != 5000000000; /* done */ }"),
        vec![
            "k:int", "i:main", "s:(", "s:)", "s:{", "#:// entry", "k:return", "i:x", "s:[", "n:2", "s:]",
            "s:<=", "f:3.5", "s:&&", "c:a", "s:!=", "l:5000000000", "s:;", "#:/* done */", "s:}",
        ]
    );
}

#[test]
fn lexeme_classes() {
    assert!(matches!(to_token("typedef".to_string()), Lexeme::Token(Token::Keyword(_))));
    assert!(matches!(to_token("<<".to_string()), Lexeme::Token(Token::Symbol(_))));
    assert!(matches!(to_token("2147483647".to_string()), Lexeme::Token(Token::Data(Literal::Integer(2147483647), _))));
    assert!(matches!(to_token("2147483648".to_string()), Lexeme::Token(Token::Data(Literal::Long(2147483648), _))));
    assert!(matches!(to_token("99999999999999999999".to_string()), Lexeme::Float(_)));
    assert!(matches!(to_token("7.".to_string()), Lexeme::Float(_)));
    assert!(matches!(to_token("7x".to_string()), Lexeme::Token(Token::Identifier(_))));
    assert!(matches!(to_token("'z'".to_string()), Lexeme::Token(Token::Data(Literal::Character('z'), _))));
}
