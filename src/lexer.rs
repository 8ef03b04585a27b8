//! Classification of the lexemes of a source text into tokens.
use crate::expression::text_is;
use crate::types::{Literal, Token};
use vstd::prelude::*;

verus! {

/// The lexical grammar, leftmost alternative first: a character literal, a
/// line or block comment, a number with a decimal point, a word, a
/// two-character operator, or any other non-space character.
pub const LEXEME_PATTERN: &'static str = r"'[^']'|//.*|(?s)/\*.*?\*/|\d+\.\d*|\w+|<<|>>|==|!=|<=|>=|&&|\|\||\S";

/// The successive non-overlapping leftmost-first matches of a regular
/// expression in a text.
pub uninterp spec fn regex_matches(pattern: Seq<char>, text: Seq<char>) -> Seq<Seq<char>>;

pub open spec fn texts_of(v: Seq<String>) -> Seq<Seq<char>> {
    v.map_values(|s: String| s@)
}

/// Relies on regex::Regex::new, which compiles the pattern or reports that it
/// cannot, and regex::Regex::find_iter, which yields the successive
/// non-overlapping matches in the text.
#[verifier::external_body]
fn find_all(pattern: &str, text: &str) -> (r: Option<Vec<String>>)
    ensures
        r is Some ==> texts_of(r->Some_0@) == regex_matches(pattern@, text@),
{
    match regex::Regex::new(pattern) {
        Ok(re) => Some(re.find_iter(text).map(|m| m.as_str().to_owned()).collect()),
        Err(_) => None,
    }
}

/// A classified lexeme: a token, a number with a decimal point (whose value
/// the caller reads), or a comment.
#[derive(Debug)]
pub enum Lexeme {
    Token(Token),
    Float(String),
    Comment(String),
}

pub open spec fn is_digit(c: char) -> bool {
    '0' <= c && c <= '9'
}

pub open spec fn all_digits(s: Seq<char>) -> bool {
    s.len() > 0 && forall|i: int| 0 <= i < s.len() ==> is_digit(#[trigger] s[i])
}

/// The value of a string of decimal digits.
pub open spec fn digits_value(s: Seq<char>) -> nat
    decreases s.len(),
{
    if s.len() == 0 {
        0
    } else {
        digits_value(s.drop_last()) * 10 + (s.last() as nat - '0' as nat) as nat
    }
}

/// Digits, a point, and digits again (possibly none).
pub open spec fn float_form(s: Seq<char>) -> bool {
    exists|k: int| 0 < k < s.len() && s[k] == '.' && all_digits(s.subrange(0, k)) && forall|i: int|
        k < i < s.len() ==> is_digit(#[trigger] s[i])
}

pub open spec fn is_keyword_text(s: Seq<char>) -> bool {
    s == "typedef"@ || s == "int"@ || s == "float"@ || s == "short"@ || s == "long"@ || s == "char"@
        || s == "for"@ || s == "return"@
}

pub open spec fn is_symbol_text(s: Seq<char>) -> bool {
    s == "["@ || s == "]"@ || s == "{"@ || s == "}"@ || s == "("@ || s == ")"@ || s == ";"@ || s == "="@
        || s == "+"@ || s == "-"@ || s == "*"@ || s == "/"@ || s == ","@ || s == "%"@ || s == "<"@
        || s == ">"@ || s == "!"@ || s == "&"@ || s == "|"@ || s == "^"@ || s == "<<"@ || s == ">>"@
        || s == "=="@ || s == "!="@ || s == "<="@ || s == ">="@ || s == "&&"@ || s == "||"@
}

pub enum LexemeView {
    Token(Token),
    Float(Seq<char>),
    Comment(Seq<char>),
}

impl View for Lexeme {
    type V = LexemeView;

    open spec fn view(&self) -> LexemeView {
        match self {
            Lexeme::Token(t) => LexemeView::Token(*t),
            Lexeme::Float(s) => LexemeView::Float(s@),
            Lexeme::Comment(s) => LexemeView::Comment(s@),
        }
    }
}

/// What a lexeme is: a keyword, a symbol, an integer (an `int` literal when
/// it fits 32 bits, else a `long` one), a number with a point (or an integer
/// too large for 64 bits), a character literal, a comment, or a name.
pub open spec fn classify(s: Seq<char>, text: String) -> LexemeView {
    if is_keyword_text(s) {
        LexemeView::Token(Token::Keyword(text))
    } else if is_symbol_text(s) {
        LexemeView::Token(Token::Symbol(text))
    } else if all_digits(s) && digits_value(s) <= i64::MAX {
        let v = digits_value(s);
        LexemeView::Token(Token::Data(
            if v <= i32::MAX { Literal::Integer(v as i32) } else { Literal::Long(v as i64) },
            text,
        ))
    } else if all_digits(s) || float_form(s) {
        LexemeView::Float(s)
    } else if s.len() == 3 && s[0] == '\'' && s[2] == '\'' {
        LexemeView::Token(Token::Data(Literal::Character(s[1]), text))
    } else if s.len() >= 2 && s[0] == '/' && (s[1] == '/' || s[1] == '*') {
        LexemeView::Comment(s)
    } else {
        LexemeView::Token(Token::Identifier(text))
    }
}

fn keyword_text(s: &String) -> (r: bool)
    ensures
        r == is_keyword_text(s@),
{
    text_is(s, "typedef") || text_is(s, "int") || text_is(s, "float") || text_is(s, "short") || text_is(
        s,
        "long",
    ) || text_is(s, "char") || text_is(s, "for") || text_is(s, "return")
}

fn symbol_text(s: &String) -> (r: bool)
    ensures
        r == is_symbol_text(s@),
{
    text_is(s, "[") || text_is(s, "]") || text_is(s, "{") || text_is(s, "}") || text_is(s, "(")
        || text_is(s, ")") || text_is(s, ";") || text_is(s, "=") || text_is(s, "+") || text_is(s, "-")
        || text_is(s, "*") || text_is(s, "/") || text_is(s, ",") || text_is(s, "%") || text_is(s, "<")
        || text_is(s, ">") || text_is(s, "!") || text_is(s, "&") || text_is(s, "|") || text_is(s, "^")
        || text_is(s, "<<") || text_is(s, ">>") || text_is(s, "==") || text_is(s, "!=") || text_is(s, "<=")
        || text_is(s, ">=") || text_is(s, "&&") || text_is(s, "||")
}

/// The value of a string of digits, or `None` when it is not one or does
/// not fit in an `i64`.
fn integer_value(s: &String) -> (r: Option<i64>)
    ensures
        match r {
            Some(v) => all_digits(s@) && v >= 0 && v as nat == digits_value(s@),
            None => !(all_digits(s@) && digits_value(s@) <= i64::MAX),
        },
{
    let n = s.as_str().unicode_len();
    if n == 0 {
        return None;
    }
    let mut value: i64 = 0;
    let mut i: usize = 0;
    while i < n
        invariant
            n == s@.len(),
            i <= n,
            value >= 0,
            value as nat == digits_value(s@.subrange(0, i as int)),
            forall|j: int| 0 <= j < i ==> is_digit(#[trigger] s@[j]),
        decreases n - i,
    {
        let c = s.as_str().get_char(i);
        proof {
            assert(s@.subrange(0, i + 1).last() == c);
        }
        proof {
            assert(s@.subrange(0, i + 1).drop_last() =~= s@.subrange(0, i as int));
        }
        if !('0' <= c && c <= '9') {
            return None;
        }
        let d = (c as u32 - '0' as u32) as i64;
        if value > (i64::MAX - d) / 10 {
            proof {
                lemma_digits_grow(s@, (i + 1) as int);
                assert(value * 10 + d > i64::MAX) by (nonlinear_arith)
                    requires value > (i64::MAX - d) / 10, 0 <= d <= 9;
            }
            return None;
        }
        proof {
            assert(value * 10 + d <= i64::MAX) by (nonlinear_arith)
                requires value <= (i64::MAX - d) / 10, 0 <= d <= 9;
            assert((c as u32) as nat == c as nat);
        }
        value = value * 10 + d;
        i = i + 1;
    }
    proof {
        assert(s@.subrange(0, n as int) =~= s@);
    }
    Some(value)
}

/// A longer string of digits is worth at least as much as its prefix.
proof fn lemma_digits_grow(s: Seq<char>, k: int)
    requires
        0 <= k <= s.len(),
        forall|j: int| 0 <= j < k ==> is_digit(#[trigger] s[j]),
    ensures
        all_digits(s) ==> digits_value(s.subrange(0, k)) <= digits_value(s),
    decreases s.len() - k,
{
    if all_digits(s) {
        if k < s.len() {
            assert(s.subrange(0, k + 1).drop_last() =~= s.subrange(0, k));
            assert(is_digit(s[k]));
            lemma_digits_grow(s, k + 1);
        } else {
            assert(s.subrange(0, k) =~= s);
        }
    }
}

fn is_float_form(s: &String) -> (r: bool)
    ensures
        r == float_form(s@),
{
    let n = s.as_str().unicode_len();
    let mut k: usize = 0;
    while k < n
        invariant
            n == s@.len(),
            k <= n,
            forall|j: int| 0 <= j < k ==> is_digit(#[trigger] s@[j]),
        decreases n - k,
    {
        let c = s.as_str().get_char(k);
        if c == '.' {
            if k == 0 {
                proof {
                    assert forall|m: int| 0 < m < s@.len() && s@[m] == '.' implies !all_digits(s@.subrange(0, m)) by {
                        assert(s@.subrange(0, m)[0] == s@[0]);
                    }
                }
                return false;
            }
            let mut j = k + 1;
            while j < n
                invariant
                    n == s@.len(),
                    k < j <= n,
                    s@[k as int] == '.',
                    forall|m: int| 0 <= m < k ==> is_digit(#[trigger] s@[m]),
                    forall|m: int| k < m < j ==> is_digit(#[trigger] s@[m]),
                decreases n - j,
            {
                let d = s.as_str().get_char(j);
                if !('0' <= d && d <= '9') {
                    proof {
                        assert forall|m: int| 0 < m < s@.len() && s@[m] == '.' && all_digits(s@.subrange(0, m))
                            implies !(forall|i: int| m < i < s@.len() ==> is_digit(#[trigger] s@[i])) by {
                            if m < k {
                                assert(is_digit(s@[m]));
                            } else if m > k {
                                assert(s@.subrange(0, m)[k as int] == s@[k as int]);
                            } else {
                                assert(!is_digit(s@[j as int]));
                            }
                        }
                    }
                    return false;
                }
                j = j + 1;
            }
            proof {
                assert(all_digits(s@.subrange(0, k as int)));
            }
            return true;
        }
        if !('0' <= c && c <= '9') {
            proof {
                assert forall|m: int| 0 < m < s@.len() && s@[m] == '.' implies !all_digits(s@.subrange(0, m)) by {
                    if m > k {
                        assert(s@.subrange(0, m)[k as int] == s@[k as int]);
                    }
                }
            }
            return false;
        }
        k = k + 1;
    }
    false
}

/// Classifies one lexeme.
pub fn to_token(text: String) -> (r: Lexeme)
    ensures
        r@ == classify(text@, text),
{
    if keyword_text(&text) {
        return Lexeme::Token(Token::Keyword(text));
    }
    if symbol_text(&text) {
        return Lexeme::Token(Token::Symbol(text));
    }
    match integer_value(&text) {
        Some(v) => {
            let literal = if v <= 0x7fff_ffff { Literal::Integer(v as i32) } else { Literal::Long(v) };
            return Lexeme::Token(Token::Data(literal, text));
        },
        None => {},
    }
    let n = text.as_str().unicode_len();
    let digits = n > 0 && all_digit_chars(&text);
    if digits || is_float_form(&text) {
        return Lexeme::Float(text);
    }
    if n == 3 && text.as_str().get_char(0) == '\'' && text.as_str().get_char(2) == '\'' {
        let c = text.as_str().get_char(1);
        return Lexeme::Token(Token::Data(Literal::Character(c), text));
    }
    if n >= 2 && text.as_str().get_char(0) == '/' && (text.as_str().get_char(1) == '/' || text.as_str().get_char(1) == '*') {
        return Lexeme::Comment(text);
    }
    Lexeme::Token(Token::Identifier(text))
}

fn all_digit_chars(s: &String) -> (r: bool)
    ensures
        r == (forall|i: int| 0 <= i < s@.len() ==> is_digit(#[trigger] s@[i])),
{
    let n = s.as_str().unicode_len();
    let mut i: usize = 0;
    while i < n
        invariant
            n == s@.len(),
            i <= n,
            forall|j: int| 0 <= j < i ==> is_digit(#[trigger] s@[j]),
        decreases n - i,
    {
        let c = s.as_str().get_char(i);
        if !('0' <= c && c <= '9') {
            return false;
        }
        i = i + 1;
    }
    true
}

/// The string a token holds.
pub open spec fn string_of(t: Token) -> String {
    match t {
        Token::Data(_, x) => x,
        Token::Identifier(x) => x,
        Token::Keyword(x) => x,
        Token::Symbol(x) => x,
    }
}

/// A lexeme is the classification of a text, and holds that text.
pub open spec fn classifies(l: LexemeView, s: Seq<char>) -> bool {
    match l {
        LexemeView::Token(t) => string_of(t)@ == s && l == classify(s, string_of(t)),
        LexemeView::Float(f) => f == s && l == classify(s, arbitrary()),
        LexemeView::Comment(c) => c == s && l == classify(s, arbitrary()),
    }
}

/// Each lexeme is the classification of the text matched at its place.
pub open spec fn lexed_as(lexemes: Seq<Lexeme>, texts: Seq<Seq<char>>) -> bool {
    &&& lexemes.len() == texts.len()
    &&& forall|i: int| 0 <= i < texts.len() ==> classifies(#[trigger] lexemes[i]@, texts[i])
}

/// The classified lexemes of a source text, in order; `None` only when the
/// lexical grammar fails to compile.
pub fn tokenize(source: &str) -> (r: Option<Vec<Lexeme>>)
    ensures
        r is Some ==> lexed_as(r->Some_0@, regex_matches(LEXEME_PATTERN@, source@)),
{
    let texts = match find_all(LEXEME_PATTERN, source) {
        Some(t) => t,
        None => return None,
    };
    let mut out: Vec<Lexeme> = Vec::new();
    let mut k: usize = 0;
    while k < texts.len()
        invariant
            k <= texts@.len(),
            out@.len() == k,
            texts_of(texts@) == regex_matches(LEXEME_PATTERN@, source@),
            forall|i: int| 0 <= i < k ==> (#[trigger] out@[i])@ == classify(texts@[i]@, texts@[i]),
        decreases texts@.len() - k,
    {
        let text = texts[k].clone();
        let lexeme = to_token(text);
        out.push(lexeme);
        proof {
            assert(out@[k as int]@ == classify(text@, text));
        }
        k = k + 1;
    }
    proof {
        let matched = regex_matches(LEXEME_PATTERN@, source@);
        assert(texts_of(texts@).len() == texts@.len());
        assert(out@.len() == matched.len());
        assert forall|i: int| 0 <= i < matched.len() implies classifies(#[trigger] out@[i]@, matched[i]) by {
            let t = texts@[i];
            assert(t@ == texts_of(texts@)[i]);
            assert(out@[i]@ == classify(t@, t));
        }
        assert(lexed_as(out@, matched));
    }
    Some(out)
}

} // verus!
