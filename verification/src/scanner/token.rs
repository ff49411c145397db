//! The token model: token kinds, literal values, and the reserved-word
//! table. A literal number is carried as its IEEE 754 binary64 bit pattern
//! (see `crate::numeric`).

use vstd::prelude::*;

use crate::numeric::{add_bits, eq_bits, num_eq, num_sum};

verus! {

#[derive(Clone, Copy, Debug, PartialEq, Eq, Structural)]
#[allow(non_camel_case_types)]
pub enum TokenType {
    // Single-character tokens.
    LEFT_PAREN,
    RIGHT_PAREN,
    LEFT_BRACE,
    RIGHT_BRACE,
    COMMA,
    DOT,
    MINUS,
    PLUS,
    SEMICOLON,
    SLASH,
    STAR,
    // One or two character tokens.
    BANG,
    BANG_EQUAL,
    EQUAL,
    EQUAL_EQUAL,
    GREATER,
    GREATER_EQUAL,
    LESS,
    LESS_EQUAL,
    // Literals.
    IDENTIFIER,
    STRING,
    NUMBER,
    // Keywords.
    AND,
    CLASS,
    ELSE,
    FALSE,
    FUN,
    FOR,
    IF,
    NIL,
    OR,
    PRINT,
    RETURN,
    SUPER,
    THIS,
    TRUE,
    VAR,
    WHILE,
    EOF,
}

/// The mathematical model of a runtime value: what a `LiteralType` denotes.
pub enum Val {
    VStr(Seq<char>),
    VNum(u64),
    VBool(bool),
    VNil,
}

/// A runtime value of the language. `Float` holds the IEEE 754 binary64
/// bit pattern of the number.
#[derive(Debug)]
pub enum LiteralType {
    String(String),
    Float(u64),
    Bool(bool),
    Null,
}

impl View for LiteralType {
    type V = Val;

    open spec fn view(&self) -> Val {
        match self {
            LiteralType::String(s) => Val::VStr(s@),
            LiteralType::Float(b) => Val::VNum(*b),
            LiteralType::Bool(b) => Val::VBool(*b),
            LiteralType::Null => Val::VNil,
        }
    }
}

/// Structural equality of two values: values of different variants are
/// never equal (no coercion), and two numbers are compared by IEEE 754
/// equality.
pub open spec fn val_eq(a: Val, b: Val) -> bool {
    match (a, b) {
        (Val::VStr(x), Val::VStr(y)) => x == y,
        (Val::VNum(x), Val::VNum(y)) => num_eq(x, y),
        (Val::VBool(x), Val::VBool(y)) => x == y,
        (Val::VNil, Val::VNil) => true,
        _ => false,
    }
}

impl LiteralType {
    /// A copy of the value, equal to the original.
    pub fn duplicate(&self) -> (r: LiteralType)
        ensures
            r == *self,
    {
        match self {
            LiteralType::String(s) => LiteralType::String(s.clone()),
            LiteralType::Float(b) => LiteralType::Float(*b),
            LiteralType::Bool(b) => LiteralType::Bool(*b),
            LiteralType::Null => LiteralType::Null,
        }
    }

    /// The number's bit pattern, or the typed-operand error for every
    /// other variant.
    pub fn get_number(&self) -> (r: Result<u64, String>)
        ensures
            self@ matches Val::VNum(b) ==> (r matches Ok(x) && x == b),
            !(self@ is VNum) ==> (r matches Err(m) && m@ == "Operand must be a number"@),
    {
        match self {
            LiteralType::Float(f) => Ok(*f),
            _ => Err(String::from_str("Operand must be a number")),
        }
    }

    /// The string's text, or an error for every other variant.
    pub fn get_string(&self) -> (r: Result<String, String>)
        ensures
            self@ matches Val::VStr(s) ==> (r matches Ok(x) && x@ == s),
            !(self@ is VStr) ==> (r matches Err(m) && m@ == "Operand must be a number"@),
    {
        match self {
            LiteralType::String(f) => Ok(f.clone()),
            _ => Err(String::from_str("Operand must be a number")),
        }
    }

    /// The `+` operator: numbers add, strings concatenate, and every other
    /// pairing is the typed runtime error.
    pub fn add(self, rhs: LiteralType) -> (r: Result<LiteralType, String>)
        ensures
            (match add_vals_model(self@, rhs@) {
                Ok(v) => r matches Ok(x) && x@ == v,
                Err(m) => r matches Err(e) && e@ == m,
            }),
    {
        match self {
            LiteralType::Float(x) => match rhs {
                LiteralType::Float(y) => Ok(LiteralType::Float(add_bits(x, y))),
                _ => Err(String::from_str("Operands must be two numbers or two strings")),
            },
            LiteralType::String(x) => match rhs {
                LiteralType::String(y) => Ok(LiteralType::String(x.concat(y.as_str()))),
                _ => Err(String::from_str("Operands must be two numbers or two strings")),
            },
            _ => Err(String::from_str("Operands must be two numbers or two strings")),
        }
    }

    /// Structural equality, as `val_eq` states it.
    pub fn equals(&self, other: &LiteralType) -> (r: bool)
        ensures
            r == val_eq(self@, other@),
    {
        match self {
            LiteralType::String(x) => match other {
                LiteralType::String(y) => *x == *y,
                _ => false,
            },
            LiteralType::Float(x) => match other {
                LiteralType::Float(y) => eq_bits(*x, *y),
                _ => false,
            },
            LiteralType::Bool(x) => match other {
                LiteralType::Bool(y) => *x == *y,
                _ => false,
            },
            LiteralType::Null => match other {
                LiteralType::Null => true,
                _ => false,
            },
        }
    }
}

/// What `LiteralType::add` returns, stated over the models of the two
/// operands.
pub open spec fn add_vals_model(a: Val, b: Val) -> Result<Val, Seq<char>> {
    match (a, b) {
        (Val::VNum(x), Val::VNum(y)) => Ok(Val::VNum(num_sum(x, y))),
        (Val::VStr(x), Val::VStr(y)) => Ok(Val::VStr(x + y)),
        _ => Err("Operands must be two numbers or two strings"@),
    }
}

/// A token: kind, source text, literal value, and 1-based source line.
#[derive(Debug)]
pub struct Token {
    pub token_type: TokenType,
    pub lexeme: String,
    pub literal: LiteralType,
    pub line: i32,
}

/// The mathematical model of a token.
pub struct TokenM {
    pub token_type: TokenType,
    pub lexeme: Seq<char>,
    pub literal: Val,
    pub line: int,
}

impl View for Token {
    type V = TokenM;

    open spec fn view(&self) -> TokenM {
        TokenM {
            token_type: self.token_type,
            lexeme: self.lexeme@,
            literal: self.literal@,
            line: self.line as int,
        }
    }
}

impl Token {
    /// A copy of the token, equal to the original.
    pub fn duplicate(&self) -> (r: Token)
        ensures
            r == *self,
    {
        Token {
            token_type: self.token_type,
            lexeme: self.lexeme.clone(),
            literal: self.literal.duplicate(),
            line: self.line,
        }
    }
}

/// The reserved-word table: the token kind of an identifier run.
pub open spec fn keyword_token_type(s: Seq<char>) -> TokenType {
    if s == "and"@ {
        TokenType::AND
    } else if s == "class"@ {
        TokenType::CLASS
    } else if s == "else"@ {
        TokenType::ELSE
    } else if s == "false"@ {
        TokenType::FALSE
    } else if s == "for"@ {
        TokenType::FOR
    } else if s == "fun"@ {
        TokenType::FUN
    } else if s == "if"@ {
        TokenType::IF
    } else if s == "nil"@ {
        TokenType::NIL
    } else if s == "or"@ {
        TokenType::OR
    } else if s == "print"@ {
        TokenType::PRINT
    } else if s == "return"@ {
        TokenType::RETURN
    } else if s == "super"@ {
        TokenType::SUPER
    } else if s == "this"@ {
        TokenType::THIS
    } else if s == "true"@ {
        TokenType::TRUE
    } else if s == "var"@ {
        TokenType::VAR
    } else if s == "while"@ {
        TokenType::WHILE
    } else {
        TokenType::IDENTIFIER
    }
}

/// Classifies an identifier run against the reserved-word table.
pub fn keyword_type(lexeme: &String) -> (t: TokenType)
    ensures
        t == keyword_token_type(lexeme@),
{
    if *lexeme == String::from_str("and") {
        TokenType::AND
    } else if *lexeme == String::from_str("class") {
        TokenType::CLASS
    } else if *lexeme == String::from_str("else") {
        TokenType::ELSE
    } else if *lexeme == String::from_str("false") {
        TokenType::FALSE
    } else if *lexeme == String::from_str("for") {
        TokenType::FOR
    } else if *lexeme == String::from_str("fun") {
        TokenType::FUN
    } else if *lexeme == String::from_str("if") {
        TokenType::IF
    } else if *lexeme == String::from_str("nil") {
        TokenType::NIL
    } else if *lexeme == String::from_str("or") {
        TokenType::OR
    } else if *lexeme == String::from_str("print") {
        TokenType::PRINT
    } else if *lexeme == String::from_str("return") {
        TokenType::RETURN
    } else if *lexeme == String::from_str("super") {
        TokenType::SUPER
    } else if *lexeme == String::from_str("this") {
        TokenType::THIS
    } else if *lexeme == String::from_str("true") {
        TokenType::TRUE
    } else if *lexeme == String::from_str("var") {
        TokenType::VAR
    } else if *lexeme == String::from_str("while") {
        TokenType::WHILE
    } else {
        TokenType::IDENTIFIER
    }
}

} // verus!


use core::cmp::Ordering;
use crate::numeric::{gt_bits, lt_bits, num_gt, num_lt};

verus! {

/// Lexicographic order of two character sequences, code point by code
/// point; a proper prefix comes first.
pub open spec fn str_cmp(a: Seq<char>, b: Seq<char>) -> Ordering
    decreases a.len(),
{
    if a.len() == 0 && b.len() == 0 {
        Ordering::Equal
    } else if a.len() == 0 {
        Ordering::Less
    } else if b.len() == 0 {
        Ordering::Greater
    } else if a[0] < b[0] {
        Ordering::Less
    } else if b[0] < a[0] {
        Ordering::Greater
    } else {
        str_cmp(a.drop_first(), b.drop_first())
    }
}

/// Ordering of two values: defined only within a variant — numbers by
/// IEEE 754 (so a NaN is unordered), strings lexicographically, booleans
/// with false before true, nil equal to nil — and never across variants.
pub open spec fn val_cmp(a: Val, b: Val) -> Option<Ordering> {
    match (a, b) {
        (Val::VNil, Val::VNil) => Some(Ordering::Equal),
        (Val::VNum(x), Val::VNum(y)) => if num_lt(x, y) {
            Some(Ordering::Less)
        } else if num_gt(x, y) {
            Some(Ordering::Greater)
        } else if num_eq(x, y) {
            Some(Ordering::Equal)
        } else {
            None
        },
        (Val::VStr(x), Val::VStr(y)) => Some(str_cmp(x, y)),
        (Val::VBool(x), Val::VBool(y)) => if x == y {
            Some(Ordering::Equal)
        } else if !x {
            Some(Ordering::Less)
        } else {
            Some(Ordering::Greater)
        },
        _ => None,
    }
}

/// Lexicographic comparison of two strings, character by character.
#[verifier::loop_isolation(false)]
fn compare_text(a: &String, b: &String) -> (r: Ordering)
    ensures
        r == str_cmp(a@, b@),
{
    let n = a.as_str().unicode_len();
    let m = b.as_str().unicode_len();
    let mut i: usize = 0;
    proof {
        assert(a@.skip(0) =~= a@);
        assert(b@.skip(0) =~= b@);
    }
    loop
        invariant
            i <= n,
            i <= m,
            str_cmp(a@, b@) == str_cmp(a@.skip(i as int), b@.skip(i as int)),
        decreases n - i,
    {
        if i >= n && i >= m {
            proof {
                assert(a@.skip(i as int).len() == 0 && b@.skip(i as int).len() == 0);
            }
            return Ordering::Equal;
        }
        if i >= n {
            return Ordering::Less;
        }
        if i >= m {
            return Ordering::Greater;
        }
        let ca = a.as_str().get_char(i);
        let cb = b.as_str().get_char(i);
        proof {
            assert(a@.skip(i as int)[0] == a@[i as int]);
            assert(b@.skip(i as int)[0] == b@[i as int]);
        }
        if ca < cb {
            return Ordering::Less;
        }
        if cb < ca {
            return Ordering::Greater;
        }
        proof {
            assert(a@.skip(i as int).drop_first() =~= a@.skip(i as int + 1));
            assert(b@.skip(i as int).drop_first() =~= b@.skip(i as int + 1));
        }
        i = i + 1;
    }
}

impl LiteralType {
    /// Ordering within a variant, as `val_cmp` states it; values of
    /// different variants are unordered.
    pub fn compare(&self, other: &LiteralType) -> (r: Option<Ordering>)
        ensures
            r == val_cmp(self@, other@),
    {
        match self {
            LiteralType::Null => match other {
                LiteralType::Null => Some(Ordering::Equal),
                _ => None,
            },
            LiteralType::Float(x) => match other {
                LiteralType::Float(y) => {
                    if lt_bits(*x, *y) {
                        Some(Ordering::Less)
                    } else if gt_bits(*x, *y) {
                        Some(Ordering::Greater)
                    } else if eq_bits(*x, *y) {
                        Some(Ordering::Equal)
                    } else {
                        None
                    }
                },
                _ => None,
            },
            LiteralType::String(x) => match other {
                LiteralType::String(y) => Some(compare_text(x, y)),
                _ => None,
            },
            LiteralType::Bool(x) => match other {
                LiteralType::Bool(y) => {
                    if *x == *y {
                        Some(Ordering::Equal)
                    } else if !*x {
                        Some(Ordering::Less)
                    } else {
                        Some(Ordering::Greater)
                    }
                },
                _ => None,
            },
        }
    }
}

} // verus!
