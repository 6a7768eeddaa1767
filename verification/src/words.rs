use vstd::prelude::*;
use vstd::string::StringExecFns;
use crate::text::{quote, quoted, string_from};
use crate::tokenizer::{AssignOp, Op, Token, TokenView};

verus! {

/// The name of an operator.
pub open spec fn op_name(op: Op) -> Seq<char> {
    match op {
        Op::Add => "Add"@,
        Op::Sub => "Sub"@,
        Op::Mul => "Mul"@,
        Op::Div => "Div"@,
        Op::Rem => "Rem"@,
        Op::And => "And"@,
        Op::Or => "Or"@,
        Op::Xor => "Xor"@,
        Op::Not => "Not"@,
        Op::AndThen => "AndThen"@,
        Op::OrElse => "OrElse"@,
        Op::Eq => "Eq"@,
        Op::Neq => "Neq"@,
        Op::LessEq => "LessEq"@,
        Op::GreaterEq => "GreaterEq"@,
        Op::Less => "Less"@,
        Op::Greater => "Greater"@,
        Op::ShiftLeft => "ShiftLeft"@,
        Op::ShiftRight => "ShiftRight"@,
        Op::Access => "Access"@,
        Op::Index => "Index"@,
    }
}

/// The name of the operator of an assignment: `None` for a plain `=`.
pub open spec fn assign_name(op: AssignOp) -> Seq<char> {
    match op {
        AssignOp::Plain => "None"@,
        AssignOp::Add => "Add"@,
        AssignOp::Sub => "Sub"@,
        AssignOp::Mul => "Mul"@,
        AssignOp::Div => "Div"@,
        AssignOp::Rem => "Rem"@,
        AssignOp::And => "And"@,
        AssignOp::Or => "Or"@,
        AssignOp::Xor => "Xor"@,
    }
}

/// The character of a decimal digit.
pub open spec fn digit_char(d: u8) -> char {
    ((48 + d) as u8) as char
}

/// A number in decimal digits.
pub open spec fn decimal(n: u8) -> Seq<char> {
    if n < 10 {
        seq![digit_char(n)]
    } else if n < 100 {
        seq![digit_char(n / 10), digit_char(n % 10)]
    } else {
        seq![digit_char(n / 100), digit_char((n / 10) % 10), digit_char(n % 10)]
    }
}

/// `name` with `inner` in round brackets behind it.
pub open spec fn wrapped(name: Seq<char>, inner: Seq<char>) -> Seq<char> {
    name + "("@ + inner + ")"@
}

/// What a token reads as in a message: the name of its kind, and behind it
/// in brackets what it holds, a text in quotes.
#[verifier::opaque]
pub open spec fn debug_text(token: TokenView) -> Seq<char> {
    match token {
        TokenView::Number(s) => wrapped("Number"@, quoted(s)),
        TokenView::Name(s) => wrapped("Name"@, quoted(s)),
        TokenView::String(s) => wrapped("String"@, quoted(s)),
        TokenView::Op(op) => wrapped("Op"@, op_name(op)),
        TokenView::Assign(op) => wrapped("Assign"@, assign_name(op)),
        TokenView::Indent(n) => wrapped("Indent"@, decimal(n)),
        TokenView::Var => "Var"@,
        TokenView::BracketRoundOpen => "BracketRoundOpen"@,
        TokenView::BracketRoundClose => "BracketRoundClose"@,
        TokenView::BracketSquareOpen => "BracketSquareOpen"@,
        TokenView::BracketSquareClose => "BracketSquareClose"@,
        TokenView::BracketCurlyOpen => "BracketCurlyOpen"@,
        TokenView::BracketCurlyClose => "BracketCurlyClose"@,
        TokenView::If => "If"@,
        TokenView::Elif => "Elif"@,
        TokenView::Else => "Else"@,
        TokenView::While => "While"@,
        TokenView::For => "For"@,
        TokenView::In => "In"@,
        TokenView::Fn => "Fn"@,
        TokenView::Return => "Return"@,
        TokenView::Comma => "Comma"@,
        TokenView::Pass => "Pass"@,
        TokenView::Colon => "Colon"@,
        TokenView::Break => "Break"@,
        TokenView::Continue => "Continue"@,
        TokenView::As => "As"@,
        TokenView::Is => "Is"@,
        TokenView::Try => "Try"@,
        TokenView::Catch => "Catch"@,
        TokenView::True => "True"@,
        TokenView::False => "False"@,
        TokenView::To => "To"@,
        TokenView::Step => "Step"@,
        TokenView::_Self => "_Self"@,
        TokenView::Env => "Env"@,
        TokenView::Int => "Int"@,
        TokenView::Real => "Real"@,
        TokenView::Str => "Str"@,
    }
}

/// The name of an operator.
pub fn op_word(op: Op) -> (r: &'static str)
    ensures
        r@ == op_name(op),
{
    match op {
        Op::Add => "Add",
        Op::Sub => "Sub",
        Op::Mul => "Mul",
        Op::Div => "Div",
        Op::Rem => "Rem",
        Op::And => "And",
        Op::Or => "Or",
        Op::Xor => "Xor",
        Op::Not => "Not",
        Op::AndThen => "AndThen",
        Op::OrElse => "OrElse",
        Op::Eq => "Eq",
        Op::Neq => "Neq",
        Op::LessEq => "LessEq",
        Op::GreaterEq => "GreaterEq",
        Op::Less => "Less",
        Op::Greater => "Greater",
        Op::ShiftLeft => "ShiftLeft",
        Op::ShiftRight => "ShiftRight",
        Op::Access => "Access",
        Op::Index => "Index",
    }
}

/// The name of the operator of an assignment.
pub fn assign_word(op: AssignOp) -> (r: &'static str)
    ensures
        r@ == assign_name(op),
{
    match op {
        AssignOp::Plain => "None",
        AssignOp::Add => "Add",
        AssignOp::Sub => "Sub",
        AssignOp::Mul => "Mul",
        AssignOp::Div => "Div",
        AssignOp::Rem => "Rem",
        AssignOp::And => "And",
        AssignOp::Or => "Or",
        AssignOp::Xor => "Xor",
    }
}

fn digit(d: u8) -> (c: char)
    requires
        d < 10,
    ensures
        c == digit_char(d),
{
    (48 + d) as char
}

/// A number in decimal digits.
pub fn decimal_text(n: u8) -> (r: String)
    ensures
        r@ == decimal(n),
{
    let mut digits: Vec<char> = Vec::new();
    if n >= 100 {
        digits.push(digit(n / 100));
    }
    if n >= 10 {
        digits.push(digit((n / 10) % 10));
    }
    digits.push(digit(n % 10));
    proof {
        assert(digits@.subrange(0, digits@.len() as int) =~= digits@);
        assert(digits@ =~= decimal(n));
    }
    string_from(digits.as_slice(), 0, digits.len())
}

fn wrap(name: &str, inner: &str) -> (r: String)
    ensures
        r@ == wrapped(name@, inner@),
{
    String::from_str(name).concat("(").concat(inner).concat(")")
}

/// What a token reads as in a message.
pub fn describe(token: &Token) -> (r: String)
    ensures
        r@ == debug_text(token@),
{
    proof {
        reveal(Token::model);
        reveal(debug_text);
    }
    match token {
        Token::Number(s) => wrap("Number", quote(s.as_str()).as_str()),
        Token::Name(s) => wrap("Name", quote(s.as_str()).as_str()),
        Token::String(s) => wrap("String", quote(s.as_str()).as_str()),
        Token::Op(op) => wrap("Op", op_word(*op)),
        Token::Assign(op) => wrap("Assign", assign_word(*op)),
        Token::Indent(n) => wrap("Indent", decimal_text(*n).as_str()),
        Token::Var => "Var".to_owned(),
        Token::BracketRoundOpen => "BracketRoundOpen".to_owned(),
        Token::BracketRoundClose => "BracketRoundClose".to_owned(),
        Token::BracketSquareOpen => "BracketSquareOpen".to_owned(),
        Token::BracketSquareClose => "BracketSquareClose".to_owned(),
        Token::BracketCurlyOpen => "BracketCurlyOpen".to_owned(),
        Token::BracketCurlyClose => "BracketCurlyClose".to_owned(),
        Token::If => "If".to_owned(),
        Token::Elif => "Elif".to_owned(),
        Token::Else => "Else".to_owned(),
        Token::While => "While".to_owned(),
        Token::For => "For".to_owned(),
        Token::In => "In".to_owned(),
        Token::Fn => "Fn".to_owned(),
        Token::Return => "Return".to_owned(),
        Token::Comma => "Comma".to_owned(),
        Token::Pass => "Pass".to_owned(),
        Token::Colon => "Colon".to_owned(),
        Token::Break => "Break".to_owned(),
        Token::Continue => "Continue".to_owned(),
        Token::As => "As".to_owned(),
        Token::Is => "Is".to_owned(),
        Token::Try => "Try".to_owned(),
        Token::Catch => "Catch".to_owned(),
        Token::True => "True".to_owned(),
        Token::False => "False".to_owned(),
        Token::To => "To".to_owned(),
        Token::Step => "Step".to_owned(),
        Token::_Self => "_Self".to_owned(),
        Token::Env => "Env".to_owned(),
        Token::Int => "Int".to_owned(),
        Token::Real => "Real".to_owned(),
        Token::Str => "Str".to_owned(),
    }
}

} // verus!
