use tabscript::tokenizer::{AssignOp, Op, Token};
use tabscript::words::{assign_word, decimal_text, describe, op_word};

#[test]
fn numbers_in_decimal_digits() {
    assert_eq!(decimal_text(0), "0");
    assert_eq!(decimal_text(7), "7");
    assert_eq!(decimal_text(10), "10");
    assert_eq!(decimal_text(42), "42");
    assert_eq!(decimal_text(99), "99");
    assert_eq!(decimal_text(100), "100");
    assert_eq!(decimal_text(205), "205");
    assert_eq!(decimal_text(255), "255");
}

#[test]
fn names_of_operators() {
    assert_eq!(op_word(Op::Add), "Add");
    assert_eq!(op_word(Op::ShiftLeft), "ShiftLeft");
    assert_eq!(op_word(Op::Index), "Index");
    assert_eq!(assign_word(AssignOp::Plain), "None");
    assert_eq!(assign_word(AssignOp::Xor), "Xor");
}

#[test]
fn tokens_in_messages() {
    assert_eq!(describe(&Token::Number("0x1F".to_string())), "Number(\"0x1F\")");
    assert_eq!(describe(&Token::Name("x".to_string())), "Name(\"x\")");
    assert_eq!(describe(&Token::String("a\tb".to_string())), "String(\"a\\tb\")");
    assert_eq!(describe(&Token::String("\"".to_string())), "String(\"\\\"\")");
    assert_eq!(describe(&Token::Op(Op::Neq)), "Op(Neq)");
    assert_eq!(describe(&Token::Assign(AssignOp::Plain)), "Assign(None)");
    assert_eq!(describe(&Token::Assign(AssignOp::Rem)), "Assign(Rem)");
    assert_eq!(describe(&Token::Indent(3)), "Indent(3)");
    assert_eq!(describe(&Token::Indent(200)), "Indent(200)");
    assert_eq!(describe(&Token::Var), "Var");
    assert_eq!(describe(&Token::BracketCurlyClose), "BracketCurlyClose");
    assert_eq!(describe(&Token::_Self), "_Self");
    assert_eq!(describe(&Token::Step), "Step");
}

#[test]
fn plain_tokens_read_as_their_names() {
    let plain = [
        Token::Var,
        Token::BracketRoundOpen,
        Token::BracketRoundClose,
        Token::BracketSquareOpen,
        Token::BracketSquareClose,
        Token::BracketCurlyOpen,
        Token::BracketCurlyClose,
        Token::If,
        Token::Elif,
        Token::Else,
        Token::While,
        Token::For,
        Token::In,
        Token::Fn,
        Token::Return,
        Token::Comma,
        Token::Pass,
        Token::Colon,
        Token::Break,
        Token::Continue,
        Token::As,
        Token::Is,
        Token::Try,
        Token::Catch,
        Token::True,
        Token::False,
        Token::To,
        Token::Step,
        Token::_Self,
        Token::Env,
        Token::Int,
        Token::Real,
        Token::Str,
    ];
    for token in plain.iter() {
        assert_eq!(describe(token), format!("{:?}", token));
    }
    for op in [Op::Add, Op::Sub, Op::AndThen, Op::GreaterEq, Op::Access] {
        assert_eq!(describe(&Token::Op(op)), format!("{:?}", Token::Op(op)));
    }
    for n in [0u8, 9, 10, 99, 100, 255] {
        assert_eq!(describe(&Token::Indent(n)), format!("{:?}", Token::Indent(n)));
    }
    for text in ["", "plain", "tab\t", "quote\"", "back\\slash", "é", "\u{7f}"] {
        let token = Token::String(text.to_string());
        assert_eq!(describe(&token), format!("{:?}", token));
    }
}
