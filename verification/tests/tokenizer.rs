use tabscript::stream::TokenStream;
use tabscript::text::{byte_length, is_alphanumeric, is_whitespace, width_of};
use tabscript::tokenizer::{AssignOp, Op, Token, TokenError, TokenStreamError};

fn number_token(text: &str) -> Token {
    Token::Number(text.to_string())
}

fn name_token(text: &str) -> Token {
    Token::Name(text.to_string())
}

fn string_token(text: &str) -> Token {
    Token::String(text.to_string())
}

#[test]
fn empty() {
    assert_eq!(Token::parse("", true), Err(TokenError::Empty));
    assert_eq!(Token::parse("# This is a comment", true), Err(TokenError::Empty));
}

#[test]
fn tokenizer_number() {
    assert_eq!(Token::parse("0", true), Ok((number_token("0"), 1)));
    assert_eq!(Token::parse("42_i32", true), Ok((number_token("42_i32"), 6)));
    assert_eq!(Token::parse("0b10101", true), Ok((number_token("0b10101"), 7)));
    assert_eq!(Token::parse("13.37", true), Ok((number_token("13.37"), 5)));
}

#[test]
fn string() {
    assert_eq!(Token::parse("\"foo bar 42\"", true), Ok((string_token("foo bar 42"), 12)));
}

#[test]
fn control() {
    assert_eq!(Token::parse("if", true), Ok((Token::If, 2)));
    assert_eq!(Token::parse("else", true), Ok((Token::Else, 4)));
    assert_eq!(Token::parse("elif", true), Ok((Token::Elif, 4)));
    assert_eq!(Token::parse("while", true), Ok((Token::While, 5)));
    assert_eq!(Token::parse("for", true), Ok((Token::For, 3)));
    assert_eq!(Token::parse("in", true), Ok((Token::In, 2)));
    assert_eq!(Token::parse("return", true), Ok((Token::Return, 6)));
}

#[test]
fn brackets() {
    assert_eq!(Token::parse("(", true), Ok((Token::BracketRoundOpen, 1)));
    assert_eq!(Token::parse(")", true), Ok((Token::BracketRoundClose, 1)));
    assert_eq!(Token::parse("[", true), Ok((Token::BracketSquareOpen, 1)));
    assert_eq!(Token::parse("]", true), Ok((Token::BracketSquareClose, 1)));
    assert_eq!(Token::parse("{", true), Ok((Token::BracketCurlyOpen, 1)));
    assert_eq!(Token::parse("}", true), Ok((Token::BracketCurlyClose, 1)));
}

#[test]
fn op() {
    assert_eq!(Token::parse("+", true), Ok((Token::Op(Op::Add), 1)));
    assert_eq!(Token::parse("-", true), Ok((Token::Op(Op::Sub), 1)));
    assert_eq!(Token::parse("*", true), Ok((Token::Op(Op::Mul), 1)));
    assert_eq!(Token::parse("/", true), Ok((Token::Op(Op::Div), 1)));
    assert_eq!(Token::parse("%", true), Ok((Token::Op(Op::Rem), 1)));
    assert_eq!(Token::parse("&", true), Ok((Token::Op(Op::And), 1)));
    assert_eq!(Token::parse("|", true), Ok((Token::Op(Op::Or), 1)));
    assert_eq!(Token::parse("^", true), Ok((Token::Op(Op::Xor), 1)));
    assert_eq!(Token::parse("!", true), Ok((Token::Op(Op::Not), 1)));
    assert_eq!(Token::parse("<", true), Ok((Token::Op(Op::Less), 1)));
    assert_eq!(Token::parse(">", true), Ok((Token::Op(Op::Greater), 1)));
    assert_eq!(Token::parse("!=", true), Ok((Token::Op(Op::Neq), 2)));
    assert_eq!(Token::parse("<=", true), Ok((Token::Op(Op::LessEq), 2)));
    assert_eq!(Token::parse(">=", true), Ok((Token::Op(Op::GreaterEq), 2)));
}

#[test]
fn assign_op() {
    assert_eq!(Token::parse("=", true), Ok((Token::Assign(AssignOp::Plain), 1)));
    assert_eq!(Token::parse("+=", true), Ok((Token::Assign(AssignOp::Add), 2)));
    assert_eq!(Token::parse("-=", true), Ok((Token::Assign(AssignOp::Sub), 2)));
    assert_eq!(Token::parse("*=", true), Ok((Token::Assign(AssignOp::Mul), 2)));
    assert_eq!(Token::parse("/=", true), Ok((Token::Assign(AssignOp::Div), 2)));
    assert_eq!(Token::parse("%=", true), Ok((Token::Assign(AssignOp::Rem), 2)));
    assert_eq!(Token::parse("&=", true), Ok((Token::Assign(AssignOp::And), 2)));
    assert_eq!(Token::parse("|=", true), Ok((Token::Assign(AssignOp::Or), 2)));
    assert_eq!(Token::parse("^=", true), Ok((Token::Assign(AssignOp::Xor), 2)));
}

#[test]
fn declare() {
    assert_eq!(Token::parse("var foo", true), Ok((Token::Var, 3)));
}

#[test]
fn name() {
    assert_eq!(Token::parse("foo", true), Ok((name_token("foo"), 3)));
    assert_eq!(Token::parse("_4343", true), Ok((name_token("_4343"), 5)));
    assert_eq!(Token::parse("hunter2", true), Ok((name_token("hunter2"), 7)));
}

#[test]
fn other() {
    assert_eq!(Token::parse(" ", true), Err(TokenError::Empty));
    assert_eq!(Token::parse("\n", true), Err(TokenError::Empty));
    assert_eq!(Token::parse("\r\n", true), Err(TokenError::Empty));
    assert_eq!(Token::parse("\t\tblah blah", true), Ok((Token::Indent(2), 2)));
    assert_eq!(Token::parse(" blah blah", true), Ok((name_token("blah"), 5)));
    assert_eq!(Token::parse(",", true), Ok((Token::Comma, 1)));
    assert_eq!(Token::parse("pass", true), Ok((Token::Pass, 4)));
}

#[test]
fn next_prev() {
    let src = "fn";
    let mut s = TokenStream::parse(src).expect("Failed to parse source");
    assert_eq!(s.prev(), false);
    assert_eq!(s.next(), Some(Token::Fn));
    assert_eq!(s.next(), None);
    assert_eq!(s.prev(), true);
    assert_eq!(s.prev(), false);
}

#[test]
fn hello_world() {
    let src = "fn main()\n\tprintln(\"Hello, world!\")";
    let mut s = TokenStream::parse(src).expect("Failed to parse source");
    assert_eq!(s.next(), Some(Token::Fn));
    assert_eq!(s.next(), Some(name_token("main")));
    assert_eq!(s.next(), Some(Token::BracketRoundOpen));
    assert_eq!(s.next(), Some(Token::BracketRoundClose));
    assert_eq!(s.next(), Some(Token::Indent(1)));
    assert_eq!(s.next(), Some(name_token("println")));
    assert_eq!(s.next(), Some(Token::BracketRoundOpen));
    assert_eq!(s.next(), Some(string_token("Hello, world!")));
    assert_eq!(s.next(), Some(Token::BracketRoundClose));
    assert_eq!(s.next(), None);
}

#[test]
fn vector_len() {
    let src = "fn vec2_len(x, y)\n\treturn x * x + y * y";
    let mut s = TokenStream::parse(src).expect("Failed to parse source");
    assert_eq!(s.next(), Some(Token::Fn));
    assert_eq!(s.next(), Some(name_token("vec2_len")));
    assert_eq!(s.next(), Some(Token::BracketRoundOpen));
    assert_eq!(s.next(), Some(name_token("x")));
    assert_eq!(s.next(), Some(Token::Comma));
    assert_eq!(s.next(), Some(name_token("y")));
    assert_eq!(s.next(), Some(Token::BracketRoundClose));
    assert_eq!(s.next(), Some(Token::Indent(1)));
    assert_eq!(s.next(), Some(Token::Return));
    assert_eq!(s.next(), Some(name_token("x")));
    assert_eq!(s.next(), Some(Token::Op(Op::Mul)));
    assert_eq!(s.next(), Some(name_token("x")));
    assert_eq!(s.next(), Some(Token::Op(Op::Add)));
    assert_eq!(s.next(), Some(name_token("y")));
    assert_eq!(s.next(), Some(Token::Op(Op::Mul)));
    assert_eq!(s.next(), Some(name_token("y")));
    assert_eq!(s.next(), None);
}

#[test]
fn escapes_are_decoded() {
    assert_eq!(Token::parse("\"\\u0041\"", true), Ok((string_token("A"), 8)));
    assert_eq!(Token::parse("\"a\\tb\\n\"", true), Ok((string_token("a\tb\n"), 8)));
    assert_eq!(Token::parse("\"\\x41\\101\"", true), Ok((string_token("AA"), 10)));
    assert_eq!(Token::parse("\"\\U00000041\"", true), Ok((string_token("A"), 12)));
    assert_eq!(Token::parse("\"\\f\"", true), Ok((string_token("\u{c}"), 4)));
}

#[test]
fn token_errors() {
    assert_eq!(Token::parse("\"abc", true), Err(TokenError::UnterminatedString));
    assert_eq!(Token::parse("\"\\q\"", true), Err(TokenError::InvalidEscapeSequence));
    assert_eq!(Token::parse("\"\\uD800\"", true), Err(TokenError::InvalidEscapeSequence));
    assert_eq!(Token::parse(".=", true), Err(TokenError::InvalidAssignOp));
    assert_eq!(Token::parse("\n\t x", true), Err(TokenError::SpaceInIndent));
    let mut deep = String::from("\n");
    for _ in 0..256 {
        deep.push('\t');
    }
    deep.push('x');
    assert_eq!(Token::parse(&deep, true), Err(TokenError::IndentationOverflow));
    let mut deepest = String::from("\n");
    for _ in 0..255 {
        deepest.push('\t');
    }
    deepest.push('x');
    assert_eq!(Token::parse(&deepest, true), Ok((Token::Indent(255), 256)));
}

#[test]
fn operators_are_read_greedily() {
    assert_eq!(Token::parse("&&", true), Ok((Token::Op(Op::AndThen), 2)));
    assert_eq!(Token::parse("||", true), Ok((Token::Op(Op::OrElse), 2)));
    assert_eq!(Token::parse("<<", true), Ok((Token::Op(Op::ShiftLeft), 2)));
    assert_eq!(Token::parse(">>", true), Ok((Token::Op(Op::ShiftRight), 2)));
    assert_eq!(Token::parse("==", true), Ok((Token::Op(Op::Eq), 2)));
    assert_eq!(Token::parse(".", true), Ok((Token::Op(Op::Access), 1)));
}

#[test]
fn stream_positions_and_blank_lines() {
    let mut s = TokenStream::parse("var a\n\n\nfn f()\n\tpass\n\n").expect("tokens");
    assert_eq!(s.next(), Some(Token::Var));
    assert_eq!(s.position(), (1, 0));
    assert_eq!(s.next(), Some(name_token("a")));
    assert_eq!(s.position(), (1, 3));
    assert_eq!(s.next(), Some(Token::Indent(0)));
    assert_eq!(s.position(), (4, 0));
    assert_eq!(s.next(), Some(Token::Fn));
    assert_eq!(s.next(), Some(name_token("f")));
    assert_eq!(s.next(), Some(Token::BracketRoundOpen));
    assert_eq!(s.next(), Some(Token::BracketRoundClose));
    assert_eq!(s.next(), Some(Token::Indent(1)));
    assert_eq!(s.next(), Some(Token::Pass));
    assert_eq!(s.next(), None);
}

#[test]
fn stream_reports_token_errors() {
    assert_eq!(
        TokenStream::parse("fn f()\n\treturn \"x").err(),
        Some(TokenStreamError::TokenError(TokenError::UnterminatedString))
    );
}

#[test]
fn precedence_table() {
    assert_eq!(Op::Access.precedence(), 13);
    assert_eq!(Op::Index.precedence(), 12);
    assert_eq!(Op::Mul.precedence(), 10);
    assert_eq!(Op::Add.precedence(), 9);
    assert_eq!(Op::Eq.precedence(), 3);
    assert_eq!(Op::OrElse.precedence(), 2);
    assert!(Op::Mul.binds_as_tight(&Op::Add));
    assert!(Op::Add.binds_as_tight(&Op::Sub));
    assert!(!Op::Add.binds_as_tight(&Op::Mul));
    assert_eq!(AssignOp::Plain.to_op(), None);
    assert_eq!(AssignOp::Rem.to_op(), Some(Op::Rem));
}

#[test]
fn lengths_are_counted_in_bytes() {
    assert_eq!(Token::parse("\u{e9}", true), Ok((name_token("\u{e9}"), 2)));
    assert_eq!(Token::parse("  \u{20ac}x y", true), Ok((name_token("\u{20ac}x"), 6)));
    assert_eq!(Token::parse("\"\u{e9}\u{1f600}\" x", true), Ok((string_token("\u{e9}\u{1f600}"), 8)));
    assert_eq!(Token::parse("# \u{e9}\n\tx", true), Ok((Token::Indent(1), 6)));
}

#[test]
fn columns_are_counted_in_bytes() {
    let mut s = TokenStream::parse("\"\u{e9}\" + x\n\t\u{20ac} = 1").expect("tokens");
    assert_eq!(s.next(), Some(string_token("\u{e9}")));
    assert_eq!(s.position(), (1, 0));
    assert_eq!(s.next(), Some(Token::Op(Op::Add)));
    assert_eq!(s.position(), (1, 4));
    assert_eq!(s.next(), Some(name_token("x")));
    assert_eq!(s.position(), (1, 6));
    assert_eq!(s.next(), Some(Token::Indent(1)));
    assert_eq!(s.position(), (2, 0));
    assert_eq!(s.next(), Some(name_token("\u{20ac}")));
    assert_eq!(s.position(), (2, 1));
    assert_eq!(s.next(), Some(Token::Assign(AssignOp::Plain)));
    assert_eq!(s.position(), (2, 4));
    assert_eq!(s.next(), Some(number_token("1")));
    assert_eq!(s.position(), (2, 6));
    assert_eq!(s.next(), None);
}

#[test]
fn bytes_of_characters() {
    assert_eq!(width_of('a'), 1);
    assert_eq!(width_of('\u{7f}'), 1);
    assert_eq!(width_of('\u{80}'), 2);
    assert_eq!(width_of('\u{7ff}'), 2);
    assert_eq!(width_of('\u{800}'), 3);
    assert_eq!(width_of('\u{ffff}'), 3);
    assert_eq!(width_of('\u{10000}'), 4);
    assert_eq!(width_of('\u{10ffff}'), 4);
    let text = "a\u{e9}\u{20ac}\u{1f600}";
    let chars: Vec<char> = text.chars().collect();
    assert_eq!(byte_length(&chars, 0, 4), text.len());
    assert_eq!(byte_length(&chars, 1, 3), 5);
    assert_eq!(byte_length(&chars, 2, 2), 0);
    for code in 0..0x11_0000u32 {
        if let Some(c) = char::from_u32(code) {
            assert_eq!(width_of(c), c.len_utf8());
        }
    }
}

#[test]
fn ascii_letters_digits_and_white_space() {
    for code in 0..0x80u32 {
        let c = char::from_u32(code).expect("an ASCII character");
        assert_eq!(is_alphanumeric(c), c.is_ascii_alphanumeric());
        assert_eq!(is_whitespace(c), c == ' ' || ('\t'..='\r').contains(&c));
    }
    assert!(is_alphanumeric('\u{e9}'));
    assert!(!is_alphanumeric('\u{20ac}'));
    assert!(is_whitespace('\u{a0}'));
    assert!(!is_whitespace('\u{e9}'));
}
