use vstd::prelude::*;
use vstd::utf8::{encode_utf8, is_char_boundary};
use crate::text::{
    blank, byte_len, byte_length, char_from_code, digit_of, digit_value, is_alphanumeric,
    is_decimal_digit, is_scalar_value, is_whitespace, lemma_byte_len_bounds,
    lemma_byte_len_is_boundary, letter_or_digit, spells, string_from, to_chars,
};

verus! {

/// A binary or unary operator of the language.
#[derive(Copy, Clone, Debug, PartialEq, Eq, Structural)]
pub enum Op {
    Add,
    Sub,
    Mul,
    Div,
    Rem,
    And,
    Or,
    Xor,
    Not,
    AndThen,
    OrElse,
    Eq,
    Neq,
    LessEq,
    GreaterEq,
    Less,
    Greater,
    ShiftLeft,
    ShiftRight,
    Access,
    Index,
}

/// The operator folded into an assignment, `Plain` for a plain `=`.
#[derive(Copy, Clone, Debug, PartialEq, Eq, Structural)]
pub enum AssignOp {
    Plain,
    Add,
    Sub,
    Mul,
    Div,
    Rem,
    And,
    Or,
    Xor,
}

/// One lexical unit of a source text.
#[derive(Clone, Debug, PartialEq)]
pub enum Token {
    Number(String),
    Name(String),
    String(String),
    Op(Op),
    Assign(AssignOp),
    Indent(u8),
    Var,
    BracketRoundOpen,
    BracketRoundClose,
    BracketSquareOpen,
    BracketSquareClose,
    BracketCurlyOpen,
    BracketCurlyClose,
    If,
    Elif,
    Else,
    While,
    For,
    In,
    Fn,
    Return,
    Comma,
    Pass,
    Colon,
    Break,
    Continue,
    As,
    Is,
    Try,
    Catch,
    True,
    False,
    To,
    Step,
    _Self,
    Env,
    Int,
    Real,
    Str,
}

/// The mathematical value of a [`Token`]: texts are sequences of characters.
pub enum TokenView {
    Number(Seq<char>),
    Name(Seq<char>),
    String(Seq<char>),
    Op(Op),
    Assign(AssignOp),
    Indent(u8),
    Var,
    BracketRoundOpen,
    BracketRoundClose,
    BracketSquareOpen,
    BracketSquareClose,
    BracketCurlyOpen,
    BracketCurlyClose,
    If,
    Elif,
    Else,
    While,
    For,
    In,
    Fn,
    Return,
    Comma,
    Pass,
    Colon,
    Break,
    Continue,
    As,
    Is,
    Try,
    Catch,
    True,
    False,
    To,
    Step,
    _Self,
    Env,
    Int,
    Real,
    Str,
}

/// Why no token could be read.
#[derive(Copy, Clone, Debug, PartialEq, Eq, Structural)]
pub enum TokenError {
    /// Only blanks and comments are left.
    Empty,
    UnterminatedString,
    InvalidAssignOp,
    SpaceInIndent,
    IndentationOverflow,
    InvalidEscapeSequence,
}

/// Why a source text has no token stream.
#[derive(Copy, Clone, Debug, PartialEq, Eq, Structural)]
pub enum TokenStreamError {
    TokenError(TokenError),
}

/// A token with the line and the column at which it stands.
pub type Entry = (Token, u32, u32);

/// The mathematical value of an [`Entry`].
pub type EntryView = (TokenView, u32, u32);

impl View for Token {
    type V = TokenView;

    open spec fn view(&self) -> TokenView {
        self.model()
    }
}

impl Token {
    /// The mathematical value of the token. It is `shape`, kept apart so
    /// that a proof unfolds it only for the tokens it asks about.
    #[verifier::opaque]
    pub open spec fn model(&self) -> TokenView {
        self.shape()
    }

    /// The mathematical value of the token, variant by variant.
    pub open spec fn shape(&self) -> TokenView {
        match *self {
            Token::Number(s) => TokenView::Number(s@),
            Token::Name(s) => TokenView::Name(s@),
            Token::String(s) => TokenView::String(s@),
            Token::Op(op) => TokenView::Op(op),
            Token::Assign(op) => TokenView::Assign(op),
            Token::Indent(n) => TokenView::Indent(n),
            Token::Var => TokenView::Var,
            Token::BracketRoundOpen => TokenView::BracketRoundOpen,
            Token::BracketRoundClose => TokenView::BracketRoundClose,
            Token::BracketSquareOpen => TokenView::BracketSquareOpen,
            Token::BracketSquareClose => TokenView::BracketSquareClose,
            Token::BracketCurlyOpen => TokenView::BracketCurlyOpen,
            Token::BracketCurlyClose => TokenView::BracketCurlyClose,
            Token::If => TokenView::If,
            Token::Elif => TokenView::Elif,
            Token::Else => TokenView::Else,
            Token::While => TokenView::While,
            Token::For => TokenView::For,
            Token::In => TokenView::In,
            Token::Fn => TokenView::Fn,
            Token::Return => TokenView::Return,
            Token::Comma => TokenView::Comma,
            Token::Pass => TokenView::Pass,
            Token::Colon => TokenView::Colon,
            Token::Break => TokenView::Break,
            Token::Continue => TokenView::Continue,
            Token::As => TokenView::As,
            Token::Is => TokenView::Is,
            Token::Try => TokenView::Try,
            Token::Catch => TokenView::Catch,
            Token::True => TokenView::True,
            Token::False => TokenView::False,
            Token::To => TokenView::To,
            Token::Step => TokenView::Step,
            Token::_Self => TokenView::_Self,
            Token::Env => TokenView::Env,
            Token::Int => TokenView::Int,
            Token::Real => TokenView::Real,
            Token::Str => TokenView::Str,
        }
    }
}

impl Token {
    /// A copy of the token.
    pub fn dup(&self) -> (r: Token)
        ensures
            r@ == self@,
    {
        proof {
            reveal(Token::model);
        }
        match self {
            Token::Number(s) => Token::Number(s.clone()),
            Token::Name(s) => Token::Name(s.clone()),
            Token::String(s) => Token::String(s.clone()),
            Token::Op(op) => Token::Op(*op),
            Token::Assign(op) => Token::Assign(*op),
            Token::Indent(n) => Token::Indent(*n),
            Token::Var => Token::Var,
            Token::BracketRoundOpen => Token::BracketRoundOpen,
            Token::BracketRoundClose => Token::BracketRoundClose,
            Token::BracketSquareOpen => Token::BracketSquareOpen,
            Token::BracketSquareClose => Token::BracketSquareClose,
            Token::BracketCurlyOpen => Token::BracketCurlyOpen,
            Token::BracketCurlyClose => Token::BracketCurlyClose,
            Token::If => Token::If,
            Token::Elif => Token::Elif,
            Token::Else => Token::Else,
            Token::While => Token::While,
            Token::For => Token::For,
            Token::In => Token::In,
            Token::Fn => Token::Fn,
            Token::Return => Token::Return,
            Token::Comma => Token::Comma,
            Token::Pass => Token::Pass,
            Token::Colon => Token::Colon,
            Token::Break => Token::Break,
            Token::Continue => Token::Continue,
            Token::As => Token::As,
            Token::Is => Token::Is,
            Token::Try => Token::Try,
            Token::Catch => Token::Catch,
            Token::True => Token::True,
            Token::False => Token::False,
            Token::To => Token::To,
            Token::Step => Token::Step,
            Token::_Self => Token::_Self,
            Token::Env => Token::Env,
            Token::Int => Token::Int,
            Token::Real => Token::Real,
            Token::Str => Token::Str,
        }
    }
}

impl Op {
    /// How tightly the operator binds: a larger number binds tighter.
    #[verifier::opaque]
    pub open spec fn rank(self) -> int {
        match self {
            Op::Access => 13,
            Op::Index => 12,
            Op::Not => 11,
            Op::Mul | Op::Div | Op::Rem => 10,
            Op::Add | Op::Sub => 9,
            Op::ShiftRight | Op::ShiftLeft => 8,
            Op::And => 7,
            Op::Xor => 6,
            Op::Or => 5,
            Op::Less | Op::Greater | Op::LessEq | Op::GreaterEq => 4,
            Op::Eq | Op::Neq => 3,
            Op::AndThen | Op::OrElse => 2,
        }
    }

    pub fn precedence(&self) -> (p: i8)
        ensures
            p == self.rank(),
    {
        proof {
            reveal(Op::rank);
        }
        match *self {
            Op::Access => 13,
            Op::Index => 12,
            Op::Not => 11,
            Op::Mul | Op::Div | Op::Rem => 10,
            Op::Add | Op::Sub => 9,
            Op::ShiftRight | Op::ShiftLeft => 8,
            Op::And => 7,
            Op::Xor => 6,
            Op::Or => 5,
            Op::Less | Op::Greater | Op::LessEq | Op::GreaterEq => 4,
            Op::Eq | Op::Neq => 3,
            Op::AndThen | Op::OrElse => 2,
        }
    }

    /// Whether `self` binds at least as tightly as `rhs`.
    pub fn binds_as_tight(&self, rhs: &Op) -> (r: bool)
        ensures
            r == (self.rank() >= rhs.rank()),
    {
        self.precedence() >= rhs.precedence()
    }
}

impl AssignOp {
    /// The operator that a compound assignment applies, if any.
    pub open spec fn operator(self) -> Option<Op> {
        match self {
            AssignOp::Plain => None,
            AssignOp::Add => Some(Op::Add),
            AssignOp::Sub => Some(Op::Sub),
            AssignOp::Mul => Some(Op::Mul),
            AssignOp::Div => Some(Op::Div),
            AssignOp::Rem => Some(Op::Rem),
            AssignOp::And => Some(Op::And),
            AssignOp::Or => Some(Op::Or),
            AssignOp::Xor => Some(Op::Xor),
        }
    }

    pub fn to_op(self) -> (r: Option<Op>)
        ensures
            r == self.operator(),
    {
        match self {
            AssignOp::Plain => None,
            AssignOp::Add => Some(Op::Add),
            AssignOp::Sub => Some(Op::Sub),
            AssignOp::Mul => Some(Op::Mul),
            AssignOp::Div => Some(Op::Div),
            AssignOp::Rem => Some(Op::Rem),
            AssignOp::And => Some(Op::And),
            AssignOp::Or => Some(Op::Or),
            AssignOp::Xor => Some(Op::Xor),
        }
    }
}

/// The characters that operators are made of.
pub open spec fn is_operator_char(c: char) -> bool {
    c == '=' || c == '+' || c == '-' || c == '*' || c == '/' || c == '%' || c == '&' || c == '|'
        || c == '^' || c == '!' || c == '<' || c == '>' || c == '.'
}

pub open spec fn is_bracket_char(c: char) -> bool {
    c == '(' || c == ')' || c == '[' || c == ']' || c == '{' || c == '}'
}

/// Whether `c` ends a name that stands before it.
pub open spec fn ends_name(c: char) -> bool {
    blank(c) || is_operator_char(c) || is_bracket_char(c) || c == ','
}

/// The keyword that `text` spells, or the name that it is.
pub open spec fn word_token(text: Seq<char>) -> TokenView {
    if text == "if"@ {
        TokenView::If
    } else if text == "else"@ {
        TokenView::Else
    } else if text == "elif"@ {
        TokenView::Elif
    } else if text == "while"@ {
        TokenView::While
    } else if text == "for"@ {
        TokenView::For
    } else if text == "in"@ {
        TokenView::In
    } else if text == "var"@ {
        TokenView::Var
    } else if text == "fn"@ {
        TokenView::Fn
    } else if text == "return"@ {
        TokenView::Return
    } else if text == "pass"@ {
        TokenView::Pass
    } else if text == "continue"@ {
        TokenView::Continue
    } else if text == "break"@ {
        TokenView::Break
    } else if text == "as"@ {
        TokenView::As
    } else if text == "is"@ {
        TokenView::Is
    } else if text == "try"@ {
        TokenView::Try
    } else if text == "catch"@ {
        TokenView::Catch
    } else if text == "true"@ {
        TokenView::True
    } else if text == "false"@ {
        TokenView::False
    } else if text == "to"@ {
        TokenView::To
    } else if text == "step"@ {
        TokenView::Step
    } else if text == "int"@ {
        TokenView::Int
    } else if text == "real"@ {
        TokenView::Real
    } else if text == "str"@ {
        TokenView::Str
    } else if text == "env"@ {
        TokenView::Env
    } else if text == "self"@ {
        TokenView::_Self
    } else {
        TokenView::Name(text)
    }
}

/// Where the blanks and comments that start at `i` end: the index of the
/// first character that belongs to a token, or the length of `s`. A comment
/// runs from `#` up to, not including, the next newline; a tab is a blank
/// unless the text is read as the start of a file.
pub open spec fn blank_end(s: Seq<char>, i: int, start_of_file: bool, in_comment: bool) -> int
    decreases s.len() - i,
{
    if i < 0 || i >= s.len() {
        s.len() as int
    } else if in_comment {
        if s[i] == '\n' {
            i
        } else {
            blank_end(s, i + 1, start_of_file, true)
        }
    } else if s[i] == '#' {
        blank_end(s, i + 1, start_of_file, true)
    } else if s[i] == ' ' || s[i] == '\r' || (s[i] == '\t' && !start_of_file) {
        blank_end(s, i + 1, start_of_file, false)
    } else {
        i
    }
}

/// The indent token of a line whose tabs are counted from `i` on, `count`
/// of them having been seen already.
pub open spec fn indent_at(s: Seq<char>, i: int, count: int) -> Result<(TokenView, int), TokenError>
    decreases s.len() - i,
{
    if i < 0 || i >= s.len() {
        Err(TokenError::Empty)
    } else if s[i] == '\t' {
        if count >= 255 {
            Err(TokenError::IndentationOverflow)
        } else {
            indent_at(s, i + 1, count + 1)
        }
    } else if s[i] == ' ' {
        Err(TokenError::SpaceInIndent)
    } else {
        Ok((TokenView::Indent(count as u8), i))
    }
}

/// The value of `count` digits of the given radix that stand at `i`, most
/// significant first, added to `acc` shifted left; `None` where a digit is
/// missing.
pub open spec fn digits_at(s: Seq<char>, i: int, count: nat, radix: u32, acc: int) -> Option<int>
    decreases count,
{
    if count == 0 {
        Some(acc)
    } else if i < 0 || i >= s.len() {
        None
    } else {
        match digit_of(s[i], radix) {
            Some(d) => digits_at(s, i + 1, (count - 1) as nat, radix, acc * radix + d),
            None => None,
        }
    }
}

/// The character with the given code, if there is one.
pub open spec fn coded_char(code: Option<int>) -> Result<char, TokenError> {
    match code {
        Some(n) => if 0 <= n <= u32::MAX && is_scalar_value(n as u32) {
            Ok(n as char)
        } else {
            Err(TokenError::InvalidEscapeSequence)
        },
        None => Err(TokenError::InvalidEscapeSequence),
    }
}

/// The character that the escape sequence whose letter stands at `i` (just
/// behind the backslash) denotes, and how many characters the sequence takes
/// behind its letter.
pub open spec fn escape_at(s: Seq<char>, i: int) -> Result<(char, nat), TokenError> {
    if i < 0 || i >= s.len() {
        Err(TokenError::UnterminatedString)
    } else {
        let c = s[i];
        if c == 'a' {
            Ok(('\x07', 0))
        } else if c == 'b' {
            Ok(('\x08', 0))
        } else if c == 'e' {
            Ok(('\x1b', 0))
        } else if c == 'f' {
            Ok(('\x0c', 0))
        } else if c == 'n' {
            Ok(('\n', 0))
        } else if c == 'r' {
            Ok(('\r', 0))
        } else if c == 't' {
            Ok(('\t', 0))
        } else if c == 'v' {
            Ok(('\x0b', 0))
        } else if c == '\\' {
            Ok(('\\', 0))
        } else if c == '\'' {
            Ok(('\'', 0))
        } else if c == '"' {
            Ok(('"', 0))
        } else if digit_of(c, 8).is_some() {
            match coded_char(digits_at(s, i, 3, 8, 0)) {
                Ok(ch) => Ok((ch, 2)),
                Err(e) => Err(e),
            }
        } else if c == 'x' {
            match coded_char(digits_at(s, i + 1, 2, 16, 0)) {
                Ok(ch) => Ok((ch, 2)),
                Err(e) => Err(e),
            }
        } else if c == 'u' {
            match coded_char(digits_at(s, i + 1, 4, 16, 0)) {
                Ok(ch) => Ok((ch, 4)),
                Err(e) => Err(e),
            }
        } else if c == 'U' {
            match coded_char(digits_at(s, i + 1, 8, 16, 0)) {
                Ok(ch) => Ok((ch, 8)),
                Err(e) => Err(e),
            }
        } else {
            Err(TokenError::InvalidEscapeSequence)
        }
    }
}

/// The text of the string literal whose characters are read from `i` on,
/// `acc` having been decoded already, and the index just behind its closing
/// quote.
pub open spec fn string_at(s: Seq<char>, i: int, acc: Seq<char>) -> Result<(Seq<char>, int), TokenError>
    decreases
            (if i <= s.len() {
                s.len() - i
            } else {
                0
            }),
{
    if i < 0 || i >= s.len() {
        Err(TokenError::UnterminatedString)
    } else if s[i] == '"' {
        Ok((acc, i + 1))
    } else if s[i] == '\\' {
        match escape_at(s, i + 1) {
            Ok((c, extra)) => string_at(s, i + 2 + extra, acc.push(c)),
            Err(e) => Err(e),
        }
    } else {
        string_at(s, i + 1, acc.push(s[i]))
    }
}

/// Where the number that is read from `i` on ends. A first `.` belongs to
/// it unless the number ends right behind it; a second one ends it.
pub open spec fn number_end(s: Seq<char>, i: int, dot_seen: bool, after_dot: bool) -> int
    decreases s.len() - i,
{
    if i < 0 || i >= s.len() {
        s.len() as int
    } else if letter_or_digit(s[i]) || s[i] == '_' {
        number_end(s, i + 1, dot_seen, false)
    } else if dot_seen || s[i] != '.' {
        if after_dot {
            i - 1
        } else {
            i
        }
    } else {
        number_end(s, i + 1, true, true)
    }
}

/// Where the name that is read from `i` on ends.
pub open spec fn name_end(s: Seq<char>, i: int) -> int
    decreases s.len() - i,
{
    if i < 0 || i >= s.len() {
        s.len() as int
    } else if ends_name(s[i]) {
        i
    } else {
        name_end(s, i + 1)
    }
}

/// The operator or assignment that starts with the operator character at `p`.
pub open spec fn operator_at(s: Seq<char>, p: int) -> Result<(TokenView, int), TokenError> {
    let c = s[p];
    let next = if p + 1 < s.len() {
        Some(s[p + 1])
    } else {
        None
    };
    if next == Some('=') {
        if c == '+' {
            Ok((TokenView::Assign(AssignOp::Add), p + 2))
        } else if c == '-' {
            Ok((TokenView::Assign(AssignOp::Sub), p + 2))
        } else if c == '*' {
            Ok((TokenView::Assign(AssignOp::Mul), p + 2))
        } else if c == '/' {
            Ok((TokenView::Assign(AssignOp::Div), p + 2))
        } else if c == '%' {
            Ok((TokenView::Assign(AssignOp::Rem), p + 2))
        } else if c == '&' {
            Ok((TokenView::Assign(AssignOp::And), p + 2))
        } else if c == '|' {
            Ok((TokenView::Assign(AssignOp::Or), p + 2))
        } else if c == '^' {
            Ok((TokenView::Assign(AssignOp::Xor), p + 2))
        } else if c == '=' {
            Ok((TokenView::Op(Op::Eq), p + 2))
        } else if c == '!' {
            Ok((TokenView::Op(Op::Neq), p + 2))
        } else if c == '<' {
            Ok((TokenView::Op(Op::LessEq), p + 2))
        } else if c == '>' {
            Ok((TokenView::Op(Op::GreaterEq), p + 2))
        } else {
            Err(TokenError::InvalidAssignOp)
        }
    } else if c == '+' {
        Ok((TokenView::Op(Op::Add), p + 1))
    } else if c == '-' {
        Ok((TokenView::Op(Op::Sub), p + 1))
    } else if c == '*' {
        Ok((TokenView::Op(Op::Mul), p + 1))
    } else if c == '/' {
        Ok((TokenView::Op(Op::Div), p + 1))
    } else if c == '%' {
        Ok((TokenView::Op(Op::Rem), p + 1))
    } else if c == '&' {
        if next == Some('&') {
            Ok((TokenView::Op(Op::AndThen), p + 2))
        } else {
            Ok((TokenView::Op(Op::And), p + 1))
        }
    } else if c == '|' {
        if next == Some('|') {
            Ok((TokenView::Op(Op::OrElse), p + 2))
        } else {
            Ok((TokenView::Op(Op::Or), p + 1))
        }
    } else if c == '^' {
        Ok((TokenView::Op(Op::Xor), p + 1))
    } else if c == '=' {
        Ok((TokenView::Assign(AssignOp::Plain), p + 1))
    } else if c == '<' {
        if next == Some('<') {
            Ok((TokenView::Op(Op::ShiftLeft), p + 2))
        } else {
            Ok((TokenView::Op(Op::Less), p + 1))
        }
    } else if c == '>' {
        if next == Some('>') {
            Ok((TokenView::Op(Op::ShiftRight), p + 2))
        } else {
            Ok((TokenView::Op(Op::Greater), p + 1))
        }
    } else if c == '!' {
        Ok((TokenView::Op(Op::Not), p + 1))
    } else {
        Ok((TokenView::Op(Op::Access), p + 1))
    }
}

/// The token that starts with the character at `p`, which is no blank, and
/// the index just behind it.
pub open spec fn lexeme_at(s: Seq<char>, p: int, start_of_file: bool) -> Result<(TokenView, int), TokenError> {
    let c = s[p];
    if c == '\n' {
        indent_at(s, p + 1, 0)
    } else if c == '\t' {
        indent_at(s, p + 1, 1)
    } else if c == '(' {
        Ok((TokenView::BracketRoundOpen, p + 1))
    } else if c == ')' {
        Ok((TokenView::BracketRoundClose, p + 1))
    } else if c == '[' {
        Ok((TokenView::BracketSquareOpen, p + 1))
    } else if c == ']' {
        Ok((TokenView::BracketSquareClose, p + 1))
    } else if c == '{' {
        Ok((TokenView::BracketCurlyOpen, p + 1))
    } else if c == '}' {
        Ok((TokenView::BracketCurlyClose, p + 1))
    } else if c == ',' {
        Ok((TokenView::Comma, p + 1))
    } else if c == ':' {
        Ok((TokenView::Colon, p + 1))
    } else if c == '"' {
        match string_at(s, p + 1, Seq::<char>::empty()) {
            Ok((text, end)) => Ok((TokenView::String(text), end)),
            Err(e) => Err(e),
        }
    } else if is_operator_char(c) {
        operator_at(s, p)
    } else if is_decimal_digit(c) {
        let end = number_end(s, p + 1, false, false);
        Ok((TokenView::Number(s.subrange(p, end)), end))
    } else {
        let end = name_end(s, p + 1);
        Ok((word_token(s.subrange(p, end)), end))
    }
}

/// The first token of `s` at or behind index `i`, and the index just behind
/// it; `Empty` where only blanks and comments are left.
pub open spec fn token_at(s: Seq<char>, i: int, start_of_file: bool) -> Result<(TokenView, int), TokenError> {
    let p = blank_end(s, i, start_of_file, false);
    if p >= s.len() {
        Err(TokenError::Empty)
    } else {
        lexeme_at(s, p, start_of_file)
    }
}

/// The text of a number or of a name is a part of the text it was read
/// from: what stands between the blanks before the token and its end.
pub proof fn lemma_payload_is_read(s: Seq<char>, i: int, start_of_file: bool)
    requires
        0 <= i,
    ensures
        match token_at(s, i, start_of_file) {
            Ok((TokenView::Number(text), end)) => text == s.subrange(
                blank_end(s, i, start_of_file, false),
                end,
            ),
            Ok((TokenView::Name(text), end)) => text == s.subrange(
                blank_end(s, i, start_of_file, false),
                end,
            ),
            _ => true,
        },
{
    let p = blank_end(s, i, start_of_file, false);
    if p < s.len() {
        lemma_indent_is_indent(s, p + 1, 0);
        lemma_indent_is_indent(s, p + 1, 1);
    }
}

/// What is read as an indent is an indent.
pub proof fn lemma_indent_is_indent(s: Seq<char>, i: int, count: int)
    ensures
        indent_at(s, i, count) matches Ok((token, _)) ==> token is Indent,
    decreases s.len() - i,
{
    if 0 <= i < s.len() && s[i] == '\t' && count < 255 {
        lemma_indent_is_indent(s, i + 1, count + 1);
    }
}

/// Whether what was read, a token and an index, is what `expected` says.
pub open spec fn reads_as(
    r: Result<(Token, usize), TokenError>,
    expected: Result<(TokenView, int), TokenError>,
) -> bool {
    match r {
        Ok((token, end)) => expected == Ok::<(TokenView, int), TokenError>((token@, end as int)),
        Err(e) => expected == Err::<(TokenView, int), TokenError>(e),
    }
}

/// Sixteen to the power `k`.
pub open spec fn pow16(k: nat) -> int
    decreases k,
{
    if k == 0 {
        1
    } else {
        16 * pow16((k - 1) as nat)
    }
}

fn skip_blank(chars: &[char], from: usize, start_of_file: bool) -> (p: usize)
    requires
        from <= chars@.len(),
    ensures
        p == blank_end(chars@, from as int, start_of_file, false),
        from <= p <= chars@.len(),
{
    let mut i: usize = from;
    let mut in_comment = false;
    while i < chars.len()
        invariant
            from <= i <= chars@.len(),
            blank_end(chars@, from as int, start_of_file, false) == blank_end(
                chars@,
                i as int,
                start_of_file,
                in_comment,
            ),
        decreases chars@.len() - i,
    {
        let c = chars[i];
        if in_comment {
            if c == '\n' {
                return i;
            }
            i += 1;
        } else if c == '#' {
            in_comment = true;
            i += 1;
        } else if c == ' ' || c == '\r' || (c == '\t' && !start_of_file) {
            i += 1;
        } else {
            return i;
        }
    }
    i
}

fn read_indent(chars: &[char], from: usize, initial: u8) -> (r: Result<(Token, usize), TokenError>)
    requires
        from <= chars@.len(),
    ensures
        reads_as(r, indent_at(chars@, from as int, initial as int)),
        match r {
            Ok((Token::Indent(n), end)) => from <= end < chars@.len() && n - initial == end - from,
            Ok(_) => false,
            Err(_) => true,
        },
{
    proof {
        reveal(Token::model);
    }
    let mut i: usize = from;
    let mut count: u8 = initial;
    while i < chars.len()
        invariant
            from <= i <= chars@.len(),
            initial <= count,
            count - initial == i - from,
            indent_at(chars@, from as int, initial as int) == indent_at(
                chars@,
                i as int,
                count as int,
            ),
        decreases chars@.len() - i,
    {
        let c = chars[i];
        if c == '\t' {
            if count == 255 {
                return Err(TokenError::IndentationOverflow);
            }
            count += 1;
            i += 1;
        } else if c == ' ' {
            return Err(TokenError::SpaceInIndent);
        } else {
            proof {
                reveal(Token::model);
            }
            return Ok((Token::Indent(count), i));
        }
    }
    Err(TokenError::Empty)
}

fn read_digits(chars: &[char], from: usize, count: usize, radix: u32) -> (r: Option<u32>)
    requires
        from <= chars@.len(),
        count <= 8,
        radix <= 16,
    ensures
        match r {
            Some(n) => digits_at(chars@, from as int, count as nat, radix, 0) == Some(n as int)
                && from + count <= chars@.len(),
            None => digits_at(chars@, from as int, count as nat, radix, 0).is_none(),
        },
{
    let mut acc: u64 = 0;
    let mut done: usize = 0;
    while done < count
        invariant
            from <= chars@.len(),
            count <= 8,
            radix <= 16,
            done <= count,
            from + done <= chars@.len(),
            0 <= acc < pow16(done as nat),
            digits_at(chars@, from as int, count as nat, radix, 0) == digits_at(
                chars@,
                from + done,
                (count - done) as nat,
                radix,
                acc as int,
            ),
        decreases count - done,
    {
        if done >= chars.len() - from {
            return None;
        }
        match digit_value(chars[from + done], radix) {
            Some(d) => {
                proof {
                    reveal_with_fuel(pow16, 10);
                    lemma_pow16_monotonic(done as nat, 7);
                    assert(acc * radix <= acc * 16) by (nonlinear_arith)
                        requires
                            0 <= acc,
                            radix <= 16,
                    ;
                    assert(pow16((done + 1) as nat) == 16 * pow16(done as nat));
                    lemma_pow16_monotonic((done + 1) as nat, 8);
                }
                acc = acc * (radix as u64) + (d as u64);
                done += 1;
            },
            None => {
                return None;
            },
        }
    }
    proof {
        reveal_with_fuel(pow16, 10);
        lemma_pow16_monotonic(done as nat, 8);
    }
    Some(acc as u32)
}

proof fn lemma_pow16_monotonic(a: nat, b: nat)
    requires
        a <= b,
    ensures
        0 < pow16(a) <= pow16(b),
    decreases b,
{
    if a == b {
        lemma_pow16_positive(a);
    } else {
        lemma_pow16_monotonic(a, (b - 1) as nat);
    }
}

proof fn lemma_pow16_positive(a: nat)
    ensures
        0 < pow16(a),
    decreases a,
{
    if a > 0 {
        lemma_pow16_positive((a - 1) as nat);
    }
}

fn coded(code: Option<u32>) -> (r: Result<char, TokenError>)
    ensures
        r == coded_char(
            match code {
                Some(n) => Some(n as int),
                None => None,
            },
        ),
{
    match code {
        Some(n) => match char_from_code(n) {
            Some(c) => Ok(c),
            None => Err(TokenError::InvalidEscapeSequence),
        },
        None => Err(TokenError::InvalidEscapeSequence),
    }
}

fn read_escape(chars: &[char], i: usize) -> (r: Result<(char, usize), TokenError>)
    requires
        i <= chars@.len(),
    ensures
        match r {
            Ok((c, extra)) => escape_at(chars@, i as int) == Ok::<(char, nat), TokenError>(
                (c, extra as nat),
            ) && i + 1 + extra <= chars@.len(),
            Err(e) => escape_at(chars@, i as int) == Err::<(char, nat), TokenError>(e),
        },
{
    if i >= chars.len() {
        return Err(TokenError::UnterminatedString);
    }
    let c = chars[i];
    if c == 'a' {
        Ok(('\x07', 0))
    } else if c == 'b' {
        Ok(('\x08', 0))
    } else if c == 'e' {
        Ok(('\x1b', 0))
    } else if c == 'f' {
        Ok(('\x0c', 0))
    } else if c == 'n' {
        Ok(('\n', 0))
    } else if c == 'r' {
        Ok(('\r', 0))
    } else if c == 't' {
        Ok(('\t', 0))
    } else if c == 'v' {
        Ok(('\x0b', 0))
    } else if c == '\\' {
        Ok(('\\', 0))
    } else if c == '\'' {
        Ok(('\'', 0))
    } else if c == '"' {
        Ok(('"', 0))
    } else if digit_value(c, 8).is_some() {
        match coded(read_digits(chars, i, 3, 8)) {
            Ok(ch) => Ok((ch, 2)),
            Err(e) => Err(e),
        }
    } else if c == 'x' {
        match coded(read_digits(chars, i + 1, 2, 16)) {
            Ok(ch) => Ok((ch, 2)),
            Err(e) => Err(e),
        }
    } else if c == 'u' {
        match coded(read_digits(chars, i + 1, 4, 16)) {
            Ok(ch) => Ok((ch, 4)),
            Err(e) => Err(e),
        }
    } else if c == 'U' {
        match coded(read_digits(chars, i + 1, 8, 16)) {
            Ok(ch) => Ok((ch, 8)),
            Err(e) => Err(e),
        }
    } else {
        Err(TokenError::InvalidEscapeSequence)
    }
}

/// The token of a string literal, as `string_at` gives its text.
pub open spec fn string_token(s: Seq<char>, i: int) -> Result<(TokenView, int), TokenError> {
    match string_at(s, i, Seq::<char>::empty()) {
        Ok((text, end)) => Ok((TokenView::String(text), end)),
        Err(e) => Err(e),
    }
}

fn read_string(chars: &[char], from: usize) -> (r: Result<(Token, usize), TokenError>)
    requires
        from <= chars@.len(),
    ensures
        reads_as(r, string_token(chars@, from as int)),
        r matches Ok((_, end)) ==> from < end <= chars@.len(),
{
    let mut acc: Vec<char> = Vec::new();
    let mut i: usize = from;
    while i < chars.len()
        invariant
            from <= i <= chars@.len(),
            string_at(chars@, from as int, Seq::<char>::empty()) == string_at(
                chars@,
                i as int,
                acc@,
            ),
        decreases chars@.len() - i,
    {
        let c = chars[i];
        if c == '"' {
            let text = string_from(acc.as_slice(), 0, acc.len());
            assert(acc@.subrange(0, acc@.len() as int) =~= acc@);
            proof {
                reveal(Token::model);
            }
            return Ok((Token::String(text), i + 1));
        } else if c == '\\' {
            match read_escape(chars, i + 1) {
                Ok((ch, extra)) => {
                    acc.push(ch);
                    i = i + 2 + extra;
                },
                Err(e) => {
                    return Err(e);
                },
            }
        } else {
            acc.push(c);
            i += 1;
        }
    }
    Err(TokenError::UnterminatedString)
}

fn is_operator(c: char) -> (r: bool)
    ensures
        r == is_operator_char(c),
{
    c == '=' || c == '+' || c == '-' || c == '*' || c == '/' || c == '%' || c == '&' || c == '|'
        || c == '^' || c == '!' || c == '<' || c == '>' || c == '.'
}

fn is_bracket(c: char) -> (r: bool)
    ensures
        r == is_bracket_char(c),
{
    c == '(' || c == ')' || c == '[' || c == ']' || c == '{' || c == '}'
}

fn read_operator(chars: &[char], p: usize) -> (r: Result<(Token, usize), TokenError>)
    requires
        p < chars@.len(),
    ensures
        reads_as(r, operator_at(chars@, p as int)),
        r matches Ok((_, end)) ==> p < end <= chars@.len(),
{
    proof {
        reveal(Token::model);
    }
    let c = chars[p];
    let followed = p + 1 < chars.len();
    if followed && chars[p + 1] == '=' {
        if c == '+' {
            Ok((Token::Assign(AssignOp::Add), p + 2))
        } else if c == '-' {
            Ok((Token::Assign(AssignOp::Sub), p + 2))
        } else if c == '*' {
            Ok((Token::Assign(AssignOp::Mul), p + 2))
        } else if c == '/' {
            Ok((Token::Assign(AssignOp::Div), p + 2))
        } else if c == '%' {
            Ok((Token::Assign(AssignOp::Rem), p + 2))
        } else if c == '&' {
            Ok((Token::Assign(AssignOp::And), p + 2))
        } else if c == '|' {
            Ok((Token::Assign(AssignOp::Or), p + 2))
        } else if c == '^' {
            Ok((Token::Assign(AssignOp::Xor), p + 2))
        } else if c == '=' {
            Ok((Token::Op(Op::Eq), p + 2))
        } else if c == '!' {
            Ok((Token::Op(Op::Neq), p + 2))
        } else if c == '<' {
            Ok((Token::Op(Op::LessEq), p + 2))
        } else if c == '>' {
            Ok((Token::Op(Op::GreaterEq), p + 2))
        } else {
            Err(TokenError::InvalidAssignOp)
        }
    } else if c == '+' {
        Ok((Token::Op(Op::Add), p + 1))
    } else if c == '-' {
        Ok((Token::Op(Op::Sub), p + 1))
    } else if c == '*' {
        Ok((Token::Op(Op::Mul), p + 1))
    } else if c == '/' {
        Ok((Token::Op(Op::Div), p + 1))
    } else if c == '%' {
        Ok((Token::Op(Op::Rem), p + 1))
    } else if c == '&' {
        if followed && chars[p + 1] == '&' {
            Ok((Token::Op(Op::AndThen), p + 2))
        } else {
            Ok((Token::Op(Op::And), p + 1))
        }
    } else if c == '|' {
        if followed && chars[p + 1] == '|' {
            Ok((Token::Op(Op::OrElse), p + 2))
        } else {
            Ok((Token::Op(Op::Or), p + 1))
        }
    } else if c == '^' {
        Ok((Token::Op(Op::Xor), p + 1))
    } else if c == '=' {
        Ok((Token::Assign(AssignOp::Plain), p + 1))
    } else if c == '<' {
        if followed && chars[p + 1] == '<' {
            Ok((Token::Op(Op::ShiftLeft), p + 2))
        } else {
            Ok((Token::Op(Op::Less), p + 1))
        }
    } else if c == '>' {
        if followed && chars[p + 1] == '>' {
            Ok((Token::Op(Op::ShiftRight), p + 2))
        } else {
            Ok((Token::Op(Op::Greater), p + 1))
        }
    } else if c == '!' {
        Ok((Token::Op(Op::Not), p + 1))
    } else {
        Ok((Token::Op(Op::Access), p + 1))
    }
}

fn number_span(chars: &[char], from: usize) -> (end: usize)
    requires
        0 < from <= chars@.len(),
    ensures
        end == number_end(chars@, from as int, false, false),
        from <= end <= chars@.len(),
{
    let mut i: usize = from;
    let mut dot_seen = false;
    let mut after_dot = false;
    while i < chars.len()
        invariant
            from <= i <= chars@.len(),
            after_dot ==> from < i,
            number_end(chars@, from as int, false, false) == number_end(
                chars@,
                i as int,
                dot_seen,
                after_dot,
            ),
        decreases chars@.len() - i,
    {
        let c = chars[i];
        if is_alphanumeric(c) || c == '_' {
            after_dot = false;
        } else if dot_seen || c != '.' {
            if after_dot {
                return i - 1;
            } else {
                return i;
            }
        } else {
            dot_seen = true;
            after_dot = true;
        }
        i += 1;
    }
    i
}

fn name_span(chars: &[char], from: usize) -> (end: usize)
    requires
        from <= chars@.len(),
    ensures
        end == name_end(chars@, from as int),
        from <= end <= chars@.len(),
{
    let mut i: usize = from;
    while i < chars.len()
        invariant
            from <= i <= chars@.len(),
            name_end(chars@, from as int) == name_end(chars@, i as int),
        decreases chars@.len() - i,
    {
        let c = chars[i];
        if is_whitespace(c) || is_operator(c) || is_bracket(c) || c == ',' {
            return i;
        }
        i += 1;
    }
    i
}

fn word(chars: &[char], from: usize, to: usize) -> (t: Token)
    requires
        from <= to <= chars@.len(),
    ensures
        t@ == word_token(chars@.subrange(from as int, to as int)),
{
    proof {
        reveal(Token::model);
    }
    if spells(chars, from, to, "if") {
        Token::If
    } else if spells(chars, from, to, "else") {
        Token::Else
    } else if spells(chars, from, to, "elif") {
        Token::Elif
    } else if spells(chars, from, to, "while") {
        Token::While
    } else if spells(chars, from, to, "for") {
        Token::For
    } else if spells(chars, from, to, "in") {
        Token::In
    } else if spells(chars, from, to, "var") {
        Token::Var
    } else if spells(chars, from, to, "fn") {
        Token::Fn
    } else if spells(chars, from, to, "return") {
        Token::Return
    } else if spells(chars, from, to, "pass") {
        Token::Pass
    } else if spells(chars, from, to, "continue") {
        Token::Continue
    } else if spells(chars, from, to, "break") {
        Token::Break
    } else if spells(chars, from, to, "as") {
        Token::As
    } else if spells(chars, from, to, "is") {
        Token::Is
    } else if spells(chars, from, to, "try") {
        Token::Try
    } else if spells(chars, from, to, "catch") {
        Token::Catch
    } else if spells(chars, from, to, "true") {
        Token::True
    } else if spells(chars, from, to, "false") {
        Token::False
    } else if spells(chars, from, to, "to") {
        Token::To
    } else if spells(chars, from, to, "step") {
        Token::Step
    } else if spells(chars, from, to, "int") {
        Token::Int
    } else if spells(chars, from, to, "real") {
        Token::Real
    } else if spells(chars, from, to, "str") {
        Token::Str
    } else if spells(chars, from, to, "env") {
        Token::Env
    } else if spells(chars, from, to, "self") {
        Token::_Self
    } else {
        Token::Name(string_from(chars, from, to))
    }
}

/// The first token of the text `s`, and the number of bytes of `s`, in
/// UTF-8, up to the end of the token.
pub open spec fn first_token(s: Seq<char>, start_of_file: bool) -> Result<
    (TokenView, nat),
    TokenError,
> {
    match token_at(s, 0, start_of_file) {
        Ok((token, end)) => Ok((token, byte_len(s.subrange(0, end)))),
        Err(e) => Err(e),
    }
}

fn is_digit(c: char) -> (r: bool)
    ensures
        r == is_decimal_digit(c),
{
    let n: u32 = c as u32;
    0x30 <= n && n <= 0x39
}

impl Token {
    /// Reads the first token of `chars` at or behind index `from`. Gives the
    /// token and the index just behind it.
    pub fn scan(chars: &[char], from: usize, start_of_file: bool) -> (r: Result<
        (Token, usize),
        TokenError,
    >)
        requires
            from <= chars@.len(),
        ensures
            reads_as(r, token_at(chars@, from as int, start_of_file)),
            r matches Ok((_, end)) ==> from < end <= chars@.len(),
            r matches Ok((Token::Indent(n), end)) ==> n <= end - from,
    {
        proof {
            reveal(Token::model);
        }
        let p = skip_blank(chars, from, start_of_file);
        if p >= chars.len() {
            return Err(TokenError::Empty);
        }
        let c = chars[p];
        if c == '\n' {
            read_indent(chars, p + 1, 0)
        } else if c == '\t' {
            read_indent(chars, p + 1, 1)
        } else if c == '(' {
            Ok((Token::BracketRoundOpen, p + 1))
        } else if c == ')' {
            Ok((Token::BracketRoundClose, p + 1))
        } else if c == '[' {
            Ok((Token::BracketSquareOpen, p + 1))
        } else if c == ']' {
            Ok((Token::BracketSquareClose, p + 1))
        } else if c == '{' {
            Ok((Token::BracketCurlyOpen, p + 1))
        } else if c == '}' {
            Ok((Token::BracketCurlyClose, p + 1))
        } else if c == ',' {
            Ok((Token::Comma, p + 1))
        } else if c == ':' {
            Ok((Token::Colon, p + 1))
        } else if c == '"' {
            read_string(chars, p + 1)
        } else if is_operator(c) {
            read_operator(chars, p)
        } else if is_digit(c) {
            let end = number_span(chars, p + 1);
            Ok((Token::Number(string_from(chars, p, end)), end))
        } else {
            let end = name_span(chars, p + 1);
            Ok((word(chars, p, end), end))
        }
    }

    /// Reads the first token of `source`. Gives the token and the number of
    /// bytes of `source`, in UTF-8, up to its end.
    pub fn parse(source: &str, start_of_file: bool) -> (r: Result<(Token, u32), TokenError>)
        requires
            byte_len(source@) <= u32::MAX,
        ensures
            match r {
                Ok((token, n)) => first_token(source@, start_of_file) == Ok::<
                    (TokenView, nat),
                    TokenError,
                >((token@, n as nat)),
                Err(e) => first_token(source@, start_of_file) == Err::<
                    (TokenView, nat),
                    TokenError,
                >(e),
            },
            r matches Ok((_, n)) ==> 1 <= n <= byte_len(source@) && is_char_boundary(
                encode_utf8(source@),
                n as int,
            ),
    {
        let chars = to_chars(source);
        match Token::scan(chars.as_slice(), 0, start_of_file) {
            Ok((token, end)) => {
                proof {
                    lemma_byte_len_is_boundary(chars@, end as int);
                    lemma_byte_len_bounds(chars@.subrange(0, end as int));
                }
                let n = byte_length(chars.as_slice(), 0, end);
                Ok((token, n as u32))
            },
            Err(e) => Err(e),
        }
    }
}

} // verus!
