use vstd::prelude::*;
use crate::ast::{AtomView, ErrorTypeView, ErrorView, ExpressionView, UnaryOp};
use crate::number::number_of;
use crate::tokenizer::{EntryView, Op, TokenView};
use crate::words::debug_text;

verus! {

/// What was parsed, and how many tokens it took.
pub type Parsed<T> = Result<(T, nat), ErrorView>;

/// The token at index `i`, if there is one.
pub open spec fn peek(ts: Seq<EntryView>, i: int) -> Option<TokenView> {
    if 0 <= i < ts.len() {
        Some(ts[i].0)
    } else {
        None
    }
}

/// The line and column of the last of the first `i` tokens.
pub open spec fn place(ts: Seq<EntryView>, i: int) -> (u32, u32) {
    if 0 < i <= ts.len() {
        (ts[i - 1].1, ts[i - 1].2)
    } else {
        (0u32, 0u32)
    }
}

/// The index behind the token at `i`, or `i` where there is none.
pub open spec fn after(ts: Seq<EntryView>, i: int) -> int {
    if 0 <= i < ts.len() {
        i + 1
    } else {
        i
    }
}

/// How many tokens are left from index `i` on.
pub open spec fn left(ts: Seq<EntryView>, i: int) -> nat {
    if i <= ts.len() {
        (ts.len() - i) as nat
    } else {
        0
    }
}

/// The error of the given kind once `i` tokens have been read.
pub open spec fn fail(kind: ErrorTypeView, ts: Seq<EntryView>, i: int) -> ErrorView {
    ErrorView { error: kind, line: place(ts, i).0, column: place(ts, i).1 }
}

/// `r` with `used` more tokens taken before it.
pub open spec fn shift<T>(r: Parsed<T>, used: nat) -> Parsed<T> {
    match r {
        Ok((value, n)) => Ok((value, n + used)),
        Err(e) => Err(e),
    }
}

/// The atom `atom` once `i` tokens have been read.
pub open spec fn atom_at(atom: AtomView, ts: Seq<EntryView>, i: int) -> ExpressionView {
    ExpressionView::Atom { line: place(ts, i).0, column: place(ts, i).1, atom }
}

/// The number that `text` writes, as an atom.
pub open spec fn number_atom(text: Seq<char>, ts: Seq<EntryView>, i: int) -> Result<
    ExpressionView,
    ErrorView,
> {
    match number_of(text) {
        Ok(atom) => Ok(atom_at(atom, ts, i)),
        Err(_) => Err(fail(ErrorTypeView::NotANumber, ts, i)),
    }
}

pub open spec fn operation(
    left: ExpressionView,
    op: Op,
    right: ExpressionView,
    ts: Seq<EntryView>,
    i: int,
) -> ExpressionView {
    ExpressionView::Operation {
        line: place(ts, i).0,
        column: place(ts, i).1,
        op,
        left: Box::new(left),
        right: Box::new(right),
    }
}

pub open spec fn call(
    expr: Option<ExpressionView>,
    name: Seq<char>,
    arguments: Seq<ExpressionView>,
    ts: Seq<EntryView>,
    i: int,
) -> ExpressionView {
    ExpressionView::Function {
        line: place(ts, i).0,
        column: place(ts, i).1,
        expr: match expr {
            Some(e) => Some(Box::new(e)),
            None => None,
        },
        name,
        arguments,
    }
}

/// Whether `token` ends an operand after which an expression is complete.
pub open spec fn ends_expression(token: TokenView) -> bool {
    token is BracketRoundClose || token is BracketSquareClose || token is BracketCurlyClose
        || token is Indent || token is Comma || token is Colon || token is To || token is Step
        || token is Assign
}

/// The bracket that closes a list: a square one or a round one.
pub open spec fn closing(square: bool) -> TokenView {
    if square {
        TokenView::BracketSquareClose
    } else {
        TokenView::BracketRoundClose
    }
}

pub open spec fn is_closing(token: TokenView) -> bool {
    token is BracketRoundClose || token is BracketSquareClose || token is BracketCurlyClose
}

/// The operand of a unary operator: the token at `i`.
pub open spec fn unary_operand(ts: Seq<EntryView>, i: int) -> Result<ExpressionView, ErrorView> {
    match peek(ts, i) {
        Some(TokenView::Name(n)) => Ok(atom_at(AtomView::Name(n), ts, i + 1)),
        Some(TokenView::Number(t)) => number_atom(t, ts, i + 1),
        Some(TokenView::String(s)) => Ok(atom_at(AtomView::String(s), ts, i + 1)),
        None => Err(fail(ErrorTypeView::UnexpectedEOF, ts, i)),
        Some(_) => Err(fail(ErrorTypeView::InternalError, ts, i + 1)),
    }
}

/// The unary operation whose operator stands at `i`.
pub open spec fn unary(op: Op, ts: Seq<EntryView>, i: int) -> Parsed<ExpressionView> {
    if op != Op::Sub && op != Op::Not {
        Err(fail(ErrorTypeView::UnexpectedToken(debug_text(TokenView::Op(op))), ts, i + 1))
    } else {
        match unary_operand(ts, i + 1) {
            Ok(operand) => Ok(
                (
                    ExpressionView::UnaryOperation {
                        line: place(ts, i + 1).0,
                        column: place(ts, i + 1).1,
                        op: if op == Op::Sub {
                            UnaryOp::Neg
                        } else {
                            UnaryOp::Not
                        },
                        expr: Box::new(operand),
                    },
                    2nat,
                ),
            ),
            Err(e) => Err(e),
        }
    }
}

/// The operand that starts with the name at `i`: a call of it, the name
/// indexed, or the name itself.
pub open spec fn named(name: Seq<char>, ts: Seq<EntryView>, i: int) -> Parsed<ExpressionView>
    decreases left(ts, i), 0int,
{
    match peek(ts, i + 1) {
        Some(TokenView::BracketRoundOpen) => match list(
            ts,
            i + 2,
            TokenView::BracketRoundClose,
            Seq::empty(),
        ) {
            Ok((arguments, n)) => Ok((call(None, name, arguments, ts, i + 2 + n), n + 2)),
            Err(e) => Err(e),
        },
        Some(TokenView::BracketSquareOpen) => shift(
            indexed(atom_at(AtomView::Name(name), ts, i + 2), ts, i + 2),
            2,
        ),
        _ => Ok((atom_at(AtomView::Name(name), ts, i + 1), 1)),
    }
}

/// The operand that starts at `i`: a literal, a name, a call, an indexed
/// name, a unary operation on an atom, a bracketed expression, an array or a
/// dictionary.
pub open spec fn primary(ts: Seq<EntryView>, i: int) -> Parsed<ExpressionView>
    decreases left(ts, i), 1int,
{
    match peek(ts, i) {
        Some(TokenView::BracketRoundOpen) => match expression(ts, i + 1) {
            Ok((e, n)) => if peek(ts, i + 1 + n) == Some(TokenView::BracketRoundClose) {
                Ok((e, n + 2))
            } else {
                Err(
                    fail(
                        ErrorTypeView::ExpectedToken(debug_text(TokenView::BracketRoundClose)),
                        ts,
                        after(ts, i + 1 + n),
                    ),
                )
            },
            Err(e) => Err(e),
        },
        Some(TokenView::_Self) => Ok((atom_at(AtomView::_Self, ts, i + 1), 1)),
        Some(TokenView::Env) => Ok((atom_at(AtomView::Env, ts, i + 1), 1)),
        Some(TokenView::String(s)) => Ok((atom_at(AtomView::String(s), ts, i + 1), 1)),
        Some(TokenView::Number(t)) => match number_atom(t, ts, i + 1) {
            Ok(e) => Ok((e, 1)),
            Err(e) => Err(e),
        },
        Some(TokenView::True) => Ok((atom_at(AtomView::Bool(true), ts, i + 1), 1)),
        Some(TokenView::False) => Ok((atom_at(AtomView::Bool(false), ts, i + 1), 1)),
        Some(TokenView::Name(name)) => named(name, ts, i),
        Some(TokenView::BracketSquareOpen) => match list(
            ts,
            i + 1,
            TokenView::BracketSquareClose,
            Seq::empty(),
        ) {
            Ok((array, n)) => Ok(
                (
                    ExpressionView::Array {
                        line: place(ts, i + 1).0,
                        column: place(ts, i + 1).1,
                        array,
                    },
                    n + 1,
                ),
            ),
            Err(e) => Err(e),
        },
        Some(TokenView::BracketCurlyOpen) => match pairs(ts, i + 1, Seq::empty()) {
            Ok((dictionary, n)) => Ok(
                (
                    ExpressionView::Dictionary {
                        line: place(ts, i + 1).0,
                        column: place(ts, i + 1).1,
                        dictionary,
                    },
                    n + 1,
                ),
            ),
            Err(e) => Err(e),
        },
        Some(TokenView::Op(op)) => unary(op, ts, i),
        _ => Err(fail(ErrorTypeView::InternalError, ts, after(ts, i))),
    }
}

/// The expression that starts at `i`: an operand and what continues it.
pub open spec fn expression(ts: Seq<EntryView>, i: int) -> Parsed<ExpressionView>
    decreases left(ts, i), 2int,
{
    match primary(ts, i) {
        Ok((lhs, n)) => shift(continuation(lhs, ts, i + n), n),
        Err(e) => Err(e),
    }
}

/// The items of a list up to and including the token `end`, behind those of
/// `acc`. The items are separated by commas.
pub open spec fn list(ts: Seq<EntryView>, i: int, end: TokenView, acc: Seq<ExpressionView>) -> Parsed<
    Seq<ExpressionView>,
>
    decreases left(ts, i), 3int,
{
    match peek(ts, i) {
        None => Err(fail(ErrorTypeView::InternalError, ts, i)),
        Some(first) => if first == end {
            Ok((acc, 1))
        } else {
            match expression(ts, i) {
                Err(e) => Err(e),
                Ok((e, n)) => match peek(ts, i + n) {
                    Some(TokenView::Comma) => shift(list(ts, i + n + 1, end, acc.push(e)), n + 1),
                    Some(other) => if other == end {
                        Ok((acc.push(e), n + 1))
                    } else {
                        Err(fail(ErrorTypeView::InternalError, ts, i + n + 1))
                    },
                    None => Err(fail(ErrorTypeView::InternalError, ts, i + n)),
                },
            }
        },
    }
}

/// The value of a dictionary entry, which starts at `i`.
pub open spec fn entry_value(ts: Seq<EntryView>, i: int) -> Parsed<ExpressionView>
    decreases left(ts, i), 3int,
{
    match peek(ts, i) {
        Some(TokenView::BracketCurlyClose) => Err(
            fail(
                ErrorTypeView::UnexpectedToken(debug_text(TokenView::BracketCurlyClose)),
                ts,
                i + 1,
            ),
        ),
        Some(_) => expression(ts, i),
        None => Err(fail(ErrorTypeView::UnexpectedEOF, ts, i)),
    }
}

/// The entries `key : value` of a dictionary up to and including its closing
/// bracket, behind those of `acc`. The entries are separated by commas.
pub open spec fn pairs(
    ts: Seq<EntryView>,
    i: int,
    acc: Seq<(ExpressionView, ExpressionView)>,
) -> Parsed<Seq<(ExpressionView, ExpressionView)>>
    decreases left(ts, i), 4int,
{
    match peek(ts, i) {
        None => Err(fail(ErrorTypeView::InternalError, ts, i)),
        Some(TokenView::BracketCurlyClose) => Ok((acc, 1)),
        Some(_) => match expression(ts, i) {
            Err(e) => Err(e),
            Ok((key, n)) => match peek(ts, i + n) {
                None => Err(fail(ErrorTypeView::UnexpectedEOF, ts, i + n)),
                Some(TokenView::Colon) => match entry_value(ts, i + n + 1) {
                    Err(e) => Err(e),
                    Ok((value, m)) => match peek(ts, i + n + 1 + m) {
                        Some(TokenView::Comma) => shift(
                            pairs(ts, i + n + m + 2, acc.push((key, value))),
                            n + m + 2,
                        ),
                        Some(TokenView::BracketCurlyClose) => Ok(
                            (acc.push((key, value)), n + m + 2),
                        ),
                        Some(_) => Err(fail(ErrorTypeView::InternalError, ts, i + n + m + 2)),
                        None => Err(fail(ErrorTypeView::InternalError, ts, i + n + m + 1)),
                    },
                },
                Some(other) => Err(
                    fail(ErrorTypeView::UnexpectedToken(debug_text(other)), ts, i + n + 1),
                ),
            },
        },
    }
}

/// `var` indexed by the expression that starts at `i`, behind the opening
/// bracket, up to and including the closing bracket.
pub open spec fn indexed(var: ExpressionView, ts: Seq<EntryView>, i: int) -> Parsed<ExpressionView>
    decreases left(ts, i), 3int,
{
    match expression(ts, i) {
        Err(e) => Err(e),
        Ok((index, n)) => if peek(ts, i + n) == Some(TokenView::BracketSquareClose) {
            Ok((operation(var, Op::Index, index, ts, i), n + 1))
        } else {
            Err(
                fail(
                    ErrorTypeView::ExpectedToken(debug_text(TokenView::BracketSquareClose)),
                    ts,
                    after(ts, i + n),
                ),
            )
        },
    }
}

/// What an operand to the right of an operator is: a name, `self` or `env`;
/// a number or a string; or a truth value.
#[derive(Copy, Clone, Debug, PartialEq, Eq, Structural)]
pub enum Mid {
    Atom,
    Literal,
    Truth,
}

/// The operand to the right of an operator: the token at `j`. With it come
/// its name, where it is one, and its kind.
pub open spec fn middle(ts: Seq<EntryView>, j: int) -> Result<
    (ExpressionView, Option<Seq<char>>, Mid),
    ErrorView,
> {
    match peek(ts, j) {
        Some(TokenView::Name(n)) => Ok(
            (atom_at(AtomView::Name(n), ts, j + 1), Some(n), Mid::Atom),
        ),
        Some(TokenView::_Self) => Ok((atom_at(AtomView::_Self, ts, j + 1), None, Mid::Atom)),
        Some(TokenView::Env) => Ok((atom_at(AtomView::Env, ts, j + 1), None, Mid::Atom)),
        Some(TokenView::Number(t)) => match number_atom(t, ts, j + 1) {
            Ok(e) => Ok((e, None, Mid::Literal)),
            Err(e) => Err(e),
        },
        Some(TokenView::String(s)) => Ok(
            (atom_at(AtomView::String(s), ts, j + 1), None, Mid::Literal),
        ),
        Some(TokenView::True) => Ok((atom_at(AtomView::Bool(true), ts, j + 1), None, Mid::Truth)),
        Some(TokenView::False) => Ok(
            (atom_at(AtomView::Bool(false), ts, j + 1), None, Mid::Truth),
        ),
        _ => Err(fail(ErrorTypeView::InternalError, ts, after(ts, j))),
    }
}

/// What continues the operand `lhs`, from index `i` on: nothing where the
/// expression ends, else an operator and its operand.
pub open spec fn continuation(lhs: ExpressionView, ts: Seq<EntryView>, i: int) -> Parsed<
    ExpressionView,
>
    decreases left(ts, i), 0int,
{
    match peek(ts, i) {
        None => Ok((lhs, 0)),
        Some(TokenView::Op(opl)) => match middle(ts, i + 1) {
            Err(e) => Err(e),
            Ok((mid, name, kind)) => shift(
                after_operand(lhs, opl, mid, name, kind, ts, i + 2),
                2,
            ),
        },
        Some(token) => if ends_expression(token) {
            Ok((lhs, 0))
        } else {
            Err(fail(ErrorTypeView::InternalError, ts, i + 1))
        },
    }
}

/// What follows `lhs opl mid` where `mid` is a call of `name` whose
/// arguments have been read up to index `k`.
pub open spec fn after_call(
    lhs: ExpressionView,
    opl: Op,
    name: Seq<char>,
    arguments: Seq<ExpressionView>,
    ts: Seq<EntryView>,
    k: int,
) -> Parsed<ExpressionView>
    decreases left(ts, k), 1int,
{
    if opl == Op::Access {
        let method = call(Some(lhs), name, arguments, ts, after(ts, k));
        match peek(ts, k) {
            Some(TokenView::Op(_)) => continuation(method, ts, k),
            _ => Ok((method, 0)),
        }
    } else {
        match peek(ts, k) {
            Some(TokenView::Op(opr)) => shift(
                triple_start(lhs, opl, call(None, name, arguments, ts, k + 1), opr, ts, k + 1),
                1,
            ),
            _ => Ok((operation(lhs, opl, call(None, name, arguments, ts, k), ts, k), 0)),
        }
    }
}

/// What follows `lhs opl mid (`, where `mid` is the name `name`, or no name,
/// and the arguments of the call start at `i`.
pub open spec fn called(
    lhs: ExpressionView,
    opl: Op,
    name: Option<Seq<char>>,
    ts: Seq<EntryView>,
    i: int,
) -> Parsed<ExpressionView>
    decreases left(ts, i), 4int,
{
    match name {
        None => Err(fail(ErrorTypeView::InternalError, ts, i)),
        Some(n) => match list(ts, i, TokenView::BracketRoundClose, Seq::empty()) {
            Err(e) => Err(e),
            Ok((arguments, m)) => shift(after_call(lhs, opl, n, arguments, ts, i + m), m),
        },
    }
}

/// What follows `lhs opl mid`, where `mid` ends at index `j`. Any operand
/// may end the expression there, before a closing round bracket or a new
/// line. All but a truth value may be followed by another operator. Only a
/// name, `self` or `env` may be called, indexed or stand before an
/// assignment.
pub open spec fn after_operand(
    lhs: ExpressionView,
    opl: Op,
    mid: ExpressionView,
    name: Option<Seq<char>>,
    kind: Mid,
    ts: Seq<EntryView>,
    j: int,
) -> Parsed<ExpressionView>
    decreases left(ts, j), 0int,
{
    match peek(ts, j) {
        Some(TokenView::Op(opr)) => if kind != Mid::Truth {
            shift(triple_start(lhs, opl, mid, opr, ts, j + 1), 1)
        } else {
            Err(fail(ErrorTypeView::InternalError, ts, j + 1))
        },
        Some(TokenView::BracketRoundOpen) => if kind == Mid::Atom {
            shift(called(lhs, opl, name, ts, j + 1), 1)
        } else {
            Err(fail(ErrorTypeView::InternalError, ts, j + 1))
        },
        Some(TokenView::BracketSquareOpen) => if kind == Mid::Atom {
            shift(element(lhs, opl, mid, ts, j + 1), 1)
        } else {
            Err(fail(ErrorTypeView::InternalError, ts, j + 1))
        },
        Some(TokenView::Assign(_)) => if kind == Mid::Atom {
            Ok((operation(lhs, opl, mid, ts, j), 0))
        } else {
            Err(fail(ErrorTypeView::InternalError, ts, j + 1))
        },
        Some(TokenView::BracketRoundClose) | Some(TokenView::Indent(_)) | None => Ok(
            (operation(lhs, opl, mid, ts, j), 0),
        ),
        Some(_) => Err(fail(ErrorTypeView::InternalError, ts, j + 1)),
    }
}

/// What follows `lhs opl var [`, where the index starts at `i`: the element
/// of `var`, and what follows it as it follows a literal.
pub open spec fn element(
    lhs: ExpressionView,
    opl: Op,
    var: ExpressionView,
    ts: Seq<EntryView>,
    i: int,
) -> Parsed<ExpressionView>
    decreases left(ts, i), 4int,
{
    match indexed(var, ts, i) {
        Err(e) => Err(e),
        Ok((item, m)) => shift(
            after_operand(lhs, opl, item, None, Mid::Literal, ts, i + m),
            m,
        ),
    }
}

/// `lhs opl mid opr name (`, where the arguments of the call start at `i`:
/// a call of the method `name` of `mid`, which only a member access admits.
pub open spec fn method_operand(
    lhs: ExpressionView,
    opl: Op,
    mid: ExpressionView,
    opr: Op,
    name: Seq<char>,
    ts: Seq<EntryView>,
    i: int,
) -> Parsed<ExpressionView>
    decreases left(ts, i), 6int,
{
    if opr == Op::Access {
        match list(ts, i, TokenView::BracketRoundClose, Seq::empty()) {
            Err(e) => Err(e),
            Ok((arguments, m)) => {
                let k = i + m;
                let method = call(Some(mid), name, arguments, ts, k);
                match peek(ts, k) {
                    Some(TokenView::Op(next)) => shift(
                        triple_start(lhs, opl, method, next, ts, k + 1),
                        m + 1,
                    ),
                    _ => Ok((operation(lhs, opl, method, ts, k), m)),
                }
            },
        }
    } else {
        Err(fail(ErrorTypeView::InternalError, ts, i))
    }
}

/// The operand that starts at `i` to the right of a second operator: a
/// name, an indexed name or a number. With it comes the number of tokens it
/// takes behind its first.
pub open spec fn right_operand(ts: Seq<EntryView>, i: int) -> Parsed<ExpressionView>
    decreases left(ts, i), 5int,
{
    match peek(ts, i) {
        Some(TokenView::Name(r)) => match peek(ts, i + 1) {
            Some(TokenView::BracketSquareOpen) => shift(
                indexed(atom_at(AtomView::Name(r), ts, i + 1), ts, i + 2),
                1,
            ),
            _ => Ok((atom_at(AtomView::Name(r), ts, i + 1), 0)),
        },
        Some(TokenView::Number(t)) => match number_atom(t, ts, i + 1) {
            Ok(e) => Ok((e, 0)),
            Err(e) => Err(e),
        },
        _ => Err(fail(ErrorTypeView::InternalError, ts, after(ts, i))),
    }
}

/// `lhs opl mid opr` followed by a right operand that is no method call,
/// which starts at `i`.
pub open spec fn completed(
    lhs: ExpressionView,
    opl: Op,
    mid: ExpressionView,
    opr: Op,
    ts: Seq<EntryView>,
    i: int,
) -> Parsed<ExpressionView>
    decreases left(ts, i), 6int,
{
    match right_operand(ts, i) {
        Err(e) => Err(e),
        Ok((rhs, m)) => shift(triple(lhs, opl, mid, opr, rhs, ts, i + m), m),
    }
}

/// `lhs opl mid opr` followed by the right operand, which starts at `i`.
pub open spec fn triple_start(
    lhs: ExpressionView,
    opl: Op,
    mid: ExpressionView,
    opr: Op,
    ts: Seq<EntryView>,
    i: int,
) -> Parsed<ExpressionView>
    decreases left(ts, i), 7int,
{
    match peek(ts, i) {
        Some(TokenView::Name(r)) => match peek(ts, i + 1) {
            Some(TokenView::BracketRoundOpen) => shift(
                method_operand(lhs, opl, mid, opr, r, ts, i + 2),
                2,
            ),
            _ => completed(lhs, opl, mid, opr, ts, i),
        },
        _ => completed(lhs, opl, mid, opr, ts, i),
    }
}

/// `lhs opl mid opr rhs`, where the token at `k` is the last of `rhs`.
/// Where `opl` binds at least as tightly as `opr`, `lhs opl mid` is the left
/// operand of `opr`, and the right one is `rhs` if it ends with a closing
/// bracket, else the whole expression that starts where `rhs` ends.
/// Otherwise `mid opr rhs` is the right operand of `opl`.
pub open spec fn triple(
    lhs: ExpressionView,
    opl: Op,
    mid: ExpressionView,
    opr: Op,
    rhs: ExpressionView,
    ts: Seq<EntryView>,
    k: int,
) -> Parsed<ExpressionView>
    decreases left(ts, k), 4int,
{
    if opl.rank() >= opr.rank() {
        match peek(ts, k) {
            None => Err(fail(ErrorTypeView::InternalError, ts, k)),
            Some(last) => if is_closing(last) {
                Ok((operation(operation(lhs, opl, mid, ts, k + 1), opr, rhs, ts, k + 1), 1))
            } else {
                match expression(ts, k) {
                    Err(e) => Err(e),
                    Ok((right, n)) => Ok(
                        (operation(operation(lhs, opl, mid, ts, k + n), opr, right, ts, k + n), n),
                    ),
                }
            },
        }
    } else {
        Ok((operation(lhs, opl, operation(mid, opr, rhs, ts, k + 1), ts, k + 1), 1))
    }
}

} // verus!
