use vstd::prelude::*;
use crate::ast::{
    expressions_view, optional_view, pairs_view, Atom, Error, ErrorType, ErrorView, Expression,
    ExpressionView, UnaryOp,
};
use crate::grammar::{
    after, after_call, after_operand, atom_at, call, called, closing, completed, continuation,
    element, ends_expression, entry_value, expression, fail, indexed, is_closing, list,
    method_operand, middle, named, number_atom, operation, pairs, peek, place, primary,
    right_operand, triple, triple_start, unary, unary_operand, Mid, Parsed,
};
use crate::number::parse_number;
use crate::stream::entries_view;
use crate::tokenizer::{Entry, Op, Token, TokenView};
use crate::words::{debug_text, describe};

verus! {

/// Whether what a parser gave, a value and the index behind it or an error,
/// is what `expected` says of a parse that starts at `from`.
pub open spec fn yields(
    r: Result<(Expression, usize), Error>,
    from: usize,
    expected: Parsed<ExpressionView>,
) -> bool {
    match r {
        Ok((e, to)) => from <= to && expected == Ok::<(ExpressionView, nat), ErrorView>(
            (e@, (to - from) as nat),
        ),
        Err(e) => expected == Err::<(ExpressionView, nat), ErrorView>(e@),
    }
}

pub open spec fn yields_list(
    r: Result<(Vec<Expression>, usize), Error>,
    from: usize,
    expected: Parsed<Seq<ExpressionView>>,
) -> bool {
    match r {
        Ok((items, to)) => from <= to && expected == Ok::<(Seq<ExpressionView>, nat), ErrorView>(
            (expressions_view(items@), (to - from) as nat),
        ),
        Err(e) => expected == Err::<(Seq<ExpressionView>, nat), ErrorView>(e@),
    }
}

pub open spec fn yields_pairs(
    r: Result<(Vec<(Expression, Expression)>, usize), Error>,
    from: usize,
    expected: Parsed<Seq<(ExpressionView, ExpressionView)>>,
) -> bool {
    match r {
        Ok((items, to)) => from <= to && expected == Ok::<
            (Seq<(ExpressionView, ExpressionView)>, nat),
            ErrorView,
        >((pairs_view(items@), (to - from) as nat)),
        Err(e) => expected == Err::<(Seq<(ExpressionView, ExpressionView)>, nat), ErrorView>(e@),
    }
}

/// The view of a name that may be absent.
pub open spec fn name_view(name: Option<&String>) -> Option<Seq<char>> {
    match name {
        Some(n) => Some(n@),
        None => None,
    }
}

/// The token at index `i`, if there is one.
pub fn token(ts: &[Entry], i: usize) -> (r: Option<&Token>)
    ensures
        match r {
            Some(t) => i < ts@.len() && peek(entries_view(ts@), i as int) == Some(t@) && t@
                == t.shape(),
            None => i >= ts@.len() && peek(entries_view(ts@), i as int).is_none(),
        },
        ts@.len() <= usize::MAX,
{
    proof {
        reveal(Token::model);
    }
    if i < ts.len() {
        Some(&ts[i].0)
    } else {
        None
    }
}

/// The line and column of the last of the first `i` tokens.
pub fn position(ts: &[Entry], i: usize) -> (r: (u32, u32))
    ensures
        r == place(entries_view(ts@), i as int),
{
    if 0 < i && i <= ts.len() {
        (ts[i - 1].1, ts[i - 1].2)
    } else {
        (0, 0)
    }
}

/// The index behind the token at `i`, or `i` where there is none.
pub fn next_index(ts: &[Entry], i: usize) -> (r: usize)
    ensures
        r == after(entries_view(ts@), i as int),
        i <= ts@.len() ==> r <= ts@.len(),
{
    if i < ts.len() {
        i + 1
    } else {
        i
    }
}

/// The error of the given kind once `i` tokens have been read.
pub fn failure(kind: ErrorType, ts: &[Entry], i: usize) -> (e: Error)
    ensures
        e@ == fail(kind@, entries_view(ts@), i as int),
{
    let (line, column) = position(ts, i);
    Error { error: kind, line, column }
}

/// The `Debug` form of a token that is written out in the call.
pub(crate) fn text_of(token: Token) -> (r: String)
    ensures
        r@ == debug_text(token.shape()),
{
    proof {
        reveal(Token::model);
    }
    describe(&token)
}

fn ends(t: &Token) -> (r: bool)
    ensures
        r == ends_expression(t@),
{
    proof {
        reveal(Token::model);
    }
    matches!(
        t,
        Token::BracketRoundClose | Token::BracketSquareClose | Token::BracketCurlyClose
            | Token::Indent(_) | Token::Comma | Token::Colon | Token::To | Token::Step
            | Token::Assign(_)
    )
}

fn closes(t: &Token) -> (r: bool)
    ensures
        r == is_closing(t@),
{
    proof {
        reveal(Token::model);
    }
    matches!(
        t,
        Token::BracketRoundClose | Token::BracketSquareClose | Token::BracketCurlyClose
    )
}

/// Whether `t` is the bracket that closes a list: a square one or a round
/// one.
fn is_end(t: &Token, square: bool) -> (r: bool)
    ensures
        r == (t@ == closing(square)),
{
    proof {
        reveal(Token::model);
    }
    if square {
        matches!(t, Token::BracketSquareClose)
    } else {
        matches!(t, Token::BracketRoundClose)
    }
}

impl Expression {
    /// The atom `atom` once `i` tokens have been read.
    pub fn new_atom(atom: Atom, ts: &[Entry], i: usize) -> (r: Expression)
        ensures
            r@ == atom_at(atom@, entries_view(ts@), i as int),
    {
        let (line, column) = position(ts, i);
        proof {
            reveal(Expression::model);
        }
        Expression::Atom { line, column, atom }
    }

    pub fn new_name(name: &String, ts: &[Entry], i: usize) -> (r: Expression)
        ensures
            r@ == atom_at(crate::ast::AtomView::Name(name@), entries_view(ts@), i as int),
    {
        Expression::new_atom(Atom::Name(name.clone()), ts, i)
    }

    pub fn new_str(text: &String, ts: &[Entry], i: usize) -> (r: Expression)
        ensures
            r@ == atom_at(crate::ast::AtomView::String(text@), entries_view(ts@), i as int),
    {
        Expression::new_atom(Atom::String(text.clone()), ts, i)
    }

    pub fn new_bool(value: bool, ts: &[Entry], i: usize) -> (r: Expression)
        ensures
            r@ == atom_at(crate::ast::AtomView::Bool(value), entries_view(ts@), i as int),
    {
        Expression::new_atom(Atom::Bool(value), ts, i)
    }

    /// The number that `text` writes, as an atom.
    pub fn new_num(text: &String, ts: &[Entry], i: usize) -> (r: Result<Expression, Error>)
        ensures
            match r {
                Ok(e) => number_atom(text@, entries_view(ts@), i as int) == Ok::<
                    ExpressionView,
                    ErrorView,
                >(e@),
                Err(e) => number_atom(text@, entries_view(ts@), i as int) == Err::<
                    ExpressionView,
                    ErrorView,
                >(e@),
            },
    {
        match parse_number(text.as_str()) {
            Ok(atom) => Ok(Expression::new_atom(atom, ts, i)),
            Err(_) => Err(failure(ErrorType::NotANumber, ts, i)),
        }
    }

    pub fn new_op(left: Expression, op: Op, right: Expression, ts: &[Entry], i: usize) -> (r:
        Expression)
        ensures
            r@ == operation(left@, op, right@, entries_view(ts@), i as int),
    {
        let (line, column) = position(ts, i);
        proof {
            reveal(Expression::model);
        }
        Expression::Operation { line, column, op, left: Box::new(left), right: Box::new(right) }
    }

    pub fn new_fn(
        expr: Option<Expression>,
        name: &String,
        arguments: Vec<Expression>,
        ts: &[Entry],
        i: usize,
    ) -> (r: Expression)
        ensures
            r@ == call(
                optional_view(expr),
                name@,
                expressions_view(arguments@),
                entries_view(ts@),
                i as int,
            ),
    {
        let (line, column) = position(ts, i);
        let ghost items = arguments@;
        let expr = match expr {
            Some(e) => Some(Box::new(e)),
            None => None,
        };
        let r = Expression::Function { line, column, expr, name: name.clone(), arguments };
        proof {
            reveal(Expression::model);
            assert(r.model()->arguments =~= expressions_view(items));
        }
        r
    }

    /// The array of the given items, opened by the last of the first `i`
    /// tokens.
    pub fn new_array(array: Vec<Expression>, ts: &[Entry], i: usize) -> (r: Expression)
        ensures
            r@ == (ExpressionView::Array {
                line: place(entries_view(ts@), i as int).0,
                column: place(entries_view(ts@), i as int).1,
                array: expressions_view(array@),
            }),
    {
        let (line, column) = position(ts, i);
        let ghost items = array@;
        let r = Expression::Array { line, column, array };
        proof {
            reveal(Expression::model);
            assert(r.model()->array =~= expressions_view(items));
        }
        r
    }

    /// The dictionary of the given entries, opened by the last of the first
    /// `i` tokens.
    pub fn new_dictionary(dictionary: Vec<(Expression, Expression)>, ts: &[Entry], i: usize) -> (r:
        Expression)
        ensures
            r@ == (ExpressionView::Dictionary {
                line: place(entries_view(ts@), i as int).0,
                column: place(entries_view(ts@), i as int).1,
                dictionary: pairs_view(dictionary@),
            }),
    {
        let (line, column) = position(ts, i);
        let ghost items = dictionary@;
        let r = Expression::Dictionary { line, column, dictionary };
        proof {
            reveal(Expression::model);
            assert(r.model()->dictionary =~= pairs_view(items));
        }
        r
    }

    /// The unary operation on `operand`, written by the last of the first
    /// `i` tokens.
    pub fn new_unary(op: UnaryOp, operand: Expression, ts: &[Entry], i: usize) -> (r: Expression)
        ensures
            r@ == (ExpressionView::UnaryOperation {
                line: place(entries_view(ts@), i as int).0,
                column: place(entries_view(ts@), i as int).1,
                op,
                expr: Box::new(operand@),
            }),
    {
        let (line, column) = position(ts, i);
        proof {
            reveal(Expression::model);
        }
        Expression::UnaryOperation { line, column, op, expr: Box::new(operand) }
    }

    fn parse_unary_operand(ts: &[Entry], i: usize) -> (r: Result<Expression, Error>)
        requires
            i <= ts@.len(),
        ensures
            match r {
                Ok(e) => unary_operand(entries_view(ts@), i as int) == Ok::<
                    ExpressionView,
                    ErrorView,
                >(e@),
                Err(e) => unary_operand(entries_view(ts@), i as int) == Err::<
                    ExpressionView,
                    ErrorView,
                >(e@),
            },
            r.is_ok() ==> i < ts@.len(),
    {
        match token(ts, i) {
            Some(Token::Name(n)) => Ok(Expression::new_name(n, ts, i + 1)),
            Some(Token::Number(t)) => Expression::new_num(t, ts, i + 1),
            Some(Token::String(s)) => Ok(Expression::new_str(s, ts, i + 1)),
            None => Err(failure(ErrorType::UnexpectedEOF, ts, i)),
            Some(_) => Err(failure(ErrorType::InternalError, ts, i + 1)),
        }
    }

    fn parse_unary(op: Op, ts: &[Entry], i: usize) -> (r: Result<(Expression, usize), Error>)
        requires
            i < ts@.len(),
            ts@.len() <= usize::MAX,
        ensures
            yields(r, i, unary(op, entries_view(ts@), i as int)),
            r matches Ok((_, j)) ==> i < j <= ts@.len(),
    {
        let unary_op = match op {
            Op::Sub => UnaryOp::Neg,
            Op::Not => UnaryOp::Not,
            _ => {
                return Err(
                    failure(ErrorType::UnexpectedToken(text_of(Token::Op(op))), ts, i + 1),
                );
            },
        };
        match Expression::parse_unary_operand(ts, i + 1) {
            Ok(operand) => Ok((Expression::new_unary(unary_op, operand, ts, i + 1), i + 2)),
            Err(e) => Err(e),
        }
    }

    fn parse_named(name: &String, ts: &[Entry], i: usize) -> (r: Result<
        (Expression, usize),
        Error,
    >)
        requires
            i < ts@.len(),
            ts@.len() <= usize::MAX,
        ensures
            yields(r, i, named(name@, entries_view(ts@), i as int)),
            r matches Ok((_, j)) ==> i < j <= ts@.len(),
        decreases ts@.len() - i, 0int,
    {
        match token(ts, i + 1) {
            Some(Token::BracketRoundOpen) => match Expression::parse_expr_list(ts, i + 2, false) {
                Ok((arguments, j)) => Ok((Expression::new_fn(None, name, arguments, ts, j), j)),
                Err(e) => Err(e),
            },
            Some(Token::BracketSquareOpen) => {
                let var = Expression::new_name(name, ts, i + 2);
                Expression::parse_index_op(var, ts, i + 2)
            },
            _ => Ok((Expression::new_name(name, ts, i + 1), i + 1)),
        }
    }

    fn parse_primary(ts: &[Entry], i: usize) -> (r: Result<(Expression, usize), Error>)
        requires
            i <= ts@.len(),
        ensures
            yields(r, i, primary(entries_view(ts@), i as int)),
            r matches Ok((_, j)) ==> i < j <= ts@.len(),
        decreases ts@.len() - i, 1int,
    {
        match token(ts, i) {
            Some(Token::BracketRoundOpen) => match Expression::parse(ts, i + 1) {
                Ok((e, j)) => match token(ts, j) {
                    Some(Token::BracketRoundClose) => Ok((e, j + 1)),
                    _ => Err(
                        failure(
                            ErrorType::ExpectedToken(text_of(Token::BracketRoundClose)),
                            ts,
                            next_index(ts, j),
                        ),
                    ),
                },
                Err(e) => Err(e),
            },
            Some(Token::_Self) => Ok((Expression::new_atom(Atom::_Self, ts, i + 1), i + 1)),
            Some(Token::Env) => Ok((Expression::new_atom(Atom::Env, ts, i + 1), i + 1)),
            Some(Token::String(s)) => Ok((Expression::new_str(s, ts, i + 1), i + 1)),
            Some(Token::Number(t)) => match Expression::new_num(t, ts, i + 1) {
                Ok(e) => Ok((e, i + 1)),
                Err(e) => Err(e),
            },
            Some(Token::True) => Ok((Expression::new_bool(true, ts, i + 1), i + 1)),
            Some(Token::False) => Ok((Expression::new_bool(false, ts, i + 1), i + 1)),
            Some(Token::Name(name)) => Expression::parse_named(name, ts, i),
            Some(Token::BracketSquareOpen) => match Expression::parse_expr_list(ts, i + 1, true) {
                Ok((array, j)) => Ok((Expression::new_array(array, ts, i + 1), j)),
                Err(e) => Err(e),
            },
            Some(Token::BracketCurlyOpen) => match Expression::parse_expr_map(ts, i + 1) {
                Ok((dictionary, j)) => Ok((Expression::new_dictionary(dictionary, ts, i + 1), j)),
                Err(e) => Err(e),
            },
            Some(Token::Op(op)) => Expression::parse_unary(*op, ts, i),
            _ => Err(failure(ErrorType::InternalError, ts, next_index(ts, i))),
        }
    }

    /// Parses the expression that starts at index `i`. Gives the expression
    /// and the index behind it.
    pub fn parse(ts: &[Entry], i: usize) -> (r: Result<(Expression, usize), Error>)
        requires
            i <= ts@.len(),
        ensures
            yields(r, i, expression(entries_view(ts@), i as int)),
            r matches Ok((_, j)) ==> i < j <= ts@.len(),
        decreases ts@.len() - i, 2int,
    {
        match Expression::parse_primary(ts, i) {
            Ok((lhs, j)) => Expression::parse_with(lhs, ts, j),
            Err(e) => Err(e),
        }
    }

    /// Parses the items of a list up to and including the bracket that
    /// closes it: a square one or a round one.
    pub fn parse_expr_list(ts: &[Entry], i: usize, square: bool) -> (r: Result<
        (Vec<Expression>, usize),
        Error,
    >)
        requires
            i <= ts@.len(),
        ensures
            yields_list(r, i, list(entries_view(ts@), i as int, closing(square), Seq::empty())),
            r matches Ok((_, j)) ==> j <= ts@.len(),
        decreases ts@.len() - i, 3int,
    {
        let mut items: Vec<Expression> = Vec::new();
        let mut at: usize = i;
        let ghost v = entries_view(ts@);
        assert(expressions_view(items@) =~= Seq::<ExpressionView>::empty());
        loop
            invariant
                i <= at <= ts@.len(),
                v == entries_view(ts@),
                list(v, i as int, closing(square), Seq::empty()) == shift_list(
                    list(v, at as int, closing(square), expressions_view(items@)),
                    (at - i) as nat,
                ),
            decreases ts@.len() - at,
        {
            match token(ts, at) {
                None => {
                    return Err(failure(ErrorType::InternalError, ts, at));
                },
                Some(first) => {
                    if is_end(first, square) {
                        return Ok((items, at + 1));
                    }
                },
            }
            match Expression::parse(ts, at) {
                Err(e) => {
                    return Err(e);
                },
                Ok((e, j)) => {
                    let ghost before = expressions_view(items@);
                    items.push(e);
                    assert(expressions_view(items@) =~= before.push(e@));
                    match token(ts, j) {
                        Some(Token::Comma) => {
                            at = j + 1;
                        },
                        Some(other) => {
                            if is_end(other, square) {
                                return Ok((items, j + 1));
                            } else {
                                return Err(failure(ErrorType::InternalError, ts, j + 1));
                            }
                        },
                        None => {
                            return Err(failure(ErrorType::InternalError, ts, j));
                        },
                    }
                },
            }
        }
    }

    fn parse_entry_value(ts: &[Entry], i: usize) -> (r: Result<(Expression, usize), Error>)
        requires
            i <= ts@.len(),
        ensures
            yields(r, i, entry_value(entries_view(ts@), i as int)),
            r matches Ok((_, j)) ==> j <= ts@.len(),
        decreases ts@.len() - i, 3int,
    {
        match token(ts, i) {
            Some(Token::BracketCurlyClose) => Err(
                failure(
                    ErrorType::UnexpectedToken(text_of(Token::BracketCurlyClose)),
                    ts,
                    i + 1,
                ),
            ),
            Some(_) => Expression::parse(ts, i),
            None => Err(failure(ErrorType::UnexpectedEOF, ts, i)),
        }
    }

    /// Parses the entries `key : value` of a dictionary up to and including
    /// its closing bracket.
    pub fn parse_expr_map(ts: &[Entry], i: usize) -> (r: Result<
        (Vec<(Expression, Expression)>, usize),
        Error,
    >)
        requires
            i <= ts@.len(),
        ensures
            yields_pairs(r, i, pairs(entries_view(ts@), i as int, Seq::empty())),
            r matches Ok((_, j)) ==> j <= ts@.len(),
        decreases ts@.len() - i, 4int,
    {
        let mut items: Vec<(Expression, Expression)> = Vec::new();
        let mut at: usize = i;
        let ghost v = entries_view(ts@);
        assert(pairs_view(items@) =~= Seq::<(ExpressionView, ExpressionView)>::empty());
        loop
            invariant
                i <= at <= ts@.len(),
                v == entries_view(ts@),
                pairs(v, i as int, Seq::empty()) == shift_pairs(
                    pairs(v, at as int, pairs_view(items@)),
                    (at - i) as nat,
                ),
            decreases ts@.len() - at,
        {
            match token(ts, at) {
                None => {
                    return Err(failure(ErrorType::InternalError, ts, at));
                },
                Some(Token::BracketCurlyClose) => {
                    return Ok((items, at + 1));
                },
                Some(_) => {},
            }
            let (key, j) = match Expression::parse(ts, at) {
                Err(e) => {
                    return Err(e);
                },
                Ok(found) => found,
            };
            match token(ts, j) {
                None => {
                    return Err(failure(ErrorType::UnexpectedEOF, ts, j));
                },
                Some(Token::Colon) => {},
                Some(other) => {
                    return Err(failure(ErrorType::UnexpectedToken(describe(other)), ts, j + 1));
                },
            }
            let (value, k) = match Expression::parse_entry_value(ts, j + 1) {
                Err(e) => {
                    return Err(e);
                },
                Ok(found) => found,
            };
            let ghost before = pairs_view(items@);
            let ghost key_view = key@;
            let ghost value_view = value@;
            items.push((key, value));
            assert(pairs_view(items@) =~= before.push((key_view, value_view)));
            match token(ts, k) {
                Some(Token::Comma) => {
                    at = k + 1;
                },
                Some(Token::BracketCurlyClose) => {
                    return Ok((items, k + 1));
                },
                Some(_) => {
                    return Err(failure(ErrorType::InternalError, ts, k + 1));
                },
                None => {
                    return Err(failure(ErrorType::InternalError, ts, k));
                },
            }
        }
    }

    /// Parses what stands between `[` and `]` behind `var`: the index, up to
    /// and including the closing bracket.
    pub fn parse_index_op(var: Expression, ts: &[Entry], i: usize) -> (r: Result<
        (Expression, usize),
        Error,
    >)
        requires
            i <= ts@.len(),
        ensures
            yields(r, i, indexed(var@, entries_view(ts@), i as int)),
            r matches Ok((_, j)) ==> j <= ts@.len(),
        decreases ts@.len() - i, 3int,
    {
        match Expression::parse(ts, i) {
            Err(e) => Err(e),
            Ok((index, j)) => match token(ts, j) {
                Some(Token::BracketSquareClose) => Ok(
                    (Expression::new_op(var, Op::Index, index, ts, i), j + 1),
                ),
                _ => Err(
                    failure(
                        ErrorType::ExpectedToken(text_of(Token::BracketSquareClose)),
                        ts,
                        next_index(ts, j),
                    ),
                ),
            },
        }
    }

    /// Reads the operand to the right of an operator: the token at `j`.
    fn parse_middle<'a>(ts: &'a [Entry], j: usize) -> (r: Result<
        (Expression, Option<&'a String>, Mid),
        Error,
    >)
        requires
            j <= ts@.len(),
        ensures
            match r {
                Ok((mid, name, kind)) => j < ts@.len() && middle(entries_view(ts@), j as int)
                    == Ok::<(ExpressionView, Option<Seq<char>>, Mid), ErrorView>(
                    (mid@, name_view(name), kind),
                ),
                Err(e) => middle(entries_view(ts@), j as int) == Err::<
                    (ExpressionView, Option<Seq<char>>, Mid),
                    ErrorView,
                >(e@),
            },
            ts@.len() <= usize::MAX,
    {
        match token(ts, j) {
            Some(Token::Name(n)) => Ok((Expression::new_name(n, ts, j + 1), Some(n), Mid::Atom)),
            Some(Token::_Self) => Ok(
                (Expression::new_atom(Atom::_Self, ts, j + 1), None, Mid::Atom),
            ),
            Some(Token::Env) => Ok((Expression::new_atom(Atom::Env, ts, j + 1), None, Mid::Atom)),
            Some(Token::Number(t)) => match Expression::new_num(t, ts, j + 1) {
                Ok(e) => Ok((e, None, Mid::Literal)),
                Err(e) => Err(e),
            },
            Some(Token::String(s)) => Ok((Expression::new_str(s, ts, j + 1), None, Mid::Literal)),
            Some(Token::True) => Ok((Expression::new_bool(true, ts, j + 1), None, Mid::Truth)),
            Some(Token::False) => Ok((Expression::new_bool(false, ts, j + 1), None, Mid::Truth)),
            _ => Err(failure(ErrorType::InternalError, ts, next_index(ts, j))),
        }
    }

    /// Parses what continues the operand `lhs` from index `i` on.
    pub fn parse_with(lhs: Expression, ts: &[Entry], i: usize) -> (r: Result<
        (Expression, usize),
        Error,
    >)
        requires
            i <= ts@.len(),
        ensures
            yields(r, i, continuation(lhs@, entries_view(ts@), i as int)),
            r matches Ok((_, j)) ==> j <= ts@.len(),
        decreases ts@.len() - i, 0int,
    {
        match token(ts, i) {
            None => Ok((lhs, i)),
            Some(Token::Op(op)) => match Expression::parse_middle(ts, i + 1) {
                Err(e) => Err(e),
                Ok((mid, name, kind)) => Expression::parse_after_operand(
                    lhs,
                    *op,
                    mid,
                    name,
                    kind,
                    ts,
                    i + 2,
                ),
            },
            Some(other) => {
                if ends(other) {
                    Ok((lhs, i))
                } else {
                    Err(failure(ErrorType::InternalError, ts, i + 1))
                }
            },
        }
    }

    fn parse_after_call(
        lhs: Expression,
        opl: Op,
        name: &String,
        arguments: Vec<Expression>,
        ts: &[Entry],
        k: usize,
    ) -> (r: Result<(Expression, usize), Error>)
        requires
            k <= ts@.len(),
        ensures
            yields(
                r,
                k,
                after_call(
                    lhs@,
                    opl,
                    name@,
                    expressions_view(arguments@),
                    entries_view(ts@),
                    k as int,
                ),
            ),
            r matches Ok((_, j)) ==> j <= ts@.len(),
        decreases ts@.len() - k, 1int,
    {
        if let Op::Access = opl {
            let method = Expression::new_fn(Some(lhs), name, arguments, ts, next_index(ts, k));
            match token(ts, k) {
                Some(Token::Op(_)) => Expression::parse_with(method, ts, k),
                _ => Ok((method, k)),
            }
        } else {
            match token(ts, k) {
                Some(Token::Op(opr)) => {
                    let mid = Expression::new_fn(None, name, arguments, ts, k + 1);
                    Expression::parse_tri_op_start(lhs, opl, mid, *opr, ts, k + 1)
                },
                _ => {
                    let mid = Expression::new_fn(None, name, arguments, ts, k);
                    Ok((Expression::new_op(lhs, opl, mid, ts, k), k))
                },
            }
        }
    }

    fn parse_called(
        lhs: Expression,
        opl: Op,
        name: Option<&String>,
        ts: &[Entry],
        i: usize,
    ) -> (r: Result<(Expression, usize), Error>)
        requires
            i <= ts@.len(),
        ensures
            yields(
                r,
                i,
                called(
                    lhs@,
                    opl,
                    match name {
                        Some(n) => Some(n@),
                        None => None,
                    },
                    entries_view(ts@),
                    i as int,
                ),
            ),
            r matches Ok((_, to)) ==> to <= ts@.len(),
        decreases ts@.len() - i, 4int,
    {
        match name {
            None => Err(failure(ErrorType::InternalError, ts, i)),
            Some(n) => match Expression::parse_expr_list(ts, i, false) {
                Err(e) => Err(e),
                Ok((arguments, k)) => Expression::parse_after_call(lhs, opl, n, arguments, ts, k),
            },
        }
    }

    fn parse_after_operand(
        lhs: Expression,
        opl: Op,
        mid: Expression,
        name: Option<&String>,
        kind: Mid,
        ts: &[Entry],
        j: usize,
    ) -> (r: Result<(Expression, usize), Error>)
        requires
            j <= ts@.len(),
        ensures
            yields(
                r,
                j,
                after_operand(lhs@, opl, mid@, name_view(name), kind, entries_view(ts@), j as int),
            ),
            r matches Ok((_, to)) ==> to <= ts@.len(),
        decreases ts@.len() - j, 1int,
    {
        match token(ts, j) {
            Some(Token::Op(opr)) => {
                if let Mid::Truth = kind {
                    Err(failure(ErrorType::InternalError, ts, j + 1))
                } else {
                    Expression::parse_tri_op_start(lhs, opl, mid, *opr, ts, j + 1)
                }
            },
            _ => Expression::parse_after_rest(lhs, opl, mid, name, kind, ts, j),
        }
    }

    /// What `parse_after_operand` does where no operator follows.
    fn parse_after_rest(
        lhs: Expression,
        opl: Op,
        mid: Expression,
        name: Option<&String>,
        kind: Mid,
        ts: &[Entry],
        j: usize,
    ) -> (r: Result<(Expression, usize), Error>)
        requires
            j <= ts@.len(),
            !(peek(entries_view(ts@), j as int) matches Some(TokenView::Op(_))),
        ensures
            yields(
                r,
                j,
                after_operand(lhs@, opl, mid@, name_view(name), kind, entries_view(ts@), j as int),
            ),
            r matches Ok((_, to)) ==> to <= ts@.len(),
        decreases ts@.len() - j, 0int,
    {
        match token(ts, j) {
            Some(Token::BracketRoundOpen) => {
                if let Mid::Atom = kind {
                    Expression::parse_called(lhs, opl, name, ts, j + 1)
                } else {
                    Err(failure(ErrorType::InternalError, ts, j + 1))
                }
            },
            Some(Token::BracketSquareOpen) => {
                if let Mid::Atom = kind {
                    Expression::parse_element(lhs, opl, mid, ts, j + 1)
                } else {
                    Err(failure(ErrorType::InternalError, ts, j + 1))
                }
            },
            Some(Token::Assign(_)) => {
                if let Mid::Atom = kind {
                    Ok((Expression::new_op(lhs, opl, mid, ts, j), j))
                } else {
                    Err(failure(ErrorType::InternalError, ts, j + 1))
                }
            },
            Some(Token::BracketRoundClose) | Some(Token::Indent(_)) | None => Ok(
                (Expression::new_op(lhs, opl, mid, ts, j), j),
            ),
            Some(_) => Err(failure(ErrorType::InternalError, ts, j + 1)),
        }
    }

    fn parse_element(lhs: Expression, opl: Op, var: Expression, ts: &[Entry], i: usize) -> (r:
        Result<(Expression, usize), Error>)
        requires
            i <= ts@.len(),
        ensures
            yields(r, i, element(lhs@, opl, var@, entries_view(ts@), i as int)),
            r matches Ok((_, to)) ==> to <= ts@.len(),
        decreases ts@.len() - i, 4int,
    {
        match Expression::parse_index_op(var, ts, i) {
            Err(e) => Err(e),
            Ok((item, k)) => Expression::parse_after_operand(
                lhs,
                opl,
                item,
                None,
                Mid::Literal,
                ts,
                k,
            ),
        }
    }

    fn parse_method_operand(
        lhs: Expression,
        opl: Op,
        mid: Expression,
        opr: Op,
        name: &String,
        ts: &[Entry],
        i: usize,
    ) -> (r: Result<(Expression, usize), Error>)
        requires
            i <= ts@.len(),
        ensures
            yields(
                r,
                i,
                method_operand(lhs@, opl, mid@, opr, name@, entries_view(ts@), i as int),
            ),
            r matches Ok((_, to)) ==> to <= ts@.len(),
        decreases ts@.len() - i, 6int,
    {
        if let Op::Access = opr {
            match Expression::parse_expr_list(ts, i, false) {
                Err(e) => Err(e),
                Ok((arguments, k)) => {
                    let method = Expression::new_fn(Some(mid), name, arguments, ts, k);
                    match token(ts, k) {
                        Some(Token::Op(next)) => Expression::parse_tri_op_start(
                            lhs,
                            opl,
                            method,
                            *next,
                            ts,
                            k + 1,
                        ),
                        _ => Ok((Expression::new_op(lhs, opl, method, ts, k), k)),
                    }
                },
            }
        } else {
            Err(failure(ErrorType::InternalError, ts, i))
        }
    }

    /// Parses the operand that starts at `i` to the right of a second
    /// operator. Gives it with the index of its last token.
    fn parse_right_operand(ts: &[Entry], i: usize) -> (r: Result<(Expression, usize), Error>)
        requires
            i <= ts@.len(),
        ensures
            yields(r, i, right_operand(entries_view(ts@), i as int)),
            r matches Ok((_, k)) ==> k < ts@.len(),
        decreases ts@.len() - i, 5int,
    {
        match token(ts, i) {
            Some(Token::Name(name)) => match token(ts, i + 1) {
                Some(Token::BracketSquareOpen) => {
                    let var = Expression::new_name(name, ts, i + 1);
                    match Expression::parse_index_op(var, ts, i + 2) {
                        Err(e) => Err(e),
                        Ok((item, to)) => Ok((item, to - 1)),
                    }
                },
                _ => Ok((Expression::new_name(name, ts, i + 1), i)),
            },
            Some(Token::Number(t)) => match Expression::new_num(t, ts, i + 1) {
                Ok(e) => Ok((e, i)),
                Err(e) => Err(e),
            },
            _ => Err(failure(ErrorType::InternalError, ts, next_index(ts, i))),
        }
    }

    #[verifier::rlimit(40)]
    fn parse_completed(
        lhs: Expression,
        opl: Op,
        mid: Expression,
        opr: Op,
        ts: &[Entry],
        i: usize,
    ) -> (r: Result<(Expression, usize), Error>)
        requires
            i <= ts@.len(),
        ensures
            yields(r, i, completed(lhs@, opl, mid@, opr, entries_view(ts@), i as int)),
            r matches Ok((_, to)) ==> to <= ts@.len(),
        decreases ts@.len() - i, 6int,
    {
        match Expression::parse_right_operand(ts, i) {
            Err(e) => Err(e),
            Ok((rhs, k)) => {
                proof {
                    let v = entries_view(ts@);
                    let m = (k - i) as nat;
                    assert(right_operand(v, i as int) == Ok::<(ExpressionView, nat), ErrorView>(
                        (rhs@, m),
                    ));
                    assert(i + m == k);
                    assert(triple(lhs@, opl, mid@, opr, rhs@, v, i + m) == triple(
                        lhs@,
                        opl,
                        mid@,
                        opr,
                        rhs@,
                        v,
                        k as int,
                    ));
                }
                Expression::parse_tri_op(lhs, opl, mid, opr, rhs, ts, k)
            },
        }
    }

    /// Parses the right operand of `lhs opl mid opr`, which starts at `i`,
    /// and builds the operation.
    pub fn parse_tri_op_start(
        lhs: Expression,
        opl: Op,
        mid: Expression,
        opr: Op,
        ts: &[Entry],
        i: usize,
    ) -> (r: Result<(Expression, usize), Error>)
        requires
            i <= ts@.len(),
        ensures
            yields(r, i, triple_start(lhs@, opl, mid@, opr, entries_view(ts@), i as int)),
            r matches Ok((_, to)) ==> to <= ts@.len(),
        decreases ts@.len() - i, 7int,
    {
        match token(ts, i) {
            Some(Token::Name(name)) => match token(ts, i + 1) {
                Some(Token::BracketRoundOpen) => Expression::parse_method_operand(
                    lhs,
                    opl,
                    mid,
                    opr,
                    name,
                    ts,
                    i + 2,
                ),
                _ => Expression::parse_completed(lhs, opl, mid, opr, ts, i),
            },
            _ => Expression::parse_completed(lhs, opl, mid, opr, ts, i),
        }
    }

    /// Builds `lhs opl mid opr rhs` by the precedence of the two operators,
    /// where the token at `k` is the last of `rhs`.
    pub fn parse_tri_op(
        lhs: Expression,
        opl: Op,
        mid: Expression,
        opr: Op,
        rhs: Expression,
        ts: &[Entry],
        k: usize,
    ) -> (r: Result<(Expression, usize), Error>)
        requires
            k < ts@.len(),
        ensures
            yields(r, k, triple(lhs@, opl, mid@, opr, rhs@, entries_view(ts@), k as int)),
            r matches Ok((_, to)) ==> to <= ts@.len(),
        decreases ts@.len() - k, 4int,
    {
        let last = token(ts, k);
        if opl.binds_as_tight(&opr) {
            match last {
                None => Err(failure(ErrorType::InternalError, ts, k)),
                Some(last) => {
                    if closes(last) {
                        let left = Expression::new_op(lhs, opl, mid, ts, k + 1);
                        Ok((Expression::new_op(left, opr, rhs, ts, k + 1), k + 1))
                    } else {
                        match Expression::parse(ts, k) {
                            Err(e) => Err(e),
                            Ok((right, to)) => {
                                let left = Expression::new_op(lhs, opl, mid, ts, to);
                                Ok((Expression::new_op(left, opr, right, ts, to), to))
                            },
                        }
                    }
                },
            }
        } else {
            let right = Expression::new_op(mid, opr, rhs, ts, k + 1);
            Ok((Expression::new_op(lhs, opl, right, ts, k + 1), k + 1))
        }
    }
}

/// `r` with `used` more tokens taken before it.
pub open spec fn shift_list(r: Parsed<Seq<ExpressionView>>, used: nat) -> Parsed<
    Seq<ExpressionView>,
> {
    crate::grammar::shift(r, used)
}

/// `r` with `used` more tokens taken before it.
pub open spec fn shift_pairs(
    r: Parsed<Seq<(ExpressionView, ExpressionView)>>,
    used: nat,
) -> Parsed<Seq<(ExpressionView, ExpressionView)>> {
    crate::grammar::shift(r, used)
}

} // verus!
