use vstd::prelude::*;
use crate::ast::{
    names_view, optional_view, statements_view, Error, ErrorType, ErrorView, Expression,
    ExpressionView, Function, FunctionView, Script, ScriptView, Statement, StatementView, Atom,
    AtomView,
};
use crate::expression::{failure, next_index, position, text_of, token, yields};
use crate::words::describe;
use crate::grammar::{atom_at, expression, peek, place};
use crate::number::parse_number;
use crate::stream::{entries_view, TokenStream};
use crate::syntax::{
    block, body_indent, branch, chain, conditional, declared, deeper, ending, for_loop, function,
    function_name, jump, levels, loop_variable, loose, parameters, parsed_script, range,
    range_step, returned, script, shift_block, simple, statement, taken, while_loop, Block, Chain,
    Range, Step,
};
use crate::tokenizer::{AssignOp, Entry, Token, TokenView};

verus! {

/// Whether what a statement parser gave is what `expected` says: `lines`
/// grew from `before` to `after` by the statements of the step, which took
/// the tokens from `from` up to the index given.
pub open spec fn steps(
    r: Result<(usize, Option<u8>), Error>,
    before: Seq<Statement>,
    after: Seq<Statement>,
    from: usize,
    expected: Step,
) -> bool {
    match r {
        Ok((to, early)) => match expected {
            Ok((added, n, e)) => from <= to && n == to - from && e == early && statements_view(
                after,
            ) == statements_view(before) + added,
            Err(_) => false,
        },
        Err(e) => expected == Err::<(Seq<StatementView>, nat, Option<u8>), ErrorView>(e@),
    }
}

/// Whether the block that a parser gave is what `expected` says.
pub open spec fn blocks(r: Result<(Vec<Statement>, usize, u8), Error>, from: usize, expected: Block) -> bool {
    match r {
        Ok((lines, to, indent)) => from <= to && expected == Ok::<
            (Seq<StatementView>, nat, u8),
            ErrorView,
        >((statements_view(lines@), (to - from) as nat, indent)),
        Err(e) => expected == Err::<(Seq<StatementView>, nat, u8), ErrorView>(e@),
    }
}

/// The views of the statements of a branch that may be absent.
pub open spec fn optional_lines(lines: Option<Vec<Statement>>) -> Option<Seq<StatementView>> {
    match lines {
        Some(lines) => Some(statements_view(lines@)),
        None => None,
    }
}

/// The views of a sequence of functions.
pub open spec fn functions_view(v: Seq<Function>) -> Seq<FunctionView> {
    Seq::new(v.len(), |k: int| v[k]@)
}

fn push_line(lines: &mut Vec<Statement>, s: Statement)
    ensures
        statements_view(final(lines)@) == statements_view(old(lines)@) + seq![s@],
{
    let ghost before = lines@;
    lines.push(s);
    assert(statements_view(lines@) =~= statements_view(before) + seq![s@]);
}

fn below(expected: u16) -> (r: u16)
    requires
        expected <= 256,
    ensures
        r == deeper(expected as int),
        r <= 256,
{
    if expected >= 256 {
        256
    } else {
        expected + 1
    }
}

fn ends_block(indent: u8, expected: u16) -> (r: Option<u8>)
    ensures
        r == ending(indent, expected as int),
{
    if (indent as u16) < expected {
        Some(indent)
    } else {
        None
    }
}

impl Statement {
    pub fn new_assign(
        line: u32,
        column: u32,
        var: Expression,
        assign_op: AssignOp,
        expr: Expression,
    ) -> (r: Statement)
        ensures
            r@ == (StatementView::Assign { line, column, var: var@, assign_op, expr: expr@ }),
    {
        proof {
            reveal(Statement::model);
        }
        Statement::Assign { line, column, var, assign_op, expr }
    }

    pub fn new_expression(line: u32, column: u32, expr: Expression) -> (r: Statement)
        ensures
            r@ == (StatementView::Expression { line, column, expr: expr@ }),
    {
        proof {
            reveal(Statement::model);
        }
        Statement::Expression { line, column, expr }
    }

    pub fn new_loose(line: u32, column: u32, expr: Expression) -> (r: Statement)
        ensures
            r@ == (StatementView::LooseExpression { line, column, expr: expr@ }),
    {
        proof {
            reveal(Statement::model);
        }
        Statement::LooseExpression { line, column, expr }
    }

    pub fn new_return(line: u32, column: u32, expr: Option<Expression>) -> (r: Statement)
        ensures
            r@ == (StatementView::Return { line, column, expr: optional_view(expr) }),
    {
        proof {
            reveal(Statement::model);
        }
        Statement::Return { line, column, expr }
    }

    pub fn new_declare(line: u32, column: u32, var: String) -> (r: Statement)
        ensures
            r@ == (StatementView::Declare { line, column, var: var@ }),
    {
        proof {
            reveal(Statement::model);
        }
        Statement::Declare { line, column, var }
    }

    pub fn new_jump(is_break: bool, line: u32, column: u32, levels: u8) -> (r: Statement)
        ensures
            r@ == (if is_break {
                StatementView::Break { line, column, levels }
            } else {
                StatementView::Continue { line, column, levels }
            }),
    {
        proof {
            reveal(Statement::model);
        }
        if is_break {
            Statement::Break { line, column, levels }
        } else {
            Statement::Continue { line, column, levels }
        }
    }

    pub fn new_for(
        line: u32,
        column: u32,
        var: String,
        from: Option<Expression>,
        to: Expression,
        step: Option<Expression>,
        lines: Vec<Statement>,
    ) -> (r: Statement)
        ensures
            r@ == (StatementView::For {
                line,
                column,
                var: var@,
                from: optional_view(from),
                to: to@,
                step: optional_view(step),
                lines: statements_view(lines@),
            }),
    {
        let ghost body = lines@;
        let r = Statement::For { line, column, var, from, to, step, lines };
        proof {
            reveal(Statement::model);
            assert(r.model()->For_lines =~= statements_view(body));
        }
        r
    }

    pub fn new_while(line: u32, column: u32, expr: Expression, lines: Vec<Statement>) -> (r:
        Statement)
        ensures
            r@ == (StatementView::While {
                line,
                column,
                expr: expr@,
                lines: statements_view(lines@),
            }),
    {
        let ghost body = lines@;
        let r = Statement::While { line, column, expr, lines };
        proof {
            reveal(Statement::model);
            assert(r.model()->While_lines =~= statements_view(body));
        }
        r
    }

    pub fn new_if(
        line: u32,
        column: u32,
        expr: Expression,
        lines: Vec<Statement>,
        else_lines: Option<Vec<Statement>>,
    ) -> (r: Statement)
        ensures
            r@ == (StatementView::If {
                line,
                column,
                expr: expr@,
                lines: statements_view(lines@),
                else_lines: optional_lines(else_lines),
            }),
    {
        let ghost body = lines@;
        let ghost other = else_lines;
        let r = Statement::If { line, column, expr, lines, else_lines };
        proof {
            reveal(Statement::model);
            assert(r.model()->If_lines =~= statements_view(body));
            match other {
                Some(o) => {
                    assert(r.model()->else_lines->0 =~= statements_view(o@));
                },
                None => {},
            }
        }
        r
    }
}

fn parse_simple(ts: &[Entry], i: usize, expected: u16, lines: &mut Vec<Statement>) -> (r: Result<
    (usize, Option<u8>),
    Error,
>)
    requires
        i < ts@.len(),
        ts@.len() <= usize::MAX,
        peek(entries_view(ts@), i as int) matches Some(t) && (t is _Self || t is Env || t is Name),
    ensures
        steps(
            r,
            old(lines)@,
            final(lines)@,
            i,
            statement(entries_view(ts@), i as int, expected as int),
        ),
        r matches Ok((j, _)) ==> i < j <= ts@.len(),
{
    let (line, column) = position(ts, i + 1);
    match Expression::parse(ts, i) {
        Err(e) => Err(e),
        Ok((target, j)) => match token(ts, j) {
            Some(Token::Assign(assign_op)) => match Expression::parse(ts, j + 1) {
                Err(e) => Err(e),
                Ok((value, k)) => {
                    push_line(lines, Statement::new_assign(line, column, target, *assign_op, value));
                    Ok((k, None))
                },
            },
            _ => {
                push_line(lines, Statement::new_expression(line, column, target));
                Ok((j, None))
            },
        },
    }
}

fn parse_loose(ts: &[Entry], i: usize, expected: u16, lines: &mut Vec<Statement>) -> (r: Result<
    (usize, Option<u8>),
    Error,
>)
    requires
        i < ts@.len(),
        ts@.len() <= usize::MAX,
        peek(entries_view(ts@), i as int) == Some(TokenView::BracketRoundOpen),
    ensures
        steps(
            r,
            old(lines)@,
            final(lines)@,
            i,
            statement(entries_view(ts@), i as int, expected as int),
        ),
        r matches Ok((j, _)) ==> i < j <= ts@.len(),
{
    let (line, column) = position(ts, i + 1);
    match Expression::parse(ts, i) {
        Err(e) => Err(e),
        Ok((expr, j)) => {
            push_line(lines, Statement::new_loose(line, column, expr));
            Ok((j, None))
        },
    }
}

fn parse_return(ts: &[Entry], i: usize, expected: u16, lines: &mut Vec<Statement>) -> (r: Result<
    (usize, Option<u8>),
    Error,
>)
    requires
        i < ts@.len(),
        ts@.len() <= usize::MAX,
        peek(entries_view(ts@), i as int) == Some(TokenView::Return),
    ensures
        steps(
            r,
            old(lines)@,
            final(lines)@,
            i,
            statement(entries_view(ts@), i as int, expected as int),
        ),
        r matches Ok((j, _)) ==> i < j <= ts@.len(),
{
    let (line, column) = position(ts, i + 1);
    if token(ts, i + 1).is_some() {
        match Expression::parse(ts, i + 1) {
            Err(e) => Err(e),
            Ok((expr, j)) => {
                push_line(lines, Statement::new_return(line, column, Some(expr)));
                Ok((j, None))
            },
        }
    } else {
        push_line(lines, Statement::new_return(line, column, None));
        Ok((i + 1, None))
    }
}

fn parse_declared(ts: &[Entry], i: usize, expected: u16, lines: &mut Vec<Statement>) -> (r: Result<
    (usize, Option<u8>),
    Error,
>)
    requires
        i < ts@.len(),
        ts@.len() <= usize::MAX,
        peek(entries_view(ts@), i as int) == Some(TokenView::Var),
    ensures
        steps(
            r,
            old(lines)@,
            final(lines)@,
            i,
            statement(entries_view(ts@), i as int, expected as int),
        ),
        r matches Ok((j, _)) ==> i < j <= ts@.len(),
{
    let (line, column) = position(ts, i + 1);
    match token(ts, i + 1) {
        None => Err(failure(ErrorType::UnexpectedEOF, ts, i + 1)),
        Some(Token::Name(var)) => {
            let ghost before = statements_view(lines@);
            match token(ts, i + 2) {
                Some(Token::Assign(assign_op)) => {
                    if let AssignOp::Plain = assign_op {
                        let (line2, column2) = position(ts, i + 3);
                        match Expression::parse(ts, i + 3) {
                            Err(e) => Err(e),
                            Ok((expr, j)) => {
                                let target = Expression::new_name(var, ts, i + 2);
                                let declare = Statement::new_declare(line, column, var.clone());
                                let assign = Statement::new_assign(
                                    line2,
                                    column2,
                                    target,
                                    *assign_op,
                                    expr,
                                );
                                let ghost both = seq![declare@, assign@];
                                push_line(lines, declare);
                                push_line(lines, assign);
                                assert(statements_view(lines@) =~= before + both);
                                Ok((j, None))
                            },
                        }
                    } else {
                        Err(failure(ErrorType::InternalError, ts, i + 3))
                    }
                },
                Some(Token::Indent(_)) | None => {
                    push_line(lines, Statement::new_declare(line, column, var.clone()));
                    Ok((i + 2, None))
                },
                Some(other) => Err(
                    failure(ErrorType::UnexpectedToken(describe(other)), ts, i + 3),
                ),
            }
        },
        Some(other) => Err(failure(ErrorType::UnexpectedToken(describe(other)), ts, i + 2)),
    }
}

fn parse_levels(ts: &[Entry], i: usize) -> (r: Result<(u8, usize), Error>)
    requires
        i < ts@.len(),
        ts@.len() <= usize::MAX,
    ensures
        match r {
            Ok((n, j)) => i < j <= ts@.len() && levels(entries_view(ts@), i as int) == Ok::<
                (u8, nat),
                ErrorView,
            >((n, (j - i) as nat)),
            Err(e) => levels(entries_view(ts@), i as int) == Err::<(u8, nat), ErrorView>(e@),
        },
{
    match token(ts, i + 1) {
        None => Ok((0, i + 1)),
        Some(given) => match given {
            Token::Number(text) => match parse_number(text.as_str()) {
                Ok(Atom::Integer(n)) => {
                    if 0 <= n && n <= 255 {
                        Ok((n as u8, i + 2))
                    } else {
                        Err(failure(ErrorType::UnexpectedToken(describe(given)), ts, i + 2))
                    }
                },
                Ok(_) => Err(failure(ErrorType::UnexpectedToken(describe(given)), ts, i + 2)),
                Err(_) => Err(failure(ErrorType::NotANumber, ts, i + 2)),
            },
            Token::Indent(_) => Ok((0, i + 1)),
            _ => Err(failure(ErrorType::UnexpectedToken(describe(given)), ts, i + 2)),
        },
    }
}

fn parse_jump(
    ts: &[Entry],
    i: usize,
    is_break: bool,
    expected: u16,
    lines: &mut Vec<Statement>,
) -> (r: Result<(usize, Option<u8>), Error>)
    requires
        i < ts@.len(),
        ts@.len() <= usize::MAX,
        peek(entries_view(ts@), i as int) == Some(
            if is_break {
                TokenView::Break
            } else {
                TokenView::Continue
            },
        ),
    ensures
        steps(
            r,
            old(lines)@,
            final(lines)@,
            i,
            statement(entries_view(ts@), i as int, expected as int),
        ),
        r matches Ok((j, _)) ==> i < j <= ts@.len(),
{
    let (line, column) = position(ts, i + 1);
    match parse_levels(ts, i) {
        Err(e) => Err(e),
        Ok((levels, j)) => {
            push_line(lines, Statement::new_jump(is_break, line, column, levels));
            Ok((j, None))
        },
    }
}

fn parse_range_step(ts: &[Entry], k: usize) -> (r: Result<(Option<Expression>, usize), Error>)
    requires
        k <= ts@.len(),
    ensures
        match r {
            Ok((step, j)) => k <= j <= ts@.len() && range_step(entries_view(ts@), k as int) == Ok::<
                (Option<ExpressionView>, nat),
                ErrorView,
            >((optional_view(step), (j - k) as nat)),
            Err(e) => range_step(entries_view(ts@), k as int) == Err::<
                (Option<ExpressionView>, nat),
                ErrorView,
            >(e@),
        },
{
    match token(ts, k) {
        Some(Token::Step) => match Expression::parse(ts, k + 1) {
            Err(e) => Err(e),
            Ok((step, j)) => Ok((Some(step), j)),
        },
        _ => Ok((None, k)),
    }
}

/// The views of the three parts of a range.
pub open spec fn range_view(
    from: Option<Expression>,
    to: Expression,
    step: Option<Expression>,
) -> Range {
    (optional_view(from), to@, optional_view(step))
}

fn parse_range(ts: &[Entry], j: usize) -> (r: Result<
    (Option<Expression>, Expression, Option<Expression>, usize),
    Error,
>)
    requires
        j <= ts@.len(),
    ensures
        match r {
            Ok((from, to, step, k)) => j <= k <= ts@.len() && range(entries_view(ts@), j as int)
                == Ok::<(Range, nat), ErrorView>((range_view(from, to, step), (k - j) as nat)),
            Err(e) => range(entries_view(ts@), j as int) == Err::<(Range, nat), ErrorView>(e@),
        },
{
    match Expression::parse(ts, j) {
        Err(e) => Err(e),
        Ok((first, a)) => match token(ts, a) {
            Some(Token::To) => match Expression::parse(ts, a + 1) {
                Err(e) => Err(e),
                Ok((to, b)) => match parse_range_step(ts, b) {
                    Err(e) => Err(e),
                    Ok((step, k)) => Ok((Some(first), to, step, k)),
                },
            },
            _ => match parse_range_step(ts, a) {
                Err(e) => Err(e),
                Ok((step, k)) => Ok((None, first, step, k)),
            },
        },
    }
}

fn parse_loop_variable(ts: &[Entry], i: usize) -> (r: Result<String, Error>)
    requires
        i < ts@.len(),
        ts@.len() <= usize::MAX,
    ensures
        match r {
            Ok(var) => i + 3 <= ts@.len() && loop_variable(entries_view(ts@), i as int) == Ok::<
                Seq<char>,
                ErrorView,
            >(var@),
            Err(e) => loop_variable(entries_view(ts@), i as int) == Err::<Seq<char>, ErrorView>(
                e@,
            ),
        },
{
    match token(ts, i + 1) {
        None => Err(failure(ErrorType::UnexpectedEOF, ts, i + 1)),
        Some(Token::Name(var)) => match token(ts, i + 2) {
            Some(Token::In) => Ok(var.clone()),
            _ => Err(
                failure(ErrorType::ExpectedToken(text_of(Token::In)), ts, next_index(ts, i + 2)),
            ),
        },
        Some(other) => Err(failure(ErrorType::UnexpectedToken(describe(other)), ts, i + 2)),
    }
}

fn parse_for(ts: &[Entry], i: usize, expected: u16, lines: &mut Vec<Statement>) -> (r: Result<
    (usize, Option<u8>),
    Error,
>)
    requires
        i < ts@.len(),
        ts@.len() <= usize::MAX,
        expected <= 256,
        peek(entries_view(ts@), i as int) == Some(TokenView::For),
    ensures
        steps(
            r,
            old(lines)@,
            final(lines)@,
            i,
            statement(entries_view(ts@), i as int, expected as int),
        ),
        r matches Ok((j, _)) ==> i < j <= ts@.len(),
    decreases ts@.len() - i, 0int,
{
    let (line, column) = position(ts, i + 1);
    assert(statement(entries_view(ts@), i as int, expected as int) == for_loop(
        entries_view(ts@),
        i as int,
        expected as int,
    ));
    match parse_loop_variable(ts, i) {
        Err(e) => Err(e),
        Ok(var) => match parse_range(ts, i + 3) {
            Err(e) => Err(e),
            Ok((from, to, step, j)) => match parse_block(ts, j, below(expected)) {
                Err(e) => Err(e),
                Ok((body, k, indent)) => {
                    push_line(lines, Statement::new_for(line, column, var, from, to, step, body));
                    Ok((k, ends_block(indent, expected)))
                },
            },
        },
    }
}

fn parse_while(ts: &[Entry], i: usize, expected: u16, lines: &mut Vec<Statement>) -> (r: Result<
    (usize, Option<u8>),
    Error,
>)
    requires
        i < ts@.len(),
        ts@.len() <= usize::MAX,
        expected <= 256,
        peek(entries_view(ts@), i as int) == Some(TokenView::While),
    ensures
        steps(
            r,
            old(lines)@,
            final(lines)@,
            i,
            statement(entries_view(ts@), i as int, expected as int),
        ),
        r matches Ok((j, _)) ==> i < j <= ts@.len(),
    decreases ts@.len() - i, 0int,
{
    let (line, column) = position(ts, i + 1);
    assert(statement(entries_view(ts@), i as int, expected as int) == while_loop(
        entries_view(ts@),
        i as int,
        expected as int,
    ));
    match Expression::parse(ts, i + 1) {
        Err(e) => Err(e),
        Ok((expr, j)) => match parse_block(ts, j, below(expected)) {
            Err(e) => Err(e),
            Ok((body, k, indent)) => {
                push_line(lines, Statement::new_while(line, column, expr, body));
                Ok((k, ends_block(indent, expected)))
            },
        },
    }
}

#[verifier::rlimit(40)]
fn parse_branch(ts: &[Entry], i: usize, expected: u16) -> (r: Result<
    (Expression, Vec<Statement>, usize, u8),
    Error,
>)
    requires
        i < ts@.len(),
        ts@.len() <= usize::MAX,
        expected <= 256,
    ensures
        match r {
            Ok((expr, lines, j, indent)) => i < j <= ts@.len() && branch(
                entries_view(ts@),
                i as int,
                expected as int,
            ) == Ok::<(ExpressionView, Seq<StatementView>, nat, u8), ErrorView>(
                (expr@, statements_view(lines@), (j - i - 1) as nat, indent),
            ),
            Err(e) => branch(entries_view(ts@), i as int, expected as int) == Err::<
                (ExpressionView, Seq<StatementView>, nat, u8),
                ErrorView,
            >(e@),
        },
    decreases ts@.len() - i, 0int,
{
    match Expression::parse(ts, i + 1) {
        Err(e) => Err(e),
        Ok((expr, j)) => {
            proof {
                let v = entries_view(ts@);
                let n = (j - (i + 1)) as nat;
                assert(expression(v, i + 1) == Ok::<(ExpressionView, nat), ErrorView>(
                    (expr@, n),
                ));
                assert(i + 1 + n == j);
                assert(block(v, i + 1 + n, deeper(expected as int), Seq::empty()) == block(
                    v,
                    j as int,
                    deeper(expected as int),
                    Seq::empty(),
                ));
            }
            match parse_block(ts, j, below(expected)) {
                Err(e) => Err(e),
                Ok((lines, k, indent)) => Ok((expr, lines, k, indent)),
            }
        },
    }
}

/// Whether the chain that a parser gave is what `expected` says.
pub open spec fn chains(
    r: Result<(Option<Vec<Statement>>, usize, Option<u8>), Error>,
    from: usize,
    expected: Chain,
) -> bool {
    match r {
        Ok((lines, to, early)) => from <= to && expected == Ok::<
            (Option<Seq<StatementView>>, nat, Option<u8>),
            ErrorView,
        >((optional_lines(lines), (to - from) as nat, early)),
        Err(e) => expected == Err::<(Option<Seq<StatementView>>, nat, Option<u8>), ErrorView>(
            e@,
        ),
    }
}

fn single(s: Statement) -> (r: Vec<Statement>)
    ensures
        statements_view(r@) == seq![s@],
{
    let mut r: Vec<Statement> = Vec::new();
    let ghost view = s@;
    r.push(s);
    assert(statements_view(r@) =~= seq![view]);
    r
}

fn parse_elif(ts: &[Entry], i: usize, expected: u16) -> (r: Result<
    (Option<Vec<Statement>>, usize, Option<u8>),
    Error,
>)
    requires
        i < ts@.len(),
        ts@.len() <= usize::MAX,
        expected <= 256,
        peek(entries_view(ts@), i as int) == Some(TokenView::Elif),
    ensures
        chains(r, i, chain(entries_view(ts@), i as int, expected as int)),
        r matches Ok((_, j, _)) ==> j <= ts@.len(),
    decreases ts@.len() - i, 1int,
{
    let (line, column) = position(ts, i + 1);
    match parse_branch(ts, i, expected) {
        Err(e) => Err(e),
        Ok((expr, lines, j, indent)) => {
            if (indent as u16) < expected {
                Ok((Some(single(Statement::new_if(line, column, expr, lines, None))), j, Some(indent)))
            } else {
                match parse_chain(ts, j, expected) {
                    Err(e) => Err(e),
                    Ok((else_lines, k, early)) => Ok(
                        (
                            Some(single(Statement::new_if(line, column, expr, lines, else_lines))),
                            k,
                            early,
                        ),
                    ),
                }
            }
        },
    }
}

fn parse_else(ts: &[Entry], i: usize, expected: u16) -> (r: Result<
    (Option<Vec<Statement>>, usize, Option<u8>),
    Error,
>)
    requires
        i < ts@.len(),
        ts@.len() <= usize::MAX,
        expected <= 256,
        peek(entries_view(ts@), i as int) == Some(TokenView::Else),
    ensures
        chains(r, i, chain(entries_view(ts@), i as int, expected as int)),
        r matches Ok((_, j, _)) ==> j <= ts@.len(),
    decreases ts@.len() - i, 1int,
{
    match parse_block(ts, i + 1, below(expected)) {
        Err(e) => Err(e),
        Ok((lines, j, indent)) => {
            if (indent as u16) < expected {
                Ok((Some(lines), j, Some(indent)))
            } else {
                match parse_chain(ts, j, expected) {
                    Err(e) => Err(e),
                    Ok((later, k, early)) => {
                        if later.is_some() {
                            Ok((later, k, early))
                        } else {
                            Ok((Some(lines), k, early))
                        }
                    },
                }
            }
        },
    }
}

fn parse_chain(ts: &[Entry], i: usize, expected: u16) -> (r: Result<
    (Option<Vec<Statement>>, usize, Option<u8>),
    Error,
>)
    requires
        i <= ts@.len(),
        expected <= 256,
    ensures
        chains(r, i, chain(entries_view(ts@), i as int, expected as int)),
        r matches Ok((_, j, _)) ==> j <= ts@.len(),
    decreases ts@.len() - i, 2int,
{
    match token(ts, i) {
        Some(Token::Elif) => parse_elif(ts, i, expected),
        Some(Token::Else) => parse_else(ts, i, expected),
        _ => Ok((None, i, None)),
    }
}

fn parse_conditional(ts: &[Entry], i: usize, expected: u16, lines: &mut Vec<Statement>) -> (r:
    Result<(usize, Option<u8>), Error>)
    requires
        i < ts@.len(),
        ts@.len() <= usize::MAX,
        expected <= 256,
        peek(entries_view(ts@), i as int) == Some(TokenView::If),
    ensures
        steps(
            r,
            old(lines)@,
            final(lines)@,
            i,
            statement(entries_view(ts@), i as int, expected as int),
        ),
        r matches Ok((j, _)) ==> i < j <= ts@.len(),
    decreases ts@.len() - i, 3int,
{
    let (line, column) = position(ts, i + 1);
    assert(statement(entries_view(ts@), i as int, expected as int) == conditional(
        entries_view(ts@),
        i as int,
        expected as int,
    ));
    match parse_branch(ts, i, expected) {
        Err(e) => Err(e),
        Ok((expr, body, j, indent)) => {
            if (indent as u16) < expected {
                push_line(lines, Statement::new_if(line, column, expr, body, None));
                Ok((j, Some(indent)))
            } else {
                match parse_chain(ts, j, expected) {
                    Err(e) => Err(e),
                    Ok((else_lines, k, early)) => {
                        push_line(lines, Statement::new_if(line, column, expr, body, else_lines));
                        Ok((k, early))
                    },
                }
            }
        },
    }
}

fn parse_compound(ts: &[Entry], i: usize, expected: u16, lines: &mut Vec<Statement>) -> (r:
    Result<(usize, Option<u8>), Error>)
    requires
        i < ts@.len(),
        ts@.len() <= usize::MAX,
        expected <= 256,
        peek(entries_view(ts@), i as int) matches Some(t) && (t is For || t is While || t is If),
    ensures
        steps(
            r,
            old(lines)@,
            final(lines)@,
            i,
            statement(entries_view(ts@), i as int, expected as int),
        ),
        r matches Ok((j, _)) ==> i < j <= ts@.len(),
    decreases ts@.len() - i, 4int,
{
    match token(ts, i) {
        Some(Token::For) => parse_for(ts, i, expected, lines),
        Some(Token::While) => parse_while(ts, i, expected, lines),
        _ => parse_conditional(ts, i, expected, lines),
    }
}

fn parse_statement(ts: &[Entry], i: usize, expected: u16, lines: &mut Vec<Statement>) -> (r:
    Result<(usize, Option<u8>), Error>)
    requires
        i < ts@.len(),
        ts@.len() <= usize::MAX,
        expected <= 256,
    ensures
        steps(
            r,
            old(lines)@,
            final(lines)@,
            i,
            statement(entries_view(ts@), i as int, expected as int),
        ),
        r matches Ok((j, _)) ==> i < j <= ts@.len(),
    decreases ts@.len() - i, 5int,
{
    match token(ts, i) {
        Some(Token::_Self) | Some(Token::Env) | Some(Token::Name(_)) => parse_simple(
            ts,
            i,
            expected,
            lines,
        ),
        Some(Token::For) | Some(Token::While) | Some(Token::If) => parse_compound(
            ts,
            i,
            expected,
            lines,
        ),
        Some(Token::Return) => parse_return(ts, i, expected, lines),
        Some(Token::Var) => parse_declared(ts, i, expected, lines),
        Some(Token::Continue) => parse_jump(ts, i, false, expected, lines),
        Some(Token::Break) => parse_jump(ts, i, true, expected, lines),
        Some(Token::BracketRoundOpen) => parse_loose(ts, i, expected, lines),
        _ => Err(failure(ErrorType::InternalError, ts, next_index(ts, i))),
    }
}

/// Parses the statements of the block at the level `expected` from index
/// `i` on. Gives them with the index behind the block and the indent that
/// ended it.
pub fn parse_block(ts: &[Entry], i: usize, expected: u16) -> (r: Result<
    (Vec<Statement>, usize, u8),
    Error,
>)
    requires
        i <= ts@.len(),
        expected <= 256,
    ensures
        blocks(r, i, block(entries_view(ts@), i as int, expected as int, Seq::empty())),
        r matches Ok((_, j, _)) ==> j <= ts@.len(),
    decreases ts@.len() - i, 7int,
{
    let mut lines: Vec<Statement> = Vec::new();
    let mut at: usize = i;
    let ghost v = entries_view(ts@);
    assert(statements_view(lines@) =~= Seq::<StatementView>::empty());
    loop
        invariant
            i <= at <= ts@.len(),
            expected <= 256,
            v == entries_view(ts@),
            block(v, i as int, expected as int, Seq::empty()) == shift_block(
                block(v, at as int, expected as int, statements_view(lines@)),
                (at - i) as nat,
            ),
        decreases ts@.len() - at,
    {
        if at >= ts.len() {
            return Ok((lines, at, 0));
        }
        match parse_line(ts, at, expected, &mut lines) {
            Err(e) => {
                return Err(e);
            },
            Ok((j, Some(indent))) => {
                return Ok((lines, j, indent));
            },
            Ok((j, None)) => {
                at = j;
            },
        }
    }
}

/// Whether what `parse_line` gave is what the block that starts at `from`
/// behind `before` says: the block ends at the index given, or goes on from
/// there behind `after`.
pub open spec fn continues(
    r: Result<(usize, Option<u8>), Error>,
    before: Seq<Statement>,
    after: Seq<Statement>,
    from: usize,
    ts: Seq<crate::tokenizer::EntryView>,
    expected: int,
) -> bool {
    let whole = block(ts, from as int, expected, statements_view(before));
    match r {
        Ok((to, Some(indent))) => from < to && whole == Ok::<
            (Seq<StatementView>, nat, u8),
            ErrorView,
        >((statements_view(after), (to - from) as nat, indent)),
        Ok((to, None)) => from < to && whole == shift_block(
            block(ts, to as int, expected, statements_view(after)),
            (to - from) as nat,
        ),
        Err(e) => whole == Err::<(Seq<StatementView>, nat, u8), ErrorView>(e@),
    }
}

/// Parses the line that starts at `at` in a block at the level `expected`:
/// an indent, `pass` or a statement. Gives the index behind it and, where
/// the block ends there, the indent that ends it.
fn parse_line(ts: &[Entry], at: usize, expected: u16, lines: &mut Vec<Statement>) -> (r: Result<
    (usize, Option<u8>),
    Error,
>)
    requires
        at < ts@.len(),
        expected <= 256,
    ensures
        continues(r, old(lines)@, final(lines)@, at, entries_view(ts@), expected as int),
        r matches Ok((j, _)) ==> j <= ts@.len(),
    decreases ts@.len() - at, 6int,
{
    match token(ts, at) {
        None => Ok((at + 1, None)),
        Some(Token::Indent(n)) => {
            if (*n as u16) < expected {
                Ok((at + 1, Some(*n)))
            } else if (*n as u16) == expected {
                Ok((at + 1, None))
            } else {
                Err(failure(ErrorType::UnexpectedIndent(*n), ts, at + 1))
            }
        },
        Some(Token::Pass) => Ok((at + 1, None)),
        Some(_) => parse_statement(ts, at, expected, lines),
    }
}

fn parse_parameters(ts: &[Entry], j: usize) -> (r: Result<(Vec<String>, usize), Error>)
    requires
        j <= ts@.len(),
    ensures
        match r {
            Ok((names, k)) => j < k <= ts@.len() && parameters(
                entries_view(ts@),
                j as int,
                Seq::empty(),
            ) == Ok::<(Seq<Seq<char>>, nat), ErrorView>((names_view(names@), (k - j) as nat)),
            Err(e) => parameters(entries_view(ts@), j as int, Seq::empty()) == Err::<
                (Seq<Seq<char>>, nat),
                ErrorView,
            >(e@),
        },
{
    let mut names: Vec<String> = Vec::new();
    let mut at: usize = j;
    let ghost v = entries_view(ts@);
    assert(names_view(names@) =~= Seq::<Seq<char>>::empty());
    loop
        invariant
            j <= at <= ts@.len(),
            v == entries_view(ts@),
            match parameters(v, at as int, names_view(names@)) {
                Ok((all, n)) => parameters(v, j as int, Seq::empty()) == Ok::<
                    (Seq<Seq<char>>, nat),
                    ErrorView,
                >((all, n + (at - j) as nat)),
                Err(e) => parameters(v, j as int, Seq::empty()) == Err::<
                    (Seq<Seq<char>>, nat),
                    ErrorView,
                >(e),
            },
        decreases ts@.len() - at,
    {
        match token(ts, at) {
            Some(Token::BracketRoundClose) => {
                return Ok((names, at + 1));
            },
            Some(Token::Name(a)) => {
                let ghost before = names_view(names@);
                names.push(a.clone());
                assert(names_view(names@) =~= before.push(a@));
                match token(ts, at + 1) {
                    Some(Token::BracketRoundClose) => {
                        return Ok((names, at + 2));
                    },
                    Some(Token::Comma) => {
                        at = at + 2;
                    },
                    _ => {
                        return Err(
                            failure(ErrorType::InternalError, ts, next_index(ts, at + 1)),
                        );
                    },
                }
            },
            _ => {
                return Err(failure(ErrorType::InternalError, ts, next_index(ts, at)));
            },
        }
    }
}

fn parse_function_name(ts: &[Entry], i: usize) -> (r: Result<String, Error>)
    requires
        i <= ts@.len(),
    ensures
        match r {
            Ok(name) => i + 2 <= ts@.len() && function_name(entries_view(ts@), i as int) == Ok::<
                Seq<char>,
                ErrorView,
            >(name@),
            Err(e) => function_name(entries_view(ts@), i as int) == Err::<Seq<char>, ErrorView>(
                e@,
            ),
        },
{
    match token(ts, i) {
        None => Err(failure(ErrorType::UnexpectedEOF, ts, i)),
        Some(Token::Name(name)) => match token(ts, i + 1) {
            None => Err(failure(ErrorType::UnexpectedEOF, ts, i + 1)),
            Some(Token::BracketRoundOpen) => Ok(name.clone()),
            Some(other) => Err(failure(ErrorType::UnexpectedToken(describe(other)), ts, i + 2)),
        },
        Some(other) => Err(failure(ErrorType::UnexpectedToken(describe(other)), ts, i + 1)),
    }
}

fn check_body_indent(ts: &[Entry], k: usize) -> (r: Option<Error>)
    requires
        k <= ts@.len(),
    ensures
        match r {
            Some(e) => body_indent(entries_view(ts@), k as int) == Some(e@),
            None => body_indent(entries_view(ts@), k as int).is_none() && k < ts@.len(),
        },
{
    match token(ts, k) {
        None => Some(failure(ErrorType::UnexpectedEOF, ts, k)),
        Some(Token::Indent(n)) => {
            if *n == 1 {
                None
            } else {
                Some(failure(ErrorType::UnexpectedIndent(*n), ts, k + 1))
            }
        },
        Some(other) => Some(failure(ErrorType::UnexpectedToken(describe(other)), ts, k + 1)),
    }
}

impl Function {
    /// Parses the function behind `fn`, whose name stands at index `i`.
    /// Gives the function and the index behind its body.
    pub fn parse(ts: &[Entry], i: usize) -> (r: Result<(Function, usize), Error>)
        requires
            i <= ts@.len(),
        ensures
            match r {
                Ok((f, j)) => i < j <= ts@.len() && function(entries_view(ts@), i as int) == Ok::<
                    (FunctionView, nat),
                    ErrorView,
                >((f@, (j - i) as nat)),
                Err(e) => function(entries_view(ts@), i as int) == Err::<
                    (FunctionView, nat),
                    ErrorView,
                >(e@),
            },
    {
        let total = ts.len();
        match parse_function_name(ts, i) {
            Err(e) => Err(e),
            Ok(name) => match parse_parameters(ts, i + 2) {
                Err(e) => Err(e),
                Ok((parameters, k)) => match check_body_indent(ts, k) {
                    Some(e) => Err(e),
                    None => match parse_block(ts, k + 1, 1) {
                        Err(e) => Err(e),
                        Ok((lines, j, _)) => Ok((Function { name, parameters, lines }, j)),
                    },
                },
            },
        }
    }
}

impl Script {
    /// Parses the script that a token stream declares.
    pub fn parse(tokens: TokenStream) -> (r: Result<Script, Error>)
        ensures
            match r {
                Ok(s) => parsed_script(tokens.entries()) == Ok::<ScriptView, ErrorView>(s@),
                Err(e) => parsed_script(tokens.entries()) == Err::<ScriptView, ErrorView>(e@),
            },
    {
        let ts = tokens.as_slice();
        let mut functions: Vec<Function> = Vec::new();
        let mut variables: Vec<String> = Vec::new();
        let mut at: usize = 0;
        let ghost v = entries_view(ts@);
        assert(functions_view(functions@) =~= Seq::<FunctionView>::empty());
        assert(names_view(variables@) =~= Seq::<Seq<char>>::empty());
        loop
            invariant
                at <= ts@.len(),
                v == entries_view(ts@),
                v == tokens.entries(),
                parsed_script(v) == script(
                    v,
                    at as int,
                    functions_view(functions@),
                    names_view(variables@),
                ),
            decreases ts@.len() - at,
        {
            match token(ts, at) {
                None => {
                    let ghost fv = functions_view(functions@);
                    let s = Script { functions, variables };
                    assert(s@.functions =~= fv);
                    return Ok(s);
                },
                Some(Token::Var) => match token(ts, at + 1) {
                    Some(Token::Name(name)) => {
                        let ghost before = names_view(variables@);
                        variables.push(name.clone());
                        assert(names_view(variables@) =~= before.push(name@));
                        at = at + 2;
                    },
                    _ => {
                        return Err(failure(ErrorType::InternalError, ts, next_index(ts, at + 1)));
                    },
                },
                Some(Token::Fn) => match Function::parse(ts, at + 1) {
                    Err(e) => {
                        return Err(e);
                    },
                    Ok((f, j)) => {
                        let ghost before = functions_view(functions@);
                        let ghost view = f@;
                        functions.push(f);
                        assert(functions_view(functions@) =~= before.push(view));
                        at = j;
                    },
                },
                Some(Token::Indent(n)) => {
                    if *n == 0 {
                        at = at + 1;
                    } else {
                        return Err(failure(ErrorType::UnexpectedIndent(*n), ts, at + 1));
                    }
                },
                Some(other) => {
                    return Err(failure(ErrorType::UnexpectedToken(describe(other)), ts, at + 1));
                },
            }
        }
    }
}

} // verus!
