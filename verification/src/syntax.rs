use vstd::prelude::*;
use crate::ast::{
    AtomView, ErrorTypeView, ErrorView, ExpressionView, FunctionView, ScriptView, StatementView,
};
use crate::grammar::{after, atom_at, expression, fail, left, peek, place};
use crate::words::debug_text;
use crate::number::number_of;
use crate::tokenizer::{AssignOp, EntryView, TokenView};

verus! {

/// The statements that one step of a block adds, the tokens they take, and
/// the indent that ends the block where the step met one.
pub type Step = Result<(Seq<StatementView>, nat, Option<u8>), ErrorView>;

/// The statements of a block, the tokens they take, and the indent that
/// ended the block: zero where the tokens ended.
pub type Block = Result<(Seq<StatementView>, nat, u8), ErrorView>;

/// The else branch of an `if`, if any, the tokens that the chain of `elif`
/// and `else` takes, and the indent that ends the block where the chain met
/// one.
pub type Chain = Result<(Option<Seq<StatementView>>, nat, Option<u8>), ErrorView>;

/// The range of a `for`: where it starts, if given, where it ends, and its
/// step, if given.
pub type Range = (Option<ExpressionView>, ExpressionView, Option<ExpressionView>);

/// `n`, or one where `n` is zero: what is parsed takes at least one token.
pub open spec fn taken(n: nat) -> nat {
    if n == 0 {
        1
    } else {
        n
    }
}

/// The indent expected one level below `expected`. No indent is deeper than
/// 255, so all levels above stand for one.
pub open spec fn deeper(expected: int) -> int {
    if expected >= 256 {
        256
    } else {
        expected + 1
    }
}

/// `r` with `used` more tokens taken before it.
pub open spec fn shift_block(r: Block, used: nat) -> Block {
    match r {
        Ok((lines, n, indent)) => Ok((lines, n + used, indent)),
        Err(e) => Err(e),
    }
}

/// The indent that ends the enclosing block, if `indent` does.
pub open spec fn ending(indent: u8, expected: int) -> Option<u8> {
    if indent < expected {
        Some(indent)
    } else {
        None
    }
}

/// The statement that starts with the expression at `i`: an assignment
/// where an assignment operator follows the expression, else the expression
/// itself.
pub open spec fn simple(ts: Seq<EntryView>, i: int) -> Step {
    match expression(ts, i) {
        Err(e) => Err(e),
        Ok((target, n)) => match peek(ts, i + n) {
            Some(TokenView::Assign(assign_op)) => match expression(ts, i + n + 1) {
                Err(e) => Err(e),
                Ok((value, m)) => Ok(
                    (
                        seq![
                            StatementView::Assign {
                                line: place(ts, i + 1).0,
                                column: place(ts, i + 1).1,
                                var: target,
                                assign_op,
                                expr: value,
                            },
                        ],
                        n + 1 + m,
                        None,
                    ),
                ),
            },
            _ => Ok(
                (
                    seq![
                        StatementView::Expression {
                            line: place(ts, i + 1).0,
                            column: place(ts, i + 1).1,
                            expr: target,
                        },
                    ],
                    n,
                    None,
                ),
            ),
        },
    }
}

/// The bracketed expression that stands at `i` as a statement.
pub open spec fn loose(ts: Seq<EntryView>, i: int) -> Step {
    match expression(ts, i) {
        Err(e) => Err(e),
        Ok((expr, n)) => Ok(
            (
                seq![
                    StatementView::LooseExpression {
                        line: place(ts, i + 1).0,
                        column: place(ts, i + 1).1,
                        expr,
                    },
                ],
                n,
                None,
            ),
        ),
    }
}

/// The `return` at `i`, with the expression that follows it, if any token
/// follows.
pub open spec fn returned(ts: Seq<EntryView>, i: int) -> Step {
    if peek(ts, i + 1) is Some {
        match expression(ts, i + 1) {
            Err(e) => Err(e),
            Ok((expr, n)) => Ok(
                (
                    seq![
                        StatementView::Return {
                            line: place(ts, i + 1).0,
                            column: place(ts, i + 1).1,
                            expr: Some(expr),
                        },
                    ],
                    n + 1,
                    None,
                ),
            ),
        }
    } else {
        Ok(
            (
                seq![
                    StatementView::Return {
                        line: place(ts, i + 1).0,
                        column: place(ts, i + 1).1,
                        expr: None,
                    },
                ],
                1,
                None,
            ),
        )
    }
}

/// The `var` at `i`: a declaration, and an assignment to the variable where
/// a plain `=` follows its name.
pub open spec fn declared(ts: Seq<EntryView>, i: int) -> Step {
    match peek(ts, i + 1) {
        None => Err(fail(ErrorTypeView::UnexpectedEOF, ts, i + 1)),
        Some(TokenView::Name(var)) => {
            let declare = StatementView::Declare {
                line: place(ts, i + 1).0,
                column: place(ts, i + 1).1,
                var,
            };
            match peek(ts, i + 2) {
                Some(TokenView::Assign(assign_op)) => if assign_op == AssignOp::Plain {
                    match expression(ts, i + 3) {
                        Err(e) => Err(e),
                        Ok((expr, n)) => Ok(
                            (
                                seq![
                                    declare,
                                    StatementView::Assign {
                                        line: place(ts, i + 3).0,
                                        column: place(ts, i + 3).1,
                                        var: atom_at(AtomView::Name(var), ts, i + 2),
                                        assign_op,
                                        expr,
                                    },
                                ],
                                n + 3,
                                None,
                            ),
                        ),
                    }
                } else {
                    Err(fail(ErrorTypeView::InternalError, ts, i + 3))
                },
                Some(TokenView::Indent(_)) | None => Ok((seq![declare], 2, None)),
                Some(other) => Err(
                    fail(ErrorTypeView::UnexpectedToken(debug_text(other)), ts, i + 3),
                ),
            }
        },
        Some(other) => Err(fail(ErrorTypeView::UnexpectedToken(debug_text(other)), ts, i + 2)),
    }
}

/// How many enclosing loops the `break` or `continue` at `i` skips, and the
/// tokens that the statement takes. The number, where one is given, is an
/// integer from 0 to 255.
pub open spec fn levels(ts: Seq<EntryView>, i: int) -> Result<(u8, nat), ErrorView> {
    match peek(ts, i + 1) {
        Some(TokenView::Number(text)) => match number_of(text) {
            Ok(AtomView::Integer(n)) => if 0 <= n <= 255 {
                Ok((n as u8, 2))
            } else {
                Err(
                    fail(
                        ErrorTypeView::UnexpectedToken(debug_text(TokenView::Number(text))),
                        ts,
                        i + 2,
                    ),
                )
            },
            Ok(_) => Err(
                fail(
                    ErrorTypeView::UnexpectedToken(debug_text(TokenView::Number(text))),
                    ts,
                    i + 2,
                ),
            ),
            Err(_) => Err(fail(ErrorTypeView::NotANumber, ts, i + 2)),
        },
        Some(TokenView::Indent(_)) | None => Ok((0, 1)),
        Some(other) => Err(fail(ErrorTypeView::UnexpectedToken(debug_text(other)), ts, i + 2)),
    }
}

/// The `break` or `continue` at `i`.
pub open spec fn jump(ts: Seq<EntryView>, i: int, is_break: bool) -> Step {
    match levels(ts, i) {
        Err(e) => Err(e),
        Ok((levels, n)) => Ok(
            (
                seq![
                    if is_break {
                        StatementView::Break {
                            line: place(ts, i + 1).0,
                            column: place(ts, i + 1).1,
                            levels,
                        }
                    } else {
                        StatementView::Continue {
                            line: place(ts, i + 1).0,
                            column: place(ts, i + 1).1,
                            levels,
                        }
                    },
                ],
                n,
                None,
            ),
        ),
    }
}

/// The step of a range, which stands at `k` behind `step`, if it is given.
pub open spec fn range_step(ts: Seq<EntryView>, k: int) -> Result<
    (Option<ExpressionView>, nat),
    ErrorView,
> {
    match peek(ts, k) {
        Some(TokenView::Step) => match expression(ts, k + 1) {
            Err(e) => Err(e),
            Ok((step, n)) => Ok((Some(step), n + 1)),
        },
        _ => Ok((None, 0)),
    }
}

/// The range of a `for`, which starts at `j`: `E`, `E step S`, `E to F` or
/// `E to F step S`.
pub open spec fn range(ts: Seq<EntryView>, j: int) -> Result<(Range, nat), ErrorView> {
    match expression(ts, j) {
        Err(e) => Err(e),
        Ok((first, n)) => match peek(ts, j + n) {
            Some(TokenView::To) => match expression(ts, j + n + 1) {
                Err(e) => Err(e),
                Ok((to, m)) => match range_step(ts, j + n + 1 + m) {
                    Err(e) => Err(e),
                    Ok((step, k)) => Ok(((Some(first), to, step), n + 1 + m + k)),
                },
            },
            _ => match range_step(ts, j + n) {
                Err(e) => Err(e),
                Ok((step, k)) => Ok(((None, first, step), n + k)),
            },
        },
    }
}

/// The variable of the `for` at `i`, which `in` must follow.
pub open spec fn loop_variable(ts: Seq<EntryView>, i: int) -> Result<Seq<char>, ErrorView> {
    match peek(ts, i + 1) {
        None => Err(fail(ErrorTypeView::UnexpectedEOF, ts, i + 1)),
        Some(TokenView::Name(var)) => if peek(ts, i + 2) == Some(TokenView::In) {
            Ok(var)
        } else {
            Err(
                fail(
                    ErrorTypeView::ExpectedToken(debug_text(TokenView::In)),
                    ts,
                    after(ts, i + 2),
                ),
            )
        },
        Some(other) => Err(fail(ErrorTypeView::UnexpectedToken(debug_text(other)), ts, i + 2)),
    }
}

/// The `for` at `i` with its body, one level below `expected`.
pub open spec fn for_loop(ts: Seq<EntryView>, i: int, expected: int) -> Step
    decreases left(ts, i), 0int,
{
    match loop_variable(ts, i) {
        Err(e) => Err(e),
        Ok(var) => match range(ts, i + 3) {
            Err(e) => Err(e),
            Ok(((from, to, step), h)) => match block(
                ts,
                i + 3 + h,
                deeper(expected),
                Seq::empty(),
            ) {
                Err(e) => Err(e),
                Ok((lines, b, indent)) => Ok(
                    (
                        seq![
                            StatementView::For {
                                line: place(ts, i + 1).0,
                                column: place(ts, i + 1).1,
                                var,
                                from,
                                to,
                                step,
                                lines,
                            },
                        ],
                        3 + h + b,
                        ending(indent, expected),
                    ),
                ),
            },
        },
    }
}

/// The `while` at `i` with its body, one level below `expected`.
pub open spec fn while_loop(ts: Seq<EntryView>, i: int, expected: int) -> Step
    decreases left(ts, i), 0int,
{
    match peek(ts, i) {
        None => Err(fail(ErrorTypeView::InternalError, ts, i)),
        Some(_) => match expression(ts, i + 1) {
            Err(e) => Err(e),
            Ok((expr, n)) => match block(ts, i + 1 + n, deeper(expected), Seq::empty()) {
                Err(e) => Err(e),
                Ok((lines, b, indent)) => Ok(
                    (
                        seq![
                            StatementView::While {
                                line: place(ts, i + 1).0,
                                column: place(ts, i + 1).1,
                                expr,
                                lines,
                            },
                        ],
                        1 + n + b,
                        ending(indent, expected),
                    ),
                ),
            },
        },
    }
}

/// A condition and the block below it, behind the `if` or `elif` at `i`.
/// With them come the tokens that they take behind `i` and the indent that
/// ended the block.
pub open spec fn branch(ts: Seq<EntryView>, i: int, expected: int) -> Result<
    (ExpressionView, Seq<StatementView>, nat, u8),
    ErrorView,
>
    decreases left(ts, i), 0int,
{
    match peek(ts, i) {
        None => Err(fail(ErrorTypeView::InternalError, ts, i)),
        Some(_) => match expression(ts, i + 1) {
            Err(e) => Err(e),
            Ok((expr, n)) => match block(ts, i + 1 + n, deeper(expected), Seq::empty()) {
                Err(e) => Err(e),
                Ok((lines, b, indent)) => Ok((expr, lines, n + b, indent)),
            },
        },
    }
}

/// The chain of `elif` and `else` that starts at `i` behind an `if`. An
/// `elif` is an `if` that is alone in the else branch; where several
/// branches follow one `if`, the last one is its else branch.
pub open spec fn chain(ts: Seq<EntryView>, i: int, expected: int) -> Chain
    decreases left(ts, i), 1int,
{
    match peek(ts, i) {
        Some(TokenView::Elif) => match branch(ts, i, expected) {
            Err(e) => Err(e),
            Ok((expr, lines, n, indent)) => if indent < expected {
                Ok(
                    (
                        Some(
                            seq![
                                StatementView::If {
                                    line: place(ts, i + 1).0,
                                    column: place(ts, i + 1).1,
                                    expr,
                                    lines,
                                    else_lines: None,
                                },
                            ],
                        ),
                        1 + n,
                        Some(indent),
                    ),
                )
            } else {
                match chain(ts, i + 1 + n, expected) {
                    Err(e) => Err(e),
                    Ok((else_lines, m, early)) => Ok(
                        (
                            Some(
                                seq![
                                    StatementView::If {
                                        line: place(ts, i + 1).0,
                                        column: place(ts, i + 1).1,
                                        expr,
                                        lines,
                                        else_lines,
                                    },
                                ],
                            ),
                            1 + n + m,
                            early,
                        ),
                    ),
                }
            },
        },
        Some(TokenView::Else) => match block(ts, i + 1, deeper(expected), Seq::empty()) {
            Err(e) => Err(e),
            Ok((lines, b, indent)) => if indent < expected {
                Ok((Some(lines), 1 + b, Some(indent)))
            } else {
                match chain(ts, i + 1 + b, expected) {
                    Err(e) => Err(e),
                    Ok((later, m, early)) => Ok(
                        (
                            if later is Some {
                                later
                            } else {
                                Some(lines)
                            },
                            1 + b + m,
                            early,
                        ),
                    ),
                }
            },
        },
        _ => Ok((None, 0, None)),
    }
}

/// The `if` at `i` with its body, one level below `expected`, and the chain
/// of `elif` and `else` behind it.
pub open spec fn conditional(ts: Seq<EntryView>, i: int, expected: int) -> Step
    decreases left(ts, i), 2int,
{
    match branch(ts, i, expected) {
        Err(e) => Err(e),
        Ok((expr, lines, n, indent)) => if indent < expected {
            Ok(
                (
                    seq![
                        StatementView::If {
                            line: place(ts, i + 1).0,
                            column: place(ts, i + 1).1,
                            expr,
                            lines,
                            else_lines: None,
                        },
                    ],
                    1 + n,
                    Some(indent),
                ),
            )
        } else {
            match chain(ts, i + 1 + n, expected) {
                Err(e) => Err(e),
                Ok((else_lines, m, early)) => Ok(
                    (
                        seq![
                            StatementView::If {
                                line: place(ts, i + 1).0,
                                column: place(ts, i + 1).1,
                                expr,
                                lines,
                                else_lines,
                            },
                        ],
                        1 + n + m,
                        early,
                    ),
                ),
            }
        },
    }
}

/// The statement that starts at `i`, in a block at the level `expected`.
pub open spec fn statement(ts: Seq<EntryView>, i: int, expected: int) -> Step
    decreases left(ts, i), 3int,
{
    match peek(ts, i) {
        Some(TokenView::_Self) | Some(TokenView::Env) | Some(TokenView::Name(_)) => simple(ts, i),
        Some(TokenView::For) => for_loop(ts, i, expected),
        Some(TokenView::While) => while_loop(ts, i, expected),
        Some(TokenView::If) => conditional(ts, i, expected),
        Some(TokenView::Return) => returned(ts, i),
        Some(TokenView::Var) => declared(ts, i),
        Some(TokenView::Continue) => jump(ts, i, false),
        Some(TokenView::Break) => jump(ts, i, true),
        Some(TokenView::BracketRoundOpen) => loose(ts, i),
        _ => Err(fail(ErrorTypeView::InternalError, ts, after(ts, i))),
    }
}

/// The statements of the block at the level `expected` from index `i` on,
/// behind those of `lines`. The block ends with the tokens or with an
/// indent below `expected`; an indent above it is an error, and `pass`
/// counts for nothing.
pub open spec fn block(ts: Seq<EntryView>, i: int, expected: int, lines: Seq<StatementView>) -> Block
    decreases left(ts, i), 4int,
{
    match peek(ts, i) {
        None => Ok((lines, 0, 0)),
        Some(TokenView::Indent(n)) => if n < expected {
            Ok((lines, 1, n))
        } else if n == expected {
            shift_block(block(ts, i + 1, expected, lines), 1)
        } else {
            Err(fail(ErrorTypeView::UnexpectedIndent(n), ts, i + 1))
        },
        Some(TokenView::Pass) => shift_block(block(ts, i + 1, expected, lines), 1),
        Some(_) => match statement(ts, i, expected) {
            Err(e) => Err(e),
            Ok((added, n, early)) => match early {
                Some(indent) => Ok((lines + added, n, indent)),
                None => shift_block(
                    block(ts, i + taken(n), expected, lines + added),
                    taken(n),
                ),
            },
        },
    }
}

/// The parameters of a function up to and including the closing bracket,
/// behind those of `acc`.
pub open spec fn parameters(ts: Seq<EntryView>, j: int, acc: Seq<Seq<char>>) -> Result<
    (Seq<Seq<char>>, nat),
    ErrorView,
>
    decreases left(ts, j),
{
    match peek(ts, j) {
        Some(TokenView::BracketRoundClose) => Ok((acc, 1)),
        Some(TokenView::Name(a)) => match peek(ts, j + 1) {
            Some(TokenView::BracketRoundClose) => Ok((acc.push(a), 2)),
            Some(TokenView::Comma) => match parameters(ts, j + 2, acc.push(a)) {
                Ok((names, n)) => Ok((names, n + 2)),
                Err(e) => Err(e),
            },
            _ => Err(fail(ErrorTypeView::InternalError, ts, after(ts, j + 1))),
        },
        _ => Err(fail(ErrorTypeView::InternalError, ts, after(ts, j))),
    }
}

/// The name of the function whose name stands at `i`, before the opening
/// bracket of its parameters.
pub open spec fn function_name(ts: Seq<EntryView>, i: int) -> Result<Seq<char>, ErrorView> {
    match peek(ts, i) {
        None => Err(fail(ErrorTypeView::UnexpectedEOF, ts, i)),
        Some(TokenView::Name(name)) => match peek(ts, i + 1) {
            None => Err(fail(ErrorTypeView::UnexpectedEOF, ts, i + 1)),
            Some(TokenView::BracketRoundOpen) => Ok(name),
            Some(other) => Err(
                fail(ErrorTypeView::UnexpectedToken(debug_text(other)), ts, i + 2),
            ),
        },
        Some(other) => Err(fail(ErrorTypeView::UnexpectedToken(debug_text(other)), ts, i + 1)),
    }
}

/// The error of the token at `k` where the body of a function must begin
/// with an indent of one tab, if it does not.
pub open spec fn body_indent(ts: Seq<EntryView>, k: int) -> Option<ErrorView> {
    match peek(ts, k) {
        None => Some(fail(ErrorTypeView::UnexpectedEOF, ts, k)),
        Some(TokenView::Indent(n)) => if n == 1 {
            None
        } else {
            Some(fail(ErrorTypeView::UnexpectedIndent(n), ts, k + 1))
        },
        Some(other) => Some(
            fail(ErrorTypeView::UnexpectedToken(debug_text(other)), ts, k + 1),
        ),
    }
}

/// The function behind `fn`, whose name stands at `i`: name, parameters, an
/// indent of one tab and the body.
pub open spec fn function(ts: Seq<EntryView>, i: int) -> Result<(FunctionView, nat), ErrorView> {
    match function_name(ts, i) {
        Err(e) => Err(e),
        Ok(name) => match parameters(ts, i + 2, Seq::empty()) {
            Err(e) => Err(e),
            Ok((parameters, p)) => match body_indent(ts, i + 2 + p) {
                Some(e) => Err(e),
                None => match block(ts, i + 3 + p, 1, Seq::empty()) {
                    Err(e) => Err(e),
                    Ok((lines, b, _)) => Ok(
                        (FunctionView { name, parameters, lines }, 3 + p + b),
                    ),
                },
            },
        },
    }
}

/// The script that the tokens from `i` on declare, behind the functions and
/// variables given: `var NAME` and `fn NAME(..)` with its body, each at the
/// start of a line.
pub open spec fn script(
    ts: Seq<EntryView>,
    i: int,
    functions: Seq<FunctionView>,
    variables: Seq<Seq<char>>,
) -> Result<ScriptView, ErrorView>
    decreases left(ts, i),
{
    match peek(ts, i) {
        None => Ok(ScriptView { functions, variables }),
        Some(TokenView::Var) => match peek(ts, i + 1) {
            Some(TokenView::Name(name)) => script(ts, i + 2, functions, variables.push(name)),
            _ => Err(fail(ErrorTypeView::InternalError, ts, after(ts, i + 1))),
        },
        Some(TokenView::Fn) => match function(ts, i + 1) {
            Err(e) => Err(e),
            Ok((f, n)) => script(ts, i + 1 + n, functions.push(f), variables),
        },
        Some(TokenView::Indent(n)) => if n == 0 {
            script(ts, i + 1, functions, variables)
        } else {
            Err(fail(ErrorTypeView::UnexpectedIndent(n), ts, i + 1))
        },
        Some(other) => Err(fail(ErrorTypeView::UnexpectedToken(debug_text(other)), ts, i + 1)),
    }
}

/// The script that a token stream declares.
pub open spec fn parsed_script(ts: Seq<EntryView>) -> Result<ScriptView, ErrorView> {
    script(ts, 0, Seq::empty(), Seq::empty())
}

/// The body of a function starts with an indent of one tab: behind a name
/// and parameters that are in order, an indent of any other depth is
/// refused as an unexpected indent, whatever follows it.
pub proof fn lemma_body_needs_one_tab(ts: Seq<EntryView>, i: int, n: u8)
    requires
        function_name(ts, i) is Ok,
        parameters(ts, i + 2, Seq::empty()) is Ok,
        peek(ts, i + 2 + parameters(ts, i + 2, Seq::empty())->Ok_0.1) == Some(TokenView::Indent(n)),
        n != 1,
    ensures
        function(ts, i) == Err::<(FunctionView, nat), ErrorView>(
            fail(
                ErrorTypeView::UnexpectedIndent(n),
                ts,
                i + 3 + parameters(ts, i + 2, Seq::empty())->Ok_0.1,
            ),
        ),
{
}

} // verus!
