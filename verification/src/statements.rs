use vstd::prelude::*;
use crate::ast::{AtomView, ExpressionView, FunctionView, StatementView};
use crate::bytecode::{
    ends_function, relocated, retargeted, ByteCodeView, ConstantView, InstructionView,
};
use crate::lowering::{
    compound_of, constant, emit, failed, find, is_integer_constant, lower, no_complex_lvalues,
    no_environment, operand, patch, reserve, restore, ByteCodeErrorTypeView, ByteCodeErrorView,
    LoopKind, LoopView, Lowered, Scope, State, REGISTERS,
};
use crate::tokenizer::{AssignOp, Op};

verus! {

/// How many loops of each kind stand in `loops` from index `from` on:
/// those that walk a value, and those that count.
pub open spec fn counts(loops: Seq<LoopView>, from: int) -> (int, int)
    decreases loops.len() - from,
{
    if from < 0 || from >= loops.len() {
        (0int, 0int)
    } else {
        let rest = counts(loops, from + 1);
        match loops[from].kind {
            LoopKind::While => rest,
            LoopKind::ForGeneric => (rest.0 + 1, rest.1),
            LoopKind::ForInteger => (rest.0, rest.1 + 1),
        }
    }
}

/// The instruction that leaves `amount` loops that walk a value and
/// `amount_int` loops that count: a plain jump where there is none to leave.
pub open spec fn leave(amount: int, amount_int: int) -> InstructionView {
    if amount == 0 && amount_int == 0 {
        InstructionView::Jmp(0)
    } else {
        InstructionView::Break { amount: amount as usize, amount_int: amount_int as usize, jmp_ip: 0 }
    }
}

/// `s` with the jump to `to` recorded for each instruction of `from`.
pub open spec fn patch_all(s: State, from: Seq<usize>, to: usize) -> State {
    State { jumps: s.jumps + Seq::new(from.len(), |k: int| (from[k], to)), ..s }
}

/// `s` with a loop of the given kind entered.
pub open spec fn enter(s: State, kind: LoopKind) -> State {
    State {
        loops: s.loops.push(LoopView { kind, continues: Seq::empty(), breaks: Seq::empty() }),
        ..s
    }
}

/// `s` with the innermost loop left.
pub open spec fn exit(s: State) -> State {
    State { loops: s.loops.drop_last(), ..s }
}

/// A `break` or `continue` that skips `levels` loops: a jump out of the
/// loops inside its target, recorded with the target. A `break` leaves the
/// target too.
#[verifier::opaque]
pub open spec fn jump_out(s: State, levels: u8, is_break: bool, line: u32, column: u32) -> Lowered<
    (),
> {
    if levels + 1 > s.loops.len() {
        Err(
            failed(
                if is_break {
                    ByteCodeErrorTypeView::UnexpectedBreak
                } else {
                    ByteCodeErrorTypeView::UnexpectedContinue
                },
                line,
                column,
            ),
        )
    } else {
        let target = s.loops.len() - 1 - levels;
        let left = counts(
            s.loops,
            if is_break {
                target
            } else {
                target + 1
            },
        );
        let at = s.instr.len() as usize;
        let old = s.loops[target];
        Ok(
            (
                State {
                    loops: s.loops.update(
                        target,
                        if is_break {
                            LoopView { breaks: old.breaks.push(at), ..old }
                        } else {
                            LoopView { continues: old.continues.push(at), ..old }
                        },
                    ),
                    ..emit(s, leave(left.0, left.1))
                },
                (),
            ),
        )
    }
}

/// An assignment to the variable in the register `reg`. A plain one moves
/// the value there unless it was written there; a compound one applies its
/// operator to the variable and the value.
#[verifier::opaque]
pub open spec fn assign_register(
    s: State,
    env: Scope,
    reg: u16,
    assign_op: AssignOp,
    expr: ExpressionView,
) -> Lowered<()> {
    match compound_of(assign_op, reg, reg, 0) {
        None => match lower(s, env, Some(reg), expr) {
            Err(e) => Err(e),
            Ok((s1, Some(held))) => Ok((emit(s1, InstructionView::Move(reg, held)), ())),
            Ok((s1, None)) => Ok((s1, ())),
        },
        Some(_) => match operand(s, env, expr) {
            Err(e) => Err(e),
            Ok((s1, value)) => Ok(
                (restore(emit(s1, compound_of(assign_op, reg, reg, value)->0), s.curr), ()),
            ),
        },
    }
}

/// An assignment to the variable of the script in the slot `local`. A
/// compound one loads the variable to a register of its own first.
#[verifier::opaque]
pub open spec fn assign_local(
    s: State,
    env: Scope,
    local: u16,
    assign_op: AssignOp,
    expr: ExpressionView,
    line: u32,
    column: u32,
) -> Lowered<()> {
    match operand(s, env, expr) {
        Err(e) => Err(e),
        Ok((s1, value)) => match compound_of(assign_op, 0, 0, value) {
            None => Ok((restore(emit(s1, InstructionView::Store(value, local)), s.curr), ())),
            Some(_) => match reserve(s1, line, column) {
                Err(e) => Err(e),
                Ok((s2, tmp)) => Ok(
                    (
                        restore(
                            emit(
                                emit(
                                    emit(s2, InstructionView::Load(tmp, local)),
                                    compound_of(assign_op, tmp, tmp, value)->0,
                                ),
                                InstructionView::Store(tmp, local),
                            ),
                            s.curr,
                        ),
                        (),
                    ),
                ),
            },
        },
    }
}

/// An assignment to `obj[index]`. A compound one gets the element to a
/// register of its own first.
#[verifier::opaque]
pub open spec fn assign_index(
    s: State,
    env: Scope,
    obj: ExpressionView,
    index: ExpressionView,
    assign_op: AssignOp,
    expr: ExpressionView,
    line: u32,
    column: u32,
) -> Lowered<()> {
    match operand(s, env, obj) {
        Err(e) => Err(e),
        Ok((s1, o)) => match operand(s1, env, index) {
            Err(e) => Err(e),
            Ok((s2, i)) => match operand(s2, env, expr) {
                Err(e) => Err(e),
                Ok((s3, value)) => match compound_of(assign_op, 0, 0, value) {
                    None => Ok(
                        (restore(emit(s3, InstructionView::SetIndex(value, o, i)), s.curr), ()),
                    ),
                    Some(_) => match reserve(s3, line, column) {
                        Err(e) => Err(e),
                        Ok((s4, tmp)) => Ok(
                            (
                                restore(
                                    emit(
                                        emit(
                                            emit(s4, InstructionView::GetIndex(tmp, o, i)),
                                            compound_of(assign_op, tmp, tmp, value)->0,
                                        ),
                                        InstructionView::SetIndex(tmp, o, i),
                                    ),
                                    s.curr,
                                ),
                                (),
                            ),
                        ),
                    },
                },
            },
        },
    }
}

/// An assignment to the member `right` of `left`: only a variable of the
/// script, written `self.NAME`, can be assigned to.
#[verifier::opaque]
pub open spec fn assign_member(
    s: State,
    env: Scope,
    left: ExpressionView,
    right: ExpressionView,
    assign_op: AssignOp,
    expr: ExpressionView,
    line: u32,
    column: u32,
) -> Lowered<()> {
    match left {
        ExpressionView::Atom { atom: AtomView::_Self, .. } => match right {
            ExpressionView::Atom { atom: AtomView::Name(var), line: l, column: c } => {
                if env.locals.contains_key(var) {
                    assign_local(s, env, env.locals[var], assign_op, expr, l, c)
                } else {
                    Err(failed(ByteCodeErrorTypeView::UndefinedVariable(var), l, c))
                }
            },
            _ => Err(
                failed(ByteCodeErrorTypeView::Unsupported(no_complex_lvalues()), line, column),
            ),
        },
        ExpressionView::Atom { atom: AtomView::Env, line: l, column: c } => Err(
            failed(ByteCodeErrorTypeView::Unsupported(no_environment()), l, c),
        ),
        _ => Err(failed(ByteCodeErrorTypeView::Unsupported(no_complex_lvalues()), line, column)),
    }
}

/// An assignment to `target`: a variable, `self.NAME` or `a[i]`.
#[verifier::opaque]
pub open spec fn assign(
    s: State,
    env: Scope,
    target: ExpressionView,
    assign_op: AssignOp,
    expr: ExpressionView,
    line: u32,
    column: u32,
) -> Lowered<()> {
    match target {
        ExpressionView::Atom { atom, .. } => match atom {
            AtomView::Name(var) => match find(s.vars, var) {
                Some(reg) => assign_register(s, env, reg, assign_op, expr),
                None => Err(failed(ByteCodeErrorTypeView::UndefinedVariable(var), line, column)),
            },
            AtomView::_Self => Err(
                failed(ByteCodeErrorTypeView::CantAssign("self"@), line, column),
            ),
            AtomView::Env => Err(failed(ByteCodeErrorTypeView::CantAssign("env"@), line, column)),
            _ => Err(
                failed(ByteCodeErrorTypeView::Unsupported(no_complex_lvalues()), line, column),
            ),
        },
        ExpressionView::Operation { op, left, right, line: l, column: c } => match op {
            Op::Access => assign_member(s, env, *left, *right, assign_op, expr, l, c),
            Op::Index => assign_index(s, env, *left, *right, assign_op, expr, l, c),
            _ => Err(
                failed(ByteCodeErrorTypeView::Unsupported(no_complex_lvalues()), line, column),
            ),
        },
        _ => Err(failed(ByteCodeErrorTypeView::Unsupported(no_complex_lvalues()), line, column)),
    }
}

/// The start and the step of a counting loop in registers, or nothing where
/// the loop walks a value. A loop counts where a start or a step is given,
/// or where what it runs over is an integer constant; it starts at 0 and
/// steps by 1 where nothing else is given.
#[verifier::opaque]
pub open spec fn bounds(
    s: State,
    env: Scope,
    over: u16,
    from: Option<ExpressionView>,
    step: Option<ExpressionView>,
    line: u32,
    column: u32,
) -> Lowered<Option<(u16, u16)>> {
    match from {
        Some(f) => match operand(s, env, f) {
            Err(e) => Err(e),
            Ok((s1, start)) => match step {
                Some(x) => match operand(s1, env, x) {
                    Err(e) => Err(e),
                    Ok((s2, by)) => Ok((s2, Some((start, by)))),
                },
                None => match constant(s1, ConstantView::Int(1), line, column) {
                    Err(e) => Err(e),
                    Ok((s2, by)) => Ok((s2, Some((start, by)))),
                },
            },
        },
        None => if step is Some || is_integer_constant(s, over) {
            match constant(s, ConstantView::Int(0), line, column) {
                Err(e) => Err(e),
                Ok((s1, start)) => match step {
                    Some(x) => match operand(s1, env, x) {
                        Err(e) => Err(e),
                        Ok((s2, by)) => Ok((s2, Some((start, by)))),
                    },
                    None => match constant(s1, ConstantView::Int(1), line, column) {
                        Err(e) => Err(e),
                        Ok((s2, by)) => Ok((s2, Some((start, by)))),
                    },
                },
            }
        } else {
            Ok((s, None))
        },
    }
}

/// The head of a `for`: what it runs over and its bounds in registers, its
/// variable in a register of its own, and the instruction that starts the
/// loop. With the state come the index of that instruction, the register of
/// the variable, and whether the loop counts.
#[verifier::opaque]
pub open spec fn for_head(
    s: State,
    env: Scope,
    var: Seq<char>,
    from: Option<ExpressionView>,
    to: ExpressionView,
    step: Option<ExpressionView>,
    line: u32,
    column: u32,
) -> Lowered<(usize, u16, bool)> {
    match operand(s, env, to) {
        Err(e) => Err(e),
        Ok((s1, over)) => match bounds(s1, env, over, from, step, line, column) {
            Err(e) => Err(e),
            Ok((s2, range)) => match reserve(s2, line, column) {
                Err(e) => Err(e),
                Ok((s3, reg)) => if find(s3.vars, var) is Some {
                    Err(failed(ByteCodeErrorTypeView::DuplicateVariable(var), line, column))
                } else {
                    Ok(
                        (
                            enter(
                                emit(
                                    State { vars: s3.vars.push((var, reg)), ..s3 },
                                    match range {
                                        Some((start, by)) => InstructionView::IterInt {
                                            reg,
                                            from: start,
                                            to: over,
                                            step: by,
                                            jmp_ip: 0,
                                        },
                                        None => InstructionView::Iter(reg, over, 0),
                                    },
                                ),
                                if range is Some {
                                    LoopKind::ForInteger
                                } else {
                                    LoopKind::ForGeneric
                                },
                            ),
                            (s3.instr.len() as usize, reg, range is Some),
                        ),
                    )
                },
            },
        },
    }
}

/// The end of a `for` whose head stands at `head` and whose body has been
/// lowered: the instruction that goes to the next round, which the
/// `continue`s of the loop jump to, and behind it the place that its head
/// and its `break`s jump to. The variables and the registers of `before`
/// are in place again.
#[verifier::opaque]
pub open spec fn for_tail(s: State, before: State, head: usize, reg: u16, counts: bool) -> State {
    let context = s.loops.last();
    let s1 = exit(s);
    let next = s1.instr.len() as usize;
    let s2 = emit(
        patch(patch_all(s1, context.continues, next), next, (head + 1) as usize),
        if counts {
            InstructionView::IterIntJmp(reg, 0)
        } else {
            InstructionView::IterJmp(reg, 0)
        },
    );
    let end = s2.instr.len() as usize;
    State { vars: before.vars, curr: before.curr, ..patch_all(patch(s2, head, end), context.breaks, end) }
}

/// The end of a `while` that starts at `start` and whose body has been
/// lowered, up to its condition: the `continue`s of the loop and the jump at
/// its start go to the condition.
#[verifier::opaque]
pub open spec fn while_middle(s: State, start: usize) -> State {
    let context = s.loops.last();
    let s1 = exit(s);
    let here = s1.instr.len() as usize;
    patch(patch_all(s1, context.continues, here), start, here)
}

/// The end of a `while` behind its condition, which is in the register
/// `cond`: the jump back to the body, and behind it the place that the
/// `break`s of the loop jump to.
#[verifier::opaque]
pub open spec fn while_tail(s: State, context: LoopView, start: usize, cond: u16, curr: u16) -> State {
    let at = s.instr.len() as usize;
    let s1 = emit(patch(s, at, (start + 1) as usize), InstructionView::JmpNotIf(cond, 0));
    restore(patch_all(s1, context.breaks, s1.instr.len() as usize), curr)
}

/// An `if`: the condition in a register and the jump that is taken where it
/// does not hold, then the lines, and behind them the jump over the other
/// lines, where there are any, and those.
pub open spec fn conditional(s: State, env: Scope, st: StatementView) -> Lowered<()>
    decreases st, 0int,
{
    match st {
        StatementView::If { line, column, expr, lines, else_lines } => match operand(
            s,
            env,
            expr,
        ) {
            Err(e) => Err(e),
            Ok((s1, cond)) => {
                let test = s1.instr.len() as usize;
                match block(
                    restore(emit(s1, InstructionView::JmpIf(cond, 0)), s.curr),
                    env,
                    lines,
                ) {
                    Err(e) => Err(e),
                    Ok((s2, _)) => match else_lines {
                        None => Ok((patch(s2, test, s2.instr.len() as usize), ())),
                        Some(other) => {
                            let skip = s2.instr.len() as usize;
                            match block(
                                patch(
                                    emit(s2, InstructionView::Jmp(0)),
                                    test,
                                    (skip + 1) as usize,
                                ),
                                env,
                                other,
                            ) {
                                Err(e) => Err(e),
                                Ok((s3, _)) => Ok((patch(s3, skip, s3.instr.len() as usize), ())),
                            }
                        },
                    },
                }
            },
        },
        _ => Ok((s, ())),
    }
}

/// A `while`: a jump to the condition, the lines, and behind them the
/// condition and the jump back to the lines.
pub open spec fn while_loop(s: State, env: Scope, st: StatementView) -> Lowered<()>
    decreases st, 0int,
{
    match st {
        StatementView::While { line, column, expr, lines } => {
            let start = s.instr.len() as usize;
            match block(enter(emit(s, InstructionView::Jmp(0)), LoopKind::While), env, lines) {
                Err(e) => Err(e),
                Ok((s1, _)) => match operand(while_middle(s1, start), env, expr) {
                    Err(e) => Err(e),
                    Ok((s2, cond)) => Ok(
                        (while_tail(s2, s1.loops.last(), start, cond, s.curr), ()),
                    ),
                },
            }
        },
        _ => Ok((s, ())),
    }
}

/// A `for`: its head, the lines, and its end.
pub open spec fn for_loop(s: State, env: Scope, st: StatementView) -> Lowered<()>
    decreases st, 0int,
{
    match st {
        StatementView::For { line, column, var, from, to, step, lines } => match for_head(
            s,
            env,
            var,
            from,
            to,
            step,
            line,
            column,
        ) {
            Err(e) => Err(e),
            Ok((s1, (head, reg, counts))) => match block(s1, env, lines) {
                Err(e) => Err(e),
                Ok((s2, _)) => Ok((for_tail(s2, s, head, reg, counts), ())),
            },
        },
        _ => Ok((s, ())),
    }
}

/// One statement.
pub open spec fn statement(s: State, env: Scope, st: StatementView) -> Lowered<()>
    decreases st, 1int,
{
    match st {
        StatementView::Expression { expr, .. } => match lower(s, env, None, expr) {
            Err(e) => Err(e),
            Ok((s1, _)) => Ok((s1, ())),
        },
        StatementView::LooseExpression { expr, .. } => match lower(s, env, None, expr) {
            Err(e) => Err(e),
            Ok((s1, _)) => Ok((s1, ())),
        },
        StatementView::Declare { line, column, var } => if find(s.vars, var) is Some {
            Err(failed(ByteCodeErrorTypeView::DuplicateVariable(var), line, column))
        } else {
            match reserve(s, line, column) {
                Err(e) => Err(e),
                Ok((s1, reg)) => Ok((State { vars: s1.vars.push((var, reg)), ..s1 }, ())),
            }
        },
        StatementView::Assign { line, column, var, assign_op, expr } => assign(
            s,
            env,
            var,
            assign_op,
            expr,
            line,
            column,
        ),
        StatementView::Return { expr, .. } => match expr {
            None => Ok((emit(s, InstructionView::RetNone), ())),
            Some(e) => match operand(s, env, e) {
                Err(err) => Err(err),
                Ok((s1, r)) => Ok((restore(emit(s1, InstructionView::RetSome(r)), s.curr), ())),
            },
        },
        StatementView::Continue { line, column, levels } => jump_out(
            s,
            levels,
            false,
            line,
            column,
        ),
        StatementView::Break { line, column, levels } => jump_out(s, levels, true, line, column),
        StatementView::If { .. } => conditional(s, env, st),
        StatementView::While { .. } => while_loop(s, env, st),
        StatementView::For { .. } => for_loop(s, env, st),
    }
}

/// The statements of `lines` from index `k` on.
pub open spec fn sequence(s: State, env: Scope, lines: Seq<StatementView>, k: int) -> Lowered<()>
    decreases lines, lines.len() - k,
{
    if k < 0 || k >= lines.len() {
        Ok((s, ()))
    } else {
        match statement(s, env, lines[k]) {
            Err(e) => Err(e),
            Ok((s1, _)) => sequence(s1, env, lines, k + 1),
        }
    }
}

/// A block: its statements, behind which the variables that it declared are
/// gone and their registers free again.
pub open spec fn block(s: State, env: Scope, lines: Seq<StatementView>) -> Lowered<()>
    decreases lines, lines.len() + 1,
{
    match sequence(s, env, lines, 0) {
        Err(e) => Err(e),
        Ok((s1, _)) => Ok((State { vars: s.vars, curr: s.curr, ..s1 }, ())),
    }
}

/// The parameters from index `k` on in the registers from `k` on, behind
/// the variables of `vars`. No two parameters have one name.
pub open spec fn parameters(vars: Seq<(Seq<char>, u16)>, names: Seq<Seq<char>>, k: int) -> Result<
    Seq<(Seq<char>, u16)>,
    ByteCodeErrorView,
>
    decreases names.len() - k,
{
    if k < 0 || k >= names.len() {
        Ok(vars)
    } else if find(vars, names[k]) is Some {
        Err(failed(ByteCodeErrorTypeView::DuplicateParameter(names[k]), 0, 0))
    } else {
        parameters(vars.push((names[k], k as u16)), names, k + 1)
    }
}

/// The state in which the lowering of a function with the given parameters
/// starts: they hold the first registers.
pub open spec fn start(names: Seq<Seq<char>>) -> Result<State, ByteCodeErrorView> {
    if names.len() > u16::MAX {
        Err(failed(ByteCodeErrorTypeView::TooManyRegisters, 0, 0))
    } else {
        match parameters(Seq::empty(), names, 0) {
            Err(e) => Err(e),
            Ok(vars) => Ok(
                State {
                    instr: Seq::empty(),
                    vars,
                    consts: Seq::empty(),
                    curr: names.len() as u16,
                    max: names.len() as u16,
                    loops: Seq::empty(),
                    jumps: Seq::empty(),
                    max_call_args: 0,
                },
            ),
        }
    }
}

/// Whether a recorded jump of `s` goes behind its last instruction.
pub open spec fn jumps_behind(s: State) -> bool {
    exists|j: int| 0 <= j < s.jumps.len() && (#[trigger] s.jumps[j]).1 >= s.instr.len()
}

/// `s` with a `RetNone` at its end, unless it ends with a return that no
/// jump goes behind.
pub open spec fn closed(s: State) -> State {
    if s.instr.len() == 0 || !ends_function(s.instr.last()) || jumps_behind(s) {
        emit(s, InstructionView::RetNone)
    } else {
        s
    }
}

/// `code` with the jumps of `jumps` from index `k` on resolved: each
/// instruction named gets its target.
pub open spec fn resolved(code: Seq<InstructionView>, jumps: Seq<(usize, usize)>, k: int) -> Seq<
    InstructionView,
>
    decreases jumps.len() - k,
{
    if k < 0 || k >= jumps.len() {
        code
    } else if jumps[k].0 < code.len() {
        resolved(
            code.update(jumps[k].0 as int, retargeted(code[jumps[k].0 as int], jumps[k].1)),
            jumps,
            k + 1,
        )
    } else {
        resolved(code, jumps, k + 1)
    }
}

/// The code of `s` with the constants behind the working registers.
pub open spec fn settled(s: State) -> Seq<InstructionView> {
    Seq::new(
        s.instr.len(),
        |k: int| relocated(s.instr[k], REGISTERS - s.consts.len(), s.max),
    )
}

/// The program that the state `s` of a finished function amounts to.
pub open spec fn program(s: State, name: Seq<char>, param_count: u16) -> ByteCodeView {
    ByteCodeView {
        code: resolved(settled(s), s.jumps, 0),
        param_count,
        var_count: s.max,
        consts: s.consts,
        name,
        max_call_args: s.max_call_args,
    }
}

/// The program of a function in a scope.
pub open spec fn compiled(f: FunctionView, env: Scope) -> Result<ByteCodeView, ByteCodeErrorView> {
    match start(f.parameters) {
        Err(e) => Err(e),
        Ok(s) => match block(s, env, f.lines) {
            Err(e) => Err(e),
            Ok((s1, _)) => Ok(program(closed(s1), f.name, f.parameters.len() as u16)),
        },
    }
}

} // verus!
