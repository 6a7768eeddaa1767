use vstd::prelude::*;
use crate::ast::{optional_view, statements_view, Atom, Expression, Statement};
use crate::builder::{
    error, gives, grown, kept, known, lemma_grown_transitive, loops_view, sound,
    ByteCodeBuilder, LoopContext, Names,
};
use crate::bytecode::{Constant, ConstantView, Instruction};
use crate::emitter::{compound, gives_known, unsupported};
use crate::lowering::{
    compound_of, emit, failed, find, is_integer_constant, ByteCodeError, ByteCodeErrorType,
    ByteCodeErrorTypeView, LoopKind, LoopView, State, REGISTERS,
};
use crate::statements::{
    assign, assign_index, assign_local, assign_member, assign_register, block, bounds,
    conditional, counts, enter, exit, for_head, for_loop, for_tail, jump_out, patch_all,
    sequence, statement, while_loop, while_middle, while_tail,
};
use crate::tokenizer::{AssignOp, Op};

verus! {

/// `context` with the instruction at `at` noted as one of its `break`s or
/// of its `continue`s.
pub open spec fn noted(context: LoopView, is_break: bool, at: usize) -> LoopView {
    if is_break {
        LoopView { breaks: context.breaks.push(at), ..context }
    } else {
        LoopView { continues: context.continues.push(at), ..context }
    }
}

/// There are no more loops from `from` on than `loops` has there.
pub proof fn lemma_counts_bounded(loops: Seq<LoopView>, from: int)
    requires
        0 <= from <= loops.len(),
    ensures
        0 <= counts(loops, from).0,
        0 <= counts(loops, from).1,
        counts(loops, from).0 + counts(loops, from).1 <= loops.len() - from,
    decreases loops.len() - from,
{
    if from < loops.len() {
        lemma_counts_bounded(loops, from + 1);
    }
}

impl ByteCodeBuilder {
    /// How many loops of each kind stand around the place from the loop at
    /// index `from` on.
    fn count_loops(&self, from: usize) -> (r: (usize, usize))
        requires
            from <= self@.loops.len(),
        ensures
            r.0 == counts(self@.loops, from as int).0,
            r.1 == counts(self@.loops, from as int).1,
    {
        let ghost loops = self@.loops;
        let n = self.loops.len();
        let mut k: usize = n;
        let mut walking: usize = 0;
        let mut counting: usize = 0;
        while k > from
            invariant
                from <= k <= self.loops@.len(),
                loops == loops_view(self.loops@),
                loops.len() == n,
                walking == counts(loops, k as int).0,
                counting == counts(loops, k as int).1,
                walking + counting <= loops.len() - k,
            decreases k,
        {
            k -= 1;
            proof {
                lemma_counts_bounded(loops, k as int);
                assert(loops[k as int] == self.loops@[k as int]@);
            }
            match self.loops[k].kind {
                LoopKind::While => {},
                LoopKind::ForGeneric => {
                    walking += 1;
                },
                LoopKind::ForInteger => {
                    counting += 1;
                },
            }
        }
        (walking, counting)
    }

    /// Notes the instruction at `at` with the loop at index `target` as one
    /// of its `break`s or of its `continue`s.
    fn note(self, target: usize, is_break: bool, at: usize) -> (r: ByteCodeBuilder)
        requires
            sound(self@),
            target < self@.loops.len(),
        ensures
            r@ == (State {
                loops: self@.loops.update(
                    target as int,
                    noted(self@.loops[target as int], is_break, at),
                ),
                ..self@
            }),
            sound(r@),
            grown(self@, r@),
    {
        let mut b = self;
        let mut context = b.loops.remove(target);
        if is_break {
            context.breaks.push(at);
        } else {
            context.continues.push(at);
        }
        b.loops.insert(target, context);
        proof {
            assert(loops_view(b.loops@) =~= self@.loops.update(
                target as int,
                noted(self@.loops[target as int], is_break, at),
            ));
            assert(b@.vars.subrange(0, self@.vars.len() as int) =~= self@.vars);
        }
        b
    }

    /// Lowers a `break` or a `continue` that skips `levels` loops.
    pub fn jump_out(self, levels: u8, is_break: bool, line: u32, column: u32) -> (r: Result<
        (ByteCodeBuilder, ()),
        ByteCodeError,
    >)
        requires
            sound(self@),
        ensures
            gives(r, jump_out(self@, levels, is_break, line, column)),
            kept(r, self@),
    {
        proof {
            reveal(Instruction::model);
            reveal(jump_out);
        }
        let n = self.loops.len();
        if n < levels as usize + 1 {
            return Err(
                error(
                    if is_break {
                        ByteCodeErrorType::UnexpectedBreak
                    } else {
                        ByteCodeErrorType::UnexpectedContinue
                    },
                    line,
                    column,
                ),
            );
        }
        let target = n - 1 - levels as usize;
        let (walking, counting) = self.count_loops(
            if is_break {
                target
            } else {
                target + 1
            },
        );
        let at = self.instr.len();
        let i = if walking == 0 && counting == 0 {
            Instruction::Jmp(0)
        } else {
            Instruction::Break { amount: walking, amount_int: counting, jmp_ip: 0 }
        };
        let ghost start = self@;
        let b1 = self.emit(i);
        let ghost s1 = b1@;
        let b2 = b1.note(target, is_break, at);
        proof {
            lemma_grown_transitive(start, s1, b2@);
        }
        Ok((b2, ()))
    }

    /// Puts the instruction of the compound assignment `op` behind the code.
    fn apply(self, op: AssignOp, dst: u16, l: u16, r: u16) -> (b: ByteCodeBuilder)
        requires
            sound(self@),
            compound_of(op, dst, l, r) is Some,
            dst < self@.max,
            known(l, self@),
            known(r, self@),
        ensures
            b@ == emit(self@, compound_of(op, dst, l, r)->0),
            sound(b@),
            grown(self@, b@),
    {
        match compound(op, dst, l, r) {
            Some(i) => self.emit(i),
            None => self,
        }
    }

    /// Lowers an assignment to the variable in the register `reg`.
    fn assign_register(self, env: &Names, reg: u16, op: AssignOp, expr: &Expression) -> (r: Result<
        (ByteCodeBuilder, ()),
        ByteCodeError,
    >)
        requires
            sound(self@),
            reg < self@.max,
        ensures
            gives(r, assign_register(self@, env@, reg, op, expr@)),
            kept(r, self@),
    {
        proof {
            reveal(Instruction::model);
            reveal(assign_register);
        }
        let ghost start = self@;
        let og = self.curr;
        match op {
            AssignOp::Plain => match self.lower(env, Some(reg), expr) {
                Err(e) => Err(e),
                Ok((b1, Some(held))) => {
                    let ghost s1 = b1@;
                    let b2 = b1.emit(Instruction::Move(reg, held));
                    proof {
                        lemma_grown_transitive(start, s1, b2@);
                    }
                    Ok((b2, ()))
                },
                Ok((b1, None)) => Ok((b1, ())),
            },
            _ => match self.operand(env, expr) {
                Err(e) => Err(e),
                Ok((b1, value)) => {
                    let ghost s1 = b1@;
                    let b2 = b1.apply(op, reg, reg, value);
                    let ghost s2 = b2@;
                    let b3 = b2.restore(og);
                    proof {
                        lemma_grown_transitive(start, s1, s2);
                        lemma_grown_transitive(start, s2, b3@);
                    }
                    Ok((b3, ()))
                },
            },
        }
    }

    /// Lowers an assignment to the variable of the script in the slot
    /// `local`.
    fn assign_local(
        self,
        env: &Names,
        local: u16,
        op: AssignOp,
        expr: &Expression,
        line: u32,
        column: u32,
    ) -> (r: Result<(ByteCodeBuilder, ()), ByteCodeError>)
        requires
            sound(self@),
        ensures
            gives(r, assign_local(self@, env@, local, op, expr@, line, column)),
            kept(r, self@),
    {
        proof {
            reveal(Instruction::model);
            reveal(assign_local);
        }
        let ghost start = self@;
        let og = self.curr;
        match self.operand(env, expr) {
            Err(e) => Err(e),
            Ok((b1, value)) => {
                let ghost s1 = b1@;
                match op {
                    AssignOp::Plain => {
                        let b2 = b1.emit(Instruction::Store(value, local));
                        let ghost s2 = b2@;
                        let b3 = b2.restore(og);
                        proof {
                            lemma_grown_transitive(start, s1, s2);
                            lemma_grown_transitive(start, s2, b3@);
                        }
                        Ok((b3, ()))
                    },
                    _ => match b1.alloc_reg(line, column) {
                        Err(e) => Err(e),
                        Ok((b2, tmp)) => {
                            let ghost s2 = b2@;
                            let b3 = b2.emit(Instruction::Load(tmp, local));
                            let ghost s3 = b3@;
                            let b4 = b3.apply(op, tmp, tmp, value);
                            let ghost s4 = b4@;
                            let b5 = b4.emit(Instruction::Store(tmp, local));
                            let ghost s5 = b5@;
                            let b6 = b5.restore(og);
                            proof {
                                lemma_grown_transitive(start, s1, s2);
                                lemma_grown_transitive(start, s2, s3);
                                lemma_grown_transitive(start, s3, s4);
                                lemma_grown_transitive(start, s4, s5);
                                lemma_grown_transitive(start, s5, b6@);
                            }
                            Ok((b6, ()))
                        },
                    },
                }
            },
        }
    }

    /// Stores the value in `value` at the index in `i` of the value in `o`.
    fn store_index(self, o: u16, i: u16, value: u16, op: AssignOp, curr: u16, line: u32, column: u32) -> (r:
        Result<(ByteCodeBuilder, ()), ByteCodeError>)
        requires
            sound(self@),
            known(o, self@),
            known(i, self@),
            known(value, self@),
        ensures
            match r {
                Ok((b, _)) => match compound_of(op, 0, 0, value) {
                    None => b@ == crate::lowering::restore(
                        emit(self@, crate::bytecode::InstructionView::SetIndex(value, o, i)),
                        curr,
                    ),
                    Some(_) => match crate::lowering::reserve(self@, line, column) {
                        Ok((s4, tmp)) => b@ == crate::lowering::restore(
                            emit(
                                emit(
                                    emit(s4, crate::bytecode::InstructionView::GetIndex(tmp, o, i)),
                                    compound_of(op, tmp, tmp, value)->0,
                                ),
                                crate::bytecode::InstructionView::SetIndex(tmp, o, i),
                            ),
                            curr,
                        ),
                        Err(_) => false,
                    },
                },
                Err(e) => compound_of(op, 0, 0, value) is Some && crate::lowering::reserve(
                    self@,
                    line,
                    column,
                ) == Err::<(State, u16), crate::lowering::ByteCodeErrorView>(e@),
            },
            kept(r, self@),
    {
        proof {
            reveal(Instruction::model);
        }
        let ghost start = self@;
        match op {
            AssignOp::Plain => {
                let b1 = self.emit(Instruction::SetIndex(value, o, i));
                let ghost s1 = b1@;
                let b2 = b1.restore(curr);
                proof {
                    lemma_grown_transitive(start, s1, b2@);
                }
                Ok((b2, ()))
            },
            _ => match self.alloc_reg(line, column) {
                Err(e) => Err(e),
                Ok((b1, tmp)) => {
                    let ghost s1 = b1@;
                    let b2 = b1.emit(Instruction::GetIndex(tmp, o, i));
                    let ghost s2 = b2@;
                    let b3 = b2.apply(op, tmp, tmp, value);
                    let ghost s3 = b3@;
                    let b4 = b3.emit(Instruction::SetIndex(tmp, o, i));
                    let ghost s4 = b4@;
                    let b5 = b4.restore(curr);
                    proof {
                        lemma_grown_transitive(start, s1, s2);
                        lemma_grown_transitive(start, s2, s3);
                        lemma_grown_transitive(start, s3, s4);
                        lemma_grown_transitive(start, s4, b5@);
                    }
                    Ok((b5, ()))
                },
            },
        }
    }

    /// Lowers an assignment to `obj[index]`.
    fn assign_index(
        self,
        env: &Names,
        obj: &Expression,
        index: &Expression,
        op: AssignOp,
        expr: &Expression,
        line: u32,
        column: u32,
    ) -> (r: Result<(ByteCodeBuilder, ()), ByteCodeError>)
        requires
            sound(self@),
        ensures
            gives(r, assign_index(self@, env@, obj@, index@, op, expr@, line, column)),
            kept(r, self@),
    {
        proof {
            reveal(assign_index);
        }
        let ghost start = self@;
        let og = self.curr;
        match self.operand(env, obj) {
            Err(e) => Err(e),
            Ok((b1, o)) => {
                let ghost s1 = b1@;
                match b1.operand(env, index) {
                    Err(e) => Err(e),
                    Ok((b2, i)) => {
                        let ghost s2 = b2@;
                        match b2.operand(env, expr) {
                            Err(e) => Err(e),
                            Ok((b3, value)) => {
                                let ghost s3 = b3@;
                                proof {
                                    lemma_grown_transitive(start, s1, s2);
                                    lemma_grown_transitive(start, s2, s3);
                                }
                                match b3.store_index(o, i, value, op, og, line, column) {
                                    Err(e) => Err(e),
                                    Ok((b4, _)) => {
                                        proof {
                                            lemma_grown_transitive(start, s3, b4@);
                                        }
                                        Ok((b4, ()))
                                    },
                                }
                            },
                        }
                    },
                }
            },
        }
    }

    /// Lowers an assignment to the member `right` of `left`.
    fn assign_member(
        self,
        env: &Names,
        left: &Expression,
        right: &Expression,
        op: AssignOp,
        expr: &Expression,
        line: u32,
        column: u32,
    ) -> (r: Result<(ByteCodeBuilder, ()), ByteCodeError>)
        requires
            sound(self@),
        ensures
            gives(r, assign_member(self@, env@, left@, right@, op, expr@, line, column)),
            kept(r, self@),
    {
        proof {
            reveal(Expression::model);
            reveal(assign_member);
        }
        match left {
            Expression::Atom { atom: Atom::_Self, .. } => match right {
                Expression::Atom { atom: Atom::Name(var), line: l, column: c } => {
                    match env.locals.get(var.as_str()) {
                        Some(local) => self.assign_local(env, local, op, expr, *l, *c),
                        None => Err(
                            error(ByteCodeErrorType::UndefinedVariable(var.clone()), *l, *c),
                        ),
                    }
                },
                _ => Err(unsupported("Complex lvalues are not supported yet", line, column)),
            },
            Expression::Atom { atom: Atom::Env, line: l, column: c } => Err(
                unsupported("Environment variables are not supported yet", *l, *c),
            ),
            _ => Err(unsupported("Complex lvalues are not supported yet", line, column)),
        }
    }

    /// Lowers an assignment to the variable `var`.
    fn assign_variable(
        self,
        env: &Names,
        var: &String,
        op: AssignOp,
        expr: &Expression,
        line: u32,
        column: u32,
    ) -> (r: Result<(ByteCodeBuilder, ()), ByteCodeError>)
        requires
            sound(self@),
        ensures
            gives(
                r,
                match find(self@.vars, var@) {
                    Some(reg) => assign_register(self@, env@, reg, op, expr@),
                    None => Err(
                        failed(ByteCodeErrorTypeView::UndefinedVariable(var@), line, column),
                    ),
                },
            ),
            kept(r, self@),
    {
        match self.find(var) {
            Some(reg) => self.assign_register(env, reg, op, expr),
            None => Err(error(ByteCodeErrorType::UndefinedVariable(var.clone()), line, column)),
        }
    }

    /// Lowers an assignment to `target`.
    pub fn assign(
        self,
        env: &Names,
        target: &Expression,
        op: AssignOp,
        expr: &Expression,
        line: u32,
        column: u32,
    ) -> (r: Result<(ByteCodeBuilder, ()), ByteCodeError>)
        requires
            sound(self@),
        ensures
            gives(r, assign(self@, env@, target@, op, expr@, line, column)),
            kept(r, self@),
    {
        proof {
            reveal(Expression::model);
            reveal(assign);
        }
        match target {
            Expression::Atom { atom, .. } => match atom {
                Atom::Name(var) => self.assign_variable(env, var, op, expr, line, column),
                Atom::_Self => Err(
                    error(ByteCodeErrorType::CantAssign("self".to_owned()), line, column),
                ),
                Atom::Env => Err(
                    error(ByteCodeErrorType::CantAssign("env".to_owned()), line, column),
                ),
                _ => Err(unsupported("Complex lvalues are not supported yet", line, column)),
            },
            Expression::Operation { op: operator, left, right, line: l, column: c } => {
                match operator {
                    Op::Access => self.assign_member(env, left, right, op, expr, *l, *c),
                    Op::Index => self.assign_index(env, left, right, op, expr, *l, *c),
                    _ => Err(unsupported("Complex lvalues are not supported yet", line, column)),
                }
            },
            _ => Err(unsupported("Complex lvalues are not supported yet", line, column)),
        }
    }

    /// Whether `reg` names a constant of the pool that is an integer.
    fn is_integer_constant(&self, reg: u16) -> (r: bool)
        ensures
            r == is_integer_constant(self@, reg),
    {
        let n = self.consts.len();
        if n >= REGISTERS || reg as usize + n >= REGISTERS {
            if n > (u16::MAX - reg) as usize {
                match self.consts.get((u16::MAX - reg) as usize) {
                    Constant::Int(_) => true,
                    _ => false,
                }
            } else {
                false
            }
        } else {
            false
        }
    }

    /// The step of a counting loop in a register: 1 where none is given.
    fn step_of(self, env: &Names, step: &Option<Expression>, line: u32, column: u32) -> (r: Result<
        (ByteCodeBuilder, u16),
        ByteCodeError,
    >)
        requires
            sound(self@),
        ensures
            gives(
                r,
                match optional_view(*step) {
                    Some(x) => crate::lowering::operand(self@, env@, x),
                    None => crate::lowering::constant(self@, ConstantView::Int(1), line, column),
                },
            ),
            kept(r, self@),
            gives_known(r),
    {
        match step {
            Some(x) => self.operand(env, x),
            None => self.add_const(Constant::Int(1), line, column),
        }
    }

    /// The start and the step of a counting loop in registers, or nothing
    /// where the loop walks a value.
    pub fn bounds(
        self,
        env: &Names,
        over: u16,
        from: &Option<Expression>,
        step: &Option<Expression>,
        line: u32,
        column: u32,
    ) -> (r: Result<(ByteCodeBuilder, Option<(u16, u16)>), ByteCodeError>)
        requires
            sound(self@),
        ensures
            gives(
                r,
                bounds(self@, env@, over, optional_view(*from), optional_view(*step), line, column),
            ),
            kept(r, self@),
            r matches Ok((b, Some(found))) ==> known(found.0, b@) && known(found.1, b@),
    {
        proof {
            reveal(bounds);
        }
        let ghost start = self@;
        let counting = from.is_some() || step.is_some() || self.is_integer_constant(over);
        if !counting {
            proof {
                assert(self@.vars.subrange(0, self@.vars.len() as int) =~= self@.vars);
            }
            return Ok((self, None));
        }
        let first = match from {
            Some(f) => self.operand(env, f),
            None => self.add_const(Constant::Int(0), line, column),
        };
        match first {
            Err(e) => Err(e),
            Ok((b1, begin)) => {
                let ghost s1 = b1@;
                match b1.step_of(env, step, line, column) {
                    Err(e) => Err(e),
                    Ok((b2, by)) => {
                        proof {
                            lemma_grown_transitive(start, s1, b2@);
                        }
                        Ok((b2, Some((begin, by))))
                    },
                }
            },
        }
    }

    /// Enters a loop of the given kind.
    fn enter(self, kind: LoopKind) -> (r: ByteCodeBuilder)
        requires
            sound(self@),
        ensures
            r@ == enter(self@, kind),
            sound(r@),
    {
        let mut b = self;
        b.loops.push(LoopContext { kind, continues: Vec::new(), breaks: Vec::new() });
        proof {
            assert(loops_view(b.loops@) =~= self@.loops.push(
                LoopView { kind, continues: Seq::empty(), breaks: Seq::empty() },
            ));
            assert(b@.jumps == self@.jumps);
            assert(b@.instr == self@.instr);
        }
        b
    }

    /// Puts a jump behind the code that is taken where the register `cond`
    /// does not hold a true value, and sets the next free register to `curr`.
    fn test(self, cond: u16, curr: u16) -> (r: ByteCodeBuilder)
        requires
            sound(self@),
            known(cond, self@),
        ensures
            r@ == crate::lowering::restore(
                emit(self@, crate::bytecode::InstructionView::JmpIf(cond, 0)),
                curr,
            ),
            sound(r@),
            grown(self@, r@),
    {
        proof {
            reveal(Instruction::model);
        }
        let ghost start = self@;
        let b1 = self.emit(Instruction::JmpIf(cond, 0));
        let ghost s1 = b1@;
        let b2 = b1.restore(curr);
        proof {
            lemma_grown_transitive(start, s1, b2@);
        }
        b2
    }

    /// Puts a jump behind the code and enters a loop of the given kind.
    fn begin(self, kind: LoopKind) -> (r: ByteCodeBuilder)
        requires
            sound(self@),
        ensures
            r@ == enter(emit(self@, crate::bytecode::InstructionView::Jmp(0)), kind),
            sound(r@),
            r@.instr.len() == self@.instr.len() + 1,
            r@.vars == self@.vars,
            r@.max == self@.max,
            r@.consts == self@.consts,
            r@.loops.len() == self@.loops.len() + 1,
    {
        proof {
            reveal(Instruction::model);
        }
        self.emit(Instruction::Jmp(0)).enter(kind)
    }

    /// Records the jump to `to` for each instruction of `from`.
    fn patch_all(self, from: &Vec<usize>, to: usize) -> (r: ByteCodeBuilder)
        requires
            sound(self@),
            to <= self@.instr.len(),
        ensures
            r@ == patch_all(self@, from@, to),
            sound(r@),
            grown(self@, r@),
    {
        let ghost start = self@;
        let mut b = self;
        let mut k: usize = 0;
        proof {
            assert(b.jumps@ =~= start.jumps + Seq::new(0, |j: int| (from@[j], to)));
        }
        while k < from.len()
            invariant
                k <= from@.len(),
                to <= start.instr.len(),
                sound(b@),
                b@ == (State {
                    jumps: start.jumps + Seq::new(k as nat, |j: int| (from@[j], to)),
                    ..start
                }),
            decreases from@.len() - k,
        {
            b = b.patch(from[k], to);
            proof {
                assert(b@.jumps =~= start.jumps + Seq::new((k + 1) as nat, |j: int| (from@[j], to)));
            }
            k += 1;
        }
        proof {
            assert(b@.vars.subrange(0, start.vars.len() as int) =~= start.vars);
        }
        b
    }

    /// Puts the variable `name` in scope, in the register `reg`.
    fn bind(self, name: &String, reg: u16) -> (r: ByteCodeBuilder)
        requires
            sound(self@),
            reg < self@.max,
            find(self@.vars, name@) is None,
        ensures
            r@ == (State { vars: self@.vars.push((name@, reg)), ..self@ }),
            sound(r@),
            grown(self@, r@),
    {
        let mut b = self;
        b.vars = b.vars.with(name.clone(), reg);
        proof {
            assert(b@.vars.subrange(0, self@.vars.len() as int) =~= self@.vars);
        }
        b
    }

    /// Lowers the head of a `for`.
    pub fn for_head(
        self,
        env: &Names,
        var: &String,
        from: &Option<Expression>,
        to: &Expression,
        step: &Option<Expression>,
        line: u32,
        column: u32,
    ) -> (r: Result<(ByteCodeBuilder, (usize, u16, bool)), ByteCodeError>)
        requires
            sound(self@),
        ensures
            gives(
                r,
                for_head(
                    self@,
                    env@,
                    var@,
                    optional_view(*from),
                    to@,
                    optional_view(*step),
                    line,
                    column,
                ),
            ),
            r matches Ok((b, found)) ==> sound(b@) && b@.loops.len() == self@.loops.len() + 1
                && found.0 < b@.instr.len() && self@.instr.len() <= b@.instr.len()
                && self@.max <= b@.max && found.1 < b@.max && self@.consts.len()
                <= b@.consts.len()
                && self@.vars.len() <= b@.vars.len() && b@.vars.subrange(
                0,
                self@.vars.len() as int,
            ) == self@.vars,
    {
        proof {
            reveal(Instruction::model);
            reveal(for_head);
        }
        let ghost start = self@;
        match self.operand(env, to) {
            Err(e) => Err(e),
            Ok((b1, over)) => {
                let ghost s1 = b1@;
                match b1.bounds(env, over, from, step, line, column) {
                    Err(e) => Err(e),
                    Ok((b2, range)) => {
                        let ghost s2 = b2@;
                        match b2.alloc_reg(line, column) {
                            Err(e) => Err(e),
                            Ok((b3, reg)) => {
                                let ghost s3 = b3@;
                                if b3.find(var).is_some() {
                                    return Err(
                                        error(
                                            ByteCodeErrorType::DuplicateVariable(var.clone()),
                                            line,
                                            column,
                                        ),
                                    );
                                }
                                let head = b3.instr.len();
                                let b4 = b3.bind(var, reg);
                                let ghost s4 = b4@;
                                let (i, kind) = match range {
                                    Some((begin, by)) => (
                                        Instruction::IterInt {
                                            reg,
                                            from: begin,
                                            to: over,
                                            step: by,
                                            jmp_ip: 0,
                                        },
                                        LoopKind::ForInteger,
                                    ),
                                    None => (Instruction::Iter(reg, over, 0), LoopKind::ForGeneric),
                                };
                                let b5 = b4.emit(i);
                                let ghost s5 = b5@;
                                let b6 = b5.enter(kind);
                                proof {
                                    lemma_grown_transitive(start, s1, s2);
                                    lemma_grown_transitive(start, s2, s3);
                                    lemma_grown_transitive(start, s3, s4);
                                    lemma_grown_transitive(start, s4, s5);
                                    assert(b6@.vars == s5.vars);
                                }
                                Ok((b6, (head, reg, range.is_some())))
                            },
                        }
                    },
                }
            },
        }
    }

    /// Leaves the innermost loop and gives what was noted with it.
    fn exit(self) -> (r: (ByteCodeBuilder, LoopContext))
        requires
            sound(self@),
            self@.loops.len() > 0,
        ensures
            r.0@ == exit(self@),
            r.1@ == self@.loops.last(),
            sound(r.0@),
    {
        let mut b = self;
        match b.loops.pop() {
            Some(context) => {
                proof {
                    assert(loops_view(b.loops@) =~= self@.loops.drop_last());
                }
                (b, context)
            },
            None => (b, LoopContext { kind: LoopKind::While, continues: Vec::new(), breaks: Vec::new() }),
        }
    }

    /// Puts the variables and the next free register back to what they were
    /// when there were `count` variables and `curr` was the next free
    /// register.
    fn leave_scope(self, count: usize, curr: u16) -> (r: ByteCodeBuilder)
        requires
            sound(self@),
            count <= self@.vars.len(),
        ensures
            r@ == (State { vars: self@.vars.subrange(0, count as int), curr, ..self@ }),
            sound(r@),
    {
        let mut b = self;
        b.vars = b.vars.first(count);
        b.curr = curr;
        b
    }

    /// Lowers the end of a `for` whose head stands at `head`.
    fn for_tail(
        self,
        count: usize,
        curr: u16,
        head: usize,
        reg: u16,
        counts: bool,
        before: Ghost<State>,
    ) -> (r: ByteCodeBuilder)
        requires
            sound(self@),
            self@.loops.len() == before@.loops.len() + 1,
            head < self@.instr.len(),
            before@.instr.len() <= self@.instr.len(),
            before@.max <= self@.max,
            before@.consts.len() <= self@.consts.len(),
            reg < self@.max,
            count == before@.vars.len(),
            curr == before@.curr,
            count <= self@.vars.len(),
            self@.vars.subrange(0, count as int) == before@.vars,
        ensures
            r@ == for_tail(self@, before@, head, reg, counts),
            sound(r@),
            grown(before@, r@),
    {
        proof {
            reveal(Instruction::model);
            reveal(for_tail);
        }
        let (b1, context) = self.exit();
        let next = b1.instr.len();
        let b2 = b1.patch_all(&context.continues, next);
        let b3 = b2.patch(next, head + 1);
        let b4 = b3.emit(
            if counts {
                Instruction::IterIntJmp(reg, 0)
            } else {
                Instruction::IterJmp(reg, 0)
            },
        );
        let end = b4.instr.len();
        let b5 = b4.patch(head, end);
        let b6 = b5.patch_all(&context.breaks, end);
        let b7 = b6.leave_scope(count, curr);
        proof {
            assert(b7@.vars.subrange(0, before@.vars.len() as int) =~= before@.vars);
        }
        b7
    }

    /// Lowers a statement that is an expression.
    fn plain(self, env: &Names, expr: &Expression) -> (r: Result<
        (ByteCodeBuilder, ()),
        ByteCodeError,
    >)
        requires
            sound(self@),
        ensures
            gives(
                r,
                match crate::lowering::lower(self@, env@, None, expr@) {
                    Err(e) => Err(e),
                    Ok((s1, _)) => Ok((s1, ())),
                },
            ),
            kept(r, self@),
    {
        match self.lower(env, None, expr) {
            Err(e) => Err(e),
            Ok((b, _)) => Ok((b, ())),
        }
    }

    /// Lowers the declaration of the variable `var`.
    fn declare(self, var: &String, line: u32, column: u32) -> (r: Result<
        (ByteCodeBuilder, ()),
        ByteCodeError,
    >)
        requires
            sound(self@),
        ensures
            gives(
                r,
                if find(self@.vars, var@) is Some {
                    Err(failed(ByteCodeErrorTypeView::DuplicateVariable(var@), line, column))
                } else {
                    match crate::lowering::reserve(self@, line, column) {
                        Err(e) => Err(e),
                        Ok((s1, reg)) => Ok((State { vars: s1.vars.push((var@, reg)), ..s1 }, ())),
                    }
                },
            ),
            kept(r, self@),
    {
        let ghost start = self@;
        if self.find(var).is_some() {
            return Err(error(ByteCodeErrorType::DuplicateVariable(var.clone()), line, column));
        }
        match self.alloc_reg(line, column) {
            Err(e) => Err(e),
            Ok((b1, reg)) => {
                let ghost s1 = b1@;
                let b2 = b1.bind(var, reg);
                proof {
                    lemma_grown_transitive(start, s1, b2@);
                }
                Ok((b2, ()))
            },
        }
    }

    /// Lowers a `return`.
    fn give_back(self, env: &Names, expr: &Option<Expression>) -> (r: Result<
        (ByteCodeBuilder, ()),
        ByteCodeError,
    >)
        requires
            sound(self@),
        ensures
            gives(
                r,
                match optional_view(*expr) {
                    None => Ok((emit(self@, crate::bytecode::InstructionView::RetNone), ())),
                    Some(e) => match crate::lowering::operand(self@, env@, e) {
                        Err(err) => Err(err),
                        Ok((s1, reg)) => Ok(
                            (
                                crate::lowering::restore(
                                    emit(s1, crate::bytecode::InstructionView::RetSome(reg)),
                                    self@.curr,
                                ),
                                (),
                            ),
                        ),
                    },
                },
            ),
            kept(r, self@),
    {
        proof {
            reveal(Instruction::model);
        }
        let ghost start = self@;
        let og = self.curr;
        match expr {
            None => Ok((self.emit(Instruction::RetNone), ())),
            Some(e) => match self.operand(env, e) {
                Err(err) => Err(err),
                Ok((b1, reg)) => {
                    let ghost s1 = b1@;
                    let b2 = b1.emit(Instruction::RetSome(reg));
                    let ghost s2 = b2@;
                    let b3 = b2.restore(og);
                    proof {
                        lemma_grown_transitive(start, s1, s2);
                        lemma_grown_transitive(start, s2, b3@);
                    }
                    Ok((b3, ()))
                },
            },
        }
    }

    /// Lowers the branch of an `if` that is taken where the condition does
    /// not hold, behind the other, whose test stands at `test`.
    fn otherwise(self, env: &Names, other: &Option<Vec<Statement>>, test: usize) -> (r: Result<
        (ByteCodeBuilder, ()),
        ByteCodeError,
    >)
        requires
            sound(self@),
        ensures
            gives(
                r,
                match *other {
                    None => Ok(
                        (crate::lowering::patch(self@, test, self@.instr.len() as usize), ()),
                    ),
                    Some(lines) => match block(
                        crate::lowering::patch(
                            emit(self@, crate::bytecode::InstructionView::Jmp(0)),
                            test,
                            ((self@.instr.len() as usize) + 1) as usize,
                        ),
                        env@,
                        statements_view(lines@),
                    ) {
                        Err(e) => Err(e),
                        Ok((s3, _)) => Ok(
                            (
                                crate::lowering::patch(
                                    s3,
                                    self@.instr.len() as usize,
                                    s3.instr.len() as usize,
                                ),
                                (),
                            ),
                        ),
                    },
                },
            ),
            kept(r, self@),
        decreases other, 1int,
    {
        proof {
            reveal(Instruction::model);
        }
        let ghost start = self@;
        let here = self.instr.len();
        match other {
            None => Ok((self.patch(test, here), ())),
            Some(lines) => {
                let b1 = self.emit(Instruction::Jmp(0));
                let ghost s1 = b1@;
                let next = b1.instr.len();
                let b2 = b1.patch(test, next);
                let ghost s2 = b2@;
                match b2.block(env, lines) {
                    Err(e) => Err(e),
                    Ok((b3, _)) => {
                        let ghost s3 = b3@;
                        let end = b3.instr.len();
                        let b4 = b3.patch(here, end);
                        proof {
                            lemma_grown_transitive(start, s1, s2);
                            lemma_grown_transitive(start, s2, s3);
                            lemma_grown_transitive(start, s3, b4@);
                        }
                        Ok((b4, ()))
                    },
                }
            },
        }
    }

    /// Lowers the `if` that `st` is.
    #[verifier::rlimit(60)]
    fn conditional(self, env: &Names, st: &Statement) -> (r: Result<
        (ByteCodeBuilder, ()),
        ByteCodeError,
    >)
        requires
            sound(self@),
            st is If,
        ensures
            gives(r, conditional(self@, env@, st@)),
            kept(r, self@),
        decreases st, 0int,
    {
        proof {
            reveal(Statement::model);
        }
        let ghost start = self@;
        let og = self.curr;
        match st {
            Statement::If { line, column, expr, lines, else_lines } => {
                proof {
                    assert(st@->If_lines =~= statements_view(lines@));
                    match else_lines {
                        Some(other) => {
                            assert(st@->If_else_lines->0 =~= statements_view(other@));
                        },
                        None => {},
                    }
                }
                match self.operand(env, expr) {
                    Err(e) => Err(e),
                    Ok((b1, cond)) => {
                        let ghost s1 = b1@;
                        let test = b1.instr.len();
                        let b3 = b1.test(cond, og);
                        let ghost s3 = b3@;
                        match b3.block(env, lines) {
                            Err(e) => Err(e),
                            Ok((b4, _)) => {
                                let ghost s4 = b4@;
                                match b4.otherwise(env, else_lines, test) {
                                    Err(e) => Err(e),
                                    Ok((b5, _)) => {
                                        proof {
                                            lemma_grown_transitive(start, s1, s3);
                                            lemma_grown_transitive(start, s3, s4);
                                            lemma_grown_transitive(start, s4, b5@);
                                        }
                                        Ok((b5, ()))
                                    },
                                }
                            },
                        }
                    },
                }
            },
            _ => Ok((self, ())),
        }
    }

    /// Lowers the end of a `while` behind its condition.
    fn while_tail(self, context: &LoopContext, start: usize, cond: u16, curr: u16) -> (r:
        ByteCodeBuilder)
        requires
            sound(self@),
            start < self@.instr.len(),
            known(cond, self@),
        ensures
            r@ == while_tail(self@, context@, start, cond, curr),
            sound(r@),
            grown(self@, r@),
    {
        proof {
            reveal(Instruction::model);
            reveal(while_tail);
        }
        let ghost begin = self@;
        let at = self.instr.len();
        let b1 = self.patch(at, start + 1);
        let ghost s1 = b1@;
        let b2 = b1.emit(Instruction::JmpNotIf(cond, 0));
        let ghost s2 = b2@;
        let end = b2.instr.len();
        let b3 = b2.patch_all(&context.breaks, end);
        let ghost s3 = b3@;
        let b4 = b3.restore(curr);
        proof {
            lemma_grown_transitive(begin, s1, s2);
            lemma_grown_transitive(begin, s2, s3);
            lemma_grown_transitive(begin, s3, b4@);
        }
        b4
    }

    /// Lowers the end of the body of a `while` that starts at `start`, up to
    /// its condition.
    fn while_middle(self, start: usize) -> (r: (ByteCodeBuilder, LoopContext))
        requires
            sound(self@),
            self@.loops.len() > 0,
            start < self@.instr.len(),
        ensures
            r.0@ == while_middle(self@, start),
            r.1@ == self@.loops.last(),
            sound(r.0@),
            r.0@.instr == self@.instr,
            r.0@.vars == self@.vars,
            r.0@.max == self@.max,
            r.0@.consts == self@.consts,
            r.0@.loops == self@.loops.drop_last(),
    {
        proof {
            reveal(while_middle);
        }
        let (b1, context) = self.exit();
        let here = b1.instr.len();
        let b2 = b1.patch_all(&context.continues, here);
        let b3 = b2.patch(start, here);
        (b3, context)
    }

    /// Lowers the `while` that `st` is.
    fn while_loop(self, env: &Names, st: &Statement) -> (r: Result<
        (ByteCodeBuilder, ()),
        ByteCodeError,
    >)
        requires
            sound(self@),
            st is While,
        ensures
            gives(r, while_loop(self@, env@, st@)),
            kept(r, self@),
        decreases st, 0int,
    {
        proof {
            reveal(Statement::model);
        }
        let ghost begin = self@;
        let og = self.curr;
        match st {
            Statement::While { line, column, expr, lines } => {
                proof {
                    assert(st@->While_lines =~= statements_view(lines@));
                }
                let start = self.instr.len();
                let b2 = self.begin(LoopKind::While);
                let ghost s2 = b2@;
                match b2.block(env, lines) {
                    Err(e) => Err(e),
                    Ok((b3, _)) => {
                        let ghost s3 = b3@;
                        let (b4, context) = b3.while_middle(start);
                        let ghost s4 = b4@;
                        match b4.operand(env, expr) {
                            Err(e) => Err(e),
                            Ok((b5, cond)) => {
                                let ghost s5 = b5@;
                                let b6 = b5.while_tail(&context, start, cond, og);
                                proof {
                                    assert(s4.vars.subrange(0, begin.vars.len() as int)
                                        =~= begin.vars);
                                    assert(grown(begin, s4));
                                    lemma_grown_transitive(begin, s4, s5);
                                    lemma_grown_transitive(begin, s5, b6@);
                                }
                                Ok((b6, ()))
                            },
                        }
                    },
                }
            },
            _ => Ok((self, ())),
        }
    }

    /// Lowers the `for` that `st` is.
    fn for_loop(self, env: &Names, st: &Statement) -> (r: Result<
        (ByteCodeBuilder, ()),
        ByteCodeError,
    >)
        requires
            sound(self@),
            st is For,
        ensures
            gives(r, for_loop(self@, env@, st@)),
            kept(r, self@),
        decreases st, 0int,
    {
        proof {
            reveal(Statement::model);
        }
        let ghost begin = self@;
        let og = self.curr;
        let count = self.vars.len();
        match st {
            Statement::For { line, column, var, from, to, step, lines } => {
                proof {
                    assert(st@->For_lines =~= statements_view(lines@));
                }
                match self.for_head(env, var, from, to, step, *line, *column) {
                    Err(e) => Err(e),
                    Ok((b1, (head, reg, counts))) => {
                        let ghost s1 = b1@;
                        match b1.block(env, lines) {
                            Err(e) => Err(e),
                            Ok((b2, _)) => {
                                proof {
                                    assert(b2@.vars.subrange(0, count as int)
                                        =~= s1.vars.subrange(0, count as int));
                                }
                                Ok((b2.for_tail(count, og, head, reg, counts, Ghost(begin)), ()))
                            },
                        }
                    },
                }
            },
            _ => Ok((self, ())),
        }
    }

    /// Lowers one statement.
    pub fn statement(self, env: &Names, st: &Statement) -> (r: Result<
        (ByteCodeBuilder, ()),
        ByteCodeError,
    >)
        requires
            sound(self@),
        ensures
            gives(r, statement(self@, env@, st@)),
            kept(r, self@),
        decreases st, 1int,
    {
        proof {
            reveal(Statement::model);
        }
        match st {
            Statement::Expression { expr, .. } => self.plain(env, expr),
            Statement::LooseExpression { expr, .. } => self.plain(env, expr),
            Statement::Declare { line, column, var } => self.declare(var, *line, *column),
            Statement::Assign { line, column, var, assign_op, expr } => self.assign(
                env,
                var,
                *assign_op,
                expr,
                *line,
                *column,
            ),
            Statement::Return { expr, .. } => self.give_back(env, expr),
            Statement::Continue { line, column, levels } => self.jump_out(
                *levels,
                false,
                *line,
                *column,
            ),
            Statement::Break { line, column, levels } => self.jump_out(
                *levels,
                true,
                *line,
                *column,
            ),
            Statement::If { .. } => self.conditional(env, st),
            Statement::While { .. } => self.while_loop(env, st),
            Statement::For { .. } => self.for_loop(env, st),
        }
    }

    /// Lowers a block: its statements, behind which the variables that it
    /// declared are gone and their registers free again.
    #[verifier::loop_isolation(false)]
    pub fn block(self, env: &Names, lines: &Vec<Statement>) -> (r: Result<
        (ByteCodeBuilder, ()),
        ByteCodeError,
    >)
        requires
            sound(self@),
        ensures
            gives(r, block(self@, env@, statements_view(lines@))),
            kept(r, self@),
        decreases lines, 0int,
    {
        let ghost start = self@;
        let ghost views = statements_view(lines@);
        let og = self.curr;
        let count = self.vars.len();
        let mut b = self;
        let mut k: usize = 0;
        proof {
            assert(start.vars.subrange(0, start.vars.len() as int) =~= start.vars);
        }
        while k < lines.len()
            invariant
                k <= lines@.len(),
                sound(b@),
                grown(start, b@),
                sequence(start, env@, views, 0) == sequence(b@, env@, views, k as int),
            decreases lines@.len() - k,
        {
            let ghost before = b@;
            proof {
                assert(views[k as int] == lines@[k as int]@);
            }
            match b.statement(env, &lines[k]) {
                Err(e) => {
                    return Err(e);
                },
                Ok((next, _)) => {
                    proof {
                        lemma_grown_transitive(start, before, next@);
                    }
                    b = next;
                },
            }
            k += 1;
        }
        let b1 = b.leave_scope(count, og);
        proof {
            assert(b1@.vars.subrange(0, start.vars.len() as int) =~= start.vars);
        }
        Ok((b1, ()))
    }
}

} // verus!
