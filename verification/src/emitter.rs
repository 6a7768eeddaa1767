use vstd::prelude::*;
use crate::ast::{expressions_view, pairs_view, Atom, Expression, UnaryOp};
use crate::builder::{
    error, fitting, gives, kept, known, lemma_grown_transitive, placed, sound, unresolved,
    usable, ByteCodeBuilder, Names,
};
use crate::bytecode::{
    all_in_frame, reads, written, CallArgs, Constant, Instruction, InstructionView, SelfCallArgs,
};
use crate::lowering::{
    after_call, array_items, atom_value, binary, call_of, called, compound_of, dictionary_items,
    literal, literal_register, lower, operand, operands, operation_of, place_of, receiver,
    unary_operation, ByteCodeError, ByteCodeErrorType, ByteCodeErrorView, Lowered, Receiver,
    State,
};
use crate::tokenizer::{AssignOp, Op};

verus! {

/// Whether the registers that a lowering step gave are what `expected`
/// says.
pub open spec fn gives_registers(
    r: Result<(ByteCodeBuilder, Vec<u16>), ByteCodeError>,
    expected: Lowered<Seq<u16>>,
) -> bool {
    match r {
        Ok((b, v)) => expected == Ok::<(State, Seq<u16>), ByteCodeErrorView>((b@, v@)),
        Err(e) => expected == Err::<(State, Seq<u16>), ByteCodeErrorView>(e@),
    }
}

/// Whether an instruction reads no register but `a` and `b`.
pub open spec fn among(i: InstructionView, a: u16, b: u16) -> bool {
    forall|k: int| 0 <= k < reads(i).len() ==> (#[trigger] reads(i)[k]) == a || reads(i)[k] == b
}

/// The registers that a call reads: that of the value it is made on, if it
/// is made on one, and those of its arguments.
pub open spec fn call_reads(on: Receiver, args: Seq<u16>) -> Seq<u16> {
    match on {
        Receiver::Value(r) => seq![r] + args,
        _ => args,
    }
}

/// Whether what a call is made on, if it is a value, is in a register of
/// `s`.
pub open spec fn reachable(on: Receiver, s: State) -> bool {
    match on {
        Receiver::Value(r) => known(r, s),
        _ => true,
    }
}

/// Whether the registers that a lowering step gave are registers of the
/// state that it gave.
pub open spec fn gives_known(r: Result<(ByteCodeBuilder, u16), ByteCodeError>) -> bool {
    match r {
        Ok((b, reg)) => known(reg, b@),
        Err(_) => true,
    }
}

/// Whether the register that a lowering step says to hold a value, if it
/// names one, is a register of the state that it gave.
pub open spec fn gives_held(r: Result<(ByteCodeBuilder, Option<u16>), ByteCodeError>) -> bool {
    match r {
        Ok((b, v)) => placed(v, b@),
        Err(_) => true,
    }
}

/// The line and column of an expression.
pub fn position_of(e: &Expression) -> (r: (u32, u32))
    ensures
        r == place_of(e@),
{
    proof {
        reveal(Expression::model);
    }
    match e {
        Expression::Atom { line, column, .. } => (*line, *column),
        Expression::Operation { line, column, .. } => (*line, *column),
        Expression::UnaryOperation { line, column, .. } => (*line, *column),
        Expression::Function { line, column, .. } => (*line, *column),
        Expression::Array { line, column, .. } => (*line, *column),
        Expression::Dictionary { line, column, .. } => (*line, *column),
    }
}

/// The instruction of a binary operator, if it has one.
pub fn operation(op: Op, dst: u16, l: u16, r: u16) -> (i: Option<Instruction>)
    ensures
        match i {
            Some(i) => operation_of(op, dst, l, r) == Some(i@) && unresolved(i@) && written(i@)
                == Some(dst) && among(i@, l, r),
            None => operation_of(op, dst, l, r).is_none(),
        },
{
    proof {
        reveal(Instruction::model);
    }
    match op {
        Op::Add => Some(Instruction::Add(dst, l, r)),
        Op::Sub => Some(Instruction::Sub(dst, l, r)),
        Op::Mul => Some(Instruction::Mul(dst, l, r)),
        Op::Div => Some(Instruction::Div(dst, l, r)),
        Op::Rem => Some(Instruction::Rem(dst, l, r)),
        Op::And => Some(Instruction::And(dst, l, r)),
        Op::Or => Some(Instruction::Or(dst, l, r)),
        Op::Xor => Some(Instruction::Xor(dst, l, r)),
        Op::ShiftLeft => Some(Instruction::Shl(dst, l, r)),
        Op::ShiftRight => Some(Instruction::Shr(dst, l, r)),
        Op::Eq => Some(Instruction::Eq(dst, l, r)),
        Op::Neq => Some(Instruction::Neq(dst, l, r)),
        Op::Less => Some(Instruction::Less(dst, l, r)),
        Op::Greater => Some(Instruction::Less(dst, r, l)),
        Op::LessEq => Some(Instruction::LessEq(dst, l, r)),
        Op::GreaterEq => Some(Instruction::LessEq(dst, r, l)),
        Op::Index => Some(Instruction::GetIndex(dst, l, r)),
        Op::Not | Op::AndThen | Op::OrElse | Op::Access => None,
    }
}

/// The instruction of a compound assignment, or nothing for a plain one.
pub fn compound(op: AssignOp, dst: u16, l: u16, r: u16) -> (i: Option<Instruction>)
    ensures
        match i {
            Some(i) => compound_of(op, dst, l, r) == Some(i@) && unresolved(i@) && written(i@)
                == Some(dst) && among(i@, l, r),
            None => compound_of(op, dst, l, r).is_none(),
        },
{
    proof {
        reveal(Instruction::model);
    }
    match op {
        AssignOp::Plain => None,
        AssignOp::Add => Some(Instruction::Add(dst, l, r)),
        AssignOp::Sub => Some(Instruction::Sub(dst, l, r)),
        AssignOp::Mul => Some(Instruction::Mul(dst, l, r)),
        AssignOp::Div => Some(Instruction::Div(dst, l, r)),
        AssignOp::Rem => Some(Instruction::Rem(dst, l, r)),
        AssignOp::And => Some(Instruction::And(dst, l, r)),
        AssignOp::Or => Some(Instruction::Or(dst, l, r)),
        AssignOp::Xor => Some(Instruction::Xor(dst, l, r)),
    }
}

/// The instruction of a call, if the function called is known.
pub fn call_instruction(
    env: &Names,
    on: Receiver,
    store: Option<u16>,
    name: &String,
    args: Vec<u16>,
) -> (i: Option<Instruction>)
    ensures
        match i {
            Some(i) => call_of(env@, on, store, name@, args@) == Some(i@) && unresolved(i@)
                && written(i@) == store && reads(i@) == call_reads(on, args@),
            None => call_of(env@, on, store, name@, args@).is_none(),
        },
{
    proof {
        reveal(Instruction::model);
    }
    match on {
        Receiver::Value(r) => Some(
            Instruction::Call(r, Box::new(CallArgs { store_in: store, func: name.clone(), args })),
        ),
        Receiver::Environment => Some(
            Instruction::CallEnv(Box::new(CallArgs { store_in: store, func: name.clone(), args })),
        ),
        Receiver::Own => match env.methods.get(name.as_str()) {
            Some(func) => Some(
                Instruction::CallSelf(Box::new(SelfCallArgs { store_in: store, func, args })),
            ),
            None => None,
        },
    }
}

/// The error of a construct that cannot be lowered, with the reason `text`.
pub(crate) fn unsupported(text: &str, line: u32, column: u32) -> (e: ByteCodeError)
    ensures
        e@ == crate::lowering::failed(
            crate::lowering::ByteCodeErrorTypeView::Unsupported(text@),
            line,
            column,
        ),
{
    error(ByteCodeErrorType::Unsupported(text.to_owned()), line, column)
}

impl ByteCodeBuilder {
    /// Lowers a constant atom: the register of the constant.
    fn constant_value(self, c: Constant, line: u32, column: u32) -> (r: Result<
        (ByteCodeBuilder, Option<u16>),
        ByteCodeError,
    >)
        requires
            sound(self@),
        ensures
            match r {
                Ok((b, v)) => crate::lowering::constant(self@, c@, line, column) == Ok::<
                    (State, u16),
                    ByteCodeErrorView,
                >((b@, v->0)) && v is Some,
                Err(e) => crate::lowering::constant(self@, c@, line, column) == Err::<
                    (State, u16),
                    ByteCodeErrorView,
                >(e@),
            },
            kept(r, self@),
            gives_held(r),
    {
        match self.add_const(c, line, column) {
            Ok((b, reg)) => Ok((b, Some(reg))),
            Err(e) => Err(e),
        }
    }

    /// Lowers a name: the register of the variable, or a load of the
    /// variable of the script to `store`.
    fn name_value(self, env: &Names, store: Option<u16>, name: &String, line: u32, column: u32) -> (r:
        Result<(ByteCodeBuilder, Option<u16>), ByteCodeError>)
        requires
            sound(self@),
            usable(store, self@),
        ensures
            gives(
                r,
                atom_value(self@, env@, store, crate::ast::AtomView::Name(name@), line, column),
            ),
            kept(r, self@),
            gives_held(r),
    {
        proof {
            reveal(Instruction::model);
        }
        match self.find(name) {
            Some(reg) => {
                proof {
                    assert(self@.vars.subrange(0, self@.vars.len() as int) =~= self@.vars);
                }
                Ok((self, Some(reg)))
            },
            None => match env.locals.get(name.as_str()) {
                Some(local) => match store {
                    Some(dst) => Ok((self.emit(Instruction::Load(dst, local)), None)),
                    None => Err(
                        unsupported(
                            "An expression of this kind needs a register to store its value in",
                            line,
                            column,
                        ),
                    ),
                },
                None => Err(
                    error(ByteCodeErrorType::UndefinedVariable(name.clone()), line, column),
                ),
            },
        }
    }

    /// Lowers an atom.
    pub fn atom_value(self, env: &Names, store: Option<u16>, atom: &Atom, line: u32, column: u32) -> (r:
        Result<(ByteCodeBuilder, Option<u16>), ByteCodeError>)
        requires
            sound(self@),
            usable(store, self@),
        ensures
            gives(r, atom_value(self@, env@, store, atom@, line, column)),
            kept(r, self@),
            gives_held(r),
    {
        proof {
            reveal(Instruction::model);
        }
        match atom {
            Atom::_Self => match store {
                Some(dest) => Ok((self.emit(Instruction::CopySelf { dest }), None)),
                None => Err(
                    unsupported(
                        "An expression of this kind needs a register to store its value in",
                        line,
                        column,
                    ),
                ),
            },
            Atom::Env => Err(
                unsupported("Environment variables are not supported yet", line, column),
            ),
            Atom::Name(name) => self.name_value(env, store, name, line, column),
            Atom::Real(r) => self.constant_value(Constant::Real(*r), line, column),
            Atom::Integer(i) => self.constant_value(Constant::Int(*i), line, column),
            Atom::String(t) => self.constant_value(Constant::Str(t.clone()), line, column),
            Atom::Bool(b) => self.constant_value(Constant::Bool(*b), line, column),
        }
    }

    /// Lowers `e` to a register: one reserved for it, or the one that holds
    /// its value.
    pub fn operand(self, env: &Names, e: &Expression) -> (r: Result<
        (ByteCodeBuilder, u16),
        ByteCodeError,
    >)
        requires
            sound(self@),
        ensures
            gives(r, operand(self@, env@, e@)),
            kept(r, self@),
            gives_known(r),
        decreases e, 3int,
    {
        let (line, column) = position_of(e);
        let ghost start = self@;
        match self.alloc_reg(line, column) {
            Err(err) => Err(err),
            Ok((b1, reg)) => {
                let ghost s1 = b1@;
                match b1.lower(env, Some(reg), e) {
                    Err(err) => Err(err),
                    Ok((b2, Some(held))) => {
                        let ghost s2 = b2@;
                        let b3 = b2.free();
                        proof {
                            lemma_grown_transitive(start, s1, s2);
                            lemma_grown_transitive(start, s2, b3@);
                        }
                        Ok((b3, held))
                    },
                    Ok((b2, None)) => {
                        proof {
                            lemma_grown_transitive(start, s1, b2@);
                        }
                        Ok((b2, reg))
                    },
                }
            },
        }
    }

    /// Lowers the expressions of `items`, each to a register.
    #[verifier::loop_isolation(false)]
    pub fn operands(self, env: &Names, items: &Vec<Expression>) -> (r: Result<
        (ByteCodeBuilder, Vec<u16>),
        ByteCodeError,
    >)
        requires
            sound(self@),
        ensures
            gives_registers(
                r,
                operands(self@, env@, expressions_view(items@), 0, Seq::empty()),
            ),
            r matches Ok((b, regs)) ==> sound(b@) && crate::builder::grown(self@, b@)
                && all_in_frame(regs@, b@.max, b@.consts.len()),
        decreases items, 0int,
    {
        let ghost start = self@;
        let ghost views = expressions_view(items@);
        let mut b = self;
        let mut regs: Vec<u16> = Vec::new();
        let mut k: usize = 0;
        proof {
            assert(start.vars.subrange(0, start.vars.len() as int) =~= start.vars);
        }
        while k < items.len()
            invariant
                k <= items@.len(),
                views == expressions_view(items@),
                sound(b@),
                crate::builder::grown(start, b@),
                all_in_frame(regs@, b@.max, b@.consts.len()),
                operands(start, env@, views, 0, Seq::empty()) == operands(
                    b@,
                    env@,
                    views,
                    k as int,
                    regs@,
                ),
            decreases items@.len() - k,
        {
            let ghost before = b@;
            proof {
                assert(views[k as int] == items@[k as int]@);
            }
            match b.operand(env, &items[k]) {
                Err(e) => {
                    return Err(e);
                },
                Ok((next, reg)) => {
                    let ghost earlier = regs@;
                    proof {
                        lemma_grown_transitive(start, before, next@);
                    }
                    b = next;
                    regs.push(reg);
                    proof {
                        assert forall|j: int| 0 <= j < regs@.len() implies known(
                            #[trigger] regs@[j],
                            b@,
                        ) by {
                            if j < earlier.len() {
                                assert(regs@[j] == earlier[j]);
                                assert(known(earlier[j], before));
                            }
                        }
                    }
                },
            }
            k += 1;
        }
        Ok((b, regs))
    }

    /// Lowers the binary operation `e`.
    fn binary(self, env: &Names, store: Option<u16>, e: &Expression) -> (r: Result<
        (ByteCodeBuilder, Option<u16>),
        ByteCodeError,
    >)
        requires
            sound(self@),
            usable(store, self@),
            e is Operation,
        ensures
            gives(r, binary(self@, env@, store, e@)),
            kept(r, self@),
            gives_held(r),
        decreases e, 1int,
    {
        proof {
            reveal(Expression::model);
        }
        let ghost start = self@;
        match e {
            Expression::Operation { line, column, op, left, right } => match store {
                None => Err(
                    unsupported(
                        "An expression of this kind needs a register to store its value in",
                        *line,
                        *column,
                    ),
                ),
                Some(dst) => {
                    let og = self.curr;
                    match self.operand(env, left) {
                        Err(e) => Err(e),
                        Ok((b1, l)) => {
                            let ghost s1 = b1@;
                            match b1.operand(env, right) {
                                Err(e) => Err(e),
                                Ok((b2, r)) => match operation(*op, dst, l, r) {
                                    None => Err(
                                        unsupported(
                                            "This operator is not supported yet",
                                            *line,
                                            *column,
                                        ),
                                    ),
                                    Some(i) => {
                                        let ghost s2 = b2@;
                                        let b3 = b2.emit(i);
                                        let ghost s3 = b3@;
                                        let b4 = b3.restore(og);
                                        proof {
                                            lemma_grown_transitive(start, s1, s2);
                                            lemma_grown_transitive(start, s2, s3);
                                            lemma_grown_transitive(start, s3, b4@);
                                        }
                                        Ok((b4, None))
                                    },
                                },
                            }
                        },
                    }
                },
            },
            _ => Ok((self, None)),
        }
    }

    /// Lowers the unary operation `e`.
    fn unary_operation(self, env: &Names, store: Option<u16>, e: &Expression) -> (r: Result<
        (ByteCodeBuilder, Option<u16>),
        ByteCodeError,
    >)
        requires
            sound(self@),
            usable(store, self@),
            e is UnaryOperation,
        ensures
            gives(r, unary_operation(self@, env@, store, e@)),
            kept(r, self@),
            gives_held(r),
        decreases e, 1int,
    {
        proof {
            reveal(Expression::model);
            reveal(Instruction::model);
        }
        let ghost start = self@;
        match e {
            Expression::UnaryOperation { line, column, op, expr } => match store {
                None => Err(
                    unsupported(
                        "An expression of this kind needs a register to store its value in",
                        *line,
                        *column,
                    ),
                ),
                Some(dst) => {
                    let og = self.curr;
                    match self.operand(env, expr) {
                        Err(e) => Err(e),
                        Ok((b1, r)) => {
                            let ghost s1 = b1@;
                            let i = match op {
                                UnaryOp::Neg => Instruction::Neg(dst, r),
                                UnaryOp::Not => Instruction::Not(dst, r),
                            };
                            let b2 = b1.emit(i);
                            let ghost s2 = b2@;
                            let b3 = b2.restore(og);
                            proof {
                                lemma_grown_transitive(start, s1, s2);
                                lemma_grown_transitive(start, s2, b3@);
                            }
                            Ok((b3, None))
                        },
                    }
                },
            },
            _ => Ok((self, None)),
        }
    }

    /// Lowers the receiver of the call `e`.
    fn receiver(self, env: &Names, e: &Expression) -> (r: Result<
        (ByteCodeBuilder, Receiver),
        ByteCodeError,
    >)
        requires
            sound(self@),
            e is Function,
        ensures
            gives(r, receiver(self@, env@, e@)),
            kept(r, self@),
            r matches Ok((b, on)) ==> reachable(on, b@),
        decreases e, 0int,
    {
        proof {
            reveal_with_fuel(Expression::model, 2);
            assert(self@.vars.subrange(0, self@.vars.len() as int) =~= self@.vars);
        }
        match e {
            Expression::Function { line, column, expr, name, arguments } => match expr {
                None => Err(unsupported("Local functions are not supported yet", *line, *column)),
                Some(on) => {
                    let on: &Expression = on;
                    match on {
                        Expression::Atom { atom: Atom::_Self, .. } => Ok((self, Receiver::Own)),
                        Expression::Atom { atom: Atom::Env, .. } => Ok(
                            (self, Receiver::Environment),
                        ),
                        _ => match self.operand(env, on) {
                            Err(err) => Err(err),
                            Ok((b1, r)) => Ok((b1, Receiver::Value(r))),
                        },
                    }
                },
            },
            _ => Ok((self, Receiver::Own)),
        }
    }

    /// Puts the instruction of a call behind the code and gives the
    /// registers that the call took back.
    fn finish_call(self, i: Instruction, count: usize, curr: u16, args: Ghost<Seq<u16>>) -> (r:
        ByteCodeBuilder)
        requires
            sound(self@),
            fitting(i@, self@),
            count == args@.len(),
            count <= u16::MAX,
        ensures
            r@ == after_call(self@, i@, args@, curr),
            sound(r@),
            crate::builder::grown(self@, r@),
    {
        let ghost start = self@;
        let mut b = self.emit(i);
        b.curr = curr;
        if (b.max_call_args as usize) <= count {
            b.max_call_args = count as u16;
        }
        proof {
            assert(b@.vars.subrange(0, start.vars.len() as int) =~= start.vars);
        }
        b
    }

    /// Lowers the call `e`.
    fn called(self, env: &Names, store: Option<u16>, e: &Expression) -> (r: Result<
        (ByteCodeBuilder, Option<u16>),
        ByteCodeError,
    >)
        requires
            sound(self@),
            usable(store, self@),
            e is Function,
        ensures
            gives(r, called(self@, env@, store, e@)),
            kept(r, self@),
            gives_held(r),
        decreases e, 1int,
    {
        proof {
            reveal(Expression::model);
        }
        let ghost start = self@;
        match e {
            Expression::Function { line, column, expr, name, arguments } => {
                let og = self.curr;
                proof {
                    assert(e@->arguments =~= expressions_view(arguments@));
                }
                match self.receiver(env, e) {
                    Err(e) => Err(e),
                    Ok((b1, on)) => {
                        let ghost s1 = b1@;
                        match b1.operands(env, arguments) {
                            Err(e) => Err(e),
                            Ok((b2, args)) => {
                                let ghost s2 = b2@;
                                let ghost regs = args@;
                                let ghost target = on;
                                let count = args.len();
                                if count > u16::MAX as usize {
                                    Err(error(ByteCodeErrorType::TooManyRegisters, *line, *column))
                                } else {
                                    match call_instruction(env, on, store, name, args) {
                                        None => Err(
                                            error(
                                                ByteCodeErrorType::UndefinedFunction(name.clone()),
                                                *line,
                                                *column,
                                            ),
                                        ),
                                        Some(i) => {
                                            proof {
                                                assert forall|j: int|
                                                    0 <= j < reads(i@).len() implies known(
                                                    #[trigger] reads(i@)[j],
                                                    s2,
                                                ) by {
                                                    match target {
                                                        Receiver::Value(reg) => {
                                                            if j == 0 {
                                                                assert(known(reg, s1));
                                                            } else {
                                                                assert(reads(i@)[j] == regs[j - 1]);
                                                            }
                                                        },
                                                        _ => {
                                                            assert(reads(i@)[j] == regs[j]);
                                                        },
                                                    }
                                                }
                                            }
                                            let b3 = b2.finish_call(i, count, og, Ghost(regs));
                                            proof {
                                                lemma_grown_transitive(start, s1, s2);
                                                lemma_grown_transitive(start, s2, b3@);
                                            }
                                            Ok((b3, None))
                                        },
                                    }
                                }
                            },
                        }
                    },
                }
            },
            _ => Ok((self, None)),
        }
    }

    /// The register of a literal of several items.
    fn literal_register(self, store: Option<u16>, line: u32, column: u32) -> (r: Result<
        (ByteCodeBuilder, (u16, Option<u16>)),
        ByteCodeError,
    >)
        requires
            sound(self@),
            usable(store, self@),
        ensures
            gives(r, literal_register(self@, store, line, column)),
            kept(r, self@),
            r matches Ok((b, found)) ==> found.0 < b@.max && placed(found.1, b@),
    {
        match store {
            Some(reg) => {
                proof {
                    assert(self@.vars.subrange(0, self@.vars.len() as int) =~= self@.vars);
                }
                Ok((self, (reg, None)))
            },
            None => match self.alloc_reg(line, column) {
                Err(e) => Err(e),
                Ok((b, reg)) => Ok((b, (reg, Some(reg)))),
            },
        }
    }

    /// Lowers the item at index `k` of an array in the register `dst`.
    fn array_item(
        self,
        env: &Names,
        dst: u16,
        item: &Expression,
        k: usize,
        curr: u16,
        line: u32,
        column: u32,
    ) -> (r: Result<(ByteCodeBuilder, ()), ByteCodeError>)
        requires
            sound(self@),
            dst < self@.max,
            k <= isize::MAX,
        ensures
            match r {
                Ok((b, _)) => match operand(self@, env@, item@) {
                    Ok((s1, reg)) => match crate::lowering::constant(
                        s1,
                        crate::bytecode::ConstantView::Int(k as isize),
                        line,
                        column,
                    ) {
                        Ok((s2, index)) => b@ == crate::lowering::restore(
                            crate::lowering::emit(
                                s2,
                                crate::bytecode::InstructionView::SetIndex(reg, dst, index),
                            ),
                            curr,
                        ),
                        Err(_) => false,
                    },
                    Err(_) => false,
                },
                Err(e) => match operand(self@, env@, item@) {
                    Ok((s1, reg)) => crate::lowering::constant(
                        s1,
                        crate::bytecode::ConstantView::Int(k as isize),
                        line,
                        column,
                    ) == Err::<(State, u16), ByteCodeErrorView>(e@),
                    Err(err) => err == e@,
                },
            },
            kept(r, self@),
        decreases item, 4int,
    {
        proof {
            reveal(Instruction::model);
        }
        let ghost start = self@;
        match self.operand(env, item) {
            Err(e) => Err(e),
            Ok((b1, reg)) => {
                let ghost s1 = b1@;
                match b1.add_const(Constant::Int(k as isize), line, column) {
                    Err(e) => Err(e),
                    Ok((b2, index)) => {
                        let ghost s2 = b2@;
                        let b3 = b2.emit(Instruction::SetIndex(reg, dst, index));
                        let ghost s3 = b3@;
                        let b4 = b3.restore(curr);
                        proof {
                            lemma_grown_transitive(start, s1, s2);
                            lemma_grown_transitive(start, s2, s3);
                            lemma_grown_transitive(start, s3, b4@);
                        }
                        Ok((b4, ()))
                    },
                }
            },
        }
    }

    /// Lowers the items of an array in the register `dst`.
    #[verifier::loop_isolation(false)]
    fn array_items(
        self,
        env: &Names,
        dst: u16,
        items: &Vec<Expression>,
        curr: u16,
        line: u32,
        column: u32,
    ) -> (r: Result<(ByteCodeBuilder, ()), ByteCodeError>)
        requires
            sound(self@),
            dst < self@.max,
        ensures
            gives(
                r,
                array_items(self@, env@, dst, expressions_view(items@), 0, curr, line, column),
            ),
            kept(r, self@),
        decreases items, 0int,
    {
        let ghost start = self@;
        let ghost views = expressions_view(items@);
        let mut b = self;
        let mut k: usize = 0;
        proof {
            assert(start.vars.subrange(0, start.vars.len() as int) =~= start.vars);
        }
        while k < items.len()
            invariant
                k <= items@.len(),
                views == expressions_view(items@),
                sound(b@),
                crate::builder::grown(start, b@),
                array_items(start, env@, dst, views, 0, curr, line, column) == array_items(
                    b@,
                    env@,
                    dst,
                    views,
                    k as int,
                    curr,
                    line,
                    column,
                ),
            decreases items@.len() - k,
        {
            proof {
                assert(views[k as int] == items@[k as int]@);
            }
            if k > isize::MAX as usize {
                return Err(
                    unsupported("A literal with this many items is not supported", line, column),
                );
            }
            let ghost before = b@;
            match b.array_item(env, dst, &items[k], k, curr, line, column) {
                Err(e) => {
                    return Err(e);
                },
                Ok((next, _)) => {
                    proof {
                        lemma_grown_transitive(start, before, next@);
                    }
                    b = next;
                },
            }
            k += 1;
        }
        Ok((b, ()))
    }

    /// Lowers one entry of a dictionary in the register `dst`.
    fn dictionary_item(
        self,
        env: &Names,
        dst: u16,
        entry: &(Expression, Expression),
        curr: u16,
    ) -> (r: Result<(ByteCodeBuilder, ()), ByteCodeError>)
        requires
            sound(self@),
            dst < self@.max,
        ensures
            match r {
                Ok((b, _)) => match operand(self@, env@, entry.0@) {
                    Ok((s1, k)) => match operand(s1, env@, entry.1@) {
                        Ok((s2, v)) => b@ == crate::lowering::restore(
                            crate::lowering::emit(
                                s2,
                                crate::bytecode::InstructionView::SetIndex(v, dst, k),
                            ),
                            curr,
                        ),
                        Err(_) => false,
                    },
                    Err(_) => false,
                },
                Err(e) => match operand(self@, env@, entry.0@) {
                    Ok((s1, k)) => operand(s1, env@, entry.1@) == Err::<
                        (State, u16),
                        ByteCodeErrorView,
                    >(e@),
                    Err(err) => err == e@,
                },
            },
            kept(r, self@),
        decreases entry, 4int,
    {
        proof {
            reveal(Instruction::model);
        }
        let ghost start = self@;
        match self.operand(env, &entry.0) {
            Err(e) => Err(e),
            Ok((b1, k)) => {
                let ghost s1 = b1@;
                match b1.operand(env, &entry.1) {
                    Err(e) => Err(e),
                    Ok((b2, v)) => {
                        let ghost s2 = b2@;
                        let b3 = b2.emit(Instruction::SetIndex(v, dst, k));
                        let ghost s3 = b3@;
                        let b4 = b3.restore(curr);
                        proof {
                            lemma_grown_transitive(start, s1, s2);
                            lemma_grown_transitive(start, s2, s3);
                            lemma_grown_transitive(start, s3, b4@);
                        }
                        Ok((b4, ()))
                    },
                }
            },
        }
    }

    /// Lowers the entries of a dictionary in the register `dst`.
    #[verifier::loop_isolation(false)]
    fn dictionary_items(
        self,
        env: &Names,
        dst: u16,
        items: &Vec<(Expression, Expression)>,
        curr: u16,
    ) -> (r: Result<(ByteCodeBuilder, ()), ByteCodeError>)
        requires
            sound(self@),
            dst < self@.max,
        ensures
            gives(r, dictionary_items(self@, env@, dst, pairs_view(items@), 0, curr)),
            kept(r, self@),
        decreases items, 0int,
    {
        let ghost start = self@;
        let ghost views = pairs_view(items@);
        let mut b = self;
        let mut k: usize = 0;
        proof {
            assert(start.vars.subrange(0, start.vars.len() as int) =~= start.vars);
        }
        while k < items.len()
            invariant
                k <= items@.len(),
                views == pairs_view(items@),
                sound(b@),
                crate::builder::grown(start, b@),
                dictionary_items(start, env@, dst, views, 0, curr) == dictionary_items(
                    b@,
                    env@,
                    dst,
                    views,
                    k as int,
                    curr,
                ),
            decreases items@.len() - k,
        {
            let ghost before = b@;
            proof {
                assert(views[k as int] == (items@[k as int].0@, items@[k as int].1@));
            }
            match b.dictionary_item(env, dst, &items[k], curr) {
                Err(e) => {
                    return Err(e);
                },
                Ok((next, _)) => {
                    proof {
                        lemma_grown_transitive(start, before, next@);
                    }
                    b = next;
                },
            }
            k += 1;
        }
        Ok((b, ()))
    }

    /// Lowers the array or dictionary `e`.
    fn literal(self, env: &Names, store: Option<u16>, e: &Expression) -> (r: Result<
        (ByteCodeBuilder, Option<u16>),
        ByteCodeError,
    >)
        requires
            sound(self@),
            usable(store, self@),
            e is Array || e is Dictionary,
        ensures
            gives(r, literal(self@, env@, store, e@)),
            kept(r, self@),
            gives_held(r),
        decreases e, 1int,
    {
        proof {
            reveal(Expression::model);
            reveal(Instruction::model);
        }
        let ghost start = self@;
        let og = self.curr;
        match e {
            Expression::Array { line, column, array } => {
                proof {
                    assert(e@->array =~= expressions_view(array@));
                }
                match self.literal_register(store, *line, *column) {
                    Err(e) => Err(e),
                    Ok((b1, (dst, given))) => {
                        let ghost s1 = b1@;
                        let level = b1.curr;
                        let b2 = b1.emit(Instruction::NewArray(dst, array.len()));
                        let ghost s2 = b2@;
                        match b2.array_items(env, dst, array, level, *line, *column) {
                            Err(e) => Err(e),
                            Ok((b3, _)) => {
                                let ghost s3 = b3@;
                                let b4 = b3.restore(og);
                                proof {
                                    lemma_grown_transitive(start, s1, s2);
                                    lemma_grown_transitive(start, s2, s3);
                                    lemma_grown_transitive(start, s3, b4@);
                                }
                                Ok((b4, given))
                            },
                        }
                    },
                }
            },
            Expression::Dictionary { line, column, dictionary } => {
                proof {
                    assert(e@->dictionary =~= pairs_view(dictionary@));
                }
                match self.literal_register(store, *line, *column) {
                    Err(e) => Err(e),
                    Ok((b1, (dst, given))) => {
                        let ghost s1 = b1@;
                        let level = b1.curr;
                        let b2 = b1.emit(Instruction::NewDictionary(dst, dictionary.len()));
                        let ghost s2 = b2@;
                        match b2.dictionary_items(env, dst, dictionary, level) {
                            Err(e) => Err(e),
                            Ok((b3, _)) => {
                                let ghost s3 = b3@;
                                let b4 = b3.restore(og);
                                proof {
                                    lemma_grown_transitive(start, s1, s2);
                                    lemma_grown_transitive(start, s2, s3);
                                    lemma_grown_transitive(start, s3, b4@);
                                }
                                Ok((b4, given))
                            },
                        }
                    },
                }
            },
            _ => Ok((self, None)),
        }
    }

    /// Lowers the expression `e`. Gives the register that holds its value,
    /// or nothing where the value was written to `store`.
    pub fn lower(self, env: &Names, store: Option<u16>, e: &Expression) -> (r: Result<
        (ByteCodeBuilder, Option<u16>),
        ByteCodeError,
    >)
        requires
            sound(self@),
            usable(store, self@),
        ensures
            gives(r, lower(self@, env@, store, e@)),
            kept(r, self@),
            gives_held(r),
        decreases e, 2int,
    {
        proof {
            reveal(Expression::model);
        }
        match e {
            Expression::Atom { line, column, atom } => self.atom_value(
                env,
                store,
                atom,
                *line,
                *column,
            ),
            Expression::Operation { .. } => self.binary(env, store, e),
            Expression::UnaryOperation { .. } => self.unary_operation(env, store, e),
            Expression::Function { .. } => self.called(env, store, e),
            Expression::Array { .. } => self.literal(env, store, e),
            Expression::Dictionary { .. } => self.literal(env, store, e),
        }
    }
}

} // verus!
