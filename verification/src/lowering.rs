use vstd::prelude::*;
use crate::ast::{AtomView, ExpressionView, UnaryOp};
use crate::bytecode::{
    same_constant, CallArgsView, ConstantView, InstructionView, SelfCallArgsView,
};
use crate::tokenizer::{AssignOp, Op};

verus! {

/// What went wrong while a function was lowered.
#[derive(Debug, PartialEq)]
pub enum ByteCodeErrorType {
    DuplicateParameter(String),
    DuplicateVariable(String),
    UndefinedVariable(String),
    UnexpectedBreak,
    UnexpectedContinue,
    TooManyRegisters,
    Unsupported(String),
    UndefinedFunction(String),
    CantAssign(String),
}

pub enum ByteCodeErrorTypeView {
    DuplicateParameter(Seq<char>),
    DuplicateVariable(Seq<char>),
    UndefinedVariable(Seq<char>),
    UnexpectedBreak,
    UnexpectedContinue,
    TooManyRegisters,
    Unsupported(Seq<char>),
    UndefinedFunction(Seq<char>),
    CantAssign(Seq<char>),
}

impl View for ByteCodeErrorType {
    type V = ByteCodeErrorTypeView;

    open spec fn view(&self) -> ByteCodeErrorTypeView {
        match *self {
            ByteCodeErrorType::DuplicateParameter(s) => ByteCodeErrorTypeView::DuplicateParameter(
                s@,
            ),
            ByteCodeErrorType::DuplicateVariable(s) => ByteCodeErrorTypeView::DuplicateVariable(s@),
            ByteCodeErrorType::UndefinedVariable(s) => ByteCodeErrorTypeView::UndefinedVariable(s@),
            ByteCodeErrorType::UnexpectedBreak => ByteCodeErrorTypeView::UnexpectedBreak,
            ByteCodeErrorType::UnexpectedContinue => ByteCodeErrorTypeView::UnexpectedContinue,
            ByteCodeErrorType::TooManyRegisters => ByteCodeErrorTypeView::TooManyRegisters,
            ByteCodeErrorType::Unsupported(s) => ByteCodeErrorTypeView::Unsupported(s@),
            ByteCodeErrorType::UndefinedFunction(s) => ByteCodeErrorTypeView::UndefinedFunction(s@),
            ByteCodeErrorType::CantAssign(s) => ByteCodeErrorTypeView::CantAssign(s@),
        }
    }
}

/// A lowering error with the line and column of what it is about.
#[derive(Debug, PartialEq)]
pub struct ByteCodeError {
    pub line: u32,
    pub column: u32,
    pub error: ByteCodeErrorType,
}

pub struct ByteCodeErrorView {
    pub line: u32,
    pub column: u32,
    pub error: ByteCodeErrorTypeView,
}

impl View for ByteCodeError {
    type V = ByteCodeErrorView;

    open spec fn view(&self) -> ByteCodeErrorView {
        ByteCodeErrorView { line: self.line, column: self.column, error: self.error@ }
    }
}

impl ByteCodeError {
    pub fn new(line: u32, column: u32, error: ByteCodeErrorType) -> (r: ByteCodeError)
        ensures
            r.line == line,
            r.column == column,
            r.error == error,
    {
        ByteCodeError { line, column, error }
    }
}

/// What kind of loop a loop context stands for.
#[derive(Copy, Clone, Debug, PartialEq, Eq, Structural)]
pub enum LoopKind {
    While,
    ForGeneric,
    ForInteger,
}

/// A loop that encloses what is being lowered: its kind, and the
/// instructions in it that jump to its next round or out of it.
pub struct LoopView {
    pub kind: LoopKind,
    pub continues: Seq<usize>,
    pub breaks: Seq<usize>,
}

/// The state of the lowering of one function.
pub struct State {
    /// The instructions emitted so far. Jumps are emitted with the target 0.
    pub instr: Seq<InstructionView>,
    /// The variables in scope with their registers, innermost last.
    pub vars: Seq<(Seq<char>, u16)>,
    /// The constant pool. The constant at index `k` is named by the
    /// register `65535 - k` until the function is finished.
    pub consts: Seq<ConstantView>,
    /// The next free working register.
    pub curr: u16,
    /// The number of working registers that were ever in use.
    pub max: u16,
    /// The enclosing loops, innermost last.
    pub loops: Seq<LoopView>,
    /// The jumps to resolve: the index of an instruction, and its target.
    pub jumps: Seq<(usize, usize)>,
    /// The largest number of arguments of a call so far.
    pub max_call_args: u16,
}

/// The names that a function can refer to outside itself: the functions of
/// the script by their index, and its variables by their slot.
pub struct Scope {
    pub methods: Map<Seq<char>, u16>,
    pub locals: Map<Seq<char>, u16>,
}

/// The state behind a lowering step and what the step gave, or its error.
pub type Lowered<T> = Result<(State, T), ByteCodeErrorView>;

pub open spec fn failed(error: ByteCodeErrorTypeView, line: u32, column: u32) -> ByteCodeErrorView {
    ByteCodeErrorView { line, column, error }
}

pub open spec fn no_store() -> Seq<char> {
    "An expression of this kind needs a register to store its value in"@
}

pub open spec fn no_operator() -> Seq<char> {
    "This operator is not supported yet"@
}

pub open spec fn no_environment() -> Seq<char> {
    "Environment variables are not supported yet"@
}

pub open spec fn no_local_functions() -> Seq<char> {
    "Local functions are not supported yet"@
}

pub open spec fn no_complex_lvalues() -> Seq<char> {
    "Complex lvalues are not supported yet"@
}

pub open spec fn too_large() -> Seq<char> {
    "A literal with this many items is not supported"@
}

/// The number of registers: working registers are counted from 0 up,
/// constants from the last register down.
pub const REGISTERS: usize = 65536;

/// `s` with the instruction `i` behind its code.
pub open spec fn emit(s: State, i: InstructionView) -> State {
    State { instr: s.instr.push(i), ..s }
}

/// `s` with the jump of the instruction at `from` to `to` recorded.
pub open spec fn patch(s: State, from: usize, to: usize) -> State {
    State { jumps: s.jumps.push((from, to)), ..s }
}

/// `s` with the next free register set to `curr`.
pub open spec fn restore(s: State, curr: u16) -> State {
    State { curr, ..s }
}

/// `s` with the register that was reserved last given back.
pub open spec fn free(s: State) -> State {
    State {
        curr: if s.curr > 0 {
            (s.curr - 1) as u16
        } else {
            0
        },
        ..s
    }
}

/// The next free register, reserved. No register is left where the working
/// registers would reach the constants.
pub open spec fn reserve(s: State, line: u32, column: u32) -> Lowered<u16> {
    if s.curr + 1 + s.consts.len() >= REGISTERS {
        Err(failed(ByteCodeErrorTypeView::TooManyRegisters, line, column))
    } else {
        Ok(
            (
                State {
                    curr: (s.curr + 1) as u16,
                    max: if s.max > s.curr {
                        s.max
                    } else {
                        (s.curr + 1) as u16
                    },
                    ..s
                },
                s.curr,
            ),
        )
    }
}

/// The register of the variable `name`: that of the innermost variable of
/// that name.
pub open spec fn find(vars: Seq<(Seq<char>, u16)>, name: Seq<char>) -> Option<u16>
    decreases vars.len(),
{
    if vars.len() == 0 {
        None
    } else if vars.last().0 == name {
        Some(vars.last().1)
    } else {
        find(vars.drop_last(), name)
    }
}

/// The index of the first constant of `pool` from index `k` on that is the
/// same as `c`.
pub open spec fn index_of(pool: Seq<ConstantView>, c: ConstantView, k: int) -> Option<int>
    decreases pool.len() - k,
{
    if k < 0 || k >= pool.len() {
        None
    } else if same_constant(pool[k], c) {
        Some(k)
    } else {
        index_of(pool, c, k + 1)
    }
}

/// The register of the constant `c`: that of the constant of the pool that
/// is the same, or that of `c` behind the pool. No register is left where
/// the constants would reach the working registers.
pub open spec fn constant(s: State, c: ConstantView, line: u32, column: u32) -> Lowered<u16> {
    match index_of(s.consts, c, 0) {
        Some(k) => Ok((s, (u16::MAX - k) as u16)),
        None => if s.max + s.consts.len() + 1 >= REGISTERS {
            Err(failed(ByteCodeErrorTypeView::TooManyRegisters, line, column))
        } else {
            Ok((State { consts: s.consts.push(c), ..s }, (u16::MAX - s.consts.len()) as u16))
        },
    }
}

/// Whether `reg` names a constant of the pool that is an integer.
pub open spec fn is_integer_constant(s: State, reg: u16) -> bool {
    reg + s.consts.len() >= REGISTERS && s.consts[u16::MAX - reg] is Int
}

/// The line and column of an expression.
pub open spec fn place_of(e: ExpressionView) -> (u32, u32) {
    match e {
        ExpressionView::Atom { line, column, .. } => (line, column),
        ExpressionView::Operation { line, column, .. } => (line, column),
        ExpressionView::UnaryOperation { line, column, .. } => (line, column),
        ExpressionView::Function { line, column, .. } => (line, column),
        ExpressionView::Array { line, column, .. } => (line, column),
        ExpressionView::Dictionary { line, column, .. } => (line, column),
    }
}

/// The instruction of a binary operator. `>` and `>=` are `<` and `<=` with
/// the operands swapped.
pub open spec fn operation_of(op: Op, dst: u16, l: u16, r: u16) -> Option<InstructionView> {
    match op {
        Op::Add => Some(InstructionView::Add(dst, l, r)),
        Op::Sub => Some(InstructionView::Sub(dst, l, r)),
        Op::Mul => Some(InstructionView::Mul(dst, l, r)),
        Op::Div => Some(InstructionView::Div(dst, l, r)),
        Op::Rem => Some(InstructionView::Rem(dst, l, r)),
        Op::And => Some(InstructionView::And(dst, l, r)),
        Op::Or => Some(InstructionView::Or(dst, l, r)),
        Op::Xor => Some(InstructionView::Xor(dst, l, r)),
        Op::ShiftLeft => Some(InstructionView::Shl(dst, l, r)),
        Op::ShiftRight => Some(InstructionView::Shr(dst, l, r)),
        Op::Eq => Some(InstructionView::Eq(dst, l, r)),
        Op::Neq => Some(InstructionView::Neq(dst, l, r)),
        Op::Less => Some(InstructionView::Less(dst, l, r)),
        Op::Greater => Some(InstructionView::Less(dst, r, l)),
        Op::LessEq => Some(InstructionView::LessEq(dst, l, r)),
        Op::GreaterEq => Some(InstructionView::LessEq(dst, r, l)),
        Op::Index => Some(InstructionView::GetIndex(dst, l, r)),
        Op::Not | Op::AndThen | Op::OrElse | Op::Access => None,
    }
}

/// The instruction of a compound assignment, or nothing for a plain one.
pub open spec fn compound_of(op: AssignOp, dst: u16, l: u16, r: u16) -> Option<InstructionView> {
    match op {
        AssignOp::Plain => None,
        AssignOp::Add => Some(InstructionView::Add(dst, l, r)),
        AssignOp::Sub => Some(InstructionView::Sub(dst, l, r)),
        AssignOp::Mul => Some(InstructionView::Mul(dst, l, r)),
        AssignOp::Div => Some(InstructionView::Div(dst, l, r)),
        AssignOp::Rem => Some(InstructionView::Rem(dst, l, r)),
        AssignOp::And => Some(InstructionView::And(dst, l, r)),
        AssignOp::Or => Some(InstructionView::Or(dst, l, r)),
        AssignOp::Xor => Some(InstructionView::Xor(dst, l, r)),
    }
}

/// The value of an atom: the register that holds it, or nothing where it
/// was written to `store`. A variable and a constant are held by their own
/// registers; a variable of the script is loaded and `self` copied to
/// `store`.
pub open spec fn atom_value(
    s: State,
    env: Scope,
    store: Option<u16>,
    atom: AtomView,
    line: u32,
    column: u32,
) -> Lowered<Option<u16>> {
    match atom {
        AtomView::_Self => match store {
            Some(dest) => Ok((emit(s, InstructionView::CopySelf { dest }), None)),
            None => Err(failed(ByteCodeErrorTypeView::Unsupported(no_store()), line, column)),
        },
        AtomView::Env => Err(
            failed(ByteCodeErrorTypeView::Unsupported(no_environment()), line, column),
        ),
        AtomView::Name(name) => match find(s.vars, name) {
            Some(reg) => Ok((s, Some(reg))),
            None => if env.locals.contains_key(name) {
                match store {
                    Some(dst) => Ok(
                        (emit(s, InstructionView::Load(dst, env.locals[name])), None),
                    ),
                    None => Err(
                        failed(ByteCodeErrorTypeView::Unsupported(no_store()), line, column),
                    ),
                }
            } else {
                Err(failed(ByteCodeErrorTypeView::UndefinedVariable(name), line, column))
            },
        },
        AtomView::Real(r) => match constant(s, ConstantView::Real(r), line, column) {
            Ok((s1, reg)) => Ok((s1, Some(reg))),
            Err(e) => Err(e),
        },
        AtomView::Integer(i) => match constant(s, ConstantView::Int(i), line, column) {
            Ok((s1, reg)) => Ok((s1, Some(reg))),
            Err(e) => Err(e),
        },
        AtomView::String(t) => match constant(s, ConstantView::Str(t), line, column) {
            Ok((s1, reg)) => Ok((s1, Some(reg))),
            Err(e) => Err(e),
        },
        AtomView::Bool(b) => match constant(s, ConstantView::Bool(b), line, column) {
            Ok((s1, reg)) => Ok((s1, Some(reg))),
            Err(e) => Err(e),
        },
    }
}

/// The value of `e` in a register: a register reserved for it, or, where
/// the value is held by a register of its own, that register.
pub open spec fn operand(s: State, env: Scope, e: ExpressionView) -> Lowered<u16>
    decreases e, 3int,
{
    match reserve(s, place_of(e).0, place_of(e).1) {
        Err(err) => Err(err),
        Ok((s1, r)) => match lower(s1, env, Some(r), e) {
            Err(err) => Err(err),
            Ok((s2, Some(held))) => Ok((free(s2), held)),
            Ok((s2, None)) => Ok((s2, r)),
        },
    }
}

/// The values of the expressions of `items` from index `k` on, each in a
/// register, behind those of `acc`.
pub open spec fn operands(
    s: State,
    env: Scope,
    items: Seq<ExpressionView>,
    k: int,
    acc: Seq<u16>,
) -> Lowered<Seq<u16>>
    decreases items, items.len() - k,
{
    if k < 0 || k >= items.len() {
        Ok((s, acc))
    } else {
        match operand(s, env, items[k]) {
            Err(e) => Err(e),
            Ok((s1, r)) => operands(s1, env, items, k + 1, acc.push(r)),
        }
    }
}

/// The binary operation `e`: both operands in registers, then the
/// instruction of the operator, which writes to `store`.
pub open spec fn binary(s: State, env: Scope, store: Option<u16>, e: ExpressionView) -> Lowered<
    Option<u16>,
>
    decreases e, 1int,
{
    match e {
        ExpressionView::Operation { line, column, op, left, right } => match store {
            None => Err(failed(ByteCodeErrorTypeView::Unsupported(no_store()), line, column)),
            Some(dst) => match operand(s, env, *left) {
                Err(e) => Err(e),
                Ok((s1, l)) => match operand(s1, env, *right) {
                    Err(e) => Err(e),
                    Ok((s2, r)) => match operation_of(op, dst, l, r) {
                        None => Err(
                            failed(
                                ByteCodeErrorTypeView::Unsupported(no_operator()),
                                line,
                                column,
                            ),
                        ),
                        Some(i) => Ok((restore(emit(s2, i), s.curr), None)),
                    },
                },
            },
        },
        _ => Ok((s, None)),
    }
}

/// The unary operation `e`: the operand in a register, then the instruction
/// of the operator, which writes to `store`.
pub open spec fn unary_operation(
    s: State,
    env: Scope,
    store: Option<u16>,
    e: ExpressionView,
) -> Lowered<Option<u16>>
    decreases e, 1int,
{
    match e {
        ExpressionView::UnaryOperation { line, column, op, expr } => match store {
            None => Err(failed(ByteCodeErrorTypeView::Unsupported(no_store()), line, column)),
            Some(dst) => match operand(s, env, *expr) {
                Err(e) => Err(e),
                Ok((s1, r)) => Ok(
                    (
                        restore(
                            emit(
                                s1,
                                match op {
                                    UnaryOp::Neg => InstructionView::Neg(dst, r),
                                    UnaryOp::Not => InstructionView::Not(dst, r),
                                },
                            ),
                            s.curr,
                        ),
                        None,
                    ),
                ),
            },
        },
        _ => Ok((s, None)),
    }
}

/// What a call is made on.
pub enum Receiver {
    Own,
    Environment,
    Value(u16),
}

/// The receiver of the call `e`: `self`, `env`, or a value in a register. A
/// call without a receiver is not supported.
pub open spec fn receiver(s: State, env: Scope, e: ExpressionView) -> Lowered<Receiver>
    decreases e, 0int,
{
    match e {
        ExpressionView::Function { line, column, expr, name, arguments } => match expr {
            None => Err(
                failed(ByteCodeErrorTypeView::Unsupported(no_local_functions()), line, column),
            ),
            Some(on) => match *on {
                ExpressionView::Atom { atom: AtomView::_Self, .. } => Ok((s, Receiver::Own)),
                ExpressionView::Atom { atom: AtomView::Env, .. } => Ok(
                    (s, Receiver::Environment),
                ),
                _ => match operand(s, env, *on) {
                    Err(err) => Err(err),
                    Ok((s1, r)) => Ok((s1, Receiver::Value(r))),
                },
            },
        },
        _ => Ok((s, Receiver::Own)),
    }
}

/// The instruction of a call, or nothing where a function of the script is
/// called that it does not have.
pub open spec fn call_of(
    env: Scope,
    on: Receiver,
    store: Option<u16>,
    name: Seq<char>,
    args: Seq<u16>,
) -> Option<InstructionView> {
    match on {
        Receiver::Value(r) => Some(
            InstructionView::Call(r, CallArgsView { store_in: store, func: name, args }),
        ),
        Receiver::Environment => Some(
            InstructionView::CallEnv(CallArgsView { store_in: store, func: name, args }),
        ),
        Receiver::Own => if env.methods.contains_key(name) {
            Some(
                InstructionView::CallSelf(
                    SelfCallArgsView { store_in: store, func: env.methods[name], args },
                ),
            )
        } else {
            None
        },
    }
}

/// `s` behind a call with the arguments `args`, whose instruction is `i`:
/// the registers reserved for the call are given back to `curr`.
pub open spec fn after_call(s: State, i: InstructionView, args: Seq<u16>, curr: u16) -> State {
    State {
        curr,
        max_call_args: if s.max_call_args > args.len() {
            s.max_call_args
        } else {
            args.len() as u16
        },
        ..emit(s, i)
    }
}

/// The call `e`: the receiver and the arguments in registers, then the
/// instruction of the call, whose result goes to `store`.
pub open spec fn called(s: State, env: Scope, store: Option<u16>, e: ExpressionView) -> Lowered<
    Option<u16>,
>
    decreases e, 1int,
{
    match e {
        ExpressionView::Function { line, column, expr, name, arguments } => match receiver(
            s,
            env,
            e,
        ) {
            Err(e) => Err(e),
            Ok((s1, on)) => match operands(s1, env, arguments, 0, Seq::empty()) {
                Err(e) => Err(e),
                Ok((s2, args)) => if args.len() > u16::MAX {
                    Err(failed(ByteCodeErrorTypeView::TooManyRegisters, line, column))
                } else {
                    match call_of(env, on, store, name, args) {
                        None => Err(
                            failed(ByteCodeErrorTypeView::UndefinedFunction(name), line, column),
                        ),
                        Some(i) => Ok((after_call(s2, i, args, s.curr), None)),
                    }
                },
            },
        },
        _ => Ok((s, None)),
    }
}

/// The register of a literal of several items: `store`, or, where there is
/// none, a register reserved for it, which is also what the literal gives.
pub open spec fn literal_register(s: State, store: Option<u16>, line: u32, column: u32) -> Lowered<
    (u16, Option<u16>),
> {
    match store {
        Some(r) => Ok((s, (r, None))),
        None => match reserve(s, line, column) {
            Err(e) => Err(e),
            Ok((s1, r)) => Ok((s1, (r, Some(r)))),
        },
    }
}

/// The items of an array from index `k` on, each stored at its index. The
/// registers that an item takes are given back to `curr` behind it.
pub open spec fn array_items(
    s: State,
    env: Scope,
    dst: u16,
    items: Seq<ExpressionView>,
    k: int,
    curr: u16,
    line: u32,
    column: u32,
) -> Lowered<()>
    decreases items, items.len() - k,
{
    if k < 0 || k >= items.len() {
        Ok((s, ()))
    } else if k > isize::MAX {
        Err(failed(ByteCodeErrorTypeView::Unsupported(too_large()), line, column))
    } else {
        match operand(s, env, items[k]) {
            Err(e) => Err(e),
            Ok((s1, r)) => match constant(s1, ConstantView::Int(k as isize), line, column) {
                Err(e) => Err(e),
                Ok((s2, index)) => array_items(
                    restore(emit(s2, InstructionView::SetIndex(r, dst, index)), curr),
                    env,
                    dst,
                    items,
                    k + 1,
                    curr,
                    line,
                    column,
                ),
            },
        }
    }
}

/// The entries of a dictionary from index `k` on, each value stored at its
/// key. The registers that an entry takes are given back to `curr` behind
/// it.
pub open spec fn dictionary_items(
    s: State,
    env: Scope,
    dst: u16,
    items: Seq<(ExpressionView, ExpressionView)>,
    k: int,
    curr: u16,
) -> Lowered<()>
    decreases items, items.len() - k,
{
    if k < 0 || k >= items.len() {
        Ok((s, ()))
    } else {
        match operand(s, env, items[k].0) {
            Err(e) => Err(e),
            Ok((s1, key)) => match operand(s1, env, items[k].1) {
                Err(e) => Err(e),
                Ok((s2, value)) => dictionary_items(
                    restore(emit(s2, InstructionView::SetIndex(value, dst, key)), curr),
                    env,
                    dst,
                    items,
                    k + 1,
                    curr,
                ),
            },
        }
    }
}

/// The array or dictionary `e`: a new one in the register of the literal,
/// then its items.
pub open spec fn literal(s: State, env: Scope, store: Option<u16>, e: ExpressionView) -> Lowered<
    Option<u16>,
>
    decreases e, 1int,
{
    match e {
        ExpressionView::Array { line, column, array } => match literal_register(
            s,
            store,
            line,
            column,
        ) {
            Err(e) => Err(e),
            Ok((s1, (dst, given))) => match array_items(
                emit(s1, InstructionView::NewArray(dst, array.len() as usize)),
                env,
                dst,
                array,
                0,
                s1.curr,
                line,
                column,
            ) {
                Err(e) => Err(e),
                Ok((s2, _)) => Ok((restore(s2, s.curr), given)),
            },
        },
        ExpressionView::Dictionary { line, column, dictionary } => match literal_register(
            s,
            store,
            line,
            column,
        ) {
            Err(e) => Err(e),
            Ok((s1, (dst, given))) => match dictionary_items(
                emit(s1, InstructionView::NewDictionary(dst, dictionary.len() as usize)),
                env,
                dst,
                dictionary,
                0,
                s1.curr,
            ) {
                Err(e) => Err(e),
                Ok((s2, _)) => Ok((restore(s2, s.curr), given)),
            },
        },
        _ => Ok((s, None)),
    }
}

/// The value of an expression: the register that holds it, or nothing where
/// it was written to `store`.
pub open spec fn lower(s: State, env: Scope, store: Option<u16>, e: ExpressionView) -> Lowered<
    Option<u16>,
>
    decreases e, 2int,
{
    match e {
        ExpressionView::Atom { line, column, atom } => atom_value(
            s,
            env,
            store,
            atom,
            line,
            column,
        ),
        ExpressionView::Operation { .. } => binary(s, env, store, e),
        ExpressionView::UnaryOperation { .. } => unary_operation(s, env, store, e),
        ExpressionView::Function { .. } => called(s, env, store, e),
        ExpressionView::Array { .. } => literal(s, env, store, e),
        ExpressionView::Dictionary { .. } => literal(s, env, store, e),
    }
}

} // verus!
