use vstd::prelude::*;
use crate::ast::Real;

verus! {

/// The arguments of a call by name: where the result goes, the name of the
/// function, and the registers of the arguments.
#[derive(Debug, PartialEq)]
pub struct CallArgs {
    pub store_in: Option<u16>,
    pub func: String,
    pub args: Vec<u16>,
}

pub struct CallArgsView {
    pub store_in: Option<u16>,
    pub func: Seq<char>,
    pub args: Seq<u16>,
}

impl View for CallArgs {
    type V = CallArgsView;

    open spec fn view(&self) -> CallArgsView {
        CallArgsView { store_in: self.store_in, func: self.func@, args: self.args@ }
    }
}

/// The arguments of a call of a function of the script itself: where the
/// result goes, the index of the function, and the registers of the
/// arguments.
#[derive(Debug, PartialEq)]
pub struct SelfCallArgs {
    pub store_in: Option<u16>,
    pub func: u16,
    pub args: Vec<u16>,
}

pub struct SelfCallArgsView {
    pub store_in: Option<u16>,
    pub func: u16,
    pub args: Seq<u16>,
}

impl View for SelfCallArgs {
    type V = SelfCallArgsView;

    open spec fn view(&self) -> SelfCallArgsView {
        SelfCallArgsView { store_in: self.store_in, func: self.func, args: self.args@ }
    }
}

/// One instruction of the register machine. Registers are indices into the
/// value array of a frame; jump targets are indices into the code.
#[derive(Debug, PartialEq)]
pub enum Instruction {
    Call(u16, Box<CallArgs>),
    CallSelf(Box<SelfCallArgs>),
    CallEnv(Box<CallArgs>),
    Jmp(usize),
    JmpIf(u16, usize),
    JmpNotIf(u16, usize),
    RetSome(u16),
    RetNone,
    Iter(u16, u16, usize),
    IterJmp(u16, usize),
    IterInt { reg: u16, from: u16, to: u16, step: u16, jmp_ip: usize },
    IterIntJmp(u16, usize),
    Break { amount: usize, amount_int: usize, jmp_ip: usize },
    Add(u16, u16, u16),
    Sub(u16, u16, u16),
    Mul(u16, u16, u16),
    Div(u16, u16, u16),
    Rem(u16, u16, u16),
    And(u16, u16, u16),
    Or(u16, u16, u16),
    Xor(u16, u16, u16),
    Shl(u16, u16, u16),
    Shr(u16, u16, u16),
    Not(u16, u16),
    Neg(u16, u16),
    LessEq(u16, u16, u16),
    Less(u16, u16, u16),
    Neq(u16, u16, u16),
    Eq(u16, u16, u16),
    Store(u16, u16),
    Load(u16, u16),
    Move(u16, u16),
    NewArray(u16, usize),
    NewDictionary(u16, usize),
    GetIndex(u16, u16, u16),
    SetIndex(u16, u16, u16),
    CopySelf { dest: u16 },
}

pub enum InstructionView {
    Call(u16, CallArgsView),
    CallSelf(SelfCallArgsView),
    CallEnv(CallArgsView),
    Jmp(usize),
    JmpIf(u16, usize),
    JmpNotIf(u16, usize),
    RetSome(u16),
    RetNone,
    Iter(u16, u16, usize),
    IterJmp(u16, usize),
    IterInt { reg: u16, from: u16, to: u16, step: u16, jmp_ip: usize },
    IterIntJmp(u16, usize),
    Break { amount: usize, amount_int: usize, jmp_ip: usize },
    Add(u16, u16, u16),
    Sub(u16, u16, u16),
    Mul(u16, u16, u16),
    Div(u16, u16, u16),
    Rem(u16, u16, u16),
    And(u16, u16, u16),
    Or(u16, u16, u16),
    Xor(u16, u16, u16),
    Shl(u16, u16, u16),
    Shr(u16, u16, u16),
    Not(u16, u16),
    Neg(u16, u16),
    LessEq(u16, u16, u16),
    Less(u16, u16, u16),
    Neq(u16, u16, u16),
    Eq(u16, u16, u16),
    Store(u16, u16),
    Load(u16, u16),
    Move(u16, u16),
    NewArray(u16, usize),
    NewDictionary(u16, usize),
    GetIndex(u16, u16, u16),
    SetIndex(u16, u16, u16),
    CopySelf { dest: u16 },
}

impl View for Instruction {
    type V = InstructionView;

    open spec fn view(&self) -> InstructionView {
        self.model()
    }
}

impl Instruction {
    /// The mathematical value of the instruction. It is `shape`, kept apart
    /// so that a proof unfolds it only for the instructions it asks about.
    #[verifier::opaque]
    pub open spec fn model(&self) -> InstructionView {
        self.shape()
    }

    /// The mathematical value of the instruction, variant by variant.
    pub open spec fn shape(&self) -> InstructionView {
        match *self {
            Instruction::Call(r, a) => InstructionView::Call(r, a@),
            Instruction::CallSelf(a) => InstructionView::CallSelf(a@),
            Instruction::CallEnv(a) => InstructionView::CallEnv(a@),
            Instruction::Jmp(ip) => InstructionView::Jmp(ip),
            Instruction::JmpIf(r, ip) => InstructionView::JmpIf(r, ip),
            Instruction::JmpNotIf(r, ip) => InstructionView::JmpNotIf(r, ip),
            Instruction::RetSome(r) => InstructionView::RetSome(r),
            Instruction::RetNone => InstructionView::RetNone,
            Instruction::Iter(r, i, ip) => InstructionView::Iter(r, i, ip),
            Instruction::IterJmp(r, ip) => InstructionView::IterJmp(r, ip),
            Instruction::IterInt { reg, from, to, step, jmp_ip } => InstructionView::IterInt {
                reg,
                from,
                to,
                step,
                jmp_ip,
            },
            Instruction::IterIntJmp(r, ip) => InstructionView::IterIntJmp(r, ip),
            Instruction::Break { amount, amount_int, jmp_ip } => InstructionView::Break {
                amount,
                amount_int,
                jmp_ip,
            },
            Instruction::Add(r, a, b) => InstructionView::Add(r, a, b),
            Instruction::Sub(r, a, b) => InstructionView::Sub(r, a, b),
            Instruction::Mul(r, a, b) => InstructionView::Mul(r, a, b),
            Instruction::Div(r, a, b) => InstructionView::Div(r, a, b),
            Instruction::Rem(r, a, b) => InstructionView::Rem(r, a, b),
            Instruction::And(r, a, b) => InstructionView::And(r, a, b),
            Instruction::Or(r, a, b) => InstructionView::Or(r, a, b),
            Instruction::Xor(r, a, b) => InstructionView::Xor(r, a, b),
            Instruction::Shl(r, a, b) => InstructionView::Shl(r, a, b),
            Instruction::Shr(r, a, b) => InstructionView::Shr(r, a, b),
            Instruction::Not(r, a) => InstructionView::Not(r, a),
            Instruction::Neg(r, a) => InstructionView::Neg(r, a),
            Instruction::LessEq(r, a, b) => InstructionView::LessEq(r, a, b),
            Instruction::Less(r, a, b) => InstructionView::Less(r, a, b),
            Instruction::Neq(r, a, b) => InstructionView::Neq(r, a, b),
            Instruction::Eq(r, a, b) => InstructionView::Eq(r, a, b),
            Instruction::Store(r, l) => InstructionView::Store(r, l),
            Instruction::Load(r, l) => InstructionView::Load(r, l),
            Instruction::Move(d, s) => InstructionView::Move(d, s),
            Instruction::NewArray(r, n) => InstructionView::NewArray(r, n),
            Instruction::NewDictionary(r, n) => InstructionView::NewDictionary(r, n),
            Instruction::GetIndex(r, o, i) => InstructionView::GetIndex(r, o, i),
            Instruction::SetIndex(r, o, i) => InstructionView::SetIndex(r, o, i),
            Instruction::CopySelf { dest } => InstructionView::CopySelf { dest },
        }
    }
}

/// The views of a sequence of instructions.
pub open spec fn code_view(code: Seq<Instruction>) -> Seq<InstructionView> {
    Seq::new(code.len(), |k: int| code[k]@)
}

/// A constant of the pool of a function.
#[derive(Clone, Debug, PartialEq, Eq, Hash)]
pub enum Constant {
    Bool(bool),
    Int(isize),
    Real(Real),
    Str(String),
}

pub enum ConstantView {
    Bool(bool),
    Int(isize),
    Real(Real),
    Str(Seq<char>),
}

impl View for Constant {
    type V = ConstantView;

    open spec fn view(&self) -> ConstantView {
        match *self {
            Constant::Bool(b) => ConstantView::Bool(b),
            Constant::Int(i) => ConstantView::Int(i),
            Constant::Real(r) => ConstantView::Real(r),
            Constant::Str(s) => ConstantView::Str(s@),
        }
    }
}

/// The views of a sequence of constants.
pub open spec fn pool_view(pool: Seq<Constant>) -> Seq<ConstantView> {
    Seq::new(pool.len(), |k: int| pool[k]@)
}

/// Whether two real literals denote the same number: both are zero, or they
/// have the same sign, the same whole part and the same fraction.
pub open spec fn same_real(a: Real, b: Real) -> bool {
    let zero_a = a.whole == 0 && a.fraction == 0;
    let zero_b = b.whole == 0 && b.fraction == 0;
    if zero_a || zero_b {
        zero_a && zero_b
    } else {
        a.negative == b.negative && a.whole == b.whole && a.fraction * b.scale == b.fraction
            * a.scale
    }
}

/// Whether two constants are one entry of a pool: they are of the same kind
/// and denote the same value.
pub open spec fn same_constant(a: ConstantView, b: ConstantView) -> bool {
    match (a, b) {
        (ConstantView::Bool(x), ConstantView::Bool(y)) => x == y,
        (ConstantView::Int(x), ConstantView::Int(y)) => x == y,
        (ConstantView::Real(x), ConstantView::Real(y)) => same_real(x, y),
        (ConstantView::Str(x), ConstantView::Str(y)) => x == y,
        _ => false,
    }
}

/// Whether no two entries of a pool are the same constant.
pub open spec fn distinct(pool: Seq<ConstantView>) -> bool {
    forall|i: int, j: int|
        0 <= i < j < pool.len() ==> !same_constant(#[trigger] pool[i], #[trigger] pool[j])
}

fn same_number(a: &Real, b: &Real) -> (r: bool)
    ensures
        r == same_real(*a, *b),
{
    let zero_a = a.whole == 0 && a.fraction == 0;
    let zero_b = b.whole == 0 && b.fraction == 0;
    if zero_a || zero_b {
        zero_a && zero_b
    } else {
        assert(a.fraction * b.scale <= u64::MAX * u64::MAX) by (nonlinear_arith)
            requires
                0 <= a.fraction <= u64::MAX,
                0 <= b.scale <= u64::MAX,
        ;
        assert(b.fraction * a.scale <= u64::MAX * u64::MAX) by (nonlinear_arith)
            requires
                0 <= b.fraction <= u64::MAX,
                0 <= a.scale <= u64::MAX,
        ;
        assert(a.fraction * b.scale >= 0) by (nonlinear_arith)
            requires
                0 <= a.fraction,
                0 <= b.scale,
        ;
        assert(b.fraction * a.scale >= 0) by (nonlinear_arith)
            requires
                0 <= b.fraction,
                0 <= a.scale,
        ;
        let left: u128 = (a.fraction as u128) * (b.scale as u128);
        let right: u128 = (b.fraction as u128) * (a.scale as u128);
        a.negative == b.negative && a.whole == b.whole && left == right
    }
}

impl Constant {
    /// A copy of the constant.
    pub fn dup(&self) -> (r: Constant)
        ensures
            r@ == self@,
    {
        match self {
            Constant::Bool(b) => Constant::Bool(*b),
            Constant::Int(i) => Constant::Int(*i),
            Constant::Real(x) => Constant::Real(*x),
            Constant::Str(s) => Constant::Str(s.clone()),
        }
    }

    /// Whether `self` and `other` are the same constant.
    pub fn same(&self, other: &Constant) -> (r: bool)
        ensures
            r == same_constant(self@, other@),
    {
        match (self, other) {
            (Constant::Bool(x), Constant::Bool(y)) => *x == *y,
            (Constant::Int(x), Constant::Int(y)) => *x == *y,
            (Constant::Real(x), Constant::Real(y)) => same_number(x, y),
            (Constant::Str(x), Constant::Str(y)) => *x == *y,
            _ => false,
        }
    }
}

/// The register that the operand `r` names once the constants stand behind
/// the `max` working registers: a constant, numbered from the top of the
/// register space down to `base`, moves to `max` and up; a working register
/// stays.
pub open spec fn slot(r: u16, base: int, max: u16) -> u16 {
    if r >= base {
        (max + (u16::MAX - r)) as u16
    } else {
        r
    }
}

/// `args` with each register moved as `slot` says.
pub open spec fn slots(args: Seq<u16>, base: int, max: u16) -> Seq<u16> {
    Seq::new(args.len(), |k: int| slot(args[k], base, max))
}

/// `i` with each of its registers moved as `slot` says.
pub open spec fn relocated(i: InstructionView, base: int, max: u16) -> InstructionView {
    match i {
        InstructionView::Call(r, a) => InstructionView::Call(
            slot(r, base, max),
            CallArgsView {
                store_in: a.store_in,
                func: a.func,
                args: slots(a.args, base, max),
            },
        ),
        InstructionView::CallSelf(a) => InstructionView::CallSelf(
            SelfCallArgsView {
                store_in: a.store_in,
                func: a.func,
                args: slots(a.args, base, max),
            },
        ),
        InstructionView::CallEnv(a) => InstructionView::CallEnv(
            CallArgsView {
                store_in: a.store_in,
                func: a.func,
                args: slots(a.args, base, max),
            },
        ),
        InstructionView::Jmp(ip) => i,
        InstructionView::JmpIf(r, ip) => InstructionView::JmpIf(slot(r, base, max), ip),
        InstructionView::JmpNotIf(r, ip) => InstructionView::JmpNotIf(slot(r, base, max), ip),
        InstructionView::RetSome(r) => InstructionView::RetSome(slot(r, base, max)),
        InstructionView::RetNone => i,
        InstructionView::Iter(r, it, ip) => InstructionView::Iter(r, slot(it, base, max), ip),
        InstructionView::IterJmp(r, ip) => i,
        InstructionView::IterInt { reg, from, to, step, jmp_ip } => InstructionView::IterInt {
            reg,
            from: slot(from, base, max),
            to: slot(to, base, max),
            step: slot(step, base, max),
            jmp_ip,
        },
        InstructionView::IterIntJmp(r, ip) => i,
        InstructionView::Break { amount, amount_int, jmp_ip } => i,
        InstructionView::Add(r, a, b) => InstructionView::Add(
            r,
            slot(a, base, max),
            slot(b, base, max),
        ),
        InstructionView::Sub(r, a, b) => InstructionView::Sub(
            r,
            slot(a, base, max),
            slot(b, base, max),
        ),
        InstructionView::Mul(r, a, b) => InstructionView::Mul(
            r,
            slot(a, base, max),
            slot(b, base, max),
        ),
        InstructionView::Div(r, a, b) => InstructionView::Div(
            r,
            slot(a, base, max),
            slot(b, base, max),
        ),
        InstructionView::Rem(r, a, b) => InstructionView::Rem(
            r,
            slot(a, base, max),
            slot(b, base, max),
        ),
        InstructionView::And(r, a, b) => InstructionView::And(
            r,
            slot(a, base, max),
            slot(b, base, max),
        ),
        InstructionView::Or(r, a, b) => InstructionView::Or(
            r,
            slot(a, base, max),
            slot(b, base, max),
        ),
        InstructionView::Xor(r, a, b) => InstructionView::Xor(
            r,
            slot(a, base, max),
            slot(b, base, max),
        ),
        InstructionView::Shl(r, a, b) => InstructionView::Shl(
            r,
            slot(a, base, max),
            slot(b, base, max),
        ),
        InstructionView::Shr(r, a, b) => InstructionView::Shr(
            r,
            slot(a, base, max),
            slot(b, base, max),
        ),
        InstructionView::Not(r, a) => InstructionView::Not(r, slot(a, base, max)),
        InstructionView::Neg(r, a) => InstructionView::Neg(r, slot(a, base, max)),
        InstructionView::LessEq(r, a, b) => InstructionView::LessEq(
            r,
            slot(a, base, max),
            slot(b, base, max),
        ),
        InstructionView::Less(r, a, b) => InstructionView::Less(
            r,
            slot(a, base, max),
            slot(b, base, max),
        ),
        InstructionView::Neq(r, a, b) => InstructionView::Neq(
            r,
            slot(a, base, max),
            slot(b, base, max),
        ),
        InstructionView::Eq(r, a, b) => InstructionView::Eq(
            r,
            slot(a, base, max),
            slot(b, base, max),
        ),
        InstructionView::Store(r, l) => InstructionView::Store(slot(r, base, max), l),
        InstructionView::Load(r, l) => i,
        InstructionView::Move(d, s) => InstructionView::Move(d, slot(s, base, max)),
        InstructionView::NewArray(r, n) => i,
        InstructionView::NewDictionary(r, n) => i,
        InstructionView::GetIndex(r, o, x) => InstructionView::GetIndex(
            r,
            slot(o, base, max),
            slot(x, base, max),
        ),
        InstructionView::SetIndex(r, o, x) => InstructionView::SetIndex(
            slot(r, base, max),
            slot(o, base, max),
            slot(x, base, max),
        ),
        InstructionView::CopySelf { dest } => i,
    }
}

/// The jump target of an instruction, if it has one.
pub open spec fn target_of(i: InstructionView) -> Option<usize> {
    match i {
        InstructionView::Jmp(ip) => Some(ip),
        InstructionView::JmpIf(_, ip) => Some(ip),
        InstructionView::JmpNotIf(_, ip) => Some(ip),
        InstructionView::Iter(_, _, ip) => Some(ip),
        InstructionView::IterJmp(_, ip) => Some(ip),
        InstructionView::IterInt { reg, from, to, step, jmp_ip } => Some(jmp_ip),
        InstructionView::IterIntJmp(_, ip) => Some(ip),
        InstructionView::Break { amount, amount_int, jmp_ip } => Some(jmp_ip),
        _ => None,
    }
}

/// `i` with its jump target set to `ip`. An instruction that does not jump
/// stays as it is.
pub open spec fn retargeted(i: InstructionView, ip: usize) -> InstructionView {
    match i {
        InstructionView::Jmp(_) => InstructionView::Jmp(ip),
        InstructionView::JmpIf(r, _) => InstructionView::JmpIf(r, ip),
        InstructionView::JmpNotIf(r, _) => InstructionView::JmpNotIf(r, ip),
        InstructionView::Iter(r, it, _) => InstructionView::Iter(r, it, ip),
        InstructionView::IterJmp(r, _) => InstructionView::IterJmp(r, ip),
        InstructionView::IterInt { reg, from, to, step, jmp_ip } => InstructionView::IterInt {
            reg,
            from,
            to,
            step,
            jmp_ip: ip,
        },
        InstructionView::IterIntJmp(r, _) => InstructionView::IterIntJmp(r, ip),
        InstructionView::Break { amount, amount_int, jmp_ip } => InstructionView::Break {
            amount,
            amount_int,
            jmp_ip: ip,
        },
        _ => i,
    }
}

/// Whether an instruction ends the function.
pub open spec fn ends_function(i: InstructionView) -> bool {
    i is RetSome || i is RetNone
}

/// The register that an instruction writes to, if it writes to one.
pub open spec fn written(i: InstructionView) -> Option<u16> {
    match i {
        InstructionView::Call(_, a) => a.store_in,
        InstructionView::CallSelf(a) => a.store_in,
        InstructionView::CallEnv(a) => a.store_in,
        InstructionView::Iter(r, _, _) => Some(r),
        InstructionView::IterJmp(r, _) => Some(r),
        InstructionView::IterInt { reg, from, to, step, jmp_ip } => Some(reg),
        InstructionView::IterIntJmp(r, _) => Some(r),
        InstructionView::Add(r, _, _) => Some(r),
        InstructionView::Sub(r, _, _) => Some(r),
        InstructionView::Mul(r, _, _) => Some(r),
        InstructionView::Div(r, _, _) => Some(r),
        InstructionView::Rem(r, _, _) => Some(r),
        InstructionView::And(r, _, _) => Some(r),
        InstructionView::Or(r, _, _) => Some(r),
        InstructionView::Xor(r, _, _) => Some(r),
        InstructionView::Shl(r, _, _) => Some(r),
        InstructionView::Shr(r, _, _) => Some(r),
        InstructionView::Not(r, _) => Some(r),
        InstructionView::Neg(r, _) => Some(r),
        InstructionView::LessEq(r, _, _) => Some(r),
        InstructionView::Less(r, _, _) => Some(r),
        InstructionView::Neq(r, _, _) => Some(r),
        InstructionView::Eq(r, _, _) => Some(r),
        InstructionView::Load(r, _) => Some(r),
        InstructionView::Move(d, _) => Some(d),
        InstructionView::NewArray(r, _) => Some(r),
        InstructionView::NewDictionary(r, _) => Some(r),
        InstructionView::GetIndex(r, _, _) => Some(r),
        InstructionView::CopySelf { dest } => Some(dest),
        _ => None,
    }
}

/// Whether the register that an instruction writes to, if any, is one of
/// the first `count` registers.
pub open spec fn writes_below(i: InstructionView, count: u16) -> bool {
    match written(i) {
        Some(r) => r < count,
        None => true,
    }
}

/// The registers that an instruction reads.
pub open spec fn reads(i: InstructionView) -> Seq<u16> {
    match i {
        InstructionView::Call(r, a) => seq![r] + a.args,
        InstructionView::CallSelf(a) => a.args,
        InstructionView::CallEnv(a) => a.args,
        InstructionView::JmpIf(r, _) => seq![r],
        InstructionView::JmpNotIf(r, _) => seq![r],
        InstructionView::RetSome(r) => seq![r],
        InstructionView::Iter(_, it, _) => seq![it],
        InstructionView::IterInt { reg, from, to, step, jmp_ip } => seq![from, to, step],
        InstructionView::Add(_, a, b) => seq![a, b],
        InstructionView::Sub(_, a, b) => seq![a, b],
        InstructionView::Mul(_, a, b) => seq![a, b],
        InstructionView::Div(_, a, b) => seq![a, b],
        InstructionView::Rem(_, a, b) => seq![a, b],
        InstructionView::And(_, a, b) => seq![a, b],
        InstructionView::Or(_, a, b) => seq![a, b],
        InstructionView::Xor(_, a, b) => seq![a, b],
        InstructionView::Shl(_, a, b) => seq![a, b],
        InstructionView::Shr(_, a, b) => seq![a, b],
        InstructionView::Not(_, a) => seq![a],
        InstructionView::Neg(_, a) => seq![a],
        InstructionView::LessEq(_, a, b) => seq![a, b],
        InstructionView::Less(_, a, b) => seq![a, b],
        InstructionView::Neq(_, a, b) => seq![a, b],
        InstructionView::Eq(_, a, b) => seq![a, b],
        InstructionView::Store(r, _) => seq![r],
        InstructionView::Move(_, s) => seq![s],
        InstructionView::GetIndex(_, o, x) => seq![o, x],
        InstructionView::SetIndex(r, o, x) => seq![r, o, x],
        _ => Seq::empty(),
    }
}

/// Whether every register that an instruction reads is one of the first
/// `count` registers.
pub open spec fn reads_below(i: InstructionView, count: int) -> bool {
    forall|k: int| 0 <= k < reads(i).len() ==> (#[trigger] reads(i)[k]) < count
}

/// Whether `r` names a register of a function that is being lowered: one of
/// its `max` working registers, or one of its `consts` constants, which are
/// numbered from the last register down.
pub open spec fn in_frame(r: u16, max: u16, consts: nat) -> bool {
    r < max || r + consts >= 65536
}

/// Whether every register that an instruction reads is a register of the
/// function that is being lowered.
pub open spec fn reads_within(i: InstructionView, max: u16, consts: nat) -> bool {
    forall|k: int| 0 <= k < reads(i).len() ==> in_frame(#[trigger] reads(i)[k], max, consts)
}

/// Whether every register of `regs` is a register of the function that is
/// being lowered.
pub open spec fn all_in_frame(regs: Seq<u16>, max: u16, consts: nat) -> bool {
    forall|k: int| 0 <= k < regs.len() ==> in_frame(#[trigger] regs[k], max, consts)
}

/// A register of a function that is being lowered is one of the registers
/// of its frame once the constants stand behind the working registers.
pub proof fn lemma_slot_in_frame(r: u16, max: u16, consts: nat)
    requires
        in_frame(r, max, consts),
        max + consts < 65536,
    ensures
        slot(r, 65536 - consts, max) < max + consts,
{
}

/// Once the constants stand behind the working registers, an instruction
/// reads registers of the frame only.
pub proof fn lemma_relocated_reads(i: InstructionView, max: u16, consts: nat)
    requires
        reads_within(i, max, consts),
        max + consts < 65536,
    ensures
        reads_below(relocated(i, 65536 - consts, max), max + consts),
{
    let base = 65536 - consts;
    let moved = relocated(i, base, max);
    assert(reads(moved).len() == reads(i).len());
    assert forall|k: int| 0 <= k < reads(moved).len() implies (#[trigger] reads(moved)[k]) < max
        + consts by {
        assert(reads(moved)[k] == slot(reads(i)[k], base, max));
        lemma_slot_in_frame(reads(i)[k], max, consts);
    }
}

/// Setting its jump target leaves the registers that an instruction reads
/// as they are.
pub proof fn lemma_retargeted_reads(i: InstructionView, ip: usize)
    ensures
        reads(retargeted(i, ip)) == reads(i),
{
}

/// Moving the registers that it reads leaves the register that an
/// instruction writes to as it is.
pub proof fn lemma_relocated_writes(i: InstructionView, base: int, max: u16)
    ensures
        written(relocated(i, base, max)) == written(i),
{
}

/// Setting its jump target leaves the register that an instruction writes
/// to as it is.
pub proof fn lemma_retargeted_writes(i: InstructionView, ip: usize)
    ensures
        written(retargeted(i, ip)) == written(i),
{
}

fn move_slot(r: u16, base: usize, max: u16) -> (s: u16)
    requires
        max <= base <= 65536,
    ensures
        s == slot(r, base as int, max),
{
    if (r as usize) >= base {
        max + (u16::MAX - r)
    } else {
        r
    }
}

fn move_slots(args: Vec<u16>, base: usize, max: u16) -> (r: Vec<u16>)
    requires
        max <= base <= 65536,
    ensures
        r@ == slots(args@, base as int, max),
{
    let mut out: Vec<u16> = Vec::new();
    let mut k: usize = 0;
    while k < args.len()
        invariant
            max <= base <= 65536,
            k <= args@.len(),
            out@.len() == k,
            forall|j: int| 0 <= j < k ==> out@[j] == slot(args@[j], base as int, max),
        decreases args@.len() - k,
    {
        out.push(move_slot(args[k], base, max));
        k += 1;
    }
    assert(out@ =~= slots(args@, base as int, max));
    out
}

impl Instruction {
    /// The instruction with each of its registers moved as `slot` says.
    pub fn relocate(self, base: usize, max: u16) -> (r: Instruction)
        requires
            max <= base <= 65536,
        ensures
            r@ == relocated(self@, base as int, max),
    {
        proof {
            reveal(Instruction::model);
        }
        match self {
            Instruction::Call(r, a) => {
                let a = *a;
                Instruction::Call(
                    move_slot(r, base, max),
                    Box::new(
                        CallArgs {
                            store_in: a.store_in,
                            func: a.func,
                            args: move_slots(a.args, base, max),
                        },
                    ),
                )
            },
            Instruction::CallSelf(a) => {
                let a = *a;
                Instruction::CallSelf(
                    Box::new(
                        SelfCallArgs {
                            store_in: a.store_in,
                            func: a.func,
                            args: move_slots(a.args, base, max),
                        },
                    ),
                )
            },
            Instruction::CallEnv(a) => {
                let a = *a;
                Instruction::CallEnv(
                    Box::new(
                        CallArgs {
                            store_in: a.store_in,
                            func: a.func,
                            args: move_slots(a.args, base, max),
                        },
                    ),
                )
            },
            Instruction::JmpIf(r, ip) => Instruction::JmpIf(move_slot(r, base, max), ip),
            Instruction::JmpNotIf(r, ip) => Instruction::JmpNotIf(move_slot(r, base, max), ip),
            Instruction::RetSome(r) => Instruction::RetSome(move_slot(r, base, max)),
            Instruction::Iter(r, it, ip) => Instruction::Iter(r, move_slot(it, base, max), ip),
            Instruction::IterInt { reg, from, to, step, jmp_ip } => Instruction::IterInt {
                reg,
                from: move_slot(from, base, max),
                to: move_slot(to, base, max),
                step: move_slot(step, base, max),
                jmp_ip,
            },
            Instruction::Add(r, a, b) => Instruction::Add(
                r,
                move_slot(a, base, max),
                move_slot(b, base, max),
            ),
            Instruction::Sub(r, a, b) => Instruction::Sub(
                r,
                move_slot(a, base, max),
                move_slot(b, base, max),
            ),
            Instruction::Mul(r, a, b) => Instruction::Mul(
                r,
                move_slot(a, base, max),
                move_slot(b, base, max),
            ),
            Instruction::Div(r, a, b) => Instruction::Div(
                r,
                move_slot(a, base, max),
                move_slot(b, base, max),
            ),
            Instruction::Rem(r, a, b) => Instruction::Rem(
                r,
                move_slot(a, base, max),
                move_slot(b, base, max),
            ),
            Instruction::And(r, a, b) => Instruction::And(
                r,
                move_slot(a, base, max),
                move_slot(b, base, max),
            ),
            Instruction::Or(r, a, b) => Instruction::Or(
                r,
                move_slot(a, base, max),
                move_slot(b, base, max),
            ),
            Instruction::Xor(r, a, b) => Instruction::Xor(
                r,
                move_slot(a, base, max),
                move_slot(b, base, max),
            ),
            Instruction::Shl(r, a, b) => Instruction::Shl(
                r,
                move_slot(a, base, max),
                move_slot(b, base, max),
            ),
            Instruction::Shr(r, a, b) => Instruction::Shr(
                r,
                move_slot(a, base, max),
                move_slot(b, base, max),
            ),
            Instruction::Not(r, a) => Instruction::Not(r, move_slot(a, base, max)),
            Instruction::Neg(r, a) => Instruction::Neg(r, move_slot(a, base, max)),
            Instruction::LessEq(r, a, b) => Instruction::LessEq(
                r,
                move_slot(a, base, max),
                move_slot(b, base, max),
            ),
            Instruction::Less(r, a, b) => Instruction::Less(
                r,
                move_slot(a, base, max),
                move_slot(b, base, max),
            ),
            Instruction::Neq(r, a, b) => Instruction::Neq(
                r,
                move_slot(a, base, max),
                move_slot(b, base, max),
            ),
            Instruction::Eq(r, a, b) => Instruction::Eq(
                r,
                move_slot(a, base, max),
                move_slot(b, base, max),
            ),
            Instruction::Store(r, l) => Instruction::Store(move_slot(r, base, max), l),
            Instruction::Move(d, s) => Instruction::Move(d, move_slot(s, base, max)),
            Instruction::GetIndex(r, o, x) => Instruction::GetIndex(
                r,
                move_slot(o, base, max),
                move_slot(x, base, max),
            ),
            Instruction::SetIndex(r, o, x) => Instruction::SetIndex(
                move_slot(r, base, max),
                move_slot(o, base, max),
                move_slot(x, base, max),
            ),
            other => other,
        }
    }

    /// The instruction with its jump target set to `ip`.
    pub fn retarget(self, ip: usize) -> (r: Instruction)
        ensures
            r@ == retargeted(self@, ip),
    {
        proof {
            reveal(Instruction::model);
        }
        match self {
            Instruction::Jmp(_) => Instruction::Jmp(ip),
            Instruction::JmpIf(r, _) => Instruction::JmpIf(r, ip),
            Instruction::JmpNotIf(r, _) => Instruction::JmpNotIf(r, ip),
            Instruction::Iter(r, it, _) => Instruction::Iter(r, it, ip),
            Instruction::IterJmp(r, _) => Instruction::IterJmp(r, ip),
            Instruction::IterInt { reg, from, to, step, jmp_ip } => Instruction::IterInt {
                reg,
                from,
                to,
                step,
                jmp_ip: ip,
            },
            Instruction::IterIntJmp(r, _) => Instruction::IterIntJmp(r, ip),
            Instruction::Break { amount, amount_int, jmp_ip } => Instruction::Break {
                amount,
                amount_int,
                jmp_ip: ip,
            },
            other => other,
        }
    }

    /// The jump target of the instruction, if it has one.
    pub fn target(&self) -> (r: Option<usize>)
        ensures
            r == target_of(self@),
    {
        proof {
            reveal(Instruction::model);
        }
        match self {
            Instruction::Jmp(ip) => Some(*ip),
            Instruction::JmpIf(_, ip) => Some(*ip),
            Instruction::JmpNotIf(_, ip) => Some(*ip),
            Instruction::Iter(_, _, ip) => Some(*ip),
            Instruction::IterJmp(_, ip) => Some(*ip),
            Instruction::IterInt { reg, from, to, step, jmp_ip } => Some(*jmp_ip),
            Instruction::IterIntJmp(_, ip) => Some(*ip),
            Instruction::Break { amount, amount_int, jmp_ip } => Some(*jmp_ip),
            _ => None,
        }
    }

    /// Whether the instruction ends the function.
    pub fn is_return(&self) -> (r: bool)
        ensures
            r == ends_function(self@),
    {
        proof {
            reveal(Instruction::model);
        }
        matches!(self, Instruction::RetSome(_) | Instruction::RetNone)
    }
}

/// The program of one function: its code, the number of its parameters, the
/// number of its working registers, its constants, its name, and the largest
/// number of arguments that a call in it hands over.
#[derive(Debug)]
pub struct ByteCode {
    pub code: Vec<Instruction>,
    pub param_count: u16,
    pub var_count: u16,
    pub consts: Vec<Constant>,
    pub name: String,
    pub max_call_args: u16,
}

pub struct ByteCodeView {
    pub code: Seq<InstructionView>,
    pub param_count: u16,
    pub var_count: u16,
    pub consts: Seq<ConstantView>,
    pub name: Seq<char>,
    pub max_call_args: u16,
}

impl View for ByteCode {
    type V = ByteCodeView;

    open spec fn view(&self) -> ByteCodeView {
        ByteCodeView {
            code: code_view(self.code@),
            param_count: self.param_count,
            var_count: self.var_count,
            consts: pool_view(self.consts@),
            name: self.name@,
            max_call_args: self.max_call_args,
        }
    }
}

/// The views of a sequence of programs.
pub open spec fn programs_view(v: Seq<ByteCode>) -> Seq<ByteCodeView> {
    Seq::new(v.len(), |k: int| v[k]@)
}

impl ByteCode {
    /// The name of the function.
    pub fn name(&self) -> (r: &String)
        ensures
            r@ == self@.name,
    {
        &self.name
    }
}

} // verus!
