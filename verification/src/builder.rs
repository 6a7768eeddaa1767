use vstd::prelude::*;
use crate::bytecode::{
    code_view, distinct, in_frame, reads, reads_within, target_of,
    writes_below, Constant, Instruction, InstructionView,
};
use crate::lowering::{
    constant, emit, failed, find, free, patch, reserve, restore, ByteCodeError,
    ByteCodeErrorType, ByteCodeErrorTypeView, ByteCodeErrorView, LoopKind, LoopView, Lowered,
    Scope, State, REGISTERS,
};
use crate::names::NameTable;
use crate::pool::{lemma_no_index_is_absent, Pool};
use crate::variables::{lemma_found_is_held, Variables};

verus! {

/// A loop that encloses what is being lowered.
pub struct LoopContext {
    pub kind: LoopKind,
    pub continues: Vec<usize>,
    pub breaks: Vec<usize>,
}

impl View for LoopContext {
    type V = LoopView;

    open spec fn view(&self) -> LoopView {
        LoopView { kind: self.kind, continues: self.continues@, breaks: self.breaks@ }
    }
}

/// The views of a sequence of loops.
pub open spec fn loops_view(v: Seq<LoopContext>) -> Seq<LoopView> {
    Seq::new(v.len(), |k: int| v[k]@)
}

/// The names that a function can refer to outside itself.
pub struct Names {
    pub methods: NameTable,
    pub locals: NameTable,
}

impl View for Names {
    type V = Scope;

    open spec fn view(&self) -> Scope {
        Scope { methods: self.methods@, locals: self.locals@ }
    }
}

/// Lowers one function to the code of the register machine.
pub struct ByteCodeBuilder {
    pub instr: Vec<Instruction>,
    pub vars: Variables,
    pub consts: Pool,
    pub curr: u16,
    pub max: u16,
    pub loops: Vec<LoopContext>,
    pub jumps: Vec<(usize, usize)>,
    pub max_call_args: u16,
}

impl View for ByteCodeBuilder {
    type V = State;

    open spec fn view(&self) -> State {
        State {
            instr: code_view(self.instr@),
            vars: self.vars@,
            consts: self.consts@,
            curr: self.curr,
            max: self.max,
            loops: loops_view(self.loops@),
            jumps: self.jumps@,
            max_call_args: self.max_call_args,
        }
    }
}

/// What holds of the state of a lowering at every step: no two constants of
/// the pool are the same, the working registers and the constants do not
/// meet, no recorded jump goes further than behind the last instruction,
/// every jump in the code has the target 0 until it is resolved, every
/// register that the code writes to or that holds a variable is a working
/// register that was in use, and every register that the code reads is such
/// a register or names a constant of the pool.
pub open spec fn sound(s: State) -> bool {
    &&& distinct(s.consts)
    &&& s.max + s.consts.len() < REGISTERS
    &&& forall|j: int| 0 <= j < s.jumps.len() ==> (#[trigger] s.jumps[j]).1 <= s.instr.len()
    &&& forall|k: int| 0 <= k < s.instr.len() ==> fitting(#[trigger] s.instr[k], s)
    &&& forall|v: int| 0 <= v < s.vars.len() ==> (#[trigger] s.vars[v]).1 < s.max
}

/// Whether an instruction can stand in the code of `s`: its jump is not
/// resolved, it writes to a working register that was in use, and it reads
/// such registers and constants of the pool only.
pub open spec fn fitting(i: InstructionView, s: State) -> bool {
    &&& unresolved(i)
    &&& writes_below(i, s.max)
    &&& reads_within(i, s.max, s.consts.len())
}

/// Whether a register that a value may be written to, if there is one, is a
/// working register that is in use.
pub open spec fn usable(store: Option<u16>, s: State) -> bool {
    match store {
        Some(r) => r < s.max,
        None => true,
    }
}

/// Whether `r` names a register of `s`: a working register that was in
/// use, or a constant of the pool.
pub open spec fn known(r: u16, s: State) -> bool {
    in_frame(r, s.max, s.consts.len())
}

/// Whether a register that holds a value, if there is one, is a register of
/// `s`.
pub open spec fn placed(value: Option<u16>, s: State) -> bool {
    match value {
        Some(r) => known(r, s),
        None => true,
    }
}

/// An instruction that can stand in the code of a state can stand in the
/// code of every state that has no fewer working registers and constants.
pub proof fn lemma_fitting_stays(i: InstructionView, a: State, b: State)
    requires
        fitting(i, a),
        a.max <= b.max,
        a.consts.len() <= b.consts.len(),
    ensures
        fitting(i, b),
{
    assert forall|k: int| 0 <= k < reads(i).len() implies in_frame(
        #[trigger] reads(i)[k],
        b.max,
        b.consts.len(),
    ) by {
        assert(in_frame(reads(i)[k], a.max, a.consts.len()));
    }
}

/// Whether an instruction does not jump or has the target 0.
pub open spec fn unresolved(i: InstructionView) -> bool {
    match target_of(i) {
        Some(t) => t == 0,
        None => true,
    }
}

/// What holds of the state `b` of a lowering behind a step that started in
/// `a`: the code has not shrunk, as many loops enclose the place, and the
/// variables of `a` are in scope, in the same registers. No fewer registers
/// were ever in use, and the pool holds no fewer constants.
pub open spec fn grown(a: State, b: State) -> bool {
    &&& a.max <= b.max
    &&& a.consts.len() <= b.consts.len()
    &&& a.instr.len() <= b.instr.len()
    &&& a.loops.len() == b.loops.len()
    &&& a.vars.len() <= b.vars.len()
    &&& b.vars.subrange(0, a.vars.len() as int) == a.vars
}

/// Whether what a lowering step gave is what `expected` says.
pub open spec fn gives<T>(r: Result<(ByteCodeBuilder, T), ByteCodeError>, expected: Lowered<T>) -> bool {
    match r {
        Ok((b, v)) => expected == Ok::<(State, T), ByteCodeErrorView>((b@, v)),
        Err(e) => expected == Err::<(State, T), ByteCodeErrorView>(e@),
    }
}

/// Whether the state that a lowering step gave, if it gave one, is sound
/// and grown from `before`.
pub open spec fn kept<T>(r: Result<(ByteCodeBuilder, T), ByteCodeError>, before: State) -> bool {
    match r {
        Ok((b, _)) => sound(b@) && grown(before, b@),
        Err(_) => true,
    }
}

pub proof fn lemma_grown_transitive(a: State, b: State, c: State)
    requires
        grown(a, b),
        grown(b, c),
    ensures
        grown(a, c),
{
    assert(c.vars.subrange(0, a.vars.len() as int) =~= b.vars.subrange(0, a.vars.len() as int));
}

/// The error of the given kind at the given place.
pub fn error(kind: ByteCodeErrorType, line: u32, column: u32) -> (e: ByteCodeError)
    ensures
        e@ == failed(kind@, line, column),
{
    ByteCodeError::new(line, column, kind)
}

impl ByteCodeBuilder {
    /// Puts the instruction `i` behind the code.
    pub fn emit(self, i: Instruction) -> (r: ByteCodeBuilder)
        requires
            sound(self@),
            fitting(i@, self@),
        ensures
            r@ == emit(self@, i@),
            sound(r@),
            grown(self@, r@),
    {
        let mut b = self;
        let ghost before = code_view(b.instr@);
        let ghost view = i@;
        b.instr.push(i);
        proof {
            assert(code_view(b.instr@) =~= before.push(view));
            assert(b@.vars.subrange(0, self@.vars.len() as int) =~= self@.vars);
            assert forall|k: int| 0 <= k < b@.instr.len() implies fitting(
                #[trigger] b@.instr[k],
                b@,
            ) by {
                if k < before.len() {
                    assert(b@.instr[k] == self@.instr[k]);
                    lemma_fitting_stays(self@.instr[k], self@, b@);
                } else {
                    lemma_fitting_stays(view, self@, b@);
                }
            }
        }
        b
    }

    /// Records that the instruction at `from` jumps to `to`.
    pub fn patch(self, from: usize, to: usize) -> (r: ByteCodeBuilder)
        requires
            sound(self@),
            to <= self@.instr.len(),
        ensures
            r@ == patch(self@, from, to),
            sound(r@),
            grown(self@, r@),
    {
        let mut b = self;
        b.jumps.push((from, to));
        proof {
            assert(b@.vars.subrange(0, self@.vars.len() as int) =~= self@.vars);
        }
        b
    }

    /// Sets the next free register to `curr`.
    pub fn restore(self, curr: u16) -> (r: ByteCodeBuilder)
        requires
            sound(self@),
        ensures
            r@ == restore(self@, curr),
            sound(r@),
            grown(self@, r@),
    {
        let mut b = self;
        b.curr = curr;
        proof {
            assert(b@.vars.subrange(0, self@.vars.len() as int) =~= self@.vars);
        }
        b
    }

    /// Gives back the register that was reserved last.
    pub fn free(self) -> (r: ByteCodeBuilder)
        requires
            sound(self@),
        ensures
            r@ == free(self@),
            sound(r@),
            grown(self@, r@),
    {
        let mut b = self;
        if b.curr > 0 {
            b.curr = b.curr - 1;
        }
        proof {
            assert(b@.vars.subrange(0, self@.vars.len() as int) =~= self@.vars);
        }
        b
    }

    /// Reserves the next free register.
    pub fn alloc_reg(self, line: u32, column: u32) -> (r: Result<
        (ByteCodeBuilder, u16),
        ByteCodeError,
    >)
        requires
            sound(self@),
        ensures
            gives(r, reserve(self@, line, column)),
            kept(r, self@),
            r matches Ok((b, reg)) ==> reg < b@.max,
    {
        let mut b = self;
        if b.consts.len() >= REGISTERS || (b.curr as usize) + 1 + b.consts.len() >= REGISTERS {
            return Err(error(ByteCodeErrorType::TooManyRegisters, line, column));
        }
        let reg = b.curr;
        b.curr = reg + 1;
        if b.max <= reg {
            b.max = reg + 1;
        }
        proof {
            assert(b@.vars.subrange(0, self@.vars.len() as int) =~= self@.vars);
            assert forall|k: int| 0 <= k < b@.instr.len() implies fitting(
                #[trigger] b@.instr[k],
                b@,
            ) by {
                lemma_fitting_stays(self@.instr[k], self@, b@);
            }
        }
        Ok((b, reg))
    }

    /// The register of the variable `name`, if it is in scope.
    pub fn find(&self, name: &String) -> (r: Option<u16>)
        ensures
            r == find(self@.vars, name@),
            sound(self@) ==> usable(r, self@),
    {
        let r = self.vars.find(name);
        proof {
            if r is Some {
                lemma_found_is_held(self@.vars, name@);
            }
        }
        r
    }

    /// The register of the constant `c`, which is put behind the pool unless
    /// the pool holds the same constant.
    pub fn add_const(self, c: Constant, line: u32, column: u32) -> (r: Result<
        (ByteCodeBuilder, u16),
        ByteCodeError,
    >)
        requires
            sound(self@),
        ensures
            gives(r, constant(self@, c@, line, column)),
            kept(r, self@),
            r matches Ok((b, reg)) ==> known(reg, b@),
    {
        let mut b = self;
        let ghost pool = b.consts@;
        match b.consts.find(&c) {
            Some(k) => {
                proof {
                    assert(b@.vars.subrange(0, self@.vars.len() as int) =~= self@.vars);
                }
                return Ok((b, (u16::MAX as usize - k) as u16));
            },
            None => {},
        }
        if (b.max as usize) + b.consts.len() + 1 >= REGISTERS {
            return Err(error(ByteCodeErrorType::TooManyRegisters, line, column));
        }
        let reg = (u16::MAX as usize - b.consts.len()) as u16;
        let ghost view = c@;
        b.consts = b.consts.with(c);
        proof {
            lemma_no_index_is_absent(pool, view, 0);
            assert(b@.vars.subrange(0, self@.vars.len() as int) =~= self@.vars);
            assert forall|k: int| 0 <= k < b@.instr.len() implies fitting(
                #[trigger] b@.instr[k],
                b@,
            ) by {
                lemma_fitting_stays(self@.instr[k], self@, b@);
            }
        }
        Ok((b, reg))
    }
}

} // verus!
