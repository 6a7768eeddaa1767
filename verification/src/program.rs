use vstd::prelude::*;
use crate::ast::{names_view, Function};
use crate::builder::{error, sound, unresolved, ByteCodeBuilder, Names};
use crate::pool::Pool;
use crate::variables::Variables;
use crate::bytecode::{
    code_view, distinct, lemma_relocated_reads, lemma_relocated_writes, lemma_retargeted_reads,
    lemma_retargeted_writes, reads, reads_below, relocated, retargeted, target_of, writes_below,
    written, ByteCode, ByteCodeView, Instruction, InstructionView,
};
use crate::lowering::{
    ByteCodeError, ByteCodeErrorType, ByteCodeErrorView, State, REGISTERS,
};
use crate::statements::{
    closed, compiled, jumps_behind, parameters, program, resolved, settled, start,
};

verus! {

/// Whether every jump of `code` goes to one of its instructions.
pub open spec fn jumps_in_range(code: Seq<InstructionView>) -> bool {
    forall|k: int|
        0 <= k < code.len() ==> match target_of(#[trigger] code[k]) {
            Some(t) => t < code.len(),
            None => true,
        }
}

/// What holds of every program that a function is lowered to: its jumps go
/// to instructions of its code, no two of its constants are the same, its
/// working registers and its constants have room among the registers, its
/// parameters are among its working registers, it writes to working
/// registers only, and it reads working registers and constants only.
pub open spec fn well_formed(p: ByteCodeView) -> bool {
    &&& jumps_in_range(p.code)
    &&& distinct(p.consts)
    &&& p.var_count + p.consts.len() <= REGISTERS
    &&& p.param_count <= p.var_count
    &&& writes_in_range(p.code, p.var_count)
    &&& reads_in_range(p.code, p.var_count + p.consts.len())
}

/// Whether every register that an instruction of `code` reads is one of
/// the first `count` registers.
pub open spec fn reads_in_range(code: Seq<InstructionView>, count: int) -> bool {
    forall|k: int| 0 <= k < code.len() ==> reads_below(#[trigger] code[k], count)
}

/// Whether every register that an instruction of `code` writes to is one
/// of the first `count` registers.
pub open spec fn writes_in_range(code: Seq<InstructionView>, count: u16) -> bool {
    forall|k: int| 0 <= k < code.len() ==> writes_below(#[trigger] code[k], count)
}

/// Moving its registers leaves the jump target of an instruction as it is.
pub proof fn lemma_relocated_target(i: InstructionView, base: int, max: u16)
    ensures
        target_of(relocated(i, base, max)) == target_of(i),
{
}

/// The exec form of `settled`: the code with each register moved.
fn settle(code: Vec<Instruction>, base: usize, max: u16) -> (r: Vec<Instruction>)
    requires
        max <= base <= 65536,
    ensures
        code_view(r@) == Seq::new(
            code@.len(),
            |k: int| relocated(code_view(code@)[k], base as int, max),
        ),
{
    let ghost given = code_view(code@);
    let mut out = code;
    let mut k: usize = 0;
    while k < out.len()
        invariant
            max <= base <= 65536,
            k <= out@.len(),
            out@.len() == given.len(),
            forall|j: int|
                0 <= j < k ==> (#[trigger] out@[j])@ == relocated(given[j], base as int, max),
            forall|j: int| k <= j < out@.len() ==> (#[trigger] out@[j])@ == given[j],
        decreases out@.len() - k,
    {
        let mut i = Instruction::RetNone;
        out.set_and_swap(k, &mut i);
        out.set(k, i.relocate(base, max));
        k += 1;
    }
    proof {
        assert(code_view(out@) =~= Seq::new(
            given.len(),
            |j: int| relocated(given[j], base as int, max),
        ));
    }
    out
}

/// The exec form of `resolved`: the code with each recorded jump given its
/// target.
fn resolve(code: Vec<Instruction>, jumps: &Vec<(usize, usize)>) -> (r: Vec<Instruction>)
    requires
        code@.len() > 0,
        jumps_in_range(code_view(code@)),
        forall|j: int| 0 <= j < jumps@.len() ==> (#[trigger] jumps@[j]).1 < code@.len(),
    ensures
        code_view(r@) == resolved(code_view(code@), jumps@, 0),
        jumps_in_range(code_view(r@)),
        r@.len() == code@.len(),
        forall|j: int|
            0 <= j < r@.len() ==> written(#[trigger] code_view(r@)[j]) == written(
                code_view(code@)[j],
            ) && reads(code_view(r@)[j]) == reads(code_view(code@)[j]),
{
    let ghost given = code_view(code@);
    let mut out = code;
    let mut k: usize = 0;
    while k < jumps.len()
        invariant
            k <= jumps@.len(),
            out@.len() == given.len(),
            jumps_in_range(code_view(out@)),
            forall|j: int|
                0 <= j < out@.len() ==> written(#[trigger] code_view(out@)[j]) == written(
                    given[j],
                ) && reads(code_view(out@)[j]) == reads(given[j]),
            forall|j: int| 0 <= j < jumps@.len() ==> (#[trigger] jumps@[j]).1 < out@.len(),
            resolved(given, jumps@, 0) == resolved(code_view(out@), jumps@, k as int),
        decreases jumps@.len() - k,
    {
        let from = jumps[k].0;
        let to = jumps[k].1;
        if from < out.len() {
            let ghost before = code_view(out@);
            let mut i = Instruction::RetNone;
            out.set_and_swap(from, &mut i);
            out.set(from, i.retarget(to));
            proof {
                assert(code_view(out@) =~= before.update(
                    from as int,
                    retargeted(before[from as int], to),
                ));
                assert forall|j: int| 0 <= j < out@.len() implies match target_of(
                    #[trigger] code_view(out@)[j],
                ) {
                    Some(t) => t < out@.len(),
                    None => true,
                } by {
                    if j != from {
                        assert(code_view(out@)[j] == before[j]);
                    }
                }
                assert forall|j: int| 0 <= j < out@.len() implies written(
                    #[trigger] code_view(out@)[j],
                ) == written(given[j]) && reads(code_view(out@)[j]) == reads(given[j]) by {
                    if j != from {
                        assert(code_view(out@)[j] == before[j]);
                    } else {
                        lemma_retargeted_writes(before[from as int], to);
                        lemma_retargeted_reads(before[from as int], to);
                    }
                }
            }
        }
        k += 1;
    }
    out
}

impl ByteCodeBuilder {
    /// The state in which the lowering of a function with the given
    /// parameters starts: they hold the first registers.
    pub fn start(names: &Vec<String>) -> (r: Result<ByteCodeBuilder, ByteCodeError>)
        ensures
            match r {
                Ok(b) => start(names_view(names@)) == Ok::<State, ByteCodeErrorView>(b@) && sound(
                    b@,
                ) && b@.max == names@.len(),
                Err(e) => start(names_view(names@)) == Err::<State, ByteCodeErrorView>(e@),
            },
    {
        let ghost views = names_view(names@);
        if names.len() > u16::MAX as usize {
            return Err(error(ByteCodeErrorType::TooManyRegisters, 0, 0));
        }
        let count = names.len() as u16;
        let mut b = ByteCodeBuilder {
            instr: Vec::new(),
            vars: Variables::new(),
            consts: Pool::new(),
            curr: count,
            max: count,
            loops: Vec::new(),
            jumps: Vec::new(),
            max_call_args: 0,
        };
        let mut k: usize = 0;
        while k < names.len()
            invariant
                k <= names@.len(),
                names@.len() <= u16::MAX,
                views == names_view(names@),
                b.instr@.len() == 0,
                b.consts@.len() == 0,
                b.loops@.len() == 0,
                b.jumps@.len() == 0,
                b.curr == count,
                b.max == count,
                count == names@.len(),
                b.vars@.len() == k,
                forall|j: int| 0 <= j < k ==> (#[trigger] b.vars@[j]).1 < count,
                b.max_call_args == 0,
                parameters(Seq::empty(), views, 0) == parameters(b.vars@, views, k as int),
            decreases names@.len() - k,
        {
            proof {
                assert(views[k as int] == names@[k as int]@);
            }
            if b.find(&names[k]).is_some() {
                return Err(error(ByteCodeErrorType::DuplicateParameter(names[k].clone()), 0, 0));
            }
            b.vars = b.vars.with(names[k].clone(), k as u16);
            k += 1;
        }
        proof {
            assert(b@.instr =~= Seq::empty());
            assert(b@.consts =~= Seq::empty());
            assert(b@.loops =~= Seq::empty());
            assert(b@.jumps =~= Seq::empty());
        }
        Ok(b)
    }

    /// Whether a recorded jump goes behind the last instruction.
    fn jumps_behind(&self) -> (r: bool)
        ensures
            r == jumps_behind(self@),
    {
        let n = self.instr.len();
        let mut k: usize = 0;
        while k < self.jumps.len()
            invariant
                k <= self.jumps@.len(),
                n == self@.instr.len(),
                forall|j: int| 0 <= j < k ==> (#[trigger] self.jumps@[j]).1 < n,
            decreases self.jumps@.len() - k,
        {
            if self.jumps[k].1 >= n {
                proof {
                    assert(self@.jumps[k as int].1 >= self@.instr.len());
                }
                return true;
            }
            k += 1;
        }
        false
    }

    /// Puts a `RetNone` at the end of the code unless it ends with a return
    /// that no jump goes behind.
    pub fn close(self) -> (r: ByteCodeBuilder)
        requires
            sound(self@),
        ensures
            r@ == closed(self@),
            sound(r@),
            r@.instr.len() > 0,
            forall|j: int| 0 <= j < r@.jumps.len() ==> (#[trigger] r@.jumps[j]).1 < r@.instr.len(),
    {
        proof {
            reveal(Instruction::model);
        }
        let n = self.instr.len();
        let open = if n == 0 {
            true
        } else {
            proof {
                assert(self@.instr.last() == self.instr@[n - 1]@);
            }
            !self.instr[n - 1].is_return() || self.jumps_behind()
        };
        if open {
            self.emit(Instruction::RetNone)
        } else {
            self
        }
    }

    /// The program that the lowering of a function with the given name and
    /// number of parameters amounts to.
    pub fn finish(self, name: &String, param_count: u16) -> (r: ByteCode)
        requires
            sound(self@),
            param_count <= self@.max,
        ensures
            r@ == program(closed(self@), name@, param_count),
            well_formed(r@),
    {
        let b = self.close();
        let ghost s = b@;
        let base = REGISTERS - b.consts.len();
        let max = b.max;
        let settled_code = settle(b.instr, base, max);
        proof {
            assert(code_view(settled_code@) =~= settled(s));
            assert forall|k: int| 0 <= k < settled(s).len() implies match target_of(
                #[trigger] settled(s)[k],
            ) {
                Some(t) => t < settled(s).len(),
                None => true,
            } by {
                lemma_relocated_target(s.instr[k], REGISTERS - s.consts.len(), s.max);
                assert(unresolved(s.instr[k]));
            }
            assert forall|k: int| 0 <= k < settled(s).len() implies writes_below(
                #[trigger] settled(s)[k],
                s.max,
            ) by {
                lemma_relocated_writes(s.instr[k], REGISTERS - s.consts.len(), s.max);
                assert(writes_below(s.instr[k], s.max));
            }
            assert forall|k: int| 0 <= k < settled(s).len() implies reads_below(
                #[trigger] settled(s)[k],
                s.max + s.consts.len(),
            ) by {
                assert(crate::builder::fitting(s.instr[k], s));
                lemma_relocated_reads(s.instr[k], s.max, s.consts.len());
            }
        }
        let code = resolve(settled_code, &b.jumps);
        ByteCode {
            code,
            param_count,
            var_count: max,
            consts: b.consts.into_list(),
            name: name.clone(),
            max_call_args: b.max_call_args,
        }
    }

    /// Lowers a function in the scope `env` to its program.
    pub fn parse(function: &Function, env: &Names) -> (r: Result<ByteCode, ByteCodeError>)
        ensures
            match r {
                Ok(p) => compiled(function@, env@) == Ok::<ByteCodeView, ByteCodeErrorView>(p@)
                    && well_formed(p@),
                Err(e) => compiled(function@, env@) == Err::<ByteCodeView, ByteCodeErrorView>(e@),
            },
    {
        match ByteCodeBuilder::start(&function.parameters) {
            Err(e) => Err(e),
            Ok(b) => {
                let count = b.max;
                match b.block(env, &function.lines) {
                    Err(e) => Err(e),
                    Ok((b1, _)) => Ok(b1.finish(&function.name, count)),
                }
            },
        }
    }
}

} // verus!
