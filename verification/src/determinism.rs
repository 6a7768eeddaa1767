use vstd::prelude::*;
use crate::bytecode::{ByteCodeView, ConstantView, InstructionView};
use crate::script::{accepted, invoked, ClassView};
use crate::machine::{
    answered, called, copies, current, effect, entered_call, followed, made_of, missing,
    new_frame, ran, ran_for, ready, refused, replied, stepped, within, Arithmetic, CallError,
    Comparison, Environment, FrameView, Next, Status, VariantType,
};

verus! {

/// Whether the host answers as a function of what it is asked: whenever it
/// can give two answers to one question, the two are the same. Two texts
/// with the same characters, and two lists of the same arguments, are one
/// question.
pub open spec fn decided<V: VariantType, E: Environment<V>>(env: &E) -> bool {
    &&& forall|a: V, b: V| call_ensures(V::empty, (), a) && call_ensures(V::empty, (), b) ==> a == b
    &&& forall|x: &V, a: V, b: V|
        call_ensures(V::copy, (x,), a) && call_ensures(V::copy, (x,), b) ==> a == b
    &&& forall|x: bool, a: V, b: V|
        call_ensures(V::new_bool, (x,), a) && call_ensures(V::new_bool, (x,), b) ==> a == b
    &&& forall|x: isize, a: V, b: V|
        call_ensures(V::new_integer, (x,), a) && call_ensures(V::new_integer, (x,), b) ==> a == b
    &&& forall|x: crate::ast::Real, a: V, b: V|
        call_ensures(V::new_real, (x,), a) && call_ensures(V::new_real, (x,), b) ==> a == b
    &&& forall|x: &str, y: &str, a: V, b: V|
        x@ == y@ && call_ensures(V::new_string, (x,), a) && call_ensures(V::new_string, (y,), b)
            ==> a == b
    &&& forall|x: usize, a: V, b: V|
        call_ensures(V::new_array, (x,), a) && call_ensures(V::new_array, (x,), b) ==> a == b
    &&& forall|x: usize, a: V, b: V|
        call_ensures(V::new_dictionary, (x,), a) && call_ensures(V::new_dictionary, (x,), b)
            ==> a == b
    &&& forall|x: &V, a: Result<bool, CallError>, b: Result<bool, CallError>|
        call_ensures(V::as_bool, (x,), a) && call_ensures(V::as_bool, (x,), b) ==> a == b
    &&& forall|x: &V, a: Result<isize, CallError>, b: Result<isize, CallError>|
        call_ensures(V::as_integer, (x,), a) && call_ensures(V::as_integer, (x,), b) ==> a == b
    &&& forall|x: &V, op: Arithmetic, y: &V, a: Result<V, CallError>, b: Result<V, CallError>|
        call_ensures(V::arithmetic, (x, op, y), a) && call_ensures(V::arithmetic, (x, op, y), b)
            ==> a == b
    &&& forall|x: &V, a: Result<V, CallError>, b: Result<V, CallError>|
        call_ensures(V::negate, (x,), a) && call_ensures(V::negate, (x,), b) ==> a == b
    &&& forall|x: &V, a: Result<V, CallError>, b: Result<V, CallError>|
        call_ensures(V::invert, (x,), a) && call_ensures(V::invert, (x,), b) ==> a == b
    &&& forall|x: &V, how: Comparison, y: &V, a: bool, b: bool|
        call_ensures(V::compare, (x, how, y), a) && call_ensures(V::compare, (x, how, y), b) ==> a
            == b
    &&& forall|x: &V, a: Result<V::Walk, CallError>, b: Result<V::Walk, CallError>|
        call_ensures(V::walk, (x,), a) && call_ensures(V::walk, (x,), b) ==> a == b
    &&& forall|w: V::Walk, a: (Option<V>, V::Walk), b: (Option<V>, V::Walk)|
        call_ensures(V::advance, (w,), a) && call_ensures(V::advance, (w,), b) ==> a == b
    &&& forall|x: &V, y: &V, a: Result<V, CallError>, b: Result<V, CallError>|
        call_ensures(V::index, (x, y), a) && call_ensures(V::index, (x, y), b) ==> a == b
    &&& forall|x: &V, y: &V, z: V, a: Result<(), CallError>, b: Result<(), CallError>|
        call_ensures(V::set_index, (x, y, z), a) && call_ensures(V::set_index, (x, y, z), b) ==> a
            == b
    &&& forall|
        x: &V,
        n: &str,
        m: &str,
        p: &Vec<V>,
        q: &Vec<V>,
        a: Result<V, CallError>,
        b: Result<V, CallError>,
    |
        n@ == m@ && p@ == q@ && call_ensures(V::call::<E>, (x, n, p, env), a) && call_ensures(
            V::call::<E>,
            (x, m, q, env),
            b,
        ) ==> a == b
    &&& forall|n: &str, m: &str, p: &Vec<V>, q: &Vec<V>, a: Result<V, CallError>, b: Result<V, CallError>|
        n@ == m@ && p@ == q@ && call_ensures(E::call, (env, n, p), a) && call_ensures(
            E::call,
            (env, m, q),
            b,
        ) ==> a == b
}

/// Whether two instructions ask the same of the machine: the same, or a
/// call of the same function with the same arguments for the same register.
pub open spec fn alike<V>(x: Next<V>, y: Next<V>) -> bool {
    match (x, y) {
        (Next::Call(f, a, t), Next::Call(g, b, u)) => f == g && a@ == b@ && t == u,
        (Next::Call(_, _, _), _) => false,
        (_, Next::Call(_, _, _)) => false,
        _ => x == y,
    }
}

/// Under a host that is `decided`, the copies of some registers are the
/// same whenever they are made.
pub proof fn lemma_copies_decided<V: VariantType, E: Environment<V>>(
    env: &E,
    vars: Seq<V>,
    regs: Seq<u16>,
    x: Seq<V>,
    y: Seq<V>,
)
    requires
        decided::<V, E>(env),
        copies(vars, regs, x),
        copies(vars, regs, y),
    ensures
        x == y,
{
    assert forall|k: int| 0 <= k < x.len() implies x[k] == y[k] by {
        assert(call_ensures(V::copy, (&vars[regs[k] as int],), x[k]));
        assert(call_ensures(V::copy, (&vars[regs[k] as int],), y[k]));
    }
    assert(x =~= y);
}

/// Under a host that is `decided`, a call of the host has one effect.
pub proof fn lemma_called_decided<V: VariantType, E: Environment<V>>(
    a: FrameView<V>,
    on: Option<u16>,
    store_in: Option<u16>,
    func: Seq<char>,
    regs: Seq<u16>,
    limit: u16,
    env: &E,
    b: FrameView<V>,
    next_b: Next<V>,
    c: FrameView<V>,
    next_c: Next<V>,
)
    requires
        decided::<V, E>(env),
        called(a, on, store_in, func, regs, limit, env, b, next_b),
        called(a, on, store_in, func, regs, limit, env, c, next_c),
    ensures
        b == c,
        next_b == next_c,
{
    if regs.len() <= limit && within(regs, a.vars.len()) && !missing(on, a.vars.len()) {
        let (n, p, g) = choose|n: &str, p: Vec<V>, g: Result<V, CallError>|
            n@ == func && copies(a.vars, regs, p@) && #[trigger] answered(a.vars, on, n, p, env, g)
                && replied(a, store_in, g, b, next_b);
        let (m, q, h) = choose|m: &str, q: Vec<V>, h: Result<V, CallError>|
            m@ == func && copies(a.vars, regs, q@) && #[trigger] answered(a.vars, on, m, q, env, h)
                && replied(a, store_in, h, c, next_c);
        lemma_copies_decided(env, a.vars, regs, p@, q@);
        match on {
            Some(reg) => {
                assert(call_ensures(V::call::<E>, (&a.vars[reg as int], n, &p, env), g));
                assert(call_ensures(V::call::<E>, (&a.vars[reg as int], m, &q, env), h));
            },
            None => {
                assert(call_ensures(E::call, (env, n, &p), g));
                assert(call_ensures(E::call, (env, m, &q), h));
            },
        }
        assert(g == h);
    }
}

/// Under a host that is `decided`, an instruction has one effect.
#[verifier::rlimit(60)]
pub proof fn lemma_effect_decided<V: VariantType, E: Environment<V>>(
    i: InstructionView,
    limit: u16,
    a: FrameView<V>,
    locals: Seq<V>,
    this: V,
    env: &E,
    b: FrameView<V>,
    locals_b: Seq<V>,
    next_b: Next<V>,
    c: FrameView<V>,
    locals_c: Seq<V>,
    next_c: Next<V>,
)
    requires
        decided::<V, E>(env),
        effect(i, limit, a, locals, this, env, b, locals_b, next_b),
        effect(i, limit, a, locals, this, env, c, locals_c, next_c),
    ensures
        b == c,
        locals_b == locals_c,
        alike(next_b, next_c),
{
    match i {
        InstructionView::Call(on, k) => {
            lemma_called_decided(
                a,
                Some(on),
                k.store_in,
                k.func,
                k.args,
                limit,
                env,
                b,
                next_b,
                c,
                next_c,
            );
        },
        InstructionView::CallSelf(k) => {
            if let Next::Call(_, p, _) = next_b {
                if let Next::Call(_, q, _) = next_c {
                    lemma_copies_decided(env, a.vars, k.args, p@, q@);
                }
            }
        },
        InstructionView::CallEnv(k) => {
            lemma_called_decided(
                a,
                None,
                k.store_in,
                k.func,
                k.args,
                limit,
                env,
                b,
                next_b,
                c,
                next_c,
            );
        },
        InstructionView::Jmp(_) => {
            assert(b == c && alike(next_b, next_c));
        },
        InstructionView::JmpIf(_, _) => {
            assert(b == c && alike(next_b, next_c));
        },
        InstructionView::JmpNotIf(_, _) => {
            assert(b == c && alike(next_b, next_c));
        },
        InstructionView::RetSome(_) => {
            assert(b == c && alike(next_b, next_c));
        },
        InstructionView::RetNone => {
            assert(b == c && alike(next_b, next_c));
        },
        InstructionView::Iter(_, _, _) => {
            assert(b == c && alike(next_b, next_c));
        },
        InstructionView::IterJmp(_, _) => {
            assert(b == c && alike(next_b, next_c));
        },
        InstructionView::IterInt { .. } => {
            assert(b == c && alike(next_b, next_c));
        },
        InstructionView::IterIntJmp(_, _) => {
            assert(b == c && alike(next_b, next_c));
        },
        InstructionView::Break { .. } => {
            assert(b == c && alike(next_b, next_c));
        },
        InstructionView::Add(_, _, _) => {
            assert(b == c && alike(next_b, next_c));
        },
        InstructionView::Sub(_, _, _) => {
            assert(b == c && alike(next_b, next_c));
        },
        InstructionView::Mul(_, _, _) => {
            assert(b == c && alike(next_b, next_c));
        },
        InstructionView::Div(_, _, _) => {
            assert(b == c && alike(next_b, next_c));
        },
        InstructionView::Rem(_, _, _) => {
            assert(b == c && alike(next_b, next_c));
        },
        InstructionView::And(_, _, _) => {
            assert(b == c && alike(next_b, next_c));
        },
        InstructionView::Or(_, _, _) => {
            assert(b == c && alike(next_b, next_c));
        },
        InstructionView::Xor(_, _, _) => {
            assert(b == c && alike(next_b, next_c));
        },
        InstructionView::Shl(_, _, _) => {
            assert(b == c && alike(next_b, next_c));
        },
        InstructionView::Shr(_, _, _) => {
            assert(b == c && alike(next_b, next_c));
        },
        InstructionView::Not(_, _) => {
            assert(b == c && alike(next_b, next_c));
        },
        InstructionView::Neg(_, _) => {
            assert(b == c && alike(next_b, next_c));
        },
        InstructionView::LessEq(_, _, _) => {
            assert(b == c && alike(next_b, next_c));
        },
        InstructionView::Less(_, _, _) => {
            assert(b == c && alike(next_b, next_c));
        },
        InstructionView::Neq(_, _, _) => {
            assert(b == c && alike(next_b, next_c));
        },
        InstructionView::Eq(_, _, _) => {
            assert(b == c && alike(next_b, next_c));
        },
        InstructionView::Store(_, _) => {
            assert(b == c && alike(next_b, next_c));
        },
        InstructionView::Load(_, _) => {
            assert(b == c && alike(next_b, next_c));
        },
        InstructionView::Move(_, _) => {
            assert(b == c && alike(next_b, next_c));
        },
        InstructionView::NewArray(_, _) => {
            assert(b == c && alike(next_b, next_c));
        },
        InstructionView::NewDictionary(_, _) => {
            assert(b == c && alike(next_b, next_c));
        },
        InstructionView::GetIndex(_, _, _) => {
            assert(b == c && alike(next_b, next_c));
        },
        InstructionView::SetIndex(_, _, _) => {
            assert(b == c && alike(next_b, next_c));
        },
        InstructionView::CopySelf { .. } => {
            assert(b == c && alike(next_b, next_c));
        },
    }
}

/// Under a host that is `decided`, a constant is one value.
pub proof fn lemma_constant_decided<V: VariantType, E: Environment<V>>(
    env: &E,
    k: ConstantView,
    x: V,
    y: V,
)
    requires
        decided::<V, E>(env),
        made_of(k, x),
        made_of(k, y),
    ensures
        x == y,
{
    match k {
        ConstantView::Str(s) => {
            let t = choose|t: &str| t@ == s && #[trigger] call_ensures(V::new_string, (t,), x);
            let u = choose|u: &str| u@ == s && #[trigger] call_ensures(V::new_string, (u,), y);
        },
        _ => {},
    }
}

/// Under a host that is `decided`, a call of a function of the script
/// begins with one frame.
pub proof fn lemma_new_frame_decided<V: VariantType, E: Environment<V>>(
    env: &E,
    program: ByteCodeView,
    function: usize,
    args: Seq<V>,
    store_in: Option<u16>,
    x: FrameView<V>,
    y: FrameView<V>,
)
    requires
        decided::<V, E>(env),
        refused(program, args.len()) is None,
        new_frame(program, function, args, store_in, x),
        new_frame(program, function, args, store_in, y),
    ensures
        x == y,
{
    assert forall|j: int| 0 <= j < x.vars.len() implies x.vars[j] == y.vars[j] by {
        if j < args.len() {
            assert(x.vars.subrange(0, args.len() as int)[j] == x.vars[j]);
            assert(y.vars.subrange(0, args.len() as int)[j] == y.vars[j]);
        } else if j < program.var_count {
            assert(call_ensures(V::empty, (), x.vars[j]));
            assert(call_ensures(V::empty, (), y.vars[j]));
        } else {
            let k = j - program.var_count;
            assert(made_of(program.consts[k], x.vars[program.var_count + k]));
            assert(made_of(program.consts[k], y.vars[program.var_count + k]));
            lemma_constant_decided(env, program.consts[k], x.vars[j], y.vars[j]);
        }
    }
    assert(x.vars =~= y.vars);
    assert(x.walks =~= y.walks);
    assert(x.ranges =~= y.ranges);
}

/// Under a host that is `decided`, what an instruction asks of the machine
/// leaves the machine in one state.
pub proof fn lemma_followed_decided<V: VariantType, E: Environment<V>>(
    env: &E,
    functions: Seq<ByteCodeView>,
    rest: Seq<FrameView<V>>,
    b: FrameView<V>,
    asked: Next<V>,
    again: Next<V>,
    x: Seq<FrameView<V>>,
    status_x: Status<V>,
    y: Seq<FrameView<V>>,
    status_y: Status<V>,
)
    requires
        decided::<V, E>(env),
        alike(asked, again),
        followed(functions, rest, b, asked, x, status_x),
        followed(functions, rest, b, again, y, status_y),
    ensures
        x == y,
        status_x == status_y,
{
    match (asked, again) {
        (Next::Call(f, p, to), Next::Call(g, q, t)) => {
            if f < functions.len() && refused(functions[f as int], p@.len()) is None {
                let v = choose|v: FrameView<V>| #[trigger]
                    new_frame(functions[f as int], f as usize, p@, to, v) && status_x is Running
                        && x == rest.push(b).push(v);
                let w = choose|w: FrameView<V>| #[trigger]
                    new_frame(functions[f as int], f as usize, p@, to, w) && status_y is Running
                        && y == rest.push(b).push(w);
                lemma_new_frame_decided(env, functions[f as int], f as usize, p@, to, v, w);
            } else {
                assert(x =~= y);
            }
        },
        _ => {
            assert(x =~= y);
        },
    }
}

/// Under a passive tracer and a host that is `decided`, a step leads to one
/// state.
pub proof fn lemma_step_decided<V: VariantType, E: Environment<V>>(
    functions: Seq<ByteCodeView>,
    env: &E,
    this: V,
    frames: Seq<FrameView<V>>,
    locals: Seq<V>,
    x: Seq<FrameView<V>>,
    locals_x: Seq<V>,
    status_x: Status<V>,
    y: Seq<FrameView<V>>,
    locals_y: Seq<V>,
    status_y: Status<V>,
)
    requires
        decided::<V, E>(env),
        stepped(functions, env, this, true, frames, locals, x, locals_x, status_x),
        stepped(functions, env, this, true, frames, locals, y, locals_y, status_y),
    ensures
        x == y,
        locals_x == locals_y,
        status_x == status_y,
{
    match current(frames, functions) {
        None => {
            assert(x =~= y);
        },
        Some(i) => {
            let limit = functions[frames.last().function as int].max_call_args;
            let (seen, b, asked) = choose|seen: Seq<V>, b: FrameView<V>, asked: Next<V>| #[trigger]
                effect(i, limit, ready(frames.last(), seen), locals, this, env, b, locals_x, asked)
                    && followed(functions, frames.drop_last(), b, asked, x, status_x) && seen
                    == frames.last().vars;
            let (shown, c, again) = choose|shown: Seq<V>, c: FrameView<V>, again: Next<V>| #[trigger]
                effect(i, limit, ready(frames.last(), shown), locals, this, env, c, locals_y, again)
                    && followed(functions, frames.drop_last(), c, again, y, status_y) && shown
                    == frames.last().vars;
            lemma_effect_decided(
                i,
                limit,
                ready(frames.last(), seen),
                locals,
                this,
                env,
                b,
                locals_x,
                asked,
                c,
                locals_y,
                again,
            );
            lemma_followed_decided(
                env,
                functions,
                frames.drop_last(),
                b,
                asked,
                again,
                x,
                status_x,
                y,
                status_y,
            );
        },
    }
}

/// Under a passive tracer and a host that is `decided`, a number of steps
/// leads to one state.
pub proof fn lemma_ran_decided<V: VariantType, E: Environment<V>>(
    functions: Seq<ByteCodeView>,
    env: &E,
    this: V,
    frames: Seq<FrameView<V>>,
    locals: Seq<V>,
    x: Seq<FrameView<V>>,
    locals_x: Seq<V>,
    status_x: Status<V>,
    y: Seq<FrameView<V>>,
    locals_y: Seq<V>,
    status_y: Status<V>,
    n: nat,
)
    requires
        decided::<V, E>(env),
        ran(functions, env, this, true, frames, locals, x, locals_x, status_x, n),
        ran(functions, env, this, true, frames, locals, y, locals_y, status_y, n),
    ensures
        x == y,
        locals_x == locals_y,
        status_x == status_y,
    decreases n,
{
    if n == 1 {
        lemma_step_decided(
            functions,
            env,
            this,
            frames,
            locals,
            x,
            locals_x,
            status_x,
            y,
            locals_y,
            status_y,
        );
    } else if n > 1 {
        let (v, locals_v) = choose|v: Seq<FrameView<V>>, locals_v: Seq<V>|
            ran(
                functions,
                env,
                this,
                true,
                frames,
                locals,
                v,
                locals_v,
                Status::<V>::Running,
                (n - 1) as nat,
            ) && #[trigger] stepped(functions, env, this, true, v, locals_v, x, locals_x, status_x);
        let (w, locals_w) = choose|w: Seq<FrameView<V>>, locals_w: Seq<V>|
            ran(
                functions,
                env,
                this,
                true,
                frames,
                locals,
                w,
                locals_w,
                Status::<V>::Running,
                (n - 1) as nat,
            ) && #[trigger] stepped(functions, env, this, true, w, locals_w, y, locals_y, status_y);
        lemma_ran_decided(
            functions,
            env,
            this,
            frames,
            locals,
            v,
            locals_v,
            Status::<V>::Running,
            w,
            locals_w,
            Status::<V>::Running,
            (n - 1) as nat,
        );
        lemma_step_decided(
            functions,
            env,
            this,
            v,
            locals_v,
            x,
            locals_x,
            status_x,
            y,
            locals_y,
            status_y,
        );
    }
}

/// A run of `n` steps is running behind each of its steps before the last:
/// behind `k` of them it stands somewhere, and is running.
pub proof fn lemma_ran_before<V: VariantType, E: Environment<V>>(
    functions: Seq<ByteCodeView>,
    env: &E,
    this: V,
    passive: bool,
    frames: Seq<FrameView<V>>,
    locals: Seq<V>,
    after: Seq<FrameView<V>>,
    locals_after: Seq<V>,
    status: Status<V>,
    n: nat,
    k: nat,
) -> (r: (Seq<FrameView<V>>, Seq<V>))
    requires
        ran(functions, env, this, passive, frames, locals, after, locals_after, status, n),
        1 <= k < n,
    ensures
        ran(functions, env, this, passive, frames, locals, r.0, r.1, Status::<V>::Running, k),
    decreases n,
{
    let (v, locals_v) = choose|v: Seq<FrameView<V>>, locals_v: Seq<V>|
        ran(
            functions,
            env,
            this,
            passive,
            frames,
            locals,
            v,
            locals_v,
            Status::<V>::Running,
            (n - 1) as nat,
        ) && #[trigger] stepped(
            functions,
            env,
            this,
            passive,
            v,
            locals_v,
            after,
            locals_after,
            status,
        );
    if k == n - 1 {
        (v, locals_v)
    } else {
        lemma_ran_before(
            functions,
            env,
            this,
            passive,
            frames,
            locals,
            v,
            locals_v,
            Status::<V>::Running,
            (n - 1) as nat,
            k,
        )
    }
}

/// Under a passive tracer and a host that is `decided`, two runs of one
/// machine with one budget end the same: with the same frames, the same
/// variables of the script and the same result.
pub proof fn lemma_run_decided<V: VariantType, E: Environment<V>>(
    functions: Seq<ByteCodeView>,
    env: &E,
    this: V,
    frames: Seq<FrameView<V>>,
    locals: Seq<V>,
    x: Seq<FrameView<V>>,
    locals_x: Seq<V>,
    status_x: Status<V>,
    y: Seq<FrameView<V>>,
    locals_y: Seq<V>,
    status_y: Status<V>,
    budget: nat,
)
    requires
        decided::<V, E>(env),
        ran_for(functions, env, this, true, frames, locals, x, locals_x, status_x, budget),
        ran_for(functions, env, this, true, frames, locals, y, locals_y, status_y, budget),
    ensures
        x == y,
        locals_x == locals_y,
        status_x == status_y,
{
    if budget > 0 {
        let n = choose|n: nat|
            1 <= n <= budget && (status_x is Running ==> n == budget) && #[trigger] ran(
                functions,
                env,
                this,
                true,
                frames,
                locals,
                x,
                locals_x,
                status_x,
                n,
            );
        let m = choose|m: nat|
            1 <= m <= budget && (status_y is Running ==> m == budget) && #[trigger] ran(
                functions,
                env,
                this,
                true,
                frames,
                locals,
                y,
                locals_y,
                status_y,
                m,
            );
        if n < m {
            let (v, locals_v) = lemma_ran_before(
                functions,
                env,
                this,
                true,
                frames,
                locals,
                y,
                locals_y,
                status_y,
                m,
                n,
            );
            lemma_ran_decided(
                functions,
                env,
                this,
                frames,
                locals,
                x,
                locals_x,
                status_x,
                v,
                locals_v,
                Status::<V>::Running,
                n,
            );
        } else if m < n {
            let (v, locals_v) = lemma_ran_before(
                functions,
                env,
                this,
                true,
                frames,
                locals,
                x,
                locals_x,
                status_x,
                n,
                m,
            );
            lemma_ran_decided(
                functions,
                env,
                this,
                frames,
                locals,
                y,
                locals_y,
                status_y,
                v,
                locals_v,
                Status::<V>::Running,
                m,
            );
        } else {
            lemma_ran_decided(
                functions,
                env,
                this,
                frames,
                locals,
                x,
                locals_x,
                status_x,
                y,
                locals_y,
                status_y,
                n,
            );
        }
    }
}

/// Under a passive tracer and a host that is `decided`, two calls of one
/// function of a class with the same arguments, on objects with the same
/// variables and with one budget, end the same: with the same variables and
/// the same result.
pub proof fn lemma_call_decided<V: VariantType, E: Environment<V>>(
    class: ClassView,
    name: Seq<char>,
    args: Seq<V>,
    this: V,
    env: &E,
    locals: Seq<V>,
    locals_x: Seq<V>,
    status_x: Status<V>,
    locals_y: Seq<V>,
    status_y: Status<V>,
    budget: nat,
)
    requires
        decided::<V, E>(env),
        invoked(class, name, args, true, this, env, locals, locals_x, status_x, budget),
        invoked(class, name, args, true, this, env, locals, locals_y, status_y, budget),
    ensures
        locals_x == locals_y,
        status_x == status_y,
{
    if accepted(class, name, args.len()) {
        let f = class.names.methods[name];
        let (v, x) = choose|v: FrameView<V>, x: Seq<FrameView<V>>|
            new_frame(class.functions[f as int], f as usize, args, None, v) && #[trigger] ran_for(
                class.functions,
                env,
                this,
                true,
                seq![v],
                locals,
                x,
                locals_x,
                status_x,
                budget,
            );
        let (w, y) = choose|w: FrameView<V>, y: Seq<FrameView<V>>|
            new_frame(class.functions[f as int], f as usize, args, None, w) && #[trigger] ran_for(
                class.functions,
                env,
                this,
                true,
                seq![w],
                locals,
                y,
                locals_y,
                status_y,
                budget,
            );
        lemma_new_frame_decided(env, class.functions[f as int], f as usize, args, None, v, w);
        lemma_run_decided(
            class.functions,
            env,
            this,
            seq![v],
            locals,
            x,
            locals_x,
            status_x,
            y,
            locals_y,
            status_y,
            budget,
        );
    }
}

} // verus!
