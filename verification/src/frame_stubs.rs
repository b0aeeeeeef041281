//! Function entry and exit stubs: the SysV frame-pointer prologue and
//! epilogue, the closure-frame teardown before `ret`, and the interrupt
//! handler (ISR) spill / restore chains that end in `iretq`.
//!
//! Each stub is computed as a plain instruction sequence; a small stack
//! machine gives the sequences a meaning, over which the restore laws are
//! proved.

use vstd::prelude::*;

verus! {

/// The sixteen general-purpose registers, in hardware encoding order.
#[derive(Copy, Clone, Debug, PartialEq, Eq, Hash, Structural)]
pub enum Gpr {
    Rax,
    Rcx,
    Rdx,
    Rbx,
    Rsp,
    Rbp,
    Rsi,
    Rdi,
    R8,
    R9,
    R10,
    R11,
    R12,
    R13,
    R14,
    R15,
}

/// Hardware encoding number of a register.
pub open spec fn gpr_number(r: Gpr) -> u8 {
    match r {
        Gpr::Rax => 0,
        Gpr::Rcx => 1,
        Gpr::Rdx => 2,
        Gpr::Rbx => 3,
        Gpr::Rsp => 4,
        Gpr::Rbp => 5,
        Gpr::Rsi => 6,
        Gpr::Rdi => 7,
        Gpr::R8 => 8,
        Gpr::R9 => 9,
        Gpr::R10 => 10,
        Gpr::R11 => 11,
        Gpr::R12 => 12,
        Gpr::R13 => 13,
        Gpr::R14 => 14,
        Gpr::R15 => 15,
    }
}

impl Gpr {
    /// Hardware encoding number of this register (0 for rax ... 15 for r15).
    pub fn number(&self) -> (r: u8)
        ensures
            r == gpr_number(*self),
    {
        match self {
            Gpr::Rax => 0,
            Gpr::Rcx => 1,
            Gpr::Rdx => 2,
            Gpr::Rbx => 3,
            Gpr::Rsp => 4,
            Gpr::Rbp => 5,
            Gpr::Rsi => 6,
            Gpr::Rdi => 7,
            Gpr::R8 => 8,
            Gpr::R9 => 9,
            Gpr::R10 => 10,
            Gpr::R11 => 11,
            Gpr::R12 => 12,
            Gpr::R13 => 13,
            Gpr::R14 => 14,
            Gpr::R15 => 15,
        }
    }
}

/// The instructions that entry and exit stubs are made of.
#[derive(Copy, Clone, Debug, PartialEq, Eq, Structural)]
pub enum StubInst {
    /// `push reg`
    Push(Gpr),
    /// `pop reg`
    Pop(Gpr),
    /// `cld`: clear the direction flag.
    Cld,
    /// `add reg, imm64`
    AddImm(Gpr, i64),
    /// `mov dst, src`
    MovReg(Gpr, Gpr),
    /// `iretq`: return from interrupt.
    Iretq,
    /// `ret`
    Ret,
}

/// Registers an interrupt handler spills on entry, in push order: the
/// caller-saved registers, then r8-r11, then r12-r15.  `rbx`, `rbp` and
/// `rsp` are left to the handler body.
pub open spec fn isr_spill_order() -> Seq<Gpr> {
    seq![
        Gpr::Rax, Gpr::Rcx, Gpr::Rdx, Gpr::Rsi, Gpr::Rdi,
        Gpr::R8, Gpr::R9, Gpr::R10, Gpr::R11,
        Gpr::R12, Gpr::R13, Gpr::R14, Gpr::R15,
    ]
}

/// One `push` per register, in order.
pub open spec fn pushes(regs: Seq<Gpr>) -> Seq<StubInst> {
    regs.map_values(|r: Gpr| StubInst::Push(r))
}

/// One `pop` per register, in order.
pub open spec fn pops(regs: Seq<Gpr>) -> Seq<StubInst> {
    regs.map_values(|r: Gpr| StubInst::Pop(r))
}

/// The interrupt handler entry stub: spill, then `cld`.
pub open spec fn isr_prologue_spec() -> Seq<StubInst> {
    pushes(isr_spill_order()).push(StubInst::Cld)
}

/// The restore chain of the interrupt handler exit stub: the spilled
/// registers popped in reverse, then the error-code skip when the vector
/// pushed one.
pub open spec fn isr_restore_spec(has_error_code: bool) -> Seq<StubInst> {
    let restore = pops(isr_spill_order().reverse());
    if has_error_code {
        restore.push(StubInst::AddImm(Gpr::Rsp, 8))
    } else {
        restore
    }
}

/// The interrupt handler exit stub: restore chain, then `iretq`.
pub open spec fn isr_epilogue_spec(has_error_code: bool) -> Seq<StubInst> {
    isr_restore_spec(has_error_code).push(StubInst::Iretq)
}

/// The SysV frame-pointer prologue: `push rbp; mov rbp, rsp`.
pub open spec fn frame_prologue_spec() -> Seq<StubInst> {
    seq![StubInst::Push(Gpr::Rbp), StubInst::MovReg(Gpr::Rbp, Gpr::Rsp)]
}

/// The SysV frame-pointer epilogue: `mov rsp, rbp; pop rbp`.
pub open spec fn frame_epilogue_spec() -> Seq<StubInst> {
    seq![StubInst::MovReg(Gpr::Rsp, Gpr::Rbp), StubInst::Pop(Gpr::Rbp)]
}

/// The exit sequence of a function, given what is known about it at its
/// `ret`: the closure-frame teardown when its frame is non-empty, the SysV
/// epilogue when the function has a frame-pointer prologue, and `ret` unless
/// the function is an interrupt handler (whose exit is the `iretq` stub).
pub open spec fn ret_sequence_spec(
    current_function: u32,
    frame_total_size: Option<u64>,
    no_frame: bool,
    frame_prologue_emitted: bool,
    is_interrupt: bool,
) -> Seq<StubInst> {
    let teardown = if current_function != 0 && frame_total_size is Some && frame_total_size->0 > 0 {
        seq![StubInst::AddImm(Gpr::Rsp, frame_total_size->0 as i64)]
    } else {
        Seq::<StubInst>::empty()
    };
    let frame = if current_function != 0 && !no_frame && frame_prologue_emitted {
        frame_epilogue_spec()
    } else {
        Seq::<StubInst>::empty()
    };
    let tail = if is_interrupt {
        Seq::<StubInst>::empty()
    } else {
        seq![StubInst::Ret]
    };
    teardown + frame + tail
}

/// The interrupt handler spill registers, in push order.
pub fn isr_spill_regs() -> (r: Vec<Gpr>)
    ensures
        r@ == isr_spill_order(),
{
    let r = vec![
        Gpr::Rax, Gpr::Rcx, Gpr::Rdx, Gpr::Rsi, Gpr::Rdi,
        Gpr::R8, Gpr::R9, Gpr::R10, Gpr::R11,
        Gpr::R12, Gpr::R13, Gpr::R14, Gpr::R15,
    ];
    assert(r@ =~= isr_spill_order());
    r
}

/// The interrupt handler entry stub for a lambda.  The stub is emitted once
/// per lambda: when it was already emitted, nothing is.
pub fn interrupt_prologue(already_emitted: bool) -> (r: Vec<StubInst>)
    ensures
        already_emitted ==> r@.len() == 0,
        !already_emitted ==> r@ == isr_prologue_spec(),
{
    let mut out: Vec<StubInst> = Vec::new();
    if already_emitted {
        return out;
    }
    let regs = isr_spill_regs();
    let mut i: usize = 0;
    while i < regs.len()
        invariant
            i <= regs@.len(),
            regs@ == isr_spill_order(),
            out@ == pushes(regs@.subrange(0, i as int)),
        decreases regs@.len() - i,
    {
        out.push(StubInst::Push(regs[i]));
        i = i + 1;
        assert(out@ =~= pushes(regs@.subrange(0, i as int)));
    }
    assert(regs@.subrange(0, regs@.len() as int) =~= regs@);
    out.push(StubInst::Cld);
    out
}

/// The interrupt handler exit stub: the spilled registers restored in
/// reverse order, `add rsp, 8` to skip a CPU-pushed error code when the
/// vector has one, and `iretq`.
pub fn interrupt_epilogue(has_error_code: bool) -> (r: Vec<StubInst>)
    ensures
        r@ == isr_epilogue_spec(has_error_code),
{
    let regs = isr_spill_regs();
    let mut out: Vec<StubInst> = Vec::new();
    let mut i: usize = regs.len();
    while i > 0
        invariant
            i <= regs@.len(),
            regs@ == isr_spill_order(),
            out@ == pops(regs@.subrange(i as int, regs@.len() as int).reverse()),
        decreases i,
    {
        i = i - 1;
        out.push(StubInst::Pop(regs[i]));
        assert(regs@.subrange(i as int, regs@.len() as int).reverse() =~= regs@.subrange(
            i + 1,
            regs@.len() as int,
        ).reverse().push(regs@[i as int]));
        assert(out@ =~= pops(regs@.subrange(i as int, regs@.len() as int).reverse()));
    }
    assert(regs@.subrange(0, regs@.len() as int) =~= regs@);
    if has_error_code {
        out.push(StubInst::AddImm(Gpr::Rsp, 8));
    }
    out.push(StubInst::Iretq);
    out
}

/// The frame-pointer prologue injected before the first instruction of a
/// function: `push rbp; mov rbp, rsp` when an enclosing function is being
/// emitted and its prologue is still armed, nothing otherwise.
pub fn frame_prologue_injection(current_function: u32, prologue_armed: bool) -> (r: Vec<StubInst>)
    ensures
        current_function != 0 && prologue_armed ==> r@ == frame_prologue_spec(),
        !(current_function != 0 && prologue_armed) ==> r@.len() == 0,
{
    if current_function != 0 && prologue_armed {
        let r = vec![StubInst::Push(Gpr::Rbp), StubInst::MovReg(Gpr::Rbp, Gpr::Rsp)];
        assert(r@ =~= frame_prologue_spec());
        r
    } else {
        Vec::new()
    }
}

/// The exit sequence emitted at a function's `ret` (see [`ret_sequence_spec`]).
/// `frame_total_size` is the size of the function's closure frame, if it has
/// one.
pub fn ret_sequence(
    current_function: u32,
    frame_total_size: Option<u64>,
    no_frame: bool,
    frame_prologue_emitted: bool,
    is_interrupt: bool,
) -> (r: Vec<StubInst>)
    ensures
        r@ == ret_sequence_spec(
            current_function,
            frame_total_size,
            no_frame,
            frame_prologue_emitted,
            is_interrupt,
        ),
{
    let mut out: Vec<StubInst> = Vec::new();
    if current_function != 0 {
        if let Some(n) = frame_total_size {
            if n > 0 {
                out.push(StubInst::AddImm(Gpr::Rsp, n as i64));
            }
        }
    }
    if current_function != 0 && !no_frame && frame_prologue_emitted {
        out.push(StubInst::MovReg(Gpr::Rsp, Gpr::Rbp));
        out.push(StubInst::Pop(Gpr::Rbp));
    }
    if !is_interrupt {
        out.push(StubInst::Ret);
    }
    assert(out@ =~= ret_sequence_spec(
        current_function,
        frame_total_size,
        no_frame,
        frame_prologue_emitted,
        is_interrupt,
    ));
    out
}

// ---------------------------------------------------------------------------
// A stack machine giving stub sequences their meaning.

/// Machine state: register contents, the stack (top last; its depth stands
/// for `rsp`) and the direction flag.
pub ghost struct Machine {
    pub regs: Map<Gpr, int>,
    pub stack: Seq<int>,
    pub df: bool,
}

/// The value of a register; `rsp` reads as the stack depth.
pub open spec fn read_reg(m: Machine, r: Gpr) -> int {
    if r == Gpr::Rsp {
        m.stack.len() as int
    } else {
        m.regs[r]
    }
}

/// `m` with register `r` set to `v`; writing `rsp` moves the stack top to
/// depth `v` (keeping the slots below it).
pub open spec fn write_reg(m: Machine, r: Gpr, v: int) -> Machine {
    if r == Gpr::Rsp {
        Machine { stack: m.stack.subrange(0, v), ..m }
    } else {
        Machine { regs: m.regs.insert(r, v), ..m }
    }
}

/// One instruction's effect.  `ret` and `iretq` leave the function and are
/// not modelled.
pub open spec fn step(m: Machine, i: StubInst) -> Machine {
    match i {
        StubInst::Push(r) => Machine { stack: m.stack.push(read_reg(m, r)), ..m },
        StubInst::Pop(r) => write_reg(Machine { stack: m.stack.drop_last(), ..m }, r, m.stack.last()),
        StubInst::Cld => Machine { df: false, ..m },
        StubInst::AddImm(r, n) => if r == Gpr::Rsp {
            Machine { stack: m.stack.subrange(0, m.stack.len() - n / 8), ..m }
        } else {
            write_reg(m, r, read_reg(m, r) + n)
        },
        StubInst::MovReg(d, s) => write_reg(m, d, read_reg(m, s)),
        StubInst::Iretq => m,
        StubInst::Ret => m,
    }
}

/// The effect of running `insts` in order.
pub open spec fn run(m: Machine, insts: Seq<StubInst>) -> Machine
    decreases insts.len(),
{
    if insts.len() == 0 {
        m
    } else {
        step(run(m, insts.drop_last()), insts.last())
    }
}

proof fn lemma_run_append(m: Machine, a: Seq<StubInst>, b: Seq<StubInst>)
    ensures
        run(m, a + b) == run(run(m, a), b),
    decreases b.len(),
{
    if b.len() == 0 {
        assert(a + b =~= a);
    } else {
        assert((a + b).drop_last() =~= a + b.drop_last());
        lemma_run_append(m, a, b.drop_last());
    }
}

/// Pushing a list of registers (none of them `rsp`) puts their values on
/// the stack in order and changes nothing else.
proof fn lemma_run_pushes(m: Machine, regs: Seq<Gpr>)
    requires
        !regs.contains(Gpr::Rsp),
    ensures
        run(m, pushes(regs)) == (Machine {
            stack: m.stack + regs.map_values(|r: Gpr| m.regs[r]),
            ..m
        }),
    decreases regs.len(),
{
    if regs.len() == 0 {
        assert(m.stack + regs.map_values(|r: Gpr| m.regs[r]) =~= m.stack);
        assert(run(m, pushes(regs)) == m);
    } else {
        let rest = regs.drop_last();
        assert(!rest.contains(Gpr::Rsp)) by {
            if rest.contains(Gpr::Rsp) {
                let k = choose|k: int| 0 <= k < rest.len() && rest[k] == Gpr::Rsp;
                assert(regs[k] == Gpr::Rsp);
            }
        }
        assert(pushes(regs).drop_last() =~= pushes(rest));
        lemma_run_pushes(m, rest);
        assert(regs[regs.len() - 1] != Gpr::Rsp);
        assert(m.stack + regs.map_values(|r: Gpr| m.regs[r]) =~= (m.stack + rest.map_values(
            |r: Gpr| m.regs[r],
        )).push(m.regs[regs.last()]));
    }
}

/// Popping a list of distinct registers (none of them `rsp`) off a stack
/// that ends with their values in reverse order restores them.
proof fn lemma_run_pops(m: Machine, base: Seq<int>, regs: Seq<Gpr>, vals: Map<Gpr, int>)
    requires
        !regs.contains(Gpr::Rsp),
        regs.no_duplicates(),
        m.stack == base + regs.reverse().map_values(|r: Gpr| vals[r]),
    ensures
        run(m, pops(regs)).stack == base,
        run(m, pops(regs)).df == m.df,
        forall|r: Gpr| regs.contains(r) ==> run(m, pops(regs)).regs[r] == vals[r],
        forall|r: Gpr| !regs.contains(r) ==> run(m, pops(regs)).regs[r] == m.regs[r],
    decreases regs.len(),
{
    if regs.len() > 0 {
        let rest = regs.drop_last();
        let last = regs.last();
        assert(!rest.contains(Gpr::Rsp)) by {
            if rest.contains(Gpr::Rsp) {
                let k = choose|k: int| 0 <= k < rest.len() && rest[k] == Gpr::Rsp;
                assert(regs[k] == Gpr::Rsp);
            }
        }
        assert(regs.reverse() =~= seq![last] + rest.reverse());
        assert(m.stack =~= (base + seq![vals[last]]) + rest.reverse().map_values(|r: Gpr| vals[r]));
        assert(pops(regs).drop_last() =~= pops(rest));
        lemma_run_pops(m, base + seq![vals[last]], rest, vals);
        assert(!rest.contains(last)) by {
            if rest.contains(last) {
                let k = choose|k: int| 0 <= k < rest.len() && rest[k] == last;
                assert(regs[k] == regs[regs.len() - 1]);
            }
        }
        assert(last != Gpr::Rsp);
        let mid = run(m, pops(rest));
        assert((base + seq![vals[last]]).drop_last() =~= base);
        assert forall|r: Gpr| regs.contains(r) implies run(m, pops(regs)).regs[r] == vals[r] by {
            if r != last {
                let k = choose|k: int| 0 <= k < regs.len() && regs[k] == r;
                assert(rest[k] == r);
            }
        }
        assert forall|r: Gpr| !regs.contains(r) implies run(m, pops(regs)).regs[r] == m.regs[r] by {
            assert(!rest.contains(r)) by {
                if rest.contains(r) {
                    let k = choose|k: int| 0 <= k < rest.len() && rest[k] == r;
                    assert(regs[k] == r);
                }
            }
        }
    } else {
        assert(base + regs.reverse().map_values(|r: Gpr| vals[r]) =~= base);
    }
}

/// The interrupt exit stub undoes the entry stub: run back to back (with no
/// body between, or a body that leaves registers and stack as it found
/// them), every register and the stack are as the interrupted code left
/// them; when the vector pushed an error code, it is dropped too.  Only the
/// direction flag differs: it is clear.
pub proof fn lemma_isr_epilogue_restores(m: Machine, has_error_code: bool, error_code: int)
    ensures
        ({
            let entry = if has_error_code {
                Machine { stack: m.stack.push(error_code), ..m }
            } else {
                m
            };
            let out = run(entry, isr_prologue_spec() + isr_restore_spec(has_error_code));
            &&& out.stack == m.stack
            &&& out.df == false
            &&& forall|r: Gpr| r != Gpr::Rsp ==> #[trigger] out.regs[r] == m.regs[r]
        }),
{
    let entry = if has_error_code {
        Machine { stack: m.stack.push(error_code), ..m }
    } else {
        m
    };
    let spill = isr_spill_order();
    assert(!spill.contains(Gpr::Rsp)) by {
        if spill.contains(Gpr::Rsp) {
            let k = choose|k: int| 0 <= k < spill.len() && spill[k] == Gpr::Rsp;
            assert(0 <= k < 13);
        }
    }
    assert(spill.no_duplicates());
    lemma_run_pushes(entry, spill);
    let pushed = run(entry, pushes(spill));
    let after_cld = run(entry, isr_prologue_spec());
    assert(isr_prologue_spec().drop_last() =~= pushes(spill));
    assert(after_cld == Machine { df: false, ..pushed });
    let rev = spill.reverse();
    assert(!rev.contains(Gpr::Rsp)) by {
        if rev.contains(Gpr::Rsp) {
            let k = choose|k: int| 0 <= k < rev.len() && rev[k] == Gpr::Rsp;
            assert(spill[spill.len() - 1 - k] == Gpr::Rsp);
        }
    }
    assert(rev.no_duplicates()) by {
        assert forall|i: int, j: int| 0 <= i < rev.len() && 0 <= j < rev.len() && i != j implies rev[i]
            != rev[j] by {
            assert(rev[i] == spill[spill.len() - 1 - i]);
            assert(rev[j] == spill[spill.len() - 1 - j]);
        }
    }
    assert(rev.reverse() =~= spill);
    let restored = run(after_cld, pops(rev));
    lemma_run_pops(after_cld, entry.stack, rev, m.regs);
    lemma_run_append(entry, isr_prologue_spec(), pops(rev));
    if has_error_code {
        let full = pops(rev).push(StubInst::AddImm(Gpr::Rsp, 8));
        assert(isr_restore_spec(true) == full);
        lemma_run_append(entry, isr_prologue_spec(), full);
        assert(full.drop_last() =~= pops(rev));
        assert(restored.stack == m.stack.push(error_code));
        assert(m.stack.push(error_code).subrange(0, m.stack.len() as int) =~= m.stack);
    }
    assert forall|r: Gpr| r != Gpr::Rsp implies #[trigger] restored.regs[r] == m.regs[r] by {
        if !rev.contains(r) {
            assert(after_cld.regs == m.regs);
        }
    }
}

/// The SysV epilogue undoes the prologue: whatever a body pushes above the
/// saved frame pointer, provided it leaves `rbp` and the frame below it as
/// the prologue set them, `mov rsp, rbp; pop rbp` brings the stack and
/// `rbp` back to their values at entry.
pub proof fn lemma_frame_epilogue_restores(entry: Machine, body_end: Machine)
    requires
        ({
            let framed = run(entry, frame_prologue_spec());
            &&& body_end.regs[Gpr::Rbp] == framed.regs[Gpr::Rbp]
            &&& body_end.stack.len() >= framed.stack.len()
            &&& body_end.stack.subrange(0, framed.stack.len() as int) == framed.stack
        }),
    ensures
        run(body_end, frame_epilogue_spec()).stack == entry.stack,
        run(body_end, frame_epilogue_spec()).regs[Gpr::Rbp] == entry.regs[Gpr::Rbp],
{
    let framed = run(entry, frame_prologue_spec());
    let push_rbp = seq![StubInst::Push(Gpr::Rbp)];
    assert(frame_prologue_spec().drop_last() =~= push_rbp);
    assert(push_rbp.drop_last() =~= Seq::<StubInst>::empty());
    assert(run(entry, Seq::<StubInst>::empty()) == entry);
    let pushed = run(entry, push_rbp);
    assert(pushed == step(entry, StubInst::Push(Gpr::Rbp)));
    assert(pushed.stack == entry.stack.push(entry.regs[Gpr::Rbp]));
    assert(framed == step(pushed, StubInst::MovReg(Gpr::Rbp, Gpr::Rsp)));
    assert(framed.stack == pushed.stack);
    assert(framed.regs[Gpr::Rbp] == pushed.stack.len());
    let mov_back = seq![StubInst::MovReg(Gpr::Rsp, Gpr::Rbp)];
    assert(frame_epilogue_spec().drop_last() =~= mov_back);
    assert(mov_back.drop_last() =~= Seq::<StubInst>::empty());
    assert(run(body_end, Seq::<StubInst>::empty()) == body_end);
    let reset = run(body_end, mov_back);
    assert(reset == step(body_end, StubInst::MovReg(Gpr::Rsp, Gpr::Rbp)));
    assert(reset.stack =~= framed.stack);
    assert(reset.regs == body_end.regs);
    assert(run(body_end, frame_epilogue_spec()) == step(reset, StubInst::Pop(Gpr::Rbp)));
    assert(framed.stack.drop_last() =~= entry.stack);
}

/// A function with a non-empty closure frame tears it down first on
/// return: its exit sequence begins with `add rsp, N` for the frame's size
/// `N`, whether or not it is `@no_frame`, has a frame-pointer prologue or is
/// an interrupt handler.
pub proof fn lemma_ret_tears_down_closure_frame(
    current_function: u32,
    n: u64,
    no_frame: bool,
    frame_prologue_emitted: bool,
    is_interrupt: bool,
)
    requires
        current_function != 0,
        n > 0,
    ensures
        ({
            let exit = ret_sequence_spec(current_function, Some(n), no_frame, frame_prologue_emitted, is_interrupt);
            exit.len() >= 1 && exit[0] == StubInst::AddImm(Gpr::Rsp, n as i64)
        }),
{
}

/// The exit of an `@no_frame` function with an `N`-byte closure frame (`N`
/// a positive multiple of 8) returns the stack to its depth at entry: when
/// the frame's `N / 8` slots sit on top of the entry stack at the `ret`, the
/// exit sequence pops exactly them.
pub proof fn lemma_no_frame_ret_restores_stack(
    entry: Seq<int>,
    at_ret: Machine,
    current_function: u32,
    n: u64,
    frame_prologue_emitted: bool,
    is_interrupt: bool,
)
    requires
        current_function != 0,
        0 < n <= i64::MAX,
        n % 8 == 0,
        at_ret.stack.len() == entry.len() + n / 8,
        at_ret.stack.subrange(0, entry.len() as int) == entry,
    ensures
        run(at_ret, ret_sequence_spec(current_function, Some(n), true, frame_prologue_emitted, is_interrupt)).stack
            == entry,
{
    let exit = ret_sequence_spec(current_function, Some(n), true, frame_prologue_emitted, is_interrupt);
    let add = seq![StubInst::AddImm(Gpr::Rsp, n as i64)];
    assert((n as i64) as int == n as int);
    assert(add.drop_last() =~= Seq::<StubInst>::empty());
    assert(run(at_ret, Seq::<StubInst>::empty()) == at_ret);
    let torn = run(at_ret, add);
    assert(torn == step(at_ret, StubInst::AddImm(Gpr::Rsp, n as i64)));
    assert(torn.stack =~= entry);
    if is_interrupt {
        assert(exit =~= add);
    } else {
        assert(exit =~= add.push(StubInst::Ret));
        assert(exit.drop_last() =~= add);
    }
}

} // verus!
