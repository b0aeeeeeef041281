//! Emission bookkeeping of the emit walk: the order in which instructions
//! are emitted, which function owns each, each function's entry
//! instruction, the running text offset, and the once-per-function stubs
//! (frame-pointer prologue, interrupt entry and exit).

use vstd::hash_map::HashMapWithView;
use vstd::prelude::*;

use crate::frame_stubs::{
    frame_prologue_injection, frame_prologue_spec, interrupt_epilogue, interrupt_prologue,
    isr_epilogue_spec, isr_prologue_spec, ret_sequence_spec, Gpr, StubInst,
};

verus! {

broadcast use vstd::std_specs::hash::group_hash_axioms;

/// Emission bookkeeping (see the module documentation).
pub struct EmitLedger {
    /// Order stamped on the next emitted instruction.
    pub next_emission_order: u32,
    /// Estimated byte offset of the next instruction in `.text`.
    pub estimated_offset: u64,
    /// Function whose entry is the next emitted instruction, if armed.
    pub pending_first_instr: Option<u32>,
    /// Entry instruction of each function.
    pub lambda_first_instr: HashMapWithView<u32, u32>,
    /// Functions that emitted code.
    pub emitted_lambdas: HashMapWithView<u32, ()>,
    /// Owning function of each emitted instruction.
    pub instr_to_lambda: HashMapWithView<u32, u32>,
    /// Emission order of each emitted instruction.
    pub instr_order: HashMapWithView<u32, u32>,
    /// Functions whose frame-pointer prologue is armed (not yet emitted).
    pub pending_frame_prologue: HashMapWithView<u32, ()>,
    /// Functions whose frame-pointer prologue was emitted.
    pub frame_prologue_emitted: HashMapWithView<u32, ()>,
    /// Interrupt handlers whose entry stub was emitted.
    pub interrupt_prologue_emitted: HashMapWithView<u32, ()>,
    /// Interrupt handlers whose exit stub was emitted.
    pub interrupt_epilogue_emitted: HashMapWithView<u32, ()>,
}

/// Mathematical value of an [`EmitLedger`]: its fields, the tables as maps.
pub ghost struct LedgerView {
    pub next_emission_order: u32,
    pub estimated_offset: u64,
    pub pending_first_instr: Option<u32>,
    pub lambda_first_instr: Map<u32, u32>,
    pub emitted_lambdas: Map<u32, ()>,
    pub instr_to_lambda: Map<u32, u32>,
    pub instr_order: Map<u32, u32>,
    pub pending_frame_prologue: Map<u32, ()>,
    pub frame_prologue_emitted: Map<u32, ()>,
    pub interrupt_prologue_emitted: Map<u32, ()>,
    pub interrupt_epilogue_emitted: Map<u32, ()>,
}

impl View for EmitLedger {
    type V = LedgerView;

    open spec fn view(&self) -> LedgerView {
        LedgerView {
            next_emission_order: self.next_emission_order,
            estimated_offset: self.estimated_offset,
            pending_first_instr: self.pending_first_instr,
            lambda_first_instr: self.lambda_first_instr@,
            emitted_lambdas: self.emitted_lambdas@,
            instr_to_lambda: self.instr_to_lambda@,
            instr_order: self.instr_order@,
            pending_frame_prologue: self.pending_frame_prologue@,
            frame_prologue_emitted: self.frame_prologue_emitted@,
            interrupt_prologue_emitted: self.interrupt_prologue_emitted@,
            interrupt_epilogue_emitted: self.interrupt_epilogue_emitted@,
        }
    }
}

/// The ledger after recording instruction `node` of `bytes` bytes in
/// function `f`: it gets the next emission order, is owned by `f`, becomes
/// the entry of an armed function (which is marked as having emitted code),
/// and advances the text offset; nothing else changes.
pub open spec fn record_inst_spec(l: LedgerView, node: u32, f: u32, bytes: u64) -> LedgerView {
    LedgerView {
        next_emission_order: (l.next_emission_order + 1) as u32,
        estimated_offset: (l.estimated_offset + bytes) as u64,
        pending_first_instr: None,
        lambda_first_instr: match l.pending_first_instr {
            Some(p) => l.lambda_first_instr.insert(p, node),
            None => l.lambda_first_instr,
        },
        emitted_lambdas: match l.pending_first_instr {
            Some(p) => l.emitted_lambdas.insert(p, ()),
            None => l.emitted_lambdas,
        },
        instr_to_lambda: l.instr_to_lambda.insert(node, f),
        instr_order: l.instr_order.insert(node, l.next_emission_order),
        ..l
    }
}

/// The frame-pointer prologue that emitting an instruction of `f` injects:
/// `push rbp; mov rbp, rsp` when `f`'s prologue is armed, nothing otherwise.
pub open spec fn injected_prologue(l: LedgerView, f: u32) -> Seq<StubInst> {
    if prologue_armed(l, f) {
        frame_prologue_spec()
    } else {
        Seq::<StubInst>::empty()
    }
}

/// The ledger after emitting instruction `node` of `bytes` bytes in function
/// `f`.  When `f`'s frame-pointer prologue is armed, the prologue is marked
/// emitted, its `push rbp` (`push_id`, `push_bytes` bytes) and `mov rbp, rsp`
/// (`mov_id`, `mov_bytes` bytes) are recorded first, and `f`'s entry is
/// pinned to the `push rbp`; then `node` is recorded.
pub open spec fn emit_inst_spec(
    l: LedgerView,
    node: u32,
    f: u32,
    bytes: u64,
    push_id: u32,
    push_bytes: u64,
    mov_id: u32,
    mov_bytes: u64,
) -> LedgerView {
    if prologue_armed(l, f) {
        let marked = LedgerView {
            pending_frame_prologue: l.pending_frame_prologue.remove(f),
            frame_prologue_emitted: l.frame_prologue_emitted.insert(f, ()),
            ..l
        };
        let pushed = record_inst_spec(marked, push_id, f, push_bytes);
        let moved = record_inst_spec(pushed, mov_id, f, mov_bytes);
        let pinned = LedgerView { lambda_first_instr: moved.lambda_first_instr.insert(f, push_id), ..moved };
        record_inst_spec(pinned, node, f, bytes)
    } else {
        record_inst_spec(l, node, f, bytes)
    }
}

/// Function `f`'s frame-pointer prologue is armed.
pub open spec fn prologue_armed(l: LedgerView, f: u32) -> bool {
    f != 0 && l.pending_frame_prologue.contains_key(f)
}

/// Every recorded emission order is below the next one.
pub open spec fn orders_below_next(l: LedgerView) -> bool {
    forall|k: u32| #[trigger] l.instr_order.contains_key(k) ==> l.instr_order[k] < l.next_emission_order
}

impl EmitLedger {
    /// Nothing emitted yet.
    pub fn new() -> (r: Self)
        ensures
            r@ == (LedgerView {
                next_emission_order: 0,
                estimated_offset: 0,
                pending_first_instr: None,
                lambda_first_instr: Map::empty(),
                emitted_lambdas: Map::empty(),
                instr_to_lambda: Map::empty(),
                instr_order: Map::empty(),
                pending_frame_prologue: Map::empty(),
                frame_prologue_emitted: Map::empty(),
                interrupt_prologue_emitted: Map::empty(),
                interrupt_epilogue_emitted: Map::empty(),
            }),
    {
        let r = EmitLedger {
            next_emission_order: 0,
            estimated_offset: 0,
            pending_first_instr: None,
            lambda_first_instr: HashMapWithView::new(),
            emitted_lambdas: HashMapWithView::new(),
            instr_to_lambda: HashMapWithView::new(),
            instr_order: HashMapWithView::new(),
            pending_frame_prologue: HashMapWithView::new(),
            frame_prologue_emitted: HashMapWithView::new(),
            interrupt_prologue_emitted: HashMapWithView::new(),
            interrupt_epilogue_emitted: HashMapWithView::new(),
        };
        r
    }

    /// Record the emission of instruction `node` of `bytes` bytes in
    /// function `current_function` (see [`record_inst_spec`]).  Returns its
    /// emission order.
    pub fn record_inst(&mut self, node: u32, current_function: u32, bytes: u64) -> (order: u32)
        requires
            old(self).next_emission_order < u32::MAX,
            old(self).estimated_offset + bytes <= u64::MAX,
        ensures
            order == old(self).next_emission_order,
            final(self)@ == record_inst_spec(old(self)@, node, current_function, bytes),
    {
        let order = self.next_emission_order;
        self.next_emission_order = order + 1;
        self.instr_to_lambda.insert(node, current_function);
        self.instr_order.insert(node, order);
        if let Some(l) = self.pending_first_instr {
            self.lambda_first_instr.insert(l, node);
            self.emitted_lambdas.insert(l, ());
        }
        self.pending_first_instr = None;
        self.estimated_offset = self.estimated_offset + bytes;
        order
    }

    /// Emit instruction `node` of `bytes` bytes in function
    /// `current_function`, preceded by the function's frame-pointer prologue
    /// when it is armed.  The prologue's `push rbp` and `mov rbp, rsp` are
    /// recorded as `push_id` (`push_bytes` bytes) and `mov_id` (`mov_bytes`
    /// bytes), the prologue is marked emitted, and the function's entry is
    /// pinned to the `push rbp` so that its symbol starts at the prologue.
    /// Returns the prologue instructions emitted (none when it is not armed).
    pub fn emit_inst(
        &mut self,
        node: u32,
        current_function: u32,
        bytes: u64,
        push_id: u32,
        push_bytes: u64,
        mov_id: u32,
        mov_bytes: u64,
    ) -> (r: Vec<StubInst>)
        requires
            prologue_armed(old(self)@, current_function) ==> old(self).next_emission_order + 3 <= u32::MAX
                && old(self).estimated_offset + push_bytes + mov_bytes + bytes <= u64::MAX,
            !prologue_armed(old(self)@, current_function) ==> old(self).next_emission_order < u32::MAX
                && old(self).estimated_offset + bytes <= u64::MAX,
        ensures
            final(self)@ == emit_inst_spec(old(self)@, node, current_function, bytes, push_id, push_bytes, mov_id, mov_bytes),
            r@ == injected_prologue(old(self)@, current_function),
    {
        let prologue = self.take_frame_prologue(current_function);
        if prologue.len() > 0 {
            self.record_inst(push_id, current_function, push_bytes);
            self.record_inst(mov_id, current_function, mov_bytes);
            self.lambda_first_instr.insert(current_function, push_id);
        }
        self.record_inst(node, current_function, bytes);
        prologue
    }

    /// Emit the exit sequence at a `ret` of function `current_function`
    /// (see [`emit_ret_spec`]): `add rsp, N` when the function's closure
    /// frame has a non-zero size `N`, `mov rsp, rbp; pop rbp` when the
    /// function is not `@no_frame` and its frame-pointer prologue has been
    /// emitted, and `ret` unless the function is an interrupt handler.  Each
    /// goes through [`EmitLedger::emit_inst`], so an armed prologue is
    /// injected before the first.  `ids[k]` and `sizes[k]` stand for the
    /// `add`, `mov`, `pop` and `ret` in turn (those not emitted are unused).
    /// Returns the instructions emitted, in order.
    pub fn emit_ret(
        &mut self,
        current_function: u32,
        frame_total_size: Option<u64>,
        no_frame: bool,
        is_interrupt: bool,
        ids: &Vec<u32>,
        sizes: &Vec<u64>,
        push_id: u32,
        push_bytes: u64,
        mov_id: u32,
        mov_bytes: u64,
    ) -> (r: Vec<StubInst>)
        requires
            ids@.len() == 4,
            sizes@.len() == 4,
            old(self).next_emission_order + 6 <= u32::MAX,
            old(self).estimated_offset + push_bytes + mov_bytes + sizes@[0] + sizes@[1] + sizes@[2] + sizes@[3]
                <= u64::MAX,
        ensures
            ({
                let (l, out) = emit_ret_spec(
                    old(self)@,
                    current_function,
                    frame_total_size,
                    no_frame,
                    is_interrupt,
                    ids@,
                    sizes@,
                    push_id,
                    push_bytes,
                    mov_id,
                    mov_bytes,
                );
                final(self)@ == l && r@ == out
            }),
    {
        let f = current_function;
        let ghost l0 = self@;
        let ghost base = self.estimated_offset;
        let ghost ord = self.next_emission_order;
        let mut out: Vec<StubInst> = Vec::new();
        let mut has_add = false;
        let mut n: u64 = 0;
        if f != 0 {
            if let Some(total) = frame_total_size {
                if total > 0 {
                    has_add = true;
                    n = total;
                }
            }
        }
        if has_add {
            let mut pro = self.emit_inst(ids[0], f, sizes[0], push_id, push_bytes, mov_id, mov_bytes);
            out.append(&mut pro);
            out.push(StubInst::AddImm(Gpr::Rsp, n as i64));
        }
        let ghost l1 = self@;
        assert(self.next_emission_order <= ord + 3);
        assert(self.estimated_offset <= base + push_bytes + mov_bytes + sizes@[0]);
        if f != 0 && !no_frame && self.frame_prologue_emitted.contains_key(&f) {
            let mut pro = self.emit_inst(ids[1], f, sizes[1], push_id, push_bytes, mov_id, mov_bytes);
            out.append(&mut pro);
            out.push(StubInst::MovReg(Gpr::Rsp, Gpr::Rbp));
            assert(!prologue_armed(self@, f) || !has_add);
            let mut pro = self.emit_inst(ids[2], f, sizes[2], push_id, push_bytes, mov_id, mov_bytes);
            out.append(&mut pro);
            out.push(StubInst::Pop(Gpr::Rbp));
        }
        assert(self.next_emission_order <= ord + 5);
        if !is_interrupt {
            let mut pro = self.emit_inst(ids[3], f, sizes[3], push_id, push_bytes, mov_id, mov_bytes);
            out.append(&mut pro);
            out.push(StubInst::Ret);
        }
        out
    }

    /// Record the instructions `ids` (of sizes `sizes`) in order, all owned
    /// by function `f` (see [`record_all`]).
    pub fn record_stubs(&mut self, f: u32, ids: &Vec<u32>, sizes: &Vec<u64>)
        requires
            ids@.len() == sizes@.len(),
            old(self).next_emission_order + ids@.len() <= u32::MAX,
            old(self).estimated_offset + total_bytes(sizes@) <= u64::MAX,
        ensures
            final(self)@ == record_all(old(self)@, f, ids@, sizes@),
    {
        let ghost start = self@;
        let mut k: usize = 0;
        while k < ids.len()
            invariant
                ids@.len() == sizes@.len(),
                k <= ids@.len(),
                start.next_emission_order + ids@.len() <= u32::MAX,
                start.estimated_offset + total_bytes(sizes@) <= u64::MAX,
                self@ == record_all(start, f, ids@.subrange(0, k as int), sizes@.subrange(0, k as int)),
            decreases ids@.len() - k,
        {
            proof {
                lemma_total_bytes_prefix(sizes@, k as int);
                lemma_total_bytes_prefix(sizes@, k + 1);
                lemma_record_all_counters(start, f, ids@.subrange(0, k as int), sizes@.subrange(0, k as int));
                assert(sizes@.subrange(0, k + 1).drop_last() =~= sizes@.subrange(0, k as int));
                assert(sizes@.subrange(0, k + 1).last() == sizes@[k as int]);
            }
            self.record_inst(ids[k], f, sizes[k]);
            proof {
                assert(ids@.subrange(0, k + 1).drop_last() =~= ids@.subrange(0, k as int));
                assert(sizes@.subrange(0, k + 1).drop_last() =~= sizes@.subrange(0, k as int));
            }
            k = k + 1;
        }
        assert(ids@.subrange(0, ids@.len() as int) =~= ids@);
        assert(sizes@.subrange(0, sizes@.len() as int) =~= sizes@);
    }

    /// Emit the interrupt entry stub of handler `lambda` (the first time
    /// only): its fourteen instructions are recorded as `ids` (of sizes
    /// `sizes`), owned by the handler, and the handler's entry is its first
    /// `push` unless an entry was recorded before.  Returns the stub emitted.
    pub fn emit_interrupt_entry(&mut self, lambda: u32, ids: &Vec<u32>, sizes: &Vec<u64>) -> (r: Vec<StubInst>)
        requires
            ids@.len() == 14,
            sizes@.len() == 14,
            old(self).next_emission_order + 14 <= u32::MAX,
            old(self).estimated_offset + total_bytes(sizes@) <= u64::MAX,
        ensures
            ({
                let l = old(self)@;
                if l.interrupt_prologue_emitted.contains_key(lambda) {
                    &&& r@.len() == 0
                    &&& final(self)@ == l
                } else {
                    let marked = LedgerView {
                        interrupt_prologue_emitted: l.interrupt_prologue_emitted.insert(lambda, ()),
                        ..l
                    };
                    let recorded = record_all(marked, lambda, ids@, sizes@);
                    &&& r@ == isr_prologue_spec()
                    &&& final(self)@ == (LedgerView {
                        lambda_first_instr: if recorded.lambda_first_instr.contains_key(lambda) {
                            recorded.lambda_first_instr
                        } else {
                            recorded.lambda_first_instr.insert(lambda, ids@[0])
                        },
                        emitted_lambdas: recorded.emitted_lambdas.insert(lambda, ()),
                        ..recorded
                    })
                }
            }),
    {
        if self.interrupt_prologue_emitted.contains_key(&lambda) {
            return Vec::new();
        }
        let stub = self.begin_interrupt_prologue(lambda);
        self.record_stubs(lambda, ids, sizes);
        self.record_lambda_entry(lambda, ids[0]);
        stub
    }

    /// Emit the interrupt exit stub of handler `lambda`: its instructions
    /// (fourteen, or fifteen with the error-code skip) are recorded as `ids`
    /// (of sizes `sizes`), owned by the handler.  Returns the stub emitted.
    pub fn emit_interrupt_exit(&mut self, lambda: u32, has_error_code: bool, ids: &Vec<u32>, sizes: &Vec<u64>) -> (r: Vec<StubInst>)
        requires
            ids@.len() == isr_epilogue_spec(has_error_code).len(),
            sizes@.len() == ids@.len(),
            old(self).next_emission_order + ids@.len() <= u32::MAX,
            old(self).estimated_offset + total_bytes(sizes@) <= u64::MAX,
        ensures
            r@ == isr_epilogue_spec(has_error_code),
            final(self)@ == record_all(old(self)@, lambda, ids@, sizes@),
    {
        let stub = interrupt_epilogue(has_error_code);
        self.record_stubs(lambda, ids, sizes);
        stub
    }

    /// Emit the exit stub of every interrupt handler of `handlers` (lambda,
    /// error-code flag) whose exit stub is still to be emitted, in order,
    /// each owned by its handler (see [`exits_upto`]): handler `i`'s stub is
    /// recorded as `ids[i]` (of sizes `sizes[i]`).  All of `handlers` are
    /// marked done.  Returns the handlers whose stub was emitted.
    pub fn emit_interrupt_epilogues(
        &mut self,
        handlers: &Vec<(u32, bool)>,
        ids: &Vec<Vec<u32>>,
        sizes: &Vec<Vec<u64>>,
    ) -> (r: Vec<(u32, bool)>)
        requires
            ids@.len() == handlers@.len(),
            sizes@.len() == handlers@.len(),
            forall|i: int|
                0 <= i < handlers@.len() ==> #[trigger] ids@[i]@.len() == isr_epilogue_spec(handlers@[i].1).len()
                    && sizes@[i]@.len() == ids@[i]@.len(),
            old(self).next_emission_order + 15 * handlers@.len() <= u32::MAX,
            old(self).estimated_offset + stubs_bytes(sizes@, handlers@.len()) <= u64::MAX,
        ensures
            r@ == handlers@.filter(|h: (u32, bool)| !old(self)@.interrupt_epilogue_emitted.contains_key(h.0)),
            final(self)@ == (LedgerView {
                interrupt_epilogue_emitted: epilogues_marked(old(self)@.interrupt_epilogue_emitted, handlers@),
                ..exits_upto(
                    old(self)@,
                    old(self)@.interrupt_epilogue_emitted,
                    handlers@,
                    ids@,
                    sizes@,
                    handlers@.len(),
                )
            }),
    {
        let ghost start = self@;
        let ghost done = start.interrupt_epilogue_emitted;
        let mut i: usize = 0;
        while i < handlers.len()
            invariant
                i <= handlers@.len(),
                ids@.len() == handlers@.len(),
                sizes@.len() == handlers@.len(),
                forall|j: int|
                    0 <= j < handlers@.len() ==> #[trigger] ids@[j]@.len() == isr_epilogue_spec(handlers@[j].1).len()
                        && sizes@[j]@.len() == ids@[j]@.len(),
                start.next_emission_order + 15 * handlers@.len() <= u32::MAX,
                start.estimated_offset + stubs_bytes(sizes@, handlers@.len()) <= u64::MAX,
                self@ == exits_upto(start, done, handlers@, ids@, sizes@, i as nat),
                self@.interrupt_epilogue_emitted == done,
                self.next_emission_order <= start.next_emission_order + 15 * i,
                self.estimated_offset <= start.estimated_offset + stubs_bytes(sizes@, i as nat),
            decreases handlers@.len() - i,
        {
            let h = handlers[i];
            proof {
                lemma_stubs_bytes_mono(sizes@, (i + 1) as nat, handlers@.len());
                assert(ids@[i as int]@.len() <= 15);
            }
            if !self.interrupt_epilogue_emitted.contains_key(&h.0) {
                let ghost prev = self@;
                self.emit_interrupt_exit(h.0, h.1, &ids[i], &sizes[i]);
                proof {
                    lemma_record_all_counters(prev, h.0, ids@[i as int]@, sizes@[i as int]@);
                }
            }
            i = i + 1;
        }
        self.take_pending_epilogues(handlers)
    }

    /// Record `first` as the entry instruction of `lambda` unless it already
    /// has one, and mark the function as having emitted code.
    pub fn record_lambda_entry(&mut self, lambda: u32, first: u32)
        ensures
            final(self)@ == (LedgerView {
                lambda_first_instr: if old(self)@.lambda_first_instr.contains_key(lambda) {
                    old(self)@.lambda_first_instr
                } else {
                    old(self)@.lambda_first_instr.insert(lambda, first)
                },
                emitted_lambdas: old(self)@.emitted_lambdas.insert(lambda, ()),
                ..old(self)@
            }),
    {
        if !self.lambda_first_instr.contains_key(&lambda) {
            self.lambda_first_instr.insert(lambda, first);
        }
        self.emitted_lambdas.insert(lambda, ());
    }

    /// Arm the next emitted instruction as the entry of `lambda`.
    pub fn arm_first_instr(&mut self, lambda: u32)
        ensures
            final(self)@ == (LedgerView { pending_first_instr: Some(lambda), ..old(self)@ }),
    {
        self.pending_first_instr = Some(lambda);
    }

    /// Arm the frame-pointer prologue of function `f`: it is emitted before
    /// the function's first instruction.
    pub fn arm_frame_prologue(&mut self, f: u32)
        ensures
            final(self)@ == (LedgerView {
                pending_frame_prologue: old(self)@.pending_frame_prologue.insert(f, ()),
                ..old(self)@
            }),
    {
        self.pending_frame_prologue.insert(f, ());
    }

    /// The frame-pointer prologue due before the next instruction of
    /// `current_function`: `push rbp; mov rbp, rsp` when the function's
    /// prologue is armed, consuming the arm and marking it emitted; nothing
    /// otherwise (and nothing outside a function).
    pub fn take_frame_prologue(&mut self, current_function: u32) -> (r: Vec<StubInst>)
        ensures
            prologue_armed(old(self)@, current_function) ==> r@ == frame_prologue_spec()
                && final(self)@ == (LedgerView {
                pending_frame_prologue: old(self)@.pending_frame_prologue.remove(current_function),
                frame_prologue_emitted: old(self)@.frame_prologue_emitted.insert(current_function, ()),
                ..old(self)@
            }),
            !prologue_armed(old(self)@, current_function) ==> r@.len() == 0 && final(self)@ == old(self)@,
    {
        let armed = current_function != 0 && self.pending_frame_prologue.contains_key(&current_function);
        if armed {
            self.pending_frame_prologue.remove(&current_function);
            self.frame_prologue_emitted.insert(current_function, ());
        }
        frame_prologue_injection(current_function, armed)
    }

    /// The interrupt entry stub of handler `lambda`: the spill chain and
    /// `cld` the first time, nothing after.
    pub fn begin_interrupt_prologue(&mut self, lambda: u32) -> (r: Vec<StubInst>)
        ensures
            old(self)@.interrupt_prologue_emitted.contains_key(lambda) ==> r@.len() == 0,
            !old(self)@.interrupt_prologue_emitted.contains_key(lambda) ==> r@ == isr_prologue_spec(),
            final(self)@ == (LedgerView {
                interrupt_prologue_emitted: old(self)@.interrupt_prologue_emitted.insert(lambda, ()),
                ..old(self)@
            }),
    {
        let already = self.interrupt_prologue_emitted.contains_key(&lambda);
        self.interrupt_prologue_emitted.insert(lambda, ());
        interrupt_prologue(already)
    }

    /// The interrupt handlers of `handlers` (lambda, error-code flag) whose
    /// exit stub is still to be emitted, in order; all of `handlers` are
    /// marked as done.
    pub fn take_pending_epilogues(&mut self, handlers: &Vec<(u32, bool)>) -> (r: Vec<(u32, bool)>)
        ensures
            r@ == handlers@.filter(|h: (u32, bool)| !old(self)@.interrupt_epilogue_emitted.contains_key(h.0)),
            final(self)@ == (LedgerView {
                interrupt_epilogue_emitted: epilogues_marked(old(self)@.interrupt_epilogue_emitted, handlers@),
                ..old(self)@
            }),
    {
        let ghost done = self.interrupt_epilogue_emitted@;
        let ghost start = self@;
        let mut out: Vec<(u32, bool)> = Vec::new();
        let mut i: usize = 0;
        while i < handlers.len()
            invariant
                i <= handlers@.len(),
                self@ == start,
                done == start.interrupt_epilogue_emitted,
                out@ == handlers@.subrange(0, i as int).filter(
                    |h: (u32, bool)| !done.contains_key(h.0),
                ),
            decreases handlers@.len() - i,
        {
            let h = handlers[i];
            if !self.interrupt_epilogue_emitted.contains_key(&h.0) {
                out.push(h);
            }
            proof {
                let f = |h: (u32, bool)| !done.contains_key(h.0);
                assert(handlers@.subrange(0, i + 1) =~= handlers@.subrange(0, i as int).push(h));
                handlers@.subrange(0, i as int).lemma_filter_push(h, f);
            }
            i = i + 1;
        }
        assert(handlers@.subrange(0, handlers@.len() as int) =~= handlers@);
        let mut j: usize = 0;
        while j < handlers.len()
            invariant
                j <= handlers@.len(),
                self@ == (LedgerView {
                    interrupt_epilogue_emitted: epilogues_marked(done, handlers@.subrange(0, j as int)),
                    ..start
                }),
            decreases handlers@.len() - j,
        {
            let l = handlers[j].0;
            self.interrupt_epilogue_emitted.insert(l, ());
            proof {
                assert(handlers@.subrange(0, j + 1).drop_last() =~= handlers@.subrange(0, j as int));
            }
            j = j + 1;
        }
        assert(handlers@.subrange(0, handlers@.len() as int) =~= handlers@);
        out
    }

    /// Continue emission orders from `order` (to place the lowering of an
    /// `unsafe`-block statement at the position reserved for it, and to
    /// resume afterwards).
    pub fn set_next_emission_order(&mut self, order: u32)
        ensures
            final(self)@ == (LedgerView { next_emission_order: order, ..old(self)@ }),
    {
        self.next_emission_order = order;
    }
}

/// One emission step of an exit sequence: the ledger and the instructions
/// emitted so far, after emitting `inst` as `node` (see [`emit_inst_spec`]).
pub open spec fn emit_step(
    s: (LedgerView, Seq<StubInst>),
    inst: StubInst,
    node: u32,
    f: u32,
    bytes: u64,
    push_id: u32,
    push_bytes: u64,
    mov_id: u32,
    mov_bytes: u64,
) -> (LedgerView, Seq<StubInst>) {
    (
        emit_inst_spec(s.0, node, f, bytes, push_id, push_bytes, mov_id, mov_bytes),
        s.1 + injected_prologue(s.0, f) + seq![inst],
    )
}

/// The ledger and the instructions emitted by [`EmitLedger::emit_ret`].
pub open spec fn emit_ret_spec(
    l: LedgerView,
    f: u32,
    frame_total_size: Option<u64>,
    no_frame: bool,
    is_interrupt: bool,
    ids: Seq<u32>,
    sizes: Seq<u64>,
    push_id: u32,
    push_bytes: u64,
    mov_id: u32,
    mov_bytes: u64,
) -> (LedgerView, Seq<StubInst>) {
    let s0 = (l, Seq::<StubInst>::empty());
    let s1 = if f != 0 && frame_total_size is Some && frame_total_size->0 > 0 {
        let add = StubInst::AddImm(Gpr::Rsp, frame_total_size->0 as i64);
        emit_step(s0, add, ids[0], f, sizes[0], push_id, push_bytes, mov_id, mov_bytes)
    } else {
        s0
    };
    let s2 = if f != 0 && !no_frame && s1.0.frame_prologue_emitted.contains_key(f) {
        let m = emit_step(s1, StubInst::MovReg(Gpr::Rsp, Gpr::Rbp), ids[1], f, sizes[1], push_id, push_bytes, mov_id, mov_bytes);
        emit_step(m, StubInst::Pop(Gpr::Rbp), ids[2], f, sizes[2], push_id, push_bytes, mov_id, mov_bytes)
    } else {
        s1
    };
    if is_interrupt {
        s2
    } else {
        emit_step(s2, StubInst::Ret, ids[3], f, sizes[3], push_id, push_bytes, mov_id, mov_bytes)
    }
}

/// Sum of the sizes of the first `k` stubs of `sizes`.
pub open spec fn stubs_bytes(sizes: Seq<Vec<u64>>, k: nat) -> nat
    decreases k,
{
    if k == 0 {
        0
    } else {
        stubs_bytes(sizes, (k - 1) as nat) + total_bytes(sizes[k - 1]@)
    }
}

proof fn lemma_stubs_bytes_mono(sizes: Seq<Vec<u64>>, j: nat, k: nat)
    requires
        j <= k,
    ensures
        stubs_bytes(sizes, j) <= stubs_bytes(sizes, k),
    decreases k - j,
{
    if j < k {
        lemma_stubs_bytes_mono(sizes, j, (k - 1) as nat);
    }
}

/// The ledger after the exit stubs of those of the first `k` handlers that
/// are not in `done` are recorded in turn, handler `i`'s as `ids[i]` (of
/// sizes `sizes[i]`), owned by the handler.
pub open spec fn exits_upto(
    l: LedgerView,
    done: Map<u32, ()>,
    handlers: Seq<(u32, bool)>,
    ids: Seq<Vec<u32>>,
    sizes: Seq<Vec<u64>>,
    k: nat,
) -> LedgerView
    decreases k,
{
    if k == 0 {
        l
    } else {
        let prev = exits_upto(l, done, handlers, ids, sizes, (k - 1) as nat);
        let h = handlers[k - 1];
        if done.contains_key(h.0) {
            prev
        } else {
            record_all(prev, h.0, ids[k - 1]@, sizes[k - 1]@)
        }
    }
}

/// Sum of instruction sizes.
pub open spec fn total_bytes(sizes: Seq<u64>) -> nat
    decreases sizes.len(),
{
    if sizes.len() == 0 {
        0
    } else {
        total_bytes(sizes.drop_last()) + sizes.last() as nat
    }
}

/// The ledger after recording instructions `ids` (of sizes `sizes`) in
/// order, all owned by function `f`.
pub open spec fn record_all(l: LedgerView, f: u32, ids: Seq<u32>, sizes: Seq<u64>) -> LedgerView
    decreases ids.len(),
{
    if ids.len() == 0 || sizes.len() == 0 {
        l
    } else {
        record_inst_spec(record_all(l, f, ids.drop_last(), sizes.drop_last()), ids.last(), f, sizes.last())
    }
}

proof fn lemma_total_bytes_prefix(sizes: Seq<u64>, k: int)
    requires
        0 <= k <= sizes.len(),
    ensures
        total_bytes(sizes.subrange(0, k)) <= total_bytes(sizes),
    decreases sizes.len() - k,
{
    if k < sizes.len() {
        lemma_total_bytes_prefix(sizes, k + 1);
        assert(sizes.subrange(0, k + 1).drop_last() =~= sizes.subrange(0, k));
    } else {
        assert(sizes.subrange(0, k) =~= sizes);
    }
}

proof fn lemma_record_all_counters(l: LedgerView, f: u32, ids: Seq<u32>, sizes: Seq<u64>)
    requires
        ids.len() == sizes.len(),
        l.next_emission_order + ids.len() <= u32::MAX,
        l.estimated_offset + total_bytes(sizes) <= u64::MAX,
    ensures
        record_all(l, f, ids, sizes).next_emission_order == l.next_emission_order + ids.len(),
        record_all(l, f, ids, sizes).estimated_offset == l.estimated_offset + total_bytes(sizes),
        record_all(l, f, ids, sizes).interrupt_epilogue_emitted == l.interrupt_epilogue_emitted,
    decreases ids.len(),
{
    if ids.len() > 0 {
        lemma_record_all_counters(l, f, ids.drop_last(), sizes.drop_last());
    }
}

/// A stub recorded through the ledger lands in order and is owned by its
/// function: with distinct instruction ids, the `k`-th instruction gets
/// emission order `next + k` and owner `f`, and the counter moves past them
/// all.  So a function's entry stub precedes its body and its exit stub,
/// recorded later, follows it.
#[verifier::spinoff_prover]
pub proof fn lemma_record_all_in_order(l: LedgerView, f: u32, ids: Seq<u32>, sizes: Seq<u64>)
    requires
        ids.len() == sizes.len(),
        ids.no_duplicates(),
        l.next_emission_order + ids.len() <= u32::MAX,
        l.estimated_offset + total_bytes(sizes) <= u64::MAX,
    ensures
        record_all(l, f, ids, sizes).next_emission_order == l.next_emission_order + ids.len(),
        forall|k: int|
            0 <= k < ids.len() ==> #[trigger] record_all(l, f, ids, sizes).instr_order[ids[k]]
                == l.next_emission_order + k && record_all(l, f, ids, sizes).instr_to_lambda[ids[k]] == f,
        forall|n: u32|
            !ids.contains(n) ==> (#[trigger] record_all(l, f, ids, sizes).instr_order.contains_key(n)
                == l.instr_order.contains_key(n)) && (l.instr_order.contains_key(n) ==> record_all(
                l,
                f,
                ids,
                sizes,
            ).instr_order[n] == l.instr_order[n]),
    decreases ids.len(),
{
    lemma_record_all_counters(l, f, ids, sizes);
    if ids.len() > 0 {
        let (pi, ps) = (ids.drop_last(), sizes.drop_last());
        assert(pi.no_duplicates()) by {
            assert forall|i: int, j: int| 0 <= i < pi.len() && 0 <= j < pi.len() && i != j implies pi[i] != pi[j] by {
                assert(pi[i] == ids[i] && pi[j] == ids[j]);
            }
        }
        lemma_record_all_in_order(l, f, pi, ps);
        lemma_record_all_counters(l, f, pi, ps);
        let last = ids.last();
        assert forall|k: int| 0 <= k < ids.len() implies #[trigger] record_all(l, f, ids, sizes).instr_order[ids[k]]
            == l.next_emission_order + k && record_all(l, f, ids, sizes).instr_to_lambda[ids[k]] == f by {
            if k < ids.len() - 1 {
                assert(pi[k] == ids[k]);
                assert(ids[k] != last);
            }
        }
        assert forall|n: u32| !ids.contains(n) implies (#[trigger] record_all(l, f, ids, sizes).instr_order.contains_key(n)
            == l.instr_order.contains_key(n)) && (l.instr_order.contains_key(n) ==> record_all(
            l,
            f,
            ids,
            sizes,
        ).instr_order[n] == l.instr_order[n]) by {
            assert(!pi.contains(n)) by {
                if pi.contains(n) {
                    let k = choose|k: int| 0 <= k < pi.len() && pi[k] == n;
                    assert(ids[k] == n);
                }
            }
            assert(n != last) by {
                assert(ids[ids.len() - 1] == last);
            }
        }
    }
}

/// `done` with the handlers of `handlers` marked, in order.
pub open spec fn epilogues_marked(done: Map<u32, ()>, handlers: Seq<(u32, bool)>) -> Map<u32, ()>
    decreases handlers.len(),
{
    if handlers.len() == 0 {
        done
    } else {
        epilogues_marked(done, handlers.drop_last()).insert(handlers.last().0, ())
    }
}

proof fn lemma_epilogues_marked(done: Map<u32, ()>, handlers: Seq<(u32, bool)>)
    ensures
        forall|l: u32| #[trigger] epilogues_marked(done, handlers).contains_key(l) <==> (done.contains_key(l)
            || exists|k: int| 0 <= k < handlers.len() && handlers[k].0 == l),
    decreases handlers.len(),
{
    if handlers.len() > 0 {
        lemma_epilogues_marked(done, handlers.drop_last());
        let rest = handlers.drop_last();
        assert forall|l: u32| #[trigger] epilogues_marked(done, handlers).contains_key(l) <==> (done.contains_key(l)
            || exists|k: int| 0 <= k < handlers.len() && handlers[k].0 == l) by {
            let prev = epilogues_marked(done, rest);
            assert(prev.contains_key(l) <==> (done.contains_key(l) || exists|k: int|
                0 <= k < rest.len() && rest[k].0 == l));
            assert(epilogues_marked(done, handlers) == prev.insert(handlers.last().0, ()));
            if l == handlers.last().0 {
                assert(handlers[handlers.len() - 1].0 == l);
            }
            if exists|k: int| 0 <= k < handlers.len() && handlers[k].0 == l {
                let k = choose|k: int| 0 <= k < handlers.len() && handlers[k].0 == l;
                if k < handlers.len() - 1 {
                    assert(rest[k].0 == l);
                }
            }
            if exists|k: int| 0 <= k < rest.len() && rest[k].0 == l {
                let k = choose|k: int| 0 <= k < rest.len() && rest[k].0 == l;
                assert(handlers[k].0 == l);
            }
        }
    }
}

/// Interrupt exit stubs are emitted once: after a pass over `handlers`, a
/// second pass over the same handlers finds none pending, and every handler
/// is marked done.
pub proof fn lemma_epilogues_once(done: Map<u32, ()>, handlers: Seq<(u32, bool)>)
    ensures
        forall|k: int|
            0 <= k < handlers.len() ==> epilogues_marked(done, handlers).contains_key(#[trigger] handlers[k].0),
        handlers.filter(|h: (u32, bool)| !epilogues_marked(done, handlers).contains_key(h.0)).len() == 0,
{
    lemma_epilogues_marked(done, handlers);
    let after = epilogues_marked(done, handlers);
    let f = |h: (u32, bool)| !after.contains_key(h.0);
    assert forall|k: int| 0 <= k < handlers.len() implies after.contains_key(#[trigger] handlers[k].0) by {
        assert(exists|j: int| 0 <= j < handlers.len() && handlers[j].0 == handlers[k].0);
    }
    lemma_filter_none(handlers, f);
}

proof fn lemma_filter_none(s: Seq<(u32, bool)>, f: spec_fn((u32, bool)) -> bool)
    requires
        forall|k: int| 0 <= k < s.len() ==> !f(#[trigger] s[k]),
    ensures
        s.filter(f).len() == 0,
    decreases s.len(),
{
    reveal(Seq::filter);
    if s.len() > 0 {
        lemma_filter_none(s.drop_last(), f);
        assert(!f(s.last()));
    }
}

/// A recorded instruction's emission order is above every order recorded
/// before it, and stays below the next one: when no reserved position is
/// resumed in between, emission order is program order, so an exit stub
/// emitted after a body lands after all of it.
pub proof fn lemma_record_inst_after_all(l: LedgerView, node: u32, f: u32, bytes: u64)
    requires
        orders_below_next(l),
        l.next_emission_order < u32::MAX,
    ensures
        orders_below_next(record_inst_spec(l, node, f, bytes)),
        forall|k: u32|
            #[trigger] l.instr_order.contains_key(k) && k != node ==> record_inst_spec(l, node, f, bytes).instr_order[k]
                < record_inst_spec(l, node, f, bytes).instr_order[node],
{
}

/// A function's exit sequence is recorded in order and owned by the
/// function: once its frame-pointer prologue is no longer armed, the
/// instructions [`EmitLedger::emit_ret`] emits are exactly its exit sequence
/// (see [`ret_sequence_spec`]), they take the next emission orders, and every
/// instruction they record is owned by the function.
pub proof fn lemma_emit_ret_in_order(
    l: LedgerView,
    f: u32,
    frame_total_size: Option<u64>,
    no_frame: bool,
    is_interrupt: bool,
    ids: Seq<u32>,
    sizes: Seq<u64>,
    push_id: u32,
    push_bytes: u64,
    mov_id: u32,
    mov_bytes: u64,
)
    requires
        !prologue_armed(l, f),
        ids.len() == 4,
        sizes.len() == 4,
        l.next_emission_order + 4 <= u32::MAX,
    ensures
        ({
            let (r, out) = emit_ret_spec(
                l,
                f,
                frame_total_size,
                no_frame,
                is_interrupt,
                ids,
                sizes,
                push_id,
                push_bytes,
                mov_id,
                mov_bytes,
            );
            let exit = ret_sequence_spec(
                f,
                frame_total_size,
                no_frame,
                l.frame_prologue_emitted.contains_key(f),
                is_interrupt,
            );
            &&& out == exit
            &&& r.next_emission_order == l.next_emission_order + exit.len()
            &&& forall|n: u32| #[trigger] r.instr_to_lambda.contains_key(n) ==> r.instr_to_lambda[n] == f || (
                l.instr_to_lambda.contains_key(n) && r.instr_to_lambda[n] == l.instr_to_lambda[n])
            &&& forall|n: u32| #[trigger] r.instr_order.contains_key(n) ==> (l.next_emission_order <= r.instr_order[n]
                < r.next_emission_order) || (l.instr_order.contains_key(n) && r.instr_order[n] == l.instr_order[n])
        }),
{
    let s0 = (l, Seq::<StubInst>::empty());
    let has_add = f != 0 && frame_total_size is Some && frame_total_size->0 > 0;
    let s1 = if has_add {
        emit_step(s0, StubInst::AddImm(Gpr::Rsp, frame_total_size->0 as i64), ids[0], f, sizes[0], push_id, push_bytes, mov_id, mov_bytes)
    } else {
        s0
    };
    assert(s1.0.frame_prologue_emitted == l.frame_prologue_emitted);
    assert(!prologue_armed(s1.0, f));
    let has_epi = f != 0 && !no_frame && s1.0.frame_prologue_emitted.contains_key(f);
    let s2 = if has_epi {
        let m = emit_step(s1, StubInst::MovReg(Gpr::Rsp, Gpr::Rbp), ids[1], f, sizes[1], push_id, push_bytes, mov_id, mov_bytes);
        assert(!prologue_armed(m.0, f));
        emit_step(m, StubInst::Pop(Gpr::Rbp), ids[2], f, sizes[2], push_id, push_bytes, mov_id, mov_bytes)
    } else {
        s1
    };
    assert(!prologue_armed(s2.0, f));
    let exit = ret_sequence_spec(f, frame_total_size, no_frame, l.frame_prologue_emitted.contains_key(f), is_interrupt);
    assert(emit_ret_spec(l, f, frame_total_size, no_frame, is_interrupt, ids, sizes, push_id, push_bytes, mov_id, mov_bytes).1 =~= exit);
}

/// [`EmitLedger::emit_ret`] tears a non-empty closure frame down first: the
/// first instruction after any injected frame-pointer prologue is
/// `add rsp, N` for the frame's size `N`, whether or not the function is
/// `@no_frame` or an interrupt handler.
pub proof fn lemma_emit_ret_tears_down_closure_frame(
    l: LedgerView,
    f: u32,
    n: u64,
    no_frame: bool,
    is_interrupt: bool,
    ids: Seq<u32>,
    sizes: Seq<u64>,
    push_id: u32,
    push_bytes: u64,
    mov_id: u32,
    mov_bytes: u64,
)
    requires
        f != 0,
        n > 0,
        ids.len() == 4,
        sizes.len() == 4,
    ensures
        ({
            let out = emit_ret_spec(l, f, Some(n), no_frame, is_interrupt, ids, sizes, push_id, push_bytes, mov_id, mov_bytes).1;
            let k = injected_prologue(l, f).len();
            out.len() > k && out[k as int] == StubInst::AddImm(Gpr::Rsp, n as i64)
        }),
{
    let s0 = (l, Seq::<StubInst>::empty());
    let add = StubInst::AddImm(Gpr::Rsp, n as i64);
    let s1 = emit_step(s0, add, ids[0], f, sizes[0], push_id, push_bytes, mov_id, mov_bytes);
    let k = injected_prologue(l, f).len();
    assert(s1.1 =~= injected_prologue(l, f).push(add));
    let s2 = if !no_frame && s1.0.frame_prologue_emitted.contains_key(f) {
        let m = emit_step(s1, StubInst::MovReg(Gpr::Rsp, Gpr::Rbp), ids[1], f, sizes[1], push_id, push_bytes, mov_id, mov_bytes);
        emit_step(m, StubInst::Pop(Gpr::Rbp), ids[2], f, sizes[2], push_id, push_bytes, mov_id, mov_bytes)
    } else {
        s1
    };
    assert(s2.1.len() > k && s2.1[k as int] == add);
    let out = emit_ret_spec(l, f, Some(n), no_frame, is_interrupt, ids, sizes, push_id, push_bytes, mov_id, mov_bytes).1;
    assert(out.len() > k && out[k as int] == add);
}

} // verus!
