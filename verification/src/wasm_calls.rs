//! Calls while the lazy flag state lives in locals: what is called finds the flags in memory, and
//! what it leaves there is read again.
use vstd::prelude::*;
use crate::wasm::{Emit, Op, WasmBuilder};

verus! {

impl Emit {
    /// The first `n` instructions, with the flag locals written to memory before each call and
    /// read again after it.
    pub open spec fn calls_guarded(self, n: int) -> Emit
        decreases n,
    {
        if n <= 0 {
            Emit { code: Seq::empty(), ..self }
        } else {
            let before = self.calls_guarded(n - 1);
            let op = self.code[n - 1];
            if op is Call {
                before.spill_flags().op(op).reload_flags()
            } else {
                before.op(op)
            }
        }
    }

    /// All instructions, so.
    pub open spec fn guarded(self) -> Emit {
        self.calls_guarded(self.code.len() as int)
    }
}

impl WasmBuilder {
    /// Writes the flag locals to memory before each call, and reads them again after it.
    pub fn guard_calls(&mut self)
        ensures
            final(self)@ == old(self)@.guarded(),
    {
        let ghost before = self@;
        let mut code: Vec<Op> = Vec::new();
        std::mem::swap(&mut self.code, &mut code);
        let n: usize = code.len();
        assert(self@ == before.calls_guarded(0));
        let mut i: usize = 0;
        while i < n
            invariant
                i <= n == code@.len(),
                code@ == before.code,
                before == old(self)@,
                self@ == before.calls_guarded(i as int),
            decreases n - i,
        {
            let op: Op = code[i];
            match op {
                Op::Call(_, _) => {
                    self.emit_flag_spill();
                    self.emit(op);
                    self.emit_flag_reload();
                },
                _ => self.emit(op),
            }
            i = i + 1;
        }
    }
}

proof fn lemma_alone(e: Emit, n: int)
    requires
        e.flag_locals is None,
        0 <= n <= e.code.len(),
    ensures
        e.calls_guarded(n) == (Emit { code: e.code.take(n), ..e }),
    decreases n,
{
    if n > 0 {
        lemma_alone(e, n - 1);
        reveal(Emit::op);
        assert(e.code.take(n) =~= e.code.take(n - 1).push(e.code[n - 1]));
    } else {
        assert(e.code.take(0) =~= Seq::<Op>::empty());
    }
}

/// Where the lazy flag state lives in memory, calls stand alone.
pub proof fn law_calls_stand_alone_without_flag_locals(e: Emit)
    requires
        e.flag_locals is None,
    ensures
        e.guarded() == e,
{
    lemma_alone(e, e.code.len() as int);
    assert(e.code.take(e.code.len() as int) =~= e.code);
}

} // verus!
