use vstd::prelude::*;

use crate::listing::{list, listing, Lister};
use crate::substrate::Substrate;
use crate::text::{dec, hex, push_dec, push_hex};
use crate::word::lemma_byte_arith;

verus! {

/// The Forth (primordial soup) instruction set from Section 3.1.1 of the paper.
///
/// A stack-based language operating on a byte tape. Instructions are encoded
/// as single bytes with three classes:
/// - `0000 xxxx` (0x00-0x0D): 14 fixed opcodes; 0x0E-0x3F are no-ops
/// - `01xx xxxx` (0x40-0x7F): push low 6 bits as unsigned value
/// - `1Xxx xxxx` (0x80-0xFF): relative jump ±([low 6 bits]+1), bit 6 = sign
///
/// Stack values are u8. Stack underflow returns 0 (allowing the trivial
/// one-byte self-replicator 0x0C to work on an empty stack, per the paper).
/// Stack overflow silently drops the push.
pub struct Forth;

/// Maximum stack depth to prevent unbounded growth.
pub const MAX_STACK: usize = 256;

/// Fixed-size stack that avoids heap allocation. Stack underflow returns 0.
pub struct FixedStack {
    data: [u8; 256],
    len: usize,
}

/// The stack after pushing `v`; a full stack drops the push.
pub open spec fn stack_push(st: Seq<u8>, v: u8) -> Seq<u8> {
    if st.len() < MAX_STACK {
        st.push(v)
    } else {
        st
    }
}

/// The value popped from the stack (0 on an empty stack) and the stack after.
pub open spec fn stack_pop(st: Seq<u8>) -> (u8, Seq<u8>) {
    if st.len() > 0 {
        (st.last(), st.drop_last())
    } else {
        (0, st)
    }
}

/// The top of the stack, 0 on an empty stack.
pub open spec fn stack_top(st: Seq<u8>) -> u8 {
    if st.len() > 0 {
        st.last()
    } else {
        0
    }
}

impl View for FixedStack {
    type V = Seq<u8>;

    /// The values on the stack, bottom first.
    closed spec fn view(&self) -> Seq<u8> {
        self.data@.take(self.len as int)
    }
}

impl FixedStack {
    /// At most `MAX_STACK` values are held.
    pub closed spec fn wf(&self) -> bool {
        self.len <= MAX_STACK
    }

    pub proof fn lemma_view_len(&self)
        requires
            self.wf(),
        ensures
            self@.len() <= MAX_STACK,
    {
    }

    pub fn new() -> (s: Self)
        ensures
            s.wf(),
            s@ == Seq::<u8>::empty(),
    {
        let s = FixedStack { data: [0u8; 256], len: 0 };
        assert(s@ =~= Seq::<u8>::empty());
        s
    }

    pub fn push(&mut self, val: u8)
        requires
            old(self).wf(),
        ensures
            final(self).wf(),
            final(self)@ == stack_push(old(self)@, val),
    {
        if self.len < MAX_STACK {
            self.data[self.len] = val;
            self.len += 1;
            assert(self@ =~= old(self)@.push(val));
        }
    }

    pub fn pop(&mut self) -> (v: u8)
        requires
            old(self).wf(),
        ensures
            final(self).wf(),
            (v, final(self)@) == stack_pop(old(self)@),
    {
        if self.len > 0 {
            self.len -= 1;
            assert(self@ =~= old(self)@.drop_last());
            self.data[self.len]
        } else {
            0
        }
    }

    pub fn top(&self) -> (v: u8)
        requires
            self.wf(),
        ensures
            v == stack_top(self@),
    {
        if self.len > 0 {
            self.data[self.len - 1]
        } else {
            0
        }
    }

    /// Replace the top value with `val`; an empty stack is left alone and
    /// `false` is returned.
    pub fn set_top(&mut self, val: u8) -> (had_top: bool)
        requires
            old(self).wf(),
        ensures
            final(self).wf(),
            had_top == (old(self)@.len() > 0),
            had_top ==> final(self)@ == old(self)@.update(old(self)@.len() - 1, val),
            !had_top ==> final(self)@ == old(self)@,
    {
        if self.len > 0 {
            self.data[self.len - 1] = val;
            assert(self@ =~= old(self)@.update(old(self)@.len() - 1, val));
            true
        } else {
            false
        }
    }

    pub fn swap_top_two(&mut self)
        requires
            old(self).wf(),
        ensures
            final(self).wf(),
            final(self)@ == (if old(self)@.len() >= 2 {
                old(self)@.update(old(self)@.len() - 1, old(self)@[old(self)@.len() - 2]).update(
                    old(self)@.len() - 2,
                    old(self)@.last(),
                )
            } else {
                old(self)@
            }),
    {
        if self.len >= 2 {
            let a = self.data[self.len - 1];
            let b = self.data[self.len - 2];
            self.data[self.len - 1] = b;
            self.data[self.len - 2] = a;
            assert(self@ =~= old(self)@.update(old(self)@.len() - 1, old(self)@[old(self)@.len() - 2]).update(
                old(self)@.len() - 2,
                old(self)@.last(),
            ));
        }
    }
}

/// The machine of a running Forth program: program counter and stack.
pub struct ForthState {
    pub pc: usize,
    pub stack: FixedStack,
}

/// The meaning of one Forth instruction at `pc` with stack `st`: whether the
/// machine keeps running, the next program counter, stack and tape.
pub open spec fn forth_next(pc: usize, st: Seq<u8>, t: Seq<u8>) -> (bool, usize, Seq<u8>, Seq<u8>) {
    let len = t.len();
    if pc >= len {
        (false, pc, st, t)
    } else {
        let instr = t[pc as int];
        let pc1 = (pc + 1) as usize;
        let (a, s1) = stack_pop(st);
        let (d, s2) = stack_pop(s1);
        let at = (a as nat % len) as int;
        let at64 = ((a as nat + 64) % len) as int;
        if instr >> 6 == 0 {
            if instr == 0x00 {
                // READ: <top> = *<top>
                (true, pc1, stack_push(s1, t[at]), t)
            } else if instr == 0x01 {
                // READ64: <top> = *(<top> + 64)
                (true, pc1, stack_push(s1, t[at64]), t)
            } else if instr == 0x02 {
                // WRITE: *<top> = <top-1>; pop; pop
                (true, pc1, s2, t.update(at, d))
            } else if instr == 0x03 {
                // WRITE64: *(<top> + 64) = <top-1>; pop; pop
                (true, pc1, s2, t.update(at64, d))
            } else if instr == 0x04 {
                // DUP
                (true, pc1, stack_push(st, stack_top(st)), t)
            } else if instr == 0x05 {
                // POP
                (true, pc1, s1, t)
            } else if instr == 0x06 {
                // SWAP
                (
                    true,
                    pc1,
                    if st.len() >= 2 {
                        st.update(st.len() - 1, st[st.len() - 2]).update(st.len() - 2, st.last())
                    } else {
                        st
                    },
                    t,
                )
            } else if instr == 0x07 {
                // SKIPNZ: if <top> != 0 skip the next instruction
                (
                    true,
                    if stack_top(st) != 0 {
                        (pc + 2) as usize
                    } else {
                        pc1
                    },
                    st,
                    t,
                )
            } else if instr == 0x08 || instr == 0x09 {
                // INC / DEC of the top; on an empty stack push 1 / 255
                (
                    true,
                    pc1,
                    if st.len() > 0 {
                        st.update(
                            st.len() - 1,
                            if instr == 0x08 {
                                st.last().wrapping_add(1)
                            } else {
                                st.last().wrapping_sub(1)
                            },
                        )
                    } else {
                        stack_push(
                            st,
                            if instr == 0x08 {
                                1
                            } else {
                                255
                            },
                        )
                    },
                    t,
                )
            } else if instr == 0x0A || instr == 0x0B {
                // ADD / SUB: <top-1> = <top> op <top-1>; pop
                (
                    true,
                    pc1,
                    if s1.len() > 0 {
                        s1.update(
                            s1.len() - 1,
                            if instr == 0x0A {
                                a.wrapping_add(s1.last())
                            } else {
                                a.wrapping_sub(s1.last())
                            },
                        )
                    } else {
                        stack_push(s1, a)
                    },
                    t,
                )
            } else if instr == 0x0C {
                // COPY: *(<top> + 64) = *<top>; pop
                (true, pc1, s1, t.update(at64, t[at]))
            } else if instr == 0x0D {
                // RCOPY: *<top> = *(<top> + 64); pop
                (true, pc1, s1, t.update(at, t[at64]))
            } else {
                (true, pc1, st, t)
            }
        } else if instr >> 6 == 1 {
            // push the low 6 bits
            (true, pc1, stack_push(st, instr & 0x3F), t)
        } else {
            // relative jump by (low 6 bits) + 1, backward when bit 6 is set
            let offset = (instr & 0x3F) as nat + 1;
            if instr & 0x40 == 0 {
                (true, (pc + offset) as usize, st, t)
            } else if offset > pc {
                (false, pc, st, t)
            } else {
                (true, (pc - offset) as usize, st, t)
            }
        }
    }
}

/// A Forth run from `pc` with stack `st` for at most `fuel` instructions:
/// the final tape and the number of instructions executed.
pub open spec fn forth_run(pc: usize, st: Seq<u8>, t: Seq<u8>, fuel: nat) -> (Seq<u8>, nat)
    decreases fuel,
{
    if fuel == 0 || pc >= t.len() {
        (t, 0)
    } else {
        let (go, pc2, st2, t2) = forth_next(pc, st, t);
        if !go {
            (t2, 1)
        } else {
            let r = forth_run(pc2, st2, t2, (fuel - 1) as nat);
            (r.0, r.1 + 1)
        }
    }
}

/// What `Forth::execute` computes: the final tape and the step count.
pub open spec fn forth_execute(t: Seq<u8>, step_limit: nat) -> (Seq<u8>, nat) {
    if t.len() == 0 {
        (t, 0)
    } else {
        forth_run(0, Seq::empty(), t, step_limit)
    }
}

proof fn lemma_forth_run_bounds(pc: usize, st: Seq<u8>, t: Seq<u8>, fuel: nat)
    ensures
        forth_run(pc, st, t, fuel).0.len() == t.len(),
        forth_run(pc, st, t, fuel).1 <= fuel,
    decreases fuel,
{
    if fuel > 0 && pc < t.len() {
        let (go, pc2, st2, t2) = forth_next(pc, st, t);
        if go {
            lemma_forth_run_bounds(pc2, st2, t2, (fuel - 1) as nat);
        }
    }
}

/// Execute one Forth instruction. Returns true if still running.
pub fn forth_step(state: &mut ForthState, tape: &mut [u8]) -> (go: bool)
    requires
        old(state).stack.wf(),
        old(tape)@.len() <= isize::MAX,
    ensures
        final(state).stack.wf(),
        (go, final(state).pc, final(state).stack@, final(tape)@) == forth_next(
            old(state).pc,
            old(state).stack@,
            old(tape)@,
        ),
{
    let len = tape.len();
    let pc = state.pc;
    if pc >= len {
        return false;
    }
    let instr = tape[pc];
    proof {
        state.stack.lemma_view_len();
    }
    if instr >> 6 == 0 {
        if instr == 0x00 || instr == 0x01 {
            // READ / READ64
            let top = state.stack.pop();
            let addr = if instr == 0x00 {
                top as usize % len
            } else {
                (top as usize + 64) % len
            };
            let val = tape[addr];
            state.stack.push(val);
        } else if instr == 0x02 || instr == 0x03 {
            // WRITE / WRITE64
            let addr_val = state.stack.pop();
            let data_val = state.stack.pop();
            let addr = if instr == 0x02 {
                addr_val as usize % len
            } else {
                (addr_val as usize + 64) % len
            };
            tape[addr] = data_val;
        } else if instr == 0x04 {
            let top = state.stack.top();
            state.stack.push(top);
        } else if instr == 0x05 {
            state.stack.pop();
        } else if instr == 0x06 {
            state.stack.swap_top_two();
        } else if instr == 0x07 {
            if state.stack.top() != 0 {
                state.pc = pc + 2;
                return true;
            }
        } else if instr == 0x08 || instr == 0x09 {
            let top = state.stack.top();
            let v = if instr == 0x08 {
                top.wrapping_add(1)
            } else {
                top.wrapping_sub(1)
            };
            if !state.stack.set_top(v) {
                state.stack.push(
                    if instr == 0x08 {
                        1
                    } else {
                        255
                    },
                );
            }
        } else if instr == 0x0A || instr == 0x0B {
            let a = state.stack.pop();
            let b = state.stack.top();
            let v = if instr == 0x0A {
                a.wrapping_add(b)
            } else {
                a.wrapping_sub(b)
            };
            if !state.stack.set_top(v) {
                state.stack.push(a);
            }
        } else if instr == 0x0C || instr == 0x0D {
            // COPY / RCOPY
            let addr_val = state.stack.pop();
            let near = addr_val as usize % len;
            let far = (addr_val as usize + 64) % len;
            if instr == 0x0C {
                tape[far] = tape[near];
            } else {
                tape[near] = tape[far];
            }
        }
    } else if instr >> 6 == 1 {
        state.stack.push(instr & 0x3F);
    } else {
        let offset = (instr & 0x3F) as usize + 1;
        if instr & 0x40 == 0 {
            state.pc = pc + offset;
        } else {
            if offset > pc {
                // would jump before the start
                return false;
            }
            state.pc = pc - offset;
        }
        return true;
    }
    state.pc = pc + 1;
    true
}

/// The mnemonic of a fixed Forth opcode `b` (below 0x40).
pub open spec fn forth_fixed_name(b: u8) -> Seq<char> {
    if b == 0x00 {
        "READ"@
    } else if b == 0x01 {
        "READ64"@
    } else if b == 0x02 {
        "WRITE"@
    } else if b == 0x03 {
        "WRITE64"@
    } else if b == 0x04 {
        "DUP"@
    } else if b == 0x05 {
        "POP"@
    } else if b == 0x06 {
        "SWAP"@
    } else if b == 0x07 {
        "SKIPNZ"@
    } else if b == 0x08 {
        "INC"@
    } else if b == 0x09 {
        "DEC"@
    } else if b == 0x0A {
        "ADD"@
    } else if b == 0x0B {
        "SUB"@
    } else if b == 0x0C {
        "COPY"@
    } else if b == 0x0D {
        "RCOPY"@
    } else {
        "NOP"@
    }
}

fn forth_fixed_name_exec(b: u8) -> (s: &'static str)
    ensures
        s@ == forth_fixed_name(b),
{
    if b == 0x00 {
        "READ"
    } else if b == 0x01 {
        "READ64"
    } else if b == 0x02 {
        "WRITE"
    } else if b == 0x03 {
        "WRITE64"
    } else if b == 0x04 {
        "DUP"
    } else if b == 0x05 {
        "POP"
    } else if b == 0x06 {
        "SWAP"
    } else if b == 0x07 {
        "SKIPNZ"
    } else if b == 0x08 {
        "INC"
    } else if b == 0x09 {
        "DEC"
    } else if b == 0x0A {
        "ADD"
    } else if b == 0x0B {
        "SUB"
    } else if b == 0x0C {
        "COPY"
    } else if b == 0x0D {
        "RCOPY"
    } else {
        "NOP"
    }
}

/// The description of Forth instruction byte `b`: a fixed opcode, `PUSH n`,
/// or `JMP +n` / `JMP -n`.
pub open spec fn forth_desc(b: u8) -> Seq<char> {
    if b >> 6 == 0 {
        forth_fixed_name(b)
    } else if b >> 6 == 1 {
        "PUSH "@ + dec((b & 0x3F) as nat)
    } else if b & 0x40 == 0 {
        "JMP +"@ + dec((b & 0x3F) as nat + 1)
    } else {
        "JMP -"@ + dec((b & 0x3F) as nat + 1)
    }
}

impl Lister for Forth {
    open spec fn spec_line(t: Seq<u8>, pc: nat) -> (Seq<char>, nat) {
        (
            hex(pc, 4) + ": "@ + hex(t[pc as int] as nat, 2) + "  "@ + forth_desc(t[pc as int])
                + "\n"@,
            1,
        )
    }

    fn line(t: &[u8], pc: usize) -> (r: (String, usize)) {
        let b = t[pc];
        let mut out = String::new();
        push_hex(&mut out, pc, 4);
        out.append(": ");
        push_hex(&mut out, b as usize, 2);
        out.append("  ");
        if b >> 6 == 0 {
            out.append(forth_fixed_name_exec(b));
        } else if b >> 6 == 1 {
            out.append("PUSH ");
            push_dec(&mut out, (b & 0x3F) as usize);
        } else {
            out.append(
                if b & 0x40 == 0 {
                    "JMP +"
                } else {
                    "JMP -"
                },
            );
            push_dec(&mut out, (b & 0x3F) as usize + 1);
        }
        out.append("\n");
        assert(out@ =~= Self::spec_line(t@, pc as nat).0);
        (out, 1)
    }
}

impl Substrate for Forth {
    open spec fn spec_execute(tape: Seq<u8>, step_limit: nat) -> (Seq<u8>, nat) {
        forth_execute(tape, step_limit)
    }

    /// Without a battle mode of its own, a battle runs the plain execution.
    open spec fn spec_execute_battle(tape: Seq<u8>, ps: nat, step_limit: nat) -> (Seq<u8>, nat) {
        Self::spec_execute(tape, step_limit)
    }

    fn execute_battle(tape: &mut [u8], ps: usize, step_limit: usize) -> (steps: usize) {
        Self::execute(tape, step_limit)
    }

    fn execute(tape: &mut [u8], step_limit: usize) -> (steps: usize)
    {
        let len = tape.len();
        if len == 0 {
            return 0;
        }
        let ghost t0 = tape@;
        let mut state = ForthState { pc: 0, stack: FixedStack::new() };
        let mut steps: usize = 0;
        let mut going = true;
        proof {
            lemma_forth_run_bounds(0, Seq::empty(), t0, step_limit as nat);
        }
        while going && state.pc < len && steps < step_limit
            invariant
                steps <= step_limit,
                len == tape@.len() == t0.len(),
                len <= isize::MAX,
                state.stack.wf(),
                going ==> forth_execute(t0, step_limit as nat) == (
                    forth_run(state.pc, state.stack@, tape@, (step_limit - steps) as nat).0,
                    (forth_run(state.pc, state.stack@, tape@, (step_limit - steps) as nat).1
                        + steps) as nat,
                ),
                !going ==> forth_execute(t0, step_limit as nat) == (tape@, steps as nat),
            decreases step_limit - steps,
        {
            proof {
                let (go, pc2, st2, t2) = forth_next(state.pc, state.stack@, tape@);
                lemma_forth_run_bounds(pc2, st2, t2, (step_limit - steps - 1) as nat);
            }
            steps += 1;
            if !forth_step(&mut state, tape) {
                going = false;
            }
        }
        steps
    }

    open spec fn spec_is_instruction(byte: u8) -> bool {
        byte <= 0x0D || byte >= 0x40
    }

    fn is_instruction(byte: u8) -> (r: bool) {
        // 0x0E-0x3F are no-ops; fixed opcodes, pushes and jumps are meaningful.
        byte <= 0x0D || byte >= 0x40
    }

    fn disassemble(tape: &[u8]) -> (out: String)
        ensures
            out@ == listing::<Forth>(tape@, 0),
    {
        list::<Forth>(tape)
    }
}

/// The three classes of an instruction byte, read off its two top bits:
/// fixed opcodes below 0x40, pushes from 0x40, jumps from 0x80 (backward
/// from 0xC0), with the low six bits as the operand.
proof fn lemma_opcode_classes(b: u8)
    by (bit_vector)
    ensures
        b < 0x40 ==> b >> 6 == 0,
        0x40 <= b < 0x80 ==> b >> 6 == 1 && b & 0x3F == b - 0x40,
        b >= 0x80 ==> b >> 6 >= 2 && b & 0x3F == b % 64 && ((b & 0x40 == 0) == (b < 0xC0)),
{
}

/// A byte that is no instruction only moves the program counter on: the
/// stack and the tape stay as they are.
pub proof fn law_non_instruction_only_advances(pc: usize, st: Seq<u8>, t: Seq<u8>)
    requires
        pc < t.len(),
        !Forth::spec_is_instruction(t[pc as int]),
    ensures
        forth_next(pc, st, t) == (true, (pc + 1) as usize, st, t),
{
    lemma_opcode_classes(t[pc as int]);
}

/// READ (0x00) and READ64 (0x01) replace the top of the stack by the tape
/// byte it addresses (64 cells further on for READ64, around the tape): the
/// stack keeps its length and everything below the top. On an empty stack
/// the address is 0 and the byte read is pushed. The tape is left as it is.
pub proof fn law_read_replaces_top(pc: usize, st: Seq<u8>, t: Seq<u8>)
    requires
        pc < t.len() <= usize::MAX,
        t[pc as int] == 0x00 || t[pc as int] == 0x01,
        st.len() <= MAX_STACK,
    ensures
        ({
            let (go, pc2, st2, t2) = forth_next(pc, st, t);
            let shift: nat = if t[pc as int] == 0x01 { 64 } else { 0 };
            &&& go
            &&& pc2 == pc + 1
            &&& t2 == t
            &&& st.len() > 0 ==> {
                &&& st2.len() == st.len()
                &&& st2[st.len() - 1] == t[((st[st.len() - 1] as nat + shift) % t.len()) as int]
                &&& forall|i: int| 0 <= i < st.len() - 1 ==> st2[i] == st[i]
            }
            &&& st.len() == 0 ==> st2 == seq![t[(shift % t.len()) as int]]
        }),
{
    lemma_opcode_classes(t[pc as int]);
    if st.len() == 0 {
        let b = t[pc as int];
        assert(Seq::<u8>::empty().push(t[((0 + if b == 0x01 { 64nat } else { 0 }) % t.len()) as int])
            =~= seq![t[((if b == 0x01 { 64nat } else { 0 }) % t.len()) as int]]);
    }
}

/// WRITE (0x02) and WRITE64 (0x03) store the value under the top of the
/// stack at the tape cell the top addresses (64 cells further on for
/// WRITE64, around the tape), and take both off the stack. Missing values
/// count as 0.
pub proof fn law_write_stores_second_at_top(pc: usize, st: Seq<u8>, t: Seq<u8>)
    requires
        pc < t.len() <= usize::MAX,
        t[pc as int] == 0x02 || t[pc as int] == 0x03,
    ensures
        ({
            let (go, pc2, st2, t2) = forth_next(pc, st, t);
            let shift: nat = if t[pc as int] == 0x03 { 64 } else { 0 };
            let top: nat = if st.len() > 0 { st[st.len() - 1] as nat } else { 0 };
            let second: u8 = if st.len() > 1 { st[st.len() - 2] } else { 0 };
            &&& go
            &&& pc2 == pc + 1
            &&& t2.len() == t.len()
            &&& t2[((top + shift) % t.len()) as int] == second
            &&& forall|i: int| 0 <= i < t.len() && i != ((top + shift) % t.len()) as int ==> t2[i] == t[i]
            &&& st2 == (if st.len() >= 2 { st.take(st.len() - 2) } else { Seq::<u8>::empty() })
        }),
{
    lemma_opcode_classes(t[pc as int]);
    if st.len() >= 2 {
        assert(st.drop_last().drop_last() =~= st.take(st.len() - 2));
    } else if st.len() == 1 {
        assert(st.drop_last() =~= Seq::<u8>::empty());
    }
}

/// DUP (0x04) pushes a copy of the top (0 on an empty stack), POP (0x05)
/// drops the top, SWAP (0x06) exchanges the two top values (fewer than two
/// are left alone). A push onto a full stack is dropped. The tape stays and
/// the program counter moves on.
pub proof fn law_stack_shuffles(pc: usize, st: Seq<u8>, t: Seq<u8>)
    requires
        pc < t.len() <= usize::MAX,
        0x04 <= t[pc as int] <= 0x06,
        st.len() <= MAX_STACK,
    ensures
        ({
            let (go, pc2, st2, t2) = forth_next(pc, st, t);
            let op = t[pc as int];
            let n = st.len() as int;
            &&& go
            &&& pc2 == pc + 1
            &&& t2 == t
            &&& op == 0x04 && n == 0 ==> st2 == seq![0u8]
            &&& op == 0x04 && 0 < n < MAX_STACK ==> st2.len() == n + 1 && st2[n] == st[n - 1]
                && st2.take(n) == st
            &&& op == 0x04 && n == MAX_STACK ==> st2 == st
            &&& op == 0x05 ==> st2 == if n > 0 { st.take(n - 1) } else { st }
            &&& op == 0x06 && n >= 2 ==> st2.len() == n && st2[n - 1] == st[n - 2] && st2[n - 2]
                == st[n - 1] && st2.take(n - 2) == st.take(n - 2)
            &&& op == 0x06 && n < 2 ==> st2 == st
        }),
{
    lemma_opcode_classes(t[pc as int]);
    let n = st.len() as int;
    if n > 0 {
        assert(st.drop_last() =~= st.take(n - 1));
        assert(st.push(st.last()).take(n) =~= st);
    } else {
        assert(st.push(0u8) =~= seq![0u8]);
    }
    if n >= 2 {
        let sw = st.update(n - 1, st[n - 2]).update(n - 2, st.last());
        assert(sw.take(n - 2) =~= st.take(n - 2));
    }
}

/// INC (0x08) and DEC (0x09) add or take one (mod 256) at the top; on an
/// empty stack they push 1 or 255. ADD (0x0A) and SUB (0x0B) pop the top and
/// replace the value under it by top + under or top - under (mod 256); with
/// nothing under the top it stays alone on the stack. The tape stays and the
/// program counter moves on.
pub proof fn law_stack_arithmetic(pc: usize, st: Seq<u8>, t: Seq<u8>)
    requires
        pc < t.len() <= usize::MAX,
        0x08 <= t[pc as int] <= 0x0B,
        st.len() <= MAX_STACK,
    ensures
        ({
            let (go, pc2, st2, t2) = forth_next(pc, st, t);
            let op = t[pc as int];
            let n = st.len() as int;
            &&& go
            &&& pc2 == pc + 1
            &&& t2 == t
            &&& op == 0x08 && n > 0 ==> st2.len() == n && st2[n - 1] as int == (st[n - 1] + 1) % 256
                && st2.take(n - 1) == st.take(n - 1)
            &&& op == 0x09 && n > 0 ==> st2.len() == n && st2[n - 1] as int == (st[n - 1] + 255) % 256
                && st2.take(n - 1) == st.take(n - 1)
            &&& op == 0x08 && n == 0 ==> st2 == seq![1u8]
            &&& op == 0x09 && n == 0 ==> st2 == seq![255u8]
            &&& op == 0x0A && n >= 2 ==> st2.len() == n - 1 && st2[n - 2] as int == (st[n - 1]
                + st[n - 2]) % 256 && st2.take(n - 2) == st.take(n - 2)
            &&& op == 0x0B && n >= 2 ==> st2.len() == n - 1 && st2[n - 2] as int == (st[n - 1] + 256
                - st[n - 2]) % 256 && st2.take(n - 2) == st.take(n - 2)
            &&& (op == 0x0A || op == 0x0B) && n == 1 ==> st2 == st
            &&& (op == 0x0A || op == 0x0B) && n == 0 ==> st2 == seq![0u8]
        }),
{
    lemma_opcode_classes(t[pc as int]);
    let n = st.len() as int;
    if n > 0 {
        let x = st[n - 1];
        lemma_byte_arith(x, 1, x.wrapping_add(1), x.wrapping_sub(1));
        assert(st.update(n - 1, x.wrapping_add(1)).take(n - 1) =~= st.take(n - 1));
        assert(st.update(n - 1, x.wrapping_sub(1)).take(n - 1) =~= st.take(n - 1));
        assert(st.drop_last().push(x) =~= st);
    } else {
        assert(st.push(1u8) =~= seq![1u8]);
        assert(st.push(255u8) =~= seq![255u8]);
        assert(st.push(0u8) =~= seq![0u8]);
    }
    if n >= 2 {
        let x = st[n - 1];
        let y = st[n - 2];
        lemma_byte_arith(x, y, x.wrapping_add(y), x.wrapping_sub(y));
        let s1 = st.drop_last();
        assert(s1.update(n - 2, x.wrapping_add(y)).take(n - 2) =~= st.take(n - 2));
        assert(s1.update(n - 2, x.wrapping_sub(y)).take(n - 2) =~= st.take(n - 2));
    }
}

/// COPY (0x0C) copies the cell the top addresses to the cell 64 further on
/// (around the tape); RCOPY (0x0D) copies back the other way. Only that one
/// cell changes, and the top is popped (an empty stack addresses cell 0).
pub proof fn law_copy_moves_one_cell(pc: usize, st: Seq<u8>, t: Seq<u8>)
    requires
        pc < t.len() <= usize::MAX,
        t[pc as int] == 0x0C || t[pc as int] == 0x0D,
    ensures
        ({
            let (go, pc2, st2, t2) = forth_next(pc, st, t);
            let n = st.len() as int;
            let top: nat = if n > 0 { st[n - 1] as nat } else { 0 };
            let near = (top % t.len()) as int;
            let far = ((top + 64) % t.len()) as int;
            let (dst, src) = if t[pc as int] == 0x0C { (far, near) } else { (near, far) };
            &&& go
            &&& pc2 == pc + 1
            &&& t2.len() == t.len()
            &&& t2[dst] == t[src]
            &&& forall|i: int| 0 <= i < t.len() && i != dst ==> t2[i] == t[i]
            &&& st2 == if n > 0 { st.take(n - 1) } else { st }
        }),
{
    lemma_opcode_classes(t[pc as int]);
    if st.len() > 0 {
        assert(st.drop_last() =~= st.take(st.len() - 1));
    }
}

/// The flow ops: SKIPNZ (0x07) skips the next byte when the top is nonzero;
/// a byte 0x40..0x7F pushes its value less 0x40 (dropped on a full stack);
/// a byte 0x80..0xBF jumps forward by its value mod 64, plus one, and a byte
/// 0xC0..0xFF back by as much, stopping the machine where that would pass
/// the start of the tape. The tape stays as it is.
pub proof fn law_flow_and_push(pc: usize, st: Seq<u8>, t: Seq<u8>)
    requires
        pc < t.len() <= usize::MAX,
        t.len() + 64 <= usize::MAX,
        t[pc as int] == 0x07 || t[pc as int] >= 0x40,
        st.len() <= MAX_STACK,
    ensures
        ({
            let (go, pc2, st2, t2) = forth_next(pc, st, t);
            let op = t[pc as int];
            let n = st.len() as int;
            let offset = (op % 64) as int + 1;
            &&& t2 == t
            &&& op == 0x07 ==> go && st2 == st && pc2 == if n > 0 && st[n - 1] != 0 {
                pc + 2
            } else {
                pc + 1
            }
            &&& 0x40 <= op < 0x80 ==> go && pc2 == pc + 1 && st2 == if n < MAX_STACK {
                st.push((op - 0x40) as u8)
            } else {
                st
            }
            &&& 0x80 <= op < 0xC0 ==> go && st2 == st && pc2 == pc + offset
            &&& op >= 0xC0 && offset <= pc ==> go && st2 == st && pc2 == pc - offset
            &&& op >= 0xC0 && offset > pc ==> !go
        }),
{
    lemma_opcode_classes(t[pc as int]);
}

/// Without a battle mode of its own, a battle is the plain run of the tape,
/// whatever the program size.
pub proof fn law_battle_is_plain_run(t: Seq<u8>, program_size: nat, step_limit: nat)
    ensures
        Forth::spec_execute_battle(t, program_size, step_limit) == Forth::spec_execute(t, step_limit),
{
}

} // verus!
