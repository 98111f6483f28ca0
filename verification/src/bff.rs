use vstd::prelude::*;

use crate::stepper::{run, run_solo, Stepper};
use crate::substrate::Substrate;
use crate::text::{hex, pad_right, push_hex, push_padded};
use crate::word::lemma_byte_arith;

verus! {

/// The BFF (Brainfuck Family) instruction set from Section 2 of the paper.
///
/// Operates on a byte tape with three pointers:
/// - IP (instruction pointer): starts at 0, advances through the tape
/// - head0 (read head): starts at 0
/// - head1 (write head): starts at 0
///
/// All pointer arithmetic wraps modulo the tape length.
/// Head value arithmetic wraps modulo 256.
///
/// Bracket matching (`[` and `]`) is performed at runtime by scanning
/// the current tape contents, since programs are self-modifying.
pub struct Bff;

pub const LESS: u8 = 0x3C;

pub const GREATER: u8 = 0x3E;

pub const LBRACE: u8 = 0x7B;

pub const RBRACE: u8 = 0x7D;

pub const MINUS: u8 = 0x2D;

pub const PLUS: u8 = 0x2B;

pub const DOT: u8 = 0x2E;

pub const COMMA: u8 = 0x2C;

pub const LBRACKET: u8 = 0x5B;

pub const RBRACKET: u8 = 0x5D;

/// The registers of a running BFF program. The heads are positions on the
/// tape, kept below its length.
#[derive(Clone, Copy)]
pub struct BffState {
    pub ip: usize,
    pub head0: usize,
    pub head1: usize,
}

/// Head position `h` moved one cell back, around the tape of length `len`.
pub open spec fn head_back(h: usize, len: nat) -> usize {
    ((h as int % len as int + len - 1) % (len as int)) as usize
}

/// Head position `h` moved one cell on, around the tape of length `len`.
pub open spec fn head_on(h: usize, len: nat) -> usize {
    ((h as nat % len + 1) % len) as usize
}

/// Scanning forward from `scan` with `depth` brackets open: the position one
/// past the `]` that closes them, or `None` if the tape ends first.
pub open spec fn match_forward(t: Seq<u8>, scan: int, depth: int) -> Option<int>
    decreases t.len() - scan,
{
    if depth <= 0 {
        Some(scan)
    } else if scan >= t.len() || scan < 0 {
        None
    } else {
        let d = if t[scan] == LBRACKET {
            depth + 1
        } else if t[scan] == RBRACKET {
            depth - 1
        } else {
            depth
        };
        match_forward(t, scan + 1, d)
    }
}

/// Scanning backward from `scan` with `depth` brackets to close: the position
/// of the `[` that opens them, or `None` if the tape start is reached first.
pub open spec fn match_backward(t: Seq<u8>, scan: int, depth: int) -> Option<int>
    decreases scan,
{
    if scan < 0 || scan >= t.len() {
        None
    } else {
        let d = if t[scan] == RBRACKET {
            depth + 1
        } else if t[scan] == LBRACKET {
            depth - 1
        } else {
            depth
        };
        if d == 0 {
            Some(scan)
        } else if scan == 0 {
            None
        } else {
            match_backward(t, scan - 1, d)
        }
    }
}

/// The meaning of one BFF instruction.
pub open spec fn bff_next(s: BffState, t: Seq<u8>) -> (bool, BffState, Seq<u8>) {
    let len = t.len();
    if s.ip >= len || len == 0 {
        (false, s, t)
    } else {
        let op = t[s.ip as int];
        let i0 = (s.head0 as nat % len) as int;
        let i1 = (s.head1 as nat % len) as int;
        let ip1 = (s.ip + 1) as usize;
        if op == LESS {
            (true, BffState { ip: ip1, head0: head_back(s.head0, len), head1: s.head1 }, t)
        } else if op == GREATER {
            (true, BffState { ip: ip1, head0: head_on(s.head0, len), head1: s.head1 }, t)
        } else if op == LBRACE {
            (true, BffState { ip: ip1, head0: s.head0, head1: head_back(s.head1, len) }, t)
        } else if op == RBRACE {
            (true, BffState { ip: ip1, head0: s.head0, head1: head_on(s.head1, len) }, t)
        } else if op == MINUS {
            (
                true,
                BffState { ip: ip1, head0: s.head0, head1: s.head1 },
                t.update(i0, t[i0].wrapping_sub(1)),
            )
        } else if op == PLUS {
            (
                true,
                BffState { ip: ip1, head0: s.head0, head1: s.head1 },
                t.update(i0, t[i0].wrapping_add(1)),
            )
        } else if op == DOT {
            (true, BffState { ip: ip1, head0: s.head0, head1: s.head1 }, t.update(i1, t[i0]))
        } else if op == COMMA {
            (true, BffState { ip: ip1, head0: s.head0, head1: s.head1 }, t.update(i0, t[i1]))
        } else if op == LBRACKET && t[i0] == 0 {
            match match_forward(t, s.ip + 1, 1) {
                Some(p) => (true, BffState { ip: p as usize, head0: s.head0, head1: s.head1 }, t),
                None => (false, s, t),
            }
        } else if op == RBRACKET && t[i0] != 0 {
            if s.ip == 0 {
                (false, s, t)
            } else {
                match match_backward(t, s.ip - 1, 1) {
                    Some(p) => (
                        true,
                        BffState { ip: (p + 1) as usize, head0: s.head0, head1: s.head1 },
                        t,
                    ),
                    None => (false, s, t),
                }
            }
        } else {
            (true, BffState { ip: ip1, head0: s.head0, head1: s.head1 }, t)
        }
    }
}

/// What `Bff::execute` computes: the final tape and the step count.
pub open spec fn bff_execute(t: Seq<u8>, step_limit: nat) -> (Seq<u8>, nat) {
    if t.len() == 0 {
        (t, 0)
    } else {
        run::<Bff>(BffState { ip: 0, head0: 0, head1: 0 }, t, step_limit)
    }
}

/// Find the position one past the `]` matching the `[` at `ip`.
fn scan_forward(tape: &[u8], ip: usize) -> (r: Option<usize>)
    requires
        ip < tape@.len() <= isize::MAX,
    ensures
        r is Some <==> match_forward(tape@, ip + 1, 1) is Some,
        r matches Some(p) ==> match_forward(tape@, ip + 1, 1) == Some(p as int),
{
    let len = tape.len();
    let mut depth: usize = 1;
    let mut scan = ip + 1;
    while scan < len && depth > 0
        invariant
            len == tape@.len(),
            ip < scan <= len,
            depth <= scan - ip,
            match_forward(tape@, ip + 1, 1) == match_forward(tape@, scan as int, depth as int),
        decreases len - scan,
    {
        if tape[scan] == LBRACKET {
            depth += 1;
        } else if tape[scan] == RBRACKET {
            depth -= 1;
        }
        scan += 1;
    }
    if depth > 0 {
        None
    } else {
        Some(scan)
    }
}

/// Find the position of the `[` matching a `]` just after `start`.
fn scan_backward(tape: &[u8], start: usize) -> (r: Option<usize>)
    requires
        start < tape@.len() <= isize::MAX,
    ensures
        r is Some <==> match_backward(tape@, start as int, 1) is Some,
        r matches Some(p) ==> match_backward(tape@, start as int, 1) == Some(p as int) && p <= start,
{
    let mut depth: usize = 1;
    let mut scan = start;
    loop
        invariant
            scan <= start < tape@.len() <= isize::MAX,
            1 <= depth <= start - scan + 1,
            match_backward(tape@, start as int, 1) == match_backward(
                tape@,
                scan as int,
                depth as int,
            ),
        decreases scan,
    {
        if tape[scan] == RBRACKET {
            depth += 1;
        } else if tape[scan] == LBRACKET {
            depth -= 1;
        }
        if depth == 0 {
            return Some(scan);
        }
        if scan == 0 {
            return None;
        }
        scan -= 1;
    }
}

impl Stepper for Bff {
    type State = BffState;

    open spec fn spec_live(s: BffState, tape: Seq<u8>) -> bool {
        s.ip < tape.len()
    }

    open spec fn spec_step(s: BffState, tape: Seq<u8>) -> (bool, BffState, Seq<u8>) {
        bff_next(s, tape)
    }

    fn live(s: &BffState, tape: &[u8]) -> (b: bool) {
        s.ip < tape.len()
    }

    fn step(s: &mut BffState, tape: &mut [u8]) -> (go: bool) {
        let len = tape.len();
        if s.ip >= len {
            return false;
        }
        let ip = s.ip;
        let i0 = s.head0 % len;
        let i1 = s.head1 % len;
        let op = tape[ip];
        if op == LESS {
            s.head0 = (i0 + len - 1) % len;
        } else if op == GREATER {
            s.head0 = (i0 + 1) % len;
        } else if op == LBRACE {
            s.head1 = (i1 + len - 1) % len;
        } else if op == RBRACE {
            s.head1 = (i1 + 1) % len;
        } else if op == MINUS {
            tape[i0] = tape[i0].wrapping_sub(1);
        } else if op == PLUS {
            tape[i0] = tape[i0].wrapping_add(1);
        } else if op == DOT {
            tape[i1] = tape[i0];
        } else if op == COMMA {
            tape[i0] = tape[i1];
        } else if op == LBRACKET && tape[i0] == 0 {
            // Scan forward for the matching ] on the current tape.
            match scan_forward(tape, ip) {
                Some(p) => {
                    s.ip = p;
                    return true;
                },
                None => {
                    // Unmatched bracket: terminate.
                    return false;
                },
            }
        } else if op == RBRACKET && tape[i0] != 0 {
            // Scan backward for the matching [ on the current tape.
            if ip == 0 {
                return false;
            }
            match scan_backward(tape, ip - 1) {
                Some(p) => {
                    // Land on the first instruction of the loop body.
                    s.ip = p + 1;
                    return true;
                },
                None => {
                    return false;
                },
            }
        }
        s.ip = ip + 1;
        true
    }

    proof fn lemma_step_len(s: BffState, tape: Seq<u8>) {
    }
}

/// The character and mnemonic that the disassembly shows for byte `b`.
pub open spec fn bff_symbol(b: u8) -> (Seq<char>, Seq<char>) {
    if b == LESS {
        ("<"@, "HEAD0--"@)
    } else if b == GREATER {
        (">"@, "HEAD0++"@)
    } else if b == LBRACE {
        ("{"@, "HEAD1--"@)
    } else if b == RBRACE {
        ("}"@, "HEAD1++"@)
    } else if b == MINUS {
        ("-"@, "DEC"@)
    } else if b == PLUS {
        ("+"@, "INC"@)
    } else if b == DOT {
        ("."@, "COPY0->1"@)
    } else if b == COMMA {
        (","@, "COPY1->0"@)
    } else if b == LBRACKET {
        ("["@, "LOOP_START"@)
    } else if b == RBRACKET {
        ("]"@, "LOOP_END"@)
    } else {
        (""@, "NOP"@)
    }
}

/// One line of the BFF disassembly: `AAAA: BB  c  MNEMONIC`.
pub open spec fn bff_line(addr: nat, b: u8) -> Seq<char> {
    hex(addr, 4) + ": "@ + hex(b as nat, 2) + "  "@ + pad_right(bff_symbol(b).0, 2) + " "@
        + bff_symbol(b).1 + "\n"@
}

/// The disassembly of the first `n` bytes of `t`, one line per byte.
pub open spec fn bff_listing(t: Seq<u8>, n: nat) -> Seq<char>
    decreases n,
{
    if n == 0 || n > t.len() {
        Seq::empty()
    } else {
        bff_listing(t, (n - 1) as nat) + bff_line((n - 1) as nat, t[n - 1])
    }
}

fn bff_symbol_exec(b: u8) -> (r: (&'static str, &'static str))
    ensures
        (r.0@, r.1@) == bff_symbol(b),
{
    if b == LESS {
        ("<", "HEAD0--")
    } else if b == GREATER {
        (">", "HEAD0++")
    } else if b == LBRACE {
        ("{", "HEAD1--")
    } else if b == RBRACE {
        ("}", "HEAD1++")
    } else if b == MINUS {
        ("-", "DEC")
    } else if b == PLUS {
        ("+", "INC")
    } else if b == DOT {
        (".", "COPY0->1")
    } else if b == COMMA {
        (",", "COPY1->0")
    } else if b == LBRACKET {
        ("[", "LOOP_START")
    } else if b == RBRACKET {
        ("]", "LOOP_END")
    } else {
        ("", "NOP")
    }
}

impl Substrate for Bff {
    open spec fn spec_execute(tape: Seq<u8>, step_limit: nat) -> (Seq<u8>, nat) {
        bff_execute(tape, step_limit)
    }

    /// Without a battle mode of its own, a battle runs the plain execution.
    open spec fn spec_execute_battle(tape: Seq<u8>, ps: nat, step_limit: nat) -> (Seq<u8>, nat) {
        Self::spec_execute(tape, step_limit)
    }

    fn execute_battle(tape: &mut [u8], ps: usize, step_limit: usize) -> (steps: usize) {
        Self::execute(tape, step_limit)
    }

    fn execute(tape: &mut [u8], step_limit: usize) -> (steps: usize)
    {
        let len = tape.len();
        if len == 0 {
            return 0;
        }
        let mut state = BffState { ip: 0, head0: 0, head1: 0 };
        run_solo::<Bff>(&mut state, tape, step_limit)
    }

    open spec fn spec_is_instruction(byte: u8) -> bool {
        byte == LESS || byte == GREATER || byte == LBRACE || byte == RBRACE || byte == MINUS
            || byte == PLUS || byte == DOT || byte == COMMA || byte == LBRACKET || byte
            == RBRACKET
    }

    fn is_instruction(byte: u8) -> (r: bool) {
        byte == LESS || byte == GREATER || byte == LBRACE || byte == RBRACE || byte == MINUS
            || byte == PLUS || byte == DOT || byte == COMMA || byte == LBRACKET || byte
            == RBRACKET
    }

    fn disassemble(tape: &[u8]) -> (out: String)
        ensures
            out@ == bff_listing(tape@, tape@.len()),
    {
        let mut out = String::new();
        let mut addr: usize = 0;
        while addr < tape.len()
            invariant
                addr <= tape@.len(),
                out@ == bff_listing(tape@, addr as nat),
            decreases tape@.len() - addr,
        {
            let b = tape[addr];
            let (ch, mnemonic) = bff_symbol_exec(b);
            let ghost before = out@;
            push_hex(&mut out, addr, 4);
            out.append(": ");
            push_hex(&mut out, b as usize, 2);
            out.append("  ");
            push_padded(&mut out, ch, 2);
            out.append(" ");
            out.append(mnemonic);
            out.append("\n");
            assert(out@ =~= before + bff_line(addr as nat, b));
            addr += 1;
        }
        out
    }
}

/// A byte that is no instruction only moves the instruction pointer on: the
/// heads and the tape stay as they are.
pub proof fn law_non_instruction_only_advances(s: BffState, t: Seq<u8>)
    requires
        s.ip < t.len(),
        !Bff::spec_is_instruction(t[s.ip as int]),
    ensures
        bff_next(s, t) == (
            true,
            BffState { ip: (s.ip + 1) as usize, head0: s.head0, head1: s.head1 },
            t,
        ),
{
}

/// The brackets of `t[a..b]` weighed: each `[` counts one up, each `]` one
/// down, every other byte nothing.
pub open spec fn bracket_balance(t: Seq<u8>, a: int, b: int) -> int
    decreases b - a,
{
    if b <= a {
        0
    } else {
        bracket_balance(t, a, b - 1) + bracket_weight(t[b - 1])
    }
}

/// A `[` weighs one, a `]` minus one, every other byte nothing.
pub open spec fn bracket_weight(x: u8) -> int {
    if x == LBRACKET {
        1
    } else if x == RBRACKET {
        -1
    } else {
        0
    }
}

proof fn lemma_balance_front(t: Seq<u8>, a: int, b: int)
    requires
        a < b,
    ensures
        bracket_balance(t, a, b) == bracket_weight(t[a]) + bracket_balance(t, a + 1, b),
    decreases b - a,
{
    if b > a + 1 {
        lemma_balance_front(t, a, b - 1);
    } else {
        assert(bracket_balance(t, a + 1, b) == 0);
        assert(bracket_balance(t, a, a) == 0);
    }
}

proof fn lemma_match_backward_balance(t: Seq<u8>, ip: int, scan: int, depth: int)
    requires
        0 <= scan < ip < t.len(),
        depth == -bracket_balance(t, scan + 1, ip + 1),
        depth > 0,
        forall|k: int| scan < k <= ip ==> #[trigger] bracket_balance(t, k, ip + 1) < 0,
    ensures
        match match_backward(t, scan, depth) {
            Some(q) => {
                &&& 0 <= q <= scan
                &&& bracket_balance(t, q, ip + 1) == 0
                &&& forall|k: int| q < k <= ip ==> #[trigger] bracket_balance(t, k, ip + 1) < 0
            },
            None => forall|k: int| 0 <= k <= ip ==> #[trigger] bracket_balance(t, k, ip + 1) < 0,
        },
    decreases scan,
{
    lemma_balance_front(t, scan, ip + 1);
    let d = -bracket_balance(t, scan, ip + 1);
    assert(d == if t[scan] == RBRACKET {
        depth + 1
    } else if t[scan] == LBRACKET {
        depth - 1
    } else {
        depth
    });
    if d != 0 && scan > 0 {
        lemma_match_backward_balance(t, ip, scan - 1, d);
    }
}

/// A `]` taken on a nonzero cell jumps one past the `[` that balances it:
/// from that `[` to the `]` the code holds as many `[` as `]`, and every
/// shorter stretch ending at the `]` holds more `]` than `[`. Where no `[`
/// balances it the machine stops. The heads and the tape are left as they
/// are.
pub proof fn law_backward_jump_lands_past_balancing_bracket(s: BffState, t: Seq<u8>)
    requires
        s.ip < t.len() <= usize::MAX,
        t[s.ip as int] == RBRACKET,
        t[(s.head0 as nat % t.len()) as int] != 0,
    ensures
        bff_next(s, t).2 == t,
        bff_next(s, t).0 ==> {
            let n = bff_next(s, t).1;
            &&& 0 < n.ip <= s.ip
            &&& t[n.ip - 1] == LBRACKET
            &&& bracket_balance(t, n.ip - 1, s.ip + 1) == 0
            &&& forall|k: int| n.ip - 1 < k <= s.ip ==> #[trigger] bracket_balance(t, k, s.ip + 1) < 0
            &&& n.head0 == s.head0
            &&& n.head1 == s.head1
        },
        !bff_next(s, t).0 ==> forall|k: int|
            0 <= k <= s.ip ==> #[trigger] bracket_balance(t, k, s.ip + 1) < 0,
{
    let ip = s.ip as int;
    assert(bracket_balance(t, ip, ip + 1) == -1) by {
        assert(bracket_balance(t, ip, ip) == 0);
    }
    if ip > 0 {
        lemma_match_backward_balance(t, ip, ip - 1, 1);
        match match_backward(t, ip - 1, 1) {
            Some(q) => {
                assert(bff_next(s, t).1.ip == q + 1);
                lemma_balance_front(t, q, ip + 1);
            },
            None => {},
        }
    }
}

proof fn lemma_match_forward_balance(t: Seq<u8>, ip: int, scan: int, depth: int)
    requires
        0 <= ip < scan <= t.len(),
        depth == bracket_balance(t, ip, scan),
        depth > 0,
        forall|k: int| ip < k <= scan ==> #[trigger] bracket_balance(t, ip, k) > 0,
    ensures
        match match_forward(t, scan, depth) {
            Some(p) => {
                &&& scan < p <= t.len()
                &&& bracket_balance(t, ip, p) == 0
                &&& forall|k: int| ip < k < p ==> #[trigger] bracket_balance(t, ip, k) > 0
            },
            None => forall|k: int| ip < k <= t.len() ==> #[trigger] bracket_balance(t, ip, k) > 0,
        },
    decreases t.len() - scan,
{
    if scan < t.len() {
        let d = bracket_balance(t, ip, scan + 1);
        assert(d == if t[scan] == LBRACKET {
            depth + 1
        } else if t[scan] == RBRACKET {
            depth - 1
        } else {
            depth
        });
        if d > 0 {
            lemma_match_forward_balance(t, ip, scan + 1, d);
        } else {
            assert(match_forward(t, scan + 1, d) == Some(scan + 1));
        }
    }
}

/// A `[` taken on a zero cell jumps one past the `]` that balances it: from
/// the `[` to that `]` the code holds as many `[` as `]`, and every shorter
/// stretch from the `[` holds more `[` than `]`. Where no `]` balances it
/// the machine stops. The heads and the tape are left as they are.
pub proof fn law_forward_jump_lands_past_balancing_bracket(s: BffState, t: Seq<u8>)
    requires
        s.ip < t.len() <= usize::MAX,
        t[s.ip as int] == LBRACKET,
        t[(s.head0 as nat % t.len()) as int] == 0,
    ensures
        bff_next(s, t).2 == t,
        bff_next(s, t).0 ==> {
            let n = bff_next(s, t).1;
            &&& s.ip + 1 < n.ip <= t.len()
            &&& t[n.ip - 1] == RBRACKET
            &&& bracket_balance(t, s.ip as int, n.ip as int) == 0
            &&& forall|k: int| s.ip < k < n.ip ==> #[trigger] bracket_balance(t, s.ip as int, k) > 0
            &&& n.head0 == s.head0
            &&& n.head1 == s.head1
        },
        !bff_next(s, t).0 ==> forall|k: int|
            s.ip < k <= t.len() ==> #[trigger] bracket_balance(t, s.ip as int, k) > 0,
{
    let ip = s.ip as int;
    assert(bracket_balance(t, ip, ip + 1) == 1) by {
        assert(bracket_balance(t, ip, ip) == 0);
    }
    lemma_match_forward_balance(t, ip, ip + 1, 1);
    match match_forward(t, ip + 1, 1) {
        Some(p) => {
            assert(bff_next(s, t).1.ip == p);
            assert(bracket_balance(t, ip, p - 1) > 0);
        },
        None => {},
    }
}

/// The head moves: `<` and `>` move the read head one cell back or on, `{`
/// and `}` the write head, around the tape; the other head, the tape and the
/// flow (on to the next byte) are left alone.
pub proof fn law_head_moves(s: BffState, t: Seq<u8>)
    requires
        s.ip < t.len() <= usize::MAX,
        s.head0 < t.len(),
        s.head1 < t.len(),
        t[s.ip as int] == LESS || t[s.ip as int] == GREATER || t[s.ip as int] == LBRACE || t[s.ip
            as int] == RBRACE,
    ensures
        ({
            let (go, n, t2) = bff_next(s, t);
            let op = t[s.ip as int];
            let len = t.len() as int;
            &&& go
            &&& t2 == t
            &&& n.ip == s.ip + 1
            &&& n.head0 as int == if op == LESS {
                (s.head0 + len - 1) % len
            } else if op == GREATER {
                (s.head0 + 1) % len
            } else {
                s.head0 as int
            }
            &&& n.head1 as int == if op == LBRACE {
                (s.head1 + len - 1) % len
            } else if op == RBRACE {
                (s.head1 + 1) % len
            } else {
                s.head1 as int
            }
        }),
{
    vstd::arithmetic::div_mod::lemma_small_mod(s.head0 as nat, t.len());
    vstd::arithmetic::div_mod::lemma_small_mod(s.head1 as nat, t.len());
}

/// The cell ops: `+` and `-` add or take one (mod 256) at the read head,
/// `.` copies the read head's cell to the write head's, `,` the write
/// head's to the read head's. Only that one cell changes; the heads stay and
/// the flow moves on to the next byte.
pub proof fn law_cell_ops(s: BffState, t: Seq<u8>)
    requires
        s.ip < t.len() <= usize::MAX,
        s.head0 < t.len(),
        s.head1 < t.len(),
        t[s.ip as int] == PLUS || t[s.ip as int] == MINUS || t[s.ip as int] == DOT || t[s.ip as int]
            == COMMA,
    ensures
        ({
            let (go, n, t2) = bff_next(s, t);
            let op = t[s.ip as int];
            let h0 = s.head0 as int;
            let h1 = s.head1 as int;
            let at = if op == DOT { h1 } else { h0 };
            &&& go
            &&& n == BffState { ip: (s.ip + 1) as usize, head0: s.head0, head1: s.head1 }
            &&& t2.len() == t.len()
            &&& forall|i: int| 0 <= i < t.len() && i != at ==> t2[i] == t[i]
            &&& t2[at] as int == if op == PLUS {
                (t[h0] + 1) % 256
            } else if op == MINUS {
                (t[h0] + 255) % 256
            } else if op == DOT {
                t[h0] as int
            } else {
                t[h1] as int
            }
        }),
{
    vstd::arithmetic::div_mod::lemma_small_mod(s.head0 as nat, t.len());
    vstd::arithmetic::div_mod::lemma_small_mod(s.head1 as nat, t.len());
    let x = t[s.head0 as int];
    lemma_byte_arith(x, 1, x.wrapping_add(1), x.wrapping_sub(1));
}

/// Without a battle mode of its own, a battle is the plain run of the tape,
/// whatever the program size.
pub proof fn law_battle_is_plain_run(t: Seq<u8>, program_size: nat, step_limit: nat)
    ensures
        Bff::spec_execute_battle(t, program_size, step_limit) == Bff::spec_execute(t, step_limit),
{
}

} // verus!
