use vstd::prelude::*;

use crate::text::{hex, push_hex};

verus! {

/// A disassembler that reads a tape one instruction at a time.
///
/// `spec_line` gives the text shown for the instruction at `pc` and how many
/// bytes that instruction takes; `line` is its executable form.
pub trait Lister {
    spec fn spec_line(t: Seq<u8>, pc: nat) -> (Seq<char>, nat);

    fn line(t: &[u8], pc: usize) -> (r: (String, usize))
        requires
            pc < t@.len() <= isize::MAX,
        ensures
            (r.0@, r.1 as nat) == Self::spec_line(t@, pc as nat),
            r.1 >= 1,
    ;
}

/// The disassembly of `t` from position `pc` to its end.
pub open spec fn listing<L: Lister>(t: Seq<u8>, pc: nat) -> Seq<char>
    decreases t.len() - pc,
{
    if pc >= t.len() {
        Seq::empty()
    } else {
        let (text, size) = L::spec_line(t, pc);
        if size == 0 || pc + size >= t.len() {
            text
        } else {
            text + listing::<L>(t, pc + size)
        }
    }
}

/// The disassembly of the whole tape.
pub fn list<L: Lister>(t: &[u8]) -> (out: String)
    requires
        t@.len() <= isize::MAX,
    ensures
        out@ == listing::<L>(t@, 0),
{
    let mut out = String::new();
    let len = t.len();
    let mut pc: usize = 0;
    while pc < len
        invariant
            pc <= len == t@.len() <= isize::MAX,
            out@ + listing::<L>(t@, pc as nat) == listing::<L>(t@, 0),
        decreases len - pc,
    {
        let ghost before = out@;
        let (text, size) = L::line(t, pc);
        out.append(text.as_str());
        proof {
            assert(listing::<L>(t@, pc as nat) == text@ + listing::<L>(t@, (pc + size) as nat));
            assert(out@ + listing::<L>(t@, (pc + size) as nat) =~= before + listing::<L>(
                t@,
                pc as nat,
            ));
        }
        if size >= len - pc {
            pc = len;
            proof {
                assert(listing::<L>(t@, pc as nat) == Seq::<char>::empty());
            }
        } else {
            pc = pc + size;
        }
    }
    out
}

/// The line shown for a byte that does not start a complete instruction.
pub open spec fn trailing_line(pc: nat, b: u8) -> Seq<char> {
    hex(pc, 4) + ": "@ + hex(b as nat, 2) + "     (trailing)\n"@
}

/// Append `trailing_line(pc, b)`.
pub fn push_trailing_line(out: &mut String, pc: usize, b: u8)
    ensures
        final(out)@ == old(out)@ + trailing_line(pc as nat, b),
{
    push_hex(out, pc, 4);
    out.append(": ");
    push_hex(out, b as usize, 2);
    out.append("     (trailing)\n");
    assert(out@ =~= old(out)@ + trailing_line(pc as nat, b));
}

} // verus!
