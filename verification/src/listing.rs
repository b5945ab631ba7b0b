//! Lines of assembly text: an instruction with its operands, a label, and
//! the operand forms the backends use.
use vstd::prelude::*;
use crate::text::{decimal, push_decimal};

verus! {

/// `    op\n`
pub open spec fn ins0(op: Seq<char>) -> Seq<char> {
    "    "@ + op + "\n"@
}

/// `    op a\n`
pub open spec fn ins1(op: Seq<char>, a: Seq<char>) -> Seq<char> {
    "    "@ + op + " "@ + a + "\n"@
}

/// `    op a, b\n`
pub open spec fn ins2(op: Seq<char>, a: Seq<char>, b: Seq<char>) -> Seq<char> {
    "    "@ + op + " "@ + a + ", "@ + b + "\n"@
}

/// `name:\n`
pub open spec fn label_line(name: Seq<char>) -> Seq<char> {
    name + ":\n"@
}

/// `[a]`: the word at the address in `a`.
pub open spec fn deref(a: Seq<char>) -> Seq<char> {
    "["@ + a + "]"@
}

/// `[rbp-off]`: a stack slot.
pub open spec fn slot(off: int) -> Seq<char> {
    "[rbp-"@ + decimal(off) + "]"@
}

/// Appends `    op\n`.
pub fn push_ins0(out: &mut String, op: &str)
    ensures
        final(out)@ == old(out)@ + ins0(op@),
{
    out.append("    ");
    out.append(op);
    out.append("\n");
    assert(out@ =~= old(out)@ + ins0(op@));
}

/// Appends `    op a\n`.
pub fn push_ins1(out: &mut String, op: &str, a: &str)
    ensures
        final(out)@ == old(out)@ + ins1(op@, a@),
{
    out.append("    ");
    out.append(op);
    out.append(" ");
    out.append(a);
    out.append("\n");
    assert(out@ =~= old(out)@ + ins1(op@, a@));
}

/// Appends `    op a, b\n`.
pub fn push_ins2(out: &mut String, op: &str, a: &str, b: &str)
    ensures
        final(out)@ == old(out)@ + ins2(op@, a@, b@),
{
    out.append("    ");
    out.append(op);
    out.append(" ");
    out.append(a);
    out.append(", ");
    out.append(b);
    out.append("\n");
    assert(out@ =~= old(out)@ + ins2(op@, a@, b@));
}

/// Appends `name:\n`.
pub fn push_label(out: &mut String, name: &str)
    ensures
        final(out)@ == old(out)@ + label_line(name@),
{
    out.append(name);
    out.append(":\n");
    assert(out@ =~= old(out)@ + label_line(name@));
}

/// `[a]`
pub fn deref_text(a: &str) -> (r: String)
    ensures
        r@ == deref(a@),
{
    let mut s = String::from_str("[");
    s.append(a);
    s.append("]");
    assert(s@ =~= deref(a@));
    s
}

/// `[rbp-off]`
pub fn slot_text(off: i64) -> (r: String)
    ensures
        r@ == slot(off as int),
{
    let mut s = String::from_str("[rbp-");
    push_decimal(&mut s, off);
    s.append("]");
    assert(s@ =~= slot(off as int));
    s
}

/// The decimal text of `n`.
pub fn decimal_text(n: i64) -> (r: String)
    ensures
        r@ == decimal(n as int),
{
    let mut s = String::new();
    push_decimal(&mut s, n);
    assert(s@ =~= decimal(n as int));
    s
}

} // verus!
