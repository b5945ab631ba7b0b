//! Small string utilities used throughout the compiler: pushing characters,
//! decimal and hexadecimal rendering of integers, and the UTF-8 length of
//! a character sequence.
use vstd::prelude::*;
use vstd::string::*;

verus! {

/// `String::push` from std: appends one character.
#[verifier::external_body]
pub(crate) fn push_char(s: &mut String, c: char)
    ensures
        final(s)@ == old(s)@.push(c),
{
    s.push(c);
}

/// `==` on two string slices from std.
#[verifier::external_body]
pub(crate) fn str_eq(a: &str, b: &str) -> (r: bool)
    ensures
        r == (a@ == b@),
{
    a == b
}

/// The character for a decimal or hexadecimal digit value (upper case).
pub open spec fn digit_char(d: nat) -> char {
    if d < 10 {
        (('0' as nat) + d) as char
    } else {
        (('A' as nat) + d - 10) as char
    }
}

/// The digits of `n` written in base `b` (most significant first, no sign).
pub open spec fn digits(n: nat, b: nat) -> Seq<char>
    recommends
        b >= 2,
    decreases n,
{
    if b < 2 || n < b {
        seq![digit_char(n)]
    } else {
        proof {
            assert(n / b < n) by (nonlinear_arith)
                requires
                    b >= 2,
                    n >= b,
            ;
        }
        digits(n / b, b).push(digit_char(n % b))
    }
}

/// A digit's character tells the digit.
proof fn lemma_digit_char_injective(a: nat, b: nat)
    requires
        a < 10,
        b < 10,
        digit_char(a) == digit_char(b),
    ensures
        a == b,
{
    assert(('0' as nat) + a == ('0' as nat) + b);
}

/// One decimal digit for numbers below 10, more for the others.
proof fn lemma_digits_len(n: nat)
    ensures
        digits(n, 10).len() >= 1,
        (digits(n, 10).len() == 1) == (n < 10),
    decreases n,
{
    if n >= 10 {
        lemma_digits_len(n / 10);
    }
}

/// Different numbers have different decimal renderings.
pub proof fn lemma_digits_injective(a: nat, b: nat)
    requires
        digits(a, 10) == digits(b, 10),
    ensures
        a == b,
    decreases a,
{
    lemma_digits_len(a);
    lemma_digits_len(b);
    if a < 10 {
        assert(b < 10);
        assert(digits(a, 10) == seq![digit_char(a)]);
        assert(digits(b, 10) == seq![digit_char(b)]);
        assert(digits(a, 10)[0] == digit_char(a));
        assert(digits(b, 10)[0] == digit_char(b));
        lemma_digit_char_injective(a, b);
    } else {
        assert(b >= 10);
        let da = digits(a, 10);
        let db = digits(b, 10);
        assert(da.last() == db.last());
        assert(da.drop_last() =~= digits(a / 10, 10));
        assert(db.drop_last() =~= digits(b / 10, 10));
        lemma_digit_char_injective(a % 10, b % 10);
        lemma_digits_injective(a / 10, b / 10);
        assert(a == 10 * (a / 10) + a % 10);
        assert(b == 10 * (b / 10) + b % 10);
    }
}

/// The decimal digits of `n` are digit characters, and read back as `n`.
pub proof fn lemma_digits_value(n: nat)
    ensures
        forall|i: int| 0 <= i < digits(n, 10).len() ==> '0' <= #[trigger] digits(n, 10)[i] <= '9',
        digits(n, 10).len() > 0,
        crate::chars::digits_value(digits(n, 10), 10) == n,
    decreases n,
{
    let d = digits(n, 10);
    let r = n % 10;
    assert(digit_char(r) as int == '0' as int + r);
    assert(crate::chars::digit_value(digit_char(r), 10) == Some(r));
    if n < 10 {
        assert(d == seq![digit_char(n)]);
        assert(d.drop_last() =~= Seq::<char>::empty());
        assert(d.last() == digit_char(r));
        assert(crate::chars::digits_value(d.drop_last(), 10) == 0);
        assert(crate::chars::digits_value(d, 10) == crate::chars::digits_value(d.drop_last(), 10) * 10 + r);
    } else {
        lemma_digits_value(n / 10);
        assert(d.drop_last() =~= digits(n / 10, 10));
        assert forall|i: int| 0 <= i < d.len() implies '0' <= #[trigger] d[i] <= '9' by {
            if i < d.len() - 1 {
                assert(d[i] == digits(n / 10, 10)[i]);
            }
        }
        assert(d.last() == digit_char(r));
        assert(crate::chars::digits_value(d.drop_last(), 10) == n / 10);
        assert(crate::chars::digits_value(d, 10) == crate::chars::digits_value(d.drop_last(), 10) * 10 + r);
        assert(n == 10 * (n / 10) + n % 10);
    }
}

/// Decimal rendering of a signed integer, as `{}` formats it.
pub open spec fn decimal(n: int) -> Seq<char> {
    if n < 0 {
        seq!['-'] + digits((-n) as nat, 10)
    } else {
        digits(n as nat, 10)
    }
}

/// Alternate upper-case hexadecimal rendering, as `{:#X}` formats it.
pub open spec fn hex_alt(n: nat) -> Seq<char> {
    seq!['0', 'x'] + digits(n, 16)
}

fn digit_of(d: u64) -> (c: char)
    requires
        d < 16,
    ensures
        c == digit_char(d as nat),
{
    let table: [char; 16] = ['0', '1', '2', '3', '4', '5', '6', '7', '8', '9', 'A', 'B', 'C', 'D', 'E', 'F'];
    assert(table@ =~= seq!['0', '1', '2', '3', '4', '5', '6', '7', '8', '9', 'A', 'B', 'C', 'D', 'E', 'F']);
    table[d as usize]
}

/// Appends the base-`b` digits of `n` to `out`.
pub fn push_digits(out: &mut String, n: u64, b: u64)
    requires
        2 <= b <= 16,
    ensures
        final(out)@ == old(out)@ + digits(n as nat, b as nat),
    decreases n,
{
    if n < b {
        push_char(out, digit_of(n));
    } else {
        assert(n / b < n) by (nonlinear_arith)
            requires
                b >= 2,
                n >= b,
        ;
        push_digits(out, n / b, b);
        push_char(out, digit_of(n % b));
    }
}

/// Appends the decimal rendering of `n` to `out`.
pub fn push_decimal(out: &mut String, n: i64)
    ensures
        final(out)@ == old(out)@ + decimal(n as int),
{
    if n < 0 {
        push_char(out, '-');
        let m: u64 = if n == i64::MIN {
            9223372036854775808u64
        } else {
            (-n) as u64
        };
        push_digits(out, m, 10);
        assert(old(out)@.push('-') + digits(m as nat, 10) =~= old(out)@ + decimal(n as int));
    } else {
        push_digits(out, n as u64, 10);
    }
}

/// Appends the decimal rendering of an unsigned count to `out`.
pub fn push_count(out: &mut String, n: usize)
    ensures
        final(out)@ == old(out)@ + digits(n as nat, 10),
{
    push_digits(out, n as u64, 10);
}

/// Appends `{:#X}` of `n` to `out`.
pub fn push_hex_alt(out: &mut String, n: u64)
    ensures
        final(out)@ == old(out)@ + hex_alt(n as nat),
{
    out.append("0x");
    proof {
        reveal_strlit("0x");
    }
    let ghost mid = out@;
    push_digits(out, n, 16);
    assert(mid + digits(n as nat, 16) =~= old(out)@ + hex_alt(n as nat));
}

/// What `{:?}` renders for a string with these characters: the characters
/// in double quotes, escaped as `str::escape_debug` escapes them.
pub uninterp spec fn debug_quoted(s: Seq<char>) -> Seq<char>;

/// `<str as Debug>::fmt` from std, through `format!("{:?}", ..)`.
#[verifier::external_body]
pub(crate) fn debug_string(s: &str) -> (r: String)
    ensures
        r@ == debug_quoted(s@),
{
    format!("{:?}", s)
}

/// `n` copies of `c`.
pub open spec fn repeat(c: char, n: nat) -> Seq<char> {
    Seq::new(n, |i: int| c)
}

/// Appends `n` copies of `c` to `out`.
pub fn push_repeat(out: &mut String, c: char, n: usize)
    ensures
        final(out)@ == old(out)@ + repeat(c, n as nat),
{
    let mut i: usize = 0;
    while i < n
        invariant
            i <= n,
            out@ == old(out)@ + repeat(c, i as nat),
        decreases n - i,
    {
        push_char(out, c);
        i = i + 1;
        assert(out@ =~= old(out)@ + repeat(c, i as nat));
    }
}

} // verus!
