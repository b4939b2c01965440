//! Decimal and hexadecimal rendering for the boot-report lines.
use vstd::prelude::*;
use vstd::string::*;

verus! {

/// The lower-case digit for `d < 16`.
pub open spec fn digit_char(d: nat) -> char {
    if d == 0 { '0' } else if d == 1 { '1' } else if d == 2 { '2' } else if d == 3 { '3' }
    else if d == 4 { '4' } else if d == 5 { '5' } else if d == 6 { '6' } else if d == 7 { '7' }
    else if d == 8 { '8' } else if d == 9 { '9' } else if d == 10 { 'a' } else if d == 11 { 'b' }
    else if d == 12 { 'c' } else if d == 13 { 'd' } else if d == 14 { 'e' } else { 'f' }
}

/// `n` in decimal, most significant digit first, no leading zeros.
pub open spec fn dec(n: nat) -> Seq<char>
    decreases n,
{
    if n < 10 { seq![digit_char(n)] } else { dec(n / 10).push(digit_char(n % 10)) }
}

/// `n` in lower-case hex, most significant digit first, no leading zeros.
pub open spec fn hex(n: nat) -> Seq<char>
    decreases n,
{
    if n < 16 { seq![digit_char(n)] } else { hex(n / 16).push(digit_char(n % 16)) }
}

/// `n` in hex, left-padded with zeros to `width` digits.
pub open spec fn hex_padded(n: nat, width: nat) -> Seq<char> {
    let d = hex(n);
    if d.len() >= width { d } else { Seq::new((width - d.len()) as nat, |i: int| '0') + d }
}

fn digit(d: u64) -> (r: &'static str)
    requires
        d < 16,
    ensures
        r@ == seq![digit_char(d as nat)],
{
    proof {
        reveal_strlit("0");
        reveal_strlit("1");
        reveal_strlit("2");
        reveal_strlit("3");
        reveal_strlit("4");
        reveal_strlit("5");
        reveal_strlit("6");
        reveal_strlit("7");
        reveal_strlit("8");
        reveal_strlit("9");
        reveal_strlit("a");
        reveal_strlit("b");
        reveal_strlit("c");
        reveal_strlit("d");
        reveal_strlit("e");
        reveal_strlit("f");
    }
    if d == 0 { "0" } else if d == 1 { "1" } else if d == 2 { "2" } else if d == 3 { "3" }
    else if d == 4 { "4" } else if d == 5 { "5" } else if d == 6 { "6" } else if d == 7 { "7" }
    else if d == 8 { "8" } else if d == 9 { "9" } else if d == 10 { "a" } else if d == 11 { "b" }
    else if d == 12 { "c" } else if d == 13 { "d" } else if d == 14 { "e" } else { "f" }
}

/// Append `n` in decimal.
pub fn push_dec(s: &mut String, n: u64)
    ensures
        final(s)@ == old(s)@ + dec(n as nat),
    decreases n,
{
    if n >= 10 {
        push_dec(s, n / 10);
        s.append(digit(n % 10));
    } else {
        s.append(digit(n));
    }
}

/// Append `n` in hex.
pub fn push_hex(s: &mut String, n: u64)
    ensures
        final(s)@ == old(s)@ + hex(n as nat),
    decreases n,
{
    if n >= 16 {
        push_hex(s, n / 16);
        s.append(digit(n % 16));
    } else {
        s.append(digit(n));
    }
}

/// Append `n` in hex, left-padded with zeros to `width` digits.
pub fn push_hex_padded(s: &mut String, n: u64, width: u64)
    ensures
        final(s)@ == old(s)@ + hex_padded(n as nat, width as nat),
{
    let mut t = String::from_str("");
    push_hex(&mut t, n);
    proof {
        reveal_strlit("");
        assert(t@ =~= hex(n as nat));
    }
    let len = t.as_str().unicode_len();
    let mut k: u64 = len as u64;
    let ghost start = s@;
    while k < width
        invariant
            k <= width || k == len,
            len == hex(n as nat).len(),
            k >= len,
            s@ == start + Seq::new((k - len) as nat, |i: int| '0'),
        decreases width - k,
    {
        proof {
            reveal_strlit("0");
        }
        s.append("0");
        proof {
            assert(s@ =~= start + Seq::new((k + 1 - len) as nat, |i: int| '0'));
        }
        k = k + 1;
    }
    s.append(t.as_str());
    proof {
        if hex(n as nat).len() >= width {
            assert(k == len);
            assert(s@ =~= start + hex(n as nat));
        } else {
            assert(s@ =~= start + (Seq::new((width - len) as nat, |i: int| '0') + hex(n as nat)));
        }
    }
}

} // verus!
