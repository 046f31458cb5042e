//! Writing numbers as text: lower-case hexadecimal and decimal digits.
use vstd::prelude::*;
use vstd::string::StringExecFns;

verus! {

/// The lower-case hexadecimal digit for `d`.
pub open spec fn hex_char(d: nat) -> char {
    if d == 0 { '0' } else if d == 1 { '1' } else if d == 2 { '2' } else if d == 3 { '3' }
    else if d == 4 { '4' } else if d == 5 { '5' } else if d == 6 { '6' } else if d == 7 { '7' }
    else if d == 8 { '8' } else if d == 9 { '9' } else if d == 10 { 'a' } else if d == 11 { 'b' }
    else if d == 12 { 'c' } else if d == 13 { 'd' } else if d == 14 { 'e' } else { 'f' }
}

/// The hexadecimal digits of `v`, without leading zeros (`{:x}`).
pub open spec fn hex_min(v: nat) -> Seq<char>
    decreases v,
{
    if v < 16 {
        seq![hex_char(v)]
    } else {
        hex_min(v / 16).push(hex_char(v % 16))
    }
}

/// `n` zero digits.
pub open spec fn zeros(n: nat) -> Seq<char> {
    Seq::new(n, |i: int| '0')
}

/// The hexadecimal digits of `v`, padded with zeros to at least `width`
/// digits (`{:0width$x}`).
pub open spec fn hex_padded(v: nat, width: nat) -> Seq<char> {
    let digits = hex_min(v);
    if digits.len() >= width {
        digits
    } else {
        zeros((width - digits.len()) as nat) + digits
    }
}

/// `0x` followed by the hexadecimal digits of `v`, padded to `width` digits.
pub open spec fn hex_text(v: nat, width: nat) -> Seq<char> {
    "0x"@ + hex_padded(v, width)
}

/// The decimal digit for `d`.
pub open spec fn dec_char(d: nat) -> char {
    if d == 0 { '0' } else if d == 1 { '1' } else if d == 2 { '2' } else if d == 3 { '3' }
    else if d == 4 { '4' } else if d == 5 { '5' } else if d == 6 { '6' } else if d == 7 { '7' }
    else if d == 8 { '8' } else { '9' }
}

/// The decimal digits of `v` (`{}`).
pub open spec fn dec_min(v: nat) -> Seq<char>
    decreases v,
{
    if v < 10 {
        seq![dec_char(v)]
    } else {
        dec_min(v / 10).push(dec_char(v % 10))
    }
}

/// The text of a hexadecimal digit.
pub fn hex_digit_str(d: u64) -> (r: &'static str)
    requires
        d < 16,
    ensures
        r@ == seq![hex_char(d as nat)],
{
    if d == 0 { proof { reveal_strlit("0"); } "0" }
    else if d == 1 { proof { reveal_strlit("1"); } "1" }
    else if d == 2 { proof { reveal_strlit("2"); } "2" }
    else if d == 3 { proof { reveal_strlit("3"); } "3" }
    else if d == 4 { proof { reveal_strlit("4"); } "4" }
    else if d == 5 { proof { reveal_strlit("5"); } "5" }
    else if d == 6 { proof { reveal_strlit("6"); } "6" }
    else if d == 7 { proof { reveal_strlit("7"); } "7" }
    else if d == 8 { proof { reveal_strlit("8"); } "8" }
    else if d == 9 { proof { reveal_strlit("9"); } "9" }
    else if d == 10 { proof { reveal_strlit("a"); } "a" }
    else if d == 11 { proof { reveal_strlit("b"); } "b" }
    else if d == 12 { proof { reveal_strlit("c"); } "c" }
    else if d == 13 { proof { reveal_strlit("d"); } "d" }
    else if d == 14 { proof { reveal_strlit("e"); } "e" }
    else { proof { reveal_strlit("f"); } "f" }
}

/// Appends the hexadecimal digits of `v`, without leading zeros.
pub fn push_hex_min(out: &mut String, v: u64)
    ensures
        final(out)@ == old(out)@ + hex_min(v as nat),
    decreases v,
{
    if v >= 16 {
        push_hex_min(out, v / 16);
    }
    let ghost before = out@;
    out.append(hex_digit_str(v % 16));
    proof {
        if v >= 16 {
            assert(out@ =~= old(out)@ + hex_min(v as nat));
        } else {
            assert(out@ =~= old(out)@ + hex_min(v as nat));
        }
    }
}

/// The number of hexadecimal digits of `v`.
pub fn hex_len(v: u64) -> (n: usize)
    ensures
        n == hex_min(v as nat).len(),
{
    proof {
        lemma_hex_min_len_bound(v as nat);
    }
    let mut x = v;
    let mut n: usize = 1;
    while x >= 16
        invariant
            n + hex_min(x as nat).len() == hex_min(v as nat).len() + 1,
            hex_min(v as nat).len() <= 16,
            x <= v,
            n >= 1,
        decreases x,
    {
        proof {
            lemma_hex_min_len_bound((x / 16) as nat);
        }
        x = x / 16;
        n = n + 1;
    }
    n
}

/// `16^k`.
pub open spec fn pow16(k: nat) -> nat
    decreases k,
{
    if k == 0 { 1 } else { 16 * pow16((k - 1) as nat) }
}

/// A `u64` has between one and sixteen hexadecimal digits.
pub proof fn lemma_hex_min_len_bound(v: nat)
    requires
        v <= u64::MAX,
    ensures
        hex_min(v).len() <= 16,
        hex_min(v).len() >= 1,
{
    reveal_with_fuel(pow16, 17);
    assert(pow16(16) == 0x1_0000_0000_0000_0000);
    lemma_hex_min_len_pow(v, 16);
}

/// A value below `16^k` has between one and `k` hexadecimal digits.
pub proof fn lemma_hex_min_len_pow(v: nat, k: nat)
    requires
        k >= 1,
        v < pow16(k),
    ensures
        hex_min(v).len() <= k,
        hex_min(v).len() >= 1,
    decreases v,
{
    if v >= 16 {
        if k == 1 {
            assert(pow16(1) == 16) by { reveal_with_fuel(pow16, 2); }
        }
        assert(v / 16 < pow16((k - 1) as nat)) by (nonlinear_arith)
            requires v < pow16(k), pow16(k) == 16 * pow16((k - 1) as nat);
        lemma_hex_min_len_pow(v / 16, (k - 1) as nat);
    }
}

/// `0x` and the four hexadecimal digits of a 16-bit value, most
/// significant first: 4096s, 256s, 16s, units.
pub open spec fn hex_word_text(v: u16) -> Seq<char> {
    seq!['0', 'x', hex_char(v as nat / 4096), hex_char(v as nat / 256 % 16), hex_char(v as nat / 16 % 16), hex_char(v as nat % 16)]
}

/// A 16-bit value written with four digits is `0x` and its four digits,
/// most significant first.
pub proof fn lemma_hex_text_word(v: u16)
    ensures
        hex_text(v as nat, 4) == hex_word_text(v),
{
    let n = v as nat;
    assert(n / 16 / 16 == n / 256);
    assert(n / 256 / 16 == n / 4096);
    assert(n / 4096 < 16);
    assert(hex_min(0) == seq![hex_char(0)]);
    assert(hex_char(0) == '0');
    if n < 16 {
        assert(hex_min(n) == seq![hex_char(n)]);
        assert(n / 4096 == 0 && n / 256 % 16 == 0 && n / 16 % 16 == 0 && n % 16 == n);
        assert(hex_padded(n, 4) =~= zeros(3) + seq![hex_char(n)]);
    } else if n < 256 {
        assert(hex_min(n / 16) == seq![hex_char(n / 16)]);
        assert(hex_min(n) == seq![hex_char(n / 16), hex_char(n % 16)]);
        assert(n / 4096 == 0 && n / 256 % 16 == 0 && n / 16 % 16 == n / 16);
        assert(hex_padded(n, 4) =~= zeros(2) + seq![hex_char(n / 16), hex_char(n % 16)]);
    } else if n < 4096 {
        assert(hex_min(n / 256) == seq![hex_char(n / 256)]);
        assert(hex_min(n / 16) == seq![hex_char(n / 256), hex_char(n / 16 % 16)]);
        assert(hex_min(n) == seq![hex_char(n / 256), hex_char(n / 16 % 16), hex_char(n % 16)]);
        assert(n / 4096 == 0 && n / 256 % 16 == n / 256);
        assert(hex_padded(n, 4) =~= zeros(1) + seq![hex_char(n / 256), hex_char(n / 16 % 16), hex_char(n % 16)]);
    } else {
        assert(hex_min(n / 4096) == seq![hex_char(n / 4096)]);
        assert(hex_min(n / 256) == seq![hex_char(n / 4096), hex_char(n / 256 % 16)]);
        assert(hex_min(n / 16) == seq![hex_char(n / 4096), hex_char(n / 256 % 16), hex_char(n / 16 % 16)]);
        assert(hex_min(n) == seq![hex_char(n / 4096), hex_char(n / 256 % 16), hex_char(n / 16 % 16), hex_char(n % 16)]);
        assert(hex_padded(n, 4) == hex_min(n));
    }
    reveal_strlit("0x");
    assert(hex_text(n, 4) =~= hex_word_text(v));
}

/// `0x` and the two hexadecimal digits of a byte: 16s, then units.
pub open spec fn hex_byte_text(v: u8) -> Seq<char> {
    seq!['0', 'x', hex_char(v as nat / 16), hex_char(v as nat % 16)]
}

/// A byte written with two digits is `0x` and its two digits, most
/// significant first.
pub proof fn lemma_hex_text_byte(v: u8)
    ensures
        hex_text(v as nat, 2) == hex_byte_text(v),
{
    let n = v as nat;
    assert(hex_min(0) == seq![hex_char(0)]);
    assert(hex_char(0) == '0');
    if n < 16 {
        assert(hex_min(n) == seq![hex_char(n)]);
        assert(n / 16 == 0 && n % 16 == n);
        assert(hex_padded(n, 2) =~= zeros(1) + seq![hex_char(n)]);
    } else {
        assert(hex_min(n / 16) == seq![hex_char(n / 16)]);
        assert(hex_min(n) == seq![hex_char(n / 16), hex_char(n % 16)]);
        assert(hex_padded(n, 2) == hex_min(n));
    }
    reveal_strlit("0x");
    assert(hex_text(n, 2) =~= hex_byte_text(v));
}

/// Appends the hexadecimal digits of `v`, padded with zeros to at least `width` digits.
pub fn push_hex(out: &mut String, v: u64, width: usize)
    ensures
        final(out)@ == old(out)@ + hex_padded(v as nat, width as nat),
{
    let n = hex_len(v);
    let mut i = n;
    while i < width
        invariant
            n <= i,
            n < width ==> i <= width,
            n >= width ==> i == n,
            n == hex_min(v as nat).len(),
            out@ == old(out)@ + zeros((i - n) as nat),
        decreases width - i,
    {
        proof { reveal_strlit("0"); }
        out.append("0");
        proof {
            assert(out@ =~= old(out)@ + zeros((i + 1 - n) as nat));
        }
        i = i + 1;
    }
    push_hex_min(out, v);
    proof {
        if n >= width {
            assert(old(out)@ + zeros(0) =~= old(out)@);
            assert(out@ =~= old(out)@ + hex_padded(v as nat, width as nat));
        } else {
            assert(i == width);
            let z = zeros((width - n) as nat);
            assert(out@ == old(out)@ + z + hex_min(v as nat));
            assert(hex_padded(v as nat, width as nat) == z + hex_min(v as nat));
            assert(out@ =~= old(out)@ + hex_padded(v as nat, width as nat));
        }
    }
}

/// Appends `0x` and the hexadecimal digits of `v`, padded to at least `width` digits.
pub fn push_hex_text(out: &mut String, v: u64, width: usize)
    ensures
        final(out)@ == old(out)@ + hex_text(v as nat, width as nat),
{
    out.append("0x");
    push_hex(out, v, width);
    proof {
        assert(out@ =~= old(out)@ + hex_text(v as nat, width as nat));
    }
}

/// The text of a decimal digit.
pub fn dec_digit_str(d: u64) -> (r: &'static str)
    requires
        d < 10,
    ensures
        r@ == seq![dec_char(d as nat)],
{
    if d == 0 { proof { reveal_strlit("0"); } "0" }
    else if d == 1 { proof { reveal_strlit("1"); } "1" }
    else if d == 2 { proof { reveal_strlit("2"); } "2" }
    else if d == 3 { proof { reveal_strlit("3"); } "3" }
    else if d == 4 { proof { reveal_strlit("4"); } "4" }
    else if d == 5 { proof { reveal_strlit("5"); } "5" }
    else if d == 6 { proof { reveal_strlit("6"); } "6" }
    else if d == 7 { proof { reveal_strlit("7"); } "7" }
    else if d == 8 { proof { reveal_strlit("8"); } "8" }
    else { proof { reveal_strlit("9"); } "9" }
}

/// Appends the decimal digits of `v`.
pub fn push_dec(out: &mut String, v: u64)
    ensures
        final(out)@ == old(out)@ + dec_min(v as nat),
    decreases v,
{
    if v >= 10 {
        push_dec(out, v / 10);
    }
    out.append(dec_digit_str(v % 10));
    proof {
        assert(out@ =~= old(out)@ + dec_min(v as nat));
    }
}

} // verus!
