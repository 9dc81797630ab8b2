//! Rendering of numbers inside scenario messages.

use vstd::prelude::*;
use vstd::string::*;

verus! {

/// The character of one digit, lower case above nine.
pub open spec fn digit_char(d: nat) -> char {
    if d < 10 {
        (48 + d) as char
    } else {
        (87 + d) as char
    }
}

/// The numeral of `n` in `base`: most significant digit first, no leading zeros.
pub open spec fn numeral(n: nat, base: nat) -> Seq<char>
    decreases n,
{
    if base < 2 || n < base {
        seq![digit_char(n)]
    } else {
        proof {
            assert(n / base < n) by (nonlinear_arith)
                requires
                    base >= 2,
                    n >= base,
            ;
        }
        numeral(n / base, base).push(digit_char(n % base))
    }
}

/// `n` as `{}` prints it.
pub open spec fn decimal(n: nat) -> Seq<char> {
    numeral(n, 10)
}

/// `n` as `{:#x}` prints it.
pub open spec fn hexadecimal(n: nat) -> Seq<char> {
    "0x"@ + numeral(n, 16)
}

/// A byte as `{:#04x}` prints it: always two hexadecimal digits.
pub open spec fn hex_byte(b: u8) -> Seq<char> {
    "0x"@ + seq![digit_char((b / 16) as nat), digit_char((b % 16) as nat)]
}

/// Bytes as `{:?}` prints a slice of them, without the brackets.
pub open spec fn byte_list(s: Seq<u8>) -> Seq<char>
    decreases s.len(),
{
    if s.len() == 0 {
        Seq::empty()
    } else if s.len() == 1 {
        decimal(s[0] as nat)
    } else {
        byte_list(s.drop_last()) + ", "@ + decimal(s.last() as nat)
    }
}

fn digit(d: u64) -> (s: &'static str)
    requires
        d < 16,
    ensures
        s@ == seq![digit_char(d as nat)],
{
    proof {
        reveal_strlit("0");
        reveal_strlit("1");
        reveal_strlit("2");
        reveal_strlit("3");
        reveal_strlit("4");
        reveal_strlit("5");
        reveal_strlit("6");
        reveal_strlit("7");
        reveal_strlit("8");
        reveal_strlit("9");
        reveal_strlit("a");
        reveal_strlit("b");
        reveal_strlit("c");
        reveal_strlit("d");
        reveal_strlit("e");
        reveal_strlit("f");
    }
    if d == 0 {
        "0"
    } else if d == 1 {
        "1"
    } else if d == 2 {
        "2"
    } else if d == 3 {
        "3"
    } else if d == 4 {
        "4"
    } else if d == 5 {
        "5"
    } else if d == 6 {
        "6"
    } else if d == 7 {
        "7"
    } else if d == 8 {
        "8"
    } else if d == 9 {
        "9"
    } else if d == 10 {
        "a"
    } else if d == 11 {
        "b"
    } else if d == 12 {
        "c"
    } else if d == 13 {
        "d"
    } else if d == 14 {
        "e"
    } else {
        "f"
    }
}

fn digits(n: u64, base: u64) -> (s: String)
    requires
        2 <= base <= 16,
    ensures
        s@ == numeral(n as nat, base as nat),
    decreases n,
{
    if n < base {
        String::from_str(digit(n))
    } else {
        assert(n / base < n) by (nonlinear_arith)
            requires
                base >= 2,
                n >= base,
        ;
        let mut s = digits(n / base, base);
        let d: u64 = n % base;
        s.append(digit(d));
        assert(s@ =~= numeral((n / base) as nat, base as nat).push(digit_char((n % base) as nat)));
        s
    }
}

/// `n` in decimal.
pub fn dec(n: u64) -> (s: String)
    ensures
        s@ == decimal(n as nat),
{
    digits(n, 10)
}

/// `n` in hexadecimal, with its prefix.
pub fn hex(n: u64) -> (s: String)
    ensures
        s@ == hexadecimal(n as nat),
{
    String::from_str("0x").concat(digits(n, 16).as_str())
}

/// A byte in hexadecimal, with its prefix and both digits.
pub fn hex_of_byte(b: u8) -> (s: String)
    ensures
        s@ == hex_byte(b),
{
    let hi: u64 = (b / 16) as u64;
    let lo: u64 = (b % 16) as u64;
    let s = String::from_str("0x").concat(digit(hi)).concat(digit(lo));
    assert(s@ =~= hex_byte(b));
    s
}

/// The first `n` bytes of `v`, as a slice of them prints between its brackets.
pub fn list_of_bytes(v: &Vec<u8>, n: usize) -> (s: String)
    requires
        n <= v.len(),
    ensures
        s@ == byte_list(v@.take(n as int)),
{
    let mut s = String::new();
    let mut i: usize = 0;
    while i < n
        invariant
            i <= n <= v.len(),
            s@ == byte_list(v@.take(i as int)),
        decreases n - i,
    {
        let ghost before = v@.take(i as int);
        if i > 0 {
            s.append(", ");
        }
        s.append(dec(v[i] as u64).as_str());
        assert(v@.take(i + 1).drop_last() =~= before);
        if i == 0 {
            assert(s@ =~= decimal(v@[0] as nat));
        }
        i = i + 1;
    }
    s
}

} // verus!
