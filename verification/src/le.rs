//! Little-endian integers, as they lie in guest memory.

use vstd::prelude::*;

verus! {

/// The `n` low bytes of `v`, least significant first.
pub open spec fn le_bytes(v: nat, n: nat) -> Seq<u8>
    decreases n,
{
    if n == 0 {
        Seq::empty()
    } else {
        seq![(v % 256) as u8] + le_bytes(v / 256, (n - 1) as nat)
    }
}

/// The value of bytes that stand least significant first.
pub open spec fn le_value(s: Seq<u8>) -> nat
    decreases s.len(),
{
    if s.len() == 0 {
        0
    } else {
        s[0] as nat + 256 * le_value(s.drop_first())
    }
}

/// How many values `n` bytes can tell apart.
pub open spec fn range_of(n: nat) -> nat
    decreases n,
{
    if n == 0 {
        1
    } else {
        256 * range_of((n - 1) as nat)
    }
}

/// `n` bytes of `s` from `off` on; bytes past the end count as zero.
pub open spec fn window(s: Seq<u8>, off: int, n: nat) -> Seq<u8> {
    Seq::new(
        n,
        |i: int|
            if 0 <= off + i < s.len() {
                s[off + i]
            } else {
                0
            },
    )
}

/// `n` bytes hold `n` bytes.
pub proof fn lemma_le_len(v: nat, n: nat)
    ensures
        le_bytes(v, n).len() == n,
    decreases n,
{
    if n > 0 {
        lemma_le_len(v / 256, (n - 1) as nat);
    }
}

/// What was written little-endian reads back, as long as it fits.
pub proof fn le_reads_back(v: nat, n: nat)
    requires
        v < range_of(n),
    ensures
        le_value(le_bytes(v, n)) == v,
    decreases n,
{
    if n > 0 {
        le_reads_back(v / 256, (n - 1) as nat);
        assert(le_bytes(v, n).drop_first() =~= le_bytes(v / 256, (n - 1) as nat));
    }
}

/// The value of `n` bytes is below the range of `n` bytes.
pub proof fn lemma_le_value_fits(s: Seq<u8>)
    ensures
        le_value(s) < range_of(s.len()),
    decreases s.len(),
{
    if s.len() > 0 {
        lemma_le_value_fits(s.drop_first());
    }
}

pub proof fn lemma_ranges()
    ensures
        range_of(1) == 0x100,
        range_of(2) == 0x1_0000,
        range_of(4) == 0x1_0000_0000,
        range_of(8) == 0x1_0000_0000_0000_0000,
{
    reveal_with_fuel(range_of, 9);
}

/// The `n` low bytes of `v`, least significant first.
pub fn to_le(v: u64, n: usize) -> (out: Vec<u8>)
    ensures
        out@ == le_bytes(v as nat, n as nat),
{
    let mut out: Vec<u8> = Vec::new();
    let mut rest: u64 = v;
    let mut i: usize = 0;
    assert(out@ + le_bytes(rest as nat, n as nat) =~= le_bytes(v as nat, n as nat));
    while i < n
        invariant
            i <= n,
            out@ + le_bytes(rest as nat, (n - i) as nat) == le_bytes(v as nat, n as nat),
        decreases n - i,
    {
        let ghost before = out@;
        let ghost was = rest as nat;
        let low: u8 = (rest % 256) as u8;
        out.push(low);
        rest = rest / 256;
        i = i + 1;
        let ghost left = (n - i) as nat;
        assert(out@ + le_bytes(rest as nat, left) =~= before + le_bytes(was, left + 1));
    }
    assert(out@ + le_bytes(rest as nat, 0) =~= out@);
    out
}

fn from_le(b: &[u8], off: usize, n: usize) -> (v: u64)
    requires
        n <= 8,
        off + n <= usize::MAX,
    ensures
        v == le_value(window(b@, off as int, n as nat)),
{
    let mut v: u64 = 0;
    let mut i: usize = n;
    proof {
        lemma_ranges();
    }
    assert(window(b@, off + n, 0) =~= Seq::empty());
    while i > 0
        invariant
            i <= n <= 8,
            off + n <= usize::MAX,
            v == le_value(window(b@, off + i, (n - i) as nat)),
        decreases i,
    {
        i = i - 1;
        let at: usize = off + i;
        let byte: u8 = if at < b.len() {
            b[at]
        } else {
            0
        };
        let ghost tail = window(b@, off + i + 1, (n - i - 1) as nat);
        let ghost here = window(b@, off + i, (n - i) as nat);
        assert(here.drop_first() =~= tail);
        proof {
            lemma_le_value_fits(tail);
            lemma_range_below_word((n - i - 1) as nat);
        }
        v = byte as u64 + 256 * v;
    }
    v
}

proof fn lemma_range_below_word(k: nat)
    requires
        k <= 7,
    ensures
        256 * range_of(k) <= 0x1_0000_0000_0000_0000,
{
    reveal_with_fuel(range_of, 9);
}

/// The 64-bit value at `off`; bytes past the end count as zero.
pub fn le64(b: &[u8], off: usize) -> (v: u64)
    requires
        off + 8 <= usize::MAX,
    ensures
        v == le_value(window(b@, off as int, 8)),
{
    from_le(b, off, 8)
}

/// The 32-bit value at `off`; bytes past the end count as zero.
pub fn le32(b: &[u8], off: usize) -> (v: u32)
    requires
        off + 4 <= usize::MAX,
    ensures
        v == le_value(window(b@, off as int, 4)),
{
    proof {
        lemma_le_value_fits(window(b@, off as int, 4));
        lemma_ranges();
    }
    from_le(b, off, 4) as u32
}

/// The 16-bit value at `off`; bytes past the end count as zero.
pub fn le16(b: &[u8], off: usize) -> (v: u16)
    requires
        off + 2 <= usize::MAX,
    ensures
        v == le_value(window(b@, off as int, 2)),
{
    proof {
        lemma_le_value_fits(window(b@, off as int, 2));
        lemma_ranges();
    }
    from_le(b, off, 2) as u16
}

} // verus!
