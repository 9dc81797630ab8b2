//! Outcomes of scenarios and the checks that lead to them.

use vstd::prelude::*;
use vstd::string::*;

use crate::dev::{Session, STATUS_POISON, VIRTIO_BLK_S_OK};
use crate::text;

verus! {

/// Why a scenario did not pass.
pub enum TestErr {
    Fail(String),
    Skip(String),
}

/// What a scenario came to.
pub type TR = Result<(), TestErr>;

impl From<String> for TestErr {
    fn from(s: String) -> (e: Self) {
        TestErr::Fail(s)
    }
}

impl vstd::std_specs::convert::FromSpecImpl<String> for TestErr {
    open spec fn obeys_from_spec() -> bool {
        true
    }

    open spec fn from_spec(s: String) -> TestErr {
        TestErr::Fail(s)
    }
}

/// The first sector that scenarios work on: one MiB in, past a possible header.
pub const WORK: u64 = 2048;

/// The byte at position `i` of the pattern for `seed`.
pub open spec fn pat_byte(seed: u8, i: int) -> u8 {
    seed ^ (((i * 31 + i / 256) % 256) as u8)
}

/// The first `len` bytes of the pattern for `seed`.
pub open spec fn pattern(seed: u8, len: nat) -> Seq<u8> {
    Seq::new(len, |i: int| pat_byte(seed, i))
}

proof fn lemma_remainder(x: int, q: int, y: int)
    requires
        x == 256 * q + y,
    ensures
        x % 256 == y % 256,
{
}

/// What position `i` adds to the pattern.
fn position(i: usize) -> (k: u8)
    ensures
        k == (i as int * 31 + i as int / 256) % 256,
{
    let high: usize = (i / 256) % 256;
    let low: usize = i % 256;
    proof {
        let rounds = i as int / 256;
        lemma_remainder(
            i as int * 31 + rounds,
            31 * rounds + rounds / 256,
            low as int * 31 + high as int,
        );
    }
    (((low * 31) + high) % 256) as u8
}

/// A pattern that depends on the position, so that bytes that are displaced or cut
/// off show.
pub fn pat(seed: u8, len: usize) -> (v: Vec<u8>)
    ensures
        v@ == pattern(seed, len as nat),
{
    let mut v: Vec<u8> = Vec::new();
    let mut i: usize = 0;
    while i < len
        invariant
            i <= len,
            v@ == pattern(seed, i as nat),
        decreases len - i,
    {
        let k: u8 = position(i);
        v.push(seed ^ k);
        i = i + 1;
        assert(v@ =~= pattern(seed, i as nat));
    }
    v
}

/// The length of the shorter of two runs of bytes.
pub open spec fn shorter(a: Seq<u8>, b: Seq<u8>) -> int {
    if a.len() < b.len() {
        a.len() as int
    } else {
        b.len() as int
    }
}

/// The place where two runs of bytes first differ. Where one is the start of the other
/// and shorter, that is its end; `None` where they are the same.
pub open spec fn parting(a: Seq<u8>, b: Seq<u8>) -> Option<int> {
    match mismatch(a, b, 0) {
        Some(o) => Some(o),
        None => if a.len() == b.len() {
            None
        } else {
            Some(shorter(a, b))
        },
    }
}

/// The first place from `i` on where both runs have a byte and the two differ.
pub open spec fn mismatch(a: Seq<u8>, b: Seq<u8>, i: int) -> Option<int>
    decreases shorter(a, b) - i,
{
    if i >= shorter(a, b) {
        None
    } else if a[i] != b[i] {
        Some(i)
    } else {
        mismatch(a, b, i + 1)
    }
}

/// What the first place of difference is: bytes before it agree, those at it do not.
pub proof fn lemma_mismatch(a: Seq<u8>, b: Seq<u8>, i: int)
    requires
        0 <= i <= shorter(a, b),
    ensures
        match mismatch(a, b, i) {
            None => forall|j: int| i <= j < shorter(a, b) ==> a[j] == b[j],
            Some(o) => i <= o < shorter(a, b) && a[o] != b[o] && (forall|j: int|
                i <= j < o ==> a[j] == b[j]),
        },
    decreases shorter(a, b) - i,
{
    if i < shorter(a, b) && a[i] == b[i] {
        lemma_mismatch(a, b, i + 1);
    }
}

/// Bytes have no parting exactly when they are the same. Up to the parting they agree,
/// and there they differ or one of them has ended.
pub proof fn parting_tells_difference(a: Seq<u8>, b: Seq<u8>)
    ensures
        parting(a, b) is None <==> a == b,
        parting(a, b) matches Some(o) ==> {
            &&& 0 <= o <= shorter(a, b)
            &&& a.take(o) == b.take(o)
            &&& o < shorter(a, b) ==> a[o] != b[o]
        },
{
    lemma_mismatch(a, b, 0);
    if let Some(o) = parting(a, b) {
        assert(a.take(o) =~= b.take(o));
    } else {
        assert(a =~= b);
    }
}

/// Where two runs of bytes first differ.
pub fn first_diff(a: &[u8], b: &[u8]) -> (o: Option<usize>)
    ensures
        match parting(a@, b@) {
            None => o is None,
            Some(i) => o matches Some(x) && x == i,
        },
        o is None <==> a@ == b@,
{
    proof {
        parting_tells_difference(a@, b@);
    }
    let n: usize = if a.len() < b.len() {
        a.len()
    } else {
        b.len()
    };
    let mut i: usize = 0;
    while i < n
        invariant
            i <= n,
            n == shorter(a@, b@),
            mismatch(a@, b@, 0) == mismatch(a@, b@, i as int),
            parting(a@, b@) is None <==> a@ == b@,
        decreases n - i,
    {
        if a[i] != b[i] {
            return Some(i);
        }
        i = i + 1;
    }
    if a.len() == b.len() {
        None
    } else {
        Some(n)
    }
}

/// The text for a status that is not OK.
pub open spec fn not_ok(label: Seq<char>, st: u8) -> Seq<char> {
    label + ": status="@ + text::decimal(st as nat) + " (ожидался OK=0)"@
}

pub fn expect_ok(label: &str, st: u8) -> (r: TR)
    ensures
        st == VIRTIO_BLK_S_OK ==> r is Ok,
        st != VIRTIO_BLK_S_OK ==> (r matches Err(TestErr::Fail(m)) && m@ == not_ok(label@, st)),
{
    if st == VIRTIO_BLK_S_OK {
        Ok(())
    } else {
        let mut m = String::from_str(label);
        m.append(": status=");
        m.append(text::dec(st as u64).as_str());
        m.append(" (ожидался OK=0)");
        Err(TestErr::Fail(m))
    }
}

/// The byte at `o`, or zero past the end.
pub open spec fn byte_or_zero(s: Seq<u8>, o: int) -> u8 {
    if o < s.len() {
        s[o]
    } else {
        0
    }
}

/// The text for bytes that are not those wanted.
pub open spec fn differs(label: Seq<char>, got: Seq<u8>, want: Seq<u8>, o: int) -> Seq<char> {
    label + ": расхождение на байте "@ + text::decimal(o as nat) + " из "@ + text::decimal(
        want.len(),
    ) + " (got="@ + text::hex_byte(byte_or_zero(got, o)) + " want="@ + text::hex_byte(
        byte_or_zero(want, o),
    ) + ")"@
}

fn at_or_zero(s: &[u8], o: usize) -> (b: u8)
    ensures
        b == byte_or_zero(s@, o as int),
{
    if o < s.len() {
        s[o]
    } else {
        0
    }
}

pub fn same(label: &str, got: &[u8], want: &[u8]) -> (r: TR)
    ensures
        match parting(got@, want@) {
            None => r is Ok,
            Some(o) => r matches Err(TestErr::Fail(m)) && m@ == differs(label@, got@, want@, o),
        },
        r is Ok <==> got@ == want@,
{
    proof {
        parting_tells_difference(got@, want@);
    }
    match first_diff(got, want) {
        None => Ok(()),
        Some(o) => {
            let mut m = String::from_str(label);
            m.append(": расхождение на байте ");
            m.append(text::dec(o as u64).as_str());
            m.append(" из ");
            m.append(text::dec(want.len() as u64).as_str());
            m.append(" (got=");
            m.append(text::hex_of_byte(at_or_zero(got, o)).as_str());
            m.append(" want=");
            m.append(text::hex_of_byte(at_or_zero(want, o)).as_str());
            m.append(")");
            Err(TestErr::Fail(m))
        },
    }
}

/// The first place from `i` on that is not zero.
pub open spec fn nonzero(d: Seq<u8>, i: int) -> Option<int>
    decreases d.len() - i,
{
    if i >= d.len() {
        None
    } else if d[i] != 0 {
        Some(i)
    } else {
        nonzero(d, i + 1)
    }
}

/// There is no such place exactly when all bytes are zero.
pub proof fn nonzero_tells_zeroes(d: Seq<u8>, i: int)
    requires
        0 <= i <= d.len(),
    ensures
        nonzero(d, i) is None <==> (forall|j: int| i <= j < d.len() ==> d[j] == 0),
        nonzero(d, i) matches Some(o) ==> i <= o < d.len() && d[o] != 0,
    decreases d.len() - i,
{
    if i < d.len() && d[i] == 0 {
        nonzero_tells_zeroes(d, i + 1);
    }
}

/// The text for a byte that is not zero.
pub open spec fn not_zero(label: Seq<char>, d: Seq<u8>, o: int) -> Seq<char> {
    label + ": байт "@ + text::decimal(o as nat) + " не ноль ("@ + text::hex_byte(d[o]) + ")"@
}

pub fn all_zero(label: &str, d: &[u8]) -> (r: TR)
    ensures
        match nonzero(d@, 0) {
            None => r is Ok,
            Some(o) => r matches Err(TestErr::Fail(m)) && m@ == not_zero(label@, d@, o),
        },
        r is Ok <==> (forall|j: int| 0 <= j < d@.len() ==> d@[j] == 0),
{
    proof {
        nonzero_tells_zeroes(d@, 0);
    }
    let mut i: usize = 0;
    while i < d.len()
        invariant
            i <= d@.len(),
            nonzero(d@, 0) == nonzero(d@, i as int),
            nonzero(d@, 0) is None <==> (forall|j: int| 0 <= j < d@.len() ==> d@[j] == 0),
        decreases d.len() - i,
    {
        if d[i] != 0 {
            let mut m = String::from_str(label);
            m.append(": байт ");
            m.append(text::dec(i as u64).as_str());
            m.append(" не ноль (");
            m.append(text::hex_of_byte(d[i]).as_str());
            m.append(")");
            return Err(TestErr::Fail(m));
        }
        i = i + 1;
    }
    Ok(())
}

/// The first place from `i` on that no longer holds what a status byte is preset to.
pub open spec fn touched(d: Seq<u8>, i: int) -> Option<int>
    decreases d.len() - i,
{
    if i >= d.len() {
        None
    } else if d[i] != STATUS_POISON {
        Some(i)
    } else {
        touched(d, i + 1)
    }
}

/// There is no such place exactly when all bytes from `i` on are as they were preset.
pub proof fn touched_tells_changes(d: Seq<u8>, i: int)
    requires
        0 <= i,
    ensures
        touched(d, i) is None <==> (forall|j: int| i <= j < d.len() ==> d[j] == STATUS_POISON),
        touched(d, i) matches Some(o) ==> i <= o < d.len() && d[o] != STATUS_POISON,
    decreases d.len() - i,
{
    if i < d.len() && d[i] == STATUS_POISON {
        touched_tells_changes(d, i + 1);
    }
}

/// The text for a byte that the device should have left alone.
pub open spec fn was_touched(label: Seq<char>, d: Seq<u8>, o: int) -> Seq<char> {
    label + ": байт "@ + text::decimal(o as nat) + " перезаписан ("@ + text::hex_byte(d[o])
        + ")"@
}

/// The bytes from `from` on are as they were preset.
pub fn untouched(label: &str, d: &[u8], from: usize) -> (r: TR)
    ensures
        match touched(d@, from as int) {
            None => r is Ok,
            Some(o) => r matches Err(TestErr::Fail(m)) && m@ == was_touched(label@, d@, o),
        },
        r is Ok <==> (forall|j: int| from <= j < d@.len() ==> d@[j] == STATUS_POISON),
{
    proof {
        touched_tells_changes(d@, from as int);
    }
    let mut i: usize = from;
    while i < d.len()
        invariant
            from <= i,
            touched(d@, from as int) == touched(d@, i as int),
            touched(d@, from as int) is None <==> (forall|j: int|
                from <= j < d@.len() ==> d@[j] == STATUS_POISON),
        decreases d.len() - i,
    {
        if d[i] != STATUS_POISON {
            let mut m = String::from_str(label);
            m.append(": байт ");
            m.append(text::dec(i as u64).as_str());
            m.append(" перезаписан (");
            m.append(text::hex_of_byte(d[i]).as_str());
            m.append(")");
            return Err(TestErr::Fail(m));
        }
        i = i + 1;
    }
    Ok(())
}

/// What is missing for a scenario that uses `sectors` sectors from `WORK` on, if
/// anything is.
pub open spec fn lacking(capacity: u64, sectors: u64) -> Option<Seq<char>> {
    if capacity == 0 {
        Some("ёмкость неизвестна (нет PROTOCOL_F_CONFIG)"@)
    } else if capacity < WORK + sectors + 8 {
        Some("диск мал: "@ + text::decimal(capacity as nat) + " секторов"@)
    } else {
        None
    }
}

/// The capacity, if it is known and leaves `sectors` sectors from `WORK` on.
pub fn need_cap(s: &Session, sectors: u64) -> (r: Result<u64, TestErr>)
    requires
        WORK + sectors + 8 <= u64::MAX,
    ensures
        match lacking(s.capacity_sectors, sectors) {
            None => r == Ok::<u64, TestErr>(s.capacity_sectors),
            Some(text) => r matches Err(TestErr::Skip(m)) && m@ == text,
        },
{
    let c: u64 = s.capacity_sectors();
    if c == 0 {
        return Err(TestErr::Skip(String::from_str("ёмкость неизвестна (нет PROTOCOL_F_CONFIG)")));
    }
    if c < WORK + sectors + 8 {
        let mut m = String::from_str("диск мал: ");
        m.append(text::dec(c).as_str());
        m.append(" секторов");
        return Err(TestErr::Skip(m));
    }
    Ok(c)
}

} // verus!
