//! What the device finds in the shared memory: the other end of the stores that a
//! session makes.

use vstd::prelude::*;

use crate::dev::{
    Desc, Session, AVAIL_OFF, DATA_OFF, DESC_OFF, GPA_BASE, QSZ, REGION_SIZE, USED_OFF,
    VRING_DESC_F_INDIRECT, VRING_DESC_F_NEXT, VRING_DESC_F_WRITE,
};
use crate::le;
use crate::link::{Act, ActionOf};
use crate::mem;
use crate::model;

verus! {

/// The value of `n` bytes at `off`.
pub open spec fn number_at(m: Seq<u8>, off: int, n: int) -> nat {
    le::le_value(m.subrange(off, off + n))
}

/// Two states of memory have the same bytes outside `from..to`.
pub open spec fn same_outside(a: Seq<u8>, b: Seq<u8>, from: int, to: int) -> bool {
    a.len() == b.len() && forall|i: int|
        0 <= i < a.len() && !(from <= i < to) ==> #[trigger] a[i] == b[i]
}

/// The stores of two logs, one after the other.
pub proof fn lemma_replayed_concat(m: Seq<u8>, a: Seq<Act>, b: Seq<Act>)
    ensures
        mem::replayed(m, a + b) == mem::replayed(mem::replayed(m, a), b),
    decreases b.len(),
{
    if b.len() == 0 {
        assert(a + b =~= a);
    } else {
        lemma_replayed_concat(m, a, b.drop_last());
        assert((a + b).drop_last() =~= a + b.drop_last());
        assert((a + b).last() == b.last());
    }
}

/// Memory keeps its size.
pub proof fn lemma_replayed_len(m: Seq<u8>, log: Seq<Act>)
    ensures
        mem::replayed(m, log).len() == m.len(),
    decreases log.len(),
{
    if log.len() > 0 {
        lemma_replayed_len(m, log.drop_last());
    }
}

/// One more store.
pub proof fn lemma_replayed_push(m: Seq<u8>, log: Seq<Act>, a: Act)
    ensures
        mem::replayed(m, log.push(a)) == (match a {
            ActionOf::Store { off, data } => mem::overwritten(
                mem::replayed(m, log),
                off as int,
                data,
            ),
            _ => mem::replayed(m, log),
        }),
{
    assert(log.push(a).drop_last() =~= log);
}

/// What is stored is what is found, and the rest of the memory is as it was.
pub proof fn stored_bytes_read_back(m: Seq<u8>, off: int, data: Seq<u8>)
    requires
        0 <= off,
        off + data.len() <= m.len(),
    ensures
        mem::overwritten(m, off, data).subrange(off, off + data.len()) == data,
        same_outside(m, mem::overwritten(m, off, data), off, off + data.len()),
{
    assert(mem::overwritten(m, off, data).subrange(off, off + data.len()) =~= data);
}

/// A number that is stored is the number that is found, and the rest of the memory is as
/// it was.
pub proof fn stored_number_reads_back(m: Seq<u8>, off: int, v: nat, n: nat)
    requires
        0 <= off,
        off + n <= m.len(),
        v < le::range_of(n),
    ensures
        number_at(mem::overwritten(m, off, le::le_bytes(v, n)), off, n as int) == v,
        same_outside(m, mem::overwritten(m, off, le::le_bytes(v, n)), off, off + n),
{
    le::lemma_le_len(v, n);
    le::le_reads_back(v, n);
    stored_bytes_read_back(m, off, le::le_bytes(v, n));
}

/// The same bytes hold the same number.
pub proof fn lemma_number_kept(a: Seq<u8>, b: Seq<u8>, off: int, n: int, from: int, to: int)
    requires
        same_outside(a, b, from, to),
        0 <= off <= off + n <= a.len(),
        off + n <= from || to <= off,
    ensures
        number_at(a, off, n) == number_at(b, off, n),
{
    assert(a.subrange(off, off + n) =~= b.subrange(off, off + n));
}

// ---- descriptors -------------------------------------------------------------------

/// A descriptor with these fields lies at `e`.
pub open spec fn descriptor_at(
    m: Seq<u8>,
    e: int,
    addr: nat,
    len: u32,
    flags: u16,
    next: nat,
) -> bool {
    &&& number_at(m, e, 8) == addr
    &&& number_at(m, e + 8, 4) == len
    &&& number_at(m, e + 12, 2) == flags
    &&& number_at(m, e + 14, 2) == next
}

proof fn lemma_descriptor_kept(
    a: Seq<u8>,
    b: Seq<u8>,
    e: int,
    addr: nat,
    len: u32,
    flags: u16,
    next: nat,
    from: int,
    to: int,
)
    requires
        descriptor_at(a, e, addr, len, flags, next),
        same_outside(a, b, from, to),
        0 <= e,
        e + 16 <= a.len(),
        e + 16 <= from || to <= e,
    ensures
        descriptor_at(b, e, addr, len, flags, next),
{
    lemma_number_kept(a, b, e, 8, from, to);
    lemma_number_kept(a, b, e + 8, 4, from, to);
    lemma_number_kept(a, b, e + 12, 2, from, to);
    lemma_number_kept(a, b, e + 14, 2, from, to);
}

/// A descriptor that is written is the descriptor that is found.
pub proof fn written_descriptor_reads_back(
    m: Seq<u8>,
    e: int,
    addr: nat,
    len: u32,
    flags: u16,
    next: nat,
)
    requires
        0 <= e,
        e + 16 <= m.len() <= REGION_SIZE,
        addr <= u64::MAX,
        next <= u16::MAX,
    ensures
        descriptor_at(
            mem::replayed(m, model::entry(e, addr, len, flags, next)),
            e,
            addr,
            len,
            flags,
            next,
        ),
        same_outside(m, mem::replayed(m, model::entry(e, addr, len, flags, next)), e, e + 16),
{
    let acts = model::entry(e, addr, len, flags, next);
    le::lemma_ranges();
    let m1 = mem::overwritten(m, e, le::le_bytes(addr, 8));
    let m2 = mem::overwritten(m1, e + 8, le::le_bytes(len as nat, 4));
    let m3 = mem::overwritten(m2, e + 12, le::le_bytes(flags as nat, 2));
    let m4 = mem::overwritten(m3, e + 14, le::le_bytes(next, 2));
    stored_number_reads_back(m, e, addr, 8);
    stored_number_reads_back(m1, e + 8, len as nat, 4);
    stored_number_reads_back(m2, e + 12, flags as nat, 2);
    stored_number_reads_back(m3, e + 14, next, 2);
    lemma_number_kept(m1, m2, e, 8, e + 8, e + 12);
    lemma_number_kept(m2, m3, e, 8, e + 12, e + 14);
    lemma_number_kept(m3, m4, e, 8, e + 14, e + 16);
    lemma_number_kept(m2, m3, e + 8, 4, e + 12, e + 14);
    lemma_number_kept(m3, m4, e + 8, 4, e + 14, e + 16);
    lemma_number_kept(m3, m4, e + 12, 2, e + 14, e + 16);
    let none = Seq::<Act>::empty();
    assert(acts =~= none.push(acts[0]).push(acts[1]).push(acts[2]).push(acts[3]));
    lemma_replayed_push(m, none, acts[0]);
    lemma_replayed_push(m, none.push(acts[0]), acts[1]);
    lemma_replayed_push(m, none.push(acts[0]).push(acts[1]), acts[2]);
    lemma_replayed_push(m, none.push(acts[0]).push(acts[1]).push(acts[2]), acts[3]);
    assert(mem::replayed(m, acts) == m4);
}

/// Where slot `i` of the descriptor table lies.
pub open spec fn slot_off(i: int) -> int {
    DESC_OFF + i * 16
}

/// The slot of segment `i` of a chain that starts in slot `first`.
pub open spec fn slot_of(first: int, i: int) -> int {
    (first + i) % (QSZ as int)
}

/// Segment `i` of a chain lies at `e`, and names `next` as the slot after it.
pub open spec fn segment_at(m: Seq<u8>, e: int, descs: Seq<Desc>, i: int, next: int) -> bool {
    descriptor_at(
        m,
        e,
        GPA_BASE as nat + descs[i].off as nat,
        descs[i].len,
        model::flags_in(descs, i),
        next as nat,
    )
}

/// The first `k` segments of a chain lie in the table, from slot `first` on and round
/// its end.
pub open spec fn laid_out(m: Seq<u8>, first: int, descs: Seq<Desc>, k: int) -> bool {
    forall|i: int|
        0 <= i < k ==> #[trigger] segment_at(
            m,
            slot_off(slot_of(first, i)),
            descs,
            i,
            slot_of(first, i + 1),
        )
}

proof fn lemma_slots_apart(first: int, i: int, j: int)
    requires
        0 <= i < j < QSZ,
    ensures
        slot_of(first, i) != slot_of(first, j),
        0 <= slot_of(first, i) < QSZ,
        0 <= slot_of(first, j) < QSZ,
{
}

proof fn lemma_laid_out(m: Seq<u8>, first: int, descs: Seq<Desc>, k: nat)
    requires
        m.len() == REGION_SIZE,
        0 <= first < QSZ,
        k <= descs.len() <= QSZ,
    ensures
        laid_out(mem::replayed(m, model::chain_stores(first, descs, k)), first, descs, k as int),
        same_outside(
            m,
            mem::replayed(m, model::chain_stores(first, descs, k)),
            DESC_OFF as int,
            AVAIL_OFF as int,
        ),
    decreases k,
{
    if k > 0 {
        let i = k - 1;
        lemma_laid_out(m, first, descs, i as nat);
        let before = model::chain_stores(first, descs, i as nat);
        let m1 = mem::replayed(m, before);
        let e = slot_off(slot_of(first, i));
        let more = model::entry(
            e,
            GPA_BASE as nat + descs[i].off as nat,
            descs[i].len,
            model::flags_in(descs, i),
            slot_of(first, i + 1) as nat,
        );
        lemma_replayed_concat(m, before, more);
        let m2 = mem::replayed(m1, more);
        written_descriptor_reads_back(
            m1,
            e,
            GPA_BASE as nat + descs[i].off as nat,
            descs[i].len,
            model::flags_in(descs, i),
            slot_of(first, i + 1) as nat,
        );
        assert forall|j: int| 0 <= j < k implies #[trigger] segment_at(
            m2,
            slot_off(slot_of(first, j)),
            descs,
            j,
            slot_of(first, j + 1),
        ) by {
            if j < i {
                lemma_slots_apart(first, j, i);
                let next = slot_of(first, j + 1);
                assert(segment_at(m1, slot_off(slot_of(first, j)), descs, j, next));
                lemma_descriptor_kept(
                    m1,
                    m2,
                    slot_off(slot_of(first, j)),
                    GPA_BASE as nat + descs[j].off as nat,
                    descs[j].len,
                    model::flags_in(descs, j),
                    slot_of(first, j + 1) as nat,
                    e,
                    e + 16,
                );
            }
        }
    }
}

/// The stores that make a head available.
proof fn lemma_published(m: Seq<u8>, idx: u16, head: nat)
    requires
        m.len() == REGION_SIZE,
        head <= u16::MAX,
    ensures
        ({
            let m2 = mem::replayed(m, model::publish(idx, head));
            &&& number_at(m2, AVAIL_OFF + 4 + (idx % QSZ) * 2, 2) == head
            &&& number_at(m2, AVAIL_OFF + 2, 2) == model::next_index(idx)
            &&& same_outside(m, m2, AVAIL_OFF + 2, USED_OFF as int)
        }),
        number_at(
            mem::replayed(m, model::publish(idx, head).drop_last()),
            AVAIL_OFF + 2,
            2,
        ) == number_at(m, AVAIL_OFF + 2, 2),
{
    let acts = model::publish(idx, head);
    let ring = AVAIL_OFF + 4 + (idx % QSZ) * 2;
    le::lemma_ranges();
    let m1 = mem::overwritten(m, ring, le::le_bytes(head, 2));
    let m2 = mem::overwritten(m1, AVAIL_OFF + 2, le::le_bytes(model::next_index(idx) as nat, 2));
    stored_number_reads_back(m, ring, head, 2);
    stored_number_reads_back(m1, AVAIL_OFF + 2, model::next_index(idx) as nat, 2);
    lemma_number_kept(m1, m2, ring, 2, AVAIL_OFF + 2, AVAIL_OFF + 4);
    lemma_number_kept(m, m1, AVAIL_OFF + 2, 2, ring, ring + 2);
    let none = Seq::<Act>::empty();
    assert(acts =~= none.push(acts[0]).push(acts[1]));
    assert(acts.drop_last() =~= none.push(acts[0]));
    lemma_replayed_push(m, none, acts[0]);
    lemma_replayed_push(m, none.push(acts[0]), acts[1]);
}

// ---- what the device reads -----------------------------------------------------------

/// The device, from slot `slot` on, finds this chain: each segment with its address,
/// length and direction, and none after the last.
pub open spec fn chain_at(m: Seq<u8>, slot: int, descs: Seq<Desc>) -> bool
    decreases descs.len(),
{
    let e = slot_off(slot);
    let flags = number_at(m, e + 12, 2);
    &&& descs.len() > 0
    &&& 0 <= slot < QSZ
    &&& number_at(m, e, 8) == GPA_BASE + descs[0].off
    &&& number_at(m, e + 8, 4) == descs[0].len
    &&& (flags / VRING_DESC_F_WRITE as nat % 2 == 1) == descs[0].write
    &&& flags / VRING_DESC_F_INDIRECT as nat % 2 == 0
    &&& if descs.len() == 1 {
        flags / VRING_DESC_F_NEXT as nat % 2 == 0
    } else {
        flags / VRING_DESC_F_NEXT as nat % 2 == 1 && chain_at(
            m,
            number_at(m, e + 14, 2) as int,
            descs.drop_first(),
        )
    }
}

proof fn lemma_chain_from(m: Seq<u8>, first: int, descs: Seq<Desc>, i: int)
    requires
        0 <= first < QSZ,
        0 <= i < descs.len() <= QSZ,
        laid_out(m, first, descs, descs.len() as int),
    ensures
        chain_at(m, slot_of(first, i), descs.skip(i)),
    decreases descs.len() - i,
{
    let rest = descs.skip(i);
    assert(segment_at(m, slot_off(slot_of(first, i)), descs, i, slot_of(first, i + 1)));
    assert(rest[0] == descs[i]);
    if i + 1 < descs.len() {
        lemma_chain_from(m, first, descs, i + 1);
        assert(rest.drop_first() =~= descs.skip(i + 1));
    }
}

/// A chain that is posted is the chain that the device finds: the new entry of the
/// available ring names its head, the new index covers the entry, and nothing but the
/// descriptor table and the available ring has changed.
pub proof fn posted_chain_reads_back(m: Seq<u8>, s: Session, descs: Seq<Desc>)
    requires
        s.wf(),
        m.len() == REGION_SIZE,
        1 <= descs.len() <= QSZ,
    ensures
        ({
            let m2 = mem::replayed(m, model::post_stores(s, descs));
            &&& chain_at(m2, s.next_desc as int, descs)
            &&& number_at(m2, AVAIL_OFF + 4 + (s.avail_idx % QSZ) * 2, 2) == s.next_desc
            &&& number_at(m2, AVAIL_OFF + 2, 2) == model::posted(s, descs.len()).avail_idx
            &&& same_outside(m, m2, DESC_OFF as int, USED_OFF as int)
        }),
{
    let first = s.next_desc as int;
    let stores = model::chain_stores(first, descs, descs.len());
    let more = model::publish(s.avail_idx, (s.next_desc % QSZ) as nat);
    let m1 = mem::replayed(m, stores);
    lemma_replayed_concat(m, stores, more);
    lemma_laid_out(m, first, descs, descs.len());
    lemma_published(m1, s.avail_idx, (s.next_desc % QSZ) as nat);
    let m2 = mem::replayed(m1, more);
    lemma_laid_out_published(m1, m2, first, descs);
    lemma_chain_from(m2, first, descs, 0);
    assert(descs.skip(0) =~= descs);
}

/// A slot that a chain does not use keeps its descriptor.
proof fn lemma_other_slot(m: Seq<u8>, first: int, descs: Seq<Desc>, k: nat, q: int)
    requires
        m.len() == REGION_SIZE,
        0 <= first < QSZ,
        k <= descs.len() <= QSZ,
        0 <= q < QSZ,
        forall|i: int| 0 <= i < k ==> #[trigger] slot_of(first, i) != q,
    ensures
        ({
            let m2 = mem::replayed(m, model::chain_stores(first, descs, k));
            &&& m2.len() == m.len()
            &&& m2.subrange(slot_off(q), slot_off(q) + 16) == m.subrange(
                slot_off(q),
                slot_off(q) + 16,
            )
        }),
    decreases k,
{
    if k > 0 {
        let i = k - 1;
        lemma_other_slot(m, first, descs, i as nat, q);
        let before = model::chain_stores(first, descs, i as nat);
        let m1 = mem::replayed(m, before);
        let e = slot_off(slot_of(first, i));
        let more = model::entry(
            e,
            GPA_BASE as nat + descs[i].off as nat,
            descs[i].len,
            model::flags_in(descs, i),
            slot_of(first, i + 1) as nat,
        );
        lemma_replayed_concat(m, before, more);
        written_descriptor_reads_back(
            m1,
            e,
            GPA_BASE as nat + descs[i].off as nat,
            descs[i].len,
            model::flags_in(descs, i),
            slot_of(first, i + 1) as nat,
        );
        let m2 = mem::replayed(m1, more);
        assert(m2.subrange(slot_off(q), slot_off(q) + 16) =~= m1.subrange(
            slot_off(q),
            slot_off(q) + 16,
        ));
    }
}

/// The same sixteen bytes hold the same descriptor.
proof fn lemma_same_descriptor(
    a: Seq<u8>,
    b: Seq<u8>,
    e: int,
    addr: nat,
    len: u32,
    flags: u16,
    next: nat,
)
    requires
        descriptor_at(a, e, addr, len, flags, next),
        0 <= e,
        e + 16 <= a.len(),
        e + 16 <= b.len(),
        a.subrange(e, e + 16) == b.subrange(e, e + 16),
    ensures
        descriptor_at(b, e, addr, len, flags, next),
{
    let (x, y) = (a.subrange(e, e + 16), b.subrange(e, e + 16));
    assert(a.subrange(e, e + 8) =~= x.subrange(0, 8));
    assert(b.subrange(e, e + 8) =~= y.subrange(0, 8));
    assert(a.subrange(e + 8, e + 12) =~= x.subrange(8, 12));
    assert(b.subrange(e + 8, e + 12) =~= y.subrange(8, 12));
    assert(a.subrange(e + 12, e + 14) =~= x.subrange(12, 14));
    assert(b.subrange(e + 12, e + 14) =~= y.subrange(12, 14));
    assert(a.subrange(e + 14, e + 16) =~= x.subrange(14, 16));
    assert(b.subrange(e + 14, e + 16) =~= y.subrange(14, 16));
}

/// The slots of a chain that follows another one are none of that one's slots.
proof fn lemma_later_slots(first: int, n: int, later: int, more: int, i: int)
    requires
        0 <= first < QSZ,
        0 <= i < n,
        0 <= more,
        n + more <= QSZ,
        later == slot_of(first, n),
    ensures
        forall|j: int| 0 <= j < more ==> #[trigger] slot_of(later, j) != slot_of(first, i),
{
    assert forall|j: int| 0 <= j < more implies #[trigger] slot_of(later, j) != slot_of(
        first,
        i,
    ) by {
        lemma_slots_apart(first, i, n + j);
        assert(slot_of(later, j) == slot_of(first, n + j));
    }
}

proof fn lemma_segment_kept(
    m: Seq<u8>,
    first: int,
    descs: Seq<Desc>,
    later: int,
    more: Seq<Desc>,
    i: int,
)
    requires
        m.len() == REGION_SIZE,
        0 <= first < QSZ,
        later == slot_of(first, descs.len() as int),
        descs.len() + more.len() <= QSZ,
        0 <= i < descs.len(),
        segment_at(m, slot_off(slot_of(first, i)), descs, i, slot_of(first, i + 1)),
    ensures
        segment_at(
            mem::replayed(m, model::chain_stores(later, more, more.len())),
            slot_off(slot_of(first, i)),
            descs,
            i,
            slot_of(first, i + 1),
        ),
{
    let m2 = mem::replayed(m, model::chain_stores(later, more, more.len()));
    let q = slot_of(first, i);
    lemma_later_slots(first, descs.len() as int, later, more.len() as int, i);
    lemma_other_slot(m, later, more, more.len(), q);
    lemma_same_descriptor(
        m,
        m2,
        slot_off(q),
        GPA_BASE as nat + descs[i].off as nat,
        descs[i].len,
        model::flags_in(descs, i),
        slot_of(first, i + 1) as nat,
    );
}

/// After the stores of a chain the table holds it; after those of another chain in other
/// slots it still does.
proof fn lemma_laid_out_kept(
    m: Seq<u8>,
    first: int,
    descs: Seq<Desc>,
    later: int,
    more: Seq<Desc>,
)
    requires
        m.len() == REGION_SIZE,
        0 <= first < QSZ,
        later == slot_of(first, descs.len() as int),
        descs.len() + more.len() <= QSZ,
        laid_out(m, first, descs, descs.len() as int),
    ensures
        laid_out(
            mem::replayed(m, model::chain_stores(later, more, more.len())),
            first,
            descs,
            descs.len() as int,
        ),
{
    let m2 = mem::replayed(m, model::chain_stores(later, more, more.len()));
    assert forall|i: int| 0 <= i < descs.len() implies #[trigger] segment_at(
        m2,
        slot_off(slot_of(first, i)),
        descs,
        i,
        slot_of(first, i + 1),
    ) by {
        assert(segment_at(m, slot_off(slot_of(first, i)), descs, i, slot_of(first, i + 1)));
        lemma_segment_kept(m, first, descs, later, more, i);
    }
}

/// Chains in flight keep apart: as long as both fit into the ring, a chain that is posted
/// leaves the one posted before it as it was, and the device finds them both.
pub proof fn chains_in_flight_keep_apart(m: Seq<u8>, s: Session, a: Seq<Desc>, b: Seq<Desc>)
    requires
        s.wf(),
        m.len() == REGION_SIZE,
        1 <= a.len(),
        1 <= b.len(),
        a.len() + b.len() <= QSZ,
    ensures
        ({
            let s1 = model::posted(s, a.len());
            let m1 = mem::replayed(m, model::post_stores(s, a));
            let m2 = mem::replayed(m1, model::post_stores(s1, b));
            &&& chain_at(m2, s.next_desc as int, a)
            &&& chain_at(m2, s1.next_desc as int, b)
            &&& number_at(m2, AVAIL_OFF + 4 + (s.avail_idx % QSZ) * 2, 2) == s.next_desc
            &&& number_at(m2, AVAIL_OFF + 4 + (s1.avail_idx % QSZ) * 2, 2) == s1.next_desc
        }),
{
    let s1 = model::posted(s, a.len());
    let first = s.next_desc as int;
    let later = s1.next_desc as int;
    let head = (s.next_desc % QSZ) as nat;
    let stores_a = model::chain_stores(first, a, a.len());
    let stores_b = model::chain_stores(later, b, b.len());
    let publish_a = model::publish(s.avail_idx, head);
    let publish_b = model::publish(s1.avail_idx, (s1.next_desc % QSZ) as nat);
    let ma = mem::replayed(m, stores_a);
    let m1 = mem::replayed(ma, publish_a);
    let mb = mem::replayed(m1, stores_b);
    let m2 = mem::replayed(mb, publish_b);
    lemma_replayed_concat(m, stores_a, publish_a);
    lemma_replayed_concat(m1, stores_b, publish_b);
    lemma_laid_out(m, first, a, a.len());
    lemma_published(ma, s.avail_idx, head);
    lemma_laid_out_published(ma, m1, first, a);
    lemma_laid_out(m1, later, b, b.len());
    lemma_laid_out_kept(m1, first, a, later, b);
    lemma_published(mb, s1.avail_idx, (s1.next_desc % QSZ) as nat);
    lemma_laid_out_published(mb, m2, first, a);
    lemma_laid_out_published(mb, m2, later, b);
    lemma_chain_from(m2, first, a, 0);
    lemma_chain_from(m2, later, b, 0);
    assert(a.skip(0) =~= a);
    assert(b.skip(0) =~= b);
    let ring = AVAIL_OFF + 4 + (s.avail_idx % QSZ) * 2;
    lemma_number_kept(m1, mb, ring, 2, DESC_OFF as int, AVAIL_OFF as int);
    lemma_entry_kept(mb, s.avail_idx, (s1.next_desc % QSZ) as nat);
}

/// What is published does not touch the descriptor table.
proof fn lemma_laid_out_published(m1: Seq<u8>, m2: Seq<u8>, first: int, descs: Seq<Desc>)
    requires
        m1.len() == REGION_SIZE,
        0 <= first < QSZ,
        descs.len() <= QSZ,
        same_outside(m1, m2, AVAIL_OFF + 2, USED_OFF as int),
        laid_out(m1, first, descs, descs.len() as int),
    ensures
        laid_out(m2, first, descs, descs.len() as int),
{
    assert forall|i: int| 0 <= i < descs.len() implies #[trigger] segment_at(
        m2,
        slot_off(slot_of(first, i)),
        descs,
        i,
        slot_of(first, i + 1),
    ) by {
        assert(segment_at(m1, slot_off(slot_of(first, i)), descs, i, slot_of(first, i + 1)));
        lemma_descriptor_kept(
            m1,
            m2,
            slot_off(slot_of(first, i)),
            GPA_BASE as nat + descs[i].off as nat,
            descs[i].len,
            model::flags_in(descs, i),
            slot_of(first, i + 1) as nat,
            AVAIL_OFF + 2,
            USED_OFF as int,
        );
    }
}

/// The entry before stays where the next one is made available.
proof fn lemma_entry_kept(m: Seq<u8>, idx: u16, head: nat)
    requires
        m.len() == REGION_SIZE,
        head <= u16::MAX,
    ensures
        number_at(
            mem::replayed(m, model::publish(model::next_index(idx), head)),
            AVAIL_OFF + 4 + (idx % QSZ) * 2,
            2,
        ) == number_at(m, AVAIL_OFF + 4 + (idx % QSZ) * 2, 2),
{
    let next = model::next_index(idx);
    let acts = model::publish(next, head);
    let ring = AVAIL_OFF + 4 + (idx % QSZ) * 2;
    let other = AVAIL_OFF + 4 + (next % QSZ) * 2;
    le::lemma_ranges();
    let m1 = mem::overwritten(m, other, le::le_bytes(head, 2));
    let m2 = mem::overwritten(m1, AVAIL_OFF + 2, le::le_bytes(model::next_index(next) as nat, 2));
    stored_number_reads_back(m, other, head, 2);
    stored_number_reads_back(m1, AVAIL_OFF + 2, model::next_index(next) as nat, 2);
    lemma_number_kept(m, m1, ring, 2, other, other + 2);
    lemma_number_kept(m1, m2, ring, 2, AVAIL_OFF + 2, AVAIL_OFF + 4);
    let none = Seq::<Act>::empty();
    assert(acts =~= none.push(acts[0]).push(acts[1]));
    lemma_replayed_push(m, none, acts[0]);
    lemma_replayed_push(m, none.push(acts[0]), acts[1]);
}

/// The index is the last store: before it, the device sees nothing new.
pub proof fn index_is_stored_last(m: Seq<u8>, s: Session, descs: Seq<Desc>)
    requires
        s.wf(),
        m.len() == REGION_SIZE,
        1 <= descs.len() <= QSZ,
    ensures
        number_at(
            mem::replayed(m, model::post_stores(s, descs).drop_last()),
            AVAIL_OFF + 2,
            2,
        ) == number_at(m, AVAIL_OFF + 2, 2),
{
    let first = s.next_desc as int;
    let stores = model::chain_stores(first, descs, descs.len());
    let more = model::publish(s.avail_idx, (s.next_desc % QSZ) as nat);
    let m1 = mem::replayed(m, stores);
    assert((stores + more).drop_last() =~= stores + more.drop_last());
    lemma_replayed_concat(m, stores, more.drop_last());
    lemma_laid_out(m, first, descs, descs.len());
    lemma_published(m1, s.avail_idx, (s.next_desc % QSZ) as nat);
    lemma_number_kept(m, m1, AVAIL_OFF + 2, 2, DESC_OFF as int, AVAIL_OFF as int);
}

// ---- indirect tables -----------------------------------------------------------------

/// The first `k` segments of a chain lie in the table at `table`, one after the other.
pub open spec fn listed_at(m: Seq<u8>, table: int, descs: Seq<Desc>, k: int) -> bool {
    forall|i: int| 0 <= i < k ==> #[trigger] segment_at(m, table + i * 16, descs, i, i + 1)
}

proof fn lemma_listed(m: Seq<u8>, table: int, descs: Seq<Desc>, k: nat)
    requires
        m.len() == REGION_SIZE,
        0 <= table,
        table + descs.len() * 16 <= REGION_SIZE,
        k <= descs.len() < 0xffff,
    ensures
        listed_at(
            mem::replayed(m, model::table_stores(table, descs, k)),
            table,
            descs,
            k as int,
        ),
        same_outside(
            m,
            mem::replayed(m, model::table_stores(table, descs, k)),
            table,
            table + k * 16,
        ),
    decreases k,
{
    if k > 0 {
        let i = k - 1;
        lemma_listed(m, table, descs, i as nat);
        let before = model::table_stores(table, descs, i as nat);
        let m1 = mem::replayed(m, before);
        let e = table + i * 16;
        let more = model::entry(
            e,
            GPA_BASE as nat + descs[i].off as nat,
            descs[i].len,
            model::flags_in(descs, i),
            ((i + 1) % 0x1_0000) as nat,
        );
        lemma_replayed_concat(m, before, more);
        let m2 = mem::replayed(m1, more);
        written_descriptor_reads_back(
            m1,
            e,
            GPA_BASE as nat + descs[i].off as nat,
            descs[i].len,
            model::flags_in(descs, i),
            (i + 1) as nat,
        );
        assert forall|j: int| 0 <= j < k implies #[trigger] segment_at(
            m2,
            table + j * 16,
            descs,
            j,
            j + 1,
        ) by {
            if j < i {
                assert(segment_at(m1, table + j * 16, descs, j, j + 1));
                lemma_descriptor_kept(
                    m1,
                    m2,
                    table + j * 16,
                    GPA_BASE as nat + descs[j].off as nat,
                    descs[j].len,
                    model::flags_in(descs, j),
                    (j + 1) as nat,
                    e,
                    e + 16,
                );
            }
        }
    }
}

/// A chain that is posted through a table in the data area is found there: the head is
/// one descriptor that names the table and its size, and the table holds the segments
/// in order.
pub proof fn posted_table_reads_back(m: Seq<u8>, s: Session, descs: Seq<Desc>, table: int)
    requires
        s.wf(),
        m.len() == REGION_SIZE,
        descs.len() < 0xffff,
        DATA_OFF <= table,
        table + descs.len() * 16 <= REGION_SIZE,
    ensures
        ({
            let m2 = mem::replayed(m, model::indirect_stores(s, descs, table));
            &&& descriptor_at(
                m2,
                slot_off(s.next_desc as int),
                GPA_BASE as nat + table as nat,
                (descs.len() * 16) as u32,
                VRING_DESC_F_INDIRECT,
                0,
            )
            &&& listed_at(m2, table, descs, descs.len() as int)
            &&& number_at(m2, AVAIL_OFF + 4 + (s.avail_idx % QSZ) * 2, 2) == s.next_desc
            &&& number_at(m2, AVAIL_OFF + 2, 2) == model::posted(s, 1).avail_idx
        }),
{
    let n = descs.len();
    let head = (s.next_desc % QSZ) as nat;
    let e = slot_off(s.next_desc as int);
    let stores = model::table_stores(table, descs, n);
    let one = model::entry(
        e,
        GPA_BASE as nat + table as nat,
        (n * 16) as u32,
        VRING_DESC_F_INDIRECT,
        0,
    );
    let more = model::publish(s.avail_idx, head);
    let m1 = mem::replayed(m, stores);
    let m2 = mem::replayed(m1, one);
    let m3 = mem::replayed(m2, more);
    lemma_replayed_concat(m, stores, one);
    lemma_replayed_concat(m, stores + one, more);
    lemma_listed(m, table, descs, n);
    written_descriptor_reads_back(
        m1,
        e,
        GPA_BASE as nat + table as nat,
        (n * 16) as u32,
        VRING_DESC_F_INDIRECT,
        0,
    );
    lemma_published(m2, s.avail_idx, head);
    lemma_descriptor_kept(
        m2,
        m3,
        e,
        GPA_BASE as nat + table as nat,
        (n * 16) as u32,
        VRING_DESC_F_INDIRECT,
        0,
        AVAIL_OFF + 2,
        USED_OFF as int,
    );
    assert forall|i: int| 0 <= i < n implies #[trigger] segment_at(
        m3,
        table + i * 16,
        descs,
        i,
        i + 1,
    ) by {
        assert(segment_at(m1, table + i * 16, descs, i, i + 1));
        lemma_descriptor_kept(
            m1,
            m2,
            table + i * 16,
            GPA_BASE as nat + descs[i].off as nat,
            descs[i].len,
            model::flags_in(descs, i),
            (i + 1) as nat,
            e,
            e + 16,
        );
        lemma_descriptor_kept(
            m2,
            m3,
            table + i * 16,
            GPA_BASE as nat + descs[i].off as nat,
            descs[i].len,
            model::flags_in(descs, i),
            (i + 1) as nat,
            AVAIL_OFF + 2,
            USED_OFF as int,
        );
    }
}

} // verus!
