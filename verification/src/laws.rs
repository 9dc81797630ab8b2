//! What holds of sessions, requests and patterns whatever the device does.

use vstd::prelude::*;

use crate::bench;
use crate::bench::Accept;
use crate::checks;
use crate::dev::{
    Desc, Session, AVAIL_OFF, DATA_OFF, DESC_OFF, GPA_BASE, QSZ, REGION_SIZE, STATUS_POISON,
    USED_OFF, VIRTIO_BLK_S_OK,
};
use crate::features::{
    PROTOCOL_CONFIG, VHOST_USER_F_PROTOCOL_FEATURES, VIRTIO_F_RING_EVENT_IDX,
};
use crate::guest;
use crate::le;
use crate::link::{Act, ActionOf, Got, Talk};
use crate::mem;
use crate::model;
use crate::model::Line;

verus! {

// ---- handshake ---------------------------------------------------------------------

/// The messages of the agreement on protocol features that came to `s`.
pub open spec fn protocol_messages(s: Session) -> Seq<Act> {
    if s.offered & VHOST_USER_F_PROTOCOL_FEATURES == 0 {
        Seq::empty()
    } else {
        seq![ActionOf::GetProtocolFeatures, ActionOf::SetProtocolFeatures { bits: s.proto }]
    }
}

/// The messages of a handshake that came to `s`, in order.
pub open spec fn handshake_messages(path: Seq<char>, s: Session, table: bool) -> Seq<Act> {
    seq![
        ActionOf::Connect { path },
        ActionOf::SetOwner,
        ActionOf::GetFeatures,
        ActionOf::SetFeatures { bits: s.acked },
    ] + protocol_messages(s) + (if s.proto & PROTOCOL_CONFIG == PROTOCOL_CONFIG {
        seq![ActionOf::GetConfig { offset: 0, size: 60 }]
    } else {
        Seq::empty()
    }) + seq![
        ActionOf::MapMemory { total: REGION_SIZE },
        ActionOf::OpenKick,
        ActionOf::OpenCall,
    ] + (if table {
        seq![ActionOf::SetMemTable { region: Some(model::region_of(s.mem)) }]
    } else {
        Seq::empty()
    })
}

/// A handshake that succeeds sends these messages in this order, with the features that
/// the session goes by and the region that it lives in.
pub proof fn handshake_in_order(
    t: Talk,
    path: Seq<char>,
    table: bool,
    want_event_idx: bool,
    mask_out: u64,
)
    ensures
        model::handshake(t, path, table, want_event_idx, mask_out).1 matches Got::Value(s)
            ==> model::handshake(t, path, table, want_event_idx, mask_out).0.log == t.log
            + handshake_messages(path, s, table),
{
    let (t2, g) = model::handshake(t, path, table, want_event_idx, mask_out);
    if let Got::Value(s) = g {
        assert(t2.log =~= t.log + handshake_messages(path, s, table));
    }
}

/// What is acknowledged was offered; what is masked out is not acknowledged, nor is the
/// event index unless it is wanted; of the protocol features only the configuration is
/// agreed on.
pub proof fn agreement_is_bounded(
    t: Talk,
    path: Seq<char>,
    table: bool,
    want_event_idx: bool,
    mask_out: u64,
)
    ensures
        model::handshake(t, path, table, want_event_idx, mask_out).1 matches Got::Value(s) ==> {
            &&& s.acked & s.offered == s.acked
            &&& s.acked & mask_out == 0
            &&& !want_event_idx ==> s.acked & VIRTIO_F_RING_EVENT_IDX == 0
            &&& s.proto & PROTOCOL_CONFIG == s.proto
        },
{
    let g = model::handshake(t, path, table, want_event_idx, mask_out).1;
    if let Got::Value(s) = g {
        let (offered, proto) = (s.offered, s.proto);
        assert(s.acked == model::acked_of(offered, want_event_idx, mask_out));
        assert((offered & !mask_out) & offered == offered & !mask_out) by (bit_vector);
        assert((offered & !mask_out) & mask_out == 0) by (bit_vector);
        let e = VIRTIO_F_RING_EVENT_IDX;
        assert((offered & !e & !mask_out) & offered == offered & !e & !mask_out) by (bit_vector);
        assert((offered & !e & !mask_out) & mask_out == 0) by (bit_vector);
        assert((offered & !e & !mask_out) & e == 0) by (bit_vector);
        assert(forall|have: u64, c: u64| (#[trigger] (have & c)) & c == have & c) by (bit_vector);
        assert(0u64 & PROTOCOL_CONFIG == 0) by (bit_vector);
    }
}

/// All features that are offered, and neither masked out nor the event index, are
/// acknowledged.
pub proof fn nothing_else_is_left_out(
    t: Talk,
    path: Seq<char>,
    table: bool,
    want_event_idx: bool,
    mask_out: u64,
    bit: u64,
)
    requires
        bit & mask_out == 0,
        bit & VIRTIO_F_RING_EVENT_IDX == 0,
    ensures
        model::handshake(t, path, table, want_event_idx, mask_out).1 matches Got::Value(s)
            ==> s.acked & bit == s.offered & bit,
{
    let g = model::handshake(t, path, table, want_event_idx, mask_out).1;
    if let Got::Value(s) = g {
        let offered = s.offered;
        let e = VIRTIO_F_RING_EVENT_IDX;
        assert(s.acked == model::acked_of(offered, want_event_idx, mask_out));
        assert((offered & !mask_out) & bit == offered & bit) by (bit_vector)
            requires
                bit & mask_out == 0,
        ;
        assert((offered & !e & !mask_out) & bit == offered & bit) by (bit_vector)
            requires
                bit & mask_out == 0,
                bit & e == 0,
        ;
    }
}

// ---- ring ------------------------------------------------------------------------------

/// The messages and stores of a set-up of the ring, in order.
pub open spec fn ring_messages(s: Session, base: u16) -> Seq<Act> {
    seq![
        mem::store(DESC_OFF as int, mem::repeated(0, (DATA_OFF - DESC_OFF) as nat)),
        ActionOf::SetVringNum { num: QSZ },
        ActionOf::SetVringAddr { config: model::ring_config(s.mem.base, DESC_OFF as int) },
        ActionOf::SetVringBase { base },
    ] + (if base == 0 {
        Seq::empty()
    } else {
        seq![
            mem::store_le(AVAIL_OFF + 2, base as nat, 2),
            mem::store_le(USED_OFF + 2, base as nat, 2),
        ]
    }) + seq![ActionOf::SetVringKick, ActionOf::SetVringCall] + (if s.acked
        & VHOST_USER_F_PROTOCOL_FEATURES != 0 {
        seq![ActionOf::SetVringEnable { on: true }]
    } else {
        Seq::empty()
    })
}

/// A set-up of the ring that succeeds sends these messages in this order, and leaves
/// both indices of the session at `base`.
pub proof fn ring_set_up_in_order(l: Line, base: u16)
    ensures
        model::setup_vring(l, base).1 is Value ==> {
            let l2 = model::setup_vring(l, base).0;
            &&& l2.io.log == l.io.log + ring_messages(l.s, base)
            &&& base != 0 ==> l2.s.avail_idx == base && l2.s.used_idx_seen == base
            &&& l2.s == (Session {
                avail_idx: l2.s.avail_idx,
                used_idx_seen: l2.s.used_idx_seen,
                ..l.s
            })
        },
{
    let (l2, g) = model::setup_vring(l, base);
    if g is Value {
        assert(l2.io.log =~= l.io.log + ring_messages(l.s, base));
    }
}

/// When a session has connected, the ring in memory is at `base` just as the session is:
/// both indices there, no flags, whatever the memory held before.
pub proof fn ring_starts_at_base(
    m: Seq<u8>,
    t: Talk,
    path: Seq<char>,
    want_event_idx: bool,
    mask_out: u64,
    base: u16,
)
    requires
        m.len() == REGION_SIZE,
    ensures
        model::connect(t, path, want_event_idx, mask_out, base).1 matches Got::Value(s) ==> {
            let m2 = mem::replayed(
                m,
                model::connect(t, path, want_event_idx, mask_out, base).0.log,
            );
            &&& s.avail_idx == base
            &&& s.used_idx_seen == base
            &&& guest::number_at(m2, AVAIL_OFF + 2, 2) == base
            &&& guest::number_at(m2, USED_OFF + 2, 2) == base
            &&& guest::number_at(m2, AVAIL_OFF as int, 2) == 0
        },
{
    let (t1, g1) = model::handshake(t, path, true, want_event_idx, mask_out);
    let (t2, g2) = model::connect(t, path, want_event_idx, mask_out, base);
    if let Got::Value(s) = g2 {
        if let Got::Value(s1) = g1 {
            ring_set_up_in_order(Line { s: s1, io: t1 }, base);
            let acts = ring_messages(s1, base);
            guest::lemma_replayed_concat(m, t1.log, acts);
            guest::lemma_replayed_len(m, t1.log);
            lemma_ring_memory(mem::replayed(m, t1.log), s1, base);
        }
    }
}

proof fn lemma_ring_memory(m: Seq<u8>, s: Session, base: u16)
    requires
        m.len() == REGION_SIZE,
    ensures
        ({
            let m2 = mem::replayed(m, ring_messages(s, base));
            &&& guest::number_at(m2, AVAIL_OFF + 2, 2) == base
            &&& guest::number_at(m2, USED_OFF + 2, 2) == base
            &&& guest::number_at(m2, AVAIL_OFF as int, 2) == 0
        }),
{
    let zeroes = mem::repeated(0, (DATA_OFF - DESC_OFF) as nat);
    let m1 = mem::overwritten(m, DESC_OFF as int, zeroes);
    let acts = ring_messages(s, base);
    let head = acts.take(4);
    let tail = if s.acked & VHOST_USER_F_PROTOCOL_FEATURES != 0 {
        seq![
            ActionOf::SetVringKick,
            ActionOf::SetVringCall,
            ActionOf::SetVringEnable { on: true },
        ]
    } else {
        seq![ActionOf::SetVringKick, ActionOf::SetVringCall]
    };
    lemma_no_stores(m1, head.skip(1));
    assert(head =~= seq![head[0]] + head.skip(1));
    guest::lemma_replayed_concat(m, seq![head[0]], head.skip(1));
    lemma_one_store(m, head[0]);
    lemma_zero_number(m1, AVAIL_OFF + 2);
    lemma_zero_number(m1, USED_OFF + 2);
    lemma_zero_number(m1, AVAIL_OFF as int);
    if base == 0 {
        assert(acts =~= head + tail);
        guest::lemma_replayed_concat(m, head, tail);
        lemma_no_stores(m1, tail);
    } else {
        let first = mem::store_le(AVAIL_OFF + 2, base as nat, 2);
        let second = mem::store_le(USED_OFF + 2, base as nat, 2);
        le::lemma_ranges();
        let m2 = mem::overwritten(m1, AVAIL_OFF + 2, le::le_bytes(base as nat, 2));
        let m3 = mem::overwritten(m2, USED_OFF + 2, le::le_bytes(base as nat, 2));
        guest::stored_number_reads_back(m1, AVAIL_OFF + 2, base as nat, 2);
        guest::stored_number_reads_back(m2, USED_OFF + 2, base as nat, 2);
        guest::lemma_number_kept(m2, m3, AVAIL_OFF + 2, 2, USED_OFF + 2, USED_OFF + 4);
        guest::lemma_number_kept(m1, m2, AVAIL_OFF as int, 2, AVAIL_OFF + 2, AVAIL_OFF + 4);
        guest::lemma_number_kept(m2, m3, AVAIL_OFF as int, 2, USED_OFF + 2, USED_OFF + 4);
        assert(acts =~= head + seq![first] + seq![second] + tail);
        guest::lemma_replayed_concat(m, head, seq![first]);
        guest::lemma_replayed_concat(m, head + seq![first], seq![second]);
        guest::lemma_replayed_concat(m, head + seq![first] + seq![second], tail);
        lemma_one_store(m1, first);
        lemma_one_store(m2, second);
        lemma_no_stores(m3, tail);
    }
}

proof fn lemma_one_store(m: Seq<u8>, a: Act)
    ensures
        a matches ActionOf::Store { off, data } ==> mem::replayed(m, seq![a]) == mem::overwritten(
            m,
            off as int,
            data,
        ),
{
    assert(seq![a].drop_last() =~= Seq::empty());
    assert(mem::replayed(m, seq![a].drop_last()) == m);
}

proof fn lemma_no_stores(m: Seq<u8>, log: Seq<Act>)
    requires
        forall|i: int| 0 <= i < log.len() ==> !(#[trigger] log[i] is Store),
    ensures
        mem::replayed(m, log) == m,
    decreases log.len(),
{
    if log.len() > 0 {
        assert(!(log[log.len() - 1] is Store));
        assert forall|i: int| 0 <= i < log.drop_last().len() implies !(
        #[trigger] log.drop_last()[i] is Store) by {
            assert(!(log[i] is Store));
        }
        lemma_no_stores(m, log.drop_last());
    }
}

proof fn lemma_zero_number(m: Seq<u8>, off: int)
    requires
        0 <= off,
        off + 2 <= m.len(),
        m[off] == 0,
        m[off + 1] == 0,
    ensures
        guest::number_at(m, off, 2) == 0,
{
    reveal_with_fuel(le::le_value, 3);
    let b = m.subrange(off, off + 2);
    assert(b[0] == 0);
    assert(b.drop_first()[0] == 0);
}

/// A part of the ring and a buffer at the same place in the region are named by
/// different addresses, unless the region lies at address zero in this process.
pub proof fn two_kinds_of_addresses(base: u64, off: int)
    requires
        base != 0,
        0 <= off < 0x1_0000_0000_0000_0000,
    ensures
        model::wrap64(base + off) != GPA_BASE + off,
        model::ring_config(base, off).desc_table_addr != GPA_BASE + off,
{
}

/// An index that goes on past its 16 bits goes on to the next slot of the ring.
pub proof fn wrapped_index_keeps_slots(idx: u16)
    ensures
        model::next_index(idx) % QSZ == (idx % QSZ + 1) % (QSZ as int),
        idx == 0xffff ==> model::next_index(idx) == 0,
        idx < 0xffff ==> model::next_index(idx) == idx + 1,
{
}

// ---- buffers -----------------------------------------------------------------------------

/// A buffer lies in the data area, past all that was given out before, starts a page,
/// and leaves the session well formed.
pub proof fn buffers_are_apart(s: Session, a: int, b: int)
    requires
        s.wf(),
        0 <= a,
        0 <= b,
        model::has_room(s, a),
        model::has_room(model::allocated(s, a), b),
    ensures
        ({
            let s1 = model::allocated(s, a);
            &&& s1.wf()
            &&& model::next_buffer(s) % 0x1000 == 0
            &&& DATA_OFF <= model::next_buffer(s)
            &&& s.next_data <= model::next_buffer(s)
            &&& model::next_buffer(s) + a <= s1.next_data <= model::next_buffer(s1)
            &&& model::next_buffer(s1) + b <= REGION_SIZE
        }),
{
}

// ---- requests -------------------------------------------------------------------------

/// A submitted chain completes only with its own head.
pub proof fn completion_is_its_own(l: Line, descs: Seq<Desc>, timeout_ms: u64)
    requires
        l.s.wf(),
    ensures
        model::submit(l, descs, timeout_ms).1 matches Got::Value(u) ==> u.id == l.s.next_desc,
{
}

/// A status that the device has not touched is not a proper one.
pub proof fn untouched_status_is_no_success()
    ensures
        STATUS_POISON != VIRTIO_BLK_S_OK,
        !bench::accepts(Accept::Known, STATUS_POISON),
        !bench::accepts(Accept::Refusal, STATUS_POISON),
{
}

// ---- patterns -----------------------------------------------------------------------------

/// Patterns of different seeds differ in every byte.
pub proof fn seeds_tell_patterns_apart(a: u8, b: u8, i: int)
    requires
        a != b,
    ensures
        checks::pat_byte(a, i) != checks::pat_byte(b, i),
{
    let k = ((i * 31 + i / 256) % 256) as u8;
    assert(a != b ==> a ^ k != b ^ k) by (bit_vector);
}

proof fn lemma_positions(i: int, j: int)
    requires
        0 <= i < j,
        i / 256 == j / 256,
    ensures
        (i * 31 + i / 256) % 256 != (j * 31 + j / 256) % 256,
{
    let d = (j - i) as u32;
    assert(0 < d && d < 256 ==> (d * 31) % 256 != 0) by (bit_vector);
    let a = i * 31 + i / 256;
    let b = j * 31 + j / 256;
    assert(b - a == d * 31);
    if a % 256 == b % 256 {
        assert((b - a) % 256 == 0);
    }
}

/// Within 256 bytes no two bytes of a pattern are the same, so that a displaced byte
/// shows.
pub proof fn bytes_tell_positions_apart(seed: u8, i: int, j: int)
    requires
        0 <= i < j,
        i / 256 == j / 256,
    ensures
        checks::pat_byte(seed, i) != checks::pat_byte(seed, j),
{
    let x = ((i * 31 + i / 256) % 256) as u8;
    let y = ((j * 31 + j / 256) % 256) as u8;
    lemma_positions(i, j);
    assert(x != y);
    assert(x != y ==> seed ^ x != seed ^ y) by (bit_vector);
}

/// Data that are displaced by whole sectors differ in every byte, up to 64 KiB.
pub proof fn sectors_tell_themselves_apart(seed: u8, i: int, k: int)
    requires
        0 <= i,
        0 < k < 128,
    ensures
        checks::pat_byte(seed, i) != checks::pat_byte(seed, i + k * 512),
{
    let x = ((i * 31 + i / 256) % 256) as u8;
    let j = i + k * 512;
    let y = ((j * 31 + j / 256) % 256) as u8;
    assert(j / 256 == i / 256 + 2 * k);
    assert(j * 31 + j / 256 == i * 31 + i / 256 + k * 15872 + 2 * k);
    assert(15872 == 62 * 256);
    assert(x != y);
    assert(x != y ==> seed ^ x != seed ^ y) by (bit_vector);
}

} // verus!
