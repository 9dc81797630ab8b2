//! What the operations of a session do, as functions of the session, the
//! conversation and the answers in it.

use vstd::prelude::*;

use crate::dev::{
    Desc, Session, UsedElem, AVAIL_OFF, DATA_OFF, DESC_OFF, GPA_BASE, QSZ, REGION_SIZE,
    STATUS_POISON, TIMEOUT_MS, USED_OFF, VIRTIO_BLK_T_FLUSH, VIRTIO_BLK_T_GET_ID,
    VIRTIO_BLK_T_IN, VIRTIO_BLK_T_OUT, VRING_DESC_F_INDIRECT, VRING_DESC_F_NEXT,
    VRING_DESC_F_WRITE,
};
use crate::features::{
    PROTOCOL_CONFIG, VHOST_USER_F_PROTOCOL_FEATURES, VIRTIO_F_RING_EVENT_IDX,
};
use crate::le;
use crate::link::{Act, ActionOf, Got, Region, Talk, VringConfig};
use crate::mem;
use crate::mem::SharedMem;
use crate::text;

verus! {

/// A session and the conversation it takes part in.
pub struct Line {
    pub s: Session,
    pub io: Talk,
}

/// An outcome without a value, passed on where another kind of value is due.
pub open spec fn relay<T, U>(g: Got<T>) -> Got<U> {
    match g {
        Got::Fault(m) => Got::Fault(m),
        _ => Got::Waiting,
    }
}

/// Arithmetic of addresses, modulo the width of an address.
pub open spec fn wrap64(x: int) -> u64 {
    (x % 0x1_0000_0000_0000_0000) as u64
}

// ---- handshake ---------------------------------------------------------------

/// What the two sides have agreed on.
pub struct Terms {
    pub offered: u64,
    pub proto: u64,
    pub acked: u64,
}

/// The features to acknowledge: all that is offered, without the event index unless
/// it is wanted, and without what is masked out.
pub open spec fn acked_of(offered: u64, want_event_idx: bool, mask_out: u64) -> u64 {
    if want_event_idx {
        offered & !mask_out
    } else {
        offered & !VIRTIO_F_RING_EVENT_IDX & !mask_out
    }
}

/// Agreement on protocol features: the configuration messages, where both sides
/// have them; none where protocol features are not offered at all.
pub open spec fn agree_protocol(t: Talk, offered: u64) -> (Talk, Got<u64>) {
    if offered & VHOST_USER_F_PROTOCOL_FEATURES == 0 {
        (t, Got::Value(0))
    } else {
        let (t, g) = t.query(ActionOf::GetProtocolFeatures, "get_protocol_features"@);
        match g {
            Got::Value(have) => {
                let proto = have & PROTOCOL_CONFIG;
                let (t, g) = t.call(
                    ActionOf::SetProtocolFeatures { bits: proto },
                    "set_protocol_features"@,
                );
                match g {
                    Got::Value(_) => (t, Got::Value(proto)),
                    _ => (t, relay(g)),
                }
            },
            _ => (t, relay(g)),
        }
    }
}

/// From the open socket to the agreed features: first those of the device, then those of
/// the protocol.
pub open spec fn negotiate(
    t: Talk,
    path: Seq<char>,
    want_event_idx: bool,
    mask_out: u64,
) -> (Talk, Got<Terms>) {
    let (t, g) = t.call(ActionOf::Connect { path }, "connect"@);
    match g {
        Got::Value(_) => {
            let (t, g) = t.call(ActionOf::SetOwner, "set_owner"@);
            match g {
                Got::Value(_) => {
                    let (t, g) = t.query(ActionOf::GetFeatures, "get_features"@);
                    match g {
                        Got::Value(offered) => {
                            let acked = acked_of(offered, want_event_idx, mask_out);
                            let (t, g) = t.call(
                                ActionOf::SetFeatures { bits: acked },
                                "set_features"@,
                            );
                            match g {
                                Got::Value(_) => {
                                    let (t, g) = agree_protocol(t, offered);
                                    match g {
                                        Got::Value(proto) => (
                                            t,
                                            Got::Value(Terms { offered, proto, acked }),
                                        ),
                                        _ => (t, relay(g)),
                                    }
                                },
                                _ => (t, relay(g)),
                            }
                        },
                        _ => (t, relay(g)),
                    }
                },
                _ => (t, relay(g)),
            }
        },
        _ => (t, relay(g)),
    }
}

/// Capacity and block size as a configuration space holds them.
pub open spec fn geometry_in(config: Seq<u8>) -> (u64, u32) {
    (
        le::le_value(le::window(config, 0, 8)) as u64,
        le::le_value(le::window(config, 20, 4)) as u32,
    )
}

/// The block size to go by: zero in the configuration stands for one sector.
pub open spec fn block_size(told: u32) -> u32 {
    if told == 0 {
        512
    } else {
        told
    }
}

/// Capacity and block size as far as the device tells them. A capacity of zero says that
/// it is not known; a block size that is not told is one sector.
pub open spec fn geometry(t: Talk, proto: u64) -> (Talk, Got<(u64, u32)>) {
    if proto & PROTOCOL_CONFIG == PROTOCOL_CONFIG {
        let (t, g) = t.config(0, 60);
        match g {
            Got::Value(Some(b)) => (t, Got::Value(geometry_in(b))),
            Got::Value(None) => (t, Got::Value((0, 512))),
            _ => (t, relay(g)),
        }
    } else {
        (t, Got::Value((0, 512)))
    }
}

/// The shared region and the two events.
pub open spec fn resources(t: Talk) -> (Talk, Got<SharedMem>) {
    let (t, g) = t.map(REGION_SIZE);
    match g {
        Got::Value(m) => {
            let memory = SharedMem { fd: m.0, base: m.1, size: REGION_SIZE };
            let (t, g) = t.call(ActionOf::OpenKick, "eventfd kick"@);
            match g {
                Got::Value(_) => {
                    let (t, g) = t.call(ActionOf::OpenCall, "eventfd call"@);
                    match g {
                        Got::Value(_) => (t, Got::Value(memory)),
                        _ => (t, relay(g)),
                    }
                },
                _ => (t, relay(g)),
            }
        },
        _ => (t, relay(g)),
    }
}

/// The region as it is announced: guest addresses start at zero, which is not where
/// the region lies in this process.
pub open spec fn region_of(m: SharedMem) -> Region {
    Region {
        guest_phys_addr: GPA_BASE,
        memory_size: REGION_SIZE as u64,
        userspace_addr: m.base,
        mmap_offset: 0,
        mmap_handle: m.fd,
    }
}

/// A session that has posted and allocated nothing.
pub open spec fn fresh(memory: SharedMem, terms: Terms, geo: (u64, u32)) -> Session {
    Session {
        mem: memory,
        proto: terms.proto,
        acked: terms.acked,
        capacity_sectors: geo.0,
        blk_size: block_size(geo.1),
        config_blk_size: geo.1,
        offered: terms.offered,
        next_desc: 0,
        avail_idx: 0,
        used_idx_seen: 0,
        next_data: DATA_OFF,
    }
}

/// The whole handshake, without the ring.
pub open spec fn handshake(
    t: Talk,
    path: Seq<char>,
    do_mem_table: bool,
    want_event_idx: bool,
    mask_out: u64,
) -> (Talk, Got<Session>) {
    let (t, g) = negotiate(t, path, want_event_idx, mask_out);
    match g {
        Got::Value(terms) => {
            let (t, g) = geometry(t, terms.proto);
            match g {
                Got::Value(geo) => {
                    let (t, g) = resources(t);
                    match g {
                        Got::Value(memory) => {
                            let s = fresh(memory, terms, geo);
                            if do_mem_table {
                                let (t, g) = t.call(
                                    ActionOf::SetMemTable { region: Some(region_of(memory)) },
                                    "set_mem_table"@,
                                );
                                match g {
                                    Got::Value(_) => (t, Got::Value(s)),
                                    _ => (t, relay(g)),
                                }
                            } else {
                                (t, Got::Value(s))
                            }
                        },
                        _ => (t, relay(g)),
                    }
                },
                _ => (t, relay(g)),
            }
        },
        _ => (t, relay(g)),
    }
}

/// The ring as it is announced: its parts by their addresses in this process.
pub open spec fn ring_config(base: u64, desc_off: int) -> VringConfig {
    VringConfig {
        queue_max_size: QSZ,
        queue_size: QSZ,
        flags: 0,
        desc_table_addr: wrap64(base + desc_off),
        avail_ring_addr: wrap64(base + AVAIL_OFF),
        used_ring_addr: wrap64(base + USED_OFF),
        log_addr: None,
    }
}

/// Both ring indices start at `base`, here and in memory.
pub open spec fn seeded(l: Line, base: u16) -> Line {
    if base == 0 {
        l
    } else {
        Line {
            s: Session { avail_idx: base, used_idx_seen: base, ..l.s },
            io: l.io.tell(mem::store_le(AVAIL_OFF + 2, base as nat, 2)).tell(
                mem::store_le(USED_OFF + 2, base as nat, 2),
            ),
        }
    }
}

/// Size, addresses and start index of the ring.
pub open spec fn announce_ring(l: Line, base: u16) -> (Line, Got<()>) {
    let t = l.io.tell(
        mem::store(DESC_OFF as int, mem::repeated(0, (DATA_OFF - DESC_OFF) as nat)),
    );
    let (t, g) = t.call(ActionOf::SetVringNum { num: QSZ }, "set_vring_num"@);
    match g {
        Got::Value(_) => {
            let (t, g) = t.call(
                ActionOf::SetVringAddr { config: ring_config(l.s.mem.base, DESC_OFF as int) },
                "set_vring_addr"@,
            );
            match g {
                Got::Value(_) => {
                    let (t, g) = t.call(ActionOf::SetVringBase { base }, "set_vring_base"@);
                    (Line { s: l.s, io: t }, g)
                },
                _ => (Line { s: l.s, io: t }, g),
            }
        },
        _ => (Line { s: l.s, io: t }, g),
    }
}

/// Events and, with protocol features, the enabling of the ring.
pub open spec fn enable_ring(l: Line) -> (Line, Got<()>) {
    let (t, g) = l.io.call(ActionOf::SetVringKick, "set_vring_kick"@);
    match g {
        Got::Value(_) => {
            let (t, g) = t.call(ActionOf::SetVringCall, "set_vring_call"@);
            match g {
                Got::Value(_) => if l.s.acked & VHOST_USER_F_PROTOCOL_FEATURES != 0 {
                    let (t, g) = t.call(
                        ActionOf::SetVringEnable { on: true },
                        "set_vring_enable"@,
                    );
                    (Line { s: l.s, io: t }, g)
                } else {
                    (Line { s: l.s, io: t }, g)
                },
                _ => (Line { s: l.s, io: t }, g),
            }
        },
        _ => (Line { s: l.s, io: t }, g),
    }
}

/// The set-up of the ring with both indices at `base`.
pub open spec fn setup_vring(l: Line, base: u16) -> (Line, Got<()>) {
    let (l, g) = announce_ring(l, base);
    match g {
        Got::Value(_) => enable_ring(seeded(l, base)),
        _ => (l, g),
    }
}

/// The device's position in the available ring. A number that is no position is no answer.
pub open spec fn vring_base(t: Talk) -> (Talk, Got<u32>) {
    let (t, g) = t.query(ActionOf::GetVringBase, "get_vring_base"@);
    (
        t,
        match g {
            Got::Value(n) => if n <= u32::MAX {
                Got::Value(n as u32)
            } else {
                Got::Waiting
            },
            _ => relay(g),
        },
    )
}

/// Handshake and ring.
pub open spec fn connect(
    t: Talk,
    path: Seq<char>,
    want_event_idx: bool,
    mask_out: u64,
    base: u16,
) -> (Talk, Got<Session>) {
    let (t, g) = handshake(t, path, true, want_event_idx, mask_out);
    match g {
        Got::Value(s) => {
            let (l, g) = setup_vring(Line { s, io: t }, base);
            match g {
                Got::Value(_) => (l.io, Got::Value(l.s)),
                _ => (l.io, relay(g)),
            }
        },
        _ => (t, relay(g)),
    }
}

// ---- descriptors and rings -----------------------------------------------------

/// A segment that the device reads.
pub open spec fn readable(off: int, len: int) -> Desc {
    Desc { off: off as usize, len: (len % 0x1_0000_0000) as u32, write: false }
}

/// A segment that the device writes.
pub open spec fn writable(off: int, len: int) -> Desc {
    Desc { off: off as usize, len: (len % 0x1_0000_0000) as u32, write: true }
}

/// The stores of one descriptor at `e`.
pub open spec fn entry(e: int, addr: nat, len: u32, flags: u16, next: nat) -> Seq<Act> {
    seq![
        mem::store_le(e, addr, 8),
        mem::store_le(e + 8, len as nat, 4),
        mem::store_le(e + 12, flags as nat, 2),
        mem::store_le(e + 14, next, 2),
    ]
}

/// The flags of segment `i` of a chain.
pub open spec fn flags_in(descs: Seq<Desc>, i: int) -> u16 {
    let write: u16 = if descs[i].write {
        VRING_DESC_F_WRITE
    } else {
        0
    };
    let next: u16 = if i + 1 < descs.len() {
        VRING_DESC_F_NEXT
    } else {
        0
    };
    (write + next) as u16
}

/// The stores of the first `k` descriptors of a chain that starts in slot `first` of
/// the descriptor table and goes round at its end.
pub open spec fn chain_stores(first: int, descs: Seq<Desc>, k: nat) -> Seq<Act>
    decreases k,
{
    if k == 0 {
        Seq::empty()
    } else {
        let i = k - 1;
        chain_stores(first, descs, i as nat) + entry(
            DESC_OFF + (first + i) % (QSZ as int) * 16,
            GPA_BASE as nat + descs[i].off as nat,
            descs[i].len,
            flags_in(descs, i),
            ((first + i + 1) % (QSZ as int)) as nat,
        )
    }
}

/// The stores of the first `k` descriptors of an indirect table at `table`.
pub open spec fn table_stores(table: int, descs: Seq<Desc>, k: nat) -> Seq<Act>
    decreases k,
{
    if k == 0 {
        Seq::empty()
    } else {
        let i = k - 1;
        table_stores(table, descs, i as nat) + entry(
            table + i * 16,
            GPA_BASE as nat + descs[i].off as nat,
            descs[i].len,
            flags_in(descs, i),
            ((i + 1) % 0x1_0000) as nat,
        )
    }
}

/// The ring index after `idx`.
pub open spec fn next_index(idx: u16) -> u16 {
    ((idx + 1) % 0x1_0000) as u16
}

/// The stores that make `head` available as entry `idx`: first the entry, and only
/// then the index that covers it.
pub open spec fn publish(idx: u16, head: nat) -> Seq<Act> {
    seq![
        mem::store_le(AVAIL_OFF + 4 + (idx % QSZ) * 2, head, 2),
        mem::store_le(AVAIL_OFF + 2, next_index(idx) as nat, 2),
    ]
}

/// The stores that post a chain.
pub open spec fn post_stores(s: Session, descs: Seq<Desc>) -> Seq<Act> {
    chain_stores(s.next_desc as int, descs, descs.len()) + publish(
        s.avail_idx,
        (s.next_desc % QSZ) as nat,
    )
}

/// A session after it has posted a chain of `n` descriptors.
pub open spec fn posted(s: Session, n: nat) -> Session {
    Session {
        next_desc: ((s.next_desc + n) % (QSZ as int)) as u16,
        avail_idx: next_index(s.avail_idx),
        ..s
    }
}

pub open spec fn post(l: Line, descs: Seq<Desc>) -> Line {
    Line { s: posted(l.s, descs.len()), io: l.io.tell_all(post_stores(l.s, descs)) }
}

/// The stores that post a chain through an indirect table.
pub open spec fn indirect_stores(s: Session, descs: Seq<Desc>, table: int) -> Seq<Act> {
    table_stores(table, descs, descs.len()) + entry(
        DESC_OFF + s.next_desc % QSZ * 16,
        GPA_BASE as nat + table as nat,
        (descs.len() * 16 % 0x1_0000_0000) as u32,
        VRING_DESC_F_INDIRECT,
        0,
    ) + publish(s.avail_idx, (s.next_desc % QSZ) as nat)
}

pub open spec fn post_indirect(l: Line, descs: Seq<Desc>, table: int) -> Line {
    Line { s: posted(l.s, 1), io: l.io.tell_all(indirect_stores(l.s, descs, table)) }
}

pub open spec fn push_avail(l: Line, head: u16) -> Line {
    Line {
        s: Session { avail_idx: next_index(l.s.avail_idx), ..l.s },
        io: l.io.tell_all(publish(l.s.avail_idx, head as nat)),
    }
}

/// Where the used ring holds the element with index `seen`.
pub open spec fn used_elem_off(seen: u16) -> int {
    USED_OFF + 4 + (seen % QSZ) * 8
}

/// A used element from its eight bytes.
pub open spec fn used_in(b: Seq<u8>) -> UsedElem {
    UsedElem {
        id: le::le_value(le::window(b, 0, 4)) as u32,
        len: le::le_value(le::window(b, 4, 4)) as u32,
    }
}

/// The wait for the next used element.
pub open spec fn wait_used(l: Line, timeout_ms: u64) -> (Line, Got<Option<UsedElem>>) {
    let seen = l.s.used_idx_seen;
    let (t, g) = l.io.await_used(
        seen,
        (USED_OFF + 2) as usize,
        used_elem_off(seen) as usize,
        timeout_ms,
    );
    match g {
        Got::Value(Some(b)) => (
            Line { s: Session { used_idx_seen: next_index(seen), ..l.s }, io: t },
            Got::Value(Some(used_in(b))),
        ),
        Got::Value(None) => (Line { s: l.s, io: t }, Got::Value(None)),
        _ => (Line { s: l.s, io: t }, relay(g)),
    }
}

/// The text for a completion that is not of the posted chain.
pub open spec fn wrong_id(id: u32, head: u16) -> Seq<char> {
    "used.id="@ + text::decimal(id as nat) + " != head="@ + text::decimal(head as nat)
}

/// The text for a completion that did not come.
pub open spec fn hang(timeout_ms: u64) -> Seq<char> {
    "ЗАВИСАНИЕ: нет завершения за "@ + text::decimal(timeout_ms as nat) + " мс"@
}

/// Post, kick, and the wait for the completion of this very chain.
pub open spec fn submit(l: Line, descs: Seq<Desc>, timeout_ms: u64) -> (Line, Got<UsedElem>) {
    let head = (l.s.next_desc % QSZ) as u16;
    let p = post(l, descs);
    let (l2, g) = wait_used(Line { s: p.s, io: p.io.tell(ActionOf::Kick) }, timeout_ms);
    (
        l2,
        match g {
            Got::Value(Some(u)) => if u.id == head {
                Got::Value(u)
            } else {
                Got::Fault(wrong_id(u.id, head))
            },
            Got::Value(None) => Got::Fault(hang(timeout_ms)),
            _ => relay(g),
        },
    )
}

// ---- buffers -------------------------------------------------------------------

/// The next multiple of the page size.
pub open spec fn page_up(x: int) -> int {
    (x + 0xfff) / 0x1000 * 0x1000
}

/// Where a buffer of any length would start.
pub open spec fn next_buffer(s: Session) -> int {
    page_up(s.next_data as int)
}

/// The end of a buffer of `len` bytes; an empty one takes a byte.
pub open spec fn buffer_end(s: Session, len: int) -> int {
    next_buffer(s) + if len < 1 {
        1
    } else {
        len
    }
}

/// A buffer of `len` bytes still fits into the region.
pub open spec fn has_room(s: Session, len: int) -> bool {
    buffer_end(s, len) <= REGION_SIZE
}

/// A session after it has given out a buffer of `len` bytes.
pub open spec fn allocated(s: Session, len: int) -> Session {
    Session { next_data: buffer_end(s, len) as usize, ..s }
}

/// The three buffers of a request with a middle part of `len` bytes still fit.
pub open spec fn room_for_three(s: Session, len: int) -> bool {
    let s1 = allocated(s, 16);
    has_room(s, 16) && has_room(s1, len) && has_room(allocated(s1, len), 1)
}

/// The two buffers of a request without a middle part still fit.
pub open spec fn room_for_two(s: Session) -> bool {
    has_room(s, 16) && has_room(allocated(s, 16), 1)
}

// ---- requests ------------------------------------------------------------------

/// The stores of a request header.
pub open spec fn header_stores(off: int, req_type: u32, sector: u64) -> Seq<Act> {
    seq![
        mem::store_le(off, req_type as nat, 4),
        mem::store_le(off + 4, 0, 4),
        mem::store_le(off + 8, sector as nat, 8),
    ]
}

/// The store that marks a status byte as not yet written by the device.
pub open spec fn poison(off: int) -> Act {
    mem::store(off, seq![STATUS_POISON])
}

/// A submitted chain, and then the status byte.
pub open spec fn submit_for_status(l: Line, descs: Seq<Desc>, st: int) -> (Line, Got<u8>) {
    let (l2, g) = submit(l, descs, TIMEOUT_MS);
    match g {
        Got::Value(_) => {
            let (t, g) = mem::load_byte(l2.io, st);
            (Line { s: l2.s, io: t }, g)
        },
        _ => (l2, relay(g)),
    }
}

/// A submitted chain, then the bytes that the device wrote, then the status byte.
pub open spec fn submit_for_data(l: Line, descs: Seq<Desc>, dbuf: int, len: int, st: int) -> (
    Line,
    Got<(u8, Seq<u8>)>,
) {
    let (l2, g) = submit(l, descs, TIMEOUT_MS);
    match g {
        Got::Value(_) => {
            let (t, g) = l2.io.load(dbuf as usize, len as usize);
            match g {
                Got::Value(data) => {
                    let (t, g) = mem::load_byte(t, st);
                    match g {
                        Got::Value(status) => (
                            Line { s: l2.s, io: t },
                            Got::Value((status, data)),
                        ),
                        _ => (Line { s: l2.s, io: t }, relay(g)),
                    }
                },
                _ => (Line { s: l2.s, io: t }, relay(g)),
            }
        },
        _ => (l2, relay(g)),
    }
}

/// The three buffers of a request with a middle part of `len` bytes.
pub open spec fn three(s: Session, len: int) -> (int, int, int, Session) {
    let s1 = allocated(s, 16);
    let s2 = allocated(s1, len);
    (next_buffer(s), next_buffer(s1), next_buffer(s2), allocated(s2, 1))
}

pub open spec fn blk_write(l: Line, sector: u64, data: Seq<u8>) -> (Line, Got<u8>) {
    let len = data.len() as int;
    let (hdr, dbuf, st, s) = three(l.s, len);
    let t = l.io.tell_all(header_stores(hdr, VIRTIO_BLK_T_OUT, sector)).tell(
        mem::store(dbuf, data),
    ).tell(poison(st));
    submit_for_status(
        Line { s, io: t },
        seq![readable(hdr, 16), readable(dbuf, len), writable(st, 1)],
        st,
    )
}

/// A request of a type that fills `len` bytes.
pub open spec fn blk_fetch(l: Line, req_type: u32, sector: u64, len: int) -> (
    Line,
    Got<(u8, Seq<u8>)>,
) {
    let (hdr, dbuf, st, s) = three(l.s, len);
    let t = l.io.tell_all(header_stores(hdr, req_type, sector)).tell(
        mem::store(dbuf, mem::repeated(0, len as nat)),
    ).tell(poison(st));
    submit_for_data(
        Line { s, io: t },
        seq![readable(hdr, 16), writable(dbuf, len), writable(st, 1)],
        dbuf,
        len,
        st,
    )
}

pub open spec fn blk_read(l: Line, sector: u64, len: int) -> (Line, Got<(u8, Seq<u8>)>) {
    blk_fetch(l, VIRTIO_BLK_T_IN, sector, len)
}

pub open spec fn blk_get_id(l: Line) -> (Line, Got<(u8, Seq<u8>)>) {
    blk_fetch(l, VIRTIO_BLK_T_GET_ID, 0, 20)
}

pub open spec fn blk_flush(l: Line) -> (Line, Got<u8>) {
    let s1 = allocated(l.s, 16);
    let (hdr, st) = (next_buffer(l.s), next_buffer(s1));
    let t = l.io.tell_all(header_stores(hdr, VIRTIO_BLK_T_FLUSH, 0)).tell(poison(st));
    submit_for_status(
        Line { s: allocated(s1, 1), io: t },
        seq![readable(hdr, 16), writable(st, 1)],
        st,
    )
}

/// The stores of the one segment of a discard or a write-zeroes.
pub open spec fn segment_stores(off: int, sector: u64, num_sectors: u32, unmap: bool) -> Seq<Act> {
    seq![
        mem::store_le(off, sector as nat, 8),
        mem::store_le(off + 8, num_sectors as nat, 4),
        mem::store_le(
            off + 12,
            if unmap {
                1
            } else {
                0
            },
            4,
        ),
    ]
}

pub open spec fn blk_zeroes_or_discard(
    l: Line,
    req_type: u32,
    sector: u64,
    num_sectors: u32,
    unmap: bool,
) -> (Line, Got<u8>) {
    let (hdr, payload, st, s) = three(l.s, 16);
    let t = l.io.tell_all(header_stores(hdr, req_type, 0)).tell_all(
        segment_stores(payload, sector, num_sectors, unmap),
    ).tell(poison(st));
    submit_for_status(
        Line { s, io: t },
        seq![readable(hdr, 16), readable(payload, 16), writable(st, 1)],
        st,
    )
}

} // verus!
