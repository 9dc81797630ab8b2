//! What the device finds of a request when it is woken.

use vstd::prelude::*;

use crate::dev::{
    Desc, Session, AVAIL_OFF, DESC_OFF, REGION_SIZE, STATUS_POISON, USED_OFF,
    VIRTIO_BLK_T_FLUSH, VIRTIO_BLK_T_OUT,
};
use crate::guest;
use crate::le;
use crate::link::{Act, ActionOf};
use crate::mem;
use crate::model;
use crate::model::Line;
use crate::replay;

verus! {

/// A request header with these fields lies at `off`.
pub open spec fn header_at(m: Seq<u8>, off: int, req_type: u32, sector: u64) -> bool {
    &&& guest::number_at(m, off, 4) == req_type
    &&& guest::number_at(m, off + 4, 4) == 0
    &&& guest::number_at(m, off + 8, 8) == sector
}

/// The segment of a discard or a write-zeroes with these fields lies at `off`.
pub open spec fn range_at(m: Seq<u8>, off: int, sector: u64, n: u32, unmap: bool) -> bool {
    &&& guest::number_at(m, off, 8) == sector
    &&& guest::number_at(m, off + 8, 4) == n
    &&& guest::number_at(m, off + 12, 4) == if unmap {
        1nat
    } else {
        0
    }
}

/// The device finds these bytes at `off`.
pub open spec fn bytes_at(m: Seq<u8>, off: int, data: Seq<u8>) -> bool {
    m.subrange(off, off + data.len()) == data
}

proof fn lemma_header(m: Seq<u8>, off: int, req_type: u32, sector: u64)
    requires
        0 <= off,
        off + 16 <= m.len() <= REGION_SIZE,
    ensures
        header_at(
            mem::replayed(m, model::header_stores(off, req_type, sector)),
            off,
            req_type,
            sector,
        ),
        guest::same_outside(
            m,
            mem::replayed(m, model::header_stores(off, req_type, sector)),
            off,
            off + 16,
        ),
{
    let acts = model::header_stores(off, req_type, sector);
    le::lemma_ranges();
    let m1 = mem::overwritten(m, off, le::le_bytes(req_type as nat, 4));
    let m2 = mem::overwritten(m1, off + 4, le::le_bytes(0, 4));
    let m3 = mem::overwritten(m2, off + 8, le::le_bytes(sector as nat, 8));
    guest::stored_number_reads_back(m, off, req_type as nat, 4);
    guest::stored_number_reads_back(m1, off + 4, 0, 4);
    guest::stored_number_reads_back(m2, off + 8, sector as nat, 8);
    guest::lemma_number_kept(m1, m2, off, 4, off + 4, off + 8);
    guest::lemma_number_kept(m2, m3, off, 4, off + 8, off + 16);
    guest::lemma_number_kept(m2, m3, off + 4, 4, off + 8, off + 16);
    lemma_three_stores(m, acts);
}

proof fn lemma_range(m: Seq<u8>, off: int, sector: u64, n: u32, unmap: bool)
    requires
        0 <= off,
        off + 16 <= m.len() <= REGION_SIZE,
    ensures
        range_at(
            mem::replayed(m, model::segment_stores(off, sector, n, unmap)),
            off,
            sector,
            n,
            unmap,
        ),
        guest::same_outside(
            m,
            mem::replayed(m, model::segment_stores(off, sector, n, unmap)),
            off,
            off + 16,
        ),
{
    let acts = model::segment_stores(off, sector, n, unmap);
    let bit: nat = if unmap {
        1
    } else {
        0
    };
    le::lemma_ranges();
    let m1 = mem::overwritten(m, off, le::le_bytes(sector as nat, 8));
    let m2 = mem::overwritten(m1, off + 8, le::le_bytes(n as nat, 4));
    let m3 = mem::overwritten(m2, off + 12, le::le_bytes(bit, 4));
    guest::stored_number_reads_back(m, off, sector as nat, 8);
    guest::stored_number_reads_back(m1, off + 8, n as nat, 4);
    guest::stored_number_reads_back(m2, off + 12, bit, 4);
    guest::lemma_number_kept(m1, m2, off, 8, off + 8, off + 12);
    guest::lemma_number_kept(m2, m3, off, 8, off + 12, off + 16);
    guest::lemma_number_kept(m2, m3, off + 8, 4, off + 12, off + 16);
    lemma_three_stores(m, acts);
}

proof fn lemma_three_stores(m: Seq<u8>, acts: Seq<Act>)
    requires
        acts.len() == 3,
        acts[0] is Store,
        acts[1] is Store,
        acts[2] is Store,
    ensures
        ({
            let m1 = mem::overwritten(m, acts[0]->Store_off as int, acts[0]->Store_data);
            let m2 = mem::overwritten(m1, acts[1]->Store_off as int, acts[1]->Store_data);
            mem::replayed(m, acts) == mem::overwritten(
                m2,
                acts[2]->Store_off as int,
                acts[2]->Store_data,
            )
        }),
{
    let none = Seq::<Act>::empty();
    assert(acts =~= none.push(acts[0]).push(acts[1]).push(acts[2]));
    guest::lemma_replayed_push(m, none, acts[0]);
    guest::lemma_replayed_push(m, none.push(acts[0]), acts[1]);
    guest::lemma_replayed_push(m, none.push(acts[0]).push(acts[1]), acts[2]);
}

proof fn lemma_kept(a: Seq<u8>, b: Seq<u8>, off: int, len: int, from: int, to: int)
    requires
        guest::same_outside(a, b, from, to),
        0 <= off <= off + len <= a.len(),
        off + len <= from || to <= off,
    ensures
        a.subrange(off, off + len) == b.subrange(off, off + len),
{
    assert(a.subrange(off, off + len) =~= b.subrange(off, off + len));
}

proof fn lemma_header_kept(
    a: Seq<u8>,
    b: Seq<u8>,
    off: int,
    req_type: u32,
    sector: u64,
    from: int,
    to: int,
)
    requires
        header_at(a, off, req_type, sector),
        guest::same_outside(a, b, from, to),
        0 <= off,
        off + 16 <= a.len(),
        off + 16 <= from || to <= off,
    ensures
        header_at(b, off, req_type, sector),
{
    guest::lemma_number_kept(a, b, off, 4, from, to);
    guest::lemma_number_kept(a, b, off + 4, 4, from, to);
    guest::lemma_number_kept(a, b, off + 8, 8, from, to);
}

// ---- requests with a middle part -----------------------------------------------------

/// The stores of a request whose middle part is made of `middle`, up to the kick.
pub open spec fn request_stores(
    s: Session,
    req_type: u32,
    sector: u64,
    len: int,
    middle: Seq<Act>,
    write: bool,
) -> Seq<Act> {
    let (hdr, dbuf, st, s2) = model::three(s, len);
    model::header_stores(hdr, req_type, sector) + middle + seq![model::poison(st)]
        + model::post_stores(s2, request_chain(s, len, write))
}

/// The chain of such a request.
pub open spec fn request_chain(s: Session, len: int, write: bool) -> Seq<Desc> {
    let (hdr, dbuf, st, _) = model::three(s, len);
    seq![
        model::readable(hdr, 16),
        if write {
            model::writable(dbuf, len)
        } else {
            model::readable(dbuf, len)
        },
        model::writable(st, 1),
    ]
}

/// What the device finds of any such request: header, chain and untouched status, and in
/// the middle whatever the stores of the middle part left there.
proof fn lemma_request(
    m: Seq<u8>,
    s: Session,
    req_type: u32,
    sector: u64,
    len: int,
    middle: Seq<Act>,
    write: bool,
)
    requires
        s.wf(),
        0 <= len,
        model::room_for_three(s, len),
        m.len() == REGION_SIZE,
        forall|x: Seq<u8>|
            x.len() == REGION_SIZE ==> #[trigger] guest::same_outside(
                x,
                mem::replayed(x, middle),
                model::three(s, len).1,
                model::three(s, len).1 + len,
            ),
    ensures
        ({
            let (hdr, dbuf, st, s2) = model::three(s, len);
            let m1 = mem::replayed(m, model::header_stores(hdr, req_type, sector));
            let m2 = mem::replayed(m1, middle);
            let m4 = mem::replayed(m, request_stores(s, req_type, sector, len, middle, write));
            &&& m1.len() == REGION_SIZE
            &&& header_at(m4, hdr, req_type, sector)
            &&& m4[st] == STATUS_POISON
            &&& guest::chain_at(m4, s.next_desc as int, request_chain(s, len, write))
            &&& guest::number_at(m4, AVAIL_OFF + 2, 2) == model::next_index(s.avail_idx)
            &&& m4.subrange(dbuf, dbuf + len) == m2.subrange(dbuf, dbuf + len)
            &&& m4.len() == REGION_SIZE
        }),
{
    let (hdr, dbuf, st, s2) = model::three(s, len);
    let chain = request_chain(s, len, write);
    let head = model::header_stores(hdr, req_type, sector);
    let mark = seq![model::poison(st)];
    let post = model::post_stores(s2, chain);
    let m1 = mem::replayed(m, head);
    let m2 = mem::replayed(m1, middle);
    let m3 = mem::replayed(m2, mark);
    let m4 = mem::replayed(m3, post);
    guest::lemma_replayed_concat(m, head, middle);
    guest::lemma_replayed_concat(m, head + middle, mark);
    guest::lemma_replayed_concat(m, head + middle + mark, post);
    lemma_header(m, hdr, req_type, sector);
    assert(guest::same_outside(m1, m2, dbuf, dbuf + len));
    assert(mark =~= Seq::<Act>::empty().push(model::poison(st)));
    guest::lemma_replayed_push(m2, Seq::empty(), model::poison(st));
    guest::stored_bytes_read_back(m2, st, seq![STATUS_POISON]);
    assert(m3.subrange(st, st + 1)[0] == STATUS_POISON);
    guest::posted_chain_reads_back(m3, s2, chain);
    lemma_header_kept(m1, m2, hdr, req_type, sector, dbuf, dbuf + len);
    lemma_header_kept(m2, m3, hdr, req_type, sector, st, st + 1);
    lemma_header_kept(m3, m4, hdr, req_type, sector, DESC_OFF as int, USED_OFF as int);
    lemma_kept(m2, m3, dbuf, len, st, st + 1);
    lemma_kept(m3, m4, dbuf, len, DESC_OFF as int, USED_OFF as int);
}

/// When it is woken for a write, the device finds the header with type and sector, the
/// data, a status that nobody has touched, the chain that leads to them, and
/// the index that announces it.
pub proof fn write_reaches_the_device(m: Seq<u8>, l: Line, sector: u64, data: Seq<u8>)
    requires
        l.s.wf(),
        model::room_for_three(l.s, data.len() as int),
        m.len() == REGION_SIZE,
    ensures
        ({
            let len = data.len() as int;
            let (hdr, dbuf, st, _) = model::three(l.s, len);
            let stores = request_stores(
                l.s,
                VIRTIO_BLK_T_OUT,
                sector,
                len,
                seq![mem::store(dbuf, data)],
                false,
            );
            let m2 = mem::replayed(m, stores);
            &&& replay::starts(
                (l.io.log + stores).push(ActionOf::Kick),
                model::blk_write(l, sector, data).0.io.log,
            )
            &&& header_at(m2, hdr, VIRTIO_BLK_T_OUT, sector)
            &&& bytes_at(m2, dbuf, data)
            &&& m2[st] == STATUS_POISON
            &&& guest::chain_at(m2, l.s.next_desc as int, request_chain(l.s, len, false))
            &&& guest::number_at(m2, AVAIL_OFF + 2, 2) == model::next_index(l.s.avail_idx)
        }),
{
    let len = data.len() as int;
    let (hdr, dbuf, st, s2) = model::three(l.s, len);
    let middle = seq![mem::store(dbuf, data)];
    assert(middle =~= Seq::<Act>::empty().push(mem::store(dbuf, data)));
    assert forall|x: Seq<u8>| x.len() == REGION_SIZE implies #[trigger] guest::same_outside(
        x,
        mem::replayed(x, middle),
        dbuf,
        dbuf + len,
    ) by {
        guest::lemma_replayed_push(x, Seq::empty(), mem::store(dbuf, data));
        guest::stored_bytes_read_back(x, dbuf, data);
    }
    lemma_request(m, l.s, VIRTIO_BLK_T_OUT, sector, len, middle, false);
    let m1 = mem::replayed(m, model::header_stores(hdr, VIRTIO_BLK_T_OUT, sector));
    guest::lemma_replayed_push(m1, Seq::empty(), mem::store(dbuf, data));
    guest::stored_bytes_read_back(m1, dbuf, data);
    let stores = request_stores(l.s, VIRTIO_BLK_T_OUT, sector, len, middle, false);
    let log = model::blk_write(l, sector, data).0.io.log;
    let start = (l.io.log + stores).push(ActionOf::Kick);
    assert(request_chain(l.s, len, false) =~= seq![
        model::readable(hdr, 16),
        model::readable(dbuf, len),
        model::writable(st, 1),
    ]);
    assert(start =~= log.take(start.len() as int));
}

/// When it is woken for a request that fills `len` bytes, the device finds the header, a
/// zeroed buffer for the bytes, a status that nobody has touched, the chain that leads
/// to them, and the index that announces it.
pub proof fn fetch_reaches_the_device(m: Seq<u8>, l: Line, req_type: u32, sector: u64, len: int)
    requires
        l.s.wf(),
        0 <= len,
        model::room_for_three(l.s, len),
        m.len() == REGION_SIZE,
    ensures
        ({
            let (hdr, dbuf, st, _) = model::three(l.s, len);
            let zeroes = mem::repeated(0, len as nat);
            let stores = request_stores(
                l.s,
                req_type,
                sector,
                len,
                seq![mem::store(dbuf, zeroes)],
                true,
            );
            let m2 = mem::replayed(m, stores);
            &&& replay::starts(
                (l.io.log + stores).push(ActionOf::Kick),
                model::blk_fetch(l, req_type, sector, len).0.io.log,
            )
            &&& header_at(m2, hdr, req_type, sector)
            &&& bytes_at(m2, dbuf, zeroes)
            &&& m2[st] == STATUS_POISON
            &&& guest::chain_at(m2, l.s.next_desc as int, request_chain(l.s, len, true))
            &&& guest::number_at(m2, AVAIL_OFF + 2, 2) == model::next_index(l.s.avail_idx)
        }),
{
    let (hdr, dbuf, st, s2) = model::three(l.s, len);
    let zeroes = mem::repeated(0, len as nat);
    let middle = seq![mem::store(dbuf, zeroes)];
    assert(middle =~= Seq::<Act>::empty().push(mem::store(dbuf, zeroes)));
    assert forall|x: Seq<u8>| x.len() == REGION_SIZE implies #[trigger] guest::same_outside(
        x,
        mem::replayed(x, middle),
        dbuf,
        dbuf + len,
    ) by {
        guest::lemma_replayed_push(x, Seq::empty(), mem::store(dbuf, zeroes));
        guest::stored_bytes_read_back(x, dbuf, zeroes);
    }
    lemma_request(m, l.s, req_type, sector, len, middle, true);
    let m1 = mem::replayed(m, model::header_stores(hdr, req_type, sector));
    guest::lemma_replayed_push(m1, Seq::empty(), mem::store(dbuf, zeroes));
    guest::stored_bytes_read_back(m1, dbuf, zeroes);
    let stores = request_stores(l.s, req_type, sector, len, middle, true);
    let log = model::blk_fetch(l, req_type, sector, len).0.io.log;
    let start = (l.io.log + stores).push(ActionOf::Kick);
    assert(request_chain(l.s, len, true) =~= seq![
        model::readable(hdr, 16),
        model::writable(dbuf, len),
        model::writable(st, 1),
    ]);
    assert(start =~= log.take(start.len() as int));
}

/// When it is woken for a discard or a write-zeroes, the device finds the header without
/// a sector, the segment with the sectors, a status that nobody has touched, the chain
/// that leads to them, and the index that announces it.
pub proof fn range_reaches_the_device(
    m: Seq<u8>,
    l: Line,
    req_type: u32,
    sector: u64,
    n: u32,
    unmap: bool,
)
    requires
        l.s.wf(),
        model::room_for_three(l.s, 16),
        m.len() == REGION_SIZE,
    ensures
        ({
            let (hdr, payload, st, _) = model::three(l.s, 16);
            let middle = model::segment_stores(payload, sector, n, unmap);
            let stores = request_stores(l.s, req_type, 0, 16, middle, false);
            let m2 = mem::replayed(m, stores);
            &&& replay::starts(
                (l.io.log + stores).push(ActionOf::Kick),
                model::blk_zeroes_or_discard(l, req_type, sector, n, unmap).0.io.log,
            )
            &&& header_at(m2, hdr, req_type, 0)
            &&& range_at(m2, payload, sector, n, unmap)
            &&& m2[st] == STATUS_POISON
            &&& guest::chain_at(m2, l.s.next_desc as int, request_chain(l.s, 16, false))
            &&& guest::number_at(m2, AVAIL_OFF + 2, 2) == model::next_index(l.s.avail_idx)
        }),
{
    let (hdr, payload, st, s2) = model::three(l.s, 16);
    let middle = model::segment_stores(payload, sector, n, unmap);
    assert forall|x: Seq<u8>| x.len() == REGION_SIZE implies #[trigger] guest::same_outside(
        x,
        mem::replayed(x, middle),
        payload,
        payload + 16,
    ) by {
        lemma_range(x, payload, sector, n, unmap);
    }
    lemma_request(m, l.s, req_type, 0, 16, middle, false);
    let m1 = mem::replayed(m, model::header_stores(hdr, req_type, 0));
    lemma_range(m1, payload, sector, n, unmap);
    let stores = request_stores(l.s, req_type, 0, 16, middle, false);
    let m2 = mem::replayed(m1, middle);
    let m4 = mem::replayed(m, stores);
    let (x, y) = (m2.subrange(payload, payload + 16), m4.subrange(payload, payload + 16));
    assert(m2.subrange(payload, payload + 8) =~= x.subrange(0, 8));
    assert(m4.subrange(payload, payload + 8) =~= y.subrange(0, 8));
    assert(m2.subrange(payload + 8, payload + 12) =~= x.subrange(8, 12));
    assert(m4.subrange(payload + 8, payload + 12) =~= y.subrange(8, 12));
    assert(m2.subrange(payload + 12, payload + 16) =~= x.subrange(12, 16));
    assert(m4.subrange(payload + 12, payload + 16) =~= y.subrange(12, 16));
    let log = model::blk_zeroes_or_discard(l, req_type, sector, n, unmap).0.io.log;
    let start = (l.io.log + stores).push(ActionOf::Kick);
    assert(request_chain(l.s, 16, false) =~= seq![
        model::readable(hdr, 16),
        model::readable(payload, 16),
        model::writable(st, 1),
    ]);
    assert(start =~= log.take(start.len() as int));
}

/// The stores of a flush, up to the kick.
pub open spec fn flush_stores(s: Session) -> Seq<Act> {
    let s1 = model::allocated(s, 16);
    let (hdr, st) = (model::next_buffer(s), model::next_buffer(s1));
    model::header_stores(hdr, VIRTIO_BLK_T_FLUSH, 0) + seq![model::poison(st)]
        + model::post_stores(model::allocated(s1, 1), flush_chain(s))
}

/// The chain of a flush.
pub open spec fn flush_chain(s: Session) -> Seq<Desc> {
    seq![
        model::readable(model::next_buffer(s), 16),
        model::writable(model::next_buffer(model::allocated(s, 16)), 1),
    ]
}

/// When it is woken for a flush, the device finds the header without a sector, a status
/// that nobody has touched, the chain that leads to them, and the index that announces it.
pub proof fn flush_reaches_the_device(m: Seq<u8>, l: Line)
    requires
        l.s.wf(),
        model::room_for_two(l.s),
        m.len() == REGION_SIZE,
    ensures
        ({
            let hdr = model::next_buffer(l.s);
            let st = model::next_buffer(model::allocated(l.s, 16));
            let m2 = mem::replayed(m, flush_stores(l.s));
            &&& replay::starts(
                (l.io.log + flush_stores(l.s)).push(ActionOf::Kick),
                model::blk_flush(l).0.io.log,
            )
            &&& header_at(m2, hdr, VIRTIO_BLK_T_FLUSH, 0)
            &&& m2[st] == STATUS_POISON
            &&& guest::chain_at(m2, l.s.next_desc as int, flush_chain(l.s))
            &&& guest::number_at(m2, AVAIL_OFF + 2, 2) == model::next_index(l.s.avail_idx)
        }),
{
    let s1 = model::allocated(l.s, 16);
    let s2 = model::allocated(s1, 1);
    let (hdr, st) = (model::next_buffer(l.s), model::next_buffer(s1));
    let chain = flush_chain(l.s);
    let head = model::header_stores(hdr, VIRTIO_BLK_T_FLUSH, 0);
    let mark = seq![model::poison(st)];
    let post = model::post_stores(s2, chain);
    let m1 = mem::replayed(m, head);
    let m2 = mem::replayed(m1, mark);
    let m3 = mem::replayed(m2, post);
    guest::lemma_replayed_concat(m, head, mark);
    guest::lemma_replayed_concat(m, head + mark, post);
    lemma_header(m, hdr, VIRTIO_BLK_T_FLUSH, 0);
    assert(mark =~= Seq::<Act>::empty().push(model::poison(st)));
    guest::lemma_replayed_push(m1, Seq::empty(), model::poison(st));
    guest::stored_bytes_read_back(m1, st, seq![STATUS_POISON]);
    assert(m2.subrange(st, st + 1)[0] == STATUS_POISON);
    guest::posted_chain_reads_back(m2, s2, chain);
    lemma_header_kept(m1, m2, hdr, VIRTIO_BLK_T_FLUSH, 0, st, st + 1);
    lemma_header_kept(m2, m3, hdr, VIRTIO_BLK_T_FLUSH, 0, DESC_OFF as int, USED_OFF as int);
    let log = model::blk_flush(l).0.io.log;
    let start = (l.io.log + flush_stores(l.s)).push(ActionOf::Kick);
    assert(start =~= log.take(start.len() as int));
}

} // verus!
