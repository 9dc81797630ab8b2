//! Which sectors the requests of scenarios change.

use vstd::prelude::*;

use crate::audit;
use crate::bench;
use crate::bench::{Bench, Step};
use crate::bounds;
use crate::checks::WORK;
use crate::dev::{
    Desc, Session, AVAIL_OFF, DATA_OFF, DESC_OFF, GPA_BASE, QSZ, REGION_SIZE, SECTOR,
    STATUS_POISON, TIMEOUT_MS, USED_OFF, VIRTIO_BLK_T_FLUSH, VIRTIO_BLK_T_GET_ID,
    VIRTIO_BLK_T_IN, VIRTIO_BLK_T_OUT, VRING_DESC_F_INDIRECT,
};
use crate::features::PROTOCOL_CONFIG;
use crate::le;
use crate::link::{Act, ActionOf, Got, Rep, Talk};
use crate::mem;
use crate::model;
use crate::model::Line;
use crate::registry;
use crate::registry::Case;
use crate::replay;
use crate::turns;
use crate::verdicts;

verus! {

// ---- requests in a log ---------------------------------------------------------------

/// From action `i` on, the header of a request is stored at `off`.
pub open spec fn header_in(log: Seq<Act>, i: int, off: int, req_type: u32, sector: u64) -> bool {
    &&& 0 <= i
    &&& i + 3 <= log.len()
    &&& 0 <= off <= REGION_SIZE - 16
    &&& log[i] == mem::store_le(off, req_type as nat, 4)
    &&& log[i + 1] == mem::store_le(off + 4, 0, 4)
    &&& log[i + 2] == mem::store_le(off + 8, sector as nat, 8)
}

/// From action `i` on, a run of sectors to be discarded or zeroed is stored at `off`.
pub open spec fn run_in(
    log: Seq<Act>,
    i: int,
    off: int,
    sector: u64,
    num_sectors: u32,
    flags: u32,
) -> bool {
    &&& 0 <= i
    &&& i + 3 <= log.len()
    &&& 0 <= off <= REGION_SIZE - 16
    &&& log[i] == mem::store_le(off, sector as nat, 8)
    &&& log[i + 1] == mem::store_le(off + 8, num_sectors as nat, 4)
    &&& log[i + 2] == mem::store_le(off + 12, flags as nat, 4)
}

/// The action stores so many bytes.
pub open spec fn stores(a: Act, n: nat) -> bool {
    a is Store && a->Store_data.len() == n
}

/// No request in the log changes a sector before the work area: each header of a write
/// names a sector of the work area or after it, so does each run of sectors that has any,
/// and where sixteen bytes are stored at once, as in a run, they are zero and name none.
pub open spec fn spares_all(log: Seq<Act>) -> bool {
    &&& forall|i: int, off: int, sector: u64|
        #[trigger] header_in(log, i, off, VIRTIO_BLK_T_OUT, sector) ==> sector >= WORK
    &&& forall|i: int, off: int, sector: u64, n: u32, flags: u32|
        #[trigger] run_in(log, i, off, sector, n, flags) ==> n == 0 || sector >= WORK
    &&& forall|i: int|
        0 <= i < log.len() && stores(#[trigger] log[i], 16) ==> log[i]->Store_data
            == mem::repeated(0, 16)
}

// ---- logs one after the other --------------------------------------------------------

/// Four bytes that are no field of a request.
spec fn preset(data: Seq<u8>) -> bool {
    data == mem::repeated(STATUS_POISON, 4)
}

/// What ends the log cannot be taken for the start of a header or of a run that goes on
/// at the start of a page.
spec fn closed(log: Seq<Act>) -> bool {
    log.len() > 0 ==> {
        let a = log.last();
        &&& stores(a, 4) ==> preset(a->Store_data) && a->Store_off % 0x1000 == 0
        &&& stores(a, 8) ==> a->Store_off % 0x1000 == 8
    }
}

/// If four bytes are stored first, they start a page.
#[verifier::opaque]
spec fn begins(acts: Seq<Act>) -> bool {
    acts.len() > 0 && stores(acts[0], 4) ==> acts[0]->Store_off % 0x1000 == 0
}

#[verifier::opaque]
spec fn neat(log: Seq<Act>) -> bool {
    spares_all(log) && closed(log)
}

/// The action is no part of a header or of a run.
spec fn calm(a: Act) -> bool {
    &&& !stores(a, 4)
    &&& !stores(a, 8)
    &&& stores(a, 16) ==> a->Store_data == mem::repeated(0, 16)
}

/// The second log is the first with calm actions after it.
spec fn calmly(a: Seq<Act>, b: Seq<Act>) -> bool {
    &&& a.len() <= b.len()
    &&& b.take(a.len() as int) == a
    &&& forall|i: int| a.len() <= i < b.len() ==> calm(#[trigger] b[i])
}

proof fn lemma_lens()
    ensures
        forall|v: nat| (#[trigger] le::le_bytes(v, 2)).len() == 2,
        forall|v: nat| (#[trigger] le::le_bytes(v, 4)).len() == 4,
        forall|v: nat| (#[trigger] le::le_bytes(v, 8)).len() == 8,
        !preset(le::le_bytes(0, 4)),
        !preset(le::le_bytes(VIRTIO_BLK_T_OUT as nat, 4)),
{
    assert forall|v: nat| (#[trigger] le::le_bytes(v, 2)).len() == 2 by {
        le::lemma_le_len(v, 2);
    }
    assert forall|v: nat| (#[trigger] le::le_bytes(v, 4)).len() == 4 by {
        le::lemma_le_len(v, 4);
    }
    assert forall|v: nat| (#[trigger] le::le_bytes(v, 8)).len() == 8 by {
        le::lemma_le_len(v, 8);
    }
    assert(le::le_bytes(0, 4)[0] == 0);
    assert(le::le_bytes(1, 4)[0] == 1);
    assert(mem::repeated(STATUS_POISON, 4)[0] == 0xff);
}

proof fn lemma_headers_over(log: Seq<Act>, acts: Seq<Act>, i: int, off: int, sector: u64)
    requires
        neat(log),
        spares_all(acts),
        header_in(log + acts, i, off, VIRTIO_BLK_T_OUT, sector),
    ensures
        sector >= WORK,
{
    reveal(neat);
    lemma_lens();
    let n = log.len();
    let all = log + acts;
    if i + 3 <= n {
        assert(header_in(log, i, off, VIRTIO_BLK_T_OUT, sector));
    } else if i >= n {
        assert(acts[i - n] == all[i]);
        assert(acts[i + 1 - n] == all[i + 1]);
        assert(acts[i + 2 - n] == all[i + 2]);
        assert(header_in(acts, i - n, off, VIRTIO_BLK_T_OUT, sector));
    } else if i == n - 1 {
        assert(log.last() == all[i]);
    } else {
        assert(log.last() == all[i + 1]);
    }
}

proof fn lemma_runs_over(
    log: Seq<Act>,
    acts: Seq<Act>,
    i: int,
    off: int,
    sector: u64,
    m: u32,
    flags: u32,
)
    requires
        neat(log),
        spares_all(acts),
        begins(acts),
        run_in(log + acts, i, off, sector, m, flags),
    ensures
        m == 0 || sector >= WORK,
{
    reveal(neat);
    reveal(begins);
    lemma_lens();
    let n = log.len();
    let all = log + acts;
    if i + 3 <= n {
        assert(run_in(log, i, off, sector, m, flags));
    } else if i >= n {
        assert(acts[i - n] == all[i]);
        assert(acts[i + 1 - n] == all[i + 1]);
        assert(acts[i + 2 - n] == all[i + 2]);
        assert(run_in(acts, i - n, off, sector, m, flags));
    } else if i == n - 1 {
        assert(log.last() == all[i]);
        assert(acts[0] == all[i + 1]);
    } else {
        assert(log.last() == all[i + 1]);
        assert(acts[0] == all[i + 2]);
    }
}

/// Two logs that spare the sectors, one after the other, do so too.
proof fn lemma_append(log: Seq<Act>, acts: Seq<Act>)
    requires
        neat(log),
        neat(acts),
        begins(acts),
    ensures
        neat(log + acts),
        begins(log) ==> begins(log + acts),
{
    reveal(neat);
    reveal(begins);
    let all = log + acts;
    assert forall|i: int, off: int, sector: u64| #[trigger]
        header_in(all, i, off, VIRTIO_BLK_T_OUT, sector) implies sector >= WORK by {
        lemma_headers_over(log, acts, i, off, sector);
    }
    assert forall|i: int, off: int, sector: u64, n: u32, flags: u32| #[trigger]
        run_in(all, i, off, sector, n, flags) implies n == 0 || sector >= WORK by {
        lemma_runs_over(log, acts, i, off, sector, n, flags);
    }
    assert forall|i: int| 0 <= i < all.len() && stores(#[trigger] all[i], 16) implies all[
        i
    ]->Store_data == mem::repeated(0, 16) by {
        if i >= log.len() {
            assert(acts[i - log.len()] == all[i]);
        }
    }
    if acts.len() == 0 {
        assert(all =~= log);
    } else {
        assert(all.last() == acts.last());
        if log.len() == 0 {
            assert(all =~= acts);
        } else {
            assert(all[0] == log[0]);
        }
    }
}

proof fn lemma_calm_log(acts: Seq<Act>)
    requires
        forall|i: int| 0 <= i < acts.len() ==> calm(#[trigger] acts[i]),
    ensures
        neat(acts),
        begins(acts),
{
    reveal(neat);
    reveal(begins);
    lemma_lens();
    if acts.len() > 0 {
        assert(acts.last() == acts[acts.len() - 1]);
    }
}

proof fn lemma_calmly(a: Seq<Act>, b: Seq<Act>)
    requires
        neat(a),
        calmly(a, b),
    ensures
        neat(b),
{
    let acts = b.skip(a.len() as int);
    lemma_calm_log(acts);
    lemma_append(a, acts);
    assert(b =~= a + acts);
}

proof fn lemma_tell(t: Talk, a: Act)
    requires
        neat(t.log),
        calm(a),
    ensures
        neat(t.tell(a).log),
{
    assert(t.tell(a).log.take(t.log.len() as int) =~= t.log);
    lemma_calmly(t.log, t.tell(a).log);
}

// ---- stores --------------------------------------------------------------------------

proof fn lemma_same_number(a: nat, b: nat, n: nat)
    requires
        a < le::range_of(n),
        b < le::range_of(n),
        le::le_bytes(a, n) == le::le_bytes(b, n),
    ensures
        a == b,
{
    le::le_reads_back(a, n);
    le::le_reads_back(b, n);
}

proof fn lemma_header(off: int, req_type: u32, sector: u64)
    requires
        0 <= off <= REGION_SIZE - 16,
        off % 0x1000 == 0,
        req_type == VIRTIO_BLK_T_OUT ==> sector >= WORK,
    ensures
        neat(model::header_stores(off, req_type, sector)),
        begins(model::header_stores(off, req_type, sector)),
{
    reveal(neat);
    reveal(begins);
    lemma_lens();
    le::lemma_ranges();
    let acts = model::header_stores(off, req_type, sector);
    assert forall|i: int, o: int, x: u64| #[trigger]
        header_in(acts, i, o, VIRTIO_BLK_T_OUT, x) implies x >= WORK by {
        assert(acts[0] == mem::store_le(off, req_type as nat, 4));
        assert(acts[2] == mem::store_le(off + 8, sector as nat, 8));
        lemma_same_number(req_type as nat, VIRTIO_BLK_T_OUT as nat, 4);
        lemma_same_number(sector as nat, x as nat, 8);
    }
    assert forall|i: int, o: int, x: u64, n: u32, flags: u32| #[trigger]
        run_in(acts, i, o, x, n, flags) implies n == 0 || x >= WORK by {
        assert(acts[0] == mem::store_le(off, req_type as nat, 4));
    }
}

/// A run, and the preset status after it.
proof fn lemma_run(off: int, sector: u64, n: u32, unmap: bool, st: int)
    requires
        n == 0 || sector >= WORK,
    ensures
        neat(model::segment_stores(off, sector, n, unmap).push(model::poison(st))),
        begins(model::segment_stores(off, sector, n, unmap).push(model::poison(st))),
{
    reveal(neat);
    reveal(begins);
    lemma_lens();
    le::lemma_ranges();
    let acts = model::segment_stores(off, sector, n, unmap).push(model::poison(st));
    assert(acts[0] == mem::store_le(off, sector as nat, 8));
    assert(acts[1] == mem::store_le(off + 8, n as nat, 4));
    assert(stores(acts[2], 4));
    assert(stores(acts[3], 1));
    assert forall|i: int, o: int, x: u64| #[trigger]
        header_in(acts, i, o, VIRTIO_BLK_T_OUT, x) implies x >= WORK by {
        assert(i == 0 || i == 1);
    }
    assert forall|i: int, o: int, x: u64, m: u32, flags: u32| #[trigger]
        run_in(acts, i, o, x, m, flags) implies m == 0 || x >= WORK by {
        assert(i == 0 || i == 1);
        if i == 0 {
            lemma_same_number(sector as nat, x as nat, 8);
            lemma_same_number(n as nat, m as nat, 4);
        }
    }
}

proof fn lemma_entry(e: int, addr: nat, len: u32, flags: u16, next: nat)
    ensures
        neat(model::entry(e, addr, len, flags, next)),
        begins(model::entry(e, addr, len, flags, next)),
{
    reveal(neat);
    reveal(begins);
    lemma_lens();
    let acts = model::entry(e, addr, len, flags, next);
    assert(stores(acts[0], 8));
    assert(stores(acts[1], 4));
    assert(stores(acts[2], 2));
    assert(stores(acts[3], 2));
    assert forall|i: int, o: int, x: u64| #[trigger]
        header_in(acts, i, o, VIRTIO_BLK_T_OUT, x) implies x >= WORK by {
        assert(i == 0 || i == 1);
    }
    assert forall|i: int, o: int, x: u64, n: u32, f: u32| #[trigger]
        run_in(acts, i, o, x, n, f) implies n == 0 || x >= WORK by {
        assert(i == 0 || i == 1);
    }
}

proof fn lemma_publish(idx: u16, head: nat)
    ensures
        neat(model::publish(idx, head)),
        begins(model::publish(idx, head)),
{
    lemma_lens();
    lemma_calm_log(model::publish(idx, head));
}

proof fn lemma_chain(first: int, descs: Seq<Desc>, k: nat)
    ensures
        neat(model::chain_stores(first, descs, k)),
        begins(model::chain_stores(first, descs, k)),
    decreases k,
{
    if k == 0 {
        lemma_calm_log(model::chain_stores(first, descs, k));
    } else {
        let i = k - 1;
        lemma_chain(first, descs, i as nat);
        let one = model::entry(
            DESC_OFF + (first + i) % (QSZ as int) * 16,
            GPA_BASE as nat + descs[i].off as nat,
            descs[i].len,
            model::flags_in(descs, i),
            ((first + i + 1) % (QSZ as int)) as nat,
        );
        lemma_entry(
            DESC_OFF + (first + i) % (QSZ as int) * 16,
            GPA_BASE as nat + descs[i].off as nat,
            descs[i].len,
            model::flags_in(descs, i),
            ((first + i + 1) % (QSZ as int)) as nat,
        );
        lemma_append(model::chain_stores(first, descs, i as nat), one);
    }
}

proof fn lemma_table(table: int, descs: Seq<Desc>, k: nat)
    ensures
        neat(model::table_stores(table, descs, k)),
        begins(model::table_stores(table, descs, k)),
    decreases k,
{
    if k == 0 {
        lemma_calm_log(model::table_stores(table, descs, k));
    } else {
        let i = k - 1;
        lemma_table(table, descs, i as nat);
        let one = model::entry(
            table + i * 16,
            GPA_BASE as nat + descs[i].off as nat,
            descs[i].len,
            model::flags_in(descs, i),
            ((i + 1) % 0x1_0000) as nat,
        );
        lemma_entry(
            table + i * 16,
            GPA_BASE as nat + descs[i].off as nat,
            descs[i].len,
            model::flags_in(descs, i),
            ((i + 1) % 0x1_0000) as nat,
        );
        lemma_append(model::table_stores(table, descs, i as nat), one);
    }
}

proof fn lemma_post(s: Session, descs: Seq<Desc>)
    ensures
        neat(model::post_stores(s, descs)),
        begins(model::post_stores(s, descs)),
{
    lemma_chain(s.next_desc as int, descs, descs.len());
    lemma_publish(s.avail_idx, (s.next_desc % QSZ) as nat);
    lemma_append(
        model::chain_stores(s.next_desc as int, descs, descs.len()),
        model::publish(s.avail_idx, (s.next_desc % QSZ) as nat),
    );
}

proof fn lemma_post_indirect(s: Session, descs: Seq<Desc>, table: int)
    ensures
        neat(model::indirect_stores(s, descs, table)),
        begins(model::indirect_stores(s, descs, table)),
{
    let one = model::entry(
        DESC_OFF + s.next_desc % QSZ * 16,
        GPA_BASE as nat + table as nat,
        (descs.len() * 16 % 0x1_0000_0000) as u32,
        VRING_DESC_F_INDIRECT,
        0,
    );
    let two = model::publish(s.avail_idx, (s.next_desc % QSZ) as nat);
    lemma_table(table, descs, descs.len());
    lemma_entry(
        DESC_OFF + s.next_desc % QSZ * 16,
        GPA_BASE as nat + table as nat,
        (descs.len() * 16 % 0x1_0000_0000) as u32,
        VRING_DESC_F_INDIRECT,
        0,
    );
    lemma_publish(s.avail_idx, (s.next_desc % QSZ) as nat);
    lemma_append(model::table_stores(table, descs, descs.len()), one);
    lemma_append(model::table_stores(table, descs, descs.len()) + one, two);
}

// ---- sessions and requests -----------------------------------------------------------

/// A question is no store.
proof fn lemma_ask(t: Talk, a: Act)
    requires
        neat(t.log),
        !(a is Store),
    ensures
        neat(t.ask(a).0.log),
{
    lemma_tell(t, a);
}

proof fn lemma_negotiate(t: Talk, path: Seq<char>, ev: bool, mask: u64)
    requires
        neat(t.log),
    ensures
        neat(model::negotiate(t, path, ev, mask).0.log),
{
    let act = ActionOf::Connect { path };
    lemma_ask(t, act);
    let t1 = t.call(act, "connect"@).0;
    lemma_ask(t1, ActionOf::SetOwner);
    let t2 = t1.call(ActionOf::SetOwner, "set_owner"@).0;
    lemma_ask(t2, ActionOf::GetFeatures);
    let (t3, g) = t2.query(ActionOf::GetFeatures, "get_features"@);
    if let Got::Value(offered) = g {
        let act = ActionOf::SetFeatures { bits: model::acked_of(offered, ev, mask) };
        lemma_ask(t3, act);
        let t4 = t3.call(act, "set_features"@).0;
        lemma_ask(t4, ActionOf::GetProtocolFeatures);
        let (t5, g) = t4.query(ActionOf::GetProtocolFeatures, "get_protocol_features"@);
        if let Got::Value(have) = g {
            lemma_ask(t5, ActionOf::SetProtocolFeatures { bits: have & PROTOCOL_CONFIG });
        }
    }
}

proof fn lemma_handshake(t: Talk, path: Seq<char>, table: bool, ev: bool, mask: u64)
    requires
        neat(t.log),
    ensures
        neat(model::handshake(t, path, table, ev, mask).0.log),
{
    lemma_negotiate(t, path, ev, mask);
    let (t1, g) = model::negotiate(t, path, ev, mask);
    if let Got::Value(terms) = g {
        lemma_ask(t1, ActionOf::GetConfig { offset: 0, size: 60 });
        let t2 = model::geometry(t1, terms.proto).0;
        lemma_ask(t2, ActionOf::MapMemory { total: REGION_SIZE });
        let t3 = t2.map(REGION_SIZE).0;
        lemma_ask(t3, ActionOf::OpenKick);
        let t4 = t3.call(ActionOf::OpenKick, "eventfd kick"@).0;
        lemma_ask(t4, ActionOf::OpenCall);
        let (t5, g) = model::resources(t2);
        if let Got::Value(memory) = g {
            let region = Some(model::region_of(memory));
            lemma_ask(t5, ActionOf::SetMemTable { region });
        }
    }
}

proof fn lemma_enable(l: Line)
    requires
        neat(l.io.log),
    ensures
        neat(model::enable_ring(l).0.io.log),
{
    lemma_ask(l.io, ActionOf::SetVringKick);
    let t1 = l.io.call(ActionOf::SetVringKick, "set_vring_kick"@).0;
    lemma_ask(t1, ActionOf::SetVringCall);
    let t2 = t1.call(ActionOf::SetVringCall, "set_vring_call"@).0;
    lemma_ask(t2, ActionOf::SetVringEnable { on: true });
}

proof fn lemma_announce(l: Line, base: u16)
    requires
        neat(l.io.log),
    ensures
        neat(model::announce_ring(l, base).0.io.log),
{
    let zeroes = mem::repeated(0, (DATA_OFF - DESC_OFF) as nat);
    lemma_tell(l.io, mem::store(DESC_OFF as int, zeroes));
    let t1 = l.io.tell(mem::store(DESC_OFF as int, zeroes));
    let num = ActionOf::SetVringNum { num: QSZ };
    lemma_ask(t1, num);
    let t2 = t1.call(num, "set_vring_num"@).0;
    let config = model::ring_config(l.s.mem.base, DESC_OFF as int);
    lemma_ask(t2, ActionOf::SetVringAddr { config });
    let t3 = t2.call(ActionOf::SetVringAddr { config }, "set_vring_addr"@).0;
    lemma_ask(t3, ActionOf::SetVringBase { base });
}

proof fn lemma_setup(l: Line, base: u16)
    requires
        neat(l.io.log),
    ensures
        neat(model::setup_vring(l, base).0.io.log),
{
    lemma_lens();
    lemma_announce(l, base);
    let (l1, g) = model::announce_ring(l, base);
    let one = mem::store_le(AVAIL_OFF + 2, base as nat, 2);
    let two = mem::store_le(USED_OFF + 2, base as nat, 2);
    lemma_tell(l1.io, one);
    lemma_tell(l1.io.tell(one), two);
    lemma_enable(model::seeded(l1, base));
}

proof fn lemma_connect(t: Talk, path: Seq<char>, mask: u64, base: u16)
    requires
        neat(t.log),
    ensures
        neat(model::connect(t, path, false, mask, base).0.log),
{
    lemma_handshake(t, path, true, false, mask);
    let (t1, g) = model::handshake(t, path, true, false, mask);
    if let Got::Value(s) = g {
        lemma_setup(Line { s, io: t1 }, base);
    }
}

proof fn lemma_wait(l: Line, timeout_ms: u64)
    requires
        neat(l.io.log),
    ensures
        neat(model::wait_used(l, timeout_ms).0.io.log),
{
    let seen = l.s.used_idx_seen;
    lemma_ask(
        l.io,
        ActionOf::WaitUsed {
            seen,
            index_off: (USED_OFF + 2) as usize,
            elem_off: model::used_elem_off(seen) as usize,
            timeout_ms,
        },
    );
}

proof fn lemma_load(t: Talk, off: usize, len: usize)
    requires
        neat(t.log),
    ensures
        neat(t.load(off, len).0.log),
{
    lemma_ask(t, ActionOf::Load { off, len });
}

proof fn lemma_submit(l: Line, descs: Seq<Desc>, timeout_ms: u64)
    requires
        neat(l.io.log),
    ensures
        neat(model::submit(l, descs, timeout_ms).0.io.log),
{
    let p = model::post(l, descs);
    lemma_post(l.s, descs);
    lemma_append(l.io.log, model::post_stores(l.s, descs));
    lemma_tell(p.io, ActionOf::Kick);
    lemma_wait(Line { s: p.s, io: p.io.tell(ActionOf::Kick) }, timeout_ms);
}

proof fn lemma_submit_for_status(l: Line, descs: Seq<Desc>, st: int)
    requires
        neat(l.io.log),
    ensures
        neat(model::submit_for_status(l, descs, st).0.io.log),
{
    lemma_submit(l, descs, TIMEOUT_MS);
    let l2 = model::submit(l, descs, TIMEOUT_MS).0;
    lemma_load(l2.io, st as usize, 1);
}

proof fn lemma_submit_for_data(l: Line, descs: Seq<Desc>, dbuf: int, len: int, st: int)
    requires
        neat(l.io.log),
    ensures
        neat(model::submit_for_data(l, descs, dbuf, len, st).0.io.log),
{
    lemma_submit(l, descs, TIMEOUT_MS);
    let l2 = model::submit(l, descs, TIMEOUT_MS).0;
    lemma_load(l2.io, dbuf as usize, len as usize);
    lemma_load(l2.io.load(dbuf as usize, len as usize).0, st as usize, 1);
}

proof fn lemma_write(l: Line, sector: u64, data: Seq<u8>)
    requires
        neat(l.io.log),
        model::room_for_three(l.s, data.len() as int),
        sector >= WORK,
        data.len() > 16,
    ensures
        neat(model::blk_write(l, sector, data).0.io.log),
{
    let len = data.len() as int;
    let (hdr, dbuf, st, s) = model::three(l.s, len);
    let head = model::header_stores(hdr, VIRTIO_BLK_T_OUT, sector);
    lemma_header(hdr, VIRTIO_BLK_T_OUT, sector);
    lemma_append(l.io.log, head);
    let t1 = l.io.tell_all(head);
    lemma_tell(t1, mem::store(dbuf, data));
    let t2 = t1.tell(mem::store(dbuf, data));
    lemma_tell(t2, model::poison(st));
    lemma_submit_for_status(
        Line { s, io: t2.tell(model::poison(st)) },
        seq![model::readable(hdr, 16), model::readable(dbuf, len), model::writable(st, 1)],
        st,
    );
}

proof fn lemma_fetch(l: Line, req_type: u32, sector: u64, len: int)
    requires
        neat(l.io.log),
        model::room_for_three(l.s, len),
        req_type != VIRTIO_BLK_T_OUT,
        len > 16,
    ensures
        neat(model::blk_fetch(l, req_type, sector, len).0.io.log),
{
    let (hdr, dbuf, st, s) = model::three(l.s, len);
    let head = model::header_stores(hdr, req_type, sector);
    let zeroes = mem::store(dbuf, mem::repeated(0, len as nat));
    lemma_header(hdr, req_type, sector);
    lemma_append(l.io.log, head);
    let t1 = l.io.tell_all(head);
    lemma_tell(t1, zeroes);
    let t2 = t1.tell(zeroes);
    lemma_tell(t2, model::poison(st));
    lemma_submit_for_data(
        Line { s, io: t2.tell(model::poison(st)) },
        seq![model::readable(hdr, 16), model::writable(dbuf, len), model::writable(st, 1)],
        dbuf,
        len,
        st,
    );
}

proof fn lemma_flush(l: Line)
    requires
        neat(l.io.log),
        model::room_for_two(l.s),
    ensures
        neat(model::blk_flush(l).0.io.log),
{
    let s1 = model::allocated(l.s, 16);
    let (hdr, st) = (model::next_buffer(l.s), model::next_buffer(s1));
    let head = model::header_stores(hdr, VIRTIO_BLK_T_FLUSH, 0);
    lemma_header(hdr, VIRTIO_BLK_T_FLUSH, 0);
    lemma_append(l.io.log, head);
    let t1 = l.io.tell_all(head);
    lemma_tell(t1, model::poison(st));
    lemma_submit_for_status(
        Line { s: model::allocated(s1, 1), io: t1.tell(model::poison(st)) },
        seq![model::readable(hdr, 16), model::writable(st, 1)],
        st,
    );
}

proof fn lemma_range(l: Line, req_type: u32, sector: u64, n: u32, unmap: bool)
    requires
        neat(l.io.log),
        model::room_for_three(l.s, 16),
        req_type != VIRTIO_BLK_T_OUT,
        sector >= WORK,
    ensures
        neat(model::blk_zeroes_or_discard(l, req_type, sector, n, unmap).0.io.log),
{
    let (hdr, payload, st, s) = model::three(l.s, 16);
    let head = model::header_stores(hdr, req_type, 0);
    let segment = model::segment_stores(payload, sector, n, unmap);
    lemma_header(hdr, req_type, 0);
    lemma_append(l.io.log, head);
    let t1 = l.io.tell_all(head);
    lemma_run(payload, sector, n, unmap, st);
    lemma_append(t1.log, segment.push(model::poison(st)));
    let t3 = t1.tell_all(segment).tell(model::poison(st));
    assert(t3.log =~= t1.log + segment.push(model::poison(st)));
    lemma_submit_for_status(
        Line { s, io: t3 },
        seq![model::readable(hdr, 16), model::readable(payload, 16), model::writable(st, 1)],
        st,
    );
}

// ---- steps ---------------------------------------------------------------------------

/// The buffers of the session start pages.
#[verifier::opaque]
spec fn paged(b: Bench) -> bool {
    forall|i: int| 0 <= i < b.bufs.len() ==> #[trigger] b.bufs[i] % 0x1000 == 0
}

/// What the step changes, if anything, lies in the work area or after it.
spec fn reaches_work_area(b: Bench, s: Step) -> bool {
    audit::changed(s) matches Some(at) ==> b.sector(at) >= WORK
}

proof fn lemma_requesting(b: Bench, s: Step)
    requires
        b.stage is Live,
        neat(b.io.log),
        audit::told_apart(s),
        reaches_work_area(b, s),
        bounds::requests(s),
    ensures
        neat(bench::taken(b, s).io.log),
{
    match s {
        Step::Write { at, data } => {
            if model::room_for_three(b.s, data.len() as int) {
                lemma_write(b.line(), b.sector(at), data);
            }
        },
        Step::Read { at, len } => {
            if model::room_for_three(b.s, len as int) {
                lemma_fetch(b.line(), VIRTIO_BLK_T_IN, b.sector(at), len as int);
            }
        },
        Step::ReadIn { at, len, .. } => {
            if model::room_for_three(b.s, len as int) {
                lemma_fetch(b.line(), VIRTIO_BLK_T_IN, b.sector(at), len as int);
            }
        },
        Step::Flush => {
            if model::room_for_two(b.s) {
                lemma_flush(b.line());
            }
        },
        Step::GetId => {
            if model::room_for_three(b.s, 20) {
                lemma_fetch(b.line(), VIRTIO_BLK_T_GET_ID, 0, 20);
            }
        },
        Step::Range { req_type, at, num_sectors, unmap } => {
            if model::room_for_three(b.s, 16) {
                lemma_range(b.line(), req_type, b.sector(at), num_sectors, unmap);
            }
        },
        _ => {},
    }
}

/// The step stores something, but makes no request.
spec fn is_storing(s: Step) -> bool {
    s is Header || s is Put || s is Zero || s is RawDesc || s is TableEntry || s is PushAvail
        || s is Post || s is PostIndirect || s is Submit || s is AvailFlags
}

proof fn lemma_storing(b: Bench, s: Step)
    requires
        b.stage is Live,
        neat(b.io.log),
        paged(b),
        audit::told_apart(s),
        reaches_work_area(b, s),
        is_storing(s),
    ensures
        neat(bench::taken(b, s).io.log),
{
    lemma_lens();
    match s {
        Step::Header { buf, req_type, at } => {
            if b.inside(buf as int, 0, 16) {
                reveal(paged);
                let off = b.buf(buf as int);
                lemma_header(off, req_type, b.sector(at));
                lemma_append(b.io.log, model::header_stores(off, req_type, b.sector(at)));
            }
        },
        Step::Put { buf, at, data } => {
            if b.inside(buf as int, at as int, data.len() as int) {
                lemma_putting(b, buf, at, data);
            }
        },
        Step::Zero { buf, len } => {
            if b.inside(buf as int, 0, len as int) {
                lemma_tell(
                    b.io,
                    mem::store(b.buf(buf as int), mem::repeated(0, len as nat)),
                );
            }
        },
        Step::RawDesc { idx, addr, len, flags, next } => {
            let e = DESC_OFF + idx % QSZ * 16;
            lemma_entry(e, b.place(addr) as nat, len, flags, next as nat);
            lemma_append(
                b.io.log,
                model::entry(e, b.place(addr) as nat, len, flags, next as nat),
            );
        },
        Step::TableEntry { buf, addr, len, flags, next } => {
            let e = b.buf(buf as int);
            lemma_entry(e, b.place(addr) as nat, len, flags, next as nat);
            lemma_append(
                b.io.log,
                model::entry(e, b.place(addr) as nat, len, flags, next as nat),
            );
        },
        Step::PushAvail { head } => {
            lemma_publish(b.s.avail_idx, head as nat);
            lemma_append(b.io.log, model::publish(b.s.avail_idx, head as nat));
        },
        Step::Post { chain } => {
            lemma_post(b.s, b.descs(chain));
            lemma_append(b.io.log, model::post_stores(b.s, b.descs(chain)));
        },
        Step::PostIndirect { chain, table } => {
            let off = b.buf(table as int);
            lemma_post_indirect(b.s, b.descs(chain), off);
            lemma_append(b.io.log, model::indirect_stores(b.s, b.descs(chain), off));
        },
        Step::Submit { chain } => {
            lemma_submit(b.line(), b.descs(chain), TIMEOUT_MS);
        },
        Step::AvailFlags { flags } => {
            lemma_tell(b.io, mem::store_le(AVAIL_OFF as int, flags as nat, 2));
        },
        _ => {},
    }
}

proof fn lemma_putting(b: Bench, buf: usize, at: usize, data: Seq<u8>)
    requires
        neat(b.io.log),
        paged(b),
        b.inside(buf as int, at as int, data.len() as int),
        data.len() == 1 || data.len() > 16 || (at == 0 && data == mem::repeated(
            STATUS_POISON,
            4,
        )),
    ensures
        neat(b.io.tell(mem::store(b.buf(buf as int) + at, data)).log),
{
    reveal(paged);
    let a = mem::store(b.buf(buf as int) + at, data);
    if data.len() == 4 {
        let one = seq![a];
        reveal(neat);
        reveal(begins);
        assert(one.last() == a);
        lemma_append(b.io.log, one);
        assert(b.io.tell(a).log =~= b.io.log + one);
    } else {
        lemma_tell(b.io, a);
    }
}

/// The step opens a session or waits for the device.
spec fn is_waiting(s: Step) -> bool {
    s is Connect || s is Handshake || s is TrySetup || s is Await || s is Complete
        || s is IgnoreUsed || s is Silence || s is Written || s is Fetched || s is Status
        || s is Load
}

/// Steps that send a message, tell the outside something, or look at what they have.
proof fn lemma_saying(b: Bench, s: Step)
    requires
        b.stage is Live,
        neat(b.io.log),
        turns_ok(s),
        !is_storing(s),
        !is_waiting(s),
        !bounds::requests(s),
    ensures
        neat(bench::taken(b, s).io.log),
{
    match s {
        Step::Close => {
            lemma_tell(b.io, ActionOf::Close);
        },
        Step::Cooldown => {
            lemma_tell(b.io, ActionOf::Sleep { ms: b.io.delay_ms });
        },
        Step::Kick => {
            lemma_tell(b.io, ActionOf::Kick);
        },
        Step::DrainCall => {
            lemma_tell(b.io, ActionOf::DrainCall);
        },
        Step::Signal { timeout_ms, .. } => {
            lemma_ask(b.io, ActionOf::WaitCall { timeout_ms });
        },
        Step::Call { act, .. } => {
            lemma_ask(b.io, act);
        },
        Step::Try { act } => {
            lemma_ask(b.io, act);
        },
        Step::TryRingAt { desc_off } => {
            let config = model::ring_config(b.s.mem.base, desc_off as int);
            lemma_ask(b.io, ActionOf::SetVringAddr { config });
        },
        Step::Base => {
            lemma_ask(b.io, ActionOf::GetVringBase);
        },
        Step::Features { .. } => {
            lemma_ask(b.io, ActionOf::GetFeatures);
        },
        Step::Config { size, .. } => {
            lemma_ask(b.io, ActionOf::GetConfig { offset: 0, size });
        },
        _ => {},
    }
}

/// Steps that open a session or wait for the device.
proof fn lemma_waiting(b: Bench, s: Step)
    requires
        b.stage is Live,
        neat(b.io.log),
        is_waiting(s),
    ensures
        neat(bench::taken(b, s).io.log),
{
    match s {
        Step::Connect { path, mask_out, base } => {
            lemma_connect(b.io, path, mask_out, base);
        },
        Step::Handshake { path, do_mem_table } => {
            lemma_handshake(b.io, path, do_mem_table, false, 0);
        },
        Step::TrySetup => {
            lemma_setup(b.line(), 0);
        },
        Step::Await { .. } => {
            lemma_wait(b.line(), TIMEOUT_MS);
        },
        Step::Complete { .. } => {
            lemma_wait(b.line(), TIMEOUT_MS);
        },
        Step::IgnoreUsed { timeout_ms } => {
            lemma_wait(b.line(), timeout_ms);
        },
        Step::Silence { timeout_ms, .. } => {
            lemma_wait(b.line(), timeout_ms);
        },
        Step::Written { .. } => {
            lemma_load(b.io, b.buf(b.number as int * 3 + 2) as usize, 1);
        },
        Step::Fetched { .. } => {
            lemma_load(b.io, b.buf(b.number as int * 3 + 1) as usize, SECTOR);
        },
        Step::Status { buf } => {
            lemma_load(b.io, b.buf(buf as int) as usize, 1);
        },
        Step::Load { buf, len } => {
            lemma_load(b.io, b.buf(buf as int) as usize, len);
        },
        _ => {},
    }
}

/// A message that the step sends is no store.
spec fn turns_ok(s: Step) -> bool {
    match s {
        Step::Call { act, .. } => !(act is Store),
        Step::Try { act } => !(act is Store),
        _ => true,
    }
}

proof fn lemma_bufs_of_request(b: Bench, s: Step)
    requires
        b.stage is Live,
        bounds::requests(s),
    ensures
        bench::taken(b, s).bufs == b.bufs,
{
}

proof fn lemma_bufs_of_session(b: Bench, s: Step)
    requires
        b.stage is Live,
        audit::opens(s),
    ensures
        bench::taken(b, s).bufs == b.bufs || bench::taken(b, s).bufs.len() == 0,
{
}

/// Only a new session and a new buffer change the list of buffers.
proof fn lemma_bufs(b: Bench, s: Step)
    requires
        b.stage is Live,
        !(s is Alloc),
    ensures
        bench::taken(b, s).bufs == b.bufs || bench::taken(b, s).bufs.len() == 0,
{
    if bounds::requests(s) {
        lemma_bufs_of_request(b, s);
    } else if audit::opens(s) {
        lemma_bufs_of_session(b, s);
    } else if is_waiting(s) {
        assert(bench::taken(b, s).bufs == b.bufs);
    } else {
        assert(bench::taken(b, s).bufs == b.bufs);
    }
}

proof fn lemma_same_bufs(b: Bench, c: Bench)
    requires
        paged(b),
        c.bufs == b.bufs || c.bufs.len() == 0,
    ensures
        paged(c),
{
    reveal(paged);
}

proof fn lemma_new_buffer(b: Bench, len: usize)
    requires
        b.stage is Live,
        paged(b),
    ensures
        paged(bench::taken(b, Step::Alloc { len })),
{
    reveal(paged);
}

proof fn lemma_paged(b: Bench, s: Step)
    requires
        b.stage is Live,
        paged(b),
    ensures
        paged(bench::taken(b, s)),
{
    if let Step::Alloc { len } = s {
        lemma_new_buffer(b, len);
    } else {
        lemma_bufs(b, s);
        lemma_same_bufs(b, bench::taken(b, s));
    }
}

proof fn lemma_taken(b: Bench, s: Step)
    requires
        b.stage is Live,
        neat(b.io.log),
        paged(b),
        audit::told_apart(s),
        turns_ok(s),
        reaches_work_area(b, s),
    ensures
        neat(bench::taken(b, s).io.log),
{
    if bounds::requests(s) {
        lemma_requesting(b, s);
    } else if is_storing(s) {
        lemma_storing(b, s);
    } else if is_waiting(s) {
        lemma_waiting(b, s);
    } else {
        lemma_saying(b, s);
    }
}

proof fn lemma_step(b: Bench, s: Step)
    requires
        b.stage is Live,
        neat(b.io.log),
        paged(b),
        audit::told_apart(s),
        turns_ok(s),
        reaches_work_area(b, s),
    ensures
        neat(bench::step(b, s).io.log),
        paged(bench::step(b, s)),
{
    lemma_taken(b, s);
    lemma_paged(b, s);
    reveal(bench::step);
}

// ---- scenarios -----------------------------------------------------------------------

/// A step of a scenario that changes something does so in the work area or after it.
proof fn lemma_reaches(start: Bench, steps: Seq<Step>, i: int)
    requires
        0 <= i < steps.len(),
        audit::considerate(steps),
        bench::run_to(start, steps, i as nat).stage is Live,
    ensures
        reaches_work_area(bench::run_to(start, steps, i as nat), steps[i]),
{
    let b = bench::run_to(start, steps, i as nat);
    assert(audit::spares(steps[i]) || audit::backed(steps, i));
    reveal(audit::backed);
    if !audit::spares(steps[i]) {
        let before = bench::run_to(start, steps, (i - 1) as nat);
        verdicts::lemma_live_before(start, steps, (i - 1) as nat, i as nat);
        assert(b == bench::step(before, steps[i - 1]));
        if steps[i - 1] is Need {
            verdicts::what_is_missing_skips(before, steps[i - 1]);
        } else {
            verdicts::checks_stop_exactly_on_faults(before, steps[i - 1]);
        }
    }
}

proof fn lemma_run_to(start: Bench, steps: Seq<Step>, k: nat)
    requires
        k <= steps.len(),
        audit::considerate(steps),
        neat(start.io.log),
        paged(start),
    ensures
        neat(bench::run_to(start, steps, k).io.log),
        paged(bench::run_to(start, steps, k)),
    decreases k,
{
    if k > 0 {
        lemma_run_to(start, steps, (k - 1) as nat);
        let b = bench::run_to(start, steps, (k - 1) as nat);
        let s = steps[k - 1];
        assert(turns::proper(s) && audit::told_apart(s));
        if b.stage is Live {
            lemma_reaches(start, steps, k - 1);
            lemma_step(b, s);
        } else {
            assert(bench::step(b, s) == b) by {
                reveal(bench::step);
            }
        }
    }
}

/// Whatever the device answers, no scenario writes, zeroes or discards a sector before the
/// work area: no write request in its log names one, and no run of sectors does.
pub proof fn sectors_before_the_work_area_are_spared(
    case: Case,
    sock: Seq<char>,
    delay_ms: u64,
    replies: Seq<Rep>,
)
    ensures
        spares_all(
            bench::run(
                bench::set_out(replay::opening(delay_ms, replies)),
                registry::script(case, sock),
            ).io.log,
        ),
{
    let start = bench::set_out(replay::opening(delay_ms, replies));
    let steps = registry::script(case, sock);
    audit::lemma_every_script(case, sock);
    lemma_calm_log(start.io.log);
    reveal(paged);
    lemma_run_to(start, steps, steps.len());
    reveal(neat);
}

} // verus!
