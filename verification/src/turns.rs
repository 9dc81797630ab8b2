//! Questions and answers take turns.
//!
//! The outside answers some actions and not others. Every answer that a run has taken
//! belongs to one of its questions, in order, and a run that waits has asked one question
//! more than it has answers. So a driver knows which actions to answer, and that the
//! answer to add is that of the last one.

use vstd::prelude::*;

use crate::bench;
use crate::bench::{Bench, Sector, Seg, Step};
use crate::dev::{
    Desc,
    Session,
    AVAIL_OFF,
    DATA_OFF,
    DESC_OFF,
    QSZ,
    REGION_SIZE,
    TIMEOUT_MS,
    USED_OFF,
};
use crate::features::PROTOCOL_CONFIG;
use crate::link::{Act, Action, ActionOf, Got, Rep, Talk};
use crate::mem;
use crate::model;
use crate::model::Line;
use crate::replay;

verus! {

/// The action is a question: the outside answers it.
pub open spec fn asks<S, B>(a: ActionOf<S, B>) -> bool {
    match a {
        ActionOf::Store { .. } => false,
        ActionOf::Kick => false,
        ActionOf::DrainCall => false,
        ActionOf::Close => false,
        ActionOf::Sleep { .. } => false,
        _ => true,
    }
}

/// Tells whether the outside owes the action an answer.
pub fn needs_answer(a: &Action) -> (yes: bool)
    ensures
        yes == asks(*a),
        yes == asks(a@),
{
    match a {
        ActionOf::Store { .. } => false,
        ActionOf::Kick => false,
        ActionOf::DrainCall => false,
        ActionOf::Close => false,
        ActionOf::Sleep { .. } => false,
        _ => true,
    }
}

/// The number of questions among the actions.
pub open spec fn asked(log: Seq<Act>) -> nat
    decreases log.len(),
{
    if log.len() == 0 {
        0
    } else if asks(log.last()) {
        asked(log.drop_last()) + 1
    } else {
        asked(log.drop_last())
    }
}

/// Every question has been answered.
pub open spec fn settled(t: Talk) -> bool {
    t.next == asked(t.log)
}

/// The last action is a question, and the only one without an answer; or the last answer
/// was none that the question can have.
pub open spec fn pending(t: Talk) -> bool {
    ||| t.next == asked(t.log)
    ||| t.next + 1 == asked(t.log) && t.log.len() > 0 && asks(t.log.last()) && t.next
        == t.replies.len()
}

/// Where an operation may leave a conversation.
pub open spec fn orderly<T>(r: (Talk, Got<T>)) -> bool {
    if r.1 is Waiting {
        pending(r.0)
    } else {
        settled(r.0)
    }
}

/// The same for the operations of a session.
pub open spec fn orderly_on<T>(r: (Line, Got<T>)) -> bool {
    if r.1 is Waiting {
        pending(r.0.io)
    } else {
        settled(r.0.io)
    }
}

/// The same for a scenario.
pub open spec fn orderly_at(b: Bench) -> bool {
    if b.stage is Waiting {
        pending(b.io)
    } else {
        settled(b.io)
    }
}

/// The answers taken are answers that were given.
pub open spec fn in_range(t: Talk) -> bool {
    0 <= t.next <= t.replies.len()
}

proof fn lemma_asked_push(log: Seq<Act>, a: Act)
    ensures
        asked(log.push(a)) == asked(log) + if asks(a) {
            1nat
        } else {
            0
        },
{
    assert(log.push(a).drop_last() =~= log);
}

/// None of the actions is a question.
#[verifier::opaque]
pub open spec fn telling(acts: Seq<Act>) -> bool {
    forall|i: int| 0 <= i < acts.len() ==> !asks(#[trigger] acts[i])
}

proof fn lemma_asked_concat(log: Seq<Act>, acts: Seq<Act>)
    requires
        telling(acts),
    ensures
        asked(log + acts) == asked(log),
    decreases acts.len(),
{
    reveal(telling);
    if acts.len() == 0 {
        assert(log + acts =~= log);
    } else {
        let less = acts.drop_last();
        assert forall|i: int| 0 <= i < less.len() implies !asks(#[trigger] less[i]) by {
            assert(!asks(acts[i]));
        }
        lemma_asked_concat(log, less);
        assert((log + acts).drop_last() =~= log + less);
        assert(!asks(acts[acts.len() - 1]));
    }
}

proof fn lemma_tell(t: Talk, a: Act)
    ensures
        settled(t) && !asks(a) ==> settled(t.tell(a)),
        in_range(t) ==> in_range(t.tell(a)),
{
    lemma_asked_push(t.log, a);
}

proof fn lemma_tell_all(t: Talk, acts: Seq<Act>)
    requires
        telling(acts),
    ensures
        settled(t) ==> settled(t.tell_all(acts)),
        in_range(t) ==> in_range(t.tell_all(acts)),
{
    lemma_asked_concat(t.log, acts);
}

proof fn lemma_ask(t: Talk, a: Act)
    requires
        asks(a),
    ensures
        settled(t) && in_range(t) ==> in_range(t.ask(a).0) && if t.ask(a).1 is Some {
            settled(t.ask(a).0)
        } else {
            pending(t.ask(a).0)
        },
{
    lemma_asked_push(t.log, a);
}

proof fn lemma_call(t: Talk, act: Act, label: Seq<char>)
    requires
        asks(act),
    ensures
        settled(t) && in_range(t) ==> in_range(t.call(act, label).0) && orderly(t.call(act, label)),
{
    lemma_ask(t, act);
}

proof fn lemma_attempt(t: Talk, act: Act)
    requires
        asks(act),
    ensures
        settled(t) && in_range(t) ==> in_range(t.attempt(act).0) && orderly(t.attempt(act)),
{
    lemma_ask(t, act);
}

proof fn lemma_query(t: Talk, act: Act, label: Seq<char>)
    requires
        asks(act),
    ensures
        settled(t) && in_range(t) ==> in_range(
            t.query(act, label).0,
        ) && orderly(t.query(act, label)),
{
    lemma_ask(t, act);
}

proof fn lemma_config(t: Talk, offset: u32, size: u32)
    ensures
        settled(t) && in_range(t) ==> in_range(
            t.config(offset, size).0,
        ) && orderly(t.config(offset, size)),
{
    lemma_ask(t, ActionOf::GetConfig { offset, size });
}

proof fn lemma_config_or(t: Talk, offset: u32, size: u32, label: Seq<char>)
    ensures
        settled(t) && in_range(t) ==> in_range(
            t.config_or(offset, size, label).0,
        ) && orderly(t.config_or(offset, size, label)),
{
    lemma_ask(t, ActionOf::GetConfig { offset, size });
}

proof fn lemma_load(t: Talk, off: usize, len: usize)
    ensures
        settled(t) && in_range(t) ==> in_range(t.load(off, len).0) && orderly(t.load(off, len)),
{
    lemma_ask(t, ActionOf::Load { off, len });
}

proof fn lemma_await_used(t: Talk, seen: u16, index_off: usize, elem_off: usize, ms: u64)
    ensures
        settled(t) && in_range(t) ==> in_range(
            t.await_used(seen, index_off, elem_off, ms).0,
        ) && orderly(t.await_used(seen, index_off, elem_off, ms)),
{
    lemma_ask(t, ActionOf::WaitUsed { seen, index_off, elem_off, timeout_ms: ms });
}

proof fn lemma_await_call(t: Talk, ms: u64)
    ensures
        settled(t) && in_range(t) ==> in_range(t.await_call(ms).0) && orderly(t.await_call(ms)),
{
    lemma_ask(t, ActionOf::WaitCall { timeout_ms: ms });
}

proof fn lemma_map(t: Talk, size: usize)
    ensures
        settled(t) && in_range(t) ==> in_range(t.map(size).0) && orderly(t.map(size)),
{
    lemma_ask(t, ActionOf::MapMemory { total: size });
}

proof fn lemma_agree_protocol(t: Talk, offered: u64)
    ensures
        settled(t) && in_range(t) ==> in_range(
            model::agree_protocol(t, offered).0,
        ) && orderly(model::agree_protocol(t, offered)),
{
    lemma_query(t, ActionOf::GetProtocolFeatures, "get_protocol_features"@);
    let (t1, g) = t.query(ActionOf::GetProtocolFeatures, "get_protocol_features"@);
    if let Got::Value(have) = g {
        let act = ActionOf::SetProtocolFeatures { bits: have & PROTOCOL_CONFIG };
        lemma_call(t1, act, "set_protocol_features"@);
    }
}

proof fn lemma_negotiate(t: Talk, path: Seq<char>, ev: bool, mask: u64)
    ensures
        settled(t) && in_range(t) ==> in_range(
            model::negotiate(t, path, ev, mask).0,
        ) && orderly(model::negotiate(t, path, ev, mask)),
{
    let act = ActionOf::Connect { path };
    lemma_call(t, act, "connect"@);
    let t1 = t.call(act, "connect"@).0;
    lemma_call(t1, ActionOf::SetOwner, "set_owner"@);
    let t2 = t1.call(ActionOf::SetOwner, "set_owner"@).0;
    lemma_query(t2, ActionOf::GetFeatures, "get_features"@);
    let (t3, g) = t2.query(ActionOf::GetFeatures, "get_features"@);
    if let Got::Value(offered) = g {
        let act = ActionOf::SetFeatures { bits: model::acked_of(offered, ev, mask) };
        lemma_call(t3, act, "set_features"@);
        let t4 = t3.call(act, "set_features"@).0;
        lemma_agree_protocol(t4, offered);
    }
}

proof fn lemma_geometry(t: Talk, proto: u64)
    ensures
        settled(t) && in_range(t) ==> in_range(
            model::geometry(t, proto).0,
        ) && orderly(model::geometry(t, proto)),
{
    lemma_config(t, 0, 60);
}

proof fn lemma_resources(t: Talk)
    ensures
        settled(t) && in_range(t) ==> in_range(
            model::resources(t).0,
        ) && orderly(model::resources(t)),
{
    lemma_map(t, REGION_SIZE);
    let t1 = t.map(REGION_SIZE).0;
    lemma_call(t1, ActionOf::OpenKick, "eventfd kick"@);
    let t2 = t1.call(ActionOf::OpenKick, "eventfd kick"@).0;
    lemma_call(t2, ActionOf::OpenCall, "eventfd call"@);
}

proof fn lemma_handshake(t: Talk, path: Seq<char>, table: bool, ev: bool, mask: u64)
    ensures
        settled(t) && in_range(t) ==> in_range(
            model::handshake(t, path, table, ev, mask).0,
        ) && orderly(model::handshake(t, path, table, ev, mask)),
{
    lemma_negotiate(t, path, ev, mask);
    let (t1, g) = model::negotiate(t, path, ev, mask);
    if let Got::Value(terms) = g {
        lemma_geometry(t1, terms.proto);
        let t2 = model::geometry(t1, terms.proto).0;
        lemma_resources(t2);
        let (t3, g) = model::resources(t2);
        if let Got::Value(memory) = g {
            let region = Some(model::region_of(memory));
            lemma_call(t3, ActionOf::SetMemTable { region }, "set_mem_table"@);
        }
    }
}

proof fn lemma_setup_vring(l: Line, base: u16)
    ensures
        settled(l.io) && in_range(l.io) ==> in_range(
            model::setup_vring(l, base).0.io,
        ) && orderly_on(model::setup_vring(l, base)),
{
    let store = mem::store(DESC_OFF as int, mem::repeated(0, (DATA_OFF - DESC_OFF) as nat));
    lemma_tell(l.io, store);
    let t1 = l.io.tell(store);
    let num = ActionOf::SetVringNum { num: QSZ };
    lemma_call(t1, num, "set_vring_num"@);
    let t2 = t1.call(num, "set_vring_num"@).0;
    let addr = ActionOf::SetVringAddr { config: model::ring_config(l.s.mem.base, DESC_OFF as int) };
    lemma_call(t2, addr, "set_vring_addr"@);
    let t3 = t2.call(addr, "set_vring_addr"@).0;
    lemma_call(t3, ActionOf::SetVringBase { base }, "set_vring_base"@);
    let l4 = model::announce_ring(l, base).0;
    let first = mem::store_le(AVAIL_OFF + 2, base as nat, 2);
    lemma_tell(l4.io, first);
    lemma_tell(l4.io.tell(first), mem::store_le(USED_OFF + 2, base as nat, 2));
    let l5 = model::seeded(l4, base);
    lemma_call(l5.io, ActionOf::SetVringKick, "set_vring_kick"@);
    let t6 = l5.io.call(ActionOf::SetVringKick, "set_vring_kick"@).0;
    lemma_call(t6, ActionOf::SetVringCall, "set_vring_call"@);
    let t7 = t6.call(ActionOf::SetVringCall, "set_vring_call"@).0;
    lemma_call(t7, ActionOf::SetVringEnable { on: true }, "set_vring_enable"@);
}

proof fn lemma_connect(t: Talk, path: Seq<char>, ev: bool, mask: u64, base: u16)
    ensures
        settled(t) && in_range(t) ==> in_range(
            model::connect(t, path, ev, mask, base).0,
        ) && orderly(model::connect(t, path, ev, mask, base)),
{
    lemma_handshake(t, path, true, ev, mask);
    let (t1, g) = model::handshake(t, path, true, ev, mask);
    if let Got::Value(s) = g {
        lemma_setup_vring(Line { s, io: t1 }, base);
    }
}

/// Short lists of stores.
proof fn lemma_short_tells()
    ensures
        forall|off: int, req_type: u32, sector: u64|
            #[trigger] telling(model::header_stores(off, req_type, sector)),
        forall|off: int, sector: u64, n: u32, unmap: bool|
            #[trigger] telling(model::segment_stores(off, sector, n, unmap)),
        forall|e: int, addr: nat, len: u32, flags: u16, next: nat|
            #[trigger] telling(model::entry(e, addr, len, flags, next)),
        forall|idx: u16, head: nat| #[trigger] telling(model::publish(idx, head)),
{
    reveal(telling);
}

proof fn lemma_chain_tells(first: int, descs: Seq<Desc>, k: nat)
    ensures
        telling(model::chain_stores(first, descs, k)),
    decreases k,
{
    reveal(telling);
    if k > 0 {
        lemma_chain_tells(first, descs, (k - 1) as nat);
    }
}

proof fn lemma_post_tells(s: Session, descs: Seq<Desc>)
    ensures
        telling(model::post_stores(s, descs)),
{
    reveal(telling);
    lemma_chain_tells(s.next_desc as int, descs, descs.len());
}

proof fn lemma_indirect_tells(s: Session, descs: Seq<Desc>, table: int)
    ensures
        telling(model::indirect_stores(s, descs, table)),
{
    reveal(telling);
    lemma_table_tells(table, descs, descs.len());
}

proof fn lemma_table_tells(table: int, descs: Seq<Desc>, k: nat)
    ensures
        telling(model::table_stores(table, descs, k)),
    decreases k,
{
    reveal(telling);
    if k > 0 {
        lemma_table_tells(table, descs, (k - 1) as nat);
    }
}

proof fn lemma_wait_used(l: Line, ms: u64)
    ensures
        settled(l.io) && in_range(l.io) ==> in_range(
            model::wait_used(l, ms).0.io,
        ) && orderly_on(model::wait_used(l, ms)),
{
    let seen = l.s.used_idx_seen;
    lemma_await_used(
        l.io,
        seen,
        (USED_OFF + 2) as usize,
        model::used_elem_off(seen) as usize,
        ms,
    );
}

proof fn lemma_submit(l: Line, descs: Seq<Desc>, ms: u64)
    ensures
        settled(l.io) && in_range(l.io) ==> in_range(
            model::submit(l, descs, ms).0.io,
        ) && orderly_on(model::submit(l, descs, ms)),
{
    lemma_post_tells(l.s, descs);
    lemma_tell_all(l.io, model::post_stores(l.s, descs));
    let p = model::post(l, descs);
    lemma_tell(p.io, ActionOf::Kick);
    lemma_wait_used(Line { s: p.s, io: p.io.tell(ActionOf::Kick) }, ms);
}

proof fn lemma_submit_for_status(l: Line, descs: Seq<Desc>, st: int)
    ensures
        settled(l.io) && in_range(l.io) ==> in_range(
            model::submit_for_status(l, descs, st).0.io,
        ) && orderly_on(model::submit_for_status(l, descs, st)),
{
    lemma_submit(l, descs, TIMEOUT_MS);
    lemma_load(model::submit(l, descs, TIMEOUT_MS).0.io, st as usize, 1);
}

proof fn lemma_submit_for_data(l: Line, descs: Seq<Desc>, dbuf: int, len: int, st: int)
    ensures
        settled(l.io) && in_range(l.io) ==> in_range(
            model::submit_for_data(l, descs, dbuf, len, st).0.io,
        ) && orderly_on(model::submit_for_data(l, descs, dbuf, len, st)),
{
    lemma_submit(l, descs, TIMEOUT_MS);
    let t1 = model::submit(l, descs, TIMEOUT_MS).0.io;
    lemma_load(t1, dbuf as usize, len as usize);
    lemma_load(t1.load(dbuf as usize, len as usize).0, st as usize, 1);
}

proof fn lemma_blk_write(l: Line, sector: u64, data: Seq<u8>)
    ensures
        settled(l.io) && in_range(l.io) ==> in_range(
            model::blk_write(l, sector, data).0.io,
        ) && orderly_on(model::blk_write(l, sector, data)),
{
    let len = data.len() as int;
    let (hdr, dbuf, st, s) = model::three(l.s, len);
    let head = model::header_stores(hdr, crate::dev::VIRTIO_BLK_T_OUT, sector);
    lemma_short_tells();
    lemma_tell_all(l.io, head);
    let t1 = l.io.tell_all(head);
    lemma_tell(t1, mem::store(dbuf, data));
    let t2 = t1.tell(mem::store(dbuf, data));
    lemma_tell(t2, model::poison(st));
    lemma_submit_for_status(
        Line { s, io: t2.tell(model::poison(st)) },
        seq![model::readable(hdr, 16), model::readable(dbuf, len), model::writable(st, 1)],
        st,
    );
}

proof fn lemma_blk_fetch(l: Line, req_type: u32, sector: u64, len: int)
    ensures
        settled(l.io) && in_range(l.io) ==> in_range(
            model::blk_fetch(l, req_type, sector, len).0.io,
        ) && orderly_on(model::blk_fetch(l, req_type, sector, len)),
{
    let (hdr, dbuf, st, s) = model::three(l.s, len);
    let head = model::header_stores(hdr, req_type, sector);
    let zeroes = mem::store(dbuf, mem::repeated(0, len as nat));
    lemma_short_tells();
    lemma_tell_all(l.io, head);
    let t1 = l.io.tell_all(head);
    lemma_tell(t1, zeroes);
    let t2 = t1.tell(zeroes);
    lemma_tell(t2, model::poison(st));
    lemma_submit_for_data(
        Line { s, io: t2.tell(model::poison(st)) },
        seq![model::readable(hdr, 16), model::writable(dbuf, len), model::writable(st, 1)],
        dbuf,
        len,
        st,
    );
}

proof fn lemma_blk_flush(l: Line)
    ensures
        settled(l.io) && in_range(l.io) ==> in_range(
            model::blk_flush(l).0.io,
        ) && orderly_on(model::blk_flush(l)),
{
    let s1 = model::allocated(l.s, 16);
    let (hdr, st) = (model::next_buffer(l.s), model::next_buffer(s1));
    let head = model::header_stores(hdr, crate::dev::VIRTIO_BLK_T_FLUSH, 0);
    lemma_short_tells();
    lemma_tell_all(l.io, head);
    let t1 = l.io.tell_all(head);
    lemma_tell(t1, model::poison(st));
    lemma_submit_for_status(
        Line { s: model::allocated(s1, 1), io: t1.tell(model::poison(st)) },
        seq![model::readable(hdr, 16), model::writable(st, 1)],
        st,
    );
}

proof fn lemma_blk_zeroes_or_discard(l: Line, req_type: u32, sector: u64, n: u32, unmap: bool)
    ensures
        settled(l.io) && in_range(l.io) ==> in_range(
            model::blk_zeroes_or_discard(l, req_type, sector, n, unmap).0.io,
        ) && orderly_on(model::blk_zeroes_or_discard(l, req_type, sector, n, unmap)),
{
    let (hdr, payload, st, s) = model::three(l.s, 16);
    let head = model::header_stores(hdr, req_type, 0);
    let segment = model::segment_stores(payload, sector, n, unmap);
    lemma_short_tells();
    lemma_tell_all(l.io, head);
    let t1 = l.io.tell_all(head);
    lemma_tell_all(t1, segment);
    let t2 = t1.tell_all(segment);
    lemma_tell(t2, model::poison(st));
    lemma_submit_for_status(
        Line { s, io: t2.tell(model::poison(st)) },
        seq![model::readable(hdr, 16), model::readable(payload, 16), model::writable(st, 1)],
        st,
    );
}

/// A step whose own message is a question.
pub open spec fn proper(s: Step) -> bool {
    match s {
        Step::Call { act, .. } => asks(act),
        Step::Try { act } => asks(act),
        _ => true,
    }
}

proof fn lemma_reading(b: Bench, at: Sector, len: usize)
    requires
        b.stage is Live,
        settled(b.io),
        in_range(b.io),
    ensures
        in_range(bench::taken(b, Step::Read { at, len }).io),
        orderly_at(bench::taken(b, Step::Read { at, len })),
{
    lemma_blk_fetch(b.line(), crate::dev::VIRTIO_BLK_T_IN, b.sector(at), len as int);
}

proof fn lemma_reading_in(b: Bench, tag: Seq<char>, at: Sector, len: usize)
    requires
        b.stage is Live,
        settled(b.io),
        in_range(b.io),
    ensures
        in_range(bench::taken(b, Step::ReadIn { tag, at, len }).io),
        orderly_at(bench::taken(b, Step::ReadIn { tag, at, len })),
{
    lemma_blk_fetch(b.line(), crate::dev::VIRTIO_BLK_T_IN, b.sector(at), len as int);
}

proof fn lemma_writing(b: Bench, at: Sector, data: Seq<u8>)
    requires
        b.stage is Live,
        settled(b.io),
        in_range(b.io),
    ensures
        in_range(bench::taken(b, Step::Write { at, data }).io),
        orderly_at(bench::taken(b, Step::Write { at, data })),
{
    lemma_blk_write(b.line(), b.sector(at), data);
}

proof fn lemma_flushing(b: Bench)
    requires
        b.stage is Live,
        settled(b.io),
        in_range(b.io),
    ensures
        in_range(bench::taken(b, Step::Flush).io),
        orderly_at(bench::taken(b, Step::Flush)),
{
    lemma_blk_flush(b.line());
}

proof fn lemma_identifying(b: Bench)
    requires
        b.stage is Live,
        settled(b.io),
        in_range(b.io),
    ensures
        in_range(bench::taken(b, Step::GetId).io),
        orderly_at(bench::taken(b, Step::GetId)),
{
    lemma_blk_fetch(b.line(), crate::dev::VIRTIO_BLK_T_GET_ID, 0, 20);
}

proof fn lemma_ranging(b: Bench, req_type: u32, at: Sector, num_sectors: u32, unmap: bool)
    requires
        b.stage is Live,
        settled(b.io),
        in_range(b.io),
    ensures
        in_range(bench::taken(b, Step::Range { req_type, at, num_sectors, unmap }).io),
        orderly_at(bench::taken(b, Step::Range { req_type, at, num_sectors, unmap })),
{
    lemma_blk_zeroes_or_discard(b.line(), req_type, b.sector(at), num_sectors, unmap);
}

proof fn lemma_submitting(b: Bench, chain: Seq<Seg>)
    requires
        b.stage is Live,
        settled(b.io),
        in_range(b.io),
    ensures
        in_range(bench::taken(b, Step::Submit { chain }).io),
        orderly_at(bench::taken(b, Step::Submit { chain })),
{
    lemma_submit(b.line(), b.descs(chain), TIMEOUT_MS);
}

spec fn is_opening(s: Step) -> bool {
    match s {
        Step::Connect { .. } => true,
        Step::Handshake { .. } => true,
        _ => false,
    }
}

/// Steps that open a session.
proof fn lemma_opening(b: Bench, s: Step)
    requires
        b.stage is Live,
        settled(b.io),
        in_range(b.io),
        proper(s),
        is_opening(s),
    ensures
        in_range(bench::taken(b, s).io),
        orderly_at(bench::taken(b, s)),
{
    match s {
        Step::Connect { path, mask_out, base } => {
            lemma_connect(b.io, path, false, mask_out, base);
        },
        Step::Handshake { path, do_mem_table } => {
            lemma_handshake(b.io, path, do_mem_table, false, 0);
        },
        _ => {},
    }
}

spec fn is_requesting(s: Step) -> bool {
    match s {
        Step::Write { .. } => true,
        Step::Read { .. } => true,
        Step::ReadIn { .. } => true,
        Step::Flush => true,
        Step::GetId => true,
        Step::Range { .. } => true,
        Step::Submit { .. } => true,
        _ => false,
    }
}

/// Steps that make a request.
proof fn lemma_requesting(b: Bench, s: Step)
    requires
        b.stage is Live,
        settled(b.io),
        in_range(b.io),
        proper(s),
        is_requesting(s),
    ensures
        in_range(bench::taken(b, s).io),
        orderly_at(bench::taken(b, s)),
{
    match s {
        Step::Write { at, data } => {
            lemma_writing(b, at, data);
        },
        Step::Read { at, len } => {
            lemma_reading(b, at, len);
        },
        Step::ReadIn { tag, at, len } => {
            lemma_reading_in(b, tag, at, len);
        },
        Step::Flush => {
            lemma_flushing(b);
        },
        Step::GetId => {
            lemma_identifying(b);
        },
        Step::Range { req_type, at, num_sectors, unmap } => {
            lemma_ranging(b, req_type, at, num_sectors, unmap);
        },
        Step::Submit { chain } => {
            lemma_submitting(b, chain);
        },
        _ => {},
    }
}

spec fn is_waiting(s: Step) -> bool {
    match s {
        Step::Await { .. } => true,
        Step::IgnoreUsed { .. } => true,
        Step::Silence { .. } => true,
        Step::Complete { .. } => true,
        Step::Written { .. } => true,
        Step::Fetched { .. } => true,
        Step::Status { .. } => true,
        Step::Load { .. } => true,
        Step::Signal { .. } => true,
        _ => false,
    }
}

/// Steps that wait for the device, or look at what it left.
proof fn lemma_waiting(b: Bench, s: Step)
    requires
        b.stage is Live,
        settled(b.io),
        in_range(b.io),
        proper(s),
        is_waiting(s),
    ensures
        in_range(bench::taken(b, s).io),
        orderly_at(bench::taken(b, s)),
{
    match s {
        Step::Await { .. } => {
            lemma_wait_used(b.line(), TIMEOUT_MS);
        },
        Step::IgnoreUsed { timeout_ms } => {
            lemma_wait_used(b.line(), timeout_ms);
        },
        Step::Silence { timeout_ms, .. } => {
            lemma_wait_used(b.line(), timeout_ms);
        },
        Step::Complete { .. } => {
            lemma_wait_used(b.line(), TIMEOUT_MS);
        },
        Step::Written { .. } => {
            lemma_load(b.io, b.buf(b.number as int * 3 + 2) as usize, 1);
        },
        Step::Fetched { .. } => {
            lemma_load(b.io, b.buf(b.number as int * 3 + 1) as usize, crate::dev::SECTOR);
        },
        Step::Status { buf } => {
            lemma_load(b.io, b.buf(buf as int) as usize, 1);
        },
        Step::Load { buf, len } => {
            lemma_load(b.io, b.buf(buf as int) as usize, len);
        },
        Step::Signal { timeout_ms, .. } => {
            lemma_await_call(b.io, timeout_ms);
        },
        _ => {},
    }
}

spec fn is_sending(s: Step) -> bool {
    match s {
        Step::Call { .. } => true,
        Step::Try { .. } => true,
        Step::TryRingAt { .. } => true,
        Step::TrySetup => true,
        Step::Base => true,
        Step::Features { .. } => true,
        Step::Config { .. } => true,
        _ => false,
    }
}

/// Steps that send a message.
proof fn lemma_sending(b: Bench, s: Step)
    requires
        b.stage is Live,
        settled(b.io),
        in_range(b.io),
        proper(s),
        is_sending(s),
    ensures
        in_range(bench::taken(b, s).io),
        orderly_at(bench::taken(b, s)),
{
    match s {
        Step::Call { act, label } => {
            lemma_call(b.io, act, label);
        },
        Step::Try { act } => {
            lemma_attempt(b.io, act);
        },
        Step::TryRingAt { desc_off } => {
            let config = model::ring_config(b.s.mem.base, desc_off as int);
            lemma_attempt(b.io, ActionOf::SetVringAddr { config });
        },
        Step::TrySetup => {
            lemma_setup_vring(b.line(), 0);
        },
        Step::Base => {
            lemma_query(b.io, ActionOf::GetVringBase, "get_vring_base"@);
        },
        Step::Features { label } => {
            lemma_query(b.io, ActionOf::GetFeatures, label);
        },
        Step::Config { size, label } => {
            lemma_config_or(b.io, 0, size, label);
        },
        _ => {},
    }
}

spec fn is_posting(s: Step) -> bool {
    match s {
        Step::RawDesc { .. } => true,
        Step::TableEntry { .. } => true,
        Step::PushAvail { .. } => true,
        Step::Post { .. } => true,
        Step::PostIndirect { .. } => true,
        _ => false,
    }
}

/// Steps that fill the ring.
proof fn lemma_posting(b: Bench, s: Step)
    requires
        b.stage is Live,
        settled(b.io),
        in_range(b.io),
        proper(s),
        is_posting(s),
    ensures
        in_range(bench::taken(b, s).io),
        orderly_at(bench::taken(b, s)),
{
    match s {
        Step::RawDesc { idx, addr, len, flags, next } => {
            lemma_short_tells();
            lemma_tell_all(
                b.io,
                model::entry(
                    DESC_OFF + idx % QSZ * 16,
                    b.place(addr) as nat,
                    len,
                    flags,
                    next as nat,
                ),
            );
        },
        Step::TableEntry { buf, addr, len, flags, next } => {
            lemma_short_tells();
            lemma_tell_all(
                b.io,
                model::entry(b.buf(buf as int), b.place(addr) as nat, len, flags, next as nat),
            );
        },
        Step::PushAvail { head } => {
            lemma_short_tells();
            lemma_tell_all(b.io, model::publish(b.s.avail_idx, head as nat));
        },
        Step::Post { chain } => {
            let descs = b.descs(chain);
            lemma_post_tells(b.s, descs);
            lemma_tell_all(b.io, model::post_stores(b.s, descs));
        },
        Step::PostIndirect { chain, table } => {
            let descs = b.descs(chain);
            let off = b.buf(table as int);
            lemma_indirect_tells(b.s, descs, off);
            lemma_tell_all(b.io, model::indirect_stores(b.s, descs, off));
        },
        _ => {},
    }
}

/// Steps that tell the outside something, or look at what they have.
proof fn lemma_telling(b: Bench, s: Step)
    requires
        b.stage is Live,
        settled(b.io),
        in_range(b.io),
        proper(s),
        !is_opening(s) && !is_requesting(s) && !is_waiting(s) && !is_sending(s) && !is_posting(s),
    ensures
        in_range(bench::taken(b, s).io),
        orderly_at(bench::taken(b, s)),
{
    match s {
        Step::Close => {
            lemma_tell(b.io, ActionOf::Close);
        },
        Step::Cooldown => {
            lemma_tell(b.io, ActionOf::Sleep { ms: b.io.delay_ms });
        },
        Step::Header { buf, req_type, at } => {
            lemma_short_tells();
            lemma_tell_all(
                b.io,
                model::header_stores(b.buf(buf as int), req_type, b.sector(at)),
            );
        },
        Step::Put { buf, at, data } => {
            lemma_tell(b.io, mem::store(b.buf(buf as int) + at, data));
        },
        Step::Zero { buf, len } => {
            lemma_tell(
                b.io,
                mem::store(b.buf(buf as int), mem::repeated(0, len as nat)),
            );
        },
        Step::Kick => {
            lemma_tell(b.io, ActionOf::Kick);
        },
        Step::AvailFlags { flags } => {
            lemma_tell(b.io, mem::store_le(AVAIL_OFF as int, flags as nat, 2));
        },
        Step::DrainCall => {
            lemma_tell(b.io, ActionOf::DrainCall);
        },
        _ => {},
    }
}

proof fn lemma_step(b: Bench, s: Step)
    requires
        orderly_at(b),
        in_range(b.io),
        proper(s),
    ensures
        orderly_at(bench::step(b, s)),
        in_range(bench::step(b, s).io),
{
    reveal(bench::step);
    if b.stage is Live {
        if is_opening(s) {
            lemma_opening(b, s);
        } else if is_requesting(s) {
            lemma_requesting(b, s);
        } else if is_waiting(s) {
            lemma_waiting(b, s);
        } else if is_sending(s) {
            lemma_sending(b, s);
        } else if is_posting(s) {
            lemma_posting(b, s);
        } else {
            lemma_telling(b, s);
        }
    }
}

pub proof fn lemma_run_to(b: Bench, steps: Seq<Step>, k: nat)
    requires
        orderly_at(b),
        in_range(b.io),
        k <= steps.len(),
        forall|i: int| 0 <= i < steps.len() ==> proper(#[trigger] steps[i]),
    ensures
        orderly_at(bench::run_to(b, steps, k)),
        in_range(bench::run_to(b, steps, k).io),
    decreases k,
{
    if k > 0 {
        lemma_run_to(b, steps, (k - 1) as nat);
        lemma_step(bench::run_to(b, steps, (k - 1) as nat), steps[k - 1]);
    }
}

/// Questions and answers take turns in every list of steps: the answers taken are as many
/// as the questions asked, but for one question at the very end of a run that waits.
pub proof fn answers_match_questions(
    steps: Seq<Step>,
    delay_ms: u64,
    replies: Seq<Rep>,
)
    requires
        forall|i: int| 0 <= i < steps.len() ==> proper(#[trigger] steps[i]),
    ensures
        ({
            let b = bench::run(bench::set_out(replay::opening(delay_ms, replies)), steps);
            orderly_at(b)
        }),
{
    let b = bench::set_out(replay::opening(delay_ms, replies));
    lemma_run_to(b, steps, steps.len());
}

} // verus!
