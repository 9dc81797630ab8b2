//! Why a scenario can be run again from its start.
//!
//! A driver performs the actions of a run that stopped for want of an answer, adds the
//! answer, and runs the scenario again. That is sound because a run with more answers
//! repeats the run with fewer, action by action, and goes on where it stopped.

use vstd::prelude::*;

use crate::bench;
use crate::bench::{Bench, Sector, Seg, Step};
use crate::dev::{Desc, Session, DATA_OFF, DESC_OFF, QSZ, REGION_SIZE, TIMEOUT_MS};
use crate::features::PROTOCOL_CONFIG;
use crate::link::{Act, ActionOf, Got, Talk};
use crate::mem;
use crate::model;
use crate::model::{Line, Terms};
use crate::registry;
use crate::registry::Case;

verus! {

/// The first list starts the second.
pub open spec fn starts<A>(a: Seq<A>, b: Seq<A>) -> bool {
    a.len() <= b.len() && a == b.take(a.len() as int)
}

/// The same conversation at the same point, with the same or more answers at hand.
pub open spec fn extends(a: Talk, b: Talk) -> bool {
    &&& a.delay_ms == b.delay_ms
    &&& a.next == b.next
    &&& a.log == b.log
    &&& starts(a.replies, b.replies)
}

/// A later point of a conversation: its actions go on from those of the earlier one.
pub open spec fn follows(a: Talk, b: Talk) -> bool {
    &&& starts(a.log, b.log)
    &&& a.replies == b.replies
    &&& a.delay_ms == b.delay_ms
}

/// How the outcomes of the same operation are related, where the second had more
/// answers at hand: they are the same, unless the first stopped for want of an answer.
pub open spec fn agrees<T>(a: (Talk, Got<T>), b: (Talk, Got<T>)) -> bool {
    if a.1 is Waiting {
        starts(a.0.log, b.0.log)
    } else {
        extends(a.0, b.0) && a.1 == b.1
    }
}

/// The same for the operations of a session.
pub open spec fn same_line(a: Line, b: Line) -> bool {
    a.s == b.s && extends(a.io, b.io)
}

/// The same for the operations of a session.
pub open spec fn agrees_on<T>(a: (Line, Got<T>), b: (Line, Got<T>)) -> bool {
    if a.1 is Waiting {
        starts(a.0.io.log, b.0.io.log)
    } else {
        same_line(a.0, b.0) && a.1 == b.1
    }
}

/// A run of a scenario and the run with more answers at hand: they are at the same
/// point, unless the first has stopped for want of an answer.
pub open spec fn repeated_by(a: Bench, b: Bench) -> bool {
    if a.stage is Waiting {
        starts(a.io.log, b.io.log)
    } else {
        extends(a.io, b.io) && a == (Bench { io: a.io, ..b })
    }
}

proof fn lemma_starts_self<A>(a: Seq<A>)
    ensures
        starts(a, a),
{
    assert(a =~= a.take(a.len() as int));
}

proof fn lemma_starts_more<A>(a: Seq<A>, b: Seq<A>, c: Seq<A>)
    requires
        starts(a, b),
        starts(b, c),
    ensures
        starts(a, c),
{
    assert(a =~= c.take(a.len() as int));
}

proof fn lemma_starts_push<A>(a: Seq<A>, x: A)
    ensures
        starts(a, a.push(x)),
{
    assert(a =~= a.push(x).take(a.len() as int));
}

/// To follow is transitive, and so is to start.
proof fn lemma_chain()
    ensures
        forall|a: Talk| #[trigger] follows(a, a),
        forall|a: Talk, b: Talk, c: Talk|
            #[trigger] follows(a, b) && #[trigger] follows(b, c) ==> follows(a, c),
        forall|a: Seq<Act>, b: Talk, c: Talk|
            #[trigger] starts(a, b.log) && #[trigger] follows(b, c) ==> starts(a, c.log),
        forall|a: Talk, b: Talk| #[trigger] extends(a, b) ==> starts(a.log, b.log),
{
    assert forall|a: Talk| #[trigger] follows(a, a) by {
        lemma_starts_self(a.log);
    }
    assert forall|a: Talk, b: Talk, c: Talk|
        #[trigger] follows(a, b) && #[trigger] follows(b, c) implies follows(a, c) by {
        lemma_starts_more(a.log, b.log, c.log);
    }
    assert forall|a: Seq<Act>, b: Talk, c: Talk|
        #[trigger] starts(a, b.log) && #[trigger] follows(b, c) implies starts(a, c.log) by {
        lemma_starts_more(a, b.log, c.log);
    }
    assert forall|a: Talk, b: Talk| #[trigger] extends(a, b) implies starts(a.log, b.log) by {
        lemma_starts_self(a.log);
    }
}

proof fn lemma_tell(a: Talk, b: Talk, act: Act)
    ensures
        follows(a, a.tell(act)),
        follows(b, b.tell(act)),
        extends(a, b) ==> extends(a.tell(act), b.tell(act)),
{
    lemma_starts_push(a.log, act);
    lemma_starts_push(b.log, act);
}

proof fn lemma_tell_all(a: Talk, b: Talk, acts: Seq<Act>)
    ensures
        follows(a, a.tell_all(acts)),
        follows(b, b.tell_all(acts)),
        extends(a, b) ==> extends(a.tell_all(acts), b.tell_all(acts)),
{
    assert(a.log =~= (a.log + acts).take(a.log.len() as int));
    assert(b.log =~= (b.log + acts).take(b.log.len() as int));
}

/// One question and its answer.
proof fn lemma_ask(a: Talk, b: Talk, act: Act)
    ensures
        follows(a, a.ask(act).0),
        follows(b, b.ask(act).0),
        extends(a, b) ==> starts(a.ask(act).0.log, b.ask(act).0.log),
        extends(a, b) && a.ask(act).1 is Some ==> extends(a.ask(act).0, b.ask(act).0) && a.ask(
            act,
        ).1 == b.ask(act).1,
{
    lemma_starts_push(a.log, act);
    lemma_starts_push(b.log, act);
    lemma_starts_self(a.log.push(act));
    if extends(a, b) && 0 <= a.next < a.replies.len() {
        assert(a.replies[a.next] == b.replies.take(a.replies.len() as int)[a.next]);
    }
}

proof fn lemma_call(a: Talk, b: Talk, act: Act, label: Seq<char>)
    ensures
        follows(a, a.call(act, label).0),
        follows(b, b.call(act, label).0),
        extends(a, b) ==> agrees(a.call(act, label), b.call(act, label)),
{
    lemma_ask(a, b, act);
}

proof fn lemma_attempt(a: Talk, b: Talk, act: Act)
    ensures
        follows(a, a.attempt(act).0),
        follows(b, b.attempt(act).0),
        extends(a, b) ==> agrees(a.attempt(act), b.attempt(act)),
{
    lemma_ask(a, b, act);
}

proof fn lemma_query(a: Talk, b: Talk, act: Act, label: Seq<char>)
    ensures
        follows(a, a.query(act, label).0),
        follows(b, b.query(act, label).0),
        extends(a, b) ==> agrees(a.query(act, label), b.query(act, label)),
{
    lemma_ask(a, b, act);
}

proof fn lemma_config(a: Talk, b: Talk, offset: u32, size: u32)
    ensures
        follows(a, a.config(offset, size).0),
        follows(b, b.config(offset, size).0),
        extends(a, b) ==> agrees(a.config(offset, size), b.config(offset, size)),
{
    lemma_ask(a, b, ActionOf::GetConfig { offset, size });
}

proof fn lemma_config_or(a: Talk, b: Talk, offset: u32, size: u32, label: Seq<char>)
    ensures
        follows(a, a.config_or(offset, size, label).0),
        follows(b, b.config_or(offset, size, label).0),
        extends(a, b) ==> agrees(
            a.config_or(offset, size, label),
            b.config_or(offset, size, label),
        ),
{
    lemma_ask(a, b, ActionOf::GetConfig { offset, size });
}

proof fn lemma_load(a: Talk, b: Talk, off: usize, len: usize)
    ensures
        follows(a, a.load(off, len).0),
        follows(b, b.load(off, len).0),
        extends(a, b) ==> agrees(a.load(off, len), b.load(off, len)),
{
    lemma_ask(a, b, ActionOf::Load { off, len });
}

proof fn lemma_await_used(a: Talk, b: Talk, seen: u16, index_off: usize, elem_off: usize, ms: u64)
    ensures
        follows(a, a.await_used(seen, index_off, elem_off, ms).0),
        follows(b, b.await_used(seen, index_off, elem_off, ms).0),
        extends(a, b) ==> agrees(
            a.await_used(seen, index_off, elem_off, ms),
            b.await_used(seen, index_off, elem_off, ms),
        ),
{
    lemma_ask(a, b, ActionOf::WaitUsed { seen, index_off, elem_off, timeout_ms: ms });
}

proof fn lemma_await_call(a: Talk, b: Talk, ms: u64)
    ensures
        follows(a, a.await_call(ms).0),
        follows(b, b.await_call(ms).0),
        extends(a, b) ==> agrees(a.await_call(ms), b.await_call(ms)),
{
    lemma_ask(a, b, ActionOf::WaitCall { timeout_ms: ms });
}

proof fn lemma_map(a: Talk, b: Talk, size: usize)
    ensures
        follows(a, a.map(size).0),
        follows(b, b.map(size).0),
        extends(a, b) ==> agrees(a.map(size), b.map(size)),
{
    lemma_ask(a, b, ActionOf::MapMemory { total: size });
}

proof fn lemma_agree_protocol(a: Talk, b: Talk, offered: u64)
    ensures
        follows(a, model::agree_protocol(a, offered).0),
        follows(b, model::agree_protocol(b, offered).0),
        extends(a, b) ==> agrees(
            model::agree_protocol(a, offered),
            model::agree_protocol(b, offered),
        ),
{
    lemma_chain();
    let (ta, ga) = a.query(ActionOf::GetProtocolFeatures, "get_protocol_features"@);
    let (tb, gb) = b.query(ActionOf::GetProtocolFeatures, "get_protocol_features"@);
    lemma_query(a, b, ActionOf::GetProtocolFeatures, "get_protocol_features"@);
    if let Got::Value(have) = ga {
        let act = ActionOf::SetProtocolFeatures { bits: have & PROTOCOL_CONFIG };
        lemma_call(ta, ta, act, "set_protocol_features"@);
    }
    if let Got::Value(have) = gb {
        let act = ActionOf::SetProtocolFeatures { bits: have & PROTOCOL_CONFIG };
        lemma_call(ta, tb, act, "set_protocol_features"@);
    }
}

proof fn lemma_negotiate(a: Talk, b: Talk, path: Seq<char>, ev: bool, mask: u64)
    ensures
        follows(a, model::negotiate(a, path, ev, mask).0),
        follows(b, model::negotiate(b, path, ev, mask).0),
        extends(a, b) ==> agrees(
            model::negotiate(a, path, ev, mask),
            model::negotiate(b, path, ev, mask),
        ),
{
    lemma_chain();
    let act = ActionOf::Connect { path };
    lemma_call(a, b, act, "connect"@);
    let (a1, _) = a.call(act, "connect"@);
    let (b1, _) = b.call(act, "connect"@);
    lemma_call(a1, b1, ActionOf::SetOwner, "set_owner"@);
    let (a2, _) = a1.call(ActionOf::SetOwner, "set_owner"@);
    let (b2, _) = b1.call(ActionOf::SetOwner, "set_owner"@);
    lemma_query(a2, b2, ActionOf::GetFeatures, "get_features"@);
    let (a3, ga) = a2.query(ActionOf::GetFeatures, "get_features"@);
    let (b3, gb) = b2.query(ActionOf::GetFeatures, "get_features"@);
    if let Got::Value(offered) = ga {
        let act = ActionOf::SetFeatures { bits: model::acked_of(offered, ev, mask) };
        lemma_call(a3, a3, act, "set_features"@);
        let (a4, _) = a3.call(act, "set_features"@);
        lemma_agree_protocol(a4, a4, offered);
    }
    if let Got::Value(offered) = gb {
        let act = ActionOf::SetFeatures { bits: model::acked_of(offered, ev, mask) };
        lemma_call(a3, b3, act, "set_features"@);
        let (a4, _) = a3.call(act, "set_features"@);
        let (b4, _) = b3.call(act, "set_features"@);
        lemma_agree_protocol(a4, b4, offered);
    }
}

proof fn lemma_geometry(a: Talk, b: Talk, proto: u64)
    ensures
        follows(a, model::geometry(a, proto).0),
        follows(b, model::geometry(b, proto).0),
        extends(a, b) ==> agrees(model::geometry(a, proto), model::geometry(b, proto)),
{
    lemma_chain();
    lemma_config(a, b, 0, 60);
}

proof fn lemma_resources(a: Talk, b: Talk)
    ensures
        follows(a, model::resources(a).0),
        follows(b, model::resources(b).0),
        extends(a, b) ==> agrees(model::resources(a), model::resources(b)),
{
    lemma_chain();
    lemma_map(a, b, REGION_SIZE);
    let (a1, _) = a.map(REGION_SIZE);
    let (b1, _) = b.map(REGION_SIZE);
    lemma_call(a1, b1, ActionOf::OpenKick, "eventfd kick"@);
    let (a2, _) = a1.call(ActionOf::OpenKick, "eventfd kick"@);
    let (b2, _) = b1.call(ActionOf::OpenKick, "eventfd kick"@);
    lemma_call(a2, b2, ActionOf::OpenCall, "eventfd call"@);
}

/// The part of a handshake that follows the negotiation.
spec fn after_terms(t: Talk, terms: Terms, table: bool) -> (Talk, Got<Session>) {
    let (t, g) = model::geometry(t, terms.proto);
    match g {
        Got::Value(geo) => {
            let (t, g) = model::resources(t);
            match g {
                Got::Value(memory) => {
                    let s = model::fresh(memory, terms, geo);
                    if table {
                        let region = Some(model::region_of(memory));
                        let (t, g) = t.call(ActionOf::SetMemTable { region }, "set_mem_table"@);
                        match g {
                            Got::Value(_) => (t, Got::Value(s)),
                            _ => (t, model::relay(g)),
                        }
                    } else {
                        (t, Got::Value(s))
                    }
                },
                _ => (t, model::relay(g)),
            }
        },
        _ => (t, model::relay(g)),
    }
}

proof fn lemma_after_terms(a: Talk, b: Talk, terms: Terms, table: bool)
    ensures
        follows(a, after_terms(a, terms, table).0),
        follows(b, after_terms(b, terms, table).0),
        extends(a, b) ==> agrees(after_terms(a, terms, table), after_terms(b, terms, table)),
{
    lemma_chain();
    lemma_geometry(a, b, terms.proto);
    let (a1, _) = model::geometry(a, terms.proto);
    let (b1, _) = model::geometry(b, terms.proto);
    lemma_resources(a1, b1);
    let (a2, ga) = model::resources(a1);
    let (b2, gb) = model::resources(b1);
    if let Got::Value(memory) = ga {
        let region = Some(model::region_of(memory));
        lemma_call(a2, a2, ActionOf::SetMemTable { region }, "set_mem_table"@);
    }
    if let Got::Value(memory) = gb {
        let region = Some(model::region_of(memory));
        lemma_call(a2, b2, ActionOf::SetMemTable { region }, "set_mem_table"@);
    }
}

proof fn lemma_handshake(a: Talk, b: Talk, path: Seq<char>, table: bool, ev: bool, mask: u64)
    ensures
        follows(a, model::handshake(a, path, table, ev, mask).0),
        follows(b, model::handshake(b, path, table, ev, mask).0),
        extends(a, b) ==> agrees(
            model::handshake(a, path, table, ev, mask),
            model::handshake(b, path, table, ev, mask),
        ),
{
    lemma_chain();
    lemma_negotiate(a, b, path, ev, mask);
    let (a1, ga) = model::negotiate(a, path, ev, mask);
    let (b1, gb) = model::negotiate(b, path, ev, mask);
    if let Got::Value(terms) = ga {
        lemma_after_terms(a1, a1, terms, table);
    }
    if let Got::Value(terms) = gb {
        lemma_after_terms(a1, b1, terms, table);
    }
}

proof fn lemma_announce_ring(a: Line, b: Line, base: u16)
    ensures
        follows(a.io, model::announce_ring(a, base).0.io),
        follows(b.io, model::announce_ring(b, base).0.io),
        same_line(a, b) ==> agrees_on(model::announce_ring(a, base), model::announce_ring(b, base)),
{
    lemma_chain();
    let store = mem::store(DESC_OFF as int, mem::repeated(0, (DATA_OFF - DESC_OFF) as nat));
    lemma_tell(a.io, b.io, store);
    let (a1, b1) = (a.io.tell(store), b.io.tell(store));
    let num = ActionOf::SetVringNum { num: QSZ };
    lemma_call(a1, b1, num, "set_vring_num"@);
    let (a2, b2) = (a1.call(num, "set_vring_num"@).0, b1.call(num, "set_vring_num"@).0);
    let ca = ActionOf::SetVringAddr { config: model::ring_config(a.s.mem.base, DESC_OFF as int) };
    let cb = ActionOf::SetVringAddr { config: model::ring_config(b.s.mem.base, DESC_OFF as int) };
    lemma_call(a2, a2, ca, "set_vring_addr"@);
    lemma_call(a2, b2, cb, "set_vring_addr"@);
    let (a3, b3) = (a2.call(ca, "set_vring_addr"@).0, b2.call(cb, "set_vring_addr"@).0);
    lemma_call(a3, b3, ActionOf::SetVringBase { base }, "set_vring_base"@);
}

proof fn lemma_seeded(a: Line, b: Line, base: u16)
    ensures
        follows(a.io, model::seeded(a, base).io),
        follows(b.io, model::seeded(b, base).io),
        same_line(a, b) ==> same_line(model::seeded(a, base), model::seeded(b, base)),
{
    lemma_chain();
    let first = mem::store_le(crate::dev::AVAIL_OFF + 2, base as nat, 2);
    let second = mem::store_le(crate::dev::USED_OFF + 2, base as nat, 2);
    lemma_tell(a.io, b.io, first);
    lemma_tell(a.io.tell(first), b.io.tell(first), second);
}

proof fn lemma_enable_ring(a: Line, b: Line)
    ensures
        follows(a.io, model::enable_ring(a).0.io),
        follows(b.io, model::enable_ring(b).0.io),
        same_line(a, b) ==> agrees_on(model::enable_ring(a), model::enable_ring(b)),
{
    lemma_chain();
    lemma_call(a.io, b.io, ActionOf::SetVringKick, "set_vring_kick"@);
    let a1 = a.io.call(ActionOf::SetVringKick, "set_vring_kick"@).0;
    let b1 = b.io.call(ActionOf::SetVringKick, "set_vring_kick"@).0;
    lemma_call(a1, b1, ActionOf::SetVringCall, "set_vring_call"@);
    let a2 = a1.call(ActionOf::SetVringCall, "set_vring_call"@).0;
    let b2 = b1.call(ActionOf::SetVringCall, "set_vring_call"@).0;
    lemma_call(a2, b2, ActionOf::SetVringEnable { on: true }, "set_vring_enable"@);
}

proof fn lemma_setup_vring(a: Line, b: Line, base: u16)
    ensures
        follows(a.io, model::setup_vring(a, base).0.io),
        follows(b.io, model::setup_vring(b, base).0.io),
        same_line(a, b) ==> agrees_on(model::setup_vring(a, base), model::setup_vring(b, base)),
{
    lemma_chain();
    lemma_announce_ring(a, b, base);
    let (a1, b1) = (model::announce_ring(a, base).0, model::announce_ring(b, base).0);
    lemma_seeded(a1, b1, base);
    lemma_enable_ring(model::seeded(a1, base), model::seeded(b1, base));
}

proof fn lemma_connect(a: Talk, b: Talk, path: Seq<char>, ev: bool, mask: u64, base: u16)
    ensures
        follows(a, model::connect(a, path, ev, mask, base).0),
        follows(b, model::connect(b, path, ev, mask, base).0),
        extends(a, b) ==> agrees(
            model::connect(a, path, ev, mask, base),
            model::connect(b, path, ev, mask, base),
        ),
{
    lemma_chain();
    lemma_handshake(a, b, path, true, ev, mask);
    let (a1, ga) = model::handshake(a, path, true, ev, mask);
    let (b1, gb) = model::handshake(b, path, true, ev, mask);
    if let Got::Value(s) = ga {
        lemma_setup_vring(Line { s, io: a1 }, Line { s, io: a1 }, base);
    }
    if let Got::Value(s) = gb {
        lemma_setup_vring(Line { s, io: a1 }, Line { s, io: b1 }, base);
    }
}

proof fn lemma_wait_used(a: Line, b: Line, ms: u64)
    ensures
        follows(a.io, model::wait_used(a, ms).0.io),
        follows(b.io, model::wait_used(b, ms).0.io),
        same_line(a, b) ==> agrees_on(model::wait_used(a, ms), model::wait_used(b, ms)),
{
    lemma_chain();
    let index = (crate::dev::USED_OFF + 2) as usize;
    let (sa, sb) = (a.s.used_idx_seen, b.s.used_idx_seen);
    lemma_await_used(a.io, a.io, sa, index, model::used_elem_off(sa) as usize, ms);
    lemma_await_used(a.io, b.io, sb, index, model::used_elem_off(sb) as usize, ms);
}

proof fn lemma_submit(a: Line, b: Line, descs: Seq<Desc>, ms: u64)
    ensures
        follows(a.io, model::submit(a, descs, ms).0.io),
        follows(b.io, model::submit(b, descs, ms).0.io),
        same_line(a, b) ==> agrees_on(model::submit(a, descs, ms), model::submit(b, descs, ms)),
{
    lemma_chain();
    lemma_tell_all(a.io, a.io, model::post_stores(a.s, descs));
    lemma_tell_all(a.io, b.io, model::post_stores(b.s, descs));
    let (pa, pb) = (model::post(a, descs), model::post(b, descs));
    lemma_tell(pa.io, pb.io, ActionOf::Kick);
    lemma_wait_used(
        Line { s: pa.s, io: pa.io.tell(ActionOf::Kick) },
        Line { s: pb.s, io: pb.io.tell(ActionOf::Kick) },
        ms,
    );
}

proof fn lemma_submit_for_status(a: Line, b: Line, descs: Seq<Desc>, st: int)
    ensures
        follows(a.io, model::submit_for_status(a, descs, st).0.io),
        follows(b.io, model::submit_for_status(b, descs, st).0.io),
        same_line(a, b) ==> agrees_on(
            model::submit_for_status(a, descs, st),
            model::submit_for_status(b, descs, st),
        ),
{
    lemma_chain();
    lemma_submit(a, b, descs, TIMEOUT_MS);
    let (a1, b1) = (model::submit(a, descs, TIMEOUT_MS).0, model::submit(b, descs, TIMEOUT_MS).0);
    lemma_load(a1.io, b1.io, st as usize, 1);
}

proof fn lemma_submit_for_data(a: Line, b: Line, descs: Seq<Desc>, dbuf: int, len: int, st: int)
    ensures
        follows(a.io, model::submit_for_data(a, descs, dbuf, len, st).0.io),
        follows(b.io, model::submit_for_data(b, descs, dbuf, len, st).0.io),
        same_line(a, b) ==> agrees_on(
            model::submit_for_data(a, descs, dbuf, len, st),
            model::submit_for_data(b, descs, dbuf, len, st),
        ),
{
    lemma_chain();
    lemma_submit(a, b, descs, TIMEOUT_MS);
    let (a1, b1) = (model::submit(a, descs, TIMEOUT_MS).0, model::submit(b, descs, TIMEOUT_MS).0);
    lemma_load(a1.io, b1.io, dbuf as usize, len as usize);
    let a2 = a1.io.load(dbuf as usize, len as usize).0;
    let b2 = b1.io.load(dbuf as usize, len as usize).0;
    lemma_load(a2, b2, st as usize, 1);
}

proof fn lemma_blk_write(a: Line, b: Line, sector: u64, data: Seq<u8>)
    ensures
        follows(a.io, model::blk_write(a, sector, data).0.io),
        same_line(a, b) ==> follows(b.io, model::blk_write(b, sector, data).0.io),
        same_line(a, b) ==> agrees_on(
            model::blk_write(a, sector, data),
            model::blk_write(b, sector, data),
        ),
{
    lemma_chain();
    let len = data.len() as int;
    let (hdr, dbuf, st, s) = model::three(a.s, len);
    let head = model::header_stores(hdr, crate::dev::VIRTIO_BLK_T_OUT, sector);
    lemma_tell_all(a.io, b.io, head);
    let (a1, b1) = (a.io.tell_all(head), b.io.tell_all(head));
    lemma_tell(a1, b1, mem::store(dbuf, data));
    let (a2, b2) = (a1.tell(mem::store(dbuf, data)), b1.tell(mem::store(dbuf, data)));
    lemma_tell(a2, b2, model::poison(st));
    lemma_submit_for_status(
        Line { s, io: a2.tell(model::poison(st)) },
        Line { s, io: b2.tell(model::poison(st)) },
        seq![model::readable(hdr, 16), model::readable(dbuf, len), model::writable(st, 1)],
        st,
    );
}

proof fn lemma_blk_fetch(a: Line, b: Line, req_type: u32, sector: u64, len: int)
    ensures
        follows(a.io, model::blk_fetch(a, req_type, sector, len).0.io),
        same_line(a, b) ==> follows(b.io, model::blk_fetch(b, req_type, sector, len).0.io),
        same_line(a, b) ==> agrees_on(
            model::blk_fetch(a, req_type, sector, len),
            model::blk_fetch(b, req_type, sector, len),
        ),
{
    lemma_chain();
    let (hdr, dbuf, st, s) = model::three(a.s, len);
    let head = model::header_stores(hdr, req_type, sector);
    let zeroes = mem::store(dbuf, mem::repeated(0, len as nat));
    lemma_tell_all(a.io, b.io, head);
    let (a1, b1) = (a.io.tell_all(head), b.io.tell_all(head));
    lemma_tell(a1, b1, zeroes);
    let (a2, b2) = (a1.tell(zeroes), b1.tell(zeroes));
    lemma_tell(a2, b2, model::poison(st));
    lemma_submit_for_data(
        Line { s, io: a2.tell(model::poison(st)) },
        Line { s, io: b2.tell(model::poison(st)) },
        seq![model::readable(hdr, 16), model::writable(dbuf, len), model::writable(st, 1)],
        dbuf,
        len,
        st,
    );
}

proof fn lemma_blk_flush(a: Line, b: Line)
    ensures
        follows(a.io, model::blk_flush(a).0.io),
        same_line(a, b) ==> follows(b.io, model::blk_flush(b).0.io),
        same_line(a, b) ==> agrees_on(model::blk_flush(a), model::blk_flush(b)),
{
    lemma_chain();
    let s1 = model::allocated(a.s, 16);
    let (hdr, st) = (model::next_buffer(a.s), model::next_buffer(s1));
    let head = model::header_stores(hdr, crate::dev::VIRTIO_BLK_T_FLUSH, 0);
    lemma_tell_all(a.io, b.io, head);
    let (a1, b1) = (a.io.tell_all(head), b.io.tell_all(head));
    lemma_tell(a1, b1, model::poison(st));
    let s = model::allocated(s1, 1);
    lemma_submit_for_status(
        Line { s, io: a1.tell(model::poison(st)) },
        Line { s, io: b1.tell(model::poison(st)) },
        seq![model::readable(hdr, 16), model::writable(st, 1)],
        st,
    );
}

proof fn lemma_blk_zeroes_or_discard(
    a: Line,
    b: Line,
    req_type: u32,
    sector: u64,
    n: u32,
    unmap: bool,
)
    ensures
        follows(a.io, model::blk_zeroes_or_discard(a, req_type, sector, n, unmap).0.io),
        same_line(a, b) ==> follows(
            b.io,
            model::blk_zeroes_or_discard(b, req_type, sector, n, unmap).0.io,
        ),
        same_line(a, b) ==> agrees_on(
            model::blk_zeroes_or_discard(a, req_type, sector, n, unmap),
            model::blk_zeroes_or_discard(b, req_type, sector, n, unmap),
        ),
{
    lemma_chain();
    let (hdr, payload, st, s) = model::three(a.s, 16);
    let head = model::header_stores(hdr, req_type, 0);
    let segment = model::segment_stores(payload, sector, n, unmap);
    lemma_tell_all(a.io, b.io, head);
    let (a1, b1) = (a.io.tell_all(head), b.io.tell_all(head));
    lemma_tell_all(a1, b1, segment);
    let (a2, b2) = (a1.tell_all(segment), b1.tell_all(segment));
    lemma_tell(a2, b2, model::poison(st));
    lemma_submit_for_status(
        Line { s, io: a2.tell(model::poison(st)) },
        Line { s, io: b2.tell(model::poison(st)) },
        seq![model::readable(hdr, 16), model::readable(payload, 16), model::writable(st, 1)],
        st,
    );
}

proof fn lemma_loaded(a: Bench, b: Bench, i: int, len: usize)
    requires
        a.stage is Live,
        repeated_by(a, b),
    ensures
        follows(a.io, a.loaded(i, len).io),
        repeated_by(a.loaded(i, len), b.loaded(i, len)),
{
    lemma_chain();
    lemma_load(a.io, b.io, a.buf(i) as usize, len);
}

proof fn lemma_status_in(a: Bench, b: Bench, i: int)
    requires
        a.stage is Live,
        repeated_by(a, b),
    ensures
        follows(a.io, a.status_in(i).io),
        repeated_by(a.status_in(i), b.status_in(i)),
{
    lemma_chain();
    lemma_load(a.io, b.io, a.buf(i) as usize, 1);
}

proof fn lemma_awaited(a: Bench, b: Bench, text: Seq<char>)
    requires
        a.stage is Live,
        repeated_by(a, b),
    ensures
        follows(a.io, a.awaited(text).io),
        repeated_by(a.awaited(text), b.awaited(text)),
{
    lemma_wait_used(a.line(), b.line(), TIMEOUT_MS);
}

proof fn lemma_reading(a: Bench, b: Bench, tag: Option<Seq<char>>, at: Sector, len: usize)
    requires
        a.stage is Live,
        repeated_by(a, b),
    ensures
        follows(a.io, a.reading(tag, at, len).io),
        repeated_by(a.reading(tag, at, len), b.reading(tag, at, len)),
{
    lemma_chain();
    lemma_blk_fetch(
        a.line(),
        b.line(),
        crate::dev::VIRTIO_BLK_T_IN,
        a.sector(at),
        len as int,
    );
}

/// Steps that open a session.
spec fn is_opening(s: Step) -> bool {
    match s {
        Step::Connect { .. } => true,
        Step::Handshake { .. } => true,
        _ => false,
    }
}

proof fn lemma_opening(a: Bench, b: Bench, s: Step)
    requires
        a.stage is Live,
        repeated_by(a, b),
        is_opening(s),
    ensures
        follows(a.io, bench::taken(a, s).io),
        repeated_by(bench::taken(a, s), bench::taken(b, s)),
{
    lemma_chain();
    match s {
        Step::Connect { path, mask_out, base } => {
            lemma_connect(a.io, b.io, path, false, mask_out, base);
        },
        Step::Handshake { path, do_mem_table } => {
            lemma_handshake(a.io, b.io, path, do_mem_table, false, 0);
        },
        _ => {},
    }
}

proof fn lemma_writing(a: Bench, b: Bench, at: Sector, data: Seq<u8>)
    requires
        a.stage is Live,
        repeated_by(a, b),
    ensures
        follows(a.io, bench::taken(a, Step::Write { at, data }).io),
        repeated_by(
            bench::taken(a, Step::Write { at, data }),
            bench::taken(b, Step::Write { at, data }),
        ),
{
    lemma_chain();
    lemma_blk_write(a.line(), b.line(), a.sector(at), data);
}

proof fn lemma_flushing(a: Bench, b: Bench)
    requires
        a.stage is Live,
        repeated_by(a, b),
    ensures
        follows(a.io, bench::taken(a, Step::Flush).io),
        repeated_by(bench::taken(a, Step::Flush), bench::taken(b, Step::Flush)),
{
    lemma_chain();
    lemma_blk_flush(a.line(), b.line());
}

proof fn lemma_identifying(a: Bench, b: Bench)
    requires
        a.stage is Live,
        repeated_by(a, b),
    ensures
        follows(a.io, bench::taken(a, Step::GetId).io),
        repeated_by(bench::taken(a, Step::GetId), bench::taken(b, Step::GetId)),
{
    lemma_chain();
    lemma_blk_fetch(a.line(), b.line(), crate::dev::VIRTIO_BLK_T_GET_ID, 0, 20);
}

proof fn lemma_ranging(a: Bench, b: Bench, req_type: u32, at: Sector, num_sectors: u32, unmap: bool)
    requires
        a.stage is Live,
        repeated_by(a, b),
    ensures
        follows(a.io, bench::taken(a, Step::Range { req_type, at, num_sectors, unmap }).io),
        repeated_by(
            bench::taken(a, Step::Range { req_type, at, num_sectors, unmap }),
            bench::taken(b, Step::Range { req_type, at, num_sectors, unmap }),
        ),
{
    lemma_chain();
    lemma_blk_zeroes_or_discard(
        a.line(),
        b.line(),
        req_type,
        a.sector(at),
        num_sectors,
        unmap,
    );
}

proof fn lemma_submitting(a: Bench, b: Bench, chain: Seq<Seg>)
    requires
        a.stage is Live,
        repeated_by(a, b),
    ensures
        follows(a.io, bench::taken(a, Step::Submit { chain }).io),
        repeated_by(
            bench::taken(a, Step::Submit { chain }),
            bench::taken(b, Step::Submit { chain }),
        ),
{
    lemma_chain();
    assert(a.descs(chain) =~= b.descs(chain));
    lemma_submit(a.line(), b.line(), a.descs(chain), TIMEOUT_MS);
}

/// Steps that make a request.
spec fn is_requesting(s: Step) -> bool {
    match s {
        Step::Write { .. } => true,
        Step::Read { .. } => true,
        Step::ReadIn { .. } => true,
        Step::Flush => true,
        Step::GetId => true,
        Step::Range { .. } => true,
        Step::Submit { .. } => true,
        _ => false,
    }
}

proof fn lemma_requesting(a: Bench, b: Bench, s: Step)
    requires
        a.stage is Live,
        repeated_by(a, b),
        is_requesting(s),
    ensures
        follows(a.io, bench::taken(a, s).io),
        repeated_by(bench::taken(a, s), bench::taken(b, s)),
{
    lemma_chain();
    match s {
        Step::Write { at, data } => {
            lemma_writing(a, b, at, data);
        },
        Step::Read { at, len } => {
            lemma_reading(a, b, None, at, len);
        },
        Step::ReadIn { tag, at, len } => {
            lemma_reading(a, b, Some(tag), at, len);
        },
        Step::Flush => {
            lemma_flushing(a, b);
        },
        Step::GetId => {
            lemma_identifying(a, b);
        },
        Step::Range { req_type, at, num_sectors, unmap } => {
            lemma_ranging(a, b, req_type, at, num_sectors, unmap);
        },
        Step::Submit { chain } => {
            lemma_submitting(a, b, chain);
        },
        _ => {},
    }
}

/// Steps that wait for the device, or look at what it left.
spec fn is_waiting(s: Step) -> bool {
    match s {
        Step::Await { .. } => true,
        Step::IgnoreUsed { .. } => true,
        Step::Silence { .. } => true,
        Step::Complete { .. } => true,
        Step::Written { .. } => true,
        Step::Fetched { .. } => true,
        Step::Status { .. } => true,
        Step::Load { .. } => true,
        Step::Signal { .. } => true,
        _ => false,
    }
}

proof fn lemma_waiting(a: Bench, b: Bench, s: Step)
    requires
        a.stage is Live,
        repeated_by(a, b),
        is_waiting(s),
    ensures
        follows(a.io, bench::taken(a, s).io),
        repeated_by(bench::taken(a, s), bench::taken(b, s)),
{
    lemma_chain();
    match s {
        Step::Await { text } => {
            lemma_awaited(a, b, text);
        },
        Step::IgnoreUsed { timeout_ms } => {
            lemma_wait_used(a.line(), b.line(), timeout_ms);
        },
        Step::Silence { timeout_ms, .. } => {
            lemma_wait_used(a.line(), b.line(), timeout_ms);
        },
        Step::Complete { done, of, before, after } => {
            lemma_awaited(
                a,
                b,
                before + crate::text::decimal(done) + "/"@ + crate::text::decimal(of) + after,
            );
        },
        Step::Written { .. } => {
            lemma_status_in(a, b, a.number as int * 3 + 2);
        },
        Step::Fetched { .. } => {
            lemma_loaded(a, b, a.number as int * 3 + 1, crate::dev::SECTOR);
        },
        Step::Status { buf } => {
            lemma_status_in(a, b, buf as int);
        },
        Step::Load { buf, len } => {
            lemma_loaded(a, b, buf as int, len);
        },
        Step::Signal { timeout_ms, .. } => {
            lemma_await_call(a.io, b.io, timeout_ms);
        },
        _ => {},
    }
}

/// Steps that send a message.
spec fn is_sending(s: Step) -> bool {
    match s {
        Step::Call { .. } => true,
        Step::Try { .. } => true,
        Step::TryRingAt { .. } => true,
        Step::TrySetup => true,
        Step::Base => true,
        Step::Features { .. } => true,
        Step::Config { .. } => true,
        _ => false,
    }
}

proof fn lemma_sending(a: Bench, b: Bench, s: Step)
    requires
        a.stage is Live,
        repeated_by(a, b),
        is_sending(s),
    ensures
        follows(a.io, bench::taken(a, s).io),
        repeated_by(bench::taken(a, s), bench::taken(b, s)),
{
    lemma_chain();
    match s {
        Step::Call { act, label } => {
            lemma_call(a.io, b.io, act, label);
        },
        Step::Try { act } => {
            lemma_attempt(a.io, b.io, act);
        },
        Step::TryRingAt { desc_off } => {
            let config = model::ring_config(a.s.mem.base, desc_off as int);
            lemma_attempt(a.io, b.io, ActionOf::SetVringAddr { config });
        },
        Step::TrySetup => {
            lemma_setup_vring(a.line(), b.line(), 0);
        },
        Step::Base => {
            lemma_query(a.io, b.io, ActionOf::GetVringBase, "get_vring_base"@);
        },
        Step::Features { label } => {
            lemma_query(a.io, b.io, ActionOf::GetFeatures, label);
        },
        Step::Config { size, label } => {
            lemma_config_or(a.io, b.io, 0, size, label);
        },
        _ => {},
    }
}

proof fn lemma_taken(a: Bench, b: Bench, s: Step)
    requires
        a.stage is Live,
        repeated_by(a, b),
    ensures
        follows(a.io, bench::taken(a, s).io),
        repeated_by(bench::taken(a, s), bench::taken(b, s)),
{
    if is_opening(s) {
        lemma_opening(a, b, s);
    } else if is_requesting(s) {
        lemma_requesting(a, b, s);
    } else if is_waiting(s) {
        lemma_waiting(a, b, s);
    } else if is_sending(s) {
        lemma_sending(a, b, s);
    } else {
        lemma_telling(a, b, s);
    }
}

/// Steps that tell the outside something, or look at what they have.
proof fn lemma_telling(a: Bench, b: Bench, s: Step)
    requires
        a.stage is Live,
        repeated_by(a, b),
        !is_opening(s) && !is_requesting(s) && !is_waiting(s) && !is_sending(s),
    ensures
        follows(a.io, bench::taken(a, s).io),
        repeated_by(bench::taken(a, s), bench::taken(b, s)),
{
    lemma_chain();
    match s {
        Step::Close => {
            lemma_tell(a.io, b.io, ActionOf::Close);
        },
        Step::Cooldown => {
            lemma_tell(a.io, b.io, ActionOf::Sleep { ms: a.io.delay_ms });
        },
        Step::Header { buf, req_type, at } => {
            lemma_tell_all(
                a.io,
                b.io,
                model::header_stores(a.buf(buf as int), req_type, a.sector(at)),
            );
        },
        Step::Put { buf, at, data } => {
            lemma_tell(a.io, b.io, mem::store(a.buf(buf as int) + at, data));
        },
        Step::Zero { buf, len } => {
            lemma_tell(
                a.io,
                b.io,
                mem::store(a.buf(buf as int), mem::repeated(0, len as nat)),
            );
        },
        Step::RawDesc { idx, addr, len, flags, next } => {
            lemma_tell_all(
                a.io,
                b.io,
                model::entry(
                    DESC_OFF + idx % QSZ * 16,
                    a.place(addr) as nat,
                    len,
                    flags,
                    next as nat,
                ),
            );
        },
        Step::TableEntry { buf, addr, len, flags, next } => {
            lemma_tell_all(
                a.io,
                b.io,
                model::entry(a.buf(buf as int), a.place(addr) as nat, len, flags, next as nat),
            );
        },
        Step::PushAvail { head } => {
            lemma_tell_all(a.io, b.io, model::publish(a.s.avail_idx, head as nat));
        },
        Step::Post { chain } => {
            assert(a.descs(chain) =~= b.descs(chain));
            lemma_tell_all(a.io, b.io, model::post_stores(a.s, a.descs(chain)));
        },
        Step::PostIndirect { chain, table } => {
            assert(a.descs(chain) =~= b.descs(chain));
            lemma_tell_all(
                a.io,
                b.io,
                model::indirect_stores(a.s, a.descs(chain), a.buf(table as int)),
            );
        },
        Step::Kick => {
            lemma_tell(a.io, b.io, ActionOf::Kick);
        },
        Step::AvailFlags { flags } => {
            lemma_tell(
                a.io,
                b.io,
                mem::store_le(crate::dev::AVAIL_OFF as int, flags as nat, 2),
            );
        },
        Step::DrainCall => {
            lemma_tell(a.io, b.io, ActionOf::DrainCall);
        },
        _ => {},
    }
}

proof fn lemma_step_follows(b: Bench, s: Step)
    ensures
        follows(b.io, bench::step(b, s).io),
{
    reveal(bench::step);
    lemma_chain();
    lemma_starts_self(b.io.replies);
    if b.stage is Live {
        lemma_taken(b, b, s);
    }
}

proof fn lemma_step(a: Bench, b: Bench, s: Step)
    requires
        repeated_by(a, b),
    ensures
        repeated_by(bench::step(a, s), bench::step(b, s)),
{
    reveal(bench::step);
    lemma_chain();
    if a.stage is Waiting {
        lemma_step_follows(b, s);
    } else if a.stage is Live {
        lemma_taken(a, b, s);
    }
}

proof fn lemma_run_to(a: Bench, b: Bench, steps: Seq<Step>, k: nat)
    requires
        repeated_by(a, b),
    ensures
        repeated_by(bench::run_to(a, steps, k), bench::run_to(b, steps, k)),
    decreases k,
{
    if k > 0 {
        lemma_run_to(a, b, steps, (k - 1) as nat);
        lemma_step(
            bench::run_to(a, steps, (k - 1) as nat),
            bench::run_to(b, steps, (k - 1) as nat),
            steps[k - 1],
        );
    }
}

pub proof fn lemma_run_follows(b: Bench, steps: Seq<Step>, k: nat)
    ensures
        follows(b.io, bench::run_to(b, steps, k).io),
    decreases k,
{
    lemma_chain();
    if k > 0 {
        lemma_run_follows(b, steps, (k - 1) as nat);
        lemma_step_follows(bench::run_to(b, steps, (k - 1) as nat), steps[k - 1]);
    }
}

/// A conversation before its first action.
pub open spec fn opening(delay_ms: u64, replies: Seq<crate::link::Rep>) -> Talk {
    Talk { delay_ms, replies, next: 0, log: Seq::empty() }
}

/// A scenario that is run again with more answers repeats its earlier run. Where that
/// waited, the actions that it had taken come first again, in the same order. Where it
/// had come to an end, the new run comes to the same end with the same actions.
pub proof fn rerun_repeats(
    case: Case,
    sock: Seq<char>,
    delay_ms: u64,
    few: Seq<crate::link::Rep>,
    many: Seq<crate::link::Rep>,
)
    requires
        starts(few, many),
    ensures
        ({
            let script = registry::script(case, sock);
            let a = bench::run(bench::set_out(opening(delay_ms, few)), script);
            let b = bench::run(bench::set_out(opening(delay_ms, many)), script);
            if a.stage is Waiting {
                starts(a.io.log, b.io.log)
            } else {
                b == (Bench { io: Talk { replies: many, ..a.io }, ..a })
            }
        }),
{
    let script = registry::script(case, sock);
    let a = bench::set_out(opening(delay_ms, few));
    let b = bench::set_out(opening(delay_ms, many));
    lemma_run_to(a, b, script, script.len());
    lemma_run_follows(b, script, script.len());
    lemma_run_follows(a, script, script.len());
}

/// A step only ever adds actions: what a scenario has done stays done.
pub proof fn actions_are_kept(b: Bench, steps: Seq<Step>)
    ensures
        starts(b.io.log, bench::run(b, steps).io.log),
{
    lemma_run_follows(b, steps, steps.len());
}

} // verus!
