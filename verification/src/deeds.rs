//! What a step that went well did, in terms of actions and answers.

use vstd::prelude::*;

use crate::account;
use crate::bench;
use crate::bench::{Accept, Bench, Step, Wanted};
use crate::dev::Session;
use crate::laws;
use crate::link::{Act, ActionOf, ReplyOf};
use crate::mem;
use crate::model;
use crate::model::Line;
use crate::verdicts;

verus! {

/// Nothing but the conversation went on.
pub open spec fn only_spoke(b: Bench, c: Bench) -> bool {
    c == (Bench { io: c.io, ..b })
}

/// The status is one of those that are right.
pub open spec fn right_status(accept: Accept, status: u8) -> bool {
    match accept {
        Accept::Only(v) => status == v,
        Accept::NotOk => status != 0,
        Accept::Known => status == 0 || status == 1 || status == 2,
        Accept::Served => status == 0 || status == 1,
        Accept::Refusal => status == 1 || status == 2,
    }
}

/// The session has what is wanted.
pub open spec fn has(s: Session, what: Wanted) -> bool {
    match what {
        Wanted::Feature(bit) => s.acked & bit != 0,
        Wanted::Offered(bit) => s.offered & bit != 0,
        Wanted::Protocol(bits) => s.proto & bits == bits,
        Wanted::Capacity => s.capacity_sectors != 0,
    }
}

/// What came between `b` and `c`, where the step led from one to the other and went well.
pub open spec fn did(b: Bench, s: Step, c: Bench) -> bool {
    match s {
        Step::Connect { path, mask_out, base } => {
            &&& account::opened(b.line(), c.line(), path, mask_out, base)
            &&& c == (Bench {
                s: c.s,
                io: c.io,
                bufs: Seq::empty(),
                heads: Seq::empty(),
                reported: Seq::empty(),
                ..b
            })
        },
        Step::Handshake { path, do_mem_table } => {
            &&& account::greeted(b.line(), c.line(), path, do_mem_table)
            &&& c == (Bench {
                s: c.s,
                io: c.io,
                bufs: Seq::empty(),
                heads: Seq::empty(),
                reported: Seq::empty(),
                ..b
            })
        },
        Step::Close => only_spoke(b, c) && account::closed(b.line(), c.line()),
        Step::Cooldown => only_spoke(b, c) && account::paused(b.line(), c.line()),
        Step::Need { sectors } => c == b && b.s.capacity_sectors >= 2048 + sectors + 8,
        Step::Beyond { sectors } => c == b && b.s.capacity_sectors + sectors <= u64::MAX,
        Step::Require { what, .. } => c == b && has(b.s, what),
        Step::Write { at, data } => {
            &&& account::wrote(b.line(), c.line(), b.sector(at) as int, data, c.status)
            &&& c == (Bench { s: c.s, io: c.io, status: c.status, ..b })
        },
        Step::Read { at, len } => {
            &&& account::read(b.line(), c.line(), b.sector(at) as int, c.data, c.status)
            &&& c.data.len() == len && account::bytes_of(b.io, 1) == c.data
            &&& c == (Bench { s: c.s, io: c.io, status: c.status, data: c.data, ..b })
        },
        Step::ReadIn { at, len, .. } => {
            &&& account::read(b.line(), c.line(), b.sector(at) as int, c.data, c.status)
            &&& c.data.len() == len && account::bytes_of(b.io, 1) == c.data
            &&& c == (Bench { s: c.s, io: c.io, status: c.status, data: c.data, ..b })
        },
        Step::Flush => {
            &&& account::flushed(b.line(), c.line(), c.status)
            &&& c == (Bench { s: c.s, io: c.io, status: c.status, ..b })
        },
        Step::GetId => {
            &&& account::identified(b.line(), c.line(), c.data, c.status)
            &&& c.data.len() == 20 && account::bytes_of(b.io, 1) == c.data
            &&& c == (Bench { s: c.s, io: c.io, status: c.status, data: c.data, ..b })
        },
        Step::Range { req_type, at, num_sectors, unmap } => {
            &&& account::ranged(
                b.line(),
                c.line(),
                req_type,
                b.sector(at) as int,
                num_sectors,
                unmap,
                c.status,
            )
            &&& c == (Bench { s: c.s, io: c.io, status: c.status, ..b })
        },
        Step::ExpectOk { .. } => c == b && b.status == 0,
        Step::Same { want, .. } => c == b && b.data == want,
        Step::AllZero { .. } => c == b && b.data == mem::repeated(0, b.data.len()),
        Step::Untouched { from, .. } => c == b && forall|i: int|
            from <= i < b.data.len() ==> #[trigger] b.data[i] == 0xff,
        Step::CheckStatus { accept, .. } => c == b && right_status(accept, b.status),
        Step::Length { want, .. } => c == b && b.data.len() == want,
        Step::Alloc { len } => c == (Bench {
            s: model::allocated(b.s, len as int),
            bufs: b.bufs.push(model::next_buffer(b.s) as usize),
            ..b
        }) && model::has_room(b.s, len as int),
        Step::Header { buf, req_type, at } => only_spoke(b, c) && account::spoke(
            b.io,
            c.io,
            model::header_stores(b.buf(buf as int), req_type, b.sector(at)),
            0,
        ),
        Step::Put { buf, at, data } => only_spoke(b, c) && account::spoke(
            b.io,
            c.io,
            seq![mem::store(b.buf(buf as int) + at, data)],
            0,
        ),
        Step::Zero { buf, len } => only_spoke(b, c) && account::spoke(
            b.io,
            c.io,
            seq![mem::store(b.buf(buf as int), mem::repeated(0, len as nat))],
            0,
        ),
        Step::RawDesc { idx, addr, len, flags, next } => only_spoke(b, c) && account::spoke(
            b.io,
            c.io,
            model::entry(
                0x1000 + idx % 256 * 16,
                b.place(addr) as nat,
                len,
                flags,
                next as nat,
            ),
            0,
        ),
        Step::TableEntry { buf, addr, len, flags, next } => only_spoke(b, c) && account::spoke(
            b.io,
            c.io,
            model::entry(b.buf(buf as int), b.place(addr) as nat, len, flags, next as nat),
            0,
        ),
        Step::PushAvail { head } => {
            &&& account::spoke(b.io, c.io, model::publish(b.s.avail_idx, head as nat), 0)
            &&& c == (Bench { s: c.s, io: c.io, ..b })
            &&& c.s == (Session { avail_idx: model::next_index(b.s.avail_idx), ..b.s })
        },
        Step::Post { chain } => {
            &&& account::spoke(b.io, c.io, model::post_stores(b.s, b.descs(chain)), 0)
            &&& c == (Bench { s: c.s, io: c.io, heads: b.heads.push(b.s.next_desc), ..b })
            &&& c.s == model::posted(b.s, chain.len())
        },
        Step::PostIndirect { chain, table } => {
            &&& account::spoke(
                b.io,
                c.io,
                model::indirect_stores(b.s, b.descs(chain), b.buf(table as int)),
                0,
            )
            &&& c == (Bench { s: c.s, io: c.io, heads: b.heads.push(b.s.next_desc), ..b })
            &&& c.s == model::posted(b.s, 1)
        },
        Step::Kick => only_spoke(b, c) && account::spoke(b.io, c.io, seq![ActionOf::Kick], 0),
        Step::Submit { chain } => {
            &&& account::exchanged(
                b.line(),
                c.line(),
                Seq::empty(),
                b.descs(chain),
                Seq::empty(),
            )
            &&& c.used.len == account::written_by_device(b.io, 0)
            &&& c.s.next_data == b.s.next_data
            &&& c == (Bench { s: c.s, io: c.io, used: c.used, ..b })
        },
        Step::Await { .. } => awaited(b, c),
        Step::Complete { .. } => awaited(b, c),
        Step::IgnoreUsed { timeout_ms } => {
            &&& account::spoke(b.io, c.io, seq![account::wait_for(b.s, timeout_ms)], 1)
            &&& c == (Bench { s: c.s, io: c.io, ..b })
        },
        Step::Silence { timeout_ms, .. } => {
            &&& only_spoke(b, c)
            &&& account::spoke(b.io, c.io, seq![account::wait_for(b.s, timeout_ms)], 1)
            &&& account::answered(b.io, 0, ReplyOf::TimedOut)
        },
        Step::CheckHead { .. } => c == b && b.heads.len() > 0 && b.used.id == b.heads.last(),
        Step::Find => {
            &&& c.number < b.heads.len()
            &&& b.heads[c.number as int] == b.used.id
            &&& !b.reported.contains(b.used.id)
            &&& c == (Bench {
                number: c.number,
                reported: b.reported.push(b.used.id),
                ..b
            })
        },
        Step::Written { .. } => {
            &&& account::spoke(b.io, c.io, seq![account::look(b.buf(b.number * 3 + 2), 1)], 1)
            &&& account::brought(b.io, 0, seq![0u8])
            &&& c == (Bench { io: c.io, status: c.status, ..b })
        },
        Step::Fetched { seed, .. } => {
            &&& account::spoke(b.io, c.io, seq![account::look(b.buf(b.number * 3 + 1), 512)], 1)
            &&& account::brought(
                b.io,
                0,
                crate::checks::pattern(((seed + b.number) % 256) as u8, 512),
            )
            &&& c == (Bench { io: c.io, data: c.data, ..b })
        },
        Step::UsedLenOfRead { len } => c == b && b.used.len == (len + 1) % 0x1_0000_0000,
        Step::UsedLenOfWrite => c == b && b.used.len == 1,
        Step::Status { buf } => {
            &&& account::spoke(b.io, c.io, seq![account::look(b.buf(buf as int), 1)], 1)
            &&& account::brought(b.io, 0, seq![c.status])
            &&& c == (Bench { io: c.io, status: c.status, ..b })
        },
        Step::Load { buf, len } => {
            &&& account::spoke(b.io, c.io, seq![account::look(b.buf(buf as int), len as nat)], 1)
            &&& account::brought(b.io, 0, c.data)
            &&& c.data.len() == len
            &&& c == (Bench { io: c.io, data: c.data, ..b })
        },
        Step::AvailFlags { flags } => only_spoke(b, c) && account::spoke(
            b.io,
            c.io,
            seq![mem::store_le(0x2000, flags as nat, 2)],
            0,
        ),
        Step::DrainCall => only_spoke(b, c) && account::spoke(
            b.io,
            c.io,
            seq![ActionOf::DrainCall],
            0,
        ),
        Step::Signal { timeout_ms, want, .. } => {
            &&& only_spoke(b, c)
            &&& account::spoke(b.io, c.io, seq![ActionOf::WaitCall { timeout_ms }], 1)
            &&& account::answered(b.io, 0, ReplyOf::Flag(want))
        },
        Step::Call { act, .. } => {
            &&& only_spoke(b, c)
            &&& account::spoke(b.io, c.io, seq![act], 1)
            &&& account::answered(b.io, 0, ReplyOf::Done)
        },
        Step::Try { act } => only_spoke(b, c) && account::spoke(b.io, c.io, seq![act], 1),
        Step::TryRingAt { desc_off } => only_spoke(b, c) && account::spoke(
            b.io,
            c.io,
            seq![
                ActionOf::SetVringAddr {
                    config: model::ring_config(b.s.mem.base, desc_off as int),
                },
            ],
            1,
        ),
        Step::TrySetup => {
            &&& c == (Bench { io: c.io, ..b })
            &&& (exists|n: int|
                0 < n <= laws::ring_messages(b.s, 0).len() && c.io.log == b.io.log
                    + #[trigger] laws::ring_messages(b.s, 0).take(n))
        },
        Step::Base => {
            &&& account::spoke(b.io, c.io, seq![ActionOf::GetVringBase], 1)
            &&& account::answered(b.io, 0, ReplyOf::Number(c.number))
            &&& c == (Bench { io: c.io, number: c.number, ..b })
        },
        Step::Features { .. } => {
            &&& account::spoke(b.io, c.io, seq![ActionOf::GetFeatures], 1)
            &&& account::answered(b.io, 0, ReplyOf::Number(c.number))
            &&& c == (Bench { io: c.io, number: c.number, ..b })
        },
        Step::Config { size, .. } => {
            &&& account::spoke(b.io, c.io, seq![ActionOf::GetConfig { offset: 0, size }], 1)
            &&& account::brought(b.io, 0, c.data)
            &&& c == (Bench { io: c.io, data: c.data, ..b })
        },
        Step::Keep => c == (Bench { kept_data: b.data, kept_number: b.number, ..b }),
        Step::CheckNumber { want, .. } => c == b && b.number == want,
        Step::CheckStable => c == b && b.number == b.kept_number,
        Step::CheckConfig => {
            &&& c == b
            &&& b.data.len() >= 8
            &&& b.kept_data.len() >= 8
            &&& b.data.take(8) == b.kept_data.take(8)
        },
        Step::BlkSizeSane => c == b && b.s.config_blk_size >= 512 && b.s.config_blk_size & (
        (b.s.config_blk_size - 1) as u32) == 0,
    }
}

/// A completion came within five seconds.
pub open spec fn awaited(b: Bench, c: Bench) -> bool {
    &&& account::spoke(b.io, c.io, seq![account::wait_for(b.s, 5000)], 1)
    &&& account::completed(b.io, 0, c.used.id as int)
    &&& c == (Bench { s: c.s, io: c.io, used: c.used, ..b })
    &&& c.s == (Session {
        used_idx_seen: ((b.s.used_idx_seen + 1) % 0x1_0000) as u16,
        ..b.s
    })
}

spec fn is_session(s: Step) -> bool {
    s is Connect || s is Handshake || s is TrySetup
}

spec fn is_request(s: Step) -> bool {
    s is Write || s is Read || s is ReadIn || s is Flush || s is GetId || s is Range || s is Submit
}

spec fn is_check(s: Step) -> bool {
    verdicts::only_checks(s) || s is Need || s is Require || s is Find
}

spec fn is_wait(s: Step) -> bool {
    s is Await || s is Complete || s is IgnoreUsed || s is Silence || s is Written || s is Fetched
        || s is Status || s is Load
}

proof fn lemma_session(b: Bench, s: Step)
    requires
        b.stage is Live,
        is_session(s),
        bench::taken(b, s).stage is Live,
    ensures
        did(b, s, bench::taken(b, s)),
        bench::taken(b, s).s.next_desc < 256 || bench::taken(b, s).s.next_desc == b.s.next_desc,
{
    let c = bench::taken(b, s);
    match s {
        Step::Connect { path, mask_out, base } => {
            account::lemma_opened(b.line(), path, mask_out, base);
        },
        Step::Handshake { path, do_mem_table } => {
            account::lemma_greeted(b.line(), path, do_mem_table);
        },
        Step::TrySetup => {
            lemma_try_setup(b);
        },
        _ => {},
    }
}

proof fn lemma_enabling(l: Line)
    ensures
        ({
            let (b, g) = model::enable_ring(l);
            let acts = seq![ActionOf::SetVringKick, ActionOf::SetVringCall] + (if l.s.acked
                & 0x4000_0000 != 0 {
                seq![ActionOf::SetVringEnable { on: true }]
            } else {
                Seq::empty()
            });
            &&& b.s == l.s
            &&& b.io.log == l.io.log + acts.take(1) || b.io.log == l.io.log + acts.take(2)
                || b.io.log == l.io.log + acts
        }),
{
    let (b, g) = model::enable_ring(l);
    let acts = seq![ActionOf::SetVringKick, ActionOf::SetVringCall] + (if l.s.acked
        & 0x4000_0000 != 0 {
        seq![ActionOf::SetVringEnable { on: true }]
    } else {
        Seq::empty()
    });
    let t1 = l.io.call(ActionOf::SetVringKick, "set_vring_kick"@);
    assert(t1.0.log =~= l.io.log + acts.take(1));
    let t2 = t1.0.call(ActionOf::SetVringCall, "set_vring_call"@);
    assert(t2.0.log =~= l.io.log + acts.take(2));
    if l.s.acked & 0x4000_0000 != 0 {
        let t3 = t2.0.call(ActionOf::SetVringEnable { on: true }, "set_vring_enable"@);
        assert(t3.0.log =~= l.io.log + acts);
    } else {
        assert(acts =~= acts.take(2));
    }
}

proof fn lemma_announcing(l: Line)
    ensures
        ({
            let (b, g) = model::announce_ring(l, 0);
            let acts = laws::ring_messages(l.s, 0);
            &&& b.s == l.s
            &&& g is Value ==> b.io.log == l.io.log + acts.take(4)
            &&& b.io.log == l.io.log + acts.take(2) || b.io.log == l.io.log + acts.take(3)
                || b.io.log == l.io.log + acts.take(4)
        }),
{
    let acts = laws::ring_messages(l.s, 0);
    let (b, g) = model::announce_ring(l, 0);
    let n = b.io.log.len() - l.io.log.len();
    assert(b.io.log =~= l.io.log + acts.take(n));
}

proof fn lemma_joined(log: Seq<Act>, acts: Seq<Act>, n: int, k: int)
    requires
        0 <= n <= n + k <= acts.len(),
    ensures
        log + acts.take(n) + acts.skip(n).take(k) == log + acts.take(n + k),
{
    assert(log + acts.take(n) + acts.skip(n).take(k) =~= log + acts.take(n + k));
}

proof fn lemma_ring_messages(s: Session)
    ensures
        laws::ring_messages(s, 0).len() == if s.acked & 0x4000_0000 != 0 {
            7
        } else {
            6int
        },
        laws::ring_messages(s, 0).skip(4) == seq![
            ActionOf::<Seq<char>, Seq<u8>>::SetVringKick,
            ActionOf::SetVringCall,
        ] + (if s.acked & 0x4000_0000 != 0 {
            seq![ActionOf::SetVringEnable { on: true }]
        } else {
            Seq::empty()
        }),
{
    let acts = laws::ring_messages(s, 0);
    assert(acts.skip(4) =~= seq![
        ActionOf::<Seq<char>, Seq<u8>>::SetVringKick,
        ActionOf::SetVringCall,
    ] + (if s.acked & 0x4000_0000 != 0 {
        seq![ActionOf::SetVringEnable { on: true }]
    } else {
        Seq::empty()
    }));
}

/// However far the set-up of a ring got, its messages came in order.
proof fn lemma_set_up_part(l: Line) -> (n: int)
    ensures
        0 < n <= laws::ring_messages(l.s, 0).len(),
        model::setup_vring(l, 0).0.io.log == l.io.log + laws::ring_messages(l.s, 0).take(n),
        model::setup_vring(l, 0).0.s == l.s,
{
    let acts = laws::ring_messages(l.s, 0);
    let (l1, g) = model::announce_ring(l, 0);
    lemma_announcing(l);
    lemma_ring_messages(l.s);
    if g is Value {
        lemma_enabling(l1);
        let tail = acts.skip(4);
        let done = model::enable_ring(l1).0.io.log;
        lemma_joined(l.io.log, acts, 4, 1);
        lemma_joined(l.io.log, acts, 4, 2);
        lemma_joined(l.io.log, acts, 4, tail.len() as int);
        assert(tail.take(tail.len() as int) =~= tail);
        if done == l1.io.log + tail.take(1) {
            5
        } else if done == l1.io.log + tail.take(2) {
            6
        } else {
            4 + tail.len() as int
        }
    } else if l1.io.log == l.io.log + acts.take(2) {
        2
    } else if l1.io.log == l.io.log + acts.take(3) {
        3
    } else {
        4
    }
}

proof fn lemma_try_setup(b: Bench)
    requires
        b.stage is Live,
        bench::taken(b, Step::TrySetup).stage is Live,
    ensures
        did(b, Step::TrySetup, bench::taken(b, Step::TrySetup)),
{
    let c = bench::taken(b, Step::TrySetup);
    let n = lemma_set_up_part(b.line());
    assert(c.io.log == b.io.log + laws::ring_messages(b.s, 0).take(n));
}

proof fn lemma_request(b: Bench, s: Step)
    requires
        b.stage is Live,
        b.s.next_desc < 256,
        is_request(s),
        bench::taken(b, s).stage is Live,
    ensures
        did(b, s, bench::taken(b, s)),
        bench::taken(b, s).s.next_desc < 256,
{
    match s {
        Step::Write { at, data } => {
            account::lemma_wrote(b.line(), b.sector(at), data);
        },
        Step::Read { at, len } => {
            account::lemma_fetched(b.line(), 0, b.sector(at), len as int);
        },
        Step::ReadIn { at, len, .. } => {
            account::lemma_fetched(b.line(), 0, b.sector(at), len as int);
        },
        Step::Flush => {
            account::lemma_flushed(b.line());
        },
        Step::GetId => {
            account::lemma_fetched(b.line(), 8, 0, 20);
        },
        Step::Range { req_type, at, num_sectors, unmap } => {
            account::lemma_ranged(b.line(), req_type, b.sector(at), num_sectors, unmap);
        },
        Step::Submit { chain } => {
            account::lemma_submitted(b.line(), b.descs(chain));
        },
        _ => {},
    }
}

proof fn lemma_found(heads: Seq<u16>, id: u32, i: int)
    requires
        0 <= i <= heads.len(),
    ensures
        bench::place_of(heads, id, i) matches Some(j) ==> i <= j < heads.len() && heads[j] == id,
    decreases heads.len() - i,
{
    if i < heads.len() && heads[i] != id {
        lemma_found(heads, id, i + 1);
    }
}

proof fn lemma_check(b: Bench, s: Step)
    requires
        b.stage is Live,
        is_check(s),
        bench::taken(b, s).stage is Live,
        b.heads.len() <= 1000,
    ensures
        did(b, s, bench::taken(b, s)),
{
    match s {
        Step::Same { want, .. } => {
            crate::checks::parting_tells_difference(b.data, want);
        },
        Step::AllZero { .. } => {
            crate::checks::nonzero_tells_zeroes(b.data, 0);
            assert(b.data =~= mem::repeated(0, b.data.len()));
        },
        Step::Untouched { from, .. } => {
            crate::checks::touched_tells_changes(b.data, from as int);
        },
        Step::Find => {
            lemma_found(b.heads, b.used.id, 0);
        },
        _ => {},
    }
}

proof fn lemma_wait(b: Bench, s: Step)
    requires
        b.stage is Live,
        is_wait(s),
        bench::taken(b, s).stage is Live,
    ensures
        did(b, s, bench::taken(b, s)),
        bench::taken(b, s).s.next_desc == b.s.next_desc,
{
    let c = bench::taken(b, s);
    match s {
        Step::Await { .. } => {
            account::lemma_waited(b.line(), 5000);
        },
        Step::Complete { .. } => {
            account::lemma_waited(b.line(), 5000);
        },
        Step::IgnoreUsed { timeout_ms } => {
            account::lemma_waited(b.line(), timeout_ms);
        },
        Step::Silence { timeout_ms, .. } => {
            account::lemma_waited(b.line(), timeout_ms);
        },
        Step::Written { .. } => {
            assert(c.io.log =~= b.io.log + seq![account::look(b.buf(b.number * 3 + 2), 1)]);
            assert(account::bytes_of(b.io, 0) =~= seq![0u8]);
        },
        Step::Fetched { seed, .. } => {
            assert(c.io.log =~= b.io.log + seq![account::look(b.buf(b.number * 3 + 1), 512)]);
            crate::checks::parting_tells_difference(
                account::bytes_of(b.io, 0),
                crate::checks::pattern(((seed + b.number) % 256) as u8, 512),
            );
        },
        Step::Status { buf } => {
            assert(c.io.log =~= b.io.log + seq![account::look(b.buf(buf as int), 1)]);
            assert(account::bytes_of(b.io, 0) =~= seq![c.status]);
        },
        Step::Load { buf, len } => {
            assert(c.io.log =~= b.io.log + seq![account::look(b.buf(buf as int), len as nat)]);
        },
        _ => {},
    }
}

proof fn lemma_other(b: Bench, s: Step)
    requires
        b.stage is Live,
        b.s.next_desc < 256,
        !is_session(s) && !is_request(s) && !is_check(s) && !is_wait(s),
        bench::taken(b, s).stage is Live,
    ensures
        did(b, s, bench::taken(b, s)),
        bench::taken(b, s).s.next_desc < 256,
{
    let c = bench::taken(b, s);
    match s {
        Step::Close => {
            assert(c.io.log =~= b.io.log + seq![ActionOf::Close]);
        },
        Step::Cooldown => {
            if b.io.delay_ms > 0 {
                assert(c.io.log =~= b.io.log + seq![ActionOf::Sleep { ms: b.io.delay_ms }]);
            } else {
                assert(c.io.log =~= b.io.log + Seq::empty());
            }
        },
        Step::Put { buf, at, data } => {
            assert(c.io.log =~= b.io.log + seq![mem::store(b.buf(buf as int) + at, data)]);
        },
        Step::Zero { buf, len } => {
            assert(c.io.log =~= b.io.log + seq![
                mem::store(b.buf(buf as int), mem::repeated(0, len as nat)),
            ]);
        },
        Step::Kick => {
            assert(c.io.log =~= b.io.log + seq![ActionOf::Kick]);
        },
        Step::Post { chain } => {
            assert(b.descs(chain).len() == chain.len());
        },
        Step::AvailFlags { flags } => {
            assert(c.io.log =~= b.io.log + seq![mem::store_le(0x2000, flags as nat, 2)]);
        },
        Step::DrainCall => {
            assert(c.io.log =~= b.io.log + seq![ActionOf::DrainCall]);
        },
        Step::Signal { timeout_ms, .. } => {
            assert(c.io.log =~= b.io.log + seq![ActionOf::WaitCall { timeout_ms }]);
        },
        Step::Call { act, .. } => {
            assert(c.io.log =~= b.io.log + seq![act]);
        },
        Step::Try { act } => {
            assert(c.io.log =~= b.io.log + seq![act]);
        },
        Step::TryRingAt { desc_off } => {
            assert(c.io.log =~= b.io.log + seq![
                ActionOf::SetVringAddr {
                    config: model::ring_config(b.s.mem.base, desc_off as int),
                },
            ]);
        },
        Step::Base => {
            assert(c.io.log =~= b.io.log + seq![ActionOf::GetVringBase]);
        },
        Step::Features { .. } => {
            assert(c.io.log =~= b.io.log + seq![ActionOf::GetFeatures]);
        },
        Step::Config { size, .. } => {
            assert(c.io.log =~= b.io.log + seq![ActionOf::GetConfig { offset: 0, size }]);
        },
        _ => {},
    }
}

proof fn lemma_taken(b: Bench, s: Step)
    requires
        b.stage is Live,
        b.s.next_desc < 256,
        b.heads.len() <= 1000,
        bench::taken(b, s).stage is Live,
    ensures
        did(b, s, bench::taken(b, s)),
        bench::taken(b, s).s.next_desc < 256,
{
    if is_session(s) {
        lemma_session(b, s);
    } else if is_request(s) {
        lemma_request(b, s);
    } else if is_check(s) {
        lemma_check(b, s);
    } else if is_wait(s) {
        lemma_wait(b, s);
    } else {
        lemma_other(b, s);
    }
}

/// What a step that went well did.
pub proof fn lemma_did(b: Bench, s: Step)
    requires
        b.s.next_desc < 256,
        b.heads.len() <= 1000,
        bench::step(b, s).stage is Live,
    ensures
        b.stage is Live,
        did(b, s, bench::step(b, s)),
        bench::step(b, s).s.next_desc < 256,
        bench::step(b, s).heads.len() <= b.heads.len() + 1,
{
    assert(b.stage is Live && bench::step(b, s) == bench::taken(b, s)) by {
        reveal(bench::step);
    }
    lemma_taken(b, s);
}

proof fn lemma_ring_kept(start: Bench, steps: Seq<Step>, k: nat)
    requires
        k <= steps.len() <= 1000,
        start.s.next_desc < 256,
        start.heads.len() == 0,
        bench::run_to(start, steps, k).stage is Live,
    ensures
        bench::run_to(start, steps, k).s.next_desc < 256,
        bench::run_to(start, steps, k).heads.len() <= k,
    decreases k,
{
    if k > 0 {
        verdicts::lemma_live_before(start, steps, (k - 1) as nat, k);
        lemma_ring_kept(start, steps, (k - 1) as nat);
        lemma_did(bench::run_to(start, steps, (k - 1) as nat), steps[k - 1]);
    }
}

/// In a run that passes, every step did what it does when it goes well.
pub proof fn lemma_step_of_pass(start: Bench, steps: Seq<Step>, i: int)
    requires
        0 <= i < steps.len() <= 1000,
        start.s.next_desc < 256,
        start.heads.len() == 0,
        bench::run(start, steps).stage is Live,
    ensures
        ({
            let b = bench::run_to(start, steps, i as nat);
            let c = bench::run_to(start, steps, (i + 1) as nat);
            &&& b.stage is Live
            &&& did(b, steps[i], c)
            &&& c.s.next_desc < 256
        }),
{
    verdicts::lemma_live_before(start, steps, (i + 1) as nat, steps.len());
    verdicts::lemma_live_before(start, steps, i as nat, (i + 1) as nat);
    lemma_ring_kept(start, steps, i as nat);
    lemma_did(bench::run_to(start, steps, i as nat), steps[i]);
}

} // verus!
