//! What a device may do: a run goes on as long as nothing is wrong.

use vstd::prelude::*;

use crate::account;
use crate::bench;
use crate::bench::{Bench, Step};
use crate::checks;
use crate::deeds;
use crate::dev::{Desc, Session};
use crate::le;
use crate::link::{Act, ActionOf, ReplyOf, Talk};
use crate::mem;
use crate::model;
use crate::model::Line;

verus! {

/// The answer taken `i` answers after `t` brings so many bytes.
pub open spec fn brings(t: Talk, i: int, len: int) -> bool {
    &&& 0 <= t.next + i < t.replies.len()
    &&& account::answer(t, i) is Bytes
    &&& account::bytes_of(t, i).len() == len
}

/// The device completes the chain that is posted next.
pub open spec fn completes(b: Bench) -> bool {
    account::completed(b.io, 0, b.s.next_desc as int)
}

/// The next answer is that the message was taken, or that it was refused.
pub open spec fn replied(t: Talk) -> bool {
    0 <= t.next < t.replies.len() && (account::answer(t, 0) is Done || account::answer(
        t,
        0,
    ) is Refused)
}

/// A step that does not open a session has what it needs, and gets an answer with which
/// nothing is wrong.
pub open spec fn nothing_wrong(b: Bench, s: Step) -> bool {
    match s {
        Step::Need { sectors } => b.s.capacity_sectors >= 2056 + sectors,
        Step::Beyond { sectors } => b.s.capacity_sectors + sectors <= u64::MAX,
        Step::Require { what, .. } => deeds::has(b.s, what),
        Step::Write { data, .. } => {
            &&& model::room_for_three(b.s, data.len() as int)
            &&& completes(b)
            &&& brings(b.io, 1, 1)
        },
        Step::Read { len, .. } => {
            &&& model::room_for_three(b.s, len as int)
            &&& completes(b)
            &&& brings(b.io, 1, len as int)
            &&& brings(b.io, 2, 1)
        },
        Step::ReadIn { len, .. } => {
            &&& model::room_for_three(b.s, len as int)
            &&& completes(b)
            &&& brings(b.io, 1, len as int)
            &&& brings(b.io, 2, 1)
        },
        Step::Flush => model::room_for_two(b.s) && completes(b) && brings(b.io, 1, 1),
        Step::GetId => {
            &&& model::room_for_three(b.s, 20)
            &&& completes(b)
            &&& brings(b.io, 1, 20)
            &&& brings(b.io, 2, 1)
        },
        Step::Range { .. } => {
            &&& model::room_for_three(b.s, 16)
            &&& completes(b)
            &&& brings(b.io, 1, 1)
        },
        Step::Submit { chain } => b.postable(chain) && completes(b),
        Step::ExpectOk { .. } => b.status == 0,
        Step::Same { want, .. } => b.data == want,
        Step::AllZero { .. } => forall|i: int|
            0 <= i < b.data.len() ==> #[trigger] b.data[i] == 0,
        Step::Untouched { from, .. } => forall|i: int|
            from <= i < b.data.len() ==> #[trigger] b.data[i] == 0xff,
        Step::CheckStatus { accept, .. } => deeds::right_status(accept, b.status),
        Step::Length { want, .. } => b.data.len() == want,
        Step::Alloc { len } => model::has_room(b.s, len as int),
        Step::Header { buf, .. } => b.inside(buf as int, 0, 16),
        Step::Put { buf, at, data } => b.inside(buf as int, at as int, data.len() as int),
        Step::Zero { buf, len } => b.inside(buf as int, 0, len as int),
        Step::TableEntry { buf, .. } => b.inside(buf as int, 0, 16),
        Step::Post { chain } => b.postable(chain),
        Step::PostIndirect { chain, table } => b.postable(chain) && b.inside(
            table as int,
            0,
            (chain.len() * 16) as int,
        ),
        Step::Await { .. } => brings(b.io, 0, 8),
        Step::Complete { .. } => brings(b.io, 0, 8),
        Step::IgnoreUsed { .. } => brings(b.io, 0, 8) || account::answered(
            b.io,
            0,
            ReplyOf::TimedOut,
        ),
        Step::Silence { .. } => account::answered(b.io, 0, ReplyOf::TimedOut),
        Step::CheckHead { .. } => b.heads.len() > 0 && b.used.id == b.heads.last(),
        Step::Find => {
            &&& !b.reported.contains(b.used.id)
            &&& exists|i: int| 0 <= i < b.heads.len() && #[trigger] b.heads[i] == b.used.id
        },
        Step::Written { .. } => b.inside(b.number * 3 + 2, 0, 1) && account::brought(
            b.io,
            0,
            seq![0u8],
        ),
        Step::Fetched { seed, .. } => b.inside(b.number * 3 + 1, 0, 512) && account::brought(
            b.io,
            0,
            checks::pattern(((seed + b.number) % 256) as u8, 512),
        ),
        Step::UsedLenOfRead { len } => b.used.len == (len + 1) % 0x1_0000_0000,
        Step::UsedLenOfWrite => b.used.len == 1,
        Step::Status { buf } => b.inside(buf as int, 0, 1) && brings(b.io, 0, 1),
        Step::Load { buf, len } => b.inside(buf as int, 0, len as int) && brings(
            b.io,
            0,
            len as int,
        ),
        Step::Signal { want, .. } => account::answered(b.io, 0, ReplyOf::Flag(want)),
        Step::Call { .. } => account::answered(b.io, 0, ReplyOf::Done),
        Step::Try { .. } => replied(b.io),
        Step::TryRingAt { .. } => replied(b.io),
        Step::Base => exists|n: u64|
            n <= u32::MAX && #[trigger] account::answered(b.io, 0, ReplyOf::Number(n)),
        Step::Features { .. } => exists|n: u64| #[trigger]
            account::answered(b.io, 0, ReplyOf::Number(n)),
        Step::Config { .. } => brings(b.io, 0, account::bytes_of(b.io, 0).len() as int),
        Step::CheckNumber { want, .. } => b.number == want,
        Step::CheckStable => b.number == b.kept_number,
        Step::CheckConfig => {
            &&& b.data.len() >= 8
            &&& b.kept_data.len() >= 8
            &&& b.data.take(8) == b.kept_data.take(8)
        },
        Step::BlkSizeSane => b.s.config_blk_size >= 512 && b.s.config_blk_size & (
        (b.s.config_blk_size - 1) as u32) == 0,
        Step::Connect { .. } => false,
        Step::Handshake { .. } => false,
        Step::TrySetup => false,
        _ => true,
    }
}

proof fn lemma_used_head(u: Seq<u8>)
    requires
        u.len() == 8,
    ensures
        model::used_in(u).id == le::le_value(u.take(4)),
{
    assert(le::window(u, 0, 4) =~= u.take(4));
    le::lemma_le_value_fits(u.take(4));
    le::lemma_ranges();
}

/// A chain that is completed within the time is a chain that was submitted.
proof fn lemma_submits(l: Line, descs: Seq<Desc>)
    requires
        l.s.next_desc < 256,
        account::completed(l.io, 0, l.s.next_desc as int),
    ensures
        ({
            let (m, g) = model::submit(l, descs, 5000);
            &&& g is Value
            &&& m.io.next == l.io.next + 1
            &&& m.io.replies == l.io.replies
        }),
{
    lemma_used_head(account::bytes_of(l.io, 0));
}

proof fn lemma_gets_status(l: Line, m: Line, descs: Seq<Desc>, st: int)
    requires
        l.s.next_desc < 256,
        m.s.next_desc == l.s.next_desc,
        m.io.next == l.io.next,
        m.io.replies == l.io.replies,
        account::completed(l.io, 0, l.s.next_desc as int),
        brings(l.io, 1, 1),
    ensures
        model::submit_for_status(m, descs, st).1 is Value,
{
    lemma_submits(m, descs);
}

proof fn lemma_gets_data(
    l: Line,
    m: Line,
    descs: Seq<Desc>,
    d: int,
    len: usize,
    st: int,
)
    requires
        l.s.next_desc < 256,
        m.s.next_desc == l.s.next_desc,
        m.io.next == l.io.next,
        m.io.replies == l.io.replies,
        account::completed(l.io, 0, l.s.next_desc as int),
        brings(l.io, 1, len as int),
        brings(l.io, 2, 1),
    ensures
        model::submit_for_data(m, descs, d, len as int, st).1 is Value,
{
    lemma_submits(m, descs);
}

proof fn lemma_write_served(l: Line, sector: u64, data: Seq<u8>)
    requires
        l.s.next_desc < 256,
        account::completed(l.io, 0, l.s.next_desc as int),
        brings(l.io, 1, 1),
    ensures
        model::blk_write(l, sector, data).1 is Value,
{
    let (h, d, s, s2) = model::three(l.s, data.len() as int);
    let m = Line {
        s: s2,
        io: l.io.tell_all(model::header_stores(h, 1, sector)).tell(mem::store(d, data)).tell(
            model::poison(s),
        ),
    };
    lemma_gets_status(
        l,
        m,
        seq![
            model::readable(h, 16),
            model::readable(d, data.len() as int),
            model::writable(s, 1),
        ],
        s,
    );
}

proof fn lemma_fetch_served(l: Line, kind: u32, sector: u64, len: usize)
    requires
        l.s.next_desc < 256,
        account::completed(l.io, 0, l.s.next_desc as int),
        brings(l.io, 1, len as int),
        brings(l.io, 2, 1),
    ensures
        model::blk_fetch(l, kind, sector, len as int).1 is Value,
{
    let (h, d, s, s2) = model::three(l.s, len as int);
    let zeroes = mem::repeated(0, len as nat);
    let m = Line {
        s: s2,
        io: l.io.tell_all(model::header_stores(h, kind, sector)).tell(mem::store(d, zeroes)).tell(
            model::poison(s),
        ),
    };
    lemma_gets_data(
        l,
        m,
        seq![model::readable(h, 16), model::writable(d, len as int), model::writable(s, 1)],
        d,
        len,
        s,
    );
}

proof fn lemma_flush_served(l: Line)
    requires
        l.s.next_desc < 256,
        account::completed(l.io, 0, l.s.next_desc as int),
        brings(l.io, 1, 1),
    ensures
        model::blk_flush(l).1 is Value,
{
    let s1 = model::allocated(l.s, 16);
    let (h, s) = account::bare_places(l.s);
    let m = Line {
        s: model::allocated(s1, 1),
        io: l.io.tell_all(model::header_stores(h, 4, 0)).tell(model::poison(s)),
    };
    lemma_gets_status(l, m, seq![model::readable(h, 16), model::writable(s, 1)], s);
}

proof fn lemma_range_served(l: Line, kind: u32, sector: u64, n: u32, unmap: bool)
    requires
        l.s.next_desc < 256,
        account::completed(l.io, 0, l.s.next_desc as int),
        brings(l.io, 1, 1),
    ensures
        model::blk_zeroes_or_discard(l, kind, sector, n, unmap).1 is Value,
{
    let (h, d, s, s2) = model::three(l.s, 16);
    let m = Line {
        s: s2,
        io: l.io.tell_all(model::header_stores(h, kind, 0)).tell_all(
            model::segment_stores(d, sector, n, unmap),
        ).tell(model::poison(s)),
    };
    lemma_gets_status(
        l,
        m,
        seq![model::readable(h, 16), model::readable(d, 16), model::writable(s, 1)],
        s,
    );
}

spec fn is_request(s: Step) -> bool {
    s is Write || s is Read || s is ReadIn || s is Flush || s is GetId || s is Range || s is Submit
}

proof fn lemma_request_goes_on(b: Bench, s: Step)
    requires
        b.stage is Live,
        b.s.next_desc < 256,
        is_request(s),
        nothing_wrong(b, s),
    ensures
        bench::taken(b, s).stage is Live,
{
    let l = b.line();
    match s {
        Step::Write { at, data } => {
            lemma_write_served(l, b.sector(at), data);
        },
        Step::Read { at, len } => {
            lemma_fetch_served(l, 0, b.sector(at), len);
        },
        Step::ReadIn { at, len, .. } => {
            lemma_fetch_served(l, 0, b.sector(at), len);
        },
        Step::Flush => {
            lemma_flush_served(l);
        },
        Step::GetId => {
            lemma_fetch_served(l, 8, 0, 20);
        },
        Step::Range { req_type, at, num_sectors, unmap } => {
            lemma_range_served(l, req_type, b.sector(at), num_sectors, unmap);
        },
        Step::Submit { chain } => {
            lemma_submits(l, b.descs(chain));
        },
        _ => {},
    }
}

proof fn lemma_is_found(heads: Seq<u16>, id: u32, i: int, from: int)
    requires
        0 <= from <= i < heads.len(),
        heads[i] == id,
    ensures
        bench::place_of(heads, id, from) is Some,
    decreases i - from,
{
    if heads[from] != id {
        lemma_is_found(heads, id, i, from + 1);
    }
}

proof fn lemma_other_goes_on(b: Bench, s: Step)
    requires
        b.stage is Live,
        !is_request(s),
        nothing_wrong(b, s),
    ensures
        bench::taken(b, s).stage is Live,
{
    match s {
        Step::Same { want, .. } => {
            checks::parting_tells_difference(b.data, want);
        },
        Step::AllZero { .. } => {
            checks::nonzero_tells_zeroes(b.data, 0);
        },
        Step::Untouched { from, .. } => {
            checks::touched_tells_changes(b.data, from as int);
        },
        Step::Find => {
            let i = choose|i: int| 0 <= i < b.heads.len() && #[trigger] b.heads[i] == b.used.id;
            lemma_is_found(b.heads, b.used.id, i, 0);
        },
        Step::Fetched { seed, .. } => {
            checks::parting_tells_difference(
                account::bytes_of(b.io, 0),
                checks::pattern(((seed + b.number) % 256) as u8, 512),
            );
        },
        _ => {},
    }
}

/// A step with which nothing is wrong does not stop the run: neither a status that may be
/// left, nor a completion that does not matter, nor a refusal of a message that may be
/// refused is held against the device.
pub proof fn nothing_wrong_goes_on(b: Bench, s: Step)
    requires
        b.stage is Live,
        b.s.next_desc < 256,
        nothing_wrong(b, s),
    ensures
        bench::step(b, s).stage is Live,
{
    assert(bench::step(b, s) == bench::taken(b, s)) by {
        reveal(bench::step);
    }
    if is_request(s) {
        lemma_request_goes_on(b, s);
    } else {
        lemma_other_goes_on(b, s);
    }
}

/// Whoever waits for a completion waits five seconds, whatever comes of it. A completion
/// within that time lets the run go on; none is a failure; and as long as there is no answer
/// the run waits for one.
pub proof fn completions_have_five_seconds(b: Bench, s: Step)
    requires
        b.stage is Live,
        s is Await || s is Complete,
    ensures
        ({
            let c = bench::step(b, s);
            &&& c.io.log == b.io.log.push(account::wait_for(b.s, 5000))
            &&& brings(b.io, 0, 8) ==> c.stage is Live
            &&& account::answered(b.io, 0, ReplyOf::TimedOut) ==> c.stage is Failed
            &&& b.io.next >= b.io.replies.len() ==> c.stage is Waiting
        }),
{
    reveal(bench::step);
}

proof fn lemma_submitted_any(l: Line, descs: Seq<Desc>)
    requires
        l.s.next_desc < 256,
    ensures
        ({
            let (m, g) = model::submit(l, descs, 5000);
            &&& m.io.log == l.io.log + model::post_stores(l.s, descs) + seq![
                ActionOf::Kick,
                account::wait_for(l.s, 5000),
            ]
            &&& account::answered(l.io, 0, ReplyOf::TimedOut) ==> g is Fault
            &&& brings(l.io, 0, 8) && !account::completed(l.io, 0, l.s.next_desc as int)
                ==> g is Fault
            &&& l.io.next >= l.io.replies.len() ==> g is Waiting
        }),
{
    let (m, g) = model::submit(l, descs, 5000);
    if brings(l.io, 0, 8) {
        lemma_used_head(account::bytes_of(l.io, 0));
    }
    assert(m.io.log =~= l.io.log + model::post_stores(l.s, descs) + seq![
        ActionOf::Kick,
        account::wait_for(l.s, 5000),
    ]);
}

proof fn lemma_submit_step(b: Bench, chain: Seq<bench::Seg>)
    requires
        b.stage is Live,
        b.postable(chain),
    ensures
        ({
            let r = model::submit(b.line(), b.descs(chain), 5000);
            let c = bench::step(b, Step::Submit { chain });
            &&& c.io == r.0.io
            &&& r.1 is Fault ==> c.stage is Failed
            &&& r.1 is Waiting ==> c.stage is Waiting
        }),
{
    reveal(bench::step);
}

/// Whoever submits a chain wakes the device for it and waits five seconds for its
/// completion, whatever comes of it. None within that time is a failure, and so is the
/// completion of another chain.
pub proof fn submitted_chains_have_five_seconds(b: Bench, chain: Seq<bench::Seg>)
    requires
        b.stage is Live,
        b.s.next_desc < 256,
        b.postable(chain),
    ensures
        ({
            let c = bench::step(b, Step::Submit { chain });
            &&& c.io.log =~= b.io.log + model::post_stores(b.s, b.descs(chain)) + seq![
                ActionOf::Kick,
                account::wait_for(b.s, 5000),
            ]
            &&& account::answered(b.io, 0, ReplyOf::TimedOut) ==> c.stage is Failed
            &&& brings(b.io, 0, 8) && !completes(b) ==> c.stage is Failed
            &&& b.io.next >= b.io.replies.len() ==> c.stage is Waiting
        }),
{
    let r = model::submit(b.line(), b.descs(chain), 5000);
    let c = bench::step(b, Step::Submit { chain });
    lemma_submit_step(b, chain);
    lemma_submitted_any(b.line(), b.descs(chain));
    assert(c.io == r.0.io);
}

proof fn lemma_ring_refused(l: Line)
    ensures
        account::answered(l.io, 0, ReplyOf::Done) || !(model::setup_vring(l, 0).1 is Value),
        0 <= l.io.next < l.io.replies.len() && account::answer(l.io, 0) is Refused
            ==> model::setup_vring(l, 0).1 is Fault,
{
}

/// Where a ring is set up that may be refused, a refusal does not stop the run.
pub proof fn refused_ring_is_of_no_consequence(b: Bench)
    requires
        b.stage is Live,
    ensures
        bench::step(b, Step::TrySetup).stage is Live || bench::step(
            b,
            Step::TrySetup,
        ).stage is Waiting,
        0 <= b.io.next < b.io.replies.len() && account::answer(b.io, 0) is Refused ==> bench::step(
            b,
            Step::TrySetup,
        ).stage is Live,
{
    lemma_ring_refused(b.line());
    reveal(bench::step);
}

/// The next answer is missing.
pub open spec fn silent(t: Talk) -> bool {
    !(0 <= t.next < t.replies.len())
}

/// A question that has no answer, or one of a kind that does not answer it, is not answered: it
/// neither succeeds nor fails, and it stands at the end of the log.
pub proof fn other_answers_are_no_answers(
    t: Talk,
    a: Act,
    label: Seq<char>,
    offset: u32,
    size: u32,
    off: usize,
    len: usize,
    ms: u64,
)
    ensures
        ({
            let r = account::answer(t, 0);
            &&& silent(t) || !(r is Done || r is Refused) ==> {
                &&& t.call(a, label).1 is Waiting
                &&& t.attempt(a).1 is Waiting
            }
            &&& silent(t) || !(r is Number || r is Refused) ==> t.query(a, label).1 is Waiting
            &&& silent(t) || !(r is Bytes || r is Refused) ==> {
                &&& t.config(offset, size).1 is Waiting
                &&& t.config_or(offset, size, label).1 is Waiting
            }
            &&& silent(t) || !(r is Bytes && r->Bytes_0.len() == len) ==> t.load(
                off,
                len,
            ).1 is Waiting
            &&& silent(t) || !(r is Flag) ==> t.await_call(ms).1 is Waiting
            &&& silent(t) || !(r is Mapped || r is Refused) ==> t.map(len).1 is Waiting
            &&& t.call(a, label).0.log.last() == a
            &&& t.query(a, label).0.log.last() == a
        }),
{
}

/// A buffer takes the first page that is free, and no more bytes than it needs, but at least
/// one. There is room for it exactly where it ends within the region.
pub proof fn buffers_waste_no_page(s: Session, len: int)
    requires
        0 <= len <= 0x400_0000,
        s.next_data <= 0x400_0000,
    ensures
        model::next_buffer(s) % 0x1000 == 0,
        s.next_data <= model::next_buffer(s) < s.next_data + 0x1000,
        model::has_room(s, len) <==> model::next_buffer(s) + len <= 0x400_0000
            && model::next_buffer(s) < 0x400_0000,
        model::has_room(s, len) ==> model::allocated(s, len).next_data == model::next_buffer(s)
            + if len == 0 {
            1
        } else {
            len
        },
{
}

/// The three buffers of a request follow one another: header, then data, then status.
pub proof fn requests_lie_in_a_row(s: Session, len: int)
    ensures
        ({
            let (h, d, st) = account::places(s, len);
            let one = model::allocated(s, 16);
            &&& h == model::next_buffer(s)
            &&& d == model::next_buffer(one)
            &&& st == model::next_buffer(model::allocated(one, len))
            &&& model::three(s, len).3 == model::allocated(model::allocated(one, len), 1)
        }),
{
}

} // verus!
