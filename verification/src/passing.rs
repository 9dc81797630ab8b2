//! Runs that pass, step by step.

use vstd::prelude::*;

use crate::account;
use crate::bench;
use crate::bench::{Accept, Bench, Sector, Seg, Step, Wanted};
use crate::deeds;
use crate::dev::{Desc, Session};
use crate::link::{Act, ActionOf, Rep, ReplyOf};
use crate::mem;
use crate::model;
use crate::model::Line;
use crate::registry;
use crate::registry::Case;
use crate::replay;

verus! {

/// The run of a scenario over these answers.
pub open spec fn run_of(case: Case, sock: Seq<char>, delay_ms: u64, replies: Seq<Rep>) -> Bench {
    bench::run(bench::set_out(replay::opening(delay_ms, replies)), registry::script(case, sock))
}

/// The scenario passes over these answers.
pub open spec fn passes(case: Case, sock: Seq<char>, delay_ms: u64, replies: Seq<Rep>) -> bool {
    run_of(case, sock, delay_ms, replies).stage is Live
}

/// The points `l` lead through the whole conversation of the run, from its start to its
/// end.
pub open spec fn spans(
    l: Seq<Line>,
    case: Case,
    sock: Seq<char>,
    delay_ms: u64,
    replies: Seq<Rep>,
) -> bool {
    &&& l.len() > 0
    &&& l[0].io == replay::opening(delay_ms, replies)
    &&& l.last().io == run_of(case, sock, delay_ms, replies).io
}

/// The bench before step `i`.
#[verifier::opaque]
pub open spec fn at(start: Bench, steps: Seq<Step>, i: int) -> Bench {
    bench::run_to(start, steps, i as nat)
}

/// Step `i` went well.
#[verifier::opaque]
pub open spec fn went(start: Bench, steps: Seq<Step>, i: int) -> bool {
    &&& at(start, steps, i).stage is Live
    &&& deeds::did(at(start, steps, i), steps[i], at(start, steps, i + 1))
    &&& at(start, steps, i + 1).s.next_desc < 256
}

/// Every step went well.
pub open spec fn all_went(start: Bench, steps: Seq<Step>) -> bool {
    forall|i: int| 0 <= i < steps.len() ==> #[trigger] went(start, steps, i)
}

/// In a run that passes every step went well.
pub proof fn lemma_went(case: Case, sock: Seq<char>, delay_ms: u64, replies: Seq<Rep>)
    requires
        registry::script(case, sock).len() <= 1000,
        passes(case, sock, delay_ms, replies),
    ensures
        ({
            let start = bench::set_out(replay::opening(delay_ms, replies));
            let steps = registry::script(case, sock);
            &&& all_went(start, steps)
            &&& at(start, steps, 0).io == replay::opening(delay_ms, replies)
            &&& at(start, steps, steps.len() as int) == run_of(case, sock, delay_ms, replies)
        }),
{
    let start = bench::set_out(replay::opening(delay_ms, replies));
    let steps = registry::script(case, sock);
    assert forall|i: int| 0 <= i < steps.len() implies #[trigger] went(start, steps, i) by {
        reveal(at);
        reveal(went);
        deeds::lemma_step_of_pass(start, steps, i);
    }
    reveal(at);
}

/// What step `i` did.
pub proof fn lemma_step(start: Bench, steps: Seq<Step>, i: int)
    requires
        0 <= i < steps.len(),
        all_went(start, steps),
    ensures
        deeds::did(at(start, steps, i), steps[i], at(start, steps, i + 1)),
        at(start, steps, i + 1).s.next_desc < 256,
{
    assert(went(start, steps, i));
    reveal(went);
}

// ---- single steps ------------------------------------------------------------------------

/// The buffers, the chains in flight and what is known of the device stay the same.
pub open spec fn kept(b: Bench, c: Bench) -> bool {
    &&& c.bufs == b.bufs
    &&& c.heads == b.heads
    &&& c.s.capacity_sectors == b.s.capacity_sectors
    &&& c.s.mem == b.s.mem
}

pub proof fn lemma_opened(
    start: Bench,
    steps: Seq<Step>,
    i: int,
    path: Seq<char>,
    mask: u64,
    base: u16,
)
    requires
        0 <= i < steps.len(),
        all_went(start, steps),
        steps[i] == (Step::Connect { path, mask_out: mask, base }),
    ensures
        account::opened(
            at(start, steps, i).line(),
            at(start, steps, i + 1).line(),
            path,
            mask,
            base,
        ),
        at(start, steps, i + 1).bufs.len() == 0,
        at(start, steps, i + 1).heads.len() == 0,
{
    lemma_step(start, steps, i);
}

pub proof fn lemma_greeted(start: Bench, steps: Seq<Step>, i: int, path: Seq<char>, table: bool)
    requires
        0 <= i < steps.len(),
        all_went(start, steps),
        steps[i] == (Step::Handshake { path, do_mem_table: table }),
    ensures
        account::greeted(
            at(start, steps, i).line(),
            at(start, steps, i + 1).line(),
            path,
            table,
        ),
        at(start, steps, i + 1).bufs.len() == 0,
        at(start, steps, i + 1).heads.len() == 0,
{
    lemma_step(start, steps, i);
}

pub proof fn lemma_need(start: Bench, steps: Seq<Step>, i: int, n: u64)
    requires
        0 <= i < steps.len(),
        all_went(start, steps),
        steps[i] == (Step::Need { sectors: n }),
    ensures
        at(start, steps, i + 1) == at(start, steps, i),
        at(start, steps, i).s.capacity_sectors >= 2056 + n,
{
    lemma_step(start, steps, i);
}

pub proof fn lemma_beyond(start: Bench, steps: Seq<Step>, i: int, n: u64)
    requires
        0 <= i < steps.len(),
        all_went(start, steps),
        steps[i] == (Step::Beyond { sectors: n }),
    ensures
        at(start, steps, i + 1) == at(start, steps, i),
        at(start, steps, i).s.capacity_sectors + n <= u64::MAX,
{
    lemma_step(start, steps, i);
}

pub proof fn lemma_require(start: Bench, steps: Seq<Step>, i: int, what: Wanted)
    requires
        0 <= i < steps.len(),
        all_went(start, steps),
        steps[i] matches Step::Require { what: w, .. } && w == what,
    ensures
        at(start, steps, i + 1) == at(start, steps, i),
        deeds::has(at(start, steps, i).s, what),
{
    lemma_step(start, steps, i);
}

/// The status that was left is OK.
pub proof fn lemma_ok(start: Bench, steps: Seq<Step>, i: int)
    requires
        0 <= i < steps.len(),
        all_went(start, steps),
        steps[i] is ExpectOk,
    ensures
        at(start, steps, i + 1) == at(start, steps, i),
        at(start, steps, i).status == 0,
{
    lemma_step(start, steps, i);
}

/// The status that was left is one of those that are right.
pub proof fn lemma_right(start: Bench, steps: Seq<Step>, i: int, accept: Accept)
    requires
        0 <= i < steps.len(),
        all_went(start, steps),
        steps[i] matches Step::CheckStatus { accept: a, .. } && a == accept,
    ensures
        at(start, steps, i + 1) == at(start, steps, i),
        deeds::right_status(accept, at(start, steps, i).status),
{
    lemma_step(start, steps, i);
}

pub proof fn lemma_closed(start: Bench, steps: Seq<Step>, i: int)
    requires
        0 <= i < steps.len(),
        all_went(start, steps),
        steps[i] == Step::Close,
    ensures
        account::closed(at(start, steps, i).line(), at(start, steps, i + 1).line()),
        kept(at(start, steps, i), at(start, steps, i + 1)),
{
    lemma_step(start, steps, i);
}

pub proof fn lemma_paused(start: Bench, steps: Seq<Step>, i: int)
    requires
        0 <= i < steps.len(),
        all_went(start, steps),
        steps[i] == Step::Cooldown,
    ensures
        account::paused(at(start, steps, i).line(), at(start, steps, i + 1).line()),
        kept(at(start, steps, i), at(start, steps, i + 1)),
{
    lemma_step(start, steps, i);
}

pub proof fn lemma_wrote(start: Bench, steps: Seq<Step>, i: int, sector: Sector, data: Seq<u8>)
    requires
        0 <= i < steps.len(),
        all_went(start, steps),
        steps[i] == (Step::Write { at: sector, data }),
    ensures
        account::wrote(
            at(start, steps, i).line(),
            at(start, steps, i + 1).line(),
            at(start, steps, i).sector(sector) as int,
            data,
            at(start, steps, i + 1).status,
        ),
        kept(at(start, steps, i), at(start, steps, i + 1)),
{
    lemma_step(start, steps, i);
    reveal(account::exchanged);
}

/// A write that succeeded.
pub proof fn lemma_good_write(start: Bench, steps: Seq<Step>, i: int, sector: Sector, data: Seq<u8>)
    requires
        0 <= i < steps.len() - 1,
        all_went(start, steps),
        steps[i] == (Step::Write { at: sector, data }),
        steps[i + 1] is ExpectOk,
    ensures
        account::wrote(
            at(start, steps, i).line(),
            at(start, steps, i + 2).line(),
            at(start, steps, i).sector(sector) as int,
            data,
            0,
        ),
        kept(at(start, steps, i), at(start, steps, i + 2)),
{
    lemma_wrote(start, steps, i, sector, data);
    lemma_ok(start, steps, i + 1);
}

pub proof fn lemma_read(start: Bench, steps: Seq<Step>, i: int, sector: Sector, len: usize)
    requires
        0 <= i < steps.len(),
        all_went(start, steps),
        steps[i] == (Step::Read { at: sector, len }) || (steps[i] matches Step::ReadIn {
            at: s,
            len: n,
            ..
        } && s == sector && n == len),
    ensures
        account::read(
            at(start, steps, i).line(),
            at(start, steps, i + 1).line(),
            at(start, steps, i).sector(sector) as int,
            at(start, steps, i + 1).data,
            at(start, steps, i + 1).status,
        ),
        at(start, steps, i + 1).data.len() == len,
        at(start, steps, i + 1).data == account::bytes_of(at(start, steps, i).io, 1),
        kept(at(start, steps, i), at(start, steps, i + 1)),
{
    lemma_step(start, steps, i);
    reveal(account::exchanged);
}

/// A read that succeeded.
pub proof fn lemma_good_read(start: Bench, steps: Seq<Step>, i: int, sector: Sector, len: usize)
    requires
        0 <= i < steps.len() - 1,
        all_went(start, steps),
        steps[i] == (Step::Read { at: sector, len }) || (steps[i] matches Step::ReadIn {
            at: s,
            len: n,
            ..
        } && s == sector && n == len),
        steps[i + 1] is ExpectOk,
    ensures
        account::tried_read(
            at(start, steps, i).line(),
            at(start, steps, i + 2).line(),
            at(start, steps, i).sector(sector) as int,
            len as nat,
            0,
        ),
        kept(at(start, steps, i), at(start, steps, i + 2)),
{
    lemma_read(start, steps, i, sector, len);
    lemma_ok(start, steps, i + 1);
}

/// A read that left the one status that is right.
pub proof fn lemma_judged_read(
    start: Bench,
    steps: Seq<Step>,
    i: int,
    sector: Sector,
    len: usize,
    status: u8,
)
    requires
        0 <= i < steps.len() - 1,
        all_went(start, steps),
        steps[i] == (Step::Read { at: sector, len }),
        steps[i + 1] matches Step::CheckStatus { accept: a, .. } && a == Accept::Only(status),
    ensures
        account::tried_read(
            at(start, steps, i).line(),
            at(start, steps, i + 2).line(),
            at(start, steps, i).sector(sector) as int,
            len as nat,
            status,
        ),
        kept(at(start, steps, i), at(start, steps, i + 2)),
{
    lemma_read(start, steps, i, sector, len);
    lemma_right(start, steps, i + 1, Accept::Only(status));
}

/// A read that failed, and left the one status that is right.
pub proof fn lemma_refused_read(
    start: Bench,
    steps: Seq<Step>,
    i: int,
    sector: Sector,
    len: usize,
    status: u8,
)
    requires
        0 <= i < steps.len() - 2,
        all_went(start, steps),
        steps[i] == (Step::Read { at: sector, len }),
        steps[i + 1] matches Step::CheckStatus { accept: a, .. } && a == Accept::NotOk,
        steps[i + 2] matches Step::CheckStatus { accept: a, .. } && a == Accept::Only(status),
    ensures
        account::tried_read(
            at(start, steps, i).line(),
            at(start, steps, i + 3).line(),
            at(start, steps, i).sector(sector) as int,
            len as nat,
            status,
        ),
        kept(at(start, steps, i), at(start, steps, i + 3)),
{
    lemma_read(start, steps, i, sector, len);
    lemma_right(start, steps, i + 1, Accept::NotOk);
    lemma_right(start, steps, i + 2, Accept::Only(status));
}

/// A read that brought what it had to bring.
pub proof fn lemma_read_back(start: Bench, steps: Seq<Step>, i: int, sector: Sector, want: Seq<u8>)
    requires
        0 <= i < steps.len() - 2,
        all_went(start, steps),
        want.len() <= 0x400_0000,
        steps[i] == (Step::Read { at: sector, len: want.len() as usize }),
        steps[i + 1] is ExpectOk,
        (steps[i + 2] matches Step::Same { want: w, .. } && w == want) || (steps[i + 2] is AllZero
            && want == mem::repeated(0, want.len())),
    ensures
        account::read(
            at(start, steps, i).line(),
            at(start, steps, i + 3).line(),
            at(start, steps, i).sector(sector) as int,
            want,
            0,
        ),
        kept(at(start, steps, i), at(start, steps, i + 3)),
{
    lemma_read(start, steps, i, sector, want.len() as usize);
    lemma_ok(start, steps, i + 1);
    lemma_step(start, steps, i + 2);
}

/// A flush that succeeded.
pub proof fn lemma_flushed(start: Bench, steps: Seq<Step>, i: int)
    requires
        0 <= i < steps.len() - 1,
        all_went(start, steps),
        steps[i] == Step::Flush,
        steps[i + 1] is ExpectOk,
    ensures
        account::flushed(at(start, steps, i).line(), at(start, steps, i + 2).line(), 0),
        kept(at(start, steps, i), at(start, steps, i + 2)),
{
    lemma_step(start, steps, i);
    lemma_ok(start, steps, i + 1);
    reveal(account::exchanged);
}

pub proof fn lemma_ranged(
    start: Bench,
    steps: Seq<Step>,
    i: int,
    kind: u32,
    sector: Sector,
    n: u32,
    unmap: bool,
)
    requires
        0 <= i < steps.len(),
        all_went(start, steps),
        steps[i] == (Step::Range { req_type: kind, at: sector, num_sectors: n, unmap }),
    ensures
        account::ranged(
            at(start, steps, i).line(),
            at(start, steps, i + 1).line(),
            kind,
            at(start, steps, i).sector(sector) as int,
            n,
            unmap,
            at(start, steps, i + 1).status,
        ),
        at(start, steps, i + 1).status == account::bytes_of(at(start, steps, i).io, 1)[0],
        kept(at(start, steps, i), at(start, steps, i + 1)),
{
    lemma_step(start, steps, i);
    let b = at(start, steps, i);
    let c = at(start, steps, i + 1);
    let s = account::places(b.s, 16).2;
    let looks = seq![(s, seq![c.status])];
    reveal(account::exchanged);
    assert(account::brought(b.io, 1, looks[0].1));
}

// ---- requests of several steps -----------------------------------------------------------

/// From `b` to `c` these stores were made, and buffers given out for them.
pub open spec fn prepared(b: Bench, c: Bench, stores: Seq<Act>, bufs: Seq<int>) -> bool {
    &&& account::spoke(b.io, c.io, stores, 0)
    &&& c == (Bench { s: c.s, io: c.io, bufs: c.bufs, ..b })
    &&& c.s == (Session { next_data: c.s.next_data, ..b.s })
    &&& c.bufs.len() == b.bufs.len() + bufs.len()
    &&& forall|i: int| 0 <= i < b.bufs.len() ==> #[trigger] c.buf(i) == b.buf(i)
    &&& forall|i: int|
        0 <= i < bufs.len() ==> 0 <= #[trigger] bufs[i] <= 0x400_0000 && c.buf(
            b.bufs.len() + i,
        ) == bufs[i]
}

/// Steps `i` on make room for a request and lay it out, with these bytes where the status
/// will stand.
pub open spec fn stages_wide(
    steps: Seq<Step>,
    i: int,
    k: int,
    kind: u32,
    at: Sector,
    bytes: Seq<u8>,
    tail: Seq<u8>,
) -> bool {
    &&& i + 6 <= steps.len()
    &&& steps[i] == (Step::Alloc { len: 16 })
    &&& steps[i + 1] == (Step::Header { buf: k as usize, req_type: kind, at })
    &&& steps[i + 2] == (Step::Alloc { len: bytes.len() as usize })
    &&& steps[i + 3] == (Step::Put { buf: (k + 1) as usize, at: 0, data: bytes }) || (steps[i + 3]
        == (Step::Zero { buf: (k + 1) as usize, len: bytes.len() as usize }) && bytes
        == mem::repeated(0, bytes.len()))
    &&& steps[i + 4] == (Step::Alloc { len: tail.len() as usize })
    &&& steps[i + 5] == (Step::Put { buf: (k + 2) as usize, at: 0, data: tail })
}

/// Steps `i` on make room for a request and lay it out.
pub open spec fn stages_three(
    steps: Seq<Step>,
    i: int,
    k: int,
    kind: u32,
    at: Sector,
    bytes: Seq<u8>,
) -> bool {
    stages_wide(steps, i, k, kind, at, bytes, seq![0xffu8])
}

pub proof fn lemma_prepared_wide(
    start: Bench,
    steps: Seq<Step>,
    i: int,
    kind: u32,
    sector: Sector,
    bytes: Seq<u8>,
    tail: Seq<u8>,
)
    requires
        0 <= i,
        at(start, steps, i).bufs.len() <= 100,
        bytes.len() <= 0x400_0000,
        tail.len() <= 0x400_0000,
        stages_wide(steps, i, at(start, steps, i).bufs.len() as int, kind, sector, bytes, tail),
        all_went(start, steps),
    ensures
        ({
            let b = at(start, steps, i);
            let (h, d, s) = account::places(b.s, bytes.len() as int);
            prepared(
                b,
                at(start, steps, i + 6),
                model::header_stores(h, kind, b.sector(sector)) + seq![
                    mem::store(d, bytes),
                    mem::store(s, tail),
                ],
                seq![h, d, s],
            )
        }),
        at(start, steps, i + 6).s == model::allocated(
            model::allocated(
                model::allocated(at(start, steps, i).s, 16),
                bytes.len() as int,
            ),
            tail.len() as int,
        ),
{
    let b = at(start, steps, i);
    let c = at(start, steps, i + 6);
    let k = b.bufs.len() as int;
    let (h, d, s) = account::places(b.s, bytes.len() as int);
    lemma_step(start, steps, i);
    lemma_step(start, steps, i + 1);
    lemma_step(start, steps, i + 2);
    lemma_step(start, steps, i + 3);
    lemma_step(start, steps, i + 4);
    lemma_step(start, steps, i + 5);
    assert(at(start, steps, i + 1).buf(k) == h);
    assert(at(start, steps, i + 3).buf(k + 1) == d);
    assert(at(start, steps, i + 5).buf(k + 2) == s);
    assert(c.io.log =~= b.io.log + (model::header_stores(h, kind, b.sector(sector)) + seq![
        mem::store(d, bytes),
        mem::store(s, tail),
    ]));
    assert(c.buf(k) == h);
    assert(c.buf(k + 1) == d);
    assert(c.buf(k + 2) == s);
}

pub proof fn lemma_prepared_three(
    start: Bench,
    steps: Seq<Step>,
    i: int,
    kind: u32,
    sector: Sector,
    bytes: Seq<u8>,
)
    requires
        0 <= i,
        at(start, steps, i).bufs.len() <= 100,
        bytes.len() <= 0x400_0000,
        stages_three(steps, i, at(start, steps, i).bufs.len() as int, kind, sector, bytes),
        all_went(start, steps),
    ensures
        ({
            let b = at(start, steps, i);
            let (h, d, s) = account::places(b.s, bytes.len() as int);
            prepared(
                b,
                at(start, steps, i + 6),
                account::laid(h, kind, b.sector(sector), d, bytes, s),
                seq![h, d, s],
            )
        }),
        at(start, steps, i + 6).s == model::three(at(start, steps, i).s, bytes.len() as int).3,
{
    lemma_prepared_wide(start, steps, i, kind, sector, bytes, seq![0xffu8]);
}

/// Steps `i` on make room for a request without data and lay it out.
pub open spec fn stages_two(steps: Seq<Step>, i: int, kind: u32, at: Sector) -> bool {
    &&& i + 4 <= steps.len()
    &&& steps[i] == (Step::Alloc { len: 16 })
    &&& steps[i + 1] == (Step::Header { buf: 0, req_type: kind, at })
    &&& steps[i + 2] == (Step::Alloc { len: 1 })
    &&& steps[i + 3] == (Step::Put { buf: 1, at: 0, data: seq![0xffu8] })
}

pub proof fn lemma_prepared_two(start: Bench, steps: Seq<Step>, i: int, kind: u32, sector: Sector)
    requires
        0 <= i,
        at(start, steps, i).bufs.len() == 0,
        stages_two(steps, i, kind, sector),
        all_went(start, steps),
    ensures
        ({
            let b = at(start, steps, i);
            let (h, s) = account::bare_places(b.s);
            prepared(
                b,
                at(start, steps, i + 4),
                account::laid_bare(h, kind, b.sector(sector), s),
                seq![h, s],
            )
        }),
{
    let b = at(start, steps, i);
    let c = at(start, steps, i + 4);
    let (h, s) = account::bare_places(b.s);
    lemma_step(start, steps, i);
    lemma_step(start, steps, i + 1);
    lemma_step(start, steps, i + 2);
    lemma_step(start, steps, i + 3);
    assert(at(start, steps, i + 1).buf(0) == h);
    assert(at(start, steps, i + 3).buf(1) == s);
    assert(c.io.log =~= b.io.log + account::laid_bare(h, kind, b.sector(sector), s));
    assert(c.buf(0) == h);
    assert(c.buf(1) == s);
}

/// A request that was laid out, submitted, and looked at once.
pub proof fn lemma_one_look(
    a: Line,
    m: Line,
    n: Line,
    b: Line,
    stores: Seq<Act>,
    chain: Seq<Desc>,
    off: int,
    bytes: Seq<u8>,
)
    requires
        account::spoke(a.io, m.io, stores, 0),
        m.s == (Session { next_data: m.s.next_data, ..a.s }),
        account::exchanged(m, n, Seq::empty(), chain, Seq::empty()),
        account::spoke(n.io, b.io, seq![account::look(off, bytes.len())], 1),
        account::brought(n.io, 0, bytes),
        b.s == n.s,
    ensures
        account::exchanged(a, b, stores, chain, seq![(off, bytes)]),
{
    let looks = seq![(off, bytes)];
    assert(Seq::new(looks.len(), |i: int| account::look(looks[i].0, looks[i].1.len())) =~= seq![
        account::look(off, bytes.len()),
    ]);
    account::lemma_exchanged(a, m, n, b, stores, chain, looks);
}

/// A request that was laid out, submitted, and looked at twice.
pub proof fn lemma_two_looks(
    a: Line,
    m: Line,
    n: Line,
    o: Line,
    b: Line,
    stores: Seq<Act>,
    chain: Seq<Desc>,
    first: (int, Seq<u8>),
    second: (int, Seq<u8>),
)
    requires
        account::spoke(a.io, m.io, stores, 0),
        m.s == (Session { next_data: m.s.next_data, ..a.s }),
        account::exchanged(m, n, Seq::empty(), chain, Seq::empty()),
        account::spoke(n.io, o.io, seq![account::look(first.0, first.1.len())], 1),
        account::brought(n.io, 0, first.1),
        account::spoke(o.io, b.io, seq![account::look(second.0, second.1.len())], 1),
        account::brought(o.io, 0, second.1),
        b.s == n.s,
    ensures
        account::exchanged(a, b, stores, chain, seq![first, second]),
{
    let looks = seq![first, second];
    let loads = Seq::new(
        looks.len(),
        |i: int| account::look(looks[i].0, looks[i].1.len()),
    );
    assert(loads =~= seq![
        account::look(first.0, first.1.len()),
        account::look(second.0, second.1.len()),
    ]);
    assert(b.io.log =~= n.io.log + loads);
    assert(account::brought(n.io, 0, looks[0].1));
    assert(account::brought(n.io, 1, looks[1].1));
    account::lemma_exchanged(a, m, n, b, stores, chain, looks);
}

/// A request that was laid out, submitted, and looked at three times.
pub proof fn lemma_three_looks(
    a: Line,
    m: Line,
    n: Line,
    o: Line,
    p: Line,
    b: Line,
    stores: Seq<Act>,
    chain: Seq<Desc>,
    first: (int, Seq<u8>),
    second: (int, Seq<u8>),
    third: (int, Seq<u8>),
)
    requires
        account::spoke(a.io, m.io, stores, 0),
        m.s == (Session { next_data: m.s.next_data, ..a.s }),
        account::exchanged(m, n, Seq::empty(), chain, Seq::empty()),
        account::spoke(n.io, o.io, seq![account::look(first.0, first.1.len())], 1),
        account::brought(n.io, 0, first.1),
        account::spoke(o.io, p.io, seq![account::look(second.0, second.1.len())], 1),
        account::brought(o.io, 0, second.1),
        account::spoke(p.io, b.io, seq![account::look(third.0, third.1.len())], 1),
        account::brought(p.io, 0, third.1),
        b.s == n.s,
    ensures
        account::exchanged(a, b, stores, chain, seq![first, second, third]),
{
    let looks = seq![first, second, third];
    let loads = Seq::new(
        looks.len(),
        |i: int| account::look(looks[i].0, looks[i].1.len()),
    );
    assert(loads =~= seq![
        account::look(first.0, first.1.len()),
        account::look(second.0, second.1.len()),
        account::look(third.0, third.1.len()),
    ]);
    assert(b.io.log =~= n.io.log + loads);
    assert(account::brought(n.io, 0, looks[0].1));
    assert(account::brought(n.io, 1, looks[1].1));
    assert(account::brought(n.io, 2, looks[2].1));
    account::lemma_exchanged(a, m, n, b, stores, chain, looks);
}

/// Where the buffers start, the segments lie here.
pub open spec fn laid_out(segs: Seq<Seg>, bufs: Seq<int>, k: int) -> Seq<Desc> {
    Seq::new(
        segs.len(),
        |i: int|
            if segs[i].write {
                model::writable(bufs[segs[i].buf - k] + segs[i].at, segs[i].len as int)
            } else {
                model::readable(bufs[segs[i].buf - k] + segs[i].at, segs[i].len as int)
            },
    )
}

/// The segments lie in the buffers from `k` on.
pub open spec fn within(segs: Seq<Seg>, k: int, n: int) -> bool {
    forall|i: int| 0 <= i < segs.len() ==> k <= (#[trigger] segs[i]).buf < k + n
}

/// A request with data that was laid out, submitted, and completed, and left a status.
pub proof fn lemma_asked(
    start: Bench,
    steps: Seq<Step>,
    i: int,
    kind: u32,
    sector: Sector,
    bytes: Seq<u8>,
    segs: Seq<Seg>,
)
    requires
        0 <= i,
        i + 8 <= steps.len(),
        all_went(start, steps),
        at(start, steps, i).bufs.len() == 0,
        bytes.len() <= 0x400_0000,
        stages_three(steps, i, 0, kind, sector, bytes),
        steps[i + 6] == (Step::Submit { chain: segs }),
        steps[i + 7] == (Step::Status { buf: 2 }),
        within(segs, 0, 3),
    ensures
        ({
            let b = at(start, steps, i);
            let c = at(start, steps, i + 8);
            let (h, d, s) = account::places(b.s, bytes.len() as int);
            &&& account::exchanged(
                b.line(),
                c.line(),
                account::laid(h, kind, b.sector(sector), d, bytes, s),
                laid_out(segs, seq![h, d, s], 0),
                seq![(s, seq![c.status])],
            )
            &&& c.status == account::bytes_of(b.io, 1)[0]
            &&& c.used.len == account::written_by_device(b.io, 0)
            &&& c.s.capacity_sectors == b.s.capacity_sectors
        }),
{
    let b = at(start, steps, i);
    let m = at(start, steps, i + 6);
    let n = at(start, steps, i + 7);
    let c = at(start, steps, i + 8);
    let (h, d, s) = account::places(b.s, bytes.len() as int);
    let stores = account::laid(h, kind, b.sector(sector), d, bytes, s);
    lemma_prepared_three(start, steps, i, kind, sector, bytes);
    let bufs = seq![h, d, s];
    assert(m.buf(0) == bufs[0] && m.buf(1) == bufs[1] && m.buf(2) == bufs[2]);
    let chain = laid_out(segs, bufs, 0);
    assert forall|j: int| 0 <= j < segs.len() implies m.desc(segs[j]) == chain[j] by {
        assert(m.buf(segs[j].buf as int) == bufs[segs[j].buf as int]);
    }
    assert(m.descs(segs) =~= chain);
    lemma_step(start, steps, i + 6);
    lemma_step(start, steps, i + 7);
    lemma_one_look(b.line(), m.line(), n.line(), c.line(), stores, chain, s, seq![c.status]);
    let looks = seq![(s, seq![c.status])];
    reveal(account::exchanged);
    assert(account::brought(b.io, 1, looks[0].1));
}

/// A request with data that was laid out, submitted, and completed, and left the status OK
/// and these bytes.
pub proof fn lemma_asked_for_data(
    start: Bench,
    steps: Seq<Step>,
    i: int,
    kind: u32,
    sector: Sector,
    bytes: Seq<u8>,
    segs: Seq<Seg>,
    want: Seq<u8>,
)
    requires
        0 <= i,
        i + 11 <= steps.len(),
        all_went(start, steps),
        at(start, steps, i).bufs.len() == 0,
        bytes.len() <= 0x400_0000,
        stages_three(steps, i, 0, kind, sector, bytes),
        steps[i + 6] == (Step::Submit { chain: segs }),
        steps[i + 7] == (Step::Status { buf: 2 }),
        steps[i + 8] is ExpectOk,
        want.len() == bytes.len(),
        steps[i + 9] == (Step::Load { buf: 1, len: want.len() as usize }),
        steps[i + 10] matches Step::Same { want: w, .. } && w == want,
        within(segs, 0, 3),
    ensures
        ({
            let b = at(start, steps, i);
            let c = at(start, steps, i + 11);
            let (h, d, s) = account::places(b.s, bytes.len() as int);
            account::exchanged(
                b.line(),
                c.line(),
                account::laid(h, kind, b.sector(sector), d, bytes, s),
                laid_out(segs, seq![h, d, s], 0),
                seq![(s, seq![0u8]), (d, want)],
            )
        }),
{
    let b = at(start, steps, i);
    let m = at(start, steps, i + 6);
    let n = at(start, steps, i + 7);
    let o = at(start, steps, i + 8);
    let c = at(start, steps, i + 11);
    let (h, d, s) = account::places(b.s, bytes.len() as int);
    let stores = account::laid(h, kind, b.sector(sector), d, bytes, s);
    lemma_prepared_three(start, steps, i, kind, sector, bytes);
    let bufs = seq![h, d, s];
    assert(m.buf(0) == bufs[0] && m.buf(1) == bufs[1] && m.buf(2) == bufs[2]);
    let chain = laid_out(segs, bufs, 0);
    assert forall|j: int| 0 <= j < segs.len() implies m.desc(segs[j]) == chain[j] by {
        assert(m.buf(segs[j].buf as int) == bufs[segs[j].buf as int]);
    }
    assert(m.descs(segs) =~= chain);
    lemma_step(start, steps, i + 6);
    lemma_step(start, steps, i + 7);
    lemma_ok(start, steps, i + 8);
    lemma_step(start, steps, i + 9);
    lemma_step(start, steps, i + 10);
    lemma_two_looks(
        b.line(),
        m.line(),
        n.line(),
        o.line(),
        c.line(),
        stores,
        chain,
        (s, seq![0u8]),
        (d, want),
    );
}

/// A request without data that was laid out, submitted, and completed, and left a status.
pub proof fn lemma_asked_bare(start: Bench, steps: Seq<Step>, i: int, kind: u32, sector: Sector)
    requires
        0 <= i,
        i + 6 <= steps.len(),
        all_went(start, steps),
        at(start, steps, i).bufs.len() == 0,
        stages_two(steps, i, kind, sector),
        steps[i + 4] == (Step::Submit {
            chain: seq![Seg::readable(0, 0, 16), Seg::writable(1, 0, 1)],
        }),
        steps[i + 5] == (Step::Status { buf: 1 }),
    ensures
        ({
            let b = at(start, steps, i);
            let c = at(start, steps, i + 6);
            let (h, s) = account::bare_places(b.s);
            &&& account::exchanged(
                b.line(),
                c.line(),
                account::laid_bare(h, kind, b.sector(sector), s),
                seq![model::readable(h, 16), model::writable(s, 1)],
                seq![(s, seq![c.status])],
            )
            &&& c.status == account::bytes_of(b.io, 1)[0]
        }),
{
    let b = at(start, steps, i);
    let m = at(start, steps, i + 4);
    let n = at(start, steps, i + 5);
    let c = at(start, steps, i + 6);
    let (h, s) = account::bare_places(b.s);
    let stores = account::laid_bare(h, kind, b.sector(sector), s);
    lemma_prepared_two(start, steps, i, kind, sector);
    let bufs = seq![h, s];
    assert(m.buf(0) == bufs[0] && m.buf(1) == bufs[1]);
    let chain = seq![model::readable(h, 16), model::writable(s, 1)];
    assert(m.descs(steps[i + 4]->Submit_chain) =~= chain);
    lemma_step(start, steps, i + 4);
    lemma_step(start, steps, i + 5);
    lemma_one_look(b.line(), m.line(), n.line(), c.line(), stores, chain, s, seq![c.status]);
    let looks = seq![(s, seq![c.status])];
    reveal(account::exchanged);
    assert(account::brought(b.io, 1, looks[0].1));
}

/// A request with data that was laid out and posted.
pub proof fn lemma_posted(
    start: Bench,
    steps: Seq<Step>,
    i: int,
    kind: u32,
    sector: Sector,
    bytes: Seq<u8>,
    segs: Seq<Seg>,
)
    requires
        0 <= i,
        i + 7 <= steps.len(),
        all_went(start, steps),
        at(start, steps, i).bufs.len() <= 100,
        bytes.len() <= 0x400_0000,
        stages_three(steps, i, at(start, steps, i).bufs.len() as int, kind, sector, bytes),
        steps[i + 6] == (Step::Post { chain: segs }),
        within(segs, at(start, steps, i).bufs.len() as int, 3),
    ensures
        ({
            let b = at(start, steps, i);
            let c = at(start, steps, i + 7);
            let k = b.bufs.len() as int;
            let (h, d, s) = account::places(b.s, bytes.len() as int);
            &&& account::spoke(
                b.io,
                c.io,
                account::laid(h, kind, b.sector(sector), d, bytes, s) + model::post_stores(
                    b.s,
                    laid_out(segs, seq![h, d, s], k),
                ),
                0,
            )
            &&& c.heads == b.heads.push(b.s.next_desc)
            &&& c.reported == b.reported
            &&& c.s == (Session {
                next_data: c.s.next_data,
                ..model::posted(b.s, segs.len())
            })
            &&& c.bufs.len() == k + 3
            &&& c.buf(k) == h
            &&& c.buf(k + 1) == d
            &&& c.buf(k + 2) == s
            &&& forall|j: int| 0 <= j < k ==> #[trigger] c.buf(j) == b.buf(j)
        }),
{
    let b = at(start, steps, i);
    let m = at(start, steps, i + 6);
    let c = at(start, steps, i + 7);
    let k = b.bufs.len() as int;
    let (h, d, s) = account::places(b.s, bytes.len() as int);
    let stores = account::laid(h, kind, b.sector(sector), d, bytes, s);
    lemma_prepared_three(start, steps, i, kind, sector, bytes);
    let bufs = seq![h, d, s];
    assert(m.buf(k) == bufs[0] && m.buf(k + 1) == bufs[1] && m.buf(k + 2) == bufs[2]);
    let chain = laid_out(segs, bufs, k);
    assert forall|j: int| 0 <= j < segs.len() implies m.desc(segs[j]) == chain[j] by {
        assert(m.buf(segs[j].buf as int) == bufs[segs[j].buf - k]);
    }
    assert(m.descs(segs) =~= chain);
    lemma_step(start, steps, i + 6);
    assert(c.io.log =~= b.io.log + (stores + model::post_stores(b.s, chain)));
    assert forall|j: int| 0 <= j < k implies #[trigger] c.buf(j) == b.buf(j) by {
        assert(m.buf(j) == b.buf(j));
    }
    assert(c.bufs == m.bufs);
}

/// A read with four bytes for its status, which was answered in full.
pub proof fn lemma_asked_wide(
    start: Bench,
    steps: Seq<Step>,
    i: int,
    sector: Sector,
    want: Seq<u8>,
)
    requires
        0 <= i,
        i + 13 <= steps.len(),
        all_went(start, steps),
        at(start, steps, i).bufs.len() == 0,
        want.len() <= 0x400_0000,
        stages_wide(
            steps,
            i,
            0,
            0,
            sector,
            mem::repeated(0, want.len()),
            mem::repeated(0xff, 4),
        ),
        steps[i + 6] == (Step::Submit {
            chain: seq![
                Seg::readable(0, 0, 16),
                Seg::writable(1, 0, want.len() as usize),
                Seg::writable(2, 0, 4),
            ],
        }),
        steps[i + 7] == (Step::Status { buf: 2 }),
        steps[i + 8] is ExpectOk,
        steps[i + 9] == (Step::Load { buf: 2, len: 4 }),
        steps[i + 10] matches Step::Untouched { from, .. } && from == 1,
        steps[i + 11] == (Step::Load { buf: 1, len: want.len() as usize }),
        steps[i + 12] matches Step::Same { want: w, .. } && w == want,
    ensures
        ({
            let b = at(start, steps, i);
            let c = at(start, steps, i + 13);
            let (h, d, s) = account::places(b.s, want.len() as int);
            &&& account::exchanged(
                b.line(),
                c.line(),
                model::header_stores(h, 0, b.sector(sector)) + seq![
                    mem::store(d, mem::repeated(0, want.len())),
                    mem::store(s, mem::repeated(0xff, 4)),
                ],
                seq![
                    model::readable(h, 16),
                    model::writable(d, want.len() as int),
                    model::writable(s, 4),
                ],
                seq![(s, seq![0u8]), (s, account::bytes_of(b.io, 2)), (d, want)],
            )
            &&& account::bytes_of(b.io, 2).len() == 4
            &&& forall|j: int| 1 <= j < 4 ==> #[trigger] account::bytes_of(b.io, 2)[j] == 0xff
        }),
{
    let b = at(start, steps, i);
    let m = at(start, steps, i + 6);
    let n = at(start, steps, i + 7);
    let o = at(start, steps, i + 8);
    let p = at(start, steps, i + 10);
    let c = at(start, steps, i + 13);
    let (h, d, s) = account::places(b.s, want.len() as int);
    let zeroes = mem::repeated(0, want.len());
    let tail = mem::repeated(0xff, 4);
    let stores = model::header_stores(h, 0, b.sector(sector)) + seq![
        mem::store(d, zeroes),
        mem::store(s, tail),
    ];
    lemma_prepared_wide(start, steps, i, 0, sector, zeroes, tail);
    let bufs = seq![h, d, s];
    assert(m.buf(0) == bufs[0] && m.buf(1) == bufs[1] && m.buf(2) == bufs[2]);
    let chain = seq![
        model::readable(h, 16),
        model::writable(d, want.len() as int),
        model::writable(s, 4),
    ];
    assert(m.descs(steps[i + 6]->Submit_chain) =~= chain);
    lemma_step(start, steps, i + 6);
    lemma_step(start, steps, i + 7);
    lemma_ok(start, steps, i + 8);
    lemma_step(start, steps, i + 9);
    lemma_step(start, steps, i + 10);
    lemma_step(start, steps, i + 11);
    lemma_step(start, steps, i + 12);
    let looks = seq![(s, seq![0u8]), (s, p.data), (d, want)];
    lemma_three_looks(
        b.line(),
        m.line(),
        n.line(),
        o.line(),
        p.line(),
        c.line(),
        stores,
        chain,
        looks[0],
        looks[1],
        looks[2],
    );
    assert(account::bytes_of(b.io, 2) == p.data) by {
        reveal(account::exchanged);
        assert(account::brought(b.io, 2, looks[1].1));
    }
}

/// A read that was laid out and posted through a table of its own.
pub proof fn lemma_posted_through_table(
    start: Bench,
    steps: Seq<Step>,
    i: int,
    sector: Sector,
    len: nat,
)
    requires
        0 <= i,
        i + 8 <= steps.len(),
        all_went(start, steps),
        at(start, steps, i).bufs.len() == 0,
        len <= 0x400_0000,
        stages_three(steps, i, 0, 0, sector, mem::repeated(0, len)),
        steps[i + 6] == (Step::Alloc { len: 48 }),
        steps[i + 7] == (Step::PostIndirect {
            chain: seq![
                Seg::readable(0, 0, 16),
                Seg::writable(1, 0, len as usize),
                Seg::writable(2, 0, 1),
            ],
            table: 3,
        }),
    ensures
        ({
            let b = at(start, steps, i);
            let c = at(start, steps, i + 8);
            let (h, d, s) = account::places(b.s, len as int);
            &&& account::spoke(
                b.io,
                c.io,
                account::laid(h, 0, b.sector(sector), d, mem::repeated(0, len), s)
                    + model::indirect_stores(
                    b.s,
                    seq![
                        model::readable(h, 16),
                        model::writable(d, len as int),
                        model::writable(s, 1),
                    ],
                    model::next_buffer(model::three(b.s, len as int).3),
                ),
                0,
            )
            &&& c.heads == b.heads.push(b.s.next_desc)
            &&& c.s.used_idx_seen == b.s.used_idx_seen
            &&& c.buf(1) == d
            &&& c.buf(2) == s
        }),
{
    let b = at(start, steps, i);
    let m = at(start, steps, i + 6);
    let p = at(start, steps, i + 7);
    let c = at(start, steps, i + 8);
    let zeroes = mem::repeated(0, len);
    let (h, d, s) = account::places(b.s, len as int);
    let table = model::next_buffer(model::three(b.s, len as int).3);
    lemma_prepared_three(start, steps, i, 0, sector, zeroes);
    let bufs = seq![h, d, s];
    assert(m.buf(0) == bufs[0] && m.buf(1) == bufs[1] && m.buf(2) == bufs[2]);
    lemma_step(start, steps, i + 6);
    assert(p.buf(0) == h && p.buf(1) == d && p.buf(2) == s && p.buf(3) == table);
    let chain = seq![
        model::readable(h, 16),
        model::writable(d, len as int),
        model::writable(s, 1),
    ];
    assert(p.descs(steps[i + 7]->PostIndirect_chain) =~= chain);
    lemma_step(start, steps, i + 7);
    assert(c.io.log =~= b.io.log + (account::laid(h, 0, b.sector(sector), d, zeroes, s)
        + model::indirect_stores(b.s, chain, table)));
}

/// A read that was posted as the last one, and answered in full.
pub proof fn lemma_answered_in_full(start: Bench, steps: Seq<Step>, i: int, want: Seq<u8>)
    requires
        0 <= i,
        i + 7 <= steps.len(),
        all_went(start, steps),
        want.len() <= 0x400_0000,
        steps[i] == Step::Kick,
        steps[i + 1] is Await,
        steps[i + 2] is CheckHead,
        steps[i + 3] == (Step::Status { buf: 2 }),
        steps[i + 4] is ExpectOk,
        steps[i + 5] == (Step::Load { buf: 1, len: want.len() as usize }),
        steps[i + 6] matches Step::Same { want: w, .. } && w == want,
    ensures
        ({
            let b = at(start, steps, i);
            let c = at(start, steps, i + 7);
            &&& account::spoke(
                b.io,
                c.io,
                seq![
                    ActionOf::Kick,
                    account::wait_for(b.s, 5000),
                    account::look(b.buf(2), 1),
                    account::look(b.buf(1), want.len()),
                ],
                3,
            )
            &&& account::completed(b.io, 0, b.heads.last() as int)
            &&& account::brought(b.io, 1, seq![0u8])
            &&& account::brought(b.io, 2, want)
        }),
{
    let b = at(start, steps, i);
    let c = at(start, steps, i + 7);
    lemma_step(start, steps, i);
    lemma_step(start, steps, i + 1);
    lemma_step(start, steps, i + 2);
    lemma_step(start, steps, i + 3);
    lemma_ok(start, steps, i + 4);
    lemma_step(start, steps, i + 5);
    lemma_step(start, steps, i + 6);
    assert(c.io.log =~= b.io.log + seq![
        ActionOf::Kick,
        account::wait_for(b.s, 5000),
        account::look(b.buf(2), 1),
        account::look(b.buf(1), want.len()),
    ]);
}

/// A request with data in one segment that was laid out and posted.
pub proof fn lemma_handed(
    start: Bench,
    steps: Seq<Step>,
    i: int,
    kind: u32,
    sector: Sector,
    bytes: Seq<u8>,
    fills: bool,
)
    requires
        0 <= i,
        i + 7 <= steps.len(),
        all_went(start, steps),
        at(start, steps, i).bufs.len() <= 100,
        bytes.len() <= 0x400_0000,
        stages_three(steps, i, at(start, steps, i).bufs.len() as int, kind, sector, bytes),
        ({
            let k = at(start, steps, i).bufs.len() as int;
            steps[i + 6] == (Step::Post {
                chain: seq![
                    Seg::readable(k as usize, 0, 16),
                    Seg { buf: (k + 1) as usize, at: 0, len: bytes.len() as usize, write: fills },
                    Seg::writable((k + 2) as usize, 0, 1),
                ],
            })
        }),
    ensures
        ({
            let b = at(start, steps, i);
            let c = at(start, steps, i + 7);
            let k = b.bufs.len() as int;
            let (h, d, s) = account::places(b.s, bytes.len() as int);
            &&& account::handed(
                b.line(),
                c.line(),
                kind,
                b.sector(sector) as int,
                bytes,
                fills,
            )
            &&& c.heads == b.heads.push(b.s.next_desc)
            &&& c.reported == b.reported
            &&& c.bufs.len() == k + 3
            &&& c.buf(k) == h
            &&& c.buf(k + 1) == d
            &&& c.buf(k + 2) == s
            &&& forall|j: int| 0 <= j < k ==> #[trigger] c.buf(j) == b.buf(j)
        }),
{
    let b = at(start, steps, i);
    let k = b.bufs.len() as int;
    let segs = steps[i + 6]->Post_chain;
    let (h, d, s) = account::places(b.s, bytes.len() as int);
    assert(within(segs, k, 3));
    lemma_posted(start, steps, i, kind, sector, bytes, segs);
    let middle = if fills {
        model::writable(d, bytes.len() as int)
    } else {
        model::readable(d, bytes.len() as int)
    };
    assert(laid_out(segs, seq![h, d, s], k) =~= seq![
        model::readable(h, 16),
        middle,
        model::writable(s, 1),
    ]);
}

/// A request that was posted as the last one and completed, and the notification that came
/// or did not come.
pub proof fn lemma_notified(start: Bench, steps: Seq<Step>, i: int, ms: u64, come: bool)
    requires
        0 <= i,
        i + 4 <= steps.len(),
        all_went(start, steps),
        steps[i] == Step::Kick,
        steps[i + 1] is Await,
        steps[i + 2] is CheckHead,
        steps[i + 3] matches Step::Signal { timeout_ms, want, .. } && timeout_ms == ms && want
            == come,
    ensures
        ({
            let b = at(start, steps, i);
            let c = at(start, steps, i + 4);
            &&& account::spoke(
                b.io,
                c.io,
                seq![
                    ActionOf::Kick,
                    account::wait_for(b.s, 5000),
                    ActionOf::WaitCall { timeout_ms: ms },
                ],
                2,
            )
            &&& account::completed(b.io, 0, b.heads.last() as int)
            &&& account::answered(b.io, 1, ReplyOf::Flag(come))
        }),
{
    let b = at(start, steps, i);
    let c = at(start, steps, i + 4);
    lemma_step(start, steps, i);
    lemma_step(start, steps, i + 1);
    lemma_step(start, steps, i + 2);
    lemma_step(start, steps, i + 3);
    assert(c.io.log =~= b.io.log + seq![
        ActionOf::Kick,
        account::wait_for(b.s, 5000),
        ActionOf::WaitCall { timeout_ms: ms },
    ]);
}

/// The device was woken and given some time, whatever it made of it.
pub proof fn lemma_ignored(start: Bench, steps: Seq<Step>, i: int, ms: u64)
    requires
        0 <= i,
        i + 2 <= steps.len(),
        all_went(start, steps),
        steps[i] == Step::Kick,
        steps[i + 1] == (Step::IgnoreUsed { timeout_ms: ms }),
    ensures
        ({
            let b = at(start, steps, i);
            let c = at(start, steps, i + 2);
            account::spoke(b.io, c.io, seq![ActionOf::Kick, account::wait_for(b.s, ms)], 1)
        }),
{
    let b = at(start, steps, i);
    let c = at(start, steps, i + 2);
    lemma_step(start, steps, i);
    lemma_step(start, steps, i + 1);
    assert(c.io.log =~= b.io.log + seq![ActionOf::Kick, account::wait_for(b.s, ms)]);
}

/// A read of a sector that was posted without anything stored where its answer will stand.
pub proof fn lemma_posted_without_poison(start: Bench, steps: Seq<Step>, i: int)
    requires
        0 <= i,
        i + 5 <= steps.len(),
        all_went(start, steps),
        at(start, steps, i).bufs.len() == 0,
        steps[i] == (Step::Alloc { len: 16 }),
        steps[i + 1] == (Step::Header { buf: 0, req_type: 0, at: Sector::At(0) }),
        steps[i + 2] == (Step::Alloc { len: 512 }),
        steps[i + 3] == (Step::Alloc { len: 1 }),
        steps[i + 4] == (Step::Post {
            chain: seq![
                Seg::readable(0, 0, 16),
                Seg::writable(1, 0, 512),
                Seg::writable(2, 0, 1),
            ],
        }),
    ensures
        ({
            let b = at(start, steps, i);
            let c = at(start, steps, i + 5);
            let (h, d, s) = account::places(b.s, 512);
            &&& account::spoke(
                b.io,
                c.io,
                model::header_stores(h, 0, 0) + model::post_stores(
                    b.s,
                    seq![model::readable(h, 16), model::writable(d, 512), model::writable(s, 1)],
                ),
                0,
            )
            &&& c.s.used_idx_seen == b.s.used_idx_seen
        }),
{
    let b = at(start, steps, i);
    let m = at(start, steps, i + 4);
    let c = at(start, steps, i + 5);
    let (h, d, s) = account::places(b.s, 512);
    lemma_step(start, steps, i);
    lemma_step(start, steps, i + 1);
    lemma_step(start, steps, i + 2);
    lemma_step(start, steps, i + 3);
    lemma_step(start, steps, i + 4);
    assert(at(start, steps, i + 1).buf(0) == h);
    assert(m.buf(0) == h && m.buf(1) == d && m.buf(2) == s);
    let chain = seq![model::readable(h, 16), model::writable(d, 512), model::writable(s, 1)];
    assert(m.descs(steps[i + 4]->Post_chain) =~= chain);
    assert(c.io.log =~= b.io.log + (model::header_stores(h, 0, 0) + model::post_stores(
        b.s,
        chain,
    )));
}

/// A discard of two runs of sectors that was laid out, submitted, and completed, and left a
/// status.
pub proof fn lemma_asked_with_two_runs(start: Bench, steps: Seq<Step>, i: int)
    requires
        0 <= i,
        i + 10 <= steps.len(),
        all_went(start, steps),
        at(start, steps, i).bufs.len() == 0,
        steps[i] == (Step::Alloc { len: 16 }),
        steps[i + 1] == (Step::Header { buf: 0, req_type: 11, at: Sector::At(0) }),
        steps[i + 2] == (Step::Alloc { len: 16 }),
        steps[i + 3] == (Step::Zero { buf: 1, len: 16 }),
        steps[i + 4] == (Step::Alloc { len: 16 }),
        steps[i + 5] == (Step::Zero { buf: 2, len: 16 }),
        steps[i + 6] == (Step::Alloc { len: 1 }),
        steps[i + 7] == (Step::Put { buf: 3, at: 0, data: seq![0xffu8] }),
        steps[i + 8] == (Step::Submit {
            chain: seq![
                Seg::readable(0, 0, 16),
                Seg::readable(1, 0, 16),
                Seg::readable(2, 0, 16),
                Seg::writable(3, 0, 1),
            ],
        }),
        steps[i + 9] == (Step::Status { buf: 3 }),
    ensures
        ({
            let b = at(start, steps, i);
            let c = at(start, steps, i + 10);
            let h = model::next_buffer(b.s);
            let one = model::allocated(b.s, 16);
            let two = model::allocated(one, 16);
            let d = model::next_buffer(one);
            let e = model::next_buffer(two);
            let s = model::next_buffer(model::allocated(two, 16));
            account::exchanged(
                b.line(),
                c.line(),
                model::header_stores(h, 11, 0) + seq![
                    mem::store(d, mem::repeated(0, 16)),
                    mem::store(e, mem::repeated(0, 16)),
                    mem::store(s, seq![0xffu8]),
                ],
                seq![
                    model::readable(h, 16),
                    model::readable(d, 16),
                    model::readable(e, 16),
                    model::writable(s, 1),
                ],
                seq![(s, seq![c.status])],
            )
        }),
{
    let b = at(start, steps, i);
    let m = at(start, steps, i + 8);
    let n = at(start, steps, i + 9);
    let c = at(start, steps, i + 10);
    let h = model::next_buffer(b.s);
    let one = model::allocated(b.s, 16);
    let two = model::allocated(one, 16);
    let d = model::next_buffer(one);
    let e = model::next_buffer(two);
    let s = model::next_buffer(model::allocated(two, 16));
    let stores = model::header_stores(h, 11, 0) + seq![
        mem::store(d, mem::repeated(0, 16)),
        mem::store(e, mem::repeated(0, 16)),
        mem::store(s, seq![0xffu8]),
    ];
    lemma_step(start, steps, i);
    lemma_step(start, steps, i + 1);
    lemma_step(start, steps, i + 2);
    lemma_step(start, steps, i + 3);
    lemma_step(start, steps, i + 4);
    lemma_step(start, steps, i + 5);
    lemma_step(start, steps, i + 6);
    lemma_step(start, steps, i + 7);
    assert(at(start, steps, i + 1).buf(0) == h);
    assert(at(start, steps, i + 3).buf(1) == d);
    assert(at(start, steps, i + 5).buf(2) == e);
    assert(at(start, steps, i + 7).buf(3) == s);
    assert(m.buf(0) == h && m.buf(1) == d && m.buf(2) == e && m.buf(3) == s);
    assert(m.io.log =~= b.io.log + stores);
    let chain = seq![
        model::readable(h, 16),
        model::readable(d, 16),
        model::readable(e, 16),
        model::writable(s, 1),
    ];
    assert(m.descs(steps[i + 8]->Submit_chain) =~= chain);
    lemma_step(start, steps, i + 8);
    lemma_step(start, steps, i + 9);
    lemma_one_look(b.line(), m.line(), n.line(), c.line(), stores, chain, s, seq![c.status]);
}

} // verus!
