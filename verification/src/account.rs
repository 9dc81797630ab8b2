//! What a conversation with a device was, in terms of actions and answers alone.
//!
//! An account says of two points of a conversation what came between them: the sessions
//! that were opened, the requests that the device was given and how they were laid out,
//! how long it had to complete them, and what it answered.

use vstd::prelude::*;

use crate::dev::{Desc, Session};
use crate::laws;
use crate::le;
use crate::link::{Act, ActionOf, Got, Rep, ReplyOf, Talk};
use crate::mem;
use crate::model;
use crate::model::Line;

verus! {

// ---- actions and answers ---------------------------------------------------------------

/// From `a` to `b` these actions were taken, and `n` answers.
pub open spec fn spoke(a: Talk, b: Talk, acts: Seq<Act>, n: int) -> bool {
    &&& b.log == a.log + acts
    &&& b.next == a.next + n
    &&& b.replies == a.replies
    &&& b.delay_ms == a.delay_ms
}

/// The answer taken `i` answers after `t`.
pub open spec fn answer(t: Talk, i: int) -> Rep {
    t.replies[t.next + i]
}

/// The answer taken `i` answers after `t` is this one.
pub open spec fn answered(t: Talk, i: int, r: Rep) -> bool {
    0 <= t.next + i < t.replies.len() && answer(t, i) == r
}

/// The bytes that the answer brings.
pub open spec fn bytes_of(t: Talk, i: int) -> Seq<u8> {
    answer(t, i)->Bytes_0
}

/// The answer taken `i` answers after `t` brings these bytes.
pub open spec fn brought(t: Talk, i: int, bytes: Seq<u8>) -> bool {
    &&& 0 <= t.next + i < t.replies.len()
    &&& answer(t, i) is Bytes
    &&& bytes_of(t, i) == bytes
}

/// The answer taken `i` answers after `t` brings a used element for the chain with this
/// head.
pub open spec fn completed(t: Talk, i: int, head: int) -> bool {
    &&& 0 <= t.next + i < t.replies.len()
    &&& answer(t, i) is Bytes
    &&& bytes_of(t, i).len() == 8
    &&& le::le_value(bytes_of(t, i).take(4)) == head
}

/// How many bytes the device says it wrote, in the used element of that answer.
pub open spec fn written_by_device(t: Talk, i: int) -> nat {
    le::le_value(bytes_of(t, i).skip(4))
}

/// The wait for the next used element of a session.
pub open spec fn wait_for(s: Session, ms: u64) -> Act {
    ActionOf::WaitUsed {
        seen: s.used_idx_seen,
        index_off: 0x3002,
        elem_off: (0x3004 + s.used_idx_seen % 256 * 8) as usize,
        timeout_ms: ms,
    }
}

/// The look at so many bytes of memory.
pub open spec fn look(off: int, len: nat) -> Act {
    ActionOf::Load { off: off as usize, len: len as usize }
}

// ---- sessions --------------------------------------------------------------------------

/// What a session that was opened from `t` on has agreed on and knows of the device, by
/// the answers that came.
pub open spec fn agreed(t: Talk, s: Session, mask_out: u64) -> bool {
    &&& answered(t, 2, ReplyOf::Number(s.offered))
    &&& s.acked == s.offered & !0x2000_0000u64 & !mask_out
    &&& if s.offered & 0x4000_0000 == 0 {
        s.proto == 0
    } else {
        answer(t, 4) is Number && s.proto == answer(t, 4)->Number_0 & 0x200
    }
    &&& if s.proto & 0x200 == 0x200 && answer(t, 6) is Bytes {
        &&& s.capacity_sectors == le::le_value(le::window(bytes_of(t, 6), 0, 8))
        &&& s.config_blk_size == le::le_value(le::window(bytes_of(t, 6), 20, 4))
    } else {
        s.capacity_sectors == 0 && s.config_blk_size == 512
    }
    &&& s.blk_size == if s.config_blk_size == 0 {
        512
    } else {
        s.config_blk_size
    }
    &&& answered(
        t,
        handshake_answers(s, false) - 3,
        ReplyOf::Mapped { fd: s.mem.fd, va: s.mem.base },
    )
    &&& s.mem.size == 0x400_0000
    &&& s.next_desc == 0
    &&& s.next_data == 0x10_0000
}

/// How many answers a handshake takes.
pub open spec fn handshake_answers(s: Session, table: bool) -> int {
    let proto: int = if s.offered & 0x4000_0000 == 0 {
        0
    } else {
        2
    };
    let config: int = if s.proto & 0x200 == 0x200 {
        1
    } else {
        0
    };
    let regions: int = if table {
        1
    } else {
        0
    };
    7 + proto + config + regions
}

/// How many answers the set-up of the ring takes.
pub open spec fn ring_answers(s: Session) -> int {
    if s.acked & 0x4000_0000 == 0 {
        5
    } else {
        6
    }
}

/// A session without a ring was opened.
#[verifier::opaque]
pub open spec fn greeted(a: Line, b: Line, path: Seq<char>, table: bool) -> bool {
    &&& spoke(
        a.io,
        b.io,
        laws::handshake_messages(path, b.s, table),
        handshake_answers(b.s, table),
    )
    &&& agreed(a.io, b.s, 0)
    &&& b.s.avail_idx == 0
    &&& b.s.used_idx_seen == 0
}

/// A session was opened, and its ring with both indices at `base`.
#[verifier::opaque]
pub open spec fn opened(a: Line, b: Line, path: Seq<char>, mask_out: u64, base: u16) -> bool {
    &&& spoke(
        a.io,
        b.io,
        laws::handshake_messages(path, b.s, true) + laws::ring_messages(b.s, base),
        handshake_answers(b.s, true) + ring_answers(b.s),
    )
    &&& agreed(a.io, b.s, mask_out)
    &&& b.s.avail_idx == base
    &&& b.s.used_idx_seen == base
}

/// The session was given up.
pub open spec fn closed(a: Line, b: Line) -> bool {
    spoke(a.io, b.io, seq![ActionOf::Close], 0)
}

/// There was the pause that was asked for, if one was.
pub open spec fn paused(a: Line, b: Line) -> bool {
    if a.io.delay_ms > 0 {
        spoke(a.io, b.io, seq![ActionOf::Sleep { ms: a.io.delay_ms }], 0)
    } else {
        spoke(a.io, b.io, Seq::empty(), 0)
    }
}

// ---- requests --------------------------------------------------------------------------

/// A session in which a chain of `n` segments was posted and completed.
pub open spec fn moved(a: Session, b: Session, n: int) -> bool {
    b == (Session {
        next_desc: ((a.next_desc + n) % 256) as u16,
        avail_idx: ((a.avail_idx + 1) % 0x1_0000) as u16,
        used_idx_seen: ((a.used_idx_seen + 1) % 0x1_0000) as u16,
        next_data: b.next_data,
        ..a
    })
}

/// The device was handed a request: these bytes were stored, this chain was posted, and the
/// device was woken and given five seconds. It completed this very chain, and then the
/// memory was looked at as `looks` says, each look finding these bytes.
#[verifier::opaque]
pub open spec fn exchanged(
    a: Line,
    b: Line,
    stores: Seq<Act>,
    chain: Seq<Desc>,
    looks: Seq<(int, Seq<u8>)>,
) -> bool {
    &&& spoke(
        a.io,
        b.io,
        stores + model::post_stores(a.s, chain) + seq![ActionOf::Kick, wait_for(a.s, 5000)]
            + Seq::new(looks.len(), |i: int| look(looks[i].0, looks[i].1.len())),
        (1 + looks.len()) as int,
    )
    &&& completed(a.io, 0, a.s.next_desc as int)
    &&& forall|i: int| 0 <= i < looks.len() ==> brought(a.io, 1 + i, #[trigger] looks[i].1)
    &&& moved(a.s, b.s, chain.len() as int)
}

/// A header at `h`, bytes at `d`, and at `s` a status that nobody has written yet.
pub open spec fn laid(h: int, kind: u32, sector: u64, d: int, bytes: Seq<u8>, s: int) -> Seq<Act> {
    model::header_stores(h, kind, sector) + seq![mem::store(d, bytes), mem::store(s, seq![0xffu8])]
}

/// A header at `h`, and at `s` a status that nobody has written yet.
pub open spec fn laid_bare(h: int, kind: u32, sector: u64, s: int) -> Seq<Act> {
    model::header_stores(h, kind, sector) + seq![mem::store(s, seq![0xffu8])]
}

/// Where the three buffers of a request with `len` bytes in the middle start.
pub open spec fn places(s: Session, len: int) -> (int, int, int) {
    let t = model::three(s, len);
    (t.0, t.1, t.2)
}

/// Where the two buffers of a request without data start.
pub open spec fn bare_places(s: Session) -> (int, int) {
    (model::next_buffer(s), model::next_buffer(model::allocated(s, 16)))
}

/// The device was asked to write these bytes from this sector on, and left this status.
pub open spec fn wrote(a: Line, b: Line, sector: int, bytes: Seq<u8>, status: u8) -> bool {
    let (h, d, s) = places(a.s, bytes.len() as int);
    exchanged(
        a,
        b,
        laid(h, 1, sector as u64, d, bytes, s),
        seq![
            model::readable(h, 16),
            model::readable(d, bytes.len() as int),
            model::writable(s, 1),
        ],
        seq![(s, seq![status])],
    )
}

/// The device was asked for bytes by a request of this kind, and left these and this
/// status.
pub open spec fn fetched(
    a: Line,
    b: Line,
    kind: u32,
    sector: int,
    bytes: Seq<u8>,
    status: u8,
) -> bool {
    let (h, d, s) = places(a.s, bytes.len() as int);
    exchanged(
        a,
        b,
        laid(h, kind, sector as u64, d, mem::repeated(0, bytes.len()), s),
        seq![
            model::readable(h, 16),
            model::writable(d, bytes.len() as int),
            model::writable(s, 1),
        ],
        seq![(d, bytes), (s, seq![status])],
    )
}

/// The device was asked for the bytes from this sector on, and left these and this status.
pub open spec fn read(a: Line, b: Line, sector: int, bytes: Seq<u8>, status: u8) -> bool {
    fetched(a, b, 0, sector, bytes, status)
}

/// The device was asked for `len` bytes from this sector on, and left this status.
pub open spec fn tried_read(a: Line, b: Line, sector: int, len: nat, status: u8) -> bool {
    bytes_of(a.io, 1).len() == len && read(a, b, sector, bytes_of(a.io, 1), status)
}

/// The device was asked for its identity, and left these bytes and this status.
pub open spec fn identified(a: Line, b: Line, bytes: Seq<u8>, status: u8) -> bool {
    fetched(a, b, 8, 0, bytes, status)
}

/// The device was asked to flush, and left this status.
pub open spec fn flushed(a: Line, b: Line, status: u8) -> bool {
    let (h, s) = bare_places(a.s);
    exchanged(
        a,
        b,
        laid_bare(h, 4, 0, s),
        seq![model::readable(h, 16), model::writable(s, 1)],
        seq![(s, seq![status])],
    )
}

/// The device was asked to discard or to zero `n` sectors from this one on, and left this
/// status.
pub open spec fn ranged(
    a: Line,
    b: Line,
    kind: u32,
    sector: int,
    n: u32,
    unmap: bool,
    status: u8,
) -> bool {
    let (h, d, s) = places(a.s, 16);
    exchanged(
        a,
        b,
        model::header_stores(h, kind, 0) + model::segment_stores(d, sector as u64, n, unmap)
            + seq![mem::store(s, seq![0xffu8])],
        seq![model::readable(h, 16), model::readable(d, 16), model::writable(s, 1)],
        seq![(s, seq![status])],
    )
}

/// The device was handed a request without being woken: bytes that it fills or reads, and
/// no answer yet.
pub open spec fn handed(
    a: Line,
    b: Line,
    kind: u32,
    sector: int,
    bytes: Seq<u8>,
    fills: bool,
) -> bool {
    let (h, d, s) = places(a.s, bytes.len() as int);
    let middle = if fills {
        model::writable(d, bytes.len() as int)
    } else {
        model::readable(d, bytes.len() as int)
    };
    &&& spoke(
        a.io,
        b.io,
        laid(h, kind, sector as u64, d, bytes, s) + model::post_stores(
            a.s,
            seq![model::readable(h, 16), middle, model::writable(s, 1)],
        ),
        0,
    )
    &&& b.s == (Session {
        next_desc: ((a.s.next_desc + 3) % 256) as u16,
        avail_idx: ((a.s.avail_idx + 1) % 0x1_0000) as u16,
        next_data: b.s.next_data,
        ..a.s
    })
}

/// Within five seconds a completion came for the chain with this head, and then these bytes
/// stood where the device had to leave them.
pub open spec fn collected(a: Line, b: Line, head: int, off: int, bytes: Seq<u8>) -> bool {
    &&& spoke(a.io, b.io, seq![wait_for(a.s, 5000), look(off, bytes.len())], 2)
    &&& completed(a.io, 0, head)
    &&& brought(a.io, 1, bytes)
    &&& b.s == (Session {
        used_idx_seen: ((a.s.used_idx_seen + 1) % 0x1_0000) as u16,
        ..a.s
    })
}

// ---- operations of a session -----------------------------------------------------------

pub proof fn lemma_used(u: Seq<u8>)
    requires
        u.len() == 8,
    ensures
        model::used_in(u).id == le::le_value(u.take(4)),
        model::used_in(u).len == le::le_value(u.skip(4)),
{
    assert(le::window(u, 0, 4) =~= u.take(4));
    assert(le::window(u, 4, 4) =~= u.skip(4));
    le::lemma_le_value_fits(u.take(4));
    le::lemma_le_value_fits(u.skip(4));
    le::lemma_ranges();
}

/// A wait that brought something.
pub proof fn lemma_waited(l: Line, ms: u64)
    ensures
        ({
            let (b, g) = model::wait_used(l, ms);
            &&& g matches Got::Value(Some(u)) ==> {
                &&& spoke(l.io, b.io, seq![wait_for(l.s, ms)], 1)
                &&& completed(l.io, 0, u.id as int)
                &&& u.len == written_by_device(l.io, 0)
                &&& b.s == (Session {
                    used_idx_seen: ((l.s.used_idx_seen + 1) % 0x1_0000) as u16,
                    ..l.s
                })
            }
            &&& g matches Got::Value(None) ==> {
                &&& spoke(l.io, b.io, seq![wait_for(l.s, ms)], 1)
                &&& answered(l.io, 0, ReplyOf::TimedOut)
                &&& b.s == l.s
            }
        }),
{
    let (b, g) = model::wait_used(l, ms);
    if let Got::Value(Some(_)) = g {
        lemma_used(bytes_of(l.io, 0));
    }
    if g is Value {
        assert(b.io.log =~= l.io.log + seq![wait_for(l.s, ms)]);
    }
}

/// A chain that was submitted and completed.
pub proof fn lemma_submitted(l: Line, chain: Seq<Desc>)
    requires
        l.s.next_desc < 256,
    ensures
        ({
            let (b, g) = model::submit(l, chain, 5000);
            g matches Got::Value(u) ==> {
                &&& exchanged(l, b, Seq::empty(), chain, Seq::empty())
                &&& u.len == written_by_device(l.io, 0)
                &&& b.s.next_data == l.s.next_data
            }
        }),
{
    reveal(exchanged);
    let (b, g) = model::submit(l, chain, 5000);
    if let Got::Value(u) = g {
        let p = model::post(l, chain);
        let k = Line { s: p.s, io: p.io.tell(ActionOf::Kick) };
        lemma_waited(k, 5000);
        let looks = Seq::<(int, Seq<u8>)>::empty();
        assert(b.io.log =~= l.io.log + (Seq::empty() + model::post_stores(l.s, chain) + seq![
            ActionOf::Kick,
            wait_for(l.s, 5000),
        ] + Seq::new(looks.len(), |i: int| look(looks[i].0, looks[i].1.len()))));
    }
}

/// Stores, a chain, and looks at memory, one after the other, are an exchange.
pub proof fn lemma_exchanged(
    a: Line,
    m: Line,
    n: Line,
    b: Line,
    stores: Seq<Act>,
    chain: Seq<Desc>,
    looks: Seq<(int, Seq<u8>)>,
)
    requires
        spoke(a.io, m.io, stores, 0),
        m.s == (Session { next_data: m.s.next_data, ..a.s }),
        exchanged(m, n, Seq::empty(), chain, Seq::empty()),
        spoke(
            n.io,
            b.io,
            Seq::new(looks.len(), |i: int| look(looks[i].0, looks[i].1.len())),
            looks.len() as int,
        ),
        forall|i: int| 0 <= i < looks.len() ==> brought(n.io, i, #[trigger] looks[i].1),
        b.s == n.s,
    ensures
        exchanged(a, b, stores, chain, looks),
{
    reveal(exchanged);
    let loads = Seq::new(looks.len(), |i: int| look(looks[i].0, looks[i].1.len()));
    assert(b.io.log =~= a.io.log + (stores + model::post_stores(a.s, chain) + seq![
        ActionOf::Kick,
        wait_for(a.s, 5000),
    ] + loads));
    assert forall|i: int| 0 <= i < looks.len() implies brought(
        a.io,
        1 + i,
        #[trigger] looks[i].1,
    ) by {
        assert(brought(n.io, i, looks[i].1));
    }
}

proof fn lemma_one_look(t: Talk, off: int, len: nat)
    requires
        0 <= off <= 0x400_0000,
        len <= 0x400_0000,
    ensures
        ({
            let (t2, g) = t.load(off as usize, len as usize);
            g matches Got::Value(bytes) ==> {
                &&& spoke(t, t2, seq![look(off, len)], 1)
                &&& brought(t, 0, bytes)
                &&& bytes.len() == len
            }
        }),
{
    let (t2, g) = t.load(off as usize, len as usize);
    if let Got::Value(bytes) = g {
        assert(t2.log =~= t.log + seq![look(off, len)]);
    }
}

proof fn lemma_for_status(l: Line, m: Line, stores: Seq<Act>, chain: Seq<Desc>, st: int)
    requires
        l.s.next_desc < 256,
        spoke(l.io, m.io, stores, 0),
        m.s == (Session { next_data: m.s.next_data, ..l.s }),
        0 <= st <= 0x400_0000,
    ensures
        ({
            let (b, g) = model::submit_for_status(m, chain, st);
            g matches Got::Value(status) ==> exchanged(
                l,
                b,
                stores,
                chain,
                seq![(st, seq![status])],
            )
        }),
{
    let (b, g) = model::submit_for_status(m, chain, st);
    if let Got::Value(status) = g {
        lemma_submitted(m, chain);
        let n = model::submit(m, chain, 5000).0;
        lemma_one_look(n.io, st, 1);
        let bytes = n.io.load(st as usize, 1).1->Value_0;
        assert(bytes =~= seq![status]);
        let looks = seq![(st, seq![status])];
        assert(Seq::new(looks.len(), |i: int| look(looks[i].0, looks[i].1.len())) =~= seq![
            look(st, 1),
        ]);
        lemma_exchanged(l, m, n, b, stores, chain, looks);
    }
}

proof fn lemma_for_data(
    l: Line,
    m: Line,
    stores: Seq<Act>,
    chain: Seq<Desc>,
    d: int,
    len: int,
    st: int,
)
    requires
        l.s.next_desc < 256,
        spoke(l.io, m.io, stores, 0),
        m.s == (Session { next_data: m.s.next_data, ..l.s }),
        0 <= st <= 0x400_0000,
        0 <= d <= 0x400_0000,
        0 <= len <= 0x400_0000,
    ensures
        ({
            let (b, g) = model::submit_for_data(m, chain, d, len, st);
            g matches Got::Value((status, bytes)) ==> {
                &&& exchanged(l, b, stores, chain, seq![(d, bytes), (st, seq![status])])
                &&& bytes.len() == len
            }
        }),
{
    let (b, g) = model::submit_for_data(m, chain, d, len, st);
    if let Got::Value((status, bytes)) = g {
        lemma_submitted(m, chain);
        let n = model::submit(m, chain, 5000).0;
        lemma_one_look(n.io, d, len as nat);
        let t = n.io.load(d as usize, len as usize).0;
        lemma_one_look(t, st, 1);
        let one = t.load(st as usize, 1).1->Value_0;
        assert(one =~= seq![status]);
        let looks = seq![(d, bytes), (st, seq![status])];
        let loads = Seq::new(looks.len(), |i: int| look(looks[i].0, looks[i].1.len()));
        assert(loads =~= seq![look(d, len as nat), look(st, 1)]);
        assert(b.io.log =~= n.io.log + loads);
        assert(brought(n.io, 0, looks[0].1));
        assert(brought(n.io, 1, looks[1].1));
        lemma_exchanged(l, m, n, b, stores, chain, looks);
    }
}

pub proof fn lemma_wrote(l: Line, sector: u64, data: Seq<u8>)
    requires
        l.s.next_desc < 256,
        model::room_for_three(l.s, data.len() as int),
    ensures
        ({
            let (b, g) = model::blk_write(l, sector, data);
            g matches Got::Value(status) ==> wrote(l, b, sector as int, data, status)
        }),
{
    let len = data.len() as int;
    let (h, d, s, s2) = model::three(l.s, len);
    let stores = laid(h, 1, sector, d, data, s);
    let m = Line {
        s: s2,
        io: l.io.tell_all(model::header_stores(h, 1, sector)).tell(mem::store(d, data)).tell(
            model::poison(s),
        ),
    };
    assert(m.io.log =~= l.io.log + stores);
    let chain = seq![model::readable(h, 16), model::readable(d, len), model::writable(s, 1)];
    lemma_for_status(l, m, stores, chain, s);
}

pub proof fn lemma_fetched(l: Line, kind: u32, sector: u64, len: int)
    requires
        l.s.next_desc < 256,
        0 <= len,
        model::room_for_three(l.s, len),
    ensures
        ({
            let (b, g) = model::blk_fetch(l, kind, sector, len);
            g matches Got::Value((status, bytes)) ==> {
                &&& fetched(l, b, kind, sector as int, bytes, status)
                &&& bytes.len() == len
                &&& bytes_of(l.io, 1) == bytes
            }
        }),
{
    let (h, d, s, s2) = model::three(l.s, len);
    let zeroes = mem::repeated(0, len as nat);
    let stores = laid(h, kind, sector, d, zeroes, s);
    let m = Line {
        s: s2,
        io: l.io.tell_all(model::header_stores(h, kind, sector)).tell(mem::store(d, zeroes)).tell(
            model::poison(s),
        ),
    };
    assert(m.io.log =~= l.io.log + stores);
    let chain = seq![model::readable(h, 16), model::writable(d, len), model::writable(s, 1)];
    lemma_for_data(l, m, stores, chain, d, len, s);
    let (b, g) = model::blk_fetch(l, kind, sector, len);
    if let Got::Value((status, bytes)) = g {
        let looks = seq![(d, bytes), (s, seq![status])];
        reveal(exchanged);
        assert(brought(l.io, 1, looks[0].1));
    }
}

pub proof fn lemma_flushed(l: Line)
    requires
        l.s.next_desc < 256,
        model::room_for_two(l.s),
    ensures
        ({
            let (b, g) = model::blk_flush(l);
            g matches Got::Value(status) ==> flushed(l, b, status)
        }),
{
    let s1 = model::allocated(l.s, 16);
    let (h, s) = bare_places(l.s);
    let stores = laid_bare(h, 4, 0, s);
    let m = Line {
        s: model::allocated(s1, 1),
        io: l.io.tell_all(model::header_stores(h, 4, 0)).tell(model::poison(s)),
    };
    assert(m.io.log =~= l.io.log + stores);
    lemma_for_status(
        l,
        m,
        stores,
        seq![model::readable(h, 16), model::writable(s, 1)],
        s,
    );
}

pub proof fn lemma_ranged(l: Line, kind: u32, sector: u64, n: u32, unmap: bool)
    requires
        l.s.next_desc < 256,
        model::room_for_three(l.s, 16),
    ensures
        ({
            let (b, g) = model::blk_zeroes_or_discard(l, kind, sector, n, unmap);
            g matches Got::Value(status) ==> ranged(l, b, kind, sector as int, n, unmap, status)
        }),
{
    let (h, d, s, s2) = model::three(l.s, 16);
    let run = model::segment_stores(d, sector, n, unmap);
    let stores = model::header_stores(h, kind, 0) + run + seq![mem::store(s, seq![0xffu8])];
    let m = Line {
        s: s2,
        io: l.io.tell_all(model::header_stores(h, kind, 0)).tell_all(run).tell(model::poison(s)),
    };
    assert(m.io.log =~= l.io.log + stores);
    let chain = seq![model::readable(h, 16), model::readable(d, 16), model::writable(s, 1)];
    lemma_for_status(l, m, stores, chain, s);
}

proof fn lemma_agree(t: Talk, offered: u64)
    ensures
        ({
            let (b, g) = model::agree_protocol(t, offered);
            g matches Got::Value(proto) ==> {
                &&& if offered & 0x4000_0000 == 0 {
                    proto == 0 && b.next == t.next
                } else {
                    &&& answer(t, 0) is Number
                    &&& proto == answer(t, 0)->Number_0 & 0x200
                    &&& b.next == t.next + 2
                }
                &&& b.replies == t.replies
                &&& b.delay_ms == t.delay_ms
            }
        }),
{
}

proof fn lemma_negotiated(t: Talk, path: Seq<char>, mask: u64)
    ensures
        ({
            let (b, g) = model::negotiate(t, path, false, mask);
            g matches Got::Value(terms) ==> {
                &&& answered(t, 2, ReplyOf::Number(terms.offered))
                &&& terms.acked == terms.offered & !0x2000_0000u64 & !mask
                &&& if terms.offered & 0x4000_0000 == 0 {
                    terms.proto == 0 && b.next == t.next + 4
                } else {
                    &&& answer(t, 4) is Number
                    &&& terms.proto == answer(t, 4)->Number_0 & 0x200
                    &&& b.next == t.next + 6
                }
                &&& b.replies == t.replies
                &&& b.delay_ms == t.delay_ms
            }
        }),
{
    let t3 = t.call(ActionOf::Connect { path }, "connect"@).0.call(
        ActionOf::SetOwner,
        "set_owner"@,
    ).0.query(ActionOf::GetFeatures, "get_features"@);
    if let Got::Value(offered) = t3.1 {
        let act = ActionOf::SetFeatures { bits: model::acked_of(offered, false, mask) };
        lemma_agree(t3.0.call(act, "set_features"@).0, offered);
    }
}

proof fn lemma_zero_has_no_config(x: u64)
    ensures
        0u64 & 0x200 != 0x200,
{
    assert(0u64 & 0x200 != 0x200) by (bit_vector);
}

proof fn lemma_shaken(t: Talk, path: Seq<char>, table: bool, mask: u64)
    ensures
        ({
            let (b, g) = model::handshake(t, path, table, false, mask);
            g matches Got::Value(s) ==> {
                &&& spoke(
                    t,
                    b,
                    laws::handshake_messages(path, s, table),
                    handshake_answers(s, table),
                )
                &&& agreed(t, s, mask)
                &&& s.avail_idx == 0
                &&& s.used_idx_seen == 0
            }
        }),
{
    let (b, g) = model::handshake(t, path, table, false, mask);
    if let Got::Value(s) = g {
        laws::handshake_in_order(t, path, table, false, mask);
        lemma_negotiated(t, path, mask);
        lemma_zero_has_no_config(0);
        let (t1, g1) = model::negotiate(t, path, false, mask);
        let terms = g1->Value_0;
        le::lemma_ranges();
        if let ReplyOf::Bytes(c) = t1.replies[t1.next] {
            le::lemma_le_value_fits(le::window(c, 0, 8));
            le::lemma_le_value_fits(le::window(c, 20, 4));
        }
    }
}

pub proof fn lemma_greeted(a: Line, path: Seq<char>, table: bool)
    ensures
        ({
            let (b, g) = model::handshake(a.io, path, table, false, 0);
            g matches Got::Value(s) ==> greeted(a, Line { s, io: b }, path, table)
        }),
{
    reveal(greeted);
    lemma_shaken(a.io, path, table, 0);
}

proof fn lemma_ring_answers(l: Line, base: u16)
    ensures
        ({
            let (b, g) = model::setup_vring(l, base);
            g is Value ==> {
                &&& b.io.next == l.io.next + ring_answers(l.s)
                &&& b.io.replies == l.io.replies
                &&& b.io.delay_ms == l.io.delay_ms
                &&& base == 0 ==> b.s == l.s
            }
        }),
{
}

pub proof fn lemma_opened(a: Line, path: Seq<char>, mask: u64, base: u16)
    ensures
        ({
            let (b, g) = model::connect(a.io, path, false, mask, base);
            g matches Got::Value(s) ==> opened(a, Line { s, io: b }, path, mask, base)
        }),
{
    reveal(opened);
    let (b, g) = model::connect(a.io, path, false, mask, base);
    if let Got::Value(s) = g {
        lemma_shaken(a.io, path, true, mask);
        let (t1, g1) = model::handshake(a.io, path, true, false, mask);
        let s1 = g1->Value_0;
        laws::ring_set_up_in_order(Line { s: s1, io: t1 }, base);
        lemma_ring_answers(Line { s: s1, io: t1 }, base);
        assert(b.log =~= a.io.log + (laws::handshake_messages(path, s, true)
            + laws::ring_messages(s, base)));
    }
}

} // verus!
