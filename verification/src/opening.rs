//! What it takes to open a session, and what is said when it fails.

use vstd::prelude::*;

use crate::account;
use crate::bench;
use crate::bench::{Bench, Step};
use crate::dev::Session;
use crate::link::{Got, Region, ReplyOf, Talk, VringConfig};
use crate::mem::SharedMem;
use crate::model;
use crate::model::Line;

verus! {

/// The answer taken `i` answers after `t` is that the message was taken.
pub open spec fn done(t: Talk, i: int) -> bool {
    account::answered(t, i, ReplyOf::Done)
}

/// The answer taken `i` answers after `t` is that the message was refused, with this text.
pub open spec fn refused(t: Talk, i: int, m: Seq<char>) -> bool {
    account::answered(t, i, ReplyOf::Refused(m))
}

/// The answer taken `i` answers after `t` is a number.
pub open spec fn number(t: Talk, i: int) -> bool {
    0 <= t.next + i < t.replies.len() && account::answer(t, i) is Number
}

/// The features that the device offers.
pub open spec fn offered(t: Talk) -> u64 {
    account::answer(t, 2)->Number_0
}

/// The device offers protocol features.
pub open spec fn has_protocol(t: Talk) -> bool {
    offered(t) & 0x4000_0000 != 0
}

/// How many answers it takes to agree on features.
pub open spec fn terms_answers(t: Talk) -> int {
    if has_protocol(t) {
        6
    } else {
        4
    }
}

/// The device has a configuration that can be read.
pub open spec fn has_config(t: Talk) -> bool {
    has_protocol(t) && (account::answer(t, 4)->Number_0 & 0x200) & 0x200 == 0x200
}

/// Where the answer about the shared memory stands.
pub open spec fn memory_answer(t: Talk) -> int {
    if has_config(t) {
        terms_answers(t) + 1
    } else {
        terms_answers(t)
    }
}

/// The device agrees on features.
pub open spec fn agrees(t: Talk) -> bool {
    &&& done(t, 0)
    &&& done(t, 1)
    &&& number(t, 2)
    &&& done(t, 3)
    &&& has_protocol(t) ==> number(t, 4) && done(t, 5)
}

/// The device agrees on features, tells its configuration or refuses to, and there is memory
/// to share.
pub open spec fn welcomes(t: Talk) -> bool {
    let k = terms_answers(t);
    let c = memory_answer(t);
    &&& agrees(t)
    &&& has_config(t) ==> 0 <= t.next + k < t.replies.len() && (account::answer(t, k) is Bytes
        || account::answer(t, k) is Refused)
    &&& 0 <= t.next + c < t.replies.len()
    &&& account::answer(t, c) is Mapped
    &&& done(t, c + 1)
    &&& done(t, c + 2)
}

/// The device takes the messages about the ring, from answer `i` on.
pub open spec fn takes_ring(t: Talk, i: int, enable: bool) -> bool {
    &&& done(t, i)
    &&& done(t, i + 1)
    &&& done(t, i + 2)
    &&& done(t, i + 3)
    &&& done(t, i + 4)
    &&& enable ==> done(t, i + 5)
}

proof fn lemma_agreed(t: Talk, path: Seq<char>, mask: u64)
    requires
        agrees(t),
    ensures
        ({
            let (b, g) = model::negotiate(t, path, false, mask);
            &&& g is Value
            &&& g->Value_0.offered == offered(t)
            &&& g->Value_0.acked == offered(t) & !0x2000_0000u64 & !mask
            &&& g->Value_0.proto == if has_protocol(t) {
                account::answer(t, 4)->Number_0 & 0x200
            } else {
                0
            }
            &&& b.next == t.next + terms_answers(t)
            &&& b.replies == t.replies
        }),
{
}

proof fn lemma_told(t: Talk, proto: u64)
    requires
        proto & 0x200 == 0x200 ==> 0 <= t.next < t.replies.len() && (account::answer(t, 0) is Bytes
            || account::answer(t, 0) is Refused),
    ensures
        ({
            let (b, g) = model::geometry(t, proto);
            &&& g is Value
            &&& b.next == if proto & 0x200 == 0x200 {
                t.next + 1
            } else {
                t.next
            }
            &&& b.replies == t.replies
        }),
{
}

proof fn lemma_supplied(t: Talk)
    requires
        0 <= t.next < t.replies.len(),
        account::answer(t, 0) is Mapped,
        done(t, 1),
        done(t, 2),
    ensures
        ({
            let (b, g) = model::resources(t);
            &&& g is Value
            &&& b.next == t.next + 3
            &&& b.replies == t.replies
        }),
{
}

proof fn lemma_nothing_agreed()
    ensures
        0u64 & 0x200 != 0x200,
{
    assert(0u64 & 0x200 != 0x200) by (bit_vector);
}

proof fn lemma_shaken(t: Talk, path: Seq<char>, table: bool, mask: u64)
    requires
        welcomes(t),
        table ==> done(t, memory_answer(t) + 3),
    ensures
        ({
            let (b, g) = model::handshake(t, path, table, false, mask);
            &&& g is Value
            &&& g->Value_0.acked == offered(t) & !0x2000_0000u64 & !mask
            &&& b.next == t.next + memory_answer(t) + if table {
                4int
            } else {
                3
            }
            &&& b.replies == t.replies
        }),
{
    lemma_agreed(t, path, mask);
    lemma_nothing_agreed();
    let (t1, g1) = model::negotiate(t, path, false, mask);
    let terms = g1->Value_0;
    assert(account::answer(t1, 0) == account::answer(t, terms_answers(t)));
    lemma_told(t1, terms.proto);
    let t2 = model::geometry(t1, terms.proto).0;
    let c = memory_answer(t);
    assert(account::answer(t2, 0) == account::answer(t, c));
    assert(account::answer(t2, 1) == account::answer(t, c + 1));
    assert(account::answer(t2, 2) == account::answer(t, c + 2));
    lemma_supplied(t2);
}

proof fn lemma_ring_taken(l: Line, base: u16)
    requires
        takes_ring(l.io, 0, l.s.acked & 0x4000_0000 != 0),
    ensures
        model::setup_vring(l, base).1 is Value,
{
    let (l1, g) = model::announce_ring(l, base);
    assert(account::answer(l.io, 3) == l.io.replies[l.io.next + 3]);
    assert(account::answer(l.io, 4) == l.io.replies[l.io.next + 4]);
    assert(account::answer(l.io, 5) == l.io.replies[l.io.next + 5]);
    assert(g is Value);
    assert(l1.io.next == l.io.next + 3);
    let l2 = model::seeded(l1, base);
    assert(l2.io.next == l1.io.next && l2.io.replies == l.io.replies);
}

/// A device that takes all messages of a handshake gets a session, whatever features it
/// offers, and whether or not it tells its configuration.
pub proof fn welcoming_device_gets_a_session(b: Bench, path: Seq<char>, table: bool)
    requires
        b.stage is Live,
        welcomes(b.io),
        table ==> done(b.io, memory_answer(b.io) + 3),
    ensures
        bench::step(b, Step::Handshake { path, do_mem_table: table }).stage is Live,
{
    lemma_shaken(b.io, path, table, 0);
    reveal(bench::step);
}

/// A device that takes all messages of a handshake and of the set-up of a ring gets a session
/// with a ring.
pub proof fn welcoming_device_gets_a_ring(b: Bench, path: Seq<char>, mask_out: u64, base: u16)
    requires
        b.stage is Live,
        welcomes(b.io),
        done(b.io, memory_answer(b.io) + 3),
        takes_ring(
            b.io,
            memory_answer(b.io) + 4,
            (offered(b.io) & !0x2000_0000u64 & !mask_out) & 0x4000_0000 != 0,
        ),
    ensures
        bench::step(b, Step::Connect { path, mask_out, base }).stage is Live,
{
    let t = b.io;
    lemma_shaken(t, path, true, mask_out);
    let (t1, g1) = model::handshake(t, path, true, false, mask_out);
    let s = g1->Value_0;
    let i = memory_answer(t) + 4;
    let l = Line { s, io: t1 };
    assert(account::answer(t1, 0) == account::answer(t, i));
    assert(account::answer(t1, 1) == account::answer(t, i + 1));
    assert(account::answer(t1, 2) == account::answer(t, i + 2));
    assert(account::answer(t1, 3) == account::answer(t, i + 3));
    assert(account::answer(t1, 4) == account::answer(t, i + 4));
    assert(account::answer(t1, 5) == account::answer(t, i + 5));
    lemma_ring_taken(l, base);
    assert(model::connect(t, path, false, mask_out, base).1 is Value);
    lemma_connects(b, path, mask_out, base);
}

proof fn lemma_connects(b: Bench, path: Seq<char>, mask_out: u64, base: u16)
    requires
        b.stage is Live,
        model::connect(b.io, path, false, mask_out, base).1 is Value,
    ensures
        bench::step(b, Step::Connect { path, mask_out, base }).stage is Live,
{
    reveal(bench::step);
}

/// A refusal while features are agreed on ends the attempt, with the name of the message that
/// was refused.
pub proof fn refusals_of_features_are_told(t: Talk, path: Seq<char>, mask: u64, m: Seq<char>)
    ensures
        ({
            let g = model::negotiate(t, path, false, mask).1;
            &&& refused(t, 0, m) ==> g == Got::<model::Terms>::Fault("connect"@ + ": "@ + m)
            &&& done(t, 0) && refused(t, 1, m) ==> g == Got::<model::Terms>::Fault(
                "set_owner"@ + ": "@ + m,
            )
            &&& done(t, 0) && done(t, 1) && refused(t, 2, m) ==> g == Got::<model::Terms>::Fault(
                "get_features"@ + ": "@ + m,
            )
            &&& done(t, 0) && done(t, 1) && number(t, 2) && refused(t, 3, m) ==> g == Got::<
                model::Terms,
            >::Fault("set_features"@ + ": "@ + m)
            &&& done(t, 0) && done(t, 1) && number(t, 2) && done(t, 3) && has_protocol(t)
                && refused(t, 4, m) ==> g == Got::<model::Terms>::Fault(
                "get_protocol_features"@ + ": "@ + m,
            )
            &&& done(t, 0) && done(t, 1) && number(t, 2) && done(t, 3) && has_protocol(t) && number(
                t,
                4,
            ) && refused(t, 5, m) ==> g == Got::<model::Terms>::Fault(
                "set_protocol_features"@ + ": "@ + m,
            )
        }),
{
}

/// A refusal of the memory table ends the attempt, with the name of the message.
pub proof fn refusal_of_the_memory_table_is_told(
    t: Talk,
    path: Seq<char>,
    mask: u64,
    m: Seq<char>,
)
    requires
        welcomes(t),
        refused(t, memory_answer(t) + 3, m),
    ensures
        model::handshake(t, path, true, false, mask).1 == Got::<Session>::Fault(
            "set_mem_table"@ + ": "@ + m,
        ),
{
    lemma_shaken(t, path, false, mask);
    let (t1, g1) = model::handshake(t, path, false, false, mask);
    assert(account::answer(t1, 0) == account::answer(t, memory_answer(t) + 3));
}

/// A failure to get memory or events is told, with the name of what failed but for the
/// memory, which names itself.
pub proof fn lacking_resources_are_told(t: Talk, m: Seq<char>)
    ensures
        ({
            let g = model::resources(t).1;
            let mapped = 0 <= t.next < t.replies.len() && account::answer(t, 0) is Mapped;
            &&& refused(t, 0, m) ==> g == Got::<SharedMem>::Fault(m)
            &&& mapped && refused(t, 1, m) ==> g == Got::<SharedMem>::Fault(
                "eventfd kick"@ + ": "@ + m,
            )
            &&& mapped && done(t, 1) && refused(t, 2, m) ==> g == Got::<SharedMem>::Fault(
                "eventfd call"@ + ": "@ + m,
            )
        }),
{
}

/// A refusal while the ring is set up ends the attempt, with the name of the message that was
/// refused.
pub proof fn refusals_of_the_ring_are_told(l: Line, base: u16, m: Seq<char>)
    ensures
        ({
            let g = model::announce_ring(l, base).1;
            let h = model::enable_ring(l).1;
            &&& refused(l.io, 0, m) ==> g == Got::<()>::Fault("set_vring_num"@ + ": "@ + m)
            &&& done(l.io, 0) && refused(l.io, 1, m) ==> g == Got::<()>::Fault(
                "set_vring_addr"@ + ": "@ + m,
            )
            &&& done(l.io, 0) && done(l.io, 1) && refused(l.io, 2, m) ==> g == Got::<()>::Fault(
                "set_vring_base"@ + ": "@ + m,
            )
            &&& refused(l.io, 0, m) ==> h == Got::<()>::Fault("set_vring_kick"@ + ": "@ + m)
            &&& done(l.io, 0) && refused(l.io, 1, m) ==> h == Got::<()>::Fault(
                "set_vring_call"@ + ": "@ + m,
            )
            &&& done(l.io, 0) && done(l.io, 1) && l.s.acked & 0x4000_0000 != 0 && refused(
                l.io,
                2,
                m,
            ) ==> h == Got::<()>::Fault("set_vring_enable"@ + ": "@ + m)
        }),
{
}

/// The region is announced with guest addresses from zero on and the place where it lies in
/// this process; the three parts of the ring are announced by where they lie in this process.
pub proof fn memory_is_announced_where_it_lies(m: SharedMem)
    requires
        m.base + 0x400_0000 <= u64::MAX,
    ensures
        model::region_of(m) == (Region {
            guest_phys_addr: 0,
            memory_size: 0x400_0000,
            userspace_addr: m.base,
            mmap_offset: 0,
            mmap_handle: m.fd,
        }),
        model::ring_config(m.base, 0x1000) == (VringConfig {
            queue_max_size: 256,
            queue_size: 256,
            flags: 0,
            desc_table_addr: (m.base + 0x1000) as u64,
            avail_ring_addr: (m.base + 0x2000) as u64,
            used_ring_addr: (m.base + 0x3000) as u64,
            log_addr: None,
        }),
{
}

} // verus!
