//! What a pass means where a request is laid out or announced in an unusual way.

use vstd::prelude::*;

use crate::account;
use crate::bench;
use crate::bench::{Sector, Seg, Wanted};
use crate::checks;
use crate::dev::Session;
use crate::link::{ActionOf, Rep, ReplyOf};
use crate::mem;
use crate::model;
use crate::model::Line;
use crate::passing;
use crate::registry;
use crate::registry::Case;
use crate::replay;

verus! {

/// A pass means that the device took header and data out of one segment.
pub proof fn header_and_data_in_one_segment_are_taken(
    sock: Seq<char>,
    delay_ms: u64,
    replies: Seq<Rep>,
) -> (l: Seq<Line>)
    requires
        passing::passes(Case::HdrDataContiguousWrite, sock, delay_ms, replies),
    ensures
        passing::spans(l, Case::HdrDataContiguousWrite, sock, delay_ms, replies),
        account::opened(l[0], l[1], sock, 0, 0),
        l[1].s.capacity_sectors >= 2060,
        ({
            let h = model::next_buffer(l[1].s);
            let s = model::next_buffer(model::allocated(l[1].s, 528));
            account::exchanged(
                l[1],
                l[2],
                model::header_stores(h, 1, 2050) + seq![
                    mem::store(h + 16, checks::pattern(0xb3, 512)),
                    mem::store(s, seq![0xffu8]),
                ],
                seq![model::readable(h, 528), model::writable(s, 1)],
                seq![(s, seq![0u8])],
            )
        }),
        account::read(l[2], l[3], 2050, checks::pattern(0xb3, 512), 0),
{
    let start = bench::set_out(replay::opening(delay_ms, replies));
    let steps = registry::script(Case::HdrDataContiguousWrite, sock);
    assert(steps.len() == 13);
    passing::lemma_went(Case::HdrDataContiguousWrite, sock, delay_ms, replies);
    passing::lemma_opened(start, steps, 0, sock, 0, 0);
    passing::lemma_need(start, steps, 1, 4);
    let b = passing::at(start, steps, 2);
    let m = passing::at(start, steps, 7);
    let n = passing::at(start, steps, 8);
    let c = passing::at(start, steps, 10);
    let h = model::next_buffer(b.s);
    let s = model::next_buffer(model::allocated(b.s, 528));
    let stores = model::header_stores(h, 1, 2050) + seq![
        mem::store(h + 16, checks::pattern(0xb3, 512)),
        mem::store(s, seq![0xffu8]),
    ];
    passing::lemma_step(start, steps, 2);
    passing::lemma_step(start, steps, 3);
    passing::lemma_step(start, steps, 4);
    passing::lemma_step(start, steps, 5);
    passing::lemma_step(start, steps, 6);
    passing::lemma_step(start, steps, 7);
    passing::lemma_step(start, steps, 8);
    passing::lemma_ok(start, steps, 9);
    assert(passing::at(start, steps, 3).buf(0) == h);
    assert(passing::at(start, steps, 6).buf(1) == s);
    assert(m.io.log =~= b.io.log + stores);
    assert(m.buf(0) == h && m.buf(1) == s);
    let chain = seq![model::readable(h, 528), model::writable(s, 1)];
    assert(m.descs(steps[7]->Submit_chain) =~= chain);
    passing::lemma_one_look(b.line(), m.line(), n.line(), c.line(), stores, chain, s, seq![0u8]);
    passing::lemma_read_back(start, steps, 10, Sector::At(2050), checks::pattern(0xb3, 512));
    seq![
        passing::at(start, steps, 0).line(),
        passing::at(start, steps, 1).line(),
        passing::at(start, steps, 10).line(),
        passing::at(start, steps, 13).line(),
    ]
}

/// A pass means that the device wrote one byte of a longer status buffer, and left the rest alone.
pub proof fn only_one_byte_of_status_is_written(
    sock: Seq<char>,
    delay_ms: u64,
    replies: Seq<Rep>,
) -> (l: Seq<Line>)
    requires
        passing::passes(Case::StatusOversized, sock, delay_ms, replies),
    ensures
        passing::spans(l, Case::StatusOversized, sock, delay_ms, replies),
        account::opened(l[0], l[1], sock, 0, 0),
        l[1].s.capacity_sectors >= 2060,
        account::wrote(l[1], l[2], 2051, checks::pattern(0x9e, 512), 0),
        ({
            let (h, d, s) = account::places(l[2].s, 512);
            account::exchanged(
                l[2],
                l[3],
                model::header_stores(h, 0, 2051) + seq![
                    mem::store(d, mem::repeated(0, 512)),
                    mem::store(s, mem::repeated(0xff, 4)),
                ],
                seq![model::readable(h, 16), model::writable(d, 512), model::writable(s, 4)],
                seq![
                    (s, seq![0u8]),
                    (s, account::bytes_of(l[2].io, 2)),
                    (d, checks::pattern(0x9e, 512)),
                ],
            )
        }),
        account::bytes_of(l[2].io, 2).len() == 4,
        forall|i: int| 1 <= i < 4 ==> #[trigger] account::bytes_of(l[2].io, 2)[i] == 0xff,
{
    let start = bench::set_out(replay::opening(delay_ms, replies));
    let steps = registry::script(Case::StatusOversized, sock);
    assert(steps.len() == 17);
    passing::lemma_went(Case::StatusOversized, sock, delay_ms, replies);
    passing::lemma_opened(start, steps, 0, sock, 0, 0);
    passing::lemma_need(start, steps, 1, 4);
    passing::lemma_good_write(start, steps, 2, Sector::At(2051), checks::pattern(0x9e, 512));
    assert(steps[10]->Submit_chain =~= seq![
        Seg::readable(0, 0, 16),
        Seg::writable(1, 0, 512),
        Seg::writable(2, 0, 4),
    ]);
    passing::lemma_asked_wide(start, steps, 4, Sector::At(2051), checks::pattern(0x9e, 512));
    seq![
        passing::at(start, steps, 0).line(),
        passing::at(start, steps, 1).line(),
        passing::at(start, steps, 4).line(),
        passing::at(start, steps, 17).line(),
    ]
}

/// A pass means that the device served a read whose chain stands in a table of its own.
pub proof fn indirect_tables_are_followed(
    sock: Seq<char>,
    delay_ms: u64,
    replies: Seq<Rep>,
) -> (l: Seq<Line>)
    requires
        passing::passes(Case::IndirectRw, sock, delay_ms, replies),
    ensures
        passing::spans(l, Case::IndirectRw, sock, delay_ms, replies),
        account::opened(l[0], l[1], sock, 0, 0),
        l[1].s.acked & 0x1000_0000 != 0,
        l[1].s.capacity_sectors >= 2060,
        account::wrote(l[1], l[2], 2052, checks::pattern(0xc4, 512), 0),
        ({
            let (h, d, s) = account::places(l[2].s, 512);
            let chain = seq![
                model::readable(h, 16),
                model::writable(d, 512),
                model::writable(s, 1),
            ];
            let table = model::next_buffer(model::three(l[2].s, 512).3);
            account::spoke(
                l[2].io,
                l[3].io,
                account::laid(h, 0, 2052, d, mem::repeated(0, 512), s) + model::indirect_stores(
                    l[2].s,
                    chain,
                    table,
                ) + seq![
                    ActionOf::Kick,
                    account::wait_for(l[2].s, 5000),
                    account::look(s, 1),
                    account::look(d, 512),
                ],
                3,
            )
        }),
        account::completed(l[2].io, 0, l[2].s.next_desc as int),
        account::brought(l[2].io, 1, seq![0u8]),
        account::brought(l[2].io, 2, checks::pattern(0xc4, 512)),
{
    let start = bench::set_out(replay::opening(delay_ms, replies));
    let steps = registry::script(Case::IndirectRw, sock);
    assert(steps.len() == 20);
    passing::lemma_went(Case::IndirectRw, sock, delay_ms, replies);
    passing::lemma_opened(start, steps, 0, sock, 0, 0);
    passing::lemma_require(start, steps, 1, Wanted::Feature(0x1000_0000));
    passing::lemma_need(start, steps, 2, 4);
    passing::lemma_good_write(start, steps, 3, Sector::At(2052), checks::pattern(0xc4, 512));
    let b = passing::at(start, steps, 5);
    let c = passing::at(start, steps, 20);
    let (h, d, s) = account::places(b.s, 512);
    assert(steps[12]->PostIndirect_chain =~= seq![
        Seg::readable(0, 0, 16),
        Seg::writable(1, 0, 512),
        Seg::writable(2, 0, 1),
    ]);
    passing::lemma_posted_through_table(start, steps, 5, Sector::At(2052), 512);
    passing::lemma_answered_in_full(start, steps, 13, checks::pattern(0xc4, 512));
    let posting = account::laid(h, 0, 2052, d, mem::repeated(0, 512), s) + model::indirect_stores(
        b.s,
        seq![model::readable(h, 16), model::writable(d, 512), model::writable(s, 1)],
        model::next_buffer(model::three(b.s, 512).3),
    );
    assert(c.io.log =~= b.io.log + (posting + seq![
        ActionOf::Kick,
        account::wait_for(b.s, 5000),
        account::look(s, 1),
        account::look(d, 512),
    ]));
    seq![
        passing::at(start, steps, 0).line(),
        passing::at(start, steps, 1).line(),
        passing::at(start, steps, 5).line(),
        passing::at(start, steps, 20).line(),
    ]
}

/// A pass means that the device completed nothing when it was woken for nothing, and served the
/// next request.
pub proof fn kick_without_a_request_is_ignored(
    sock: Seq<char>,
    delay_ms: u64,
    replies: Seq<Rep>,
) -> (l: Seq<Line>)
    requires
        passing::passes(Case::SpuriousKick, sock, delay_ms, replies),
    ensures
        passing::spans(l, Case::SpuriousKick, sock, delay_ms, replies),
        account::opened(l[0], l[1], sock, 0, 0),
        account::spoke(l[1].io, l[2].io, seq![ActionOf::Kick, account::wait_for(l[1].s, 300)], 1),
        account::answered(l[1].io, 0, ReplyOf::TimedOut),
        l[2].s == l[1].s,
        account::tried_read(l[2], l[3], 0, 512, 0),
{
    let start = bench::set_out(replay::opening(delay_ms, replies));
    let steps = registry::script(Case::SpuriousKick, sock);
    assert(steps.len() == 5);
    passing::lemma_went(Case::SpuriousKick, sock, delay_ms, replies);
    passing::lemma_opened(start, steps, 0, sock, 0, 0);
    passing::lemma_step(start, steps, 1);
    passing::lemma_step(start, steps, 2);
    assert(passing::at(start, steps, 3).io.log =~= passing::at(start, steps, 1).io.log + seq![
        ActionOf::Kick,
        account::wait_for(passing::at(start, steps, 1).s, 300),
    ]);
    passing::lemma_good_read(start, steps, 3, Sector::At(0), 512);
    seq![
        passing::at(start, steps, 0).line(),
        passing::at(start, steps, 1).line(),
        passing::at(start, steps, 3).line(),
        passing::at(start, steps, 5).line(),
    ]
}

/// A pass means that the device served a read while the driver wanted no notifications.
pub proof fn requests_are_served_without_notifications(
    sock: Seq<char>,
    delay_ms: u64,
    replies: Seq<Rep>,
) -> (l: Seq<Line>)
    requires
        passing::passes(Case::NoInterrupt, sock, delay_ms, replies),
    ensures
        passing::spans(l, Case::NoInterrupt, sock, delay_ms, replies),
        account::opened(l[0], l[1], sock, 0, 0),
        l[1].s.capacity_sectors >= 2060,
        account::wrote(l[1], l[2], 2048, checks::pattern(0x55, 512), 0),
        account::spoke(l[2].io, l[3].io, seq![mem::store_le(0x2000, 1, 2)], 0),
        l[3].s == l[2].s,
        account::read(l[3], l[4], 2048, checks::pattern(0x55, 512), 0),
{
    let start = bench::set_out(replay::opening(delay_ms, replies));
    let steps = registry::script(Case::NoInterrupt, sock);
    assert(steps.len() == 8);
    passing::lemma_went(Case::NoInterrupt, sock, delay_ms, replies);
    passing::lemma_opened(start, steps, 0, sock, 0, 0);
    passing::lemma_need(start, steps, 1, 4);
    passing::lemma_good_write(start, steps, 2, Sector::At(2048), checks::pattern(0x55, 512));
    passing::lemma_step(start, steps, 4);
    passing::lemma_read_back(start, steps, 5, Sector::At(2048), checks::pattern(0x55, 512));
    seq![
        passing::at(start, steps, 0).line(),
        passing::at(start, steps, 1).line(),
        passing::at(start, steps, 4).line(),
        passing::at(start, steps, 5).line(),
        passing::at(start, steps, 8).line(),
    ]
}

/// A pass means that a request for which the device was woken twice was completed once.
pub proof fn two_kicks_complete_a_request_once(
    sock: Seq<char>,
    delay_ms: u64,
    replies: Seq<Rep>,
) -> (l: Seq<Line>)
    requires
        passing::passes(Case::DoubleKick, sock, delay_ms, replies),
    ensures
        passing::spans(l, Case::DoubleKick, sock, delay_ms, replies),
        account::opened(l[0], l[1], sock, 0, 0),
        l[1].s.capacity_sectors >= 2060,
        account::wrote(l[1], l[2], 2048, checks::pattern(0x66, 512), 0),
        ({
            let (h, d, s) = account::places(l[2].s, 512);
            let chain = seq![
                model::readable(h, 16),
                model::writable(d, 512),
                model::writable(s, 1),
            ];
            let after = Session {
                used_idx_seen: ((l[2].s.used_idx_seen + 1) % 0x1_0000) as u16,
                ..l[2].s
            };
            account::spoke(
                l[2].io,
                l[3].io,
                account::laid(h, 0, 2048, d, mem::repeated(0, 512), s) + model::post_stores(
                    l[2].s,
                    chain,
                ) + seq![
                    ActionOf::Kick,
                    ActionOf::Kick,
                    account::wait_for(l[2].s, 5000),
                    account::wait_for(after, 300),
                    account::look(d, 512),
                ],
                3,
            )
        }),
        account::completed(l[2].io, 0, l[2].s.next_desc as int),
        account::answered(l[2].io, 1, ReplyOf::TimedOut),
        account::brought(l[2].io, 2, checks::pattern(0x66, 512)),
{
    let start = bench::set_out(replay::opening(delay_ms, replies));
    let steps = registry::script(Case::DoubleKick, sock);
    assert(steps.len() == 18);
    passing::lemma_went(Case::DoubleKick, sock, delay_ms, replies);
    passing::lemma_opened(start, steps, 0, sock, 0, 0);
    passing::lemma_need(start, steps, 1, 4);
    passing::lemma_good_write(start, steps, 2, Sector::At(2048), checks::pattern(0x66, 512));
    let b = passing::at(start, steps, 4);
    let c = passing::at(start, steps, 18);
    let zeroes = mem::repeated(0, 512);
    let (h, d, s) = account::places(b.s, 512);
    let segs = steps[10]->Post_chain;
    assert(passing::within(segs, 0, 3));
    let chain = seq![model::readable(h, 16), model::writable(d, 512), model::writable(s, 1)];
    assert(passing::laid_out(segs, seq![h, d, s], 0) =~= chain);
    passing::lemma_posted(start, steps, 4, 0, Sector::At(2048), zeroes, segs);
    assert(passing::at(start, steps, 11).buf(1) == d);
    passing::lemma_step(start, steps, 11);
    passing::lemma_step(start, steps, 12);
    passing::lemma_step(start, steps, 13);
    passing::lemma_step(start, steps, 14);
    passing::lemma_step(start, steps, 15);
    passing::lemma_step(start, steps, 16);
    passing::lemma_step(start, steps, 17);
    let after = Session {
        used_idx_seen: ((b.s.used_idx_seen + 1) % 0x1_0000) as u16,
        ..b.s
    };
    assert(c.io.log =~= b.io.log + (account::laid(h, 0, 2048, d, zeroes, s) + model::post_stores(
        b.s,
        chain,
    ) + seq![
        ActionOf::Kick,
        ActionOf::Kick,
        account::wait_for(b.s, 5000),
        account::wait_for(after, 300),
        account::look(d, 512),
    ]));
    seq![
        passing::at(start, steps, 0).line(),
        passing::at(start, steps, 1).line(),
        passing::at(start, steps, 4).line(),
        passing::at(start, steps, 18).line(),
    ]
}

} // verus!
