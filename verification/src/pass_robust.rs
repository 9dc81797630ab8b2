//! What a pass of the scenarios on malformed rings and requests means.

use vstd::prelude::*;

use crate::account;
use crate::bench;
use crate::bench::{Accept, Sector, Seg, Wanted};
use crate::checks;
use crate::link::{ActionOf, Rep};
use crate::mem;
use crate::model;
use crate::model::Line;
use crate::passing;
use crate::registry;
use crate::registry::Case;
use crate::replay;

verus! {

/// A pass means that the device still served after a descriptor that links past the table.
pub proof fn device_survives_a_link_out_of_the_table(
    sock: Seq<char>,
    delay_ms: u64,
    replies: Seq<Rep>,
) -> (l: Seq<Line>)
    requires
        passing::passes(Case::DescNextOob, sock, delay_ms, replies),
    ensures
        passing::spans(l, Case::DescNextOob, sock, delay_ms, replies),
        account::opened(l[0], l[1], sock, 0, 0),
        account::spoke(
            l[1].io,
            l[2].io,
            model::entry(
                0x1000,
                model::next_buffer(l[1].s) as nat,
                16,
                1,
                261,
            ) + model::publish(l[1].s.avail_idx, 0)
                + seq![ActionOf::Kick, account::wait_for(l[1].s, 400)],
            1,
        ),
        account::closed(l[2], l[3]),
        account::paused(l[3], l[4]),
        account::opened(l[4], l[5], sock, 0, 0),
        account::tried_read(l[5], l[6], 0, 512, 0),
{
    let start = bench::set_out(replay::opening(delay_ms, replies));
    let steps = registry::script(Case::DescNextOob, sock);
    assert(steps.len() == 11);
    passing::lemma_went(Case::DescNextOob, sock, delay_ms, replies);
    passing::lemma_opened(start, steps, 0, sock, 0, 0);
    let b = passing::at(start, steps, 1);
    passing::lemma_step(start, steps, 1);
    passing::lemma_step(start, steps, 2);
    passing::lemma_step(start, steps, 3);
    assert(passing::at(start, steps, 2).buf(0) == model::next_buffer(b.s));
    passing::lemma_ignored(start, steps, 4, 400);
    assert(passing::at(start, steps, 6).io.log =~= b.io.log
        + (model::entry(0x1000, model::next_buffer(b.s) as nat, 16, 1, 261)
        + model::publish(b.s.avail_idx, 0) + seq![
        ActionOf::Kick,
        account::wait_for(b.s, 400),
    ]));
    passing::lemma_closed(start, steps, 6);
    passing::lemma_paused(start, steps, 7);
    passing::lemma_opened(start, steps, 8, sock, 0, 0);
    passing::lemma_judged_read(start, steps, 9, Sector::At(0), 512, 0);
    seq![
        passing::at(start, steps, 0).line(),
        passing::at(start, steps, 1).line(),
        passing::at(start, steps, 6).line(),
        passing::at(start, steps, 7).line(),
        passing::at(start, steps, 8).line(),
        passing::at(start, steps, 9).line(),
        passing::at(start, steps, 11).line(),
    ]
}

/// A pass means that the device still served after two descriptors that link to each other.
pub proof fn device_survives_a_loop(
    sock: Seq<char>,
    delay_ms: u64,
    replies: Seq<Rep>,
) -> (l: Seq<Line>)
    requires
        passing::passes(Case::DescLoop, sock, delay_ms, replies),
    ensures
        passing::spans(l, Case::DescLoop, sock, delay_ms, replies),
        account::opened(l[0], l[1], sock, 0, 0),
        account::spoke(
            l[1].io,
            l[2].io,
            model::entry(
                0x1000,
                model::next_buffer(l[1].s) as nat,
                16,
                1,
                1,
            ) + model::entry(0x1010, model::next_buffer(l[1].s) as nat, 16, 1, 0)
                + model::publish(l[1].s.avail_idx, 0) + seq![
                    ActionOf::Kick,
                    account::wait_for(l[1].s, 400),
                ],
            1,
        ),
        account::closed(l[2], l[3]),
        account::paused(l[3], l[4]),
        account::opened(l[4], l[5], sock, 0, 0),
        account::tried_read(l[5], l[6], 0, 512, 0),
{
    let start = bench::set_out(replay::opening(delay_ms, replies));
    let steps = registry::script(Case::DescLoop, sock);
    assert(steps.len() == 12);
    passing::lemma_went(Case::DescLoop, sock, delay_ms, replies);
    passing::lemma_opened(start, steps, 0, sock, 0, 0);
    let b = passing::at(start, steps, 1);
    passing::lemma_step(start, steps, 1);
    passing::lemma_step(start, steps, 2);
    passing::lemma_step(start, steps, 3);
    passing::lemma_step(start, steps, 4);
    assert(passing::at(start, steps, 2).buf(0) == model::next_buffer(b.s));
    passing::lemma_ignored(start, steps, 5, 400);
    assert(passing::at(start, steps, 7).io.log =~= b.io.log
        + (model::entry(0x1000, model::next_buffer(b.s) as nat, 16, 1, 1)
        + model::entry(
            0x1010,
            model::next_buffer(b.s) as nat,
            16,
            1,
            0,
        ) + model::publish(b.s.avail_idx, 0) + seq![
        ActionOf::Kick,
        account::wait_for(b.s, 400),
    ]));
    passing::lemma_closed(start, steps, 7);
    passing::lemma_paused(start, steps, 8);
    passing::lemma_opened(start, steps, 9, sock, 0, 0);
    passing::lemma_judged_read(start, steps, 10, Sector::At(0), 512, 0);
    seq![
        passing::at(start, steps, 0).line(),
        passing::at(start, steps, 1).line(),
        passing::at(start, steps, 7).line(),
        passing::at(start, steps, 8).line(),
        passing::at(start, steps, 9).line(),
        passing::at(start, steps, 10).line(),
        passing::at(start, steps, 12).line(),
    ]
}

/// A pass means that the device still served after a descriptor that points past the region.
pub proof fn device_survives_an_address_out_of_the_region(
    sock: Seq<char>,
    delay_ms: u64,
    replies: Seq<Rep>,
) -> (l: Seq<Line>)
    requires
        passing::passes(Case::DescAddrOob, sock, delay_ms, replies),
    ensures
        passing::spans(l, Case::DescAddrOob, sock, delay_ms, replies),
        account::opened(l[0], l[1], sock, 0, 0),
        account::spoke(
            l[1].io,
            l[2].io,
            model::entry(0x1000, 0x400_1000, 512, 0, 0) + model::publish(l[1].s.avail_idx, 0)
                + seq![ActionOf::Kick, account::wait_for(l[1].s, 400)],
            1,
        ),
        account::closed(l[2], l[3]),
        account::paused(l[3], l[4]),
        account::opened(l[4], l[5], sock, 0, 0),
        account::tried_read(l[5], l[6], 0, 512, 0),
{
    let start = bench::set_out(replay::opening(delay_ms, replies));
    let steps = registry::script(Case::DescAddrOob, sock);
    assert(steps.len() == 10);
    passing::lemma_went(Case::DescAddrOob, sock, delay_ms, replies);
    passing::lemma_opened(start, steps, 0, sock, 0, 0);
    let b = passing::at(start, steps, 1);
    passing::lemma_step(start, steps, 1);
    passing::lemma_step(start, steps, 2);
    passing::lemma_ignored(start, steps, 3, 400);
    assert(passing::at(start, steps, 5).io.log =~= b.io.log
        + (model::entry(0x1000, 0x400_1000, 512, 0, 0)
        + model::publish(b.s.avail_idx, 0) + seq![
        ActionOf::Kick,
        account::wait_for(b.s, 400),
    ]));
    passing::lemma_closed(start, steps, 5);
    passing::lemma_paused(start, steps, 6);
    passing::lemma_opened(start, steps, 7, sock, 0, 0);
    passing::lemma_judged_read(start, steps, 8, Sector::At(0), 512, 0);
    seq![
        passing::at(start, steps, 0).line(),
        passing::at(start, steps, 1).line(),
        passing::at(start, steps, 5).line(),
        passing::at(start, steps, 6).line(),
        passing::at(start, steps, 7).line(),
        passing::at(start, steps, 8).line(),
        passing::at(start, steps, 10).line(),
    ]
}

/// A pass means that the device still served after a descriptor that starts in the region and
/// ends past it.
pub proof fn device_survives_a_length_past_the_region(
    sock: Seq<char>,
    delay_ms: u64,
    replies: Seq<Rep>,
) -> (l: Seq<Line>)
    requires
        passing::passes(Case::DescLenPastRegion, sock, delay_ms, replies),
    ensures
        passing::spans(l, Case::DescLenPastRegion, sock, delay_ms, replies),
        account::opened(l[0], l[1], sock, 0, 0),
        account::spoke(
            l[1].io,
            l[2].io,
            model::entry(0x1000, 0x3ff_ff00, 4096, 0, 0) + model::publish(l[1].s.avail_idx, 0)
                + seq![ActionOf::Kick, account::wait_for(l[1].s, 400)],
            1,
        ),
        account::closed(l[2], l[3]),
        account::paused(l[3], l[4]),
        account::opened(l[4], l[5], sock, 0, 0),
        account::tried_read(l[5], l[6], 0, 512, 0),
{
    let start = bench::set_out(replay::opening(delay_ms, replies));
    let steps = registry::script(Case::DescLenPastRegion, sock);
    assert(steps.len() == 10);
    passing::lemma_went(Case::DescLenPastRegion, sock, delay_ms, replies);
    passing::lemma_opened(start, steps, 0, sock, 0, 0);
    let b = passing::at(start, steps, 1);
    passing::lemma_step(start, steps, 1);
    passing::lemma_step(start, steps, 2);
    passing::lemma_ignored(start, steps, 3, 400);
    assert(passing::at(start, steps, 5).io.log =~= b.io.log
        + (model::entry(0x1000, 0x3ff_ff00, 4096, 0, 0)
        + model::publish(b.s.avail_idx, 0) + seq![
        ActionOf::Kick,
        account::wait_for(b.s, 400),
    ]));
    passing::lemma_closed(start, steps, 5);
    passing::lemma_paused(start, steps, 6);
    passing::lemma_opened(start, steps, 7, sock, 0, 0);
    passing::lemma_judged_read(start, steps, 8, Sector::At(0), 512, 0);
    seq![
        passing::at(start, steps, 0).line(),
        passing::at(start, steps, 1).line(),
        passing::at(start, steps, 5).line(),
        passing::at(start, steps, 6).line(),
        passing::at(start, steps, 7).line(),
        passing::at(start, steps, 8).line(),
        passing::at(start, steps, 10).line(),
    ]
}

/// A pass means that the device still served after a descriptor of four gigabytes.
pub proof fn device_survives_a_huge_length(
    sock: Seq<char>,
    delay_ms: u64,
    replies: Seq<Rep>,
) -> (l: Seq<Line>)
    requires
        passing::passes(Case::DescHugeLen, sock, delay_ms, replies),
    ensures
        passing::spans(l, Case::DescHugeLen, sock, delay_ms, replies),
        account::opened(l[0], l[1], sock, 0, 0),
        account::spoke(
            l[1].io,
            l[2].io,
            model::entry(
                0x1000,
                model::next_buffer(l[1].s) as nat,
                0xffff_ffff,
                0,
                0,
            ) + model::publish(l[1].s.avail_idx, 0)
                + seq![ActionOf::Kick, account::wait_for(l[1].s, 400)],
            1,
        ),
        account::closed(l[2], l[3]),
        account::paused(l[3], l[4]),
        account::opened(l[4], l[5], sock, 0, 0),
        account::tried_read(l[5], l[6], 0, 512, 0),
{
    let start = bench::set_out(replay::opening(delay_ms, replies));
    let steps = registry::script(Case::DescHugeLen, sock);
    assert(steps.len() == 11);
    passing::lemma_went(Case::DescHugeLen, sock, delay_ms, replies);
    passing::lemma_opened(start, steps, 0, sock, 0, 0);
    let b = passing::at(start, steps, 1);
    passing::lemma_step(start, steps, 1);
    passing::lemma_step(start, steps, 2);
    passing::lemma_step(start, steps, 3);
    assert(passing::at(start, steps, 2).buf(0) == model::next_buffer(b.s));
    passing::lemma_ignored(start, steps, 4, 400);
    assert(passing::at(start, steps, 6).io.log =~= b.io.log
        + (model::entry(
            0x1000,
            model::next_buffer(b.s) as nat,
            0xffff_ffff,
            0,
            0,
        ) + model::publish(b.s.avail_idx, 0) + seq![
        ActionOf::Kick,
        account::wait_for(b.s, 400),
    ]));
    passing::lemma_closed(start, steps, 6);
    passing::lemma_paused(start, steps, 7);
    passing::lemma_opened(start, steps, 8, sock, 0, 0);
    passing::lemma_judged_read(start, steps, 9, Sector::At(0), 512, 0);
    seq![
        passing::at(start, steps, 0).line(),
        passing::at(start, steps, 1).line(),
        passing::at(start, steps, 6).line(),
        passing::at(start, steps, 7).line(),
        passing::at(start, steps, 8).line(),
        passing::at(start, steps, 9).line(),
        passing::at(start, steps, 11).line(),
    ]
}

/// A pass means that the device still served after a segment to read that follows one to write.
pub proof fn device_survives_a_wrong_order_of_segments(
    sock: Seq<char>,
    delay_ms: u64,
    replies: Seq<Rep>,
) -> (l: Seq<Line>)
    requires
        passing::passes(Case::ReadableAfterWritable, sock, delay_ms, replies),
    ensures
        passing::spans(l, Case::ReadableAfterWritable, sock, delay_ms, replies),
        account::opened(l[0], l[1], sock, 0, 0),
        account::spoke(
            l[1].io,
            l[2].io,
            model::entry(
                0x1000,
                model::next_buffer(l[1].s) as nat,
                16,
                3,
                1,
            ) + model::entry(0x1010, model::next_buffer(l[1].s) as nat, 16, 0, 0)
                + model::publish(l[1].s.avail_idx, 0) + seq![
                    ActionOf::Kick,
                    account::wait_for(l[1].s, 400),
                ],
            1,
        ),
        account::closed(l[2], l[3]),
        account::paused(l[3], l[4]),
        account::opened(l[4], l[5], sock, 0, 0),
        account::tried_read(l[5], l[6], 0, 512, 0),
{
    let start = bench::set_out(replay::opening(delay_ms, replies));
    let steps = registry::script(Case::ReadableAfterWritable, sock);
    assert(steps.len() == 12);
    passing::lemma_went(Case::ReadableAfterWritable, sock, delay_ms, replies);
    passing::lemma_opened(start, steps, 0, sock, 0, 0);
    let b = passing::at(start, steps, 1);
    passing::lemma_step(start, steps, 1);
    passing::lemma_step(start, steps, 2);
    passing::lemma_step(start, steps, 3);
    passing::lemma_step(start, steps, 4);
    assert(passing::at(start, steps, 2).buf(0) == model::next_buffer(b.s));
    passing::lemma_ignored(start, steps, 5, 400);
    assert(passing::at(start, steps, 7).io.log =~= b.io.log
        + (model::entry(0x1000, model::next_buffer(b.s) as nat, 16, 3, 1)
        + model::entry(
            0x1010,
            model::next_buffer(b.s) as nat,
            16,
            0,
            0,
        ) + model::publish(b.s.avail_idx, 0) + seq![
        ActionOf::Kick,
        account::wait_for(b.s, 400),
    ]));
    passing::lemma_closed(start, steps, 7);
    passing::lemma_paused(start, steps, 8);
    passing::lemma_opened(start, steps, 9, sock, 0, 0);
    passing::lemma_judged_read(start, steps, 10, Sector::At(0), 512, 0);
    seq![
        passing::at(start, steps, 0).line(),
        passing::at(start, steps, 1).line(),
        passing::at(start, steps, 7).line(),
        passing::at(start, steps, 8).line(),
        passing::at(start, steps, 9).line(),
        passing::at(start, steps, 10).line(),
        passing::at(start, steps, 12).line(),
    ]
}

/// A pass means that the device still served after a descriptor that is a table and a link at once.
pub proof fn device_survives_a_table_with_a_link(
    sock: Seq<char>,
    delay_ms: u64,
    replies: Seq<Rep>,
) -> (l: Seq<Line>)
    requires
        passing::passes(Case::IndirectWithNext, sock, delay_ms, replies),
    ensures
        passing::spans(l, Case::IndirectWithNext, sock, delay_ms, replies),
        account::opened(l[0], l[1], sock, 0, 0),
        account::spoke(
            l[1].io,
            l[2].io,
            model::entry(
                0x1000,
                model::next_buffer(l[1].s) as nat,
                16,
                5,
                1,
            ) + model::publish(l[1].s.avail_idx, 0)
                + seq![ActionOf::Kick, account::wait_for(l[1].s, 400)],
            1,
        ),
        account::closed(l[2], l[3]),
        account::paused(l[3], l[4]),
        account::opened(l[4], l[5], sock, 0, 0),
        account::tried_read(l[5], l[6], 0, 512, 0),
{
    let start = bench::set_out(replay::opening(delay_ms, replies));
    let steps = registry::script(Case::IndirectWithNext, sock);
    assert(steps.len() == 11);
    passing::lemma_went(Case::IndirectWithNext, sock, delay_ms, replies);
    passing::lemma_opened(start, steps, 0, sock, 0, 0);
    let b = passing::at(start, steps, 1);
    passing::lemma_step(start, steps, 1);
    passing::lemma_step(start, steps, 2);
    passing::lemma_step(start, steps, 3);
    assert(passing::at(start, steps, 2).buf(0) == model::next_buffer(b.s));
    passing::lemma_ignored(start, steps, 4, 400);
    assert(passing::at(start, steps, 6).io.log =~= b.io.log
        + (model::entry(0x1000, model::next_buffer(b.s) as nat, 16, 5, 1)
        + model::publish(b.s.avail_idx, 0) + seq![
        ActionOf::Kick,
        account::wait_for(b.s, 400),
    ]));
    passing::lemma_closed(start, steps, 6);
    passing::lemma_paused(start, steps, 7);
    passing::lemma_opened(start, steps, 8, sock, 0, 0);
    passing::lemma_judged_read(start, steps, 9, Sector::At(0), 512, 0);
    seq![
        passing::at(start, steps, 0).line(),
        passing::at(start, steps, 1).line(),
        passing::at(start, steps, 6).line(),
        passing::at(start, steps, 7).line(),
        passing::at(start, steps, 8).line(),
        passing::at(start, steps, 9).line(),
        passing::at(start, steps, 11).line(),
    ]
}

/// A pass means that the device still served after a table that holds a table.
pub proof fn device_survives_a_table_in_a_table(
    sock: Seq<char>,
    delay_ms: u64,
    replies: Seq<Rep>,
) -> (l: Seq<Line>)
    requires
        passing::passes(Case::NestedIndirect, sock, delay_ms, replies),
    ensures
        passing::spans(l, Case::NestedIndirect, sock, delay_ms, replies),
        account::opened(l[0], l[1], sock, 0, 0),
        account::spoke(
            l[1].io,
            l[2].io,
            model::entry(
                model::next_buffer(model::allocated(l[1].s, 64)),
                model::next_buffer(l[1].s) as nat,
                16,
                4,
                0,
            ) + model::entry(
                0x1000,
                model::next_buffer(model::allocated(l[1].s, 64)) as nat,
                16,
                4,
                0,
            ) + model::publish(l[1].s.avail_idx, 0)
                + seq![ActionOf::Kick, account::wait_for(l[1].s, 400)],
            1,
        ),
        account::closed(l[2], l[3]),
        account::paused(l[3], l[4]),
        account::opened(l[4], l[5], sock, 0, 0),
        account::tried_read(l[5], l[6], 0, 512, 0),
{
    let start = bench::set_out(replay::opening(delay_ms, replies));
    let steps = registry::script(Case::NestedIndirect, sock);
    assert(steps.len() == 13);
    passing::lemma_went(Case::NestedIndirect, sock, delay_ms, replies);
    passing::lemma_opened(start, steps, 0, sock, 0, 0);
    let b = passing::at(start, steps, 1);
    passing::lemma_step(start, steps, 1);
    passing::lemma_step(start, steps, 2);
    passing::lemma_step(start, steps, 3);
    passing::lemma_step(start, steps, 4);
    passing::lemma_step(start, steps, 5);
    assert(passing::at(start, steps, 3).buf(0) == model::next_buffer(b.s));
    assert(passing::at(start, steps, 3).buf(1) == model::next_buffer(model::allocated(b.s, 64)));
    passing::lemma_ignored(start, steps, 6, 400);
    assert(passing::at(start, steps, 8).io.log =~= b.io.log
        + (model::entry(
            model::next_buffer(model::allocated(b.s, 64)),
            model::next_buffer(b.s) as nat,
            16,
            4,
            0,
        ) + model::entry(0x1000, model::next_buffer(model::allocated(b.s, 64)) as nat, 16, 4, 0)
            + model::publish(b.s.avail_idx, 0) + seq![
        ActionOf::Kick,
        account::wait_for(b.s, 400),
    ]));
    passing::lemma_closed(start, steps, 8);
    passing::lemma_paused(start, steps, 9);
    passing::lemma_opened(start, steps, 10, sock, 0, 0);
    passing::lemma_judged_read(start, steps, 11, Sector::At(0), 512, 0);
    seq![
        passing::at(start, steps, 0).line(),
        passing::at(start, steps, 1).line(),
        passing::at(start, steps, 8).line(),
        passing::at(start, steps, 9).line(),
        passing::at(start, steps, 10).line(),
        passing::at(start, steps, 11).line(),
        passing::at(start, steps, 13).line(),
    ]
}

/// A pass means that the device still served after a table that is not in whole descriptors.
pub proof fn device_survives_a_table_of_odd_length(
    sock: Seq<char>,
    delay_ms: u64,
    replies: Seq<Rep>,
) -> (l: Seq<Line>)
    requires
        passing::passes(Case::IndirectBadTableLen, sock, delay_ms, replies),
    ensures
        passing::spans(l, Case::IndirectBadTableLen, sock, delay_ms, replies),
        account::opened(l[0], l[1], sock, 0, 0),
        account::spoke(
            l[1].io,
            l[2].io,
            model::entry(
                0x1000,
                model::next_buffer(l[1].s) as nat,
                20,
                4,
                0,
            ) + model::publish(l[1].s.avail_idx, 0)
                + seq![ActionOf::Kick, account::wait_for(l[1].s, 400)],
            1,
        ),
        account::closed(l[2], l[3]),
        account::paused(l[3], l[4]),
        account::opened(l[4], l[5], sock, 0, 0),
        account::tried_read(l[5], l[6], 0, 512, 0),
{
    let start = bench::set_out(replay::opening(delay_ms, replies));
    let steps = registry::script(Case::IndirectBadTableLen, sock);
    assert(steps.len() == 11);
    passing::lemma_went(Case::IndirectBadTableLen, sock, delay_ms, replies);
    passing::lemma_opened(start, steps, 0, sock, 0, 0);
    let b = passing::at(start, steps, 1);
    passing::lemma_step(start, steps, 1);
    passing::lemma_step(start, steps, 2);
    passing::lemma_step(start, steps, 3);
    assert(passing::at(start, steps, 2).buf(0) == model::next_buffer(b.s));
    passing::lemma_ignored(start, steps, 4, 400);
    assert(passing::at(start, steps, 6).io.log =~= b.io.log
        + (model::entry(0x1000, model::next_buffer(b.s) as nat, 20, 4, 0)
        + model::publish(b.s.avail_idx, 0) + seq![
        ActionOf::Kick,
        account::wait_for(b.s, 400),
    ]));
    passing::lemma_closed(start, steps, 6);
    passing::lemma_paused(start, steps, 7);
    passing::lemma_opened(start, steps, 8, sock, 0, 0);
    passing::lemma_judged_read(start, steps, 9, Sector::At(0), 512, 0);
    seq![
        passing::at(start, steps, 0).line(),
        passing::at(start, steps, 1).line(),
        passing::at(start, steps, 6).line(),
        passing::at(start, steps, 7).line(),
        passing::at(start, steps, 8).line(),
        passing::at(start, steps, 9).line(),
        passing::at(start, steps, 11).line(),
    ]
}

/// A pass means that the device still served after a head past the table.
pub proof fn device_survives_a_head_out_of_the_table(
    sock: Seq<char>,
    delay_ms: u64,
    replies: Seq<Rep>,
) -> (l: Seq<Line>)
    requires
        passing::passes(Case::AvailHeadOob, sock, delay_ms, replies),
    ensures
        passing::spans(l, Case::AvailHeadOob, sock, delay_ms, replies),
        account::opened(l[0], l[1], sock, 0, 0),
        account::spoke(
            l[1].io,
            l[2].io,
            model::publish(l[1].s.avail_idx, 261) + seq![
                ActionOf::Kick,
                account::wait_for(l[1].s, 400),
            ],
            1,
        ),
        account::closed(l[2], l[3]),
        account::paused(l[3], l[4]),
        account::opened(l[4], l[5], sock, 0, 0),
        account::tried_read(l[5], l[6], 0, 512, 0),
{
    let start = bench::set_out(replay::opening(delay_ms, replies));
    let steps = registry::script(Case::AvailHeadOob, sock);
    assert(steps.len() == 9);
    passing::lemma_went(Case::AvailHeadOob, sock, delay_ms, replies);
    passing::lemma_opened(start, steps, 0, sock, 0, 0);
    let b = passing::at(start, steps, 1);
    passing::lemma_step(start, steps, 1);
    passing::lemma_ignored(start, steps, 2, 400);
    assert(passing::at(start, steps, 4).io.log =~= b.io.log
        + (model::publish(b.s.avail_idx, 261) + seq![
        ActionOf::Kick,
        account::wait_for(b.s, 400),
    ]));
    passing::lemma_closed(start, steps, 4);
    passing::lemma_paused(start, steps, 5);
    passing::lemma_opened(start, steps, 6, sock, 0, 0);
    passing::lemma_judged_read(start, steps, 7, Sector::At(0), 512, 0);
    seq![
        passing::at(start, steps, 0).line(),
        passing::at(start, steps, 1).line(),
        passing::at(start, steps, 4).line(),
        passing::at(start, steps, 5).line(),
        passing::at(start, steps, 6).line(),
        passing::at(start, steps, 7).line(),
        passing::at(start, steps, 9).line(),
    ]
}

/// A pass means that a request for the identity with too small a buffer got an I/O error, and the
/// next request was served.
pub proof fn short_identity_is_refused(
    sock: Seq<char>,
    delay_ms: u64,
    replies: Seq<Rep>,
) -> (l: Seq<Line>)
    requires
        passing::passes(Case::GetidWrongSize, sock, delay_ms, replies),
    ensures
        passing::spans(l, Case::GetidWrongSize, sock, delay_ms, replies),
        account::opened(l[0], l[1], sock, 0, 0),
        ({
            let (h, d, s) = account::places(l[1].s, 10);
            account::exchanged(
                l[1],
                l[2],
                account::laid(h, 8, 0, d, mem::repeated(0, 10), s),
                seq![model::readable(h, 16), model::writable(d, 10), model::writable(s, 1)],
                seq![(s, seq![1u8])],
            )
        }),
        account::tried_read(l[2], l[3], 0, 512, 0),
{
    let start = bench::set_out(replay::opening(delay_ms, replies));
    let steps = registry::script(Case::GetidWrongSize, sock);
    assert(steps.len() == 12);
    passing::lemma_went(Case::GetidWrongSize, sock, delay_ms, replies);
    passing::lemma_opened(start, steps, 0, sock, 0, 0);
    let (h1, d1, s1) = account::places(
        passing::at(start, steps, 1).s,
        mem::repeated(0, 10).len() as int,
    );
    let segs1 = steps[7]->Submit_chain;
    assert(passing::within(segs1, 0, 3));
    assert(passing::laid_out(segs1, seq![h1, d1, s1], 0) =~= seq![
        model::readable(h1, 16),
        model::writable(d1, 10),
        model::writable(s1, 1),
    ]);
    passing::lemma_asked(start, steps, 1, 8, Sector::At(0), mem::repeated(0, 10), segs1);
    passing::lemma_right(start, steps, 9, Accept::Only(1));
    passing::lemma_good_read(start, steps, 10, Sector::At(0), 512);
    seq![
        passing::at(start, steps, 0).line(),
        passing::at(start, steps, 1).line(),
        passing::at(start, steps, 10).line(),
        passing::at(start, steps, 12).line(),
    ]
}

/// A pass means that a discard of two runs got an I/O error, and the next request was served.
pub proof fn discard_of_two_runs_is_refused(
    sock: Seq<char>,
    delay_ms: u64,
    replies: Seq<Rep>,
) -> (l: Seq<Line>)
    requires
        passing::passes(Case::DiscardMultiSegment, sock, delay_ms, replies),
    ensures
        passing::spans(l, Case::DiscardMultiSegment, sock, delay_ms, replies),
        account::opened(l[0], l[1], sock, 0, 0),
        l[1].s.acked & 0x2000 != 0,
        ({
            let h = model::next_buffer(l[1].s);
            let one = model::allocated(l[1].s, 16);
            let two = model::allocated(one, 16);
            let d = model::next_buffer(one);
            let e = model::next_buffer(two);
            let s = model::next_buffer(model::allocated(two, 16));
            account::exchanged(
                l[1],
                l[2],
                model::header_stores(h, 11, 0) + seq![
                    mem::store(d, mem::repeated(0, 16)),
                    mem::store(e, mem::repeated(0, 16)),
                    mem::store(s, seq![0xffu8]),
                ],
                seq![
                    model::readable(h, 16),
                    model::readable(d, 16),
                    model::readable(e, 16),
                    model::writable(s, 1),
                ],
                seq![(s, seq![1u8])],
            )
        }),
        account::tried_read(l[2], l[3], 0, 512, 0),
{
    let start = bench::set_out(replay::opening(delay_ms, replies));
    let steps = registry::script(Case::DiscardMultiSegment, sock);
    assert(steps.len() == 15);
    passing::lemma_went(Case::DiscardMultiSegment, sock, delay_ms, replies);
    passing::lemma_opened(start, steps, 0, sock, 0, 0);
    passing::lemma_require(start, steps, 1, Wanted::Feature(0x2000));
    assert(steps[10]->Submit_chain =~= seq![
        Seg::readable(0, 0, 16),
        Seg::readable(1, 0, 16),
        Seg::readable(2, 0, 16),
        Seg::writable(3, 0, 1),
    ]);
    passing::lemma_asked_with_two_runs(start, steps, 2);
    passing::lemma_right(start, steps, 12, Accept::Only(1));
    passing::lemma_good_read(start, steps, 13, Sector::At(0), 512);
    seq![
        passing::at(start, steps, 0).line(),
        passing::at(start, steps, 1).line(),
        passing::at(start, steps, 13).line(),
        passing::at(start, steps, 15).line(),
    ]
}

/// A pass means that a discard past the end got an I/O error, and the next request was served.
pub proof fn discards_past_the_end_are_refused(
    sock: Seq<char>,
    delay_ms: u64,
    replies: Seq<Rep>,
) -> (l: Seq<Line>)
    requires
        passing::passes(Case::DiscardBeyondCapacity, sock, delay_ms, replies),
    ensures
        passing::spans(l, Case::DiscardBeyondCapacity, sock, delay_ms, replies),
        account::opened(l[0], l[1], sock, 0, 0),
        l[1].s.acked & 0x2000 != 0,
        l[1].s.capacity_sectors != 0,
        l[1].s.capacity_sectors + 1_000_000 <= u64::MAX,
        account::ranged(l[1], l[2], 11, l[1].s.capacity_sectors + 1_000_000, 8, false, 1),
        account::tried_read(l[2], l[3], 0, 512, 0),
{
    let start = bench::set_out(replay::opening(delay_ms, replies));
    let steps = registry::script(Case::DiscardBeyondCapacity, sock);
    assert(steps.len() == 8);
    passing::lemma_went(Case::DiscardBeyondCapacity, sock, delay_ms, replies);
    passing::lemma_opened(start, steps, 0, sock, 0, 0);
    passing::lemma_require(start, steps, 1, Wanted::Feature(0x2000));
    passing::lemma_require(start, steps, 2, Wanted::Capacity);
    passing::lemma_beyond(start, steps, 3, 1_000_000);
    passing::lemma_ranged(start, steps, 4, 11, Sector::Past(1_000_000), 8, false);
    passing::lemma_right(start, steps, 5, Accept::Only(1));
    passing::lemma_good_read(start, steps, 6, Sector::At(0), 512);
    seq![
        passing::at(start, steps, 0).line(),
        passing::at(start, steps, 1).line(),
        passing::at(start, steps, 6).line(),
        passing::at(start, steps, 8).line(),
    ]
}

/// A pass means that a read from the last sector that can be named got an I/O error, and the next
/// request was served.
pub proof fn sectors_that_overflow_are_refused(
    sock: Seq<char>,
    delay_ms: u64,
    replies: Seq<Rep>,
) -> (l: Seq<Line>)
    requires
        passing::passes(Case::SectorOverflow, sock, delay_ms, replies),
    ensures
        passing::spans(l, Case::SectorOverflow, sock, delay_ms, replies),
        account::opened(l[0], l[1], sock, 0, 0),
        account::tried_read(l[1], l[2], u64::MAX as int, 1024, 1),
        account::tried_read(l[2], l[3], 0, 512, 0),
{
    let start = bench::set_out(replay::opening(delay_ms, replies));
    let steps = registry::script(Case::SectorOverflow, sock);
    assert(steps.len() == 5);
    passing::lemma_went(Case::SectorOverflow, sock, delay_ms, replies);
    passing::lemma_opened(start, steps, 0, sock, 0, 0);
    passing::lemma_judged_read(start, steps, 1, Sector::At(u64::MAX), 1024, 1);
    passing::lemma_good_read(start, steps, 3, Sector::At(0), 512);
    seq![
        passing::at(start, steps, 0).line(),
        passing::at(start, steps, 1).line(),
        passing::at(start, steps, 3).line(),
        passing::at(start, steps, 5).line(),
    ]
}

/// A pass means that a discard of no sectors got a proper status, and the next request was served.
pub proof fn discard_of_nothing_gets_a_status(
    sock: Seq<char>,
    delay_ms: u64,
    replies: Seq<Rep>,
) -> (l: Seq<Line>)
    requires
        passing::passes(Case::DiscardZeroSectors, sock, delay_ms, replies),
    ensures
        passing::spans(l, Case::DiscardZeroSectors, sock, delay_ms, replies),
        account::opened(l[0], l[1], sock, 0, 0),
        l[1].s.acked & 0x2000 != 0,
        account::bytes_of(l[1].io, 1)[0] == 0 || account::bytes_of(l[1].io, 1)[0]
            == 1 || account::bytes_of(l[1].io, 1)[0] == 2,
        account::ranged(l[1], l[2], 11, 2048, 0, false, account::bytes_of(l[1].io, 1)[0]),
        account::tried_read(l[2], l[3], 0, 512, 0),
{
    let start = bench::set_out(replay::opening(delay_ms, replies));
    let steps = registry::script(Case::DiscardZeroSectors, sock);
    assert(steps.len() == 6);
    passing::lemma_went(Case::DiscardZeroSectors, sock, delay_ms, replies);
    passing::lemma_opened(start, steps, 0, sock, 0, 0);
    passing::lemma_require(start, steps, 1, Wanted::Feature(0x2000));
    passing::lemma_ranged(start, steps, 2, 11, Sector::At(2048), 0, false);
    passing::lemma_right(start, steps, 3, Accept::Known);
    passing::lemma_good_read(start, steps, 4, Sector::At(0), 512);
    seq![
        passing::at(start, steps, 0).line(),
        passing::at(start, steps, 1).line(),
        passing::at(start, steps, 4).line(),
        passing::at(start, steps, 6).line(),
    ]
}

/// A pass means that a device that cannot be written refused a write with an I/O error.
pub proof fn writes_to_a_read_only_device_are_refused(
    sock: Seq<char>,
    delay_ms: u64,
    replies: Seq<Rep>,
) -> (l: Seq<Line>)
    requires
        passing::passes(Case::ReadonlyWrite, sock, delay_ms, replies),
    ensures
        passing::spans(l, Case::ReadonlyWrite, sock, delay_ms, replies),
        account::opened(l[0], l[1], sock, 0, 0),
        l[1].s.acked & 0x20 != 0,
        account::wrote(l[1], l[2], 2048, checks::pattern(0x77, 512), 1),
{
    let start = bench::set_out(replay::opening(delay_ms, replies));
    let steps = registry::script(Case::ReadonlyWrite, sock);
    assert(steps.len() == 4);
    passing::lemma_went(Case::ReadonlyWrite, sock, delay_ms, replies);
    passing::lemma_opened(start, steps, 0, sock, 0, 0);
    passing::lemma_require(start, steps, 1, Wanted::Feature(0x20));
    passing::lemma_wrote(start, steps, 2, Sector::At(2048), checks::pattern(0x77, 512));
    passing::lemma_right(start, steps, 3, Accept::Only(1));
    seq![
        passing::at(start, steps, 0).line(),
        passing::at(start, steps, 1).line(),
        passing::at(start, steps, 4).line(),
    ]
}

} // verus!
