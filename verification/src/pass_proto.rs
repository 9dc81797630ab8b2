//! What a pass of the scenarios of the protocol means, and of those on features, notifications and
//! the ring.

use vstd::prelude::*;

use crate::account;
use crate::bench;
use crate::bench::{Accept, Sector, Seg, Wanted};
use crate::checks;
use crate::laws;
use crate::link::{ActionOf, Rep, ReplyOf};
use crate::mem;
use crate::model;
use crate::model::Line;
use crate::passing;
use crate::registry;
use crate::registry::Case;
use crate::replay;
use crate::t_proto;

verus! {

/// A pass means that the last sector by the configuration can be read, and the next one cannot.
pub proof fn capacity_is_where_reads_end(
    sock: Seq<char>,
    delay_ms: u64,
    replies: Seq<Rep>,
) -> (l: Seq<Line>)
    requires
        passing::passes(Case::ConfigCapacityConsistency, sock, delay_ms, replies),
    ensures
        passing::spans(l, Case::ConfigCapacityConsistency, sock, delay_ms, replies),
        account::opened(l[0], l[1], sock, 0, 0),
        l[1].s.capacity_sectors != 0,
        account::tried_read(l[1], l[2], l[1].s.capacity_sectors - 1, 512, 0),
        account::tried_read(l[2], l[3], l[2].s.capacity_sectors - 1, 1024, 1),
{
    let start = bench::set_out(replay::opening(delay_ms, replies));
    let steps = registry::script(Case::ConfigCapacityConsistency, sock);
    assert(steps.len() == 7);
    passing::lemma_went(Case::ConfigCapacityConsistency, sock, delay_ms, replies);
    passing::lemma_opened(start, steps, 0, sock, 0, 0);
    passing::lemma_require(start, steps, 1, Wanted::Capacity);
    passing::lemma_good_read(start, steps, 2, Sector::Last, 512);
    passing::lemma_refused_read(start, steps, 4, Sector::Last, 1024, 1);
    seq![
        passing::at(start, steps, 0).line(),
        passing::at(start, steps, 1).line(),
        passing::at(start, steps, 4).line(),
        passing::at(start, steps, 7).line(),
    ]
}

/// A pass means that eight bytes of configuration, asked for alone, are those that begin the whole.
pub proof fn part_of_the_configuration_agrees_with_the_whole(
    sock: Seq<char>,
    delay_ms: u64,
    replies: Seq<Rep>,
) -> (l: Seq<Line>)
    requires
        passing::passes(Case::ConfigPartialRead, sock, delay_ms, replies),
    ensures
        passing::spans(l, Case::ConfigPartialRead, sock, delay_ms, replies),
        account::greeted(l[0], l[1], sock, false),
        l[1].s.proto & 0x200 == 0x200,
        account::spoke(
            l[1].io,
            l[2].io,
            seq![
                ActionOf::GetConfig { offset: 0, size: 60 },
                ActionOf::GetConfig { offset: 0, size: 8 },
            ],
            2,
        ),
        account::brought(l[1].io, 0, account::bytes_of(l[1].io, 0)),
        account::brought(l[1].io, 1, account::bytes_of(l[1].io, 1)),
        account::bytes_of(l[1].io, 0).len() >= 8,
        account::bytes_of(l[1].io, 1).len() >= 8,
        account::bytes_of(l[1].io, 0).take(8) == account::bytes_of(l[1].io, 1).take(8),
{
    let start = bench::set_out(replay::opening(delay_ms, replies));
    let steps = registry::script(Case::ConfigPartialRead, sock);
    assert(steps.len() == 6);
    passing::lemma_went(Case::ConfigPartialRead, sock, delay_ms, replies);
    passing::lemma_greeted(start, steps, 0, sock, false);
    passing::lemma_require(start, steps, 1, Wanted::Protocol(0x200));
    passing::lemma_step(start, steps, 2);
    passing::lemma_step(start, steps, 3);
    passing::lemma_step(start, steps, 4);
    passing::lemma_step(start, steps, 5);
    assert(passing::at(start, steps, 6).io.log =~= passing::at(start, steps, 2).io.log + seq![
        ActionOf::GetConfig { offset: 0, size: 60 },
        ActionOf::GetConfig { offset: 0, size: 8 },
    ]);
    seq![
        passing::at(start, steps, 0).line(),
        passing::at(start, steps, 1).line(),
        passing::at(start, steps, 6).line(),
    ]
}

/// A pass means that the device offered the same features when it was asked twice.
pub proof fn features_are_the_same_twice(
    sock: Seq<char>,
    delay_ms: u64,
    replies: Seq<Rep>,
) -> (l: Seq<Line>)
    requires
        passing::passes(Case::GetFeaturesStable, sock, delay_ms, replies),
    ensures
        passing::spans(l, Case::GetFeaturesStable, sock, delay_ms, replies),
        account::greeted(l[0], l[1], sock, false),
        account::spoke(l[1].io, l[2].io, seq![ActionOf::GetFeatures, ActionOf::GetFeatures], 2),
        account::answer(l[1].io, 0) is Number,
        account::answer(l[1].io, 0) == account::answer(l[1].io, 1),
{
    let start = bench::set_out(replay::opening(delay_ms, replies));
    let steps = registry::script(Case::GetFeaturesStable, sock);
    assert(steps.len() == 5);
    passing::lemma_went(Case::GetFeaturesStable, sock, delay_ms, replies);
    passing::lemma_greeted(start, steps, 0, sock, false);
    passing::lemma_step(start, steps, 1);
    passing::lemma_step(start, steps, 2);
    passing::lemma_step(start, steps, 3);
    passing::lemma_step(start, steps, 4);
    assert(passing::at(start, steps, 5).io.log =~= passing::at(start, steps, 1).io.log + seq![
        ActionOf::GetFeatures,
        ActionOf::GetFeatures,
    ]);
    seq![
        passing::at(start, steps, 0).line(),
        passing::at(start, steps, 1).line(),
        passing::at(start, steps, 5).line(),
    ]
}

/// A pass means that a session read what an earlier one, closed since, had written.
pub proof fn second_session_reads_what_the_first_wrote(
    sock: Seq<char>,
    delay_ms: u64,
    replies: Seq<Rep>,
) -> (l: Seq<Line>)
    requires
        passing::passes(Case::PersistenceReconnect, sock, delay_ms, replies),
    ensures
        passing::spans(l, Case::PersistenceReconnect, sock, delay_ms, replies),
        account::opened(l[0], l[1], sock, 0, 0),
        l[1].s.capacity_sectors >= 2060,
        account::wrote(l[1], l[2], 2048, checks::pattern(0x9e, 512), 0),
        account::closed(l[2], l[3]),
        account::paused(l[3], l[4]),
        account::opened(l[4], l[5], sock, 0, 0),
        account::read(l[5], l[6], 2048, checks::pattern(0x9e, 512), 0),
{
    let start = bench::set_out(replay::opening(delay_ms, replies));
    let steps = registry::script(Case::PersistenceReconnect, sock);
    assert(steps.len() == 10);
    passing::lemma_went(Case::PersistenceReconnect, sock, delay_ms, replies);
    passing::lemma_opened(start, steps, 0, sock, 0, 0);
    passing::lemma_need(start, steps, 1, 4);
    passing::lemma_good_write(start, steps, 2, Sector::At(2048), checks::pattern(0x9e, 512));
    passing::lemma_closed(start, steps, 4);
    passing::lemma_paused(start, steps, 5);
    passing::lemma_opened(start, steps, 6, sock, 0, 0);
    passing::lemma_read_back(start, steps, 7, Sector::At(2048), checks::pattern(0x9e, 512));
    seq![
        passing::at(start, steps, 0).line(),
        passing::at(start, steps, 1).line(),
        passing::at(start, steps, 4).line(),
        passing::at(start, steps, 5).line(),
        passing::at(start, steps, 6).line(),
        passing::at(start, steps, 7).line(),
        passing::at(start, steps, 10).line(),
    ]
}

/// A pass means that five sessions, one after the other, each read the first sector.
pub proof fn every_session_of_five_is_served(
    sock: Seq<char>,
    delay_ms: u64,
    replies: Seq<Rep>,
) -> (l: Seq<Line>)
    requires
        passing::passes(Case::ReconnectStress, sock, delay_ms, replies),
    ensures
        passing::spans(l, Case::ReconnectStress, sock, delay_ms, replies),
        account::opened(l[0], l[1], sock, 0, 0),
        account::tried_read(l[1], l[2], 0, 512, 0),
        account::closed(l[2], l[3]),
        account::paused(l[3], l[4]),
        account::opened(l[4], l[5], sock, 0, 0),
        account::tried_read(l[5], l[6], 0, 512, 0),
        account::closed(l[6], l[7]),
        account::paused(l[7], l[8]),
        account::opened(l[8], l[9], sock, 0, 0),
        account::tried_read(l[9], l[10], 0, 512, 0),
        account::closed(l[10], l[11]),
        account::paused(l[11], l[12]),
        account::opened(l[12], l[13], sock, 0, 0),
        account::tried_read(l[13], l[14], 0, 512, 0),
        account::closed(l[14], l[15]),
        account::paused(l[15], l[16]),
        account::opened(l[16], l[17], sock, 0, 0),
        account::tried_read(l[17], l[18], 0, 512, 0),
        account::closed(l[18], l[19]),
{
    let start = bench::set_out(replay::opening(delay_ms, replies));
    let steps = registry::script(Case::ReconnectStress, sock);
    reveal_with_fuel(t_proto::cycles, 6);
    assert(steps.len() == 24);
    passing::lemma_went(Case::ReconnectStress, sock, delay_ms, replies);
    passing::lemma_opened(start, steps, 0, sock, 0, 0);
    passing::lemma_good_read(start, steps, 1, Sector::At(0), 512);
    passing::lemma_closed(start, steps, 3);
    passing::lemma_paused(start, steps, 4);
    passing::lemma_opened(start, steps, 5, sock, 0, 0);
    passing::lemma_good_read(start, steps, 6, Sector::At(0), 512);
    passing::lemma_closed(start, steps, 8);
    passing::lemma_paused(start, steps, 9);
    passing::lemma_opened(start, steps, 10, sock, 0, 0);
    passing::lemma_good_read(start, steps, 11, Sector::At(0), 512);
    passing::lemma_closed(start, steps, 13);
    passing::lemma_paused(start, steps, 14);
    passing::lemma_opened(start, steps, 15, sock, 0, 0);
    passing::lemma_good_read(start, steps, 16, Sector::At(0), 512);
    passing::lemma_closed(start, steps, 18);
    passing::lemma_paused(start, steps, 19);
    passing::lemma_opened(start, steps, 20, sock, 0, 0);
    passing::lemma_good_read(start, steps, 21, Sector::At(0), 512);
    passing::lemma_closed(start, steps, 23);
    seq![
        passing::at(start, steps, 0).line(),
        passing::at(start, steps, 1).line(),
        passing::at(start, steps, 3).line(),
        passing::at(start, steps, 4).line(),
        passing::at(start, steps, 5).line(),
        passing::at(start, steps, 6).line(),
        passing::at(start, steps, 8).line(),
        passing::at(start, steps, 9).line(),
        passing::at(start, steps, 10).line(),
        passing::at(start, steps, 11).line(),
        passing::at(start, steps, 13).line(),
        passing::at(start, steps, 14).line(),
        passing::at(start, steps, 15).line(),
        passing::at(start, steps, 16).line(),
        passing::at(start, steps, 18).line(),
        passing::at(start, steps, 19).line(),
        passing::at(start, steps, 20).line(),
        passing::at(start, steps, 21).line(),
        passing::at(start, steps, 23).line(),
        passing::at(start, steps, 24).line(),
    ]
}

/// A pass means that the device still served after it had been claimed twice.
pub proof fn device_survives_a_second_owner(
    sock: Seq<char>,
    delay_ms: u64,
    replies: Seq<Rep>,
) -> (l: Seq<Line>)
    requires
        passing::passes(Case::DoubleSetOwner, sock, delay_ms, replies),
    ensures
        passing::spans(l, Case::DoubleSetOwner, sock, delay_ms, replies),
        account::greeted(l[0], l[1], sock, false),
        account::spoke(l[1].io, l[2].io, seq![ActionOf::SetOwner], 1),
        l[2].s == l[1].s,
        account::closed(l[2], l[3]),
        account::paused(l[3], l[4]),
        account::opened(l[4], l[5], sock, 0, 0),
        account::tried_read(l[5], l[6], 0, 512, 0),
{
    let start = bench::set_out(replay::opening(delay_ms, replies));
    let steps = registry::script(Case::DoubleSetOwner, sock);
    assert(steps.len() == 7);
    passing::lemma_went(Case::DoubleSetOwner, sock, delay_ms, replies);
    passing::lemma_greeted(start, steps, 0, sock, false);
    passing::lemma_step(start, steps, 1);
    passing::lemma_closed(start, steps, 2);
    passing::lemma_paused(start, steps, 3);
    passing::lemma_opened(start, steps, 4, sock, 0, 0);
    passing::lemma_judged_read(start, steps, 5, Sector::At(0), 512, 0);
    seq![
        passing::at(start, steps, 0).line(),
        passing::at(start, steps, 1).line(),
        passing::at(start, steps, 2).line(),
        passing::at(start, steps, 3).line(),
        passing::at(start, steps, 4).line(),
        passing::at(start, steps, 5).line(),
        passing::at(start, steps, 7).line(),
    ]
}

/// A pass means that the device still served after a ring size of zero.
pub proof fn device_survives_a_ring_of_no_entries(
    sock: Seq<char>,
    delay_ms: u64,
    replies: Seq<Rep>,
) -> (l: Seq<Line>)
    requires
        passing::passes(Case::VringNumZero, sock, delay_ms, replies),
    ensures
        passing::spans(l, Case::VringNumZero, sock, delay_ms, replies),
        account::greeted(l[0], l[1], sock, true),
        account::spoke(l[1].io, l[2].io, seq![ActionOf::SetVringNum { num: 0 }], 1),
        l[2].s == l[1].s,
        account::closed(l[2], l[3]),
        account::paused(l[3], l[4]),
        account::opened(l[4], l[5], sock, 0, 0),
        account::tried_read(l[5], l[6], 0, 512, 0),
{
    let start = bench::set_out(replay::opening(delay_ms, replies));
    let steps = registry::script(Case::VringNumZero, sock);
    assert(steps.len() == 7);
    passing::lemma_went(Case::VringNumZero, sock, delay_ms, replies);
    passing::lemma_greeted(start, steps, 0, sock, true);
    passing::lemma_step(start, steps, 1);
    passing::lemma_closed(start, steps, 2);
    passing::lemma_paused(start, steps, 3);
    passing::lemma_opened(start, steps, 4, sock, 0, 0);
    passing::lemma_judged_read(start, steps, 5, Sector::At(0), 512, 0);
    seq![
        passing::at(start, steps, 0).line(),
        passing::at(start, steps, 1).line(),
        passing::at(start, steps, 2).line(),
        passing::at(start, steps, 3).line(),
        passing::at(start, steps, 4).line(),
        passing::at(start, steps, 5).line(),
        passing::at(start, steps, 7).line(),
    ]
}

/// A pass means that the device still served after a ring size that is no power of two.
pub proof fn device_survives_an_odd_ring(
    sock: Seq<char>,
    delay_ms: u64,
    replies: Seq<Rep>,
) -> (l: Seq<Line>)
    requires
        passing::passes(Case::VringNumNotPow2, sock, delay_ms, replies),
    ensures
        passing::spans(l, Case::VringNumNotPow2, sock, delay_ms, replies),
        account::greeted(l[0], l[1], sock, true),
        account::spoke(l[1].io, l[2].io, seq![ActionOf::SetVringNum { num: 100 }], 1),
        l[2].s == l[1].s,
        account::closed(l[2], l[3]),
        account::paused(l[3], l[4]),
        account::opened(l[4], l[5], sock, 0, 0),
        account::tried_read(l[5], l[6], 0, 512, 0),
{
    let start = bench::set_out(replay::opening(delay_ms, replies));
    let steps = registry::script(Case::VringNumNotPow2, sock);
    assert(steps.len() == 7);
    passing::lemma_went(Case::VringNumNotPow2, sock, delay_ms, replies);
    passing::lemma_greeted(start, steps, 0, sock, true);
    passing::lemma_step(start, steps, 1);
    passing::lemma_closed(start, steps, 2);
    passing::lemma_paused(start, steps, 3);
    passing::lemma_opened(start, steps, 4, sock, 0, 0);
    passing::lemma_judged_read(start, steps, 5, Sector::At(0), 512, 0);
    seq![
        passing::at(start, steps, 0).line(),
        passing::at(start, steps, 1).line(),
        passing::at(start, steps, 2).line(),
        passing::at(start, steps, 3).line(),
        passing::at(start, steps, 4).line(),
        passing::at(start, steps, 5).line(),
        passing::at(start, steps, 7).line(),
    ]
}

/// A pass means that the device still served after a ring size over the maximum it may have.
pub proof fn device_survives_a_large_ring(
    sock: Seq<char>,
    delay_ms: u64,
    replies: Seq<Rep>,
) -> (l: Seq<Line>)
    requires
        passing::passes(Case::VringNumTooBig, sock, delay_ms, replies),
    ensures
        passing::spans(l, Case::VringNumTooBig, sock, delay_ms, replies),
        account::greeted(l[0], l[1], sock, true),
        account::spoke(l[1].io, l[2].io, seq![ActionOf::SetVringNum { num: 32768 }], 1),
        l[2].s == l[1].s,
        account::closed(l[2], l[3]),
        account::paused(l[3], l[4]),
        account::opened(l[4], l[5], sock, 0, 0),
        account::tried_read(l[5], l[6], 0, 512, 0),
{
    let start = bench::set_out(replay::opening(delay_ms, replies));
    let steps = registry::script(Case::VringNumTooBig, sock);
    assert(steps.len() == 7);
    passing::lemma_went(Case::VringNumTooBig, sock, delay_ms, replies);
    passing::lemma_greeted(start, steps, 0, sock, true);
    passing::lemma_step(start, steps, 1);
    passing::lemma_closed(start, steps, 2);
    passing::lemma_paused(start, steps, 3);
    passing::lemma_opened(start, steps, 4, sock, 0, 0);
    passing::lemma_judged_read(start, steps, 5, Sector::At(0), 512, 0);
    seq![
        passing::at(start, steps, 0).line(),
        passing::at(start, steps, 1).line(),
        passing::at(start, steps, 2).line(),
        passing::at(start, steps, 3).line(),
        passing::at(start, steps, 4).line(),
        passing::at(start, steps, 5).line(),
        passing::at(start, steps, 7).line(),
    ]
}

/// A pass means that the device still served after a descriptor table at an odd address.
pub proof fn device_survives_an_unaligned_ring(
    sock: Seq<char>,
    delay_ms: u64,
    replies: Seq<Rep>,
) -> (l: Seq<Line>)
    requires
        passing::passes(Case::VringAddrUnaligned, sock, delay_ms, replies),
    ensures
        passing::spans(l, Case::VringAddrUnaligned, sock, delay_ms, replies),
        account::greeted(l[0], l[1], sock, true),
        account::spoke(l[1].io, l[2].io, seq![ActionOf::SetVringNum { num: 256 }], 1),
        l[2].s == l[1].s,
        account::spoke(
            l[2].io,
            l[3].io,
            seq![ActionOf::SetVringAddr { config: model::ring_config(l[2].s.mem.base, 0x1001) }],
            1,
        ),
        l[3].s == l[2].s,
        account::closed(l[3], l[4]),
        account::paused(l[4], l[5]),
        account::opened(l[5], l[6], sock, 0, 0),
        account::tried_read(l[6], l[7], 0, 512, 0),
{
    let start = bench::set_out(replay::opening(delay_ms, replies));
    let steps = registry::script(Case::VringAddrUnaligned, sock);
    assert(steps.len() == 8);
    passing::lemma_went(Case::VringAddrUnaligned, sock, delay_ms, replies);
    passing::lemma_greeted(start, steps, 0, sock, true);
    passing::lemma_step(start, steps, 1);
    passing::lemma_step(start, steps, 2);
    passing::lemma_closed(start, steps, 3);
    passing::lemma_paused(start, steps, 4);
    passing::lemma_opened(start, steps, 5, sock, 0, 0);
    passing::lemma_judged_read(start, steps, 6, Sector::At(0), 512, 0);
    seq![
        passing::at(start, steps, 0).line(),
        passing::at(start, steps, 1).line(),
        passing::at(start, steps, 2).line(),
        passing::at(start, steps, 3).line(),
        passing::at(start, steps, 4).line(),
        passing::at(start, steps, 5).line(),
        passing::at(start, steps, 6).line(),
        passing::at(start, steps, 8).line(),
    ]
}

/// A pass means that the device still served after a memory table without regions.
pub proof fn device_survives_an_empty_memory_table(
    sock: Seq<char>,
    delay_ms: u64,
    replies: Seq<Rep>,
) -> (l: Seq<Line>)
    requires
        passing::passes(Case::MemTableEmpty, sock, delay_ms, replies),
    ensures
        passing::spans(l, Case::MemTableEmpty, sock, delay_ms, replies),
        account::greeted(l[0], l[1], sock, false),
        account::spoke(l[1].io, l[2].io, seq![ActionOf::SetMemTable { region: None }], 1),
        l[2].s == l[1].s,
        account::closed(l[2], l[3]),
        account::paused(l[3], l[4]),
        account::opened(l[4], l[5], sock, 0, 0),
        account::tried_read(l[5], l[6], 0, 512, 0),
{
    let start = bench::set_out(replay::opening(delay_ms, replies));
    let steps = registry::script(Case::MemTableEmpty, sock);
    assert(steps.len() == 7);
    passing::lemma_went(Case::MemTableEmpty, sock, delay_ms, replies);
    passing::lemma_greeted(start, steps, 0, sock, false);
    passing::lemma_step(start, steps, 1);
    passing::lemma_closed(start, steps, 2);
    passing::lemma_paused(start, steps, 3);
    passing::lemma_opened(start, steps, 4, sock, 0, 0);
    passing::lemma_judged_read(start, steps, 5, Sector::At(0), 512, 0);
    seq![
        passing::at(start, steps, 0).line(),
        passing::at(start, steps, 1).line(),
        passing::at(start, steps, 2).line(),
        passing::at(start, steps, 3).line(),
        passing::at(start, steps, 4).line(),
        passing::at(start, steps, 5).line(),
        passing::at(start, steps, 7).line(),
    ]
}

/// A pass means that the device still served after a ring was set up, and a request posted in it,
/// before any memory was shared.
pub proof fn device_survives_a_ring_without_memory(
    sock: Seq<char>,
    delay_ms: u64,
    replies: Seq<Rep>,
) -> (l: Seq<Line>)
    requires
        passing::passes(Case::VringBeforeMem, sock, delay_ms, replies),
    ensures
        passing::spans(l, Case::VringBeforeMem, sock, delay_ms, replies),
        account::greeted(l[0], l[1], sock, false),
        exists|n: int|
            0 < n <= laws::ring_messages(l[1].s, 0).len() && l[2].io.log == l[1].io.log
                + #[trigger] laws::ring_messages(l[1].s, 0).take(n),
        l[2].s == l[1].s,
        ({
            let h = model::next_buffer(l[2].s);
            let d = model::next_buffer(model::allocated(l[2].s, 16));
            let s = model::next_buffer(model::allocated(model::allocated(l[2].s, 16), 512));
            account::spoke(
                l[2].io,
                l[3].io,
                model::header_stores(h, 0, 0) + model::post_stores(
                    l[2].s,
                    seq![model::readable(h, 16), model::writable(d, 512), model::writable(s, 1)],
                ) + seq![ActionOf::Kick, account::wait_for(l[2].s, 300)],
                1,
            )
        }),
        account::closed(l[3], l[4]),
        account::paused(l[4], l[5]),
        account::opened(l[5], l[6], sock, 0, 0),
        account::tried_read(l[6], l[7], 0, 512, 0),
{
    let start = bench::set_out(replay::opening(delay_ms, replies));
    let steps = registry::script(Case::VringBeforeMem, sock);
    assert(steps.len() == 14);
    passing::lemma_went(Case::VringBeforeMem, sock, delay_ms, replies);
    passing::lemma_greeted(start, steps, 0, sock, false);
    passing::lemma_step(start, steps, 1);
    passing::lemma_posted_without_poison(start, steps, 2);
    passing::lemma_ignored(start, steps, 7, 300);
    let b = passing::at(start, steps, 2);
    let (h, d, s) = account::places(b.s, 512);
    let posting = model::header_stores(h, 0, 0) + model::post_stores(
        b.s,
        seq![model::readable(h, 16), model::writable(d, 512), model::writable(s, 1)],
    );
    assert(passing::at(start, steps, 9).io.log =~= b.io.log + (posting + seq![
        ActionOf::Kick,
        account::wait_for(b.s, 300),
    ]));
    passing::lemma_closed(start, steps, 9);
    passing::lemma_paused(start, steps, 10);
    passing::lemma_opened(start, steps, 11, sock, 0, 0);
    passing::lemma_judged_read(start, steps, 12, Sector::At(0), 512, 0);
    let l = seq![
        passing::at(start, steps, 0).line(),
        passing::at(start, steps, 1).line(),
        passing::at(start, steps, 2).line(),
        passing::at(start, steps, 9).line(),
        passing::at(start, steps, 10).line(),
        passing::at(start, steps, 11).line(),
        passing::at(start, steps, 12).line(),
        passing::at(start, steps, 14).line(),
    ];
    let a = passing::at(start, steps, 1);
    let n = choose|n: int|
        0 < n <= laws::ring_messages(a.s, 0).len() && passing::at(
            start,
            steps,
            2,
        ).io.log == a.io.log
            + #[trigger] laws::ring_messages(a.s, 0).take(n);
    assert(l[2].io.log == l[1].io.log + laws::ring_messages(l[1].s, 0).take(n));
    l
}

/// A pass means that the device gave back the ring base that it had been told.
pub proof fn ring_base_is_given_back(
    sock: Seq<char>,
    delay_ms: u64,
    replies: Seq<Rep>,
) -> (l: Seq<Line>)
    requires
        passing::passes(Case::VringBaseRoundtrip, sock, delay_ms, replies),
    ensures
        passing::spans(l, Case::VringBaseRoundtrip, sock, delay_ms, replies),
        account::greeted(l[0], l[1], sock, true),
        account::spoke(
            l[1].io,
            l[2].io,
            seq![
                ActionOf::SetVringNum { num: 256 },
                ActionOf::SetVringBase { base: 7 },
                ActionOf::GetVringBase,
            ],
            3,
        ),
        account::answered(l[1].io, 0, ReplyOf::Done),
        account::answered(l[1].io, 1, ReplyOf::Done),
        account::answered(l[1].io, 2, ReplyOf::Number(7)),
{
    let start = bench::set_out(replay::opening(delay_ms, replies));
    let steps = registry::script(Case::VringBaseRoundtrip, sock);
    assert(steps.len() == 5);
    passing::lemma_went(Case::VringBaseRoundtrip, sock, delay_ms, replies);
    passing::lemma_greeted(start, steps, 0, sock, true);
    passing::lemma_step(start, steps, 1);
    passing::lemma_step(start, steps, 2);
    passing::lemma_step(start, steps, 3);
    passing::lemma_step(start, steps, 4);
    assert(passing::at(start, steps, 5).io.log =~= passing::at(start, steps, 1).io.log + seq![
        ActionOf::SetVringNum { num: 256 },
        ActionOf::SetVringBase { base: 7 },
        ActionOf::GetVringBase,
    ]);
    seq![
        passing::at(start, steps, 0).line(),
        passing::at(start, steps, 1).line(),
        passing::at(start, steps, 5).line(),
    ]
}

/// A pass means that the ring base was three after three requests.
pub proof fn ring_base_counts_requests(
    sock: Seq<char>,
    delay_ms: u64,
    replies: Seq<Rep>,
) -> (l: Seq<Line>)
    requires
        passing::passes(Case::VringBaseTracksConsumed, sock, delay_ms, replies),
    ensures
        passing::spans(l, Case::VringBaseTracksConsumed, sock, delay_ms, replies),
        account::opened(l[0], l[1], sock, 0, 0),
        account::tried_read(l[1], l[2], 0, 512, 0),
        account::tried_read(l[2], l[3], 0, 512, 0),
        account::tried_read(l[3], l[4], 0, 512, 0),
        account::spoke(l[4].io, l[5].io, seq![ActionOf::GetVringBase], 1),
        account::answered(l[4].io, 0, ReplyOf::Number(3)),
{
    let start = bench::set_out(replay::opening(delay_ms, replies));
    let steps = registry::script(Case::VringBaseTracksConsumed, sock);
    assert(steps.len() == 9);
    passing::lemma_went(Case::VringBaseTracksConsumed, sock, delay_ms, replies);
    passing::lemma_opened(start, steps, 0, sock, 0, 0);
    passing::lemma_good_read(start, steps, 1, Sector::At(0), 512);
    passing::lemma_good_read(start, steps, 3, Sector::At(0), 512);
    passing::lemma_good_read(start, steps, 5, Sector::At(0), 512);
    passing::lemma_step(start, steps, 7);
    passing::lemma_step(start, steps, 8);
    seq![
        passing::at(start, steps, 0).line(),
        passing::at(start, steps, 1).line(),
        passing::at(start, steps, 3).line(),
        passing::at(start, steps, 5).line(),
        passing::at(start, steps, 7).line(),
        passing::at(start, steps, 9).line(),
    ]
}

/// A pass means that the device notified of a completion within a second.
pub proof fn completion_is_announced(
    sock: Seq<char>,
    delay_ms: u64,
    replies: Seq<Rep>,
) -> (l: Seq<Line>)
    requires
        passing::passes(Case::NotifySignaled, sock, delay_ms, replies),
    ensures
        passing::spans(l, Case::NotifySignaled, sock, delay_ms, replies),
        account::opened(l[0], l[1], sock, 0, 0),
        account::spoke(l[1].io, l[2].io, seq![ActionOf::DrainCall], 0),
        l[2].s == l[1].s,
        account::handed(l[2], l[3], 0, 0, mem::repeated(0, 512), true),
        account::spoke(
            l[3].io,
            l[4].io,
            seq![
                ActionOf::Kick,
                account::wait_for(l[3].s, 5000),
                ActionOf::WaitCall { timeout_ms: 1000 },
            ],
            2,
        ),
        account::completed(l[3].io, 0, l[2].s.next_desc as int),
        account::answered(l[3].io, 1, ReplyOf::Flag(true)),
{
    let start = bench::set_out(replay::opening(delay_ms, replies));
    let steps = registry::script(Case::NotifySignaled, sock);
    assert(steps.len() == 13);
    passing::lemma_went(Case::NotifySignaled, sock, delay_ms, replies);
    passing::lemma_opened(start, steps, 0, sock, 0, 0);
    passing::lemma_step(start, steps, 1);
    assert(steps[8]->Post_chain =~= seq![
        Seg::readable(0, 0, 16),
        Seg { buf: 1, at: 0, len: 512, write: true },
        Seg::writable(2, 0, 1),
    ]);
    passing::lemma_handed(start, steps, 2, 0, Sector::At(0), mem::repeated(0, 512), true);
    passing::lemma_notified(start, steps, 9, 1000, true);
    seq![
        passing::at(start, steps, 0).line(),
        passing::at(start, steps, 1).line(),
        passing::at(start, steps, 2).line(),
        passing::at(start, steps, 9).line(),
        passing::at(start, steps, 13).line(),
    ]
}

/// A pass means that the device completed a request without a notification where none was wanted.
pub proof fn unwanted_notification_is_left_out(
    sock: Seq<char>,
    delay_ms: u64,
    replies: Seq<Rep>,
) -> (l: Seq<Line>)
    requires
        passing::passes(Case::NotifySuppressed, sock, delay_ms, replies),
    ensures
        passing::spans(l, Case::NotifySuppressed, sock, delay_ms, replies),
        account::opened(l[0], l[1], sock, 0, 0),
        account::spoke(l[1].io, l[2].io, seq![mem::store_le(0x2000, 1, 2)], 0),
        l[2].s == l[1].s,
        account::spoke(l[2].io, l[3].io, seq![ActionOf::DrainCall], 0),
        l[3].s == l[2].s,
        account::handed(l[3], l[4], 0, 0, mem::repeated(0, 512), true),
        account::spoke(
            l[4].io,
            l[5].io,
            seq![
                ActionOf::Kick,
                account::wait_for(l[4].s, 5000),
                ActionOf::WaitCall { timeout_ms: 300 },
            ],
            2,
        ),
        account::completed(l[4].io, 0, l[3].s.next_desc as int),
        account::answered(l[4].io, 1, ReplyOf::Flag(false)),
{
    let start = bench::set_out(replay::opening(delay_ms, replies));
    let steps = registry::script(Case::NotifySuppressed, sock);
    assert(steps.len() == 14);
    passing::lemma_went(Case::NotifySuppressed, sock, delay_ms, replies);
    passing::lemma_opened(start, steps, 0, sock, 0, 0);
    passing::lemma_step(start, steps, 1);
    passing::lemma_step(start, steps, 2);
    assert(steps[9]->Post_chain =~= seq![
        Seg::readable(0, 0, 16),
        Seg { buf: 1, at: 0, len: 512, write: true },
        Seg::writable(2, 0, 1),
    ]);
    passing::lemma_handed(start, steps, 3, 0, Sector::At(0), mem::repeated(0, 512), true);
    passing::lemma_notified(start, steps, 10, 300, false);
    seq![
        passing::at(start, steps, 0).line(),
        passing::at(start, steps, 1).line(),
        passing::at(start, steps, 2).line(),
        passing::at(start, steps, 3).line(),
        passing::at(start, steps, 10).line(),
        passing::at(start, steps, 14).line(),
    ]
}

/// A pass means that a discard that was offered and not agreed on got the status of an unsupported
/// request.
pub proof fn features_that_were_not_agreed_on_are_refused(
    sock: Seq<char>,
    delay_ms: u64,
    replies: Seq<Rep>,
) -> (l: Seq<Line>)
    requires
        passing::passes(Case::FeatureGatingDiscard, sock, delay_ms, replies),
    ensures
        passing::spans(l, Case::FeatureGatingDiscard, sock, delay_ms, replies),
        account::opened(l[0], l[1], sock, 0x2000, 0),
        l[1].s.offered & 0x2000 != 0,
        account::ranged(l[1], l[2], 11, 2048, 8, false, 2),
{
    let start = bench::set_out(replay::opening(delay_ms, replies));
    let steps = registry::script(Case::FeatureGatingDiscard, sock);
    assert(steps.len() == 4);
    passing::lemma_went(Case::FeatureGatingDiscard, sock, delay_ms, replies);
    passing::lemma_opened(start, steps, 0, sock, 0x2000, 0);
    passing::lemma_require(start, steps, 1, Wanted::Offered(0x2000));
    passing::lemma_ranged(start, steps, 2, 11, Sector::At(2048), 8, false);
    passing::lemma_right(start, steps, 3, Accept::Only(2));
    seq![
        passing::at(start, steps, 0).line(),
        passing::at(start, steps, 1).line(),
        passing::at(start, steps, 4).line(),
    ]
}

/// A pass means that the block size is at least a sector, and a power of two.
pub proof fn block_size_is_a_power_of_two(
    sock: Seq<char>,
    delay_ms: u64,
    replies: Seq<Rep>,
) -> (l: Seq<Line>)
    requires
        passing::passes(Case::ConfigBlkSizeSane, sock, delay_ms, replies),
    ensures
        passing::spans(l, Case::ConfigBlkSizeSane, sock, delay_ms, replies),
        account::opened(l[0], l[1], sock, 0, 0),
        l[1].s.acked & 0x40 != 0,
        l[1].s.config_blk_size >= 512,
        l[1].s.config_blk_size & ((l[1].s.config_blk_size - 1) as u32) == 0,
{
    let start = bench::set_out(replay::opening(delay_ms, replies));
    let steps = registry::script(Case::ConfigBlkSizeSane, sock);
    assert(steps.len() == 3);
    passing::lemma_went(Case::ConfigBlkSizeSane, sock, delay_ms, replies);
    passing::lemma_opened(start, steps, 0, sock, 0, 0);
    passing::lemma_require(start, steps, 1, Wanted::Feature(0x40));
    passing::lemma_step(start, steps, 2);
    seq![
        passing::at(start, steps, 0).line(),
        passing::at(start, steps, 1).line(),
    ]
}

} // verus!
