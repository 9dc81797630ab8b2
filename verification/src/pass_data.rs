//! What a pass of the scenarios of the data plane means: what the device was handed, and what it
//! answered.

use vstd::prelude::*;

use crate::account;
use crate::bench;
use crate::bench::{Accept, Sector, Seg, Wanted};
use crate::checks;
use crate::link::Rep;
use crate::mem;
use crate::model;
use crate::model::Line;
use crate::passing;
use crate::registry;
use crate::registry::Case;
use crate::replay;
use crate::t_data;

verus! {

/// The smoke scenario passes only where a session can be opened.
pub proof fn handshake_opens_a_session(
    sock: Seq<char>,
    delay_ms: u64,
    replies: Seq<Rep>,
) -> (l: Seq<Line>)
    requires
        passing::passes(Case::Handshake, sock, delay_ms, replies),
    ensures
        passing::spans(l, Case::Handshake, sock, delay_ms, replies),
        account::opened(l[0], l[1], sock, 0, 0),
{
    let start = bench::set_out(replay::opening(delay_ms, replies));
    let steps = registry::script(Case::Handshake, sock);
    assert(steps.len() == 1);
    passing::lemma_went(Case::Handshake, sock, delay_ms, replies);
    passing::lemma_opened(start, steps, 0, sock, 0, 0);
    seq![
        passing::at(start, steps, 0).line(),
        passing::at(start, steps, 1).line(),
    ]
}

/// A pass means that the device read out its first sector.
pub proof fn first_sector_was_read(
    sock: Seq<char>,
    delay_ms: u64,
    replies: Seq<Rep>,
) -> (l: Seq<Line>)
    requires
        passing::passes(Case::Read0, sock, delay_ms, replies),
    ensures
        passing::spans(l, Case::Read0, sock, delay_ms, replies),
        account::opened(l[0], l[1], sock, 0, 0),
        account::tried_read(l[1], l[2], 0, 512, 0),
{
    let start = bench::set_out(replay::opening(delay_ms, replies));
    let steps = registry::script(Case::Read0, sock);
    assert(steps.len() == 3);
    passing::lemma_went(Case::Read0, sock, delay_ms, replies);
    passing::lemma_opened(start, steps, 0, sock, 0, 0);
    passing::lemma_good_read(start, steps, 1, Sector::At(0), 512);
    seq![
        passing::at(start, steps, 0).line(),
        passing::at(start, steps, 1).line(),
        passing::at(start, steps, 3).line(),
    ]
}

/// A pass means that the device gave back what it was given.
pub proof fn roundtrip_brings_back_what_was_written(
    sock: Seq<char>,
    delay_ms: u64,
    replies: Seq<Rep>,
) -> (l: Seq<Line>)
    requires
        passing::passes(Case::Roundtrip, sock, delay_ms, replies),
    ensures
        passing::spans(l, Case::Roundtrip, sock, delay_ms, replies),
        account::opened(l[0], l[1], sock, 0, 0),
        l[1].s.capacity_sectors >= 2060,
        account::wrote(l[1], l[2], 2048, checks::pattern(0xa5, 512), 0),
        account::read(l[2], l[3], 2048, checks::pattern(0xa5, 512), 0),
{
    let start = bench::set_out(replay::opening(delay_ms, replies));
    let steps = registry::script(Case::Roundtrip, sock);
    assert(steps.len() == 7);
    passing::lemma_went(Case::Roundtrip, sock, delay_ms, replies);
    passing::lemma_opened(start, steps, 0, sock, 0, 0);
    passing::lemma_need(start, steps, 1, 4);
    passing::lemma_good_write(start, steps, 2, Sector::At(2048), checks::pattern(0xa5, 512));
    passing::lemma_read_back(start, steps, 4, Sector::At(2048), checks::pattern(0xa5, 512));
    seq![
        passing::at(start, steps, 0).line(),
        passing::at(start, steps, 1).line(),
        passing::at(start, steps, 4).line(),
        passing::at(start, steps, 7).line(),
    ]
}

/// A pass means that four neighbouring sectors each gave back the pattern that was written to it,
/// after all four had been written.
pub proof fn neighbours_keep_their_own_patterns(
    sock: Seq<char>,
    delay_ms: u64,
    replies: Seq<Rep>,
) -> (l: Seq<Line>)
    requires
        passing::passes(Case::Multiblock, sock, delay_ms, replies),
    ensures
        passing::spans(l, Case::Multiblock, sock, delay_ms, replies),
        account::opened(l[0], l[1], sock, 0, 0),
        l[1].s.capacity_sectors >= 2072,
        account::wrote(l[1], l[2], 2048, checks::pattern(0x10, 512), 0),
        account::wrote(l[2], l[3], 2049, checks::pattern(0x11, 512), 0),
        account::wrote(l[3], l[4], 2050, checks::pattern(0x12, 512), 0),
        account::wrote(l[4], l[5], 2051, checks::pattern(0x13, 512), 0),
        account::read(l[5], l[6], 2048, checks::pattern(0x10, 512), 0),
        account::read(l[6], l[7], 2049, checks::pattern(0x11, 512), 0),
        account::read(l[7], l[8], 2050, checks::pattern(0x12, 512), 0),
        account::read(l[8], l[9], 2051, checks::pattern(0x13, 512), 0),
{
    let start = bench::set_out(replay::opening(delay_ms, replies));
    let steps = registry::script(Case::Multiblock, sock);
    reveal_with_fuel(t_data::blocks_written, 5);
    reveal_with_fuel(t_data::blocks_read, 5);
    assert(steps.len() == 22);
    passing::lemma_went(Case::Multiblock, sock, delay_ms, replies);
    passing::lemma_opened(start, steps, 0, sock, 0, 0);
    passing::lemma_need(start, steps, 1, 16);
    passing::lemma_good_write(start, steps, 2, Sector::At(2048), checks::pattern(0x10, 512));
    passing::lemma_good_write(start, steps, 4, Sector::At(2049), checks::pattern(0x11, 512));
    passing::lemma_good_write(start, steps, 6, Sector::At(2050), checks::pattern(0x12, 512));
    passing::lemma_good_write(start, steps, 8, Sector::At(2051), checks::pattern(0x13, 512));
    passing::lemma_read_back(start, steps, 10, Sector::At(2048), checks::pattern(0x10, 512));
    passing::lemma_read_back(start, steps, 13, Sector::At(2049), checks::pattern(0x11, 512));
    passing::lemma_read_back(start, steps, 16, Sector::At(2050), checks::pattern(0x12, 512));
    passing::lemma_read_back(start, steps, 19, Sector::At(2051), checks::pattern(0x13, 512));
    seq![
        passing::at(start, steps, 0).line(),
        passing::at(start, steps, 1).line(),
        passing::at(start, steps, 4).line(),
        passing::at(start, steps, 6).line(),
        passing::at(start, steps, 8).line(),
        passing::at(start, steps, 10).line(),
        passing::at(start, steps, 13).line(),
        passing::at(start, steps, 16).line(),
        passing::at(start, steps, 19).line(),
        passing::at(start, steps, 22).line(),
    ]
}

/// A pass means that of two writes to a sector the later one is what the device holds.
pub proof fn later_write_is_read_back(
    sock: Seq<char>,
    delay_ms: u64,
    replies: Seq<Rep>,
) -> (l: Seq<Line>)
    requires
        passing::passes(Case::Overwrite, sock, delay_ms, replies),
    ensures
        passing::spans(l, Case::Overwrite, sock, delay_ms, replies),
        account::opened(l[0], l[1], sock, 0, 0),
        l[1].s.capacity_sectors >= 2060,
        account::wrote(l[1], l[2], 2048, checks::pattern(0x01, 512), 0),
        account::wrote(l[2], l[3], 2048, checks::pattern(0x02, 512), 0),
        account::read(l[3], l[4], 2048, checks::pattern(0x02, 512), 0),
{
    let start = bench::set_out(replay::opening(delay_ms, replies));
    let steps = registry::script(Case::Overwrite, sock);
    assert(steps.len() == 9);
    passing::lemma_went(Case::Overwrite, sock, delay_ms, replies);
    passing::lemma_opened(start, steps, 0, sock, 0, 0);
    passing::lemma_need(start, steps, 1, 4);
    passing::lemma_good_write(start, steps, 2, Sector::At(2048), checks::pattern(0x01, 512));
    passing::lemma_good_write(start, steps, 4, Sector::At(2048), checks::pattern(0x02, 512));
    passing::lemma_read_back(start, steps, 6, Sector::At(2048), checks::pattern(0x02, 512));
    seq![
        passing::at(start, steps, 0).line(),
        passing::at(start, steps, 1).line(),
        passing::at(start, steps, 4).line(),
        passing::at(start, steps, 6).line(),
        passing::at(start, steps, 9).line(),
    ]
}

/// A pass means that the device took a header that comes in two segments of eight bytes.
pub proof fn header_in_two_parts_is_taken(
    sock: Seq<char>,
    delay_ms: u64,
    replies: Seq<Rep>,
) -> (l: Seq<Line>)
    requires
        passing::passes(Case::HdrSplit2, sock, delay_ms, replies),
    ensures
        passing::spans(l, Case::HdrSplit2, sock, delay_ms, replies),
        account::opened(l[0], l[1], sock, 0, 0),
        l[1].s.capacity_sectors >= 2060,
        ({
            let (h, d, s) = account::places(l[1].s, 512);
            account::exchanged(
                l[1],
                l[2],
                account::laid(h, 1, 2048, d, checks::pattern(0xb1, 512), s),
                seq![
                    model::readable(h, 8),
                    model::readable(h + 8, 8),
                    model::readable(d, 512),
                    model::writable(s, 1),
                ],
                seq![(s, seq![0u8])],
            )
        }),
        account::read(l[2], l[3], 2048, checks::pattern(0xb1, 512), 0),
{
    let start = bench::set_out(replay::opening(delay_ms, replies));
    let steps = registry::script(Case::HdrSplit2, sock);
    assert(steps.len() == 14);
    passing::lemma_went(Case::HdrSplit2, sock, delay_ms, replies);
    passing::lemma_opened(start, steps, 0, sock, 0, 0);
    passing::lemma_need(start, steps, 1, 4);
    let (h1, d1, s1) = account::places(
        passing::at(start, steps, 2).s,
        checks::pattern(0xb1, 512).len() as int,
    );
    let segs1 = steps[8]->Submit_chain;
    assert(passing::within(segs1, 0, 3));
    assert(passing::laid_out(segs1, seq![h1, d1, s1], 0) =~= seq![
        model::readable(h1, 8),
        model::readable(h1 + 8, 8),
        model::readable(d1, 512),
        model::writable(s1, 1),
    ]);
    passing::lemma_asked(start, steps, 2, 1, Sector::At(2048), checks::pattern(0xb1, 512), segs1);
    passing::lemma_ok(start, steps, 10);
    passing::lemma_read_back(start, steps, 11, Sector::At(2048), checks::pattern(0xb1, 512));
    seq![
        passing::at(start, steps, 0).line(),
        passing::at(start, steps, 1).line(),
        passing::at(start, steps, 11).line(),
        passing::at(start, steps, 14).line(),
    ]
}

/// A pass means that the device took a header that comes in four segments of four bytes.
pub proof fn header_in_four_parts_is_taken(
    sock: Seq<char>,
    delay_ms: u64,
    replies: Seq<Rep>,
) -> (l: Seq<Line>)
    requires
        passing::passes(Case::HdrSplit4, sock, delay_ms, replies),
    ensures
        passing::spans(l, Case::HdrSplit4, sock, delay_ms, replies),
        account::opened(l[0], l[1], sock, 0, 0),
        l[1].s.capacity_sectors >= 2060,
        ({
            let (h, d, s) = account::places(l[1].s, 512);
            account::exchanged(
                l[1],
                l[2],
                account::laid(h, 1, 2049, d, checks::pattern(0xb2, 512), s),
                seq![
                    model::readable(h, 4),
                    model::readable(h + 4, 4),
                    model::readable(h + 8, 4),
                    model::readable(h + 12, 4),
                    model::readable(d, 512),
                    model::writable(s, 1),
                ],
                seq![(s, seq![0u8])],
            )
        }),
        account::read(l[2], l[3], 2049, checks::pattern(0xb2, 512), 0),
{
    let start = bench::set_out(replay::opening(delay_ms, replies));
    let steps = registry::script(Case::HdrSplit4, sock);
    assert(steps.len() == 14);
    passing::lemma_went(Case::HdrSplit4, sock, delay_ms, replies);
    passing::lemma_opened(start, steps, 0, sock, 0, 0);
    passing::lemma_need(start, steps, 1, 4);
    let (h1, d1, s1) = account::places(
        passing::at(start, steps, 2).s,
        checks::pattern(0xb2, 512).len() as int,
    );
    let segs1 = steps[8]->Submit_chain;
    assert(passing::within(segs1, 0, 3));
    assert(passing::laid_out(segs1, seq![h1, d1, s1], 0) =~= seq![
        model::readable(h1, 4),
        model::readable(h1 + 4, 4),
        model::readable(h1 + 8, 4),
        model::readable(h1 + 12, 4),
        model::readable(d1, 512),
        model::writable(s1, 1),
    ]);
    passing::lemma_asked(start, steps, 2, 1, Sector::At(2049), checks::pattern(0xb2, 512), segs1);
    passing::lemma_ok(start, steps, 10);
    passing::lemma_read_back(start, steps, 11, Sector::At(2049), checks::pattern(0xb2, 512));
    seq![
        passing::at(start, steps, 0).line(),
        passing::at(start, steps, 1).line(),
        passing::at(start, steps, 11).line(),
        passing::at(start, steps, 14).line(),
    ]
}

/// A pass means that the device gathered data from eight segments.
pub proof fn scattered_data_are_written(
    sock: Seq<char>,
    delay_ms: u64,
    replies: Seq<Rep>,
) -> (l: Seq<Line>)
    requires
        passing::passes(Case::ScatterWrite, sock, delay_ms, replies),
    ensures
        passing::spans(l, Case::ScatterWrite, sock, delay_ms, replies),
        account::opened(l[0], l[1], sock, 0, 0),
        l[1].s.capacity_sectors >= 2072,
        ({
            let (h, d, s) = account::places(l[1].s, 4096);
            account::exchanged(
                l[1],
                l[2],
                account::laid(h, 1, 2048, d, checks::pattern(0x5a, 4096), s),
                seq![model::readable(h, 16)] + Seq::new(
                    8,
                    |i: int| model::readable(d + i * 512, 512),
                ) + seq![model::writable(s, 1)],
                seq![(s, seq![0u8])],
            )
        }),
        account::read(l[2], l[3], 2048, checks::pattern(0x5a, 4096), 0),
{
    let start = bench::set_out(replay::opening(delay_ms, replies));
    let steps = registry::script(Case::ScatterWrite, sock);
    assert(steps.len() == 14);
    passing::lemma_went(Case::ScatterWrite, sock, delay_ms, replies);
    passing::lemma_opened(start, steps, 0, sock, 0, 0);
    passing::lemma_need(start, steps, 1, 16);
    let (h1, d1, s1) = account::places(
        passing::at(start, steps, 2).s,
        checks::pattern(0x5a, 4096).len() as int,
    );
    let segs1 = steps[8]->Submit_chain;
    assert(passing::within(segs1, 0, 3));
    assert(passing::laid_out(segs1, seq![h1, d1, s1], 0)
        =~= seq![model::readable(h1, 16)] + Seq::new(8, |i: int| model::readable(d1
            + i * 512, 512)) + seq![model::writable(s1, 1)]);
    passing::lemma_asked(start, steps, 2, 1, Sector::At(2048), checks::pattern(0x5a, 4096), segs1);
    passing::lemma_ok(start, steps, 10);
    passing::lemma_read_back(start, steps, 11, Sector::At(2048), checks::pattern(0x5a, 4096));
    seq![
        passing::at(start, steps, 0).line(),
        passing::at(start, steps, 1).line(),
        passing::at(start, steps, 11).line(),
        passing::at(start, steps, 14).line(),
    ]
}

/// A pass means that the device filled eight segments in order.
pub proof fn data_are_scattered_on_reading(
    sock: Seq<char>,
    delay_ms: u64,
    replies: Seq<Rep>,
) -> (l: Seq<Line>)
    requires
        passing::passes(Case::ScatterRead, sock, delay_ms, replies),
    ensures
        passing::spans(l, Case::ScatterRead, sock, delay_ms, replies),
        account::opened(l[0], l[1], sock, 0, 0),
        l[1].s.capacity_sectors >= 2072,
        account::wrote(l[1], l[2], 2056, checks::pattern(0x6b, 4096), 0),
        ({
            let (h, d, s) = account::places(l[2].s, 4096);
            account::exchanged(
                l[2],
                l[3],
                account::laid(h, 0, 2056, d, mem::repeated(0, 4096), s),
                seq![model::readable(h, 16)] + Seq::new(
                    8,
                    |i: int| model::writable(d + i * 512, 512),
                ) + seq![model::writable(s, 1)],
                seq![(s, seq![0u8]), (d, checks::pattern(0x6b, 4096))],
            )
        }),
{
    let start = bench::set_out(replay::opening(delay_ms, replies));
    let steps = registry::script(Case::ScatterRead, sock);
    assert(steps.len() == 15);
    passing::lemma_went(Case::ScatterRead, sock, delay_ms, replies);
    passing::lemma_opened(start, steps, 0, sock, 0, 0);
    passing::lemma_need(start, steps, 1, 16);
    passing::lemma_good_write(start, steps, 2, Sector::At(2056), checks::pattern(0x6b, 4096));
    let (h1, d1, s1) = account::places(
        passing::at(start, steps, 4).s,
        mem::repeated(0, 4096).len() as int,
    );
    let segs1 = steps[10]->Submit_chain;
    assert(passing::within(segs1, 0, 3));
    assert(passing::laid_out(segs1, seq![h1, d1, s1], 0)
        =~= seq![model::readable(h1, 16)] + Seq::new(8, |i: int| model::writable(d1
            + i * 512, 512)) + seq![model::writable(s1, 1)]);
    passing::lemma_asked_for_data(
        start,
        steps,
        4,
        0,
        Sector::At(2056),
        mem::repeated(0, 4096),
        segs1,
        checks::pattern(0x6b, 4096),
    );
    seq![
        passing::at(start, steps, 0).line(),
        passing::at(start, steps, 1).line(),
        passing::at(start, steps, 4).line(),
        passing::at(start, steps, 15).line(),
    ]
}

/// A pass means that the device filled segments of different lengths in order.
pub proof fn uneven_segments_are_filled(
    sock: Seq<char>,
    delay_ms: u64,
    replies: Seq<Rep>,
) -> (l: Seq<Line>)
    requires
        passing::passes(Case::UnevenSegments, sock, delay_ms, replies),
    ensures
        passing::spans(l, Case::UnevenSegments, sock, delay_ms, replies),
        account::opened(l[0], l[1], sock, 0, 0),
        l[1].s.capacity_sectors >= 2072,
        account::wrote(l[1], l[2], 2064, checks::pattern(0x7c, 4096), 0),
        ({
            let (h, d, s) = account::places(l[2].s, 4096);
            account::exchanged(
                l[2],
                l[3],
                account::laid(h, 0, 2064, d, mem::repeated(0, 4096), s),
                seq![
                    model::readable(h, 16),
                    model::writable(d, 512),
                    model::writable(d + 512, 1024),
                    model::writable(d + 1536, 512),
                    model::writable(d + 2048, 2048),
                    model::writable(s, 1),
                ],
                seq![(s, seq![0u8]), (d, checks::pattern(0x7c, 4096))],
            )
        }),
{
    let start = bench::set_out(replay::opening(delay_ms, replies));
    let steps = registry::script(Case::UnevenSegments, sock);
    assert(steps.len() == 15);
    passing::lemma_went(Case::UnevenSegments, sock, delay_ms, replies);
    passing::lemma_opened(start, steps, 0, sock, 0, 0);
    passing::lemma_need(start, steps, 1, 16);
    passing::lemma_good_write(start, steps, 2, Sector::At(2064), checks::pattern(0x7c, 4096));
    let (h1, d1, s1) = account::places(
        passing::at(start, steps, 4).s,
        mem::repeated(0, 4096).len() as int,
    );
    let segs1 = steps[10]->Submit_chain;
    assert(passing::within(segs1, 0, 3));
    assert(passing::laid_out(segs1, seq![h1, d1, s1], 0) =~= seq![
        model::readable(h1, 16),
        model::writable(d1, 512),
        model::writable(d1 + 512, 1024),
        model::writable(d1 + 1536, 512),
        model::writable(d1 + 2048, 2048),
        model::writable(s1, 1),
    ]);
    passing::lemma_asked_for_data(
        start,
        steps,
        4,
        0,
        Sector::At(2064),
        mem::repeated(0, 4096),
        segs1,
        checks::pattern(0x7c, 4096),
    );
    seq![
        passing::at(start, steps, 0).line(),
        passing::at(start, steps, 1).line(),
        passing::at(start, steps, 4).line(),
        passing::at(start, steps, 15).line(),
    ]
}

/// A pass means that the device filled 64 segments in order.
pub proof fn many_segments_are_filled(
    sock: Seq<char>,
    delay_ms: u64,
    replies: Seq<Rep>,
) -> (l: Seq<Line>)
    requires
        passing::passes(Case::ManySegments, sock, delay_ms, replies),
    ensures
        passing::spans(l, Case::ManySegments, sock, delay_ms, replies),
        account::opened(l[0], l[1], sock, 0, 0),
        l[1].s.capacity_sectors >= 2136,
        account::wrote(l[1], l[2], 2072, checks::pattern(0x8d, 32768), 0),
        ({
            let (h, d, s) = account::places(l[2].s, 32768);
            account::exchanged(
                l[2],
                l[3],
                account::laid(h, 0, 2072, d, mem::repeated(0, 32768), s),
                seq![model::readable(h, 16)] + Seq::new(
                    64,
                    |i: int| model::writable(d + i * 512, 512),
                ) + seq![model::writable(s, 1)],
                seq![(s, seq![0u8]), (d, checks::pattern(0x8d, 32768))],
            )
        }),
{
    let start = bench::set_out(replay::opening(delay_ms, replies));
    let steps = registry::script(Case::ManySegments, sock);
    assert(steps.len() == 15);
    passing::lemma_went(Case::ManySegments, sock, delay_ms, replies);
    passing::lemma_opened(start, steps, 0, sock, 0, 0);
    passing::lemma_need(start, steps, 1, 80);
    passing::lemma_good_write(start, steps, 2, Sector::At(2072), checks::pattern(0x8d, 32768));
    let (h1, d1, s1) = account::places(
        passing::at(start, steps, 4).s,
        mem::repeated(0, 32768).len() as int,
    );
    let segs1 = steps[10]->Submit_chain;
    assert(passing::within(segs1, 0, 3));
    assert(passing::laid_out(segs1, seq![h1, d1, s1], 0)
        =~= seq![model::readable(h1, 16)] + Seq::new(64, |i: int| model::writable(d1
            + i * 512, 512)) + seq![model::writable(s1, 1)]);
    passing::lemma_asked_for_data(
        start,
        steps,
        4,
        0,
        Sector::At(2072),
        mem::repeated(0, 32768),
        segs1,
        checks::pattern(0x8d, 32768),
    );
    seq![
        passing::at(start, steps, 0).line(),
        passing::at(start, steps, 1).line(),
        passing::at(start, steps, 4).line(),
        passing::at(start, steps, 15).line(),
    ]
}

/// A pass means that a device that has agreed to flush did so after a write.
pub proof fn flush_after_a_write_succeeds(
    sock: Seq<char>,
    delay_ms: u64,
    replies: Seq<Rep>,
) -> (l: Seq<Line>)
    requires
        passing::passes(Case::Flush, sock, delay_ms, replies),
    ensures
        passing::spans(l, Case::Flush, sock, delay_ms, replies),
        account::opened(l[0], l[1], sock, 0, 0),
        l[1].s.acked & 0x200 != 0,
        l[1].s.capacity_sectors >= 2060,
        account::wrote(l[1], l[2], 2048, checks::pattern(0x33, 512), 0),
        account::flushed(l[2], l[3], 0),
{
    let start = bench::set_out(replay::opening(delay_ms, replies));
    let steps = registry::script(Case::Flush, sock);
    assert(steps.len() == 7);
    passing::lemma_went(Case::Flush, sock, delay_ms, replies);
    passing::lemma_opened(start, steps, 0, sock, 0, 0);
    passing::lemma_require(start, steps, 1, Wanted::Feature(0x200));
    passing::lemma_need(start, steps, 2, 4);
    passing::lemma_good_write(start, steps, 3, Sector::At(2048), checks::pattern(0x33, 512));
    passing::lemma_flushed(start, steps, 5);
    seq![
        passing::at(start, steps, 0).line(),
        passing::at(start, steps, 1).line(),
        passing::at(start, steps, 5).line(),
        passing::at(start, steps, 7).line(),
    ]
}

/// A pass means that the device ignored the sector of a flush.
pub proof fn flush_with_a_sector_succeeds(
    sock: Seq<char>,
    delay_ms: u64,
    replies: Seq<Rep>,
) -> (l: Seq<Line>)
    requires
        passing::passes(Case::FlushNonzeroSector, sock, delay_ms, replies),
    ensures
        passing::spans(l, Case::FlushNonzeroSector, sock, delay_ms, replies),
        account::opened(l[0], l[1], sock, 0, 0),
        l[1].s.acked & 0x200 != 0,
        ({
            let (h, s) = account::bare_places(l[1].s);
            account::exchanged(
                l[1],
                l[2],
                account::laid_bare(h, 4, 2048, s),
                seq![model::readable(h, 16), model::writable(s, 1)],
                seq![(s, seq![0u8])],
            )
        }),
{
    let start = bench::set_out(replay::opening(delay_ms, replies));
    let steps = registry::script(Case::FlushNonzeroSector, sock);
    assert(steps.len() == 9);
    passing::lemma_went(Case::FlushNonzeroSector, sock, delay_ms, replies);
    passing::lemma_opened(start, steps, 0, sock, 0, 0);
    passing::lemma_require(start, steps, 1, Wanted::Feature(0x200));
    assert(steps[6]->Submit_chain =~= seq![Seg::readable(0, 0, 16), Seg::writable(1, 0, 1)]);
    passing::lemma_asked_bare(start, steps, 2, 4, Sector::At(2048));
    passing::lemma_ok(start, steps, 8);
    seq![
        passing::at(start, steps, 0).line(),
        passing::at(start, steps, 1).line(),
        passing::at(start, steps, 9).line(),
    ]
}

/// A pass means that sectors that held a pattern read as zero after a write-zeroes.
pub proof fn zeroed_sectors_read_as_zero(
    sock: Seq<char>,
    delay_ms: u64,
    replies: Seq<Rep>,
) -> (l: Seq<Line>)
    requires
        passing::passes(Case::WriteZeroes, sock, delay_ms, replies),
    ensures
        passing::spans(l, Case::WriteZeroes, sock, delay_ms, replies),
        account::opened(l[0], l[1], sock, 0, 0),
        l[1].s.acked & 0x4000 != 0,
        l[1].s.capacity_sectors >= 2072,
        account::wrote(l[1], l[2], 2048, checks::pattern(0xee, 4096), 0),
        account::ranged(l[2], l[3], 13, 2048, 8, false, 0),
        account::read(l[3], l[4], 2048, mem::repeated(0, 4096), 0),
{
    let start = bench::set_out(replay::opening(delay_ms, replies));
    let steps = registry::script(Case::WriteZeroes, sock);
    assert(steps.len() == 10);
    passing::lemma_went(Case::WriteZeroes, sock, delay_ms, replies);
    passing::lemma_opened(start, steps, 0, sock, 0, 0);
    passing::lemma_require(start, steps, 1, Wanted::Feature(0x4000));
    passing::lemma_need(start, steps, 2, 16);
    passing::lemma_good_write(start, steps, 3, Sector::At(2048), checks::pattern(0xee, 4096));
    passing::lemma_ranged(start, steps, 5, 13, Sector::At(2048), 8, false);
    passing::lemma_ok(start, steps, 6);
    passing::lemma_read_back(start, steps, 7, Sector::At(2048), mem::repeated(0, 4096));
    seq![
        passing::at(start, steps, 0).line(),
        passing::at(start, steps, 1).line(),
        passing::at(start, steps, 5).line(),
        passing::at(start, steps, 7).line(),
        passing::at(start, steps, 10).line(),
    ]
}

/// A pass means that sectors that held a pattern read as zero after a write-zeroes that lets the
/// device give them up.
pub proof fn unmapped_sectors_read_as_zero(
    sock: Seq<char>,
    delay_ms: u64,
    replies: Seq<Rep>,
) -> (l: Seq<Line>)
    requires
        passing::passes(Case::WriteZeroesUnmap, sock, delay_ms, replies),
    ensures
        passing::spans(l, Case::WriteZeroesUnmap, sock, delay_ms, replies),
        account::opened(l[0], l[1], sock, 0, 0),
        l[1].s.acked & 0x4000 != 0,
        l[1].s.capacity_sectors >= 2072,
        account::wrote(l[1], l[2], 2056, checks::pattern(0xef, 4096), 0),
        account::ranged(l[2], l[3], 13, 2056, 8, true, 0),
        account::read(l[3], l[4], 2056, mem::repeated(0, 4096), 0),
{
    let start = bench::set_out(replay::opening(delay_ms, replies));
    let steps = registry::script(Case::WriteZeroesUnmap, sock);
    assert(steps.len() == 10);
    passing::lemma_went(Case::WriteZeroesUnmap, sock, delay_ms, replies);
    passing::lemma_opened(start, steps, 0, sock, 0, 0);
    passing::lemma_require(start, steps, 1, Wanted::Feature(0x4000));
    passing::lemma_need(start, steps, 2, 16);
    passing::lemma_good_write(start, steps, 3, Sector::At(2056), checks::pattern(0xef, 4096));
    passing::lemma_ranged(start, steps, 5, 13, Sector::At(2056), 8, true);
    passing::lemma_ok(start, steps, 6);
    passing::lemma_read_back(start, steps, 7, Sector::At(2056), mem::repeated(0, 4096));
    seq![
        passing::at(start, steps, 0).line(),
        passing::at(start, steps, 1).line(),
        passing::at(start, steps, 5).line(),
        passing::at(start, steps, 7).line(),
        passing::at(start, steps, 10).line(),
    ]
}

/// A pass means that sectors that were discarded hold what is written to them afterwards.
pub proof fn discarded_sectors_can_be_written_again(
    sock: Seq<char>,
    delay_ms: u64,
    replies: Seq<Rep>,
) -> (l: Seq<Line>)
    requires
        passing::passes(Case::Discard, sock, delay_ms, replies),
    ensures
        passing::spans(l, Case::Discard, sock, delay_ms, replies),
        account::opened(l[0], l[1], sock, 0, 0),
        l[1].s.acked & 0x2000 != 0,
        l[1].s.capacity_sectors >= 2072,
        account::wrote(l[1], l[2], 2048, checks::pattern(0xab, 4096), 0),
        account::ranged(l[2], l[3], 11, 2048, 8, false, 0),
        account::wrote(l[3], l[4], 2048, checks::pattern(0xba, 4096), 0),
        account::read(l[4], l[5], 2048, checks::pattern(0xba, 4096), 0),
{
    let start = bench::set_out(replay::opening(delay_ms, replies));
    let steps = registry::script(Case::Discard, sock);
    assert(steps.len() == 12);
    passing::lemma_went(Case::Discard, sock, delay_ms, replies);
    passing::lemma_opened(start, steps, 0, sock, 0, 0);
    passing::lemma_require(start, steps, 1, Wanted::Feature(0x2000));
    passing::lemma_need(start, steps, 2, 16);
    passing::lemma_good_write(start, steps, 3, Sector::At(2048), checks::pattern(0xab, 4096));
    passing::lemma_ranged(start, steps, 5, 11, Sector::At(2048), 8, false);
    passing::lemma_ok(start, steps, 6);
    passing::lemma_good_write(start, steps, 7, Sector::At(2048), checks::pattern(0xba, 4096));
    passing::lemma_read_back(start, steps, 9, Sector::At(2048), checks::pattern(0xba, 4096));
    seq![
        passing::at(start, steps, 0).line(),
        passing::at(start, steps, 1).line(),
        passing::at(start, steps, 5).line(),
        passing::at(start, steps, 7).line(),
        passing::at(start, steps, 9).line(),
        passing::at(start, steps, 12).line(),
    ]
}

/// A pass means that the device refused a request of an unknown type and served the next one.
pub proof fn unknown_requests_are_refused(
    sock: Seq<char>,
    delay_ms: u64,
    replies: Seq<Rep>,
) -> (l: Seq<Line>)
    requires
        passing::passes(Case::UnsupportedType, sock, delay_ms, replies),
    ensures
        passing::spans(l, Case::UnsupportedType, sock, delay_ms, replies),
        account::opened(l[0], l[1], sock, 0, 0),
        ({
            let (h, d, s) = account::places(l[1].s, 512);
            account::exchanged(
                l[1],
                l[2],
                account::laid(h, 0x5EAD_BEEF, 0, d, mem::repeated(0, 512), s),
                seq![model::readable(h, 16), model::writable(d, 512), model::writable(s, 1)],
                seq![(s, seq![account::bytes_of(l[1].io, 1)[0]])],
            )
        }),
        account::bytes_of(l[1].io, 1)[0] == 1 || account::bytes_of(l[1].io, 1)[0] == 2,
        account::tried_read(l[2], l[3], 0, 512, 0),
{
    let start = bench::set_out(replay::opening(delay_ms, replies));
    let steps = registry::script(Case::UnsupportedType, sock);
    assert(steps.len() == 12);
    passing::lemma_went(Case::UnsupportedType, sock, delay_ms, replies);
    passing::lemma_opened(start, steps, 0, sock, 0, 0);
    let (h1, d1, s1) = account::places(
        passing::at(start, steps, 1).s,
        mem::repeated(0, 512).len() as int,
    );
    let segs1 = steps[7]->Submit_chain;
    assert(passing::within(segs1, 0, 3));
    assert(passing::laid_out(segs1, seq![h1, d1, s1], 0) =~= seq![
        model::readable(h1, 16),
        model::writable(d1, 512),
        model::writable(s1, 1),
    ]);
    passing::lemma_asked(start, steps, 1, 0x5EAD_BEEF, Sector::At(0), mem::repeated(0, 512), segs1);
    passing::lemma_right(start, steps, 9, Accept::Refusal);
    passing::lemma_good_read(start, steps, 10, Sector::At(0), 512);
    seq![
        passing::at(start, steps, 0).line(),
        passing::at(start, steps, 1).line(),
        passing::at(start, steps, 10).line(),
        passing::at(start, steps, 12).line(),
    ]
}

/// A pass means that a read without data got a proper status, and the next request was served.
pub proof fn read_without_data_gets_a_status(
    sock: Seq<char>,
    delay_ms: u64,
    replies: Seq<Rep>,
) -> (l: Seq<Line>)
    requires
        passing::passes(Case::ZeroLengthRead, sock, delay_ms, replies),
    ensures
        passing::spans(l, Case::ZeroLengthRead, sock, delay_ms, replies),
        account::opened(l[0], l[1], sock, 0, 0),
        ({
            let (h, s) = account::bare_places(l[1].s);
            account::exchanged(
                l[1],
                l[2],
                account::laid_bare(h, 0, 2048, s),
                seq![model::readable(h, 16), model::writable(s, 1)],
                seq![(s, seq![account::bytes_of(l[1].io, 1)[0]])],
            )
        }),
        account::bytes_of(l[1].io, 1)[0] == 0 || account::bytes_of(l[1].io, 1)[0]
            == 1 || account::bytes_of(l[1].io, 1)[0] == 2,
        account::tried_read(l[2], l[3], 0, 512, 0),
{
    let start = bench::set_out(replay::opening(delay_ms, replies));
    let steps = registry::script(Case::ZeroLengthRead, sock);
    assert(steps.len() == 10);
    passing::lemma_went(Case::ZeroLengthRead, sock, delay_ms, replies);
    passing::lemma_opened(start, steps, 0, sock, 0, 0);
    assert(steps[5]->Submit_chain =~= seq![Seg::readable(0, 0, 16), Seg::writable(1, 0, 1)]);
    passing::lemma_asked_bare(start, steps, 1, 0, Sector::At(2048));
    passing::lemma_right(start, steps, 7, Accept::Known);
    passing::lemma_good_read(start, steps, 8, Sector::At(0), 512);
    seq![
        passing::at(start, steps, 0).line(),
        passing::at(start, steps, 1).line(),
        passing::at(start, steps, 8).line(),
        passing::at(start, steps, 10).line(),
    ]
}

/// A pass means that a read that is not in whole sectors succeeded or got an I/O error, and the
/// next request was served.
pub proof fn odd_length_gets_a_status(
    sock: Seq<char>,
    delay_ms: u64,
    replies: Seq<Rep>,
) -> (l: Seq<Line>)
    requires
        passing::passes(Case::NonmultipleLength, sock, delay_ms, replies),
    ensures
        passing::spans(l, Case::NonmultipleLength, sock, delay_ms, replies),
        account::opened(l[0], l[1], sock, 0, 0),
        l[1].s.capacity_sectors >= 2060,
        ({
            let (h, d, s) = account::places(l[1].s, 612);
            account::exchanged(
                l[1],
                l[2],
                account::laid(h, 0, 2048, d, mem::repeated(0, 612), s),
                seq![model::readable(h, 16), model::writable(d, 612), model::writable(s, 1)],
                seq![(s, seq![account::bytes_of(l[1].io, 1)[0]])],
            )
        }),
        account::bytes_of(l[1].io, 1)[0] == 0 || account::bytes_of(l[1].io, 1)[0] == 1,
        account::tried_read(l[2], l[3], 0, 512, 0),
{
    let start = bench::set_out(replay::opening(delay_ms, replies));
    let steps = registry::script(Case::NonmultipleLength, sock);
    assert(steps.len() == 13);
    passing::lemma_went(Case::NonmultipleLength, sock, delay_ms, replies);
    passing::lemma_opened(start, steps, 0, sock, 0, 0);
    passing::lemma_need(start, steps, 1, 4);
    let (h1, d1, s1) = account::places(
        passing::at(start, steps, 2).s,
        mem::repeated(0, 612).len() as int,
    );
    let segs1 = steps[8]->Submit_chain;
    assert(passing::within(segs1, 0, 3));
    assert(passing::laid_out(segs1, seq![h1, d1, s1], 0) =~= seq![
        model::readable(h1, 16),
        model::writable(d1, 612),
        model::writable(s1, 1),
    ]);
    passing::lemma_asked(start, steps, 2, 0, Sector::At(2048), mem::repeated(0, 612), segs1);
    passing::lemma_right(start, steps, 10, Accept::Served);
    passing::lemma_good_read(start, steps, 11, Sector::At(0), 512);
    seq![
        passing::at(start, steps, 0).line(),
        passing::at(start, steps, 1).line(),
        passing::at(start, steps, 11).line(),
        passing::at(start, steps, 13).line(),
    ]
}

/// A pass means that the last sector of the device gave back what was written to it.
pub proof fn last_sector_holds_what_is_written(
    sock: Seq<char>,
    delay_ms: u64,
    replies: Seq<Rep>,
) -> (l: Seq<Line>)
    requires
        passing::passes(Case::LastSector, sock, delay_ms, replies),
    ensures
        passing::spans(l, Case::LastSector, sock, delay_ms, replies),
        account::opened(l[0], l[1], sock, 0, 0),
        l[1].s.capacity_sectors >= 2056,
        account::wrote(l[1], l[2], l[1].s.capacity_sectors - 1, checks::pattern(0x11, 512), 0),
        account::read(l[2], l[3], l[2].s.capacity_sectors - 1, checks::pattern(0x11, 512), 0),
{
    let start = bench::set_out(replay::opening(delay_ms, replies));
    let steps = registry::script(Case::LastSector, sock);
    assert(steps.len() == 7);
    passing::lemma_went(Case::LastSector, sock, delay_ms, replies);
    passing::lemma_opened(start, steps, 0, sock, 0, 0);
    passing::lemma_need(start, steps, 1, 0);
    passing::lemma_good_write(start, steps, 2, Sector::Last, checks::pattern(0x11, 512));
    passing::lemma_read_back(start, steps, 4, Sector::Last, checks::pattern(0x11, 512));
    seq![
        passing::at(start, steps, 0).line(),
        passing::at(start, steps, 1).line(),
        passing::at(start, steps, 4).line(),
        passing::at(start, steps, 7).line(),
    ]
}

/// A pass means that a read that starts in the last sector and ends after it got an I/O error,
/// and the next request was served.
pub proof fn reads_across_the_end_are_refused(
    sock: Seq<char>,
    delay_ms: u64,
    replies: Seq<Rep>,
) -> (l: Seq<Line>)
    requires
        passing::passes(Case::CrossCapacity, sock, delay_ms, replies),
    ensures
        passing::spans(l, Case::CrossCapacity, sock, delay_ms, replies),
        account::opened(l[0], l[1], sock, 0, 0),
        l[1].s.capacity_sectors >= 2056,
        account::tried_read(l[1], l[2], l[1].s.capacity_sectors - 1, 1024, 1),
        account::tried_read(l[2], l[3], 0, 512, 0),
{
    let start = bench::set_out(replay::opening(delay_ms, replies));
    let steps = registry::script(Case::CrossCapacity, sock);
    assert(steps.len() == 7);
    passing::lemma_went(Case::CrossCapacity, sock, delay_ms, replies);
    passing::lemma_opened(start, steps, 0, sock, 0, 0);
    passing::lemma_need(start, steps, 1, 0);
    passing::lemma_refused_read(start, steps, 2, Sector::Last, 1024, 1);
    passing::lemma_good_read(start, steps, 5, Sector::At(0), 512);
    seq![
        passing::at(start, steps, 0).line(),
        passing::at(start, steps, 1).line(),
        passing::at(start, steps, 5).line(),
        passing::at(start, steps, 7).line(),
    ]
}

/// A pass means that a read past the end got an I/O error, and the next request was served.
pub proof fn reads_past_the_end_are_refused(
    sock: Seq<char>,
    delay_ms: u64,
    replies: Seq<Rep>,
) -> (l: Seq<Line>)
    requires
        passing::passes(Case::BeyondCapacity, sock, delay_ms, replies),
    ensures
        passing::spans(l, Case::BeyondCapacity, sock, delay_ms, replies),
        account::opened(l[0], l[1], sock, 0, 0),
        l[1].s.capacity_sectors >= 2056,
        l[1].s.capacity_sectors + 1000 <= u64::MAX,
        account::tried_read(l[1], l[2], l[1].s.capacity_sectors + 1000, 512, 1),
        account::tried_read(l[2], l[3], 0, 512, 0),
{
    let start = bench::set_out(replay::opening(delay_ms, replies));
    let steps = registry::script(Case::BeyondCapacity, sock);
    assert(steps.len() == 8);
    passing::lemma_went(Case::BeyondCapacity, sock, delay_ms, replies);
    passing::lemma_opened(start, steps, 0, sock, 0, 0);
    passing::lemma_need(start, steps, 1, 0);
    passing::lemma_beyond(start, steps, 2, 1000);
    passing::lemma_refused_read(start, steps, 3, Sector::Past(1000), 512, 1);
    passing::lemma_good_read(start, steps, 6, Sector::At(0), 512);
    seq![
        passing::at(start, steps, 0).line(),
        passing::at(start, steps, 1).line(),
        passing::at(start, steps, 6).line(),
        passing::at(start, steps, 8).line(),
    ]
}

/// A pass means that the device took 128 KiB from one long chain and gave them back.
pub proof fn large_requests_are_served(
    sock: Seq<char>,
    delay_ms: u64,
    replies: Seq<Rep>,
) -> (l: Seq<Line>)
    requires
        passing::passes(Case::LargeRequest, sock, delay_ms, replies),
    ensures
        passing::spans(l, Case::LargeRequest, sock, delay_ms, replies),
        account::opened(l[0], l[1], sock, 0, 0),
        l[1].s.capacity_sectors >= 2404,
        ({
            let (h, d, s) = account::places(l[1].s, 131072);
            account::exchanged(
                l[1],
                l[2],
                account::laid(h, 1, 2148, d, checks::pattern(0xd7, 131072), s),
                seq![model::readable(h, 16)] + Seq::new(
                    32,
                    |i: int| model::readable(d + i * 4096, 4096),
                ) + seq![model::writable(s, 1)],
                seq![(s, seq![0u8])],
            )
        }),
        account::read(l[2], l[3], 2148, checks::pattern(0xd7, 131072), 0),
{
    let start = bench::set_out(replay::opening(delay_ms, replies));
    let steps = registry::script(Case::LargeRequest, sock);
    assert(steps.len() == 14);
    passing::lemma_went(Case::LargeRequest, sock, delay_ms, replies);
    passing::lemma_opened(start, steps, 0, sock, 0, 0);
    passing::lemma_need(start, steps, 1, 348);
    let (h1, d1, s1) = account::places(
        passing::at(start, steps, 2).s,
        checks::pattern(0xd7, 131072).len() as int,
    );
    let segs1 = steps[8]->Submit_chain;
    assert(passing::within(segs1, 0, 3));
    assert(passing::laid_out(segs1, seq![h1, d1, s1], 0)
        =~= seq![model::readable(h1, 16)] + Seq::new(32, |i: int| model::readable(d1
            + i * 4096, 4096)) + seq![model::writable(s1, 1)]);
    passing::lemma_asked(
        start,
        steps,
        2,
        1,
        Sector::At(2148),
        checks::pattern(0xd7, 131072),
        segs1,
    );
    passing::lemma_ok(start, steps, 10);
    passing::lemma_read_back(start, steps, 11, Sector::At(2148), checks::pattern(0xd7, 131072));
    seq![
        passing::at(start, steps, 0).line(),
        passing::at(start, steps, 1).line(),
        passing::at(start, steps, 11).line(),
        passing::at(start, steps, 14).line(),
    ]
}

/// A pass means that the completion of a read of 4096 bytes counted these and the status.
pub proof fn reads_count_data_and_status(
    sock: Seq<char>,
    delay_ms: u64,
    replies: Seq<Rep>,
) -> (l: Seq<Line>)
    requires
        passing::passes(Case::UsedLenRead, sock, delay_ms, replies),
    ensures
        passing::spans(l, Case::UsedLenRead, sock, delay_ms, replies),
        account::opened(l[0], l[1], sock, 0, 0),
        l[1].s.capacity_sectors >= 2072,
        account::wrote(l[1], l[2], 2048, checks::pattern(0x21, 4096), 0),
        ({
            let (h, d, s) = account::places(l[2].s, 4096);
            account::exchanged(
                l[2],
                l[3],
                account::laid(h, 0, 2048, d, mem::repeated(0, 4096), s),
                seq![model::readable(h, 16), model::writable(d, 4096), model::writable(s, 1)],
                seq![(s, seq![0u8])],
            )
        }),
        account::written_by_device(l[2].io, 0) == 4097,
{
    let start = bench::set_out(replay::opening(delay_ms, replies));
    let steps = registry::script(Case::UsedLenRead, sock);
    assert(steps.len() == 14);
    passing::lemma_went(Case::UsedLenRead, sock, delay_ms, replies);
    passing::lemma_opened(start, steps, 0, sock, 0, 0);
    passing::lemma_need(start, steps, 1, 16);
    passing::lemma_good_write(start, steps, 2, Sector::At(2048), checks::pattern(0x21, 4096));
    let (h1, d1, s1) = account::places(
        passing::at(start, steps, 4).s,
        mem::repeated(0, 4096).len() as int,
    );
    let segs1 = steps[10]->Submit_chain;
    assert(passing::within(segs1, 0, 3));
    assert(passing::laid_out(segs1, seq![h1, d1, s1], 0) =~= seq![
        model::readable(h1, 16),
        model::writable(d1, 4096),
        model::writable(s1, 1),
    ]);
    passing::lemma_asked(start, steps, 4, 0, Sector::At(2048), mem::repeated(0, 4096), segs1);
    passing::lemma_ok(start, steps, 12);
    passing::lemma_step(start, steps, 13);
    seq![
        passing::at(start, steps, 0).line(),
        passing::at(start, steps, 1).line(),
        passing::at(start, steps, 4).line(),
        passing::at(start, steps, 14).line(),
    ]
}

/// A pass means that the completion of a write counted the status and nothing else.
pub proof fn writes_count_the_status_alone(
    sock: Seq<char>,
    delay_ms: u64,
    replies: Seq<Rep>,
) -> (l: Seq<Line>)
    requires
        passing::passes(Case::UsedLenWrite, sock, delay_ms, replies),
    ensures
        passing::spans(l, Case::UsedLenWrite, sock, delay_ms, replies),
        account::opened(l[0], l[1], sock, 0, 0),
        l[1].s.capacity_sectors >= 2252,
        ({
            let (h, d, s) = account::places(l[1].s, 2048);
            account::exchanged(
                l[1],
                l[2],
                account::laid(h, 1, 2248, d, checks::pattern(0x22, 2048), s),
                seq![model::readable(h, 16), model::readable(d, 2048), model::writable(s, 1)],
                seq![(s, seq![0u8])],
            )
        }),
        account::written_by_device(l[1].io, 0) == 1,
{
    let start = bench::set_out(replay::opening(delay_ms, replies));
    let steps = registry::script(Case::UsedLenWrite, sock);
    assert(steps.len() == 12);
    passing::lemma_went(Case::UsedLenWrite, sock, delay_ms, replies);
    passing::lemma_opened(start, steps, 0, sock, 0, 0);
    passing::lemma_need(start, steps, 1, 196);
    let (h1, d1, s1) = account::places(
        passing::at(start, steps, 2).s,
        checks::pattern(0x22, 2048).len() as int,
    );
    let segs1 = steps[8]->Submit_chain;
    assert(passing::within(segs1, 0, 3));
    assert(passing::laid_out(segs1, seq![h1, d1, s1], 0) =~= seq![
        model::readable(h1, 16),
        model::readable(d1, 2048),
        model::writable(s1, 1),
    ]);
    passing::lemma_asked(start, steps, 2, 1, Sector::At(2248), checks::pattern(0x22, 2048), segs1);
    passing::lemma_ok(start, steps, 10);
    passing::lemma_step(start, steps, 11);
    seq![
        passing::at(start, steps, 0).line(),
        passing::at(start, steps, 1).line(),
        passing::at(start, steps, 12).line(),
    ]
}

/// A pass means that the device told its identity, in twenty bytes.
pub proof fn identity_has_twenty_bytes(
    sock: Seq<char>,
    delay_ms: u64,
    replies: Seq<Rep>,
) -> (l: Seq<Line>)
    requires
        passing::passes(Case::GetId, sock, delay_ms, replies),
    ensures
        passing::spans(l, Case::GetId, sock, delay_ms, replies),
        account::opened(l[0], l[1], sock, 0, 0),
        account::identified(l[1], l[2], account::bytes_of(l[1].io, 1), 0),
        account::bytes_of(l[1].io, 1).len() == 20,
{
    let start = bench::set_out(replay::opening(delay_ms, replies));
    let steps = registry::script(Case::GetId, sock);
    assert(steps.len() == 4);
    passing::lemma_went(Case::GetId, sock, delay_ms, replies);
    passing::lemma_opened(start, steps, 0, sock, 0, 0);
    passing::lemma_step(start, steps, 1);
    passing::lemma_ok(start, steps, 2);
    passing::lemma_step(start, steps, 3);
    seq![
        passing::at(start, steps, 0).line(),
        passing::at(start, steps, 1).line(),
        passing::at(start, steps, 4).line(),
    ]
}

} // verus!
