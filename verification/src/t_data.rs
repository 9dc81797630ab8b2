//! Scenarios of the data plane: unusual but valid layouts of descriptors, types of
//! requests, bounds, and the ring.
//!
//! For each scenario a function of the same name lists its steps.

use vstd::prelude::*;

use crate::bench;
use crate::bench::{Accept, SaysOf, Sector, Seg, Step, Wanted};
use crate::checks;
use crate::checks::{pat, WORK};
use crate::dev::{
    SECTOR, STATUS_POISON, VIRTIO_BLK_S_IOERR, VIRTIO_BLK_T_DISCARD, VIRTIO_BLK_T_FLUSH,
    VIRTIO_BLK_T_IN, VIRTIO_BLK_T_OUT, VIRTIO_BLK_T_WRITE_ZEROES, VRING_AVAIL_F_NO_INTERRUPT,
};
use crate::features::{
    VIRTIO_BLK_F_DISCARD, VIRTIO_BLK_F_FLUSH, VIRTIO_BLK_F_WRITE_ZEROES,
    VIRTIO_F_RING_INDIRECT_DESC,
};
use crate::mem;
use crate::stages;
use crate::stages::numbered;
use crate::trial::Trial;

verus! {

broadcast use bench::run_concat;

// ---- smoke -------------------------------------------------------------------

/// The handshake succeeds.
pub open spec fn handshake(sock: Seq<char>) -> Seq<Step> {
    seq![stages::plain(sock)]
}

pub fn t_handshake(sock: &str, t: &mut Trial)
    requires
        old(t).wf(),
    ensures
        final(t)@ == bench::run(old(t)@, handshake(sock@)),
        final(t).wf(),
{
    proof {
        reveal_with_fuel(bench::run_to, 2);
    }
    t.connect(sock);
}

/// The first sector can be read.
pub open spec fn read0(sock: Seq<char>) -> Seq<Step> {
    seq![stages::plain(sock)]
        + stages::good_read(Sector::At(0), SECTOR, "read sector 0"@)
}

pub fn t_read0(sock: &str, t: &mut Trial)
    requires
        old(t).wf(),
    ensures
        final(t)@ == bench::run(old(t)@, read0(sock@)),
        final(t).wf(),
{
    proof {
        reveal_with_fuel(bench::run_to, 2);
    }
    t.connect(sock);
    t.good_read(Sector::At(0), SECTOR, "read sector 0");
}

// ---- integrity ---------------------------------------------------------------

/// What was written is read back.
pub open spec fn roundtrip(sock: Seq<char>) -> Seq<Step> {
    let pattern = checks::pattern(0xa5, SECTOR as nat);
    seq![
        stages::plain(sock),
        Step::Need { sectors: 4 },
    ]
        + stages::good_write(Sector::At(WORK), pattern, "write"@)
        + stages::read_back(Sector::At(WORK), pattern, "read"@, "roundtrip"@)
}

pub fn t_roundtrip(sock: &str, t: &mut Trial)
    requires
        old(t).wf(),
    ensures
        final(t)@ == bench::run(old(t)@, roundtrip(sock@)),
        final(t).wf(),
{
    proof {
        reveal_with_fuel(bench::run_to, 3);
    }
    let pattern: Vec<u8> = pat(0xa5, SECTOR);
    t.connect(sock);
    t.need(4);
    t.good_write(Sector::At(WORK), pattern.as_slice(), "write");
    t.read_back(Sector::At(WORK), pattern.as_slice(), "read", "roundtrip");
}

/// Pattern `i` of a run of patterns.
pub open spec fn nth(seed: int, i: int) -> Seq<u8> {
    checks::pattern(((seed + i) % 256) as u8, SECTOR as nat)
}

fn nth_pat(seed: u8, i: u8) -> (v: Vec<u8>)
    requires
        seed + i < 256,
    ensures
        v@ == nth(seed as int, i as int),
{
    pat(seed + i, SECTOR)
}

/// Sector `i` of a run of sectors that lie `stride` apart.
pub open spec fn spaced(i: int, stride: int) -> Sector {
    Sector::At((WORK + i * stride) as u64)
}

/// Writes of `n` neighbouring sectors, each with a pattern of its own.
pub open spec fn blocks_written(n: nat) -> Seq<Step>
    decreases n,
{
    if n == 0 {
        Seq::empty()
    } else {
        let i = n - 1;
        blocks_written(i as nat) + stages::good_write(spaced(i, 1), nth(0x10, i), "write blk"@)
    }
}

/// Reads of `n` neighbouring sectors, each with its own pattern.
pub open spec fn blocks_read(n: nat) -> Seq<Step>
    decreases n,
{
    if n == 0 {
        Seq::empty()
    } else {
        let i = n - 1;
        blocks_read(i as nat) + stages::read_back(
            spaced(i, 1),
            nth(0x10, i),
            "read blk"@,
            stages::with_number("blk "@, i as nat),
        )
    }
}

/// Neighbouring sectors keep what was written to each.
pub open spec fn multiblock(sock: Seq<char>) -> Seq<Step> {
    seq![stages::plain(sock), Step::Need { sectors: 16 }] + blocks_written(4) + blocks_read(4)
}

pub fn t_multiblock(sock: &str, t: &mut Trial)
    requires
        old(t).wf(),
    ensures
        final(t)@ == bench::run(old(t)@, multiblock(sock@)),
        final(t).wf(),
{
    proof {
        reveal_with_fuel(bench::run_to, 3);
    }
    t.connect(sock);
    t.need(16);
    let ghost b = t@;
    let mut i: u8 = 0;
    while i < 4
        invariant
            i <= 4,
            t.wf(),
            t@ == bench::run(b, blocks_written(i as nat)),
        decreases 4 - i,
    {
        let pattern: Vec<u8> = nth_pat(0x10, i);
        t.good_write(Sector::At(WORK + i as u64), pattern.as_slice(), "write blk");
        i = i + 1;
    }
    let ghost b = t@;
    let mut i: u8 = 0;
    while i < 4
        invariant
            i <= 4,
            t.wf(),
            t@ == bench::run(b, blocks_read(i as nat)),
        decreases 4 - i,
    {
        let pattern: Vec<u8> = nth_pat(0x10, i);
        let label = numbered("blk ", i as u64);
        t.read_back(
            Sector::At(WORK + i as u64),
            pattern.as_slice(),
            "read blk",
            label.as_str(),
        );
        i = i + 1;
    }
}

/// The later of two writes is read back.
pub open spec fn overwrite(sock: Seq<char>) -> Seq<Step> {
    let first = checks::pattern(0x01, SECTOR as nat);
    let second = checks::pattern(0x02, SECTOR as nat);
    seq![
        stages::plain(sock),
        Step::Need { sectors: 4 },
    ]
        + stages::good_write(Sector::At(WORK), first, "write A"@)
        + stages::good_write(Sector::At(WORK), second, "write B"@)
        + stages::read_back(Sector::At(WORK), second, "read"@, "overwrite"@)
}

pub fn t_overwrite(sock: &str, t: &mut Trial)
    requires
        old(t).wf(),
    ensures
        final(t)@ == bench::run(old(t)@, overwrite(sock@)),
        final(t).wf(),
{
    proof {
        reveal_with_fuel(bench::run_to, 3);
    }
    let first: Vec<u8> = pat(0x01, SECTOR);
    let second: Vec<u8> = pat(0x02, SECTOR);
    t.connect(sock);
    t.need(4);
    t.good_write(Sector::At(WORK), first.as_slice(), "write A");
    t.good_write(Sector::At(WORK), second.as_slice(), "write B");
    t.read_back(Sector::At(WORK), second.as_slice(), "read", "overwrite");
}

// ---- layouts of descriptors --------------------------------------------------

/// The header lies in two segments. A request may be cut anywhere, so a header is not
/// one segment.
pub open spec fn hdr_split2(sock: Seq<char>) -> Seq<Step> {
    let pattern = checks::pattern(0xb1, SECTOR as nat);
    seq![
        stages::plain(sock),
        Step::Need { sectors: 4 },
    ]
        + stages::staged_write(0, Sector::At(WORK), pattern)
        + seq![Step::Submit {
            chain: seq![
                Seg::readable(0, 0, 8),
                Seg::readable(0, 8, 8),
                Seg::readable(1, 0, SECTOR),
                Seg::writable(2, 0, 1),
            ],
        }]
        + stages::good_status(2, "write (split hdr 8+8)"@)
        + stages::read_back(Sector::At(WORK), pattern, "read back"@, "split-hdr data"@)
}

pub fn t_hdr_split2(sock: &str, t: &mut Trial)
    requires
        old(t).wf(),
    ensures
        final(t)@ == bench::run(old(t)@, hdr_split2(sock@)),
        final(t).wf(),
{
    proof {
        reveal_with_fuel(bench::run_to, 3);
    }
    let pattern: Vec<u8> = pat(0xb1, SECTOR);
    t.connect(sock);
    t.need(4);
    t.stage_write(0, Sector::At(WORK), pattern.as_slice());
    let chain: [Seg; 4] = [
        Seg::readable(0, 0, 8),
        Seg::readable(0, 8, 8),
        Seg::readable(1, 0, SECTOR),
        Seg::writable(2, 0, 1),
    ];
    assert(chain@ =~= seq![
        Seg::readable(0, 0, 8),
        Seg::readable(0, 8, 8),
        Seg::readable(1, 0, SECTOR),
        Seg::writable(2, 0, 1),
    ]);
    t.submit(&chain);
    t.good_status(2, "write (split hdr 8+8)");
    t.read_back(Sector::At(WORK), pattern.as_slice(), "read back", "split-hdr data");
}

/// The header lies in four segments.
pub open spec fn hdr_split4(sock: Seq<char>) -> Seq<Step> {
    let pattern = checks::pattern(0xb2, SECTOR as nat);
    seq![
        stages::plain(sock),
        Step::Need { sectors: 4 },
    ]
        + stages::staged_write(0, Sector::At((WORK + 1) as u64), pattern)
        + seq![Step::Submit {
            chain: seq![
                Seg::readable(0, 0, 4),
                Seg::readable(0, 4, 4),
                Seg::readable(0, 8, 4),
                Seg::readable(0, 12, 4),
                Seg::readable(1, 0, SECTOR),
                Seg::writable(2, 0, 1),
            ],
        }]
        + stages::good_status(2, "write (split hdr 4x4)"@)
        + stages::read_back(
            Sector::At((WORK + 1) as u64),
            pattern,
            "read back"@,
            "split4-hdr data"@,
        )
}

pub fn t_hdr_split4(sock: &str, t: &mut Trial)
    requires
        old(t).wf(),
    ensures
        final(t)@ == bench::run(old(t)@, hdr_split4(sock@)),
        final(t).wf(),
{
    proof {
        reveal_with_fuel(bench::run_to, 3);
    }
    let pattern: Vec<u8> = pat(0xb2, SECTOR);
    t.connect(sock);
    t.need(4);
    t.stage_write(0, Sector::At(WORK + 1), pattern.as_slice());
    let chain: [Seg; 6] = [
        Seg::readable(0, 0, 4),
        Seg::readable(0, 4, 4),
        Seg::readable(0, 8, 4),
        Seg::readable(0, 12, 4),
        Seg::readable(1, 0, SECTOR),
        Seg::writable(2, 0, 1),
    ];
    assert(chain@ =~= seq![
        Seg::readable(0, 0, 4),
        Seg::readable(0, 4, 4),
        Seg::readable(0, 8, 4),
        Seg::readable(0, 12, 4),
        Seg::readable(1, 0, SECTOR),
        Seg::writable(2, 0, 1),
    ]);
    t.submit(&chain);
    t.good_status(2, "write (split hdr 4x4)");
    t.read_back(Sector::At(WORK + 1), pattern.as_slice(), "read back", "split4-hdr data");
}

/// Header and data of a write lie in one segment.
pub open spec fn hdr_data_contiguous_write(sock: Seq<char>) -> Seq<Step> {
    let pattern = checks::pattern(0xb3, SECTOR as nat);
    seq![
        stages::plain(sock),
        Step::Need { sectors: 4 },
        Step::Alloc { len: (16 + SECTOR) as usize },
        Step::Header { buf: 0, req_type: VIRTIO_BLK_T_OUT, at: Sector::At((WORK + 2) as u64) },
        Step::Put { buf: 0, at: 16, data: pattern },
        Step::Alloc { len: 1 },
        Step::Put { buf: 1, at: 0, data: seq![STATUS_POISON] },
        Step::Submit {
            chain: seq![
                Seg::readable(0, 0, (16 + SECTOR) as usize),
                Seg::writable(1, 0, 1),
            ],
        },
    ]
        + stages::good_status(1, "write (hdr+data в одном desc)"@)
        + stages::read_back(
            Sector::At((WORK + 2) as u64),
            pattern,
            "read back"@,
            "contiguous hdr+data"@,
        )
}

pub fn t_hdr_data_contiguous_write(sock: &str, t: &mut Trial)
    requires
        old(t).wf(),
    ensures
        final(t)@ == bench::run(old(t)@, hdr_data_contiguous_write(sock@)),
        final(t).wf(),
{
    proof {
        reveal_with_fuel(bench::run_to, 9);
    }
    let pattern: Vec<u8> = pat(0xb3, SECTOR);
    let mark: Vec<u8> = vec![STATUS_POISON];
    assert(mark@ =~= seq![STATUS_POISON]);
    t.connect(sock);
    t.need(4);
    t.buffer(16 + SECTOR);
    t.header(0, VIRTIO_BLK_T_OUT, Sector::At(WORK + 2));
    t.put(0, 16, pattern.as_slice());
    t.buffer(1);
    t.put(1, 0, mark.as_slice());
    let chain: [Seg; 2] = [Seg::readable(0, 0, 16 + SECTOR), Seg::writable(1, 0, 1)];
    assert(chain@ =~= seq![
        Seg::readable(0, 0, (16 + SECTOR) as usize),
        Seg::writable(1, 0, 1),
    ]);
    t.submit(&chain);
    t.good_status(1, "write (hdr+data в одном desc)");
    t.read_back(Sector::At(WORK + 2), pattern.as_slice(), "read back", "contiguous hdr+data");
}

/// A header, `n` segments of `len` bytes one after the other, and a status.
pub open spec fn spread(n: nat, len: usize, write: bool) -> Seq<Seg> {
    seq![Seg::readable(0, 0, 16)] + Seq::new(
        n,
        |i: int| Seg { buf: 1, at: (i * len) as usize, len, write },
    ) + seq![Seg::writable(2, 0, 1)]
}

fn spread_out(n: usize, len: usize, write: bool) -> (v: Vec<Seg>)
    requires
        n * len <= 0x10_0000,
    ensures
        v@ == spread(n as nat, len, write),
{
    let mut v: Vec<Seg> = Vec::new();
    v.push(Seg::readable(0, 0, 16));
    let mut i: usize = 0;
    while i < n
        invariant
            i <= n,
            n * len <= 0x10_0000,
            v@ == seq![Seg::readable(0, 0, 16)] + Seq::new(
                i as nat,
                |j: int| Seg { buf: 1, at: (j * len) as usize, len, write },
            ),
        decreases n - i,
    {
        assert(i * len <= n * len) by (nonlinear_arith)
            requires
                i <= n,
        ;
        v.push(Seg { buf: 1, at: i * len, len, write });
        i = i + 1;
        assert(v@ =~= seq![Seg::readable(0, 0, 16)] + Seq::new(
            i as nat,
            |j: int| Seg { buf: 1, at: (j * len) as usize, len, write },
        ));
    }
    v.push(Seg::writable(2, 0, 1));
    assert(v@ =~= spread(n as nat, len, write));
    v
}

/// The data of a write lie in eight segments.
pub open spec fn scatter_write(sock: Seq<char>) -> Seq<Step> {
    let pattern = checks::pattern(0x5a, (8 * SECTOR) as nat);
    seq![
        stages::plain(sock),
        Step::Need { sectors: 16 },
    ]
        + stages::staged_write(0, Sector::At(WORK), pattern)
        + seq![Step::Submit { chain: spread(8, SECTOR, false) }]
        + stages::good_status(2, "scatter write"@)
        + stages::read_back(Sector::At(WORK), pattern, "read back"@, "scatter-write data"@)
}

pub fn t_scatter_write(sock: &str, t: &mut Trial)
    requires
        old(t).wf(),
    ensures
        final(t)@ == bench::run(old(t)@, scatter_write(sock@)),
        final(t).wf(),
{
    proof {
        reveal_with_fuel(bench::run_to, 3);
    }
    let pattern: Vec<u8> = pat(0x5a, 8 * SECTOR);
    t.connect(sock);
    t.need(16);
    t.stage_write(0, Sector::At(WORK), pattern.as_slice());
    let chain: Vec<Seg> = spread_out(8, SECTOR, false);
    t.submit(chain.as_slice());
    t.good_status(2, "scatter write");
    t.read_back(Sector::At(WORK), pattern.as_slice(), "read back", "scatter-write data");
}

/// A read fills eight segments.
pub open spec fn scatter_read(sock: Seq<char>) -> Seq<Step> {
    let pattern = checks::pattern(0x6b, (8 * SECTOR) as nat);
    seq![
        stages::plain(sock),
        Step::Need { sectors: 16 },
    ]
        + stages::good_write(Sector::At((WORK + 8) as u64), pattern, "prewrite"@)
        + stages::staged_read(0, Sector::At((WORK + 8) as u64), (8 * SECTOR) as usize)
        + seq![Step::Submit { chain: spread(8, SECTOR, true) }]
        + stages::good_status(2, "scatter read"@)
        + stages::good_data(1, pattern, "scatter-read data"@)
}

pub fn t_scatter_read(sock: &str, t: &mut Trial)
    requires
        old(t).wf(),
    ensures
        final(t)@ == bench::run(old(t)@, scatter_read(sock@)),
        final(t).wf(),
{
    proof {
        reveal_with_fuel(bench::run_to, 3);
    }
    let pattern: Vec<u8> = pat(0x6b, 8 * SECTOR);
    t.connect(sock);
    t.need(16);
    t.good_write(Sector::At(WORK + 8), pattern.as_slice(), "prewrite");
    t.stage_read(0, Sector::At(WORK + 8), 8 * SECTOR);
    let chain: Vec<Seg> = spread_out(8, SECTOR, true);
    t.submit(chain.as_slice());
    t.good_status(2, "scatter read");
    t.good_data(1, pattern.as_slice(), "scatter-read data");
}

/// A read fills segments of different lengths.
pub open spec fn uneven_segments(sock: Seq<char>) -> Seq<Step> {
    let pattern = checks::pattern(0x7c, 4096 as nat);
    seq![
        stages::plain(sock),
        Step::Need { sectors: 16 },
    ]
        + stages::good_write(Sector::At((WORK + 16) as u64), pattern, "prewrite"@)
        + stages::staged_read(0, Sector::At((WORK + 16) as u64), 4096)
        + seq![Step::Submit {
            chain: seq![
                Seg::readable(0, 0, 16),
                Seg::writable(1, 0, 512),
                Seg::writable(1, 512, 1024),
                Seg::writable(1, 1536, 512),
                Seg::writable(1, 2048, 2048),
                Seg::writable(2, 0, 1),
            ],
        }]
        + stages::good_status(2, "uneven read"@)
        + stages::good_data(1, pattern, "uneven-seg data"@)
}

pub fn t_uneven_segments(sock: &str, t: &mut Trial)
    requires
        old(t).wf(),
    ensures
        final(t)@ == bench::run(old(t)@, uneven_segments(sock@)),
        final(t).wf(),
{
    proof {
        reveal_with_fuel(bench::run_to, 3);
    }
    let pattern: Vec<u8> = pat(0x7c, 4096);
    t.connect(sock);
    t.need(16);
    t.good_write(Sector::At(WORK + 16), pattern.as_slice(), "prewrite");
    t.stage_read(0, Sector::At(WORK + 16), 4096);
    let chain: [Seg; 6] = [
        Seg::readable(0, 0, 16),
        Seg::writable(1, 0, 512),
        Seg::writable(1, 512, 1024),
        Seg::writable(1, 1536, 512),
        Seg::writable(1, 2048, 2048),
        Seg::writable(2, 0, 1),
    ];
    assert(chain@ =~= seq![
        Seg::readable(0, 0, 16),
        Seg::writable(1, 0, 512),
        Seg::writable(1, 512, 1024),
        Seg::writable(1, 1536, 512),
        Seg::writable(1, 2048, 2048),
        Seg::writable(2, 0, 1),
    ]);
    t.submit(&chain);
    t.good_status(2, "uneven read");
    t.good_data(1, pattern.as_slice(), "uneven-seg data");
}

/// A read fills 64 segments.
pub open spec fn many_segments(sock: Seq<char>) -> Seq<Step> {
    let pattern = checks::pattern(0x8d, (64 * SECTOR) as nat);
    seq![
        stages::plain(sock),
        Step::Need { sectors: 80 },
    ]
        + stages::good_write(Sector::At((WORK + 24) as u64), pattern, "prewrite"@)
        + stages::staged_read(0, Sector::At((WORK + 24) as u64), (64 * SECTOR) as usize)
        + seq![Step::Submit { chain: spread(64, SECTOR, true) }]
        + stages::good_status(2, "64-seg read"@)
        + stages::good_data(1, pattern, "64-seg data"@)
}

pub fn t_many_segments(sock: &str, t: &mut Trial)
    requires
        old(t).wf(),
    ensures
        final(t)@ == bench::run(old(t)@, many_segments(sock@)),
        final(t).wf(),
{
    proof {
        reveal_with_fuel(bench::run_to, 3);
    }
    let pattern: Vec<u8> = pat(0x8d, 64 * SECTOR);
    t.connect(sock);
    t.need(80);
    t.good_write(Sector::At(WORK + 24), pattern.as_slice(), "prewrite");
    t.stage_read(0, Sector::At(WORK + 24), 64 * SECTOR);
    let chain: Vec<Seg> = spread_out(64, SECTOR, true);
    t.submit(chain.as_slice());
    t.good_status(2, "64-seg read");
    t.good_data(1, pattern.as_slice(), "64-seg data");
}

/// The last segment has room for more than the status, which is one byte all the same:
/// the bytes after it stay as they are.
pub open spec fn status_oversized(sock: Seq<char>) -> Seq<Step> {
    let pattern = checks::pattern(0x9e, SECTOR as nat);
    seq![
        stages::plain(sock),
        Step::Need { sectors: 4 },
    ]
        + stages::good_write(Sector::At((WORK + 3) as u64), pattern, "prewrite"@)
        + seq![
            Step::Alloc { len: 16 },
            Step::Header { buf: 0, req_type: VIRTIO_BLK_T_IN, at: Sector::At((WORK + 3) as u64) },
            Step::Alloc { len: SECTOR },
            Step::Zero { buf: 1, len: SECTOR },
            Step::Alloc { len: 4 },
            Step::Put { buf: 2, at: 0, data: mem::repeated(STATUS_POISON, 4) },
            Step::Submit {
                chain: seq![
                    Seg::readable(0, 0, 16),
                    Seg::writable(1, 0, SECTOR),
                    Seg::writable(2, 0, 4),
                ],
            },
        ]
        + stages::good_status(2, "status в 4-байтном desc"@)
        + seq![
            Step::Load { buf: 2, len: 4 },
            Step::Untouched { label: "status в 4-байтном desc"@, from: 1 },
        ]
        + stages::good_data(1, pattern, "oversized-status data"@)
}

pub fn t_status_oversized(sock: &str, t: &mut Trial)
    requires
        old(t).wf(),
    ensures
        final(t)@ == bench::run(old(t)@, status_oversized(sock@)),
        final(t).wf(),
{
    proof {
        reveal_with_fuel(bench::run_to, 8);
    }
    let pattern: Vec<u8> = pat(0x9e, SECTOR);
    let marks: Vec<u8> = vec![STATUS_POISON; 4];
    assert(marks@ =~= mem::repeated(STATUS_POISON, 4));
    t.connect(sock);
    t.need(4);
    t.good_write(Sector::At(WORK + 3), pattern.as_slice(), "prewrite");
    t.buffer(16);
    t.header(0, VIRTIO_BLK_T_IN, Sector::At(WORK + 3));
    t.buffer(SECTOR);
    t.zero(1, SECTOR);
    t.buffer(4);
    t.put(2, 0, marks.as_slice());
    let chain: [Seg; 3] = [
        Seg::readable(0, 0, 16),
        Seg::writable(1, 0, SECTOR),
        Seg::writable(2, 0, 4),
    ];
    assert(chain@ =~= seq![
        Seg::readable(0, 0, 16),
        Seg::writable(1, 0, SECTOR),
        Seg::writable(2, 0, 4),
    ]);
    t.submit(&chain);
    t.good_status(2, "status в 4-байтном desc");
    t.take_data(2, 4);
    t.untouched("status в 4-байтном desc", 1);
    t.good_data(1, pattern.as_slice(), "oversized-status data");
}

/// The chain of a read lies in a table of its own.
pub open spec fn indirect_rw(sock: Seq<char>) -> Seq<Step> {
    let pattern = checks::pattern(0xc4, SECTOR as nat);
    seq![
        stages::plain(sock),
        Step::Require {
            what: Wanted::Feature(VIRTIO_F_RING_INDIRECT_DESC),
            text: "INDIRECT_DESC не согласован"@,
        },
        Step::Need { sectors: 4 },
    ]
        + stages::good_write(Sector::At((WORK + 4) as u64), pattern, "prewrite"@)
        + stages::staged_read(0, Sector::At((WORK + 4) as u64), SECTOR)
        + seq![
            Step::Alloc { len: 48 },
            Step::PostIndirect { chain: stages::reading_chain(0, SECTOR), table: 3 },
            Step::Kick,
            Step::Await { text: "ЗАВИСАНИЕ (indirect)"@ },
            Step::CheckHead { prefix: "indirect: "@ },
        ]
        + stages::good_status(2, "indirect read"@)
        + stages::good_data(1, pattern, "indirect data"@)
}

pub fn t_indirect_rw(sock: &str, t: &mut Trial)
    requires
        old(t).wf(),
    ensures
        final(t)@ == bench::run(old(t)@, indirect_rw(sock@)),
        final(t).wf(),
{
    proof {
        reveal_with_fuel(bench::run_to, 6);
    }
    let pattern: Vec<u8> = pat(0xc4, SECTOR);
    t.connect(sock);
    t.require(Wanted::Feature(VIRTIO_F_RING_INDIRECT_DESC), "INDIRECT_DESC не согласован");
    t.need(4);
    t.good_write(Sector::At(WORK + 4), pattern.as_slice(), "prewrite");
    t.stage_read(0, Sector::At(WORK + 4), SECTOR);
    t.buffer(48);
    let chain: [Seg; 3] = [
        Seg::readable(0, 0, 16),
        Seg::writable(1, 0, SECTOR),
        Seg::writable(2, 0, 1),
    ];
    assert(chain@ =~= stages::reading_chain(0, SECTOR));
    t.post_indirect(&chain, 3);
    t.kick();
    t.wait("ЗАВИСАНИЕ (indirect)");
    t.check_head("indirect: ");
    t.good_status(2, "indirect read");
    t.good_data(1, pattern.as_slice(), "indirect data");
}

// ---- types of requests -------------------------------------------------------

/// A flush after a write succeeds.
pub open spec fn flush(sock: Seq<char>) -> Seq<Step> {
    let pattern = checks::pattern(0x33, SECTOR as nat);
    seq![
        stages::plain(sock),
        Step::Require { what: Wanted::Feature(VIRTIO_BLK_F_FLUSH), text: "FLUSH не согласован"@ },
        Step::Need { sectors: 4 },
    ]
        + stages::good_write(Sector::At(WORK), pattern, "write"@)
        + seq![
            Step::Flush,
            Step::ExpectOk { label: "flush"@ },
        ]
}

pub fn t_flush(sock: &str, t: &mut Trial)
    requires
        old(t).wf(),
    ensures
        final(t)@ == bench::run(old(t)@, flush(sock@)),
        final(t).wf(),
{
    proof {
        reveal_with_fuel(bench::run_to, 4);
    }
    let pattern: Vec<u8> = pat(0x33, SECTOR);
    t.connect(sock);
    t.require(Wanted::Feature(VIRTIO_BLK_F_FLUSH), "FLUSH не согласован");
    t.need(4);
    t.good_write(Sector::At(WORK), pattern.as_slice(), "write");
    t.flush();
    t.expect_ok("flush");
}

/// The sector of a flush is reserved, and the device ignores it.
pub open spec fn flush_nonzero_sector(sock: Seq<char>) -> Seq<Step> {
    seq![
        stages::plain(sock),
        Step::Require { what: Wanted::Feature(VIRTIO_BLK_F_FLUSH), text: "FLUSH не согласован"@ },
    ]
        + stages::staged_bare(0, VIRTIO_BLK_T_FLUSH, Sector::At(WORK))
        + seq![Step::Submit { chain: stages::bare_chain(0) }]
        + stages::good_status(1, "flush с ненулевым sector (должен игнорироваться)"@)
}

pub fn t_flush_nonzero_sector(sock: &str, t: &mut Trial)
    requires
        old(t).wf(),
    ensures
        final(t)@ == bench::run(old(t)@, flush_nonzero_sector(sock@)),
        final(t).wf(),
{
    proof {
        reveal_with_fuel(bench::run_to, 3);
    }
    t.connect(sock);
    t.require(Wanted::Feature(VIRTIO_BLK_F_FLUSH), "FLUSH не согласован");
    t.stage_bare(0, VIRTIO_BLK_T_FLUSH, Sector::At(WORK));
    t.submit_bare(0);
    t.good_status(1, "flush с ненулевым sector (должен игнорироваться)");
}

/// The identity has twenty bytes.
pub open spec fn get_id(sock: Seq<char>) -> Seq<Step> {
    seq![
        stages::plain(sock),
        Step::GetId,
        Step::ExpectOk { label: "get_id"@ },
        Step::Length {
            want: 20,
            before: "get_id вернул "@,
            after: " байт (ожидалось 20)"@,
        },
    ]
}

pub fn t_get_id(sock: &str, t: &mut Trial)
    requires
        old(t).wf(),
    ensures
        final(t)@ == bench::run(old(t)@, get_id(sock@)),
        final(t).wf(),
{
    proof {
        reveal_with_fuel(bench::run_to, 5);
    }
    t.connect(sock);
    t.get_id();
    t.expect_ok("get_id");
    t.length(20, "get_id вернул ", " байт (ожидалось 20)");
}

/// Zeroed sectors read as zero.
pub open spec fn write_zeroes(sock: Seq<char>) -> Seq<Step> {
    let pattern = checks::pattern(0xee, (8 * SECTOR) as nat);
    seq![
        stages::plain(sock),
        Step::Require {
            what: Wanted::Feature(VIRTIO_BLK_F_WRITE_ZEROES),
            text: "WRITE_ZEROES не согласован"@,
        },
        Step::Need { sectors: 16 },
    ]
        + stages::good_write(Sector::At(WORK), pattern, "prewrite"@)
        + seq![
            Step::Range {
                req_type: VIRTIO_BLK_T_WRITE_ZEROES,
                at: Sector::At(WORK),
                num_sectors: 8,
                unmap: false,
            },
            Step::ExpectOk { label: "write-zeroes"@ },
        ]
        + stages::good_read(Sector::At(WORK), (8 * SECTOR) as usize, "read after zeroes"@)
        + seq![Step::AllZero { label: "зона после write-zeroes"@ }]
}

pub fn t_write_zeroes(sock: &str, t: &mut Trial)
    requires
        old(t).wf(),
    ensures
        final(t)@ == bench::run(old(t)@, write_zeroes(sock@)),
        final(t).wf(),
{
    proof {
        reveal_with_fuel(bench::run_to, 4);
    }
    let pattern: Vec<u8> = pat(0xee, 8 * SECTOR);
    t.connect(sock);
    t.require(Wanted::Feature(VIRTIO_BLK_F_WRITE_ZEROES), "WRITE_ZEROES не согласован");
    t.need(16);
    t.good_write(Sector::At(WORK), pattern.as_slice(), "prewrite");
    t.range(VIRTIO_BLK_T_WRITE_ZEROES, Sector::At(WORK), 8, false);
    t.expect_ok("write-zeroes");
    t.good_read(Sector::At(WORK), 8 * SECTOR, "read after zeroes");
    t.all_zero("зона после write-zeroes");
}

/// The same, where the device may give the sectors up.
pub open spec fn write_zeroes_unmap(sock: Seq<char>) -> Seq<Step> {
    let pattern = checks::pattern(0xef, (8 * SECTOR) as nat);
    seq![
        stages::plain(sock),
        Step::Require {
            what: Wanted::Feature(VIRTIO_BLK_F_WRITE_ZEROES),
            text: "WRITE_ZEROES не согласован"@,
        },
        Step::Need { sectors: 16 },
    ]
        + stages::good_write(Sector::At((WORK + 8) as u64), pattern, "prewrite"@)
        + seq![
            Step::Range {
                req_type: VIRTIO_BLK_T_WRITE_ZEROES,
                at: Sector::At((WORK + 8) as u64),
                num_sectors: 8,
                unmap: true,
            },
            Step::ExpectOk { label: "write-zeroes -u"@ },
        ]
        + stages::good_read(
            Sector::At((WORK + 8) as u64),
            (8 * SECTOR) as usize,
            "read after zeroes -u"@,
        )
        + seq![Step::AllZero { label: "зона после write-zeroes -u"@ }]
}

pub fn t_write_zeroes_unmap(sock: &str, t: &mut Trial)
    requires
        old(t).wf(),
    ensures
        final(t)@ == bench::run(old(t)@, write_zeroes_unmap(sock@)),
        final(t).wf(),
{
    proof {
        reveal_with_fuel(bench::run_to, 4);
    }
    let pattern: Vec<u8> = pat(0xef, 8 * SECTOR);
    t.connect(sock);
    t.require(Wanted::Feature(VIRTIO_BLK_F_WRITE_ZEROES), "WRITE_ZEROES не согласован");
    t.need(16);
    t.good_write(Sector::At(WORK + 8), pattern.as_slice(), "prewrite");
    t.range(VIRTIO_BLK_T_WRITE_ZEROES, Sector::At(WORK + 8), 8, true);
    t.expect_ok("write-zeroes -u");
    t.good_read(Sector::At(WORK + 8), 8 * SECTOR, "read after zeroes -u");
    t.all_zero("зона после write-zeroes -u");
}

/// Discarded sectors can be written again. What they hold in between is open.
pub open spec fn discard(sock: Seq<char>) -> Seq<Step> {
    let first = checks::pattern(0xab, (8 * SECTOR) as nat);
    let second = checks::pattern(0xba, (8 * SECTOR) as nat);
    seq![
        stages::plain(sock),
        Step::Require {
            what: Wanted::Feature(VIRTIO_BLK_F_DISCARD),
            text: "DISCARD не согласован"@,
        },
        Step::Need { sectors: 16 },
    ]
        + stages::good_write(Sector::At(WORK), first, "prewrite"@)
        + seq![
            Step::Range {
                req_type: VIRTIO_BLK_T_DISCARD,
                at: Sector::At(WORK),
                num_sectors: 8,
                unmap: false,
            },
            Step::ExpectOk { label: "discard"@ },
        ]
        + stages::good_write(Sector::At(WORK), second, "rewrite after discard"@)
        + stages::read_back(
            Sector::At(WORK),
            second,
            "read after rewrite"@,
            "перезапись после discard"@,
        )
}

pub fn t_discard(sock: &str, t: &mut Trial)
    requires
        old(t).wf(),
    ensures
        final(t)@ == bench::run(old(t)@, discard(sock@)),
        final(t).wf(),
{
    proof {
        reveal_with_fuel(bench::run_to, 4);
    }
    let first: Vec<u8> = pat(0xab, 8 * SECTOR);
    let second: Vec<u8> = pat(0xba, 8 * SECTOR);
    t.connect(sock);
    t.require(Wanted::Feature(VIRTIO_BLK_F_DISCARD), "DISCARD не согласован");
    t.need(16);
    t.good_write(Sector::At(WORK), first.as_slice(), "prewrite");
    t.range(VIRTIO_BLK_T_DISCARD, Sector::At(WORK), 8, false);
    t.expect_ok("discard");
    t.good_write(Sector::At(WORK), second.as_slice(), "rewrite after discard");
    t.read_back(
        Sector::At(WORK),
        second.as_slice(),
        "read after rewrite",
        "перезапись после discard",
    );
}

/// A request of an unknown type is refused, and the device goes on.
pub open spec fn unsupported_type(sock: Seq<char>) -> Seq<Step> {
    seq![stages::plain(sock)]
        + stages::staged_fetch(0, 0x5EAD_BEEF, Sector::At(0), SECTOR)
        + seq![
            Step::Submit { chain: stages::reading_chain(0, SECTOR) },
            Step::Status { buf: 2 },
            Step::CheckStatus {
                accept: Accept::Refusal,
                says: SaysOf::Status(
                    "неизвестный тип: status="@,
                    " (ожидался UNSUPP=2 или IOERR=1)"@,
                ),
            },
        ]
        + stages::good_read(Sector::At(0), SECTOR, "после неизвестного типа"@)
}

pub fn t_unsupported_type(sock: &str, t: &mut Trial)
    requires
        old(t).wf(),
    ensures
        final(t)@ == bench::run(old(t)@, unsupported_type(sock@)),
        final(t).wf(),
{
    proof {
        reveal_with_fuel(bench::run_to, 4);
    }
    t.connect(sock);
    t.stage_fetch(0, 0x5EAD_BEEF, Sector::At(0), SECTOR);
    t.submit_reading(0, SECTOR);
    t.take_status(2);
    t.check_status(
        Accept::Refusal,
        SaysOf::Status("неизвестный тип: status=", " (ожидался UNSUPP=2 или IOERR=1)"),
    );
    t.good_read(Sector::At(0), SECTOR, "после неизвестного типа");
}

/// A read without data gets a proper status, and the device goes on.
pub open spec fn zero_length_read(sock: Seq<char>) -> Seq<Step> {
    seq![stages::plain(sock)]
        + stages::staged_bare(0, VIRTIO_BLK_T_IN, Sector::At(WORK))
        + seq![
            Step::Submit { chain: stages::bare_chain(0) },
            Step::Status { buf: 1 },
            Step::CheckStatus {
                accept: Accept::Known,
                says: SaysOf::Status("0-длина: недопустимый status="@, ""@),
            },
        ]
        + stages::good_read(Sector::At(0), SECTOR, "после 0-длины жив"@)
}

pub fn t_zero_length_read(sock: &str, t: &mut Trial)
    requires
        old(t).wf(),
    ensures
        final(t)@ == bench::run(old(t)@, zero_length_read(sock@)),
        final(t).wf(),
{
    proof {
        reveal_with_fuel(bench::run_to, 4);
    }
    t.connect(sock);
    t.stage_bare(0, VIRTIO_BLK_T_IN, Sector::At(WORK));
    t.submit_bare(0);
    t.take_status(1);
    t.check_status(Accept::Known, SaysOf::Status("0-длина: недопустимый status=", ""));
    t.good_read(Sector::At(0), SECTOR, "после 0-длины жив");
}

/// A read of a length that is not in whole sectors succeeds or is refused with an I/O
/// error, and the device goes on.
pub open spec fn nonmultiple_length(sock: Seq<char>) -> Seq<Step> {
    seq![
        stages::plain(sock),
        Step::Need { sectors: 4 },
    ]
        + stages::staged_read(0, Sector::At(WORK), (SECTOR + 100) as usize)
        + seq![
            Step::Submit { chain: stages::reading_chain(0, (SECTOR + 100) as usize) },
            Step::Status { buf: 2 },
            Step::CheckStatus {
                accept: Accept::Served,
                says: SaysOf::Status("некратная длина: недопустимый status="@, ""@),
            },
        ]
        + stages::good_read(Sector::At(0), SECTOR, "после некратной длины жив"@)
}

pub fn t_nonmultiple_length(sock: &str, t: &mut Trial)
    requires
        old(t).wf(),
    ensures
        final(t)@ == bench::run(old(t)@, nonmultiple_length(sock@)),
        final(t).wf(),
{
    proof {
        reveal_with_fuel(bench::run_to, 4);
    }
    t.connect(sock);
    t.need(4);
    t.stage_read(0, Sector::At(WORK), SECTOR + 100);
    t.submit_reading(0, SECTOR + 100);
    t.take_status(2);
    t.check_status(Accept::Served, SaysOf::Status("некратная длина: недопустимый status=", ""));
    t.good_read(Sector::At(0), SECTOR, "после некратной длины жив");
}

// ---- bounds ------------------------------------------------------------------

/// The last sector can be written and read.
pub open spec fn last_sector(sock: Seq<char>) -> Seq<Step> {
    let pattern = checks::pattern(0x11, SECTOR as nat);
    seq![
        stages::plain(sock),
        Step::Need { sectors: 0 },
    ]
        + stages::good_write(Sector::Last, pattern, "write last"@)
        + stages::read_back(Sector::Last, pattern, "read last"@, "last-sector"@)
}

pub fn t_last_sector(sock: &str, t: &mut Trial)
    requires
        old(t).wf(),
    ensures
        final(t)@ == bench::run(old(t)@, last_sector(sock@)),
        final(t).wf(),
{
    proof {
        reveal_with_fuel(bench::run_to, 3);
    }
    let pattern: Vec<u8> = pat(0x11, SECTOR);
    t.connect(sock);
    t.need(0);
    t.good_write(Sector::Last, pattern.as_slice(), "write last");
    t.read_back(Sector::Last, pattern.as_slice(), "read last", "last-sector");
}

/// A read across the end is refused with an I/O error, and the device goes on.
pub open spec fn cross_capacity(sock: Seq<char>) -> Seq<Step> {
    seq![
        stages::plain(sock),
        Step::Need { sectors: 0 },
        Step::Read { at: Sector::Last, len: (2 * SECTOR) as usize },
        Step::CheckStatus {
            accept: Accept::NotOk,
            says: SaysOf::Plain("чтение через границу вернуло OK (ожидался IOERR)"@),
        },
        Step::CheckStatus {
            accept: Accept::Only(VIRTIO_BLK_S_IOERR),
            says: SaysOf::Status("чтение через границу: status="@, " (ожидался IOERR)"@),
        },
    ]
        + stages::good_read(Sector::At(0), SECTOR, "после cross-границы жив"@)
}

pub fn t_cross_capacity(sock: &str, t: &mut Trial)
    requires
        old(t).wf(),
    ensures
        final(t)@ == bench::run(old(t)@, cross_capacity(sock@)),
        final(t).wf(),
{
    proof {
        reveal_with_fuel(bench::run_to, 6);
    }
    t.connect(sock);
    t.need(0);
    t.read(Sector::Last, 2 * SECTOR);
    t.check_status(
        Accept::NotOk,
        SaysOf::Plain("чтение через границу вернуло OK (ожидался IOERR)"),
    );
    t.check_status(
        Accept::Only(VIRTIO_BLK_S_IOERR),
        SaysOf::Status("чтение через границу: status=", " (ожидался IOERR)"),
    );
    t.good_read(Sector::At(0), SECTOR, "после cross-границы жив");
}

/// So is a read past the end.
pub open spec fn beyond_capacity(sock: Seq<char>) -> Seq<Step> {
    seq![
        stages::plain(sock),
        Step::Need { sectors: 0 },
        Step::Beyond { sectors: 1000 },
        Step::Read { at: Sector::Past(1000), len: SECTOR },
        Step::CheckStatus {
            accept: Accept::NotOk,
            says: SaysOf::Plain("чтение за пределами ёмкости вернуло OK (ожидался IOERR)"@),
        },
        Step::CheckStatus {
            accept: Accept::Only(VIRTIO_BLK_S_IOERR),
            says: SaysOf::Status("чтение за пределами ёмкости: status="@, " (ожидался IOERR)"@),
        },
    ]
        + stages::good_read(Sector::At(0), SECTOR, "после out-of-range жив"@)
}

pub fn t_beyond_capacity(sock: &str, t: &mut Trial)
    requires
        old(t).wf(),
    ensures
        final(t)@ == bench::run(old(t)@, beyond_capacity(sock@)),
        final(t).wf(),
{
    proof {
        reveal_with_fuel(bench::run_to, 7);
    }
    t.connect(sock);
    t.need(0);
    t.beyond(1000);
    t.read(Sector::Past(1000), SECTOR);
    t.check_status(
        Accept::NotOk,
        SaysOf::Plain("чтение за пределами ёмкости вернуло OK (ожидался IOERR)"),
    );
    t.check_status(
        Accept::Only(VIRTIO_BLK_S_IOERR),
        SaysOf::Status("чтение за пределами ёмкости: status=", " (ожидался IOERR)"),
    );
    t.good_read(Sector::At(0), SECTOR, "после out-of-range жив");
}

/// A write of 128 KiB in one long chain. It ends 356 sectors into the work area, eight of
/// which every need leaves room for.
pub open spec fn large_request(sock: Seq<char>) -> Seq<Step> {
    let pattern = checks::pattern(0xd7, 131072 as nat);
    seq![
        stages::plain(sock),
        Step::Need { sectors: 348 },
    ]
        + stages::staged_write(0, Sector::At((WORK + 100) as u64), pattern)
        + seq![Step::Submit { chain: spread(32, 4096, false) }]
        + stages::good_status(2, "large write"@)
        + stages::read_back(
            Sector::At((WORK + 100) as u64),
            pattern,
            "large read"@,
            "large-request"@,
        )
}

pub fn t_large_request(sock: &str, t: &mut Trial)
    requires
        old(t).wf(),
    ensures
        final(t)@ == bench::run(old(t)@, large_request(sock@)),
        final(t).wf(),
{
    proof {
        reveal_with_fuel(bench::run_to, 3);
    }
    let pattern: Vec<u8> = pat(0xd7, 131072);
    t.connect(sock);
    t.need(348);
    t.stage_write(0, Sector::At(WORK + 100), pattern.as_slice());
    let chain: Vec<Seg> = spread_out(32, 4096, false);
    t.submit(chain.as_slice());
    t.good_status(2, "large write");
    t.read_back(Sector::At(WORK + 100), pattern.as_slice(), "large read", "large-request");
}

// ---- the ring ----------------------------------------------------------------

/// `n` writes in flight.
pub open spec fn writes_posted(n: nat) -> Seq<Step>
    decreases n,
{
    if n == 0 {
        Seq::empty()
    } else {
        let i = n - 1;
        writes_posted(i as nat) + stages::staged_write(
            (i * 3) as usize,
            spaced(i, 4),
            nth(0x40, i),
        ) + seq![Step::Post { chain: stages::writing_chain((i * 3) as usize, SECTOR) }]
    }
}

/// `n` of 16 completions, each of a write that went well.
pub open spec fn writes_reaped(n: nat) -> Seq<Step>
    decreases n,
{
    if n == 0 {
        Seq::empty()
    } else {
        let i = n - 1;
        writes_reaped(i as nat) + seq![
            Step::Complete {
                done: i as nat,
                of: 16,
                before: "ЗАВИСАНИЕ: получено "@,
                after: " завершений"@,
            },
            Step::Find,
            Step::Written { stride: 4 },
        ]
    }
}

/// The first `n` of these writes are read back.
pub open spec fn writes_settled(n: nat) -> Seq<Step>
    decreases n,
{
    if n == 0 {
        Seq::empty()
    } else {
        let i = n - 1;
        writes_settled(i as nat) + stages::read_back(
            spaced(i, 4),
            nth(0x40, i),
            "readback"@,
            "multi-outstanding"@,
        )
    }
}

/// Sixteen writes are posted, and the device is woken.
pub open spec fn writes_in_flight(sock: Seq<char>) -> Seq<Step> {
    seq![stages::plain(sock), Step::Need { sectors: 80 }] + writes_posted(16) + seq![Step::Kick]
}

/// Sixteen writes in flight at once all complete, each once, and all settle.
pub open spec fn multi_outstanding(sock: Seq<char>) -> Seq<Step> {
    writes_in_flight(sock) + writes_reaped(16) + writes_settled(16)
}

pub fn t_multi_outstanding(sock: &str, t: &mut Trial)
    requires
        old(t).wf(),
    ensures
        final(t)@ == bench::run(old(t)@, multi_outstanding(sock@)),
        final(t).wf(),
{
    proof {
        reveal_with_fuel(bench::run_to, 4);
    }
    t.connect(sock);
    t.need(80);
    let ghost b = t@;
    let mut i: u8 = 0;
    while i < 16
        invariant
            i <= 16,
            t.wf(),
            t@ == bench::run(b, writes_posted(i as nat)),
        decreases 16 - i,
    {
        proof {
            reveal_with_fuel(bench::run_to, 2);
        }
        let pattern: Vec<u8> = nth_pat(0x40, i);
        t.stage_write(
            i as usize * 3,
            Sector::At(WORK + i as u64 * 4),
            pattern.as_slice(),
        );
        t.post_writing(i as usize * 3, SECTOR);
        i = i + 1;
    }
    t.kick();
    let ghost b = t@;
    let mut i: u8 = 0;
    while i < 16
        invariant
            i <= 16,
            t.wf(),
            t@ == bench::run(b, writes_reaped(i as nat)),
        decreases 16 - i,
    {
        proof {
            reveal_with_fuel(bench::run_to, 4);
        }
        t.complete(i as u64, 16, "ЗАВИСАНИЕ: получено ", " завершений");
        t.find();
        t.written(4);
        i = i + 1;
    }
    let ghost b = t@;
    let mut i: u8 = 0;
    while i < 16
        invariant
            i <= 16,
            t.wf(),
            t@ == bench::run(b, writes_settled(i as nat)),
        decreases 16 - i,
    {
        let pattern: Vec<u8> = nth_pat(0x40, i);
        t.read_back(
            Sector::At(WORK + i as u64 * 4),
            pattern.as_slice(),
            "readback",
            "multi-outstanding",
        );
        i = i + 1;
    }
}

/// `n` sectors to be read in any order.
pub open spec fn sectors_prepared(n: nat) -> Seq<Step>
    decreases n,
{
    if n == 0 {
        Seq::empty()
    } else {
        let i = n - 1;
        sectors_prepared(i as nat) + stages::good_write(spaced(i, 2), nth(0x70, i), "prewrite"@)
    }
}

/// `n` reads in flight.
pub open spec fn reads_posted(n: nat) -> Seq<Step>
    decreases n,
{
    if n == 0 {
        Seq::empty()
    } else {
        let i = n - 1;
        reads_posted(i as nat) + stages::staged_read((i * 3) as usize, spaced(i, 2), SECTOR)
            + seq![Step::Post { chain: stages::reading_chain((i * 3) as usize, SECTOR) }]
    }
}

/// `n` of 8 completions, each with the data of its own sector.
pub open spec fn reads_reaped(n: nat) -> Seq<Step>
    decreases n,
{
    if n == 0 {
        Seq::empty()
    } else {
        let i = n - 1;
        reads_reaped(i as nat) + seq![
            Step::Complete {
                done: i as nat,
                of: 8,
                before: "ЗАВИСАНИЕ: "@,
                after: " завершений"@,
            },
            Step::Find,
            Step::Fetched { stride: 2, seed: 0x70 },
        ]
    }
}

/// Eight reads of prepared sectors are posted, and the device is woken.
pub open spec fn reads_in_flight(sock: Seq<char>) -> Seq<Step> {
    seq![stages::plain(sock), Step::Need { sectors: 64 }] + sectors_prepared(8) + reads_posted(8)
        + seq![Step::Kick]
}

/// Reads in flight may complete in any order, each once and with the data of its own
/// sector.
pub open spec fn out_of_order(sock: Seq<char>) -> Seq<Step> {
    reads_in_flight(sock) + reads_reaped(8)
}

pub fn t_out_of_order(sock: &str, t: &mut Trial)
    requires
        old(t).wf(),
    ensures
        final(t)@ == bench::run(old(t)@, out_of_order(sock@)),
        final(t).wf(),
{
    proof {
        reveal_with_fuel(bench::run_to, 4);
    }
    t.connect(sock);
    t.need(64);
    let ghost b = t@;
    let mut i: u8 = 0;
    while i < 8
        invariant
            i <= 8,
            t.wf(),
            t@ == bench::run(b, sectors_prepared(i as nat)),
        decreases 8 - i,
    {
        let pattern: Vec<u8> = nth_pat(0x70, i);
        t.good_write(Sector::At(WORK + i as u64 * 2), pattern.as_slice(), "prewrite");
        i = i + 1;
    }
    let ghost b = t@;
    let mut i: u8 = 0;
    while i < 8
        invariant
            i <= 8,
            t.wf(),
            t@ == bench::run(b, reads_posted(i as nat)),
        decreases 8 - i,
    {
        proof {
            reveal_with_fuel(bench::run_to, 2);
        }
        t.stage_read(i as usize * 3, Sector::At(WORK + i as u64 * 2), SECTOR);
        t.post_reading(i as usize * 3, SECTOR);
        i = i + 1;
    }
    t.kick();
    let ghost b = t@;
    let mut i: u8 = 0;
    while i < 8
        invariant
            i <= 8,
            t.wf(),
            t@ == bench::run(b, reads_reaped(i as nat)),
        decreases 8 - i,
    {
        proof {
            reveal_with_fuel(bench::run_to, 4);
        }
        t.complete(i as u64, 8, "ЗАВИСАНИЕ: ", " завершений");
        t.find();
        t.fetched(2, 0x70);
        i = i + 1;
    }
}

/// The completion of a read counts data and status.
pub open spec fn used_len_read(sock: Seq<char>) -> Seq<Step> {
    let pattern = checks::pattern(0x21, (8 * SECTOR) as nat);
    seq![
        stages::plain(sock),
        Step::Need { sectors: 16 },
    ]
        + stages::good_write(Sector::At(WORK), pattern, "prewrite"@)
        + stages::staged_read(0, Sector::At(WORK), (8 * SECTOR) as usize)
        + seq![Step::Submit { chain: stages::reading_chain(0, (8 * SECTOR) as usize) }]
        + stages::good_status(2, "read"@)
        + seq![Step::UsedLenOfRead { len: (8 * SECTOR) as usize }]
}

pub fn t_used_len_read(sock: &str, t: &mut Trial)
    requires
        old(t).wf(),
    ensures
        final(t)@ == bench::run(old(t)@, used_len_read(sock@)),
        final(t).wf(),
{
    proof {
        reveal_with_fuel(bench::run_to, 3);
    }
    let pattern: Vec<u8> = pat(0x21, 8 * SECTOR);
    t.connect(sock);
    t.need(16);
    t.good_write(Sector::At(WORK), pattern.as_slice(), "prewrite");
    t.stage_read(0, Sector::At(WORK), 8 * SECTOR);
    t.submit_reading(0, 8 * SECTOR);
    t.good_status(2, "read");
    t.used_len_of_read(8 * SECTOR);
}

/// The completion of a write counts the status alone. The write ends 204 sectors into the
/// work area, eight of which every need leaves room for.
pub open spec fn used_len_write(sock: Seq<char>) -> Seq<Step> {
    let pattern = checks::pattern(0x22, (4 * SECTOR) as nat);
    seq![
        stages::plain(sock),
        Step::Need { sectors: 196 },
    ]
        + stages::staged_write(0, Sector::At((WORK + 200) as u64), pattern)
        + seq![Step::Submit { chain: stages::writing_chain(0, (4 * SECTOR) as usize) }]
        + stages::good_status(2, "write"@)
        + seq![Step::UsedLenOfWrite]
}

pub fn t_used_len_write(sock: &str, t: &mut Trial)
    requires
        old(t).wf(),
    ensures
        final(t)@ == bench::run(old(t)@, used_len_write(sock@)),
        final(t).wf(),
{
    proof {
        reveal_with_fuel(bench::run_to, 3);
    }
    let pattern: Vec<u8> = pat(0x22, 4 * SECTOR);
    t.connect(sock);
    t.need(196);
    t.stage_write(0, Sector::At(WORK + 200), pattern.as_slice());
    t.submit_writing(0, 4 * SECTOR);
    t.good_status(2, "write");
    t.used_len_of_write();
}

/// A kick without a request completes nothing.
pub open spec fn spurious_kick(sock: Seq<char>) -> Seq<Step> {
    seq![
        stages::plain(sock),
        Step::Kick,
        Step::Silence {
            timeout_ms: 300,
            before: "устройство вернуло завершение id="@,
            after: " без запроса"@,
        },
    ]
        + stages::good_read(Sector::At(0), SECTOR, "после spurious kick"@)
}

pub fn t_spurious_kick(sock: &str, t: &mut Trial)
    requires
        old(t).wf(),
    ensures
        final(t)@ == bench::run(old(t)@, spurious_kick(sock@)),
        final(t).wf(),
{
    proof {
        reveal_with_fuel(bench::run_to, 4);
    }
    t.connect(sock);
    t.kick();
    t.silence(300, "устройство вернуло завершение id=", " без запроса");
    t.good_read(Sector::At(0), SECTOR, "после spurious kick");
}

/// A request is served where signals are not wanted.
pub open spec fn no_interrupt(sock: Seq<char>) -> Seq<Step> {
    let pattern = checks::pattern(0x55, SECTOR as nat);
    seq![
        stages::plain(sock),
        Step::Need { sectors: 4 },
    ]
        + stages::good_write(Sector::At(WORK), pattern, "prewrite"@)
        + seq![Step::AvailFlags { flags: VRING_AVAIL_F_NO_INTERRUPT }]
        + stages::read_back(
            Sector::At(WORK),
            pattern,
            "read с NO_INTERRUPT"@,
            "данные с NO_INTERRUPT"@,
        )
}

pub fn t_no_interrupt(sock: &str, t: &mut Trial)
    requires
        old(t).wf(),
    ensures
        final(t)@ == bench::run(old(t)@, no_interrupt(sock@)),
        final(t).wf(),
{
    proof {
        reveal_with_fuel(bench::run_to, 3);
    }
    let pattern: Vec<u8> = pat(0x55, SECTOR);
    t.connect(sock);
    t.need(4);
    t.good_write(Sector::At(WORK), pattern.as_slice(), "prewrite");
    t.avail_flags(VRING_AVAIL_F_NO_INTERRUPT);
    t.read_back(
        Sector::At(WORK),
        pattern.as_slice(),
        "read с NO_INTERRUPT",
        "данные с NO_INTERRUPT",
    );
}

/// Two kicks for one request complete it once.
pub open spec fn double_kick(sock: Seq<char>) -> Seq<Step> {
    let pattern = checks::pattern(0x66, SECTOR as nat);
    seq![
        stages::plain(sock),
        Step::Need { sectors: 4 },
    ]
        + stages::good_write(Sector::At(WORK), pattern, "prewrite"@)
        + stages::staged_read(0, Sector::At(WORK), SECTOR)
        + seq![
            Step::Post { chain: stages::reading_chain(0, SECTOR) },
            Step::Kick,
            Step::Kick,
            Step::Await { text: "ЗАВИСАНИЕ (double kick)"@ },
            Step::CheckHead { prefix: ""@ },
            Step::Silence {
                timeout_ms: 300,
                before: "двойное завершение: лишний used id="@,
                after: ""@,
            },
        ]
        + stages::good_data(1, pattern, "double-kick data"@)
}

pub fn t_double_kick(sock: &str, t: &mut Trial)
    requires
        old(t).wf(),
    ensures
        final(t)@ == bench::run(old(t)@, double_kick(sock@)),
        final(t).wf(),
{
    proof {
        reveal_with_fuel(bench::run_to, 7);
    }
    let pattern: Vec<u8> = pat(0x66, SECTOR);
    t.connect(sock);
    t.need(4);
    t.good_write(Sector::At(WORK), pattern.as_slice(), "prewrite");
    t.stage_read(0, Sector::At(WORK), SECTOR);
    t.post_reading(0, SECTOR);
    t.kick();
    t.kick();
    t.wait("ЗАВИСАНИЕ (double kick)");
    t.check_head("");
    t.silence(300, "двойное завершение: лишний used id=", "");
    t.good_data(1, pattern.as_slice(), "double-kick data");
}

} // verus!
