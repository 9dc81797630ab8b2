//! Scenarios of bad chains and bad requests. They guard against faults that backends
//! have had: addresses taken without a check, chains followed for ever, sums that
//! overflow.
//!
//! For each scenario a function of the same name lists its steps.

use vstd::prelude::*;

use crate::bench;
use crate::bench::{Accept, Place, SaysOf, Sector, Seg, Step, Wanted};
use crate::checks;
use crate::checks::{pat, WORK};
use crate::dev::{
    QSZ, REGION_SIZE, SECTOR, STATUS_POISON, VIRTIO_BLK_S_IOERR, VIRTIO_BLK_T_DISCARD,
    VIRTIO_BLK_T_GET_ID, VRING_DESC_F_INDIRECT, VRING_DESC_F_NEXT,
};
use crate::features::{VIRTIO_BLK_F_DISCARD, VIRTIO_BLK_F_RO};
use crate::stages;
use crate::stages::alive;
use crate::trial::Trial;

verus! {

broadcast use bench::run_concat;

/// To be written by the device, and followed by another descriptor.
pub const WRITE_NEXT: u16 = 3;

/// A table, and followed by another descriptor.
pub const INDIRECT_NEXT: u16 = 5;

/// A chain that is laid out badly. The device need not complete it, and may stop the
/// ring. It has to serve the next session.
pub open spec fn malformed(sock: Seq<char>, build: Seq<Step>) -> Seq<Step> {
    seq![stages::plain(sock)] + build + seq![
        Step::Kick,
        Step::IgnoreUsed { timeout_ms: 400 },
        Step::Close,
    ] + stages::liveness(sock)
}

/// What follows a bad chain: a kick, a wait for nothing, and a sign of life.
fn run_malformed(sock: &str, t: &mut Trial)
    requires
        old(t).wf(),
    ensures
        final(t)@ == bench::run(
            old(t)@,
            seq![Step::Kick, Step::IgnoreUsed { timeout_ms: 400 }, Step::Close]
                + stages::liveness(sock@),
        ),
        final(t).wf(),
{
    proof {
        reveal_with_fuel(bench::run_to, 4);
    }
    t.kick();
    t.ignore_used(400);
    t.close();
    alive(sock, t);
}

// ---- bad chains ------------------------------------------------------------------

/// The chain goes on outside the table.
pub open spec fn desc_next_oob(sock: Seq<char>) -> Seq<Step> {
    malformed(
        sock,
        seq![
            Step::Alloc { len: 64 },
            Step::RawDesc {
                idx: 0,
                addr: Place::Buf(0),
                len: 16,
                flags: VRING_DESC_F_NEXT,
                next: (QSZ + 5) as u16,
            },
            Step::PushAvail { head: 0 },
        ],
    )
}

pub fn t_desc_next_oob(sock: &str, t: &mut Trial)
    requires
        old(t).wf(),
    ensures
        final(t)@ == bench::run(old(t)@, desc_next_oob(sock@)),
        final(t).wf(),
{
    proof {
        reveal_with_fuel(bench::run_to, 4);
    }
    t.connect(sock);
    t.buffer(64);
    t.raw_desc(0, Place::Buf(0), 16, VRING_DESC_F_NEXT, QSZ + 5);
    t.push_avail(0);
    run_malformed(sock, t);
}

/// The chain goes round for ever.
pub open spec fn desc_loop(sock: Seq<char>) -> Seq<Step> {
    malformed(
        sock,
        seq![
            Step::Alloc { len: 64 },
            Step::RawDesc {
                idx: 0,
                addr: Place::Buf(0),
                len: 16,
                flags: VRING_DESC_F_NEXT,
                next: 1,
            },
            Step::RawDesc {
                idx: 1,
                addr: Place::Buf(0),
                len: 16,
                flags: VRING_DESC_F_NEXT,
                next: 0,
            },
            Step::PushAvail { head: 0 },
        ],
    )
}

pub fn t_desc_loop(sock: &str, t: &mut Trial)
    requires
        old(t).wf(),
    ensures
        final(t)@ == bench::run(old(t)@, desc_loop(sock@)),
        final(t).wf(),
{
    proof {
        reveal_with_fuel(bench::run_to, 5);
    }
    t.connect(sock);
    t.buffer(64);
    t.raw_desc(0, Place::Buf(0), 16, VRING_DESC_F_NEXT, 1);
    t.raw_desc(1, Place::Buf(0), 16, VRING_DESC_F_NEXT, 0);
    t.push_avail(0);
    run_malformed(sock, t);
}

/// The buffer lies outside the memory.
pub open spec fn desc_addr_oob(sock: Seq<char>) -> Seq<Step> {
    malformed(
        sock,
        seq![
            Step::RawDesc {
                idx: 0,
                addr: Place::Abs((REGION_SIZE + 0x1000) as u64),
                len: 512,
                flags: 0,
                next: 0,
            },
            Step::PushAvail { head: 0 },
        ],
    )
}

pub fn t_desc_addr_oob(sock: &str, t: &mut Trial)
    requires
        old(t).wf(),
    ensures
        final(t)@ == bench::run(old(t)@, desc_addr_oob(sock@)),
        final(t).wf(),
{
    proof {
        reveal_with_fuel(bench::run_to, 3);
    }
    t.connect(sock);
    t.raw_desc(0, Place::Abs(REGION_SIZE as u64 + 0x1000), 512, 0, 0);
    t.push_avail(0);
    run_malformed(sock, t);
}

/// The buffer starts in the memory and ends outside it.
pub open spec fn desc_len_past_region(sock: Seq<char>) -> Seq<Step> {
    malformed(
        sock,
        seq![
            Step::RawDesc {
                idx: 0,
                addr: Place::Abs((REGION_SIZE - 256) as u64),
                len: 4096,
                flags: 0,
                next: 0,
            },
            Step::PushAvail { head: 0 },
        ],
    )
}

pub fn t_desc_len_past_region(sock: &str, t: &mut Trial)
    requires
        old(t).wf(),
    ensures
        final(t)@ == bench::run(old(t)@, desc_len_past_region(sock@)),
        final(t).wf(),
{
    proof {
        reveal_with_fuel(bench::run_to, 3);
    }
    t.connect(sock);
    t.raw_desc(0, Place::Abs(REGION_SIZE as u64 - 256), 4096, 0, 0);
    t.push_avail(0);
    run_malformed(sock, t);
}

/// The length is as large as it can be.
pub open spec fn desc_huge_len(sock: Seq<char>) -> Seq<Step> {
    malformed(
        sock,
        seq![
            Step::Alloc { len: 64 },
            Step::RawDesc { idx: 0, addr: Place::Buf(0), len: 0xFFFF_FFFF, flags: 0, next: 0 },
            Step::PushAvail { head: 0 },
        ],
    )
}

pub fn t_desc_huge_len(sock: &str, t: &mut Trial)
    requires
        old(t).wf(),
    ensures
        final(t)@ == bench::run(old(t)@, desc_huge_len(sock@)),
        final(t).wf(),
{
    proof {
        reveal_with_fuel(bench::run_to, 4);
    }
    t.connect(sock);
    t.buffer(64);
    t.raw_desc(0, Place::Buf(0), 0xFFFF_FFFF, 0, 0);
    t.push_avail(0);
    run_malformed(sock, t);
}

/// A segment to be read follows one to be written.
pub open spec fn readable_after_writable(sock: Seq<char>) -> Seq<Step> {
    malformed(
        sock,
        seq![
            Step::Alloc { len: 64 },
            Step::RawDesc { idx: 0, addr: Place::Buf(0), len: 16, flags: WRITE_NEXT, next: 1 },
            Step::RawDesc { idx: 1, addr: Place::Buf(0), len: 16, flags: 0, next: 0 },
            Step::PushAvail { head: 0 },
        ],
    )
}

pub fn t_readable_after_writable(sock: &str, t: &mut Trial)
    requires
        old(t).wf(),
    ensures
        final(t)@ == bench::run(old(t)@, readable_after_writable(sock@)),
        final(t).wf(),
{
    proof {
        reveal_with_fuel(bench::run_to, 5);
    }
    t.connect(sock);
    t.buffer(64);
    t.raw_desc(0, Place::Buf(0), 16, WRITE_NEXT, 1);
    t.raw_desc(1, Place::Buf(0), 16, 0, 0);
    t.push_avail(0);
    run_malformed(sock, t);
}

/// A descriptor of a table goes on to another descriptor.
pub open spec fn indirect_with_next(sock: Seq<char>) -> Seq<Step> {
    malformed(
        sock,
        seq![
            Step::Alloc { len: 64 },
            Step::RawDesc { idx: 0, addr: Place::Buf(0), len: 16, flags: INDIRECT_NEXT, next: 1 },
            Step::PushAvail { head: 0 },
        ],
    )
}

pub fn t_indirect_with_next(sock: &str, t: &mut Trial)
    requires
        old(t).wf(),
    ensures
        final(t)@ == bench::run(old(t)@, indirect_with_next(sock@)),
        final(t).wf(),
{
    proof {
        reveal_with_fuel(bench::run_to, 4);
    }
    t.connect(sock);
    t.buffer(64);
    t.raw_desc(0, Place::Buf(0), 16, INDIRECT_NEXT, 1);
    t.push_avail(0);
    run_malformed(sock, t);
}

/// A table within a table.
pub open spec fn nested_indirect(sock: Seq<char>) -> Seq<Step> {
    malformed(
        sock,
        seq![
            Step::Alloc { len: 64 },
            Step::Alloc { len: 64 },
            Step::TableEntry {
                buf: 1,
                addr: Place::Buf(0),
                len: 16,
                flags: VRING_DESC_F_INDIRECT,
                next: 0,
            },
            Step::RawDesc {
                idx: 0,
                addr: Place::Buf(1),
                len: 16,
                flags: VRING_DESC_F_INDIRECT,
                next: 0,
            },
            Step::PushAvail { head: 0 },
        ],
    )
}

pub fn t_nested_indirect(sock: &str, t: &mut Trial)
    requires
        old(t).wf(),
    ensures
        final(t)@ == bench::run(old(t)@, nested_indirect(sock@)),
        final(t).wf(),
{
    proof {
        reveal_with_fuel(bench::run_to, 6);
    }
    t.connect(sock);
    t.buffer(64);
    t.buffer(64);
    t.table_entry(1, Place::Buf(0), 16, VRING_DESC_F_INDIRECT, 0);
    t.raw_desc(0, Place::Buf(1), 16, VRING_DESC_F_INDIRECT, 0);
    t.push_avail(0);
    run_malformed(sock, t);
}

/// A table that does not end with a descriptor.
pub open spec fn indirect_bad_table_len(sock: Seq<char>) -> Seq<Step> {
    malformed(
        sock,
        seq![
            Step::Alloc { len: 64 },
            Step::RawDesc {
                idx: 0,
                addr: Place::Buf(0),
                len: 20,
                flags: VRING_DESC_F_INDIRECT,
                next: 0,
            },
            Step::PushAvail { head: 0 },
        ],
    )
}

pub fn t_indirect_bad_table_len(sock: &str, t: &mut Trial)
    requires
        old(t).wf(),
    ensures
        final(t)@ == bench::run(old(t)@, indirect_bad_table_len(sock@)),
        final(t).wf(),
{
    proof {
        reveal_with_fuel(bench::run_to, 4);
    }
    t.connect(sock);
    t.buffer(64);
    t.raw_desc(0, Place::Buf(0), 20, VRING_DESC_F_INDIRECT, 0);
    t.push_avail(0);
    run_malformed(sock, t);
}

/// A head outside the table.
pub open spec fn avail_head_oob(sock: Seq<char>) -> Seq<Step> {
    malformed(
        sock,
        seq![Step::PushAvail { head: (QSZ + 5) as u16 }],
    )
}

pub fn t_avail_head_oob(sock: &str, t: &mut Trial)
    requires
        old(t).wf(),
    ensures
        final(t)@ == bench::run(old(t)@, avail_head_oob(sock@)),
        final(t).wf(),
{
    proof {
        reveal_with_fuel(bench::run_to, 2);
    }
    t.connect(sock);
    t.push_avail(QSZ + 5);
    run_malformed(sock, t);
}

// ---- bad requests: refused, and the ring goes on -------------------------------------

/// The identity does not fit into the buffer.
pub open spec fn getid_wrong_size(sock: Seq<char>) -> Seq<Step> {
    seq![stages::plain(sock)]
        + stages::staged_fetch(0, VIRTIO_BLK_T_GET_ID, Sector::At(0), 10)
        + seq![
            Step::Submit { chain: stages::reading_chain(0, 10) },
            Step::Status { buf: 2 },
            Step::CheckStatus {
                accept: Accept::Only(VIRTIO_BLK_S_IOERR),
                says: SaysOf::Status("get_id с буфером 10 байт: status="@, " (ожидался IOERR)"@),
            },
        ]
        + stages::good_read(Sector::At(0), SECTOR, "после get_id wrong-size"@)
}

pub fn t_getid_wrong_size(sock: &str, t: &mut Trial)
    requires
        old(t).wf(),
    ensures
        final(t)@ == bench::run(old(t)@, getid_wrong_size(sock@)),
        final(t).wf(),
{
    proof {
        reveal_with_fuel(bench::run_to, 4);
    }
    t.connect(sock);
    t.stage_fetch(0, VIRTIO_BLK_T_GET_ID, Sector::At(0), 10);
    t.submit_reading(0, 10);
    t.take_status(2);
    t.check_status(
        Accept::Only(VIRTIO_BLK_S_IOERR),
        SaysOf::Status("get_id с буфером 10 байт: status=", " (ожидался IOERR)"),
    );
    t.good_read(Sector::At(0), SECTOR, "после get_id wrong-size");
}

/// A discard of two runs of sectors, where one is supported.
pub open spec fn discard_multi_segment(sock: Seq<char>) -> Seq<Step> {
    seq![
        stages::plain(sock),
        Step::Require {
            what: Wanted::Feature(VIRTIO_BLK_F_DISCARD),
            text: "DISCARD не согласован"@,
        },
        Step::Alloc { len: 16 },
        Step::Header { buf: 0, req_type: VIRTIO_BLK_T_DISCARD, at: Sector::At(0) },
        Step::Alloc { len: 16 },
        Step::Zero { buf: 1, len: 16 },
        Step::Alloc { len: 16 },
        Step::Zero { buf: 2, len: 16 },
        Step::Alloc { len: 1 },
        Step::Put { buf: 3, at: 0, data: seq![STATUS_POISON] },
        Step::Submit {
            chain: seq![
                Seg::readable(0, 0, 16),
                Seg::readable(1, 0, 16),
                Seg::readable(2, 0, 16),
                Seg::writable(3, 0, 1),
            ],
        },
        Step::Status { buf: 3 },
        Step::CheckStatus {
            accept: Accept::Only(VIRTIO_BLK_S_IOERR),
            says: SaysOf::Status("discard с 2 сегментами: status="@, " (ожидался IOERR)"@),
        },
    ]
        + stages::good_read(Sector::At(0), SECTOR, "после discard multi-seg"@)
}

pub fn t_discard_multi_segment(sock: &str, t: &mut Trial)
    requires
        old(t).wf(),
    ensures
        final(t)@ == bench::run(old(t)@, discard_multi_segment(sock@)),
        final(t).wf(),
{
    proof {
        reveal_with_fuel(bench::run_to, 14);
    }
    let mark: Vec<u8> = vec![STATUS_POISON];
    assert(mark@ =~= seq![STATUS_POISON]);
    t.connect(sock);
    t.require(Wanted::Feature(VIRTIO_BLK_F_DISCARD), "DISCARD не согласован");
    t.buffer(16);
    t.header(0, VIRTIO_BLK_T_DISCARD, Sector::At(0));
    t.buffer(16);
    t.zero(1, 16);
    t.buffer(16);
    t.zero(2, 16);
    t.buffer(1);
    t.put(3, 0, mark.as_slice());
    let chain: [Seg; 4] = [
        Seg::readable(0, 0, 16),
        Seg::readable(1, 0, 16),
        Seg::readable(2, 0, 16),
        Seg::writable(3, 0, 1),
    ];
    assert(chain@ =~= seq![
        Seg::readable(0, 0, 16),
        Seg::readable(1, 0, 16),
        Seg::readable(2, 0, 16),
        Seg::writable(3, 0, 1),
    ]);
    t.submit(&chain);
    t.take_status(3);
    t.check_status(
        Accept::Only(VIRTIO_BLK_S_IOERR),
        SaysOf::Status("discard с 2 сегментами: status=", " (ожидался IOERR)"),
    );
    t.good_read(Sector::At(0), SECTOR, "после discard multi-seg");
}

/// A discard past the end.
pub open spec fn discard_beyond_capacity(sock: Seq<char>) -> Seq<Step> {
    seq![
        stages::plain(sock),
        Step::Require {
            what: Wanted::Feature(VIRTIO_BLK_F_DISCARD),
            text: "DISCARD не согласован"@,
        },
        Step::Require { what: Wanted::Capacity, text: "ёмкость неизвестна"@ },
        Step::Beyond { sectors: 1_000_000 },
        Step::Range {
            req_type: VIRTIO_BLK_T_DISCARD,
            at: Sector::Past(1_000_000),
            num_sectors: 8,
            unmap: false,
        },
        Step::CheckStatus {
            accept: Accept::Only(VIRTIO_BLK_S_IOERR),
            says: SaysOf::Status("discard за границей: status="@, " (ожидался IOERR)"@),
        },
    ]
        + stages::good_read(Sector::At(0), SECTOR, "после discard beyond-cap"@)
}

pub fn t_discard_beyond_capacity(sock: &str, t: &mut Trial)
    requires
        old(t).wf(),
    ensures
        final(t)@ == bench::run(old(t)@, discard_beyond_capacity(sock@)),
        final(t).wf(),
{
    proof {
        reveal_with_fuel(bench::run_to, 7);
    }
    t.connect(sock);
    t.require(Wanted::Feature(VIRTIO_BLK_F_DISCARD), "DISCARD не согласован");
    t.require(Wanted::Capacity, "ёмкость неизвестна");
    t.beyond(1_000_000);
    t.range(VIRTIO_BLK_T_DISCARD, Sector::Past(1_000_000), 8, false);
    t.check_status(
        Accept::Only(VIRTIO_BLK_S_IOERR),
        SaysOf::Status("discard за границей: status=", " (ожидался IOERR)"),
    );
    t.good_read(Sector::At(0), SECTOR, "после discard beyond-cap");
}

/// A read whose end does not fit into a number: a check of the sum alone would let it
/// pass.
pub open spec fn sector_overflow(sock: Seq<char>) -> Seq<Step> {
    seq![
        stages::plain(sock),
        Step::Read { at: Sector::At(u64::MAX), len: (2 * SECTOR) as usize },
        Step::CheckStatus {
            accept: Accept::Only(VIRTIO_BLK_S_IOERR),
            says: SaysOf::Status(
                "чтение sector=u64::MAX (+2): status="@,
                " (ожидался IOERR; наивная проверка пропустила бы из-за переполнения)"@,
            ),
        },
    ]
        + stages::good_read(Sector::At(0), SECTOR, "после overflow-запроса"@)
}

pub fn t_sector_overflow(sock: &str, t: &mut Trial)
    requires
        old(t).wf(),
    ensures
        final(t)@ == bench::run(old(t)@, sector_overflow(sock@)),
        final(t).wf(),
{
    proof {
        reveal_with_fuel(bench::run_to, 4);
    }
    t.connect(sock);
    t.read(Sector::At(u64::MAX), 2 * SECTOR);
    t.check_status(
        Accept::Only(VIRTIO_BLK_S_IOERR),
        SaysOf::Status(
            "чтение sector=u64::MAX (+2): status=",
            " (ожидался IOERR; наивная проверка пропустила бы из-за переполнения)",
        ),
    );
    t.good_read(Sector::At(0), SECTOR, "после overflow-запроса");
}

/// A discard of nothing gets a proper status.
pub open spec fn discard_zero_sectors(sock: Seq<char>) -> Seq<Step> {
    seq![
        stages::plain(sock),
        Step::Require {
            what: Wanted::Feature(VIRTIO_BLK_F_DISCARD),
            text: "DISCARD не согласован"@,
        },
        Step::Range {
            req_type: VIRTIO_BLK_T_DISCARD,
            at: Sector::At(WORK),
            num_sectors: 0,
            unmap: false,
        },
        Step::CheckStatus {
            accept: Accept::Known,
            says: SaysOf::Status("discard 0 секторов: недопустимый status="@, ""@),
        },
    ]
        + stages::good_read(Sector::At(0), SECTOR, "после discard 0 секторов"@)
}

pub fn t_discard_zero_sectors(sock: &str, t: &mut Trial)
    requires
        old(t).wf(),
    ensures
        final(t)@ == bench::run(old(t)@, discard_zero_sectors(sock@)),
        final(t).wf(),
{
    proof {
        reveal_with_fuel(bench::run_to, 5);
    }
    t.connect(sock);
    t.require(Wanted::Feature(VIRTIO_BLK_F_DISCARD), "DISCARD не согласован");
    t.range(VIRTIO_BLK_T_DISCARD, Sector::At(WORK), 0, false);
    t.check_status(Accept::Known, SaysOf::Status("discard 0 секторов: недопустимый status=", ""));
    t.good_read(Sector::At(0), SECTOR, "после discard 0 секторов");
}

/// A write to a device that is read only.
pub open spec fn readonly_write(sock: Seq<char>) -> Seq<Step> {
    let pattern = checks::pattern(0x77, SECTOR as nat);
    seq![
        stages::plain(sock),
        Step::Require {
            what: Wanted::Feature(VIRTIO_BLK_F_RO),
            text: "устройство не readonly (VIRTIO_BLK_F_RO не согласован)"@,
        },
        Step::Write { at: Sector::At(WORK), data: pattern },
        Step::CheckStatus {
            accept: Accept::Only(VIRTIO_BLK_S_IOERR),
            says: SaysOf::Status("запись на RO-устройство: status="@, " (ожидался IOERR)"@),
        },
    ]
}

pub fn t_readonly_write(sock: &str, t: &mut Trial)
    requires
        old(t).wf(),
    ensures
        final(t)@ == bench::run(old(t)@, readonly_write(sock@)),
        final(t).wf(),
{
    proof {
        reveal_with_fuel(bench::run_to, 5);
    }
    let pattern: Vec<u8> = pat(0x77, SECTOR);
    t.connect(sock);
    t.require(
        Wanted::Feature(VIRTIO_BLK_F_RO),
        "устройство не readonly (VIRTIO_BLK_F_RO не согласован)",
    );
    t.write(Sector::At(WORK), pattern.as_slice());
    t.check_status(
        Accept::Only(VIRTIO_BLK_S_IOERR),
        SaysOf::Status("запись на RO-устройство: status=", " (ожидался IOERR)"),
    );
}

} // verus!
