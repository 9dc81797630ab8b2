//! Scenarios of the protocol: configuration, the life of a session, and bad messages.
//!
//! For each scenario a function of the same name lists its steps.

use vstd::prelude::*;
use vstd::string::*;

use crate::bench;
use crate::bench::{Accept, SaysOf, Sector, Step, Wanted};
use crate::checks;
use crate::checks::{pat, WORK};
use crate::dev::{QSZ, SECTOR, VIRTIO_BLK_S_IOERR, VIRTIO_BLK_T_IN};
use crate::features::PROTOCOL_CONFIG;
use crate::link::ActionOf;
use crate::stages;
use crate::stages::{alive, numbered, reconnect_cooldown};
use crate::trial::Trial;

verus! {

broadcast use bench::run_concat;

// ---- configuration -----------------------------------------------------------

/// The capacity in the configuration is where reads end: the last sector can be read, and
/// a read that goes on past it is refused with an I/O error.
pub open spec fn config_capacity_consistency(sock: Seq<char>) -> Seq<Step> {
    seq![
        stages::plain(sock),
        Step::Require {
            what: Wanted::Capacity,
            text: "нет PROTOCOL_F_CONFIG — ёмкость неизвестна"@,
        },
    ]
        + stages::good_read(Sector::Last, SECTOR, "чтение последнего сектора из config"@)
        + seq![
            Step::Read { at: Sector::Last, len: (2 * SECTOR) as usize },
            Step::CheckStatus {
                accept: Accept::NotOk,
                says: SaysOf::Capacity(
                    "config.capacity="@,
                    " секторов, но чтение за границей вернуло OK"@,
                ),
            },
            Step::CheckStatus {
                accept: Accept::Only(VIRTIO_BLK_S_IOERR),
                says: SaysOf::Status(
                    "чтение за границей из config: status="@,
                    " (ожидался IOERR)"@,
                ),
            },
        ]
}

pub fn t_config_capacity_consistency(sock: &str, t: &mut Trial)
    requires
        old(t).wf(),
    ensures
        final(t)@ == bench::run(old(t)@, config_capacity_consistency(sock@)),
        final(t).wf(),
{
    proof {
        reveal_with_fuel(bench::run_to, 4);
    }
    t.connect(sock);
    t.require(Wanted::Capacity, "нет PROTOCOL_F_CONFIG — ёмкость неизвестна");
    t.good_read(Sector::Last, SECTOR, "чтение последнего сектора из config");
    t.read(Sector::Last, 2 * SECTOR);
    t.check_status(
        Accept::NotOk,
        SaysOf::Capacity("config.capacity=", " секторов, но чтение за границей вернуло OK"),
    );
    t.check_status(
        Accept::Only(VIRTIO_BLK_S_IOERR),
        SaysOf::Status("чтение за границей из config: status=", " (ожидался IOERR)"),
    );
}

/// A read of a part of the configuration brings the same bytes as a read of all of it.
pub open spec fn config_partial_read(sock: Seq<char>) -> Seq<Step> {
    seq![
        Step::Handshake { path: sock, do_mem_table: false },
        Step::Require {
            what: Wanted::Protocol(PROTOCOL_CONFIG),
            text: "PROTOCOL_F_CONFIG не согласован"@,
        },
        Step::Config { size: 60, label: "get_config(60)"@ },
        Step::Keep,
        Step::Config { size: 8, label: "get_config(8)"@ },
        Step::CheckConfig,
    ]
}

pub fn t_config_partial_read(sock: &str, t: &mut Trial)
    requires
        old(t).wf(),
    ensures
        final(t)@ == bench::run(old(t)@, config_partial_read(sock@)),
        final(t).wf(),
{
    proof {
        reveal_with_fuel(bench::run_to, 7);
    }
    t.handshake(sock, false);
    t.require(Wanted::Protocol(PROTOCOL_CONFIG), "PROTOCOL_F_CONFIG не согласован");
    t.config(60, "get_config(60)");
    t.keep();
    t.config(8, "get_config(8)");
    t.check_config();
}

/// The device offers the same features twice.
pub open spec fn get_features_stable(sock: Seq<char>) -> Seq<Step> {
    seq![
        Step::Handshake { path: sock, do_mem_table: false },
        Step::Features { label: "get_features a"@ },
        Step::Keep,
        Step::Features { label: "get_features b"@ },
        Step::CheckStable,
    ]
}

pub fn t_get_features_stable(sock: &str, t: &mut Trial)
    requires
        old(t).wf(),
    ensures
        final(t)@ == bench::run(old(t)@, get_features_stable(sock@)),
        final(t).wf(),
{
    proof {
        reveal_with_fuel(bench::run_to, 6);
    }
    t.handshake(sock, false);
    t.features("get_features a");
    t.keep();
    t.features("get_features b");
    t.check_stable();
}

// ---- life of a session ---------------------------------------------------------

/// What was written is read back in a later session.
pub open spec fn persistence_reconnect(sock: Seq<char>) -> Seq<Step> {
    let pattern = checks::pattern(0x9e, SECTOR as nat);
    seq![
        stages::plain(sock),
        Step::Need { sectors: 4 },
    ]
        + stages::good_write(Sector::At(WORK), pattern, "write (сессия A)"@)
        + seq![
            Step::Close,
            Step::Cooldown,
            stages::plain(sock),
        ]
        + stages::read_back(
            Sector::At(WORK),
            pattern,
            "read (сессия B)"@,
            "данные пережили reconnect"@,
        )
}

pub fn t_persistence_reconnect(sock: &str, t: &mut Trial)
    requires
        old(t).wf(),
    ensures
        final(t)@ == bench::run(old(t)@, persistence_reconnect(sock@)),
        final(t).wf(),
{
    proof {
        reveal_with_fuel(bench::run_to, 4);
    }
    let pattern: Vec<u8> = pat(0x9e, SECTOR);
    t.connect(sock);
    t.need(4);
    t.good_write(Sector::At(WORK), pattern.as_slice(), "write (сессия A)");
    t.close();
    reconnect_cooldown(t);
    t.connect(sock);
    t.read_back(
        Sector::At(WORK),
        pattern.as_slice(),
        "read (сессия B)",
        "данные пережили reconnect",
    );
}

/// Session `i` of a run of sessions, each but the first after a pause.
pub open spec fn cycle(sock: Seq<char>, i: int) -> Seq<Step> {
    (if i == 0 {
        Seq::empty()
    } else {
        seq![Step::Cooldown]
    }) + seq![
        stages::plain(sock),
        Step::ReadIn {
            tag: stages::with_number("цикл "@, i as nat) + ": "@,
            at: Sector::At(0),
            len: SECTOR,
        },
        Step::ExpectOk { label: stages::with_number("reconnect #"@, i as nat) },
        Step::Close,
    ]
}

/// The first `n` of these sessions.
pub open spec fn cycles(sock: Seq<char>, n: nat) -> Seq<Step>
    decreases n,
{
    if n == 0 {
        Seq::empty()
    } else {
        cycles(sock, (n - 1) as nat) + cycle(sock, n - 1)
    }
}

/// Five sessions, one after the other, are all served.
pub open spec fn reconnect_stress(sock: Seq<char>) -> Seq<Step> {
    cycles(sock, 5)
}

fn run_cycle(sock: &str, i: u64, t: &mut Trial)
    requires
        old(t).wf(),
    ensures
        final(t)@ == bench::run(old(t)@, cycle(sock@, i as int)),
        final(t).wf(),
{
    proof {
        reveal_with_fuel(bench::run_to, 5);
    }
    if i > 0 {
        reconnect_cooldown(t);
    }
    let mut tag = numbered("цикл ", i);
    tag.append(": ");
    let label = numbered("reconnect #", i);
    t.connect(sock);
    t.read_in(tag.as_str(), Sector::At(0), SECTOR);
    t.expect_ok(label.as_str());
    t.close();
}

pub fn t_reconnect_stress(sock: &str, t: &mut Trial)
    requires
        old(t).wf(),
    ensures
        final(t)@ == bench::run(old(t)@, reconnect_stress(sock@)),
        final(t).wf(),
{
    let mut i: u64 = 0;
    while i < 5
        invariant
            i <= 5,
            t.wf(),
            t@ == bench::run(old(t)@, cycles(sock@, i as nat)),
        decreases 5 - i,
    {
        run_cycle(sock, i, t);
        i = i + 1;
    }
}

// ---- bad messages ---------------------------------------------------------------
//
// The device may close the session. It has to serve the next one.

/// The session is claimed twice.
pub open spec fn double_set_owner(sock: Seq<char>) -> Seq<Step> {
    seq![
        Step::Handshake { path: sock, do_mem_table: false },
        Step::Try { act: ActionOf::SetOwner },
        Step::Close,
    ]
        + stages::liveness(sock)
}

pub fn t_double_set_owner(sock: &str, t: &mut Trial)
    requires
        old(t).wf(),
    ensures
        final(t)@ == bench::run(old(t)@, double_set_owner(sock@)),
        final(t).wf(),
{
    proof {
        reveal_with_fuel(bench::run_to, 4);
    }
    t.handshake(sock, false);
    t.attempt(ActionOf::SetOwner);
    t.close();
    alive(sock, t);
}

/// A ring without entries.
pub open spec fn vring_num_zero(sock: Seq<char>) -> Seq<Step> {
    seq![
        Step::Handshake { path: sock, do_mem_table: true },
        Step::Try { act: ActionOf::SetVringNum { num: 0 } },
        Step::Close,
    ]
        + stages::liveness(sock)
}

pub fn t_vring_num_zero(sock: &str, t: &mut Trial)
    requires
        old(t).wf(),
    ensures
        final(t)@ == bench::run(old(t)@, vring_num_zero(sock@)),
        final(t).wf(),
{
    proof {
        reveal_with_fuel(bench::run_to, 4);
    }
    t.handshake(sock, true);
    t.attempt(ActionOf::SetVringNum { num: 0 });
    t.close();
    alive(sock, t);
}

/// A ring whose size is not a power of two.
pub open spec fn vring_num_not_pow2(sock: Seq<char>) -> Seq<Step> {
    seq![
        Step::Handshake { path: sock, do_mem_table: true },
        Step::Try { act: ActionOf::SetVringNum { num: 100 } },
        Step::Close,
    ]
        + stages::liveness(sock)
}

pub fn t_vring_num_not_pow2(sock: &str, t: &mut Trial)
    requires
        old(t).wf(),
    ensures
        final(t)@ == bench::run(old(t)@, vring_num_not_pow2(sock@)),
        final(t).wf(),
{
    proof {
        reveal_with_fuel(bench::run_to, 4);
    }
    t.handshake(sock, true);
    t.attempt(ActionOf::SetVringNum { num: 100 });
    t.close();
    alive(sock, t);
}

/// A ring larger than any device has.
pub open spec fn vring_num_too_big(sock: Seq<char>) -> Seq<Step> {
    seq![
        Step::Handshake { path: sock, do_mem_table: true },
        Step::Try { act: ActionOf::SetVringNum { num: 32768 } },
        Step::Close,
    ]
        + stages::liveness(sock)
}

pub fn t_vring_num_too_big(sock: &str, t: &mut Trial)
    requires
        old(t).wf(),
    ensures
        final(t)@ == bench::run(old(t)@, vring_num_too_big(sock@)),
        final(t).wf(),
{
    proof {
        reveal_with_fuel(bench::run_to, 4);
    }
    t.handshake(sock, true);
    t.attempt(ActionOf::SetVringNum { num: 32768 });
    t.close();
    alive(sock, t);
}

/// A descriptor table at an odd address.
pub open spec fn vring_addr_unaligned(sock: Seq<char>) -> Seq<Step> {
    seq![
        Step::Handshake { path: sock, do_mem_table: true },
        Step::Try { act: ActionOf::SetVringNum { num: QSZ } },
        Step::TryRingAt { desc_off: 0x1001 },
        Step::Close,
    ]
        + stages::liveness(sock)
}

pub fn t_vring_addr_unaligned(sock: &str, t: &mut Trial)
    requires
        old(t).wf(),
    ensures
        final(t)@ == bench::run(old(t)@, vring_addr_unaligned(sock@)),
        final(t).wf(),
{
    proof {
        reveal_with_fuel(bench::run_to, 5);
    }
    t.handshake(sock, true);
    t.attempt(ActionOf::SetVringNum { num: QSZ });
    t.try_ring_at(0x1001);
    t.close();
    alive(sock, t);
}

/// A memory table without a region.
pub open spec fn mem_table_empty(sock: Seq<char>) -> Seq<Step> {
    seq![
        Step::Handshake { path: sock, do_mem_table: false },
        Step::Try { act: ActionOf::SetMemTable { region: None } },
        Step::Close,
    ]
        + stages::liveness(sock)
}

pub fn t_mem_table_empty(sock: &str, t: &mut Trial)
    requires
        old(t).wf(),
    ensures
        final(t)@ == bench::run(old(t)@, mem_table_empty(sock@)),
        final(t).wf(),
{
    proof {
        reveal_with_fuel(bench::run_to, 4);
    }
    t.handshake(sock, false);
    t.attempt(ActionOf::SetMemTable { region: None });
    t.close();
    alive(sock, t);
}

/// A ring in memory that was never announced.
pub open spec fn vring_before_mem(sock: Seq<char>) -> Seq<Step> {
    seq![
        Step::Handshake { path: sock, do_mem_table: false },
        Step::TrySetup,
        Step::Alloc { len: 16 },
        Step::Header { buf: 0, req_type: VIRTIO_BLK_T_IN, at: Sector::At(0) },
        Step::Alloc { len: SECTOR },
        Step::Alloc { len: 1 },
        Step::Post { chain: stages::reading_chain(0, SECTOR) },
        Step::Kick,
        Step::IgnoreUsed { timeout_ms: 300 },
        Step::Close,
    ]
        + stages::liveness(sock)
}

pub fn t_vring_before_mem(sock: &str, t: &mut Trial)
    requires
        old(t).wf(),
    ensures
        final(t)@ == bench::run(old(t)@, vring_before_mem(sock@)),
        final(t).wf(),
{
    proof {
        reveal_with_fuel(bench::run_to, 11);
    }
    t.handshake(sock, false);
    t.try_setup();
    t.buffer(16);
    t.header(0, VIRTIO_BLK_T_IN, Sector::At(0));
    t.buffer(SECTOR);
    t.buffer(1);
    t.post_reading(0, SECTOR);
    t.kick();
    t.ignore_used(300);
    t.close();
    alive(sock, t);
}

} // verus!
