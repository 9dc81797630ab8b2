//! Scenarios of a correct driver that hold the device to the letter of the protocol:
//! ring indices, signals, agreed features, and fields of the configuration.
//!
//! For each scenario a function of the same name lists its steps.

use vstd::prelude::*;

use crate::bench;
use crate::bench::{Accept, SaysOf, Sector, Step, Wanted};
use crate::checks;
use crate::checks::{pat, WORK};
use crate::dev::{
    QSZ, SECTOR, VIRTIO_BLK_S_UNSUPP, VIRTIO_BLK_T_DISCARD, VRING_AVAIL_F_NO_INTERRUPT,
};
use crate::features::{VIRTIO_BLK_F_BLK_SIZE, VIRTIO_BLK_F_DISCARD};
use crate::link::ActionOf;
use crate::stages;
use crate::stages::numbered;
use crate::trial::Trial;

verus! {

broadcast use bench::run_concat;

/// A ring index that was set is what the device has.
pub open spec fn vring_base_roundtrip(sock: Seq<char>) -> Seq<Step> {
    seq![
        Step::Handshake { path: sock, do_mem_table: true },
        Step::Call { act: ActionOf::SetVringNum { num: QSZ }, label: "set_vring_num"@ },
        Step::Call { act: ActionOf::SetVringBase { base: 7 }, label: "set_vring_base"@ },
        Step::Base,
        Step::CheckNumber {
            want: 7,
            before: "GET_VRING_BASE вернул "@,
            after: " после SET_VRING_BASE(7) — неверный учёт last_avail"@,
        },
    ]
}

pub fn t_vring_base_roundtrip(sock: &str, t: &mut Trial)
    requires
        old(t).wf(),
    ensures
        final(t)@ == bench::run(old(t)@, vring_base_roundtrip(sock@)),
        final(t).wf(),
{
    proof {
        reveal_with_fuel(bench::run_to, 6);
    }
    t.handshake(sock, true);
    t.call(ActionOf::SetVringNum { num: QSZ }, "set_vring_num");
    t.call(ActionOf::SetVringBase { base: 7 }, "set_vring_base");
    t.base();
    t.check_number(
        7,
        "GET_VRING_BASE вернул ",
        " после SET_VRING_BASE(7) — неверный учёт last_avail",
    );
}

/// The device counts the requests that it took: a wrong count loses or repeats requests
/// where a ring is stopped and started again.
pub open spec fn vring_base_tracks_consumed(sock: Seq<char>) -> Seq<Step> {
    seq![stages::plain(sock)]
        + stages::good_read(Sector::At(0), SECTOR, "read"@)
        + stages::good_read(Sector::At(0), SECTOR, "read"@)
        + stages::good_read(Sector::At(0), SECTOR, "read"@)
        + seq![
            Step::Base,
            Step::CheckNumber {
                want: 3,
                before: "GET_VRING_BASE="@,
                after: " после 3 запросов (ожидалось 3 = last_avail); неверный учёт сломает остановку/миграцию"@,
            },
        ]
}

pub fn t_vring_base_tracks_consumed(sock: &str, t: &mut Trial)
    requires
        old(t).wf(),
    ensures
        final(t)@ == bench::run(old(t)@, vring_base_tracks_consumed(sock@)),
        final(t).wf(),
{
    proof {
        reveal_with_fuel(bench::run_to, 3);
    }
    t.connect(sock);
    t.good_read(Sector::At(0), SECTOR, "read");
    t.good_read(Sector::At(0), SECTOR, "read");
    t.good_read(Sector::At(0), SECTOR, "read");
    t.base();
    t.check_number(
        3,
        "GET_VRING_BASE=",
        " после 3 запросов (ожидалось 3 = last_avail); неверный учёт сломает остановку/миграцию",
    );
}

/// The device signals a completion where signals are wanted.
pub open spec fn notify_signaled(sock: Seq<char>) -> Seq<Step> {
    seq![
        stages::plain(sock),
        Step::DrainCall,
    ]
        + stages::staged_read(0, Sector::At(0), SECTOR)
        + seq![
            Step::Post { chain: stages::reading_chain(0, SECTOR) },
            Step::Kick,
            Step::Await { text: "ЗАВИСАНИЕ"@ },
            Step::CheckHead { prefix: ""@ },
            Step::Signal {
                timeout_ms: 1000,
                want: true,
                text: "устройство НЕ уведомило (callfd) при разрешённых уведомлениях — драйвер завис бы"@,
            },
        ]
}

pub fn t_notify_signaled(sock: &str, t: &mut Trial)
    requires
        old(t).wf(),
    ensures
        final(t)@ == bench::run(old(t)@, notify_signaled(sock@)),
        final(t).wf(),
{
    proof {
        reveal_with_fuel(bench::run_to, 6);
    }
    t.connect(sock);
    t.drain_call();
    t.stage_read(0, Sector::At(0), SECTOR);
    t.post_reading(0, SECTOR);
    t.kick();
    t.wait("ЗАВИСАНИЕ");
    t.check_head("");
    t.signal(
        1000,
        true,
        "устройство НЕ уведомило (callfd) при разрешённых уведомлениях — драйвер завис бы",
    );
}

/// Where signals are not wanted, the device completes and does not signal.
pub open spec fn notify_suppressed(sock: Seq<char>) -> Seq<Step> {
    seq![
        stages::plain(sock),
        Step::AvailFlags { flags: VRING_AVAIL_F_NO_INTERRUPT },
        Step::DrainCall,
    ]
        + stages::staged_read(0, Sector::At(0), SECTOR)
        + seq![
            Step::Post { chain: stages::reading_chain(0, SECTOR) },
            Step::Kick,
            Step::Await { text: "ЗАВИСАНИЕ (обработка должна идти и при NO_INTERRUPT)"@ },
            Step::CheckHead { prefix: ""@ },
            Step::Signal {
                timeout_ms: 300,
                want: false,
                text: "устройство уведомило (callfd) ВОПРЕКИ VRING_AVAIL_F_NO_INTERRUPT — лишние прерывания"@,
            },
        ]
}

pub fn t_notify_suppressed(sock: &str, t: &mut Trial)
    requires
        old(t).wf(),
    ensures
        final(t)@ == bench::run(old(t)@, notify_suppressed(sock@)),
        final(t).wf(),
{
    proof {
        reveal_with_fuel(bench::run_to, 6);
    }
    t.connect(sock);
    t.avail_flags(VRING_AVAIL_F_NO_INTERRUPT);
    t.drain_call();
    t.stage_read(0, Sector::At(0), SECTOR);
    t.post_reading(0, SECTOR);
    t.kick();
    t.wait("ЗАВИСАНИЕ (обработка должна идти и при NO_INTERRUPT)");
    t.check_head("");
    t.signal(
        300,
        false,
        "устройство уведомило (callfd) ВОПРЕКИ VRING_AVAIL_F_NO_INTERRUPT — лишние прерывания",
    );
}

/// A discard that was offered but not acknowledged is refused.
pub open spec fn feature_gating_discard(sock: Seq<char>) -> Seq<Step> {
    seq![
        Step::Connect { path: sock, mask_out: VIRTIO_BLK_F_DISCARD, base: 0 },
        Step::Require {
            what: Wanted::Offered(VIRTIO_BLK_F_DISCARD),
            text: "устройство не предлагает DISCARD — гейтинг не проверить"@,
        },
        Step::Range {
            req_type: VIRTIO_BLK_T_DISCARD,
            at: Sector::At(WORK),
            num_sectors: 8,
            unmap: false,
        },
        Step::CheckStatus {
            accept: Accept::Only(VIRTIO_BLK_S_UNSUPP),
            says: SaysOf::Status(
                "DISCARD при НЕсогласованном F_DISCARD → status="@,
                " (ожидался UNSUPP=2). Устройство гейтит по ПРЕДЛОЖЕННЫМ, а не НЕГОЦИИРОВАННЫМ фичам — функциональная неточность (обрабатывает несогласованную команду)"@,
            ),
        },
    ]
}

pub fn t_feature_gating_discard(sock: &str, t: &mut Trial)
    requires
        old(t).wf(),
    ensures
        final(t)@ == bench::run(old(t)@, feature_gating_discard(sock@)),
        final(t).wf(),
{
    proof {
        reveal_with_fuel(bench::run_to, 5);
    }
    t.connect_masking(sock, VIRTIO_BLK_F_DISCARD);
    t.require(
        Wanted::Offered(VIRTIO_BLK_F_DISCARD),
        "устройство не предлагает DISCARD — гейтинг не проверить",
    );
    t.range(VIRTIO_BLK_T_DISCARD, Sector::At(WORK), 8, false);
    t.check_status(
        Accept::Only(VIRTIO_BLK_S_UNSUPP),
        SaysOf::Status(
            "DISCARD при НЕсогласованном F_DISCARD → status=",
            " (ожидался UNSUPP=2). Устройство гейтит по ПРЕДЛОЖЕННЫМ, а не НЕГОЦИИРОВАННЫМ фичам — функциональная неточность (обрабатывает несогласованную команду)",
        ),
    );
}

/// A block size is a power of two, and a sector at least.
pub open spec fn config_blk_size_sane(sock: Seq<char>) -> Seq<Step> {
    seq![
        stages::plain(sock),
        Step::Require {
            what: Wanted::Feature(VIRTIO_BLK_F_BLK_SIZE),
            text: "F_BLK_SIZE не согласован"@,
        },
        Step::BlkSizeSane,
    ]
}

pub fn t_config_blk_size_sane(sock: &str, t: &mut Trial)
    requires
        old(t).wf(),
    ensures
        final(t)@ == bench::run(old(t)@, config_blk_size_sane(sock@)),
        final(t).wf(),
{
    proof {
        reveal_with_fuel(bench::run_to, 4);
    }
    t.connect(sock);
    t.require(Wanted::Feature(VIRTIO_BLK_F_BLK_SIZE), "F_BLK_SIZE не согласован");
    t.check_blk_size();
}

/// `n` rounds of a write and a read of the same sector.
pub open spec fn rounds(n: nat) -> Seq<Step>
    decreases n,
{
    if n == 0 {
        Seq::empty()
    } else {
        let i = n - 1;
        let pattern = checks::pattern(0x5c, SECTOR as nat);
        rounds(i as nat) + stages::good_write(Sector::At(WORK), pattern, "write across wrap"@)
            + stages::read_back(
            Sector::At(WORK),
            pattern,
            "read across wrap"@,
            stages::with_number("wrap iter "@, i as nat),
        )
    }
}

/// Ring indices go on past their 16 bits: the ring starts 16 short of the end, and 48
/// requests follow.
pub open spec fn used_index_wrap(sock: Seq<char>) -> Seq<Step> {
    seq![
        Step::Connect { path: sock, mask_out: 0, base: 0xfff0 },
        Step::Need { sectors: 4 },
    ] + rounds(24)
}

pub fn t_used_index_wrap(sock: &str, t: &mut Trial)
    requires
        old(t).wf(),
    ensures
        final(t)@ == bench::run(old(t)@, used_index_wrap(sock@)),
        final(t).wf(),
{
    proof {
        reveal_with_fuel(bench::run_to, 3);
    }
    let pattern: Vec<u8> = pat(0x5c, SECTOR);
    t.connect_at_base(sock, 0xfff0);
    t.need(4);
    let ghost b = t@;
    let mut i: u8 = 0;
    while i < 24
        invariant
            i <= 24,
            pattern@ == checks::pattern(0x5c, SECTOR as nat),
            t.wf(),
            t@ == bench::run(b, rounds(i as nat)),
        decreases 24 - i,
    {
        t.good_write(Sector::At(WORK), pattern.as_slice(), "write across wrap");
        let label = numbered("wrap iter ", i as u64);
        t.read_back(
            Sector::At(WORK),
            pattern.as_slice(),
            "read across wrap",
            label.as_str(),
        );
        i = i + 1;
    }
}

} // verus!
