//! What a scenario says when it stops: each fault has a text of its own.

use vstd::prelude::*;
use vstd::string::*;

use crate::account;
use crate::bench;
use crate::bench::{Accept, Bench, SaysOf, StageOf, Step, Wanted};
use crate::checks;
use crate::deeds;
use crate::link::{Got, Rep, ReplyOf};
use crate::model;
use crate::passing;
use crate::registry;
use crate::registry::Case;
use crate::replay;
use crate::stages;
use crate::t_data;
use crate::t_proto;
use crate::text;

verus! {

/// A run of a scenario over the answers of a device.
pub struct Play {
    pub case: Case,
    pub sock: Seq<char>,
    pub delay_ms: u64,
    pub replies: Seq<Rep>,
}

impl Play {
    pub open spec fn steps(self) -> Seq<Step> {
        registry::script(self.case, self.sock)
    }

    /// The run before step `i`.
    pub open spec fn before(self, i: int) -> Bench {
        passing::at(
            bench::set_out(replay::opening(self.delay_ms, self.replies)),
            self.steps(),
            i,
        )
    }

    /// What the run comes to.
    pub open spec fn end(self) -> Bench {
        passing::run_of(self.case, self.sock, self.delay_ms, self.replies)
    }

    /// The run ends with this failure.
    pub open spec fn fails(self, m: Seq<char>) -> bool {
        self.end().stage == StageOf::Failed(m)
    }
}

proof fn lemma_end(p: Play, i: int)
    requires
        0 <= i < p.steps().len(),
        p.before(i).stage is Live,
        !(bench::taken(p.before(i), p.steps()[i]).stage is Live),
    ensures
        p.end() == bench::taken(p.before(i), p.steps()[i]),
{
    let start = bench::set_out(replay::opening(p.delay_ms, p.replies));
    reveal(passing::at);
    reveal(bench::step);
    lemma_stays(start, p.steps(), (i + 1) as nat, p.steps().len());
}

proof fn lemma_nowhere(heads: Seq<u16>, id: u32, i: int)
    requires
        0 <= i <= heads.len(),
        forall|j: int| 0 <= j < heads.len() ==> #[trigger] heads[j] != id,
    ensures
        bench::place_of(heads, id, i) is None,
    decreases heads.len() - i,
{
    if i < heads.len() {
        lemma_nowhere(heads, id, i + 1);
    }
}

proof fn lemma_somewhere(heads: Seq<u16>, id: u32, j: int, i: int)
    requires
        0 <= i <= j < heads.len(),
        heads[j] == id,
    ensures
        bench::place_of(heads, id, i) is Some,
    decreases j - i,
{
    if heads[i] != id {
        lemma_somewhere(heads, id, j, i + 1);
    }
}

proof fn lemma_hang(b: Bench)
    ensures
        model::hang(5000) == "ЗАВИСАНИЕ: нет завершения за 5000 мс"@,
{
    reveal_with_fuel(text::numeral, 5);
    reveal_strlit("ЗАВИСАНИЕ: нет завершения за 5000 мс");
    reveal_strlit("ЗАВИСАНИЕ: нет завершения за ");
    reveal_strlit(" мс");
    assert(text::decimal(5000) =~= seq!['5', '0', '0', '0']);
    assert(model::hang(5000) =~= "ЗАВИСАНИЕ: нет завершения за 5000 мс"@);
}

/// The text for a completion that does not count data and status.
pub open spec fn count_text(found: u32, len: nat) -> Seq<char> {
    "used.len="@ + text::decimal(found as nat) + " (спека: данные+status="@ + text::decimal(
        len + 1,
    ) + "). Значение "@ + text::decimal(len) + " (только данные) или 0 — известное нарушение"@
}

proof fn lemma_count_text(found: u32, len: nat)
    requires
        len < u32::MAX,
    ensures
        bench::used_len_of_read(found, len) == count_text(found, len),
{
    assert((len + 1) % 0x1_0000_0000 == len + 1);
}

proof fn lemma_hung_read(l: model::Line, sector: u64)
    requires
        account::answered(l.io, 0, ReplyOf::TimedOut),
    ensures
        model::blk_read(l, sector, 512).1 == Got::<(u8, Seq<u8>)>::Fault(model::hang(5000)),
{
}

proof fn lemma_far_sector(k: int, stride: int)
    requires
        0 <= k < 1000,
        0 <= stride < 1000,
    ensures
        model::wrap64(2048 + k * stride) == 2048 + k * stride,
        0 <= k * stride,
{
    assert(0 <= k * stride <= 1_000_000) by (nonlinear_arith)
        requires
            0 <= k < 1000,
            0 <= stride < 1000,
    ;
}

proof fn lemma_stays(start: Bench, steps: Seq<Step>, i: nat, k: nat)
    requires
        i <= k,
        !(bench::run_to(start, steps, i).stage is Live),
    ensures
        bench::run_to(start, steps, k) == bench::run_to(start, steps, i),
    decreases k,
{
    if k > i {
        lemma_stays(start, steps, i, (k - 1) as nat);
        reveal(bench::step);
    }
}

/// A status that is not OK is told, after the label of the request.
pub open spec fn status_is_told(p: Play, i: int, label: Seq<char>) -> bool {
    let b = p.before(i);
    b.stage is Live && b.status != 0
        ==> p.fails(label + ": status="@ + text::decimal(b.status as nat) + " (ожидался OK=0)"@)
}

pub proof fn lemma_status_is_told(p: Play, i: int, label: Seq<char>)
    requires
        0 <= i < p.steps().len(),
        p.steps()[i] == (Step::ExpectOk { label }),
    ensures
        status_is_told(p, i, label),
{
    let b = p.before(i);
    if b.stage is Live && b.status != 0 {
        lemma_end(p, i);
    }
}

/// Bytes that differ from those wanted are told, by the label and the place where they part.
pub open spec fn difference_is_told(p: Play, i: int, label: Seq<char>, want: Seq<u8>) -> bool {
    let b = p.before(i);
    b.stage is Live && b.data != want ==> exists|o: int| checks::parting(
        b.data,
        want,
    ) == Some(o) && #[trigger] p.fails(checks::differs(label, b.data, want, o))
}

pub proof fn lemma_difference_is_told(p: Play, i: int, label: Seq<char>, want: Seq<u8>)
    requires
        0 <= i < p.steps().len(),
        p.steps()[i] == (Step::Same { label, want }),
    ensures
        difference_is_told(p, i, label, want),
{
    let b = p.before(i);
    if b.stage is Live && b.data != want {
        checks::parting_tells_difference(b.data, want);
        let o = checks::parting(b.data, want)->Some_0;
        lemma_end(p, i);
        assert(p.fails(checks::differs(label, b.data, want, o)));
    }
}

/// A byte that is not zero is told, by the label and its place.
pub open spec fn rest_is_told(p: Play, i: int, label: Seq<char>) -> bool {
    let b = p.before(i);
    b.stage is Live && checks::nonzero(b.data, 0) is Some ==> p.fails(checks::not_zero(
        label,
        b.data,
        checks::nonzero(b.data, 0)->Some_0,
    ))
}

pub proof fn lemma_rest_is_told(p: Play, i: int, label: Seq<char>)
    requires
        0 <= i < p.steps().len(),
        p.steps()[i] == (Step::AllZero { label }),
    ensures
        rest_is_told(p, i, label),
{
    let b = p.before(i);
    if b.stage is Live && checks::nonzero(b.data, 0) is Some {
        lemma_end(p, i);
    }
}

/// A byte that should have been left alone is told, by the label and its place.
pub open spec fn touch_is_told(p: Play, i: int, label: Seq<char>, from: usize) -> bool {
    let b = p.before(i);
    let o = checks::touched(b.data, from as int);
    b.stage is Live && o is Some ==> p.fails(checks::was_touched(label, b.data, o->Some_0))
}

pub proof fn lemma_touch_is_told(p: Play, i: int, label: Seq<char>, from: usize)
    requires
        0 <= i < p.steps().len(),
        p.steps()[i] == (Step::Untouched { label, from }),
    ensures
        touch_is_told(p, i, label, from),
{
    let b = p.before(i);
    if b.stage is Live && checks::touched(b.data, from as int) is Some {
        lemma_end(p, i);
    }
}

/// A status that is not right is told, between two texts.
pub open spec fn wrong_status_is_told(
    p: Play,
    i: int,
    accept: Accept,
    first: Seq<char>,
    last: Seq<char>,
) -> bool {
    let b = p.before(i);
    b.stage is Live && !deeds::right_status(
        accept,
        b.status,
    ) ==> p.fails(first + text::decimal(b.status as nat) + last)
}

pub proof fn lemma_wrong_status_is_told(
    p: Play,
    i: int,
    accept: Accept,
    first: Seq<char>,
    last: Seq<char>,
)
    requires
        0 <= i < p.steps().len(),
        p.steps()[i] == (Step::CheckStatus { accept, says: SaysOf::Status(first, last) }),
    ensures
        wrong_status_is_told(p, i, accept, first, last),
{
    let b = p.before(i);
    if b.stage is Live && !deeds::right_status(accept, b.status) {
        lemma_end(p, i);
    }
}

/// A status that is not right is told by a text of its own.
pub open spec fn wrong_status_is_named(p: Play, i: int, accept: Accept, m: Seq<char>) -> bool {
    let b = p.before(i);
    b.stage is Live && !deeds::right_status(accept, b.status) ==> p.fails(m)
}

pub proof fn lemma_wrong_status_is_named(p: Play, i: int, accept: Accept, m: Seq<char>)
    requires
        0 <= i < p.steps().len(),
        p.steps()[i] == (Step::CheckStatus { accept, says: SaysOf::Plain(m) }),
    ensures
        wrong_status_is_named(p, i, accept, m),
{
    let b = p.before(i);
    if b.stage is Live && !deeds::right_status(accept, b.status) {
        lemma_end(p, i);
    }
}

/// A status that is not right is told with the capacity, between two texts.
pub open spec fn capacity_is_told(
    p: Play,
    i: int,
    accept: Accept,
    first: Seq<char>,
    last: Seq<char>,
) -> bool {
    let b = p.before(i);
    b.stage is Live && !deeds::right_status(
        accept,
        b.status,
    ) ==> p.fails(first + text::decimal(b.s.capacity_sectors as nat) + last)
}

pub proof fn lemma_capacity_is_told(
    p: Play,
    i: int,
    accept: Accept,
    first: Seq<char>,
    last: Seq<char>,
)
    requires
        0 <= i < p.steps().len(),
        p.steps()[i] == (Step::CheckStatus { accept, says: SaysOf::Capacity(first, last) }),
    ensures
        capacity_is_told(p, i, accept, first, last),
{
    let b = p.before(i);
    if b.stage is Live && !deeds::right_status(accept, b.status) {
        lemma_end(p, i);
    }
}

/// What the device lacks is told, and the scenario skipped.
pub open spec fn lack_is_told(p: Play, i: int, what: Wanted, m: Seq<char>) -> bool {
    let b = p.before(i);
    b.stage is Live && !deeds::has(b.s, what) ==> p.end().stage == StageOf::Skipped(m)
}

pub proof fn lemma_lack_is_told(p: Play, i: int, what: Wanted, m: Seq<char>)
    requires
        0 <= i < p.steps().len(),
        p.steps()[i] == (Step::Require { what, text: m }),
    ensures
        lack_is_told(p, i, what, m),
{
    let b = p.before(i);
    if b.stage is Live && !deeds::has(b.s, what) {
        lemma_end(p, i);
    }
}

/// A completion that does not come is told.
pub open spec fn hang_is_told(p: Play, i: int, m: Seq<char>) -> bool {
    let b = p.before(i);
    b.stage is Live && account::answered(b.io, 0, ReplyOf::TimedOut) ==> p.fails(m)
}

pub proof fn lemma_hang_is_told(p: Play, i: int, m: Seq<char>)
    requires
        0 <= i < p.steps().len(),
        p.steps()[i] == (Step::Await { text: m }),
    ensures
        hang_is_told(p, i, m),
{
    let b = p.before(i);
    if b.stage is Live && account::answered(b.io, 0, ReplyOf::TimedOut) {
        lemma_end(p, i);
    }
}

/// A completion of another chain is told, after a prefix.
pub open spec fn other_head_is_told(p: Play, i: int, prefix: Seq<char>) -> bool {
    let b = p.before(i);
    b.stage is Live && b.heads.len() > 0 && b.used.id != b.heads.last()
        ==> p.fails(prefix + "used.id="@ + text::decimal(b.used.id as nat) + " != head="@
            + text::decimal(b.heads.last() as nat))
}

pub proof fn lemma_other_head_is_told(p: Play, i: int, prefix: Seq<char>)
    requires
        0 <= i < p.steps().len(),
        p.steps()[i] == (Step::CheckHead { prefix }),
    ensures
        other_head_is_told(p, i, prefix),
{
    let b = p.before(i);
    if b.stage is Live && b.heads.len() > 0 && b.used.id != b.heads.last() {
        let id = "used.id="@ + text::decimal(b.used.id as nat) + " != head="@
            + text::decimal(b.heads.last() as nat);
        assert(prefix + id =~= prefix + "used.id="@ + text::decimal(b.used.id as nat)
            + " != head="@ + text::decimal(b.heads.last() as nat));
        lemma_end(p, i);
    }
}

/// A completion that should not come is told, by its head between two texts.
pub open spec fn extra_is_told(
    p: Play,
    i: int,
    ms: u64,
    first: Seq<char>,
    last: Seq<char>,
) -> bool {
    let b = p.before(i);
    b.stage is Live && (exists|id: u32| #[trigger] account::completed(b.io, 0, id as int))
        ==> exists|id: u32| #[trigger] account::completed(
            b.io,
            0,
            id as int,
        ) && p.fails(first + text::decimal(id as nat) + last)
}

pub proof fn lemma_extra_is_told(p: Play, i: int, ms: u64, first: Seq<char>, last: Seq<char>)
    requires
        0 <= i < p.steps().len(),
        p.steps()[i] == (Step::Silence { timeout_ms: ms, before: first, after: last }),
    ensures
        extra_is_told(p, i, ms, first, last),
{
    let b = p.before(i);
    if b.stage is Live && (exists|id: u32| #[trigger] account::completed(b.io, 0, id as int)) {
        let id = model::used_in(account::bytes_of(b.io, 0)).id;
        account::lemma_used(account::bytes_of(b.io, 0));
        assert(account::completed(b.io, 0, id as int));
        lemma_end(p, i);
    }
}

/// A notification that fails to come, or should not, is told.
pub open spec fn signal_is_told(p: Play, i: int, ms: u64, want: bool, m: Seq<char>) -> bool {
    let b = p.before(i);
    b.stage is Live && account::answered(b.io, 0, ReplyOf::Flag(!want)) ==> p.fails(m)
}

pub proof fn lemma_signal_is_told(p: Play, i: int, ms: u64, want: bool, m: Seq<char>)
    requires
        0 <= i < p.steps().len(),
        p.steps()[i] == (Step::Signal { timeout_ms: ms, want, text: m }),
    ensures
        signal_is_told(p, i, ms, want, m),
{
    let b = p.before(i);
    if b.stage is Live && account::answered(b.io, 0, ReplyOf::Flag(!want)) {
        lemma_end(p, i);
    }
}

/// A number that is not the one wanted is told, between two texts.
pub open spec fn number_is_told(
    p: Play,
    i: int,
    want: u64,
    first: Seq<char>,
    last: Seq<char>,
) -> bool {
    let b = p.before(i);
    b.stage is Live && b.number != want ==> p.fails(first + text::decimal(b.number as nat) + last)
}

pub proof fn lemma_number_is_told(p: Play, i: int, want: u64, first: Seq<char>, last: Seq<char>)
    requires
        0 <= i < p.steps().len(),
        p.steps()[i] == (Step::CheckNumber { want, before: first, after: last }),
    ensures
        number_is_told(p, i, want, first, last),
{
    let b = p.before(i);
    if b.stage is Live && b.number != want {
        lemma_end(p, i);
    }
}

/// A length that is not the one wanted is told, between two texts.
pub open spec fn length_is_told(
    p: Play,
    i: int,
    want: nat,
    first: Seq<char>,
    last: Seq<char>,
) -> bool {
    let b = p.before(i);
    b.stage is Live && b.data.len() != want ==> p.fails(first + text::decimal(b.data.len()) + last)
}

pub proof fn lemma_length_is_told(p: Play, i: int, want: nat, first: Seq<char>, last: Seq<char>)
    requires
        0 <= i < p.steps().len(),
        p.steps()[i] == (Step::Length { want, before: first, after: last }),
    ensures
        length_is_told(p, i, want, first, last),
{
    let b = p.before(i);
    if b.stage is Live && b.data.len() != want {
        lemma_end(p, i);
    }
}

/// A message that is refused is told, with the label of the message.
pub open spec fn refusal_is_told(p: Play, i: int, label: Seq<char>, m: Seq<char>) -> bool {
    let b = p.before(i);
    b.stage is Live && account::answered(
        b.io,
        0,
        ReplyOf::Refused(m),
    ) ==> p.fails(label + ": "@ + m)
}

pub proof fn lemma_refusal_is_told(p: Play, i: int, label: Seq<char>, m: Seq<char>)
    requires
        0 <= i < p.steps().len(),
        ({
            let s = p.steps()[i];
            ||| s matches Step::Call { label: w, .. } && w == label
            ||| s matches Step::Features { label: w } && w == label
            ||| s matches Step::Config { label: w, .. } && w == label
            ||| s is Base && label == "get_vring_base"@
        }),
    ensures
        refusal_is_told(p, i, label, m),
{
    let b = p.before(i);
    if b.stage is Live && account::answered(b.io, 0, ReplyOf::Refused(m)) {
        lemma_end(p, i);
    }
}

/// A capacity that is unknown or too small is told, and the scenario skipped.
pub open spec fn smallness_is_told(p: Play, i: int, sectors: u64) -> bool {
    let b = p.before(i);
    b.stage is Live && b.s.capacity_sectors < 2056 + sectors
        ==> p.end().stage == StageOf::Skipped(if b.s.capacity_sectors == 0 {
        "ёмкость неизвестна (нет PROTOCOL_F_CONFIG)"@
    } else {
        "диск мал: "@ + text::decimal(b.s.capacity_sectors as nat) + " секторов"@
    })
}

pub proof fn lemma_smallness_is_told(p: Play, i: int, sectors: u64)
    requires
        0 <= i < p.steps().len(),
        p.steps()[i] == (Step::Need { sectors }),
    ensures
        smallness_is_told(p, i, sectors),
{
    let b = p.before(i);
    if b.stage is Live && b.s.capacity_sectors < 2056 + sectors {
        lemma_end(p, i);
    }
}

/// A completion of a read that does not count data and status is told, with what it counts.
pub open spec fn wrong_count_is_told(p: Play, i: int, len: usize) -> bool {
    let b = p.before(i);
    b.stage is Live && len < u32::MAX && b.used.len != len + 1 ==> p.fails(count_text(
        b.used.len,
        len as nat,
    ))
}

pub proof fn lemma_wrong_count_is_told(p: Play, i: int, len: usize)
    requires
        0 <= i < p.steps().len(),
        p.steps()[i] == (Step::UsedLenOfRead { len }),
    ensures
        wrong_count_is_told(p, i, len),
{
    let b = p.before(i);
    if b.stage is Live && len < u32::MAX && b.used.len != len + 1 {
        lemma_count_text(b.used.len, len as nat);
        lemma_end(p, i);
    }
}

/// A completion of a write that counts more or less than the status is told, with what it counts.
pub open spec fn count_of_write_is_told(p: Play, i: int) -> bool {
    let b = p.before(i);
    b.stage is Live && b.used.len != 1
        ==> p.fails("used.len="@ + text::decimal(b.used.len as nat)
            + " для записи (спека: только status = 1 байт)"@)
}

pub proof fn lemma_count_of_write_is_told(p: Play, i: int)
    requires
        0 <= i < p.steps().len(),
        p.steps()[i] == Step::UsedLenOfWrite,
    ensures
        count_of_write_is_told(p, i),
{
    let b = p.before(i);
    if b.stage is Live && b.used.len != 1 {
        lemma_end(p, i);
    }
}

/// Features that have changed are told, as they were and as they are.
pub open spec fn change_of_features_is_told(p: Play, i: int) -> bool {
    let b = p.before(i);
    b.stage is Live && b.number != b.kept_number
        ==> p.fails("GET_FEATURES нестабилен: "@ + text::hexadecimal(b.kept_number as nat)
            + " != "@ + text::hexadecimal(b.number as nat))
}

pub proof fn lemma_change_of_features_is_told(p: Play, i: int)
    requires
        0 <= i < p.steps().len(),
        p.steps()[i] == Step::CheckStable,
    ensures
        change_of_features_is_told(p, i),
{
    let b = p.before(i);
    if b.stage is Live && b.number != b.kept_number {
        lemma_end(p, i);
    }
}

/// A configuration that is too short is told.
pub open spec fn short_configuration_is_told(p: Play, i: int) -> bool {
    let b = p.before(i);
    b.stage is Live && (b.data.len() < 8 || b.kept_data.len() < 8)
        ==> p.fails("config короче 8 байт"@)
}

pub proof fn lemma_short_configuration_is_told(p: Play, i: int)
    requires
        0 <= i < p.steps().len(),
        p.steps()[i] == Step::CheckConfig,
    ensures
        short_configuration_is_told(p, i),
{
    let b = p.before(i);
    if b.stage is Live && (b.data.len() < 8 || b.kept_data.len() < 8) {
        lemma_end(p, i);
    }
}

/// A part of the configuration that differs from the whole is told, with the bytes of both.
pub open spec fn change_of_configuration_is_told(p: Play, i: int) -> bool {
    let b = p.before(i);
    b.stage is Live && b.data.len() >= 8 && b.kept_data.len() >= 8
        && b.data.take(8) != b.kept_data.take(8)
            ==> p.fails("частичный GET_CONFIG(0,8) != первые 8 байт GET_CONFIG(0,60): ["@
                + text::byte_list(b.data.take(8)) + "] vs ["@
                    + text::byte_list(b.kept_data.take(8)) + "]"@)
}

pub proof fn lemma_change_of_configuration_is_told(p: Play, i: int)
    requires
        0 <= i < p.steps().len(),
        p.steps()[i] == Step::CheckConfig,
    ensures
        change_of_configuration_is_told(p, i),
{
    let b = p.before(i);
    if b.stage is Live && b.data.len() >= 8 && b.kept_data.len() >= 8
        && b.data.take(8) != b.kept_data.take(8) {
        lemma_end(p, i);
    }
}

/// A block size below that of a sector is told.
pub open spec fn small_blocks_are_told(p: Play, i: int) -> bool {
    let b = p.before(i);
    b.stage is Live && b.s.config_blk_size < 512
        ==> p.fails("config.blk_size="@ + text::decimal(b.s.config_blk_size as nat) + " (< 512)"@)
}

pub proof fn lemma_small_blocks_are_told(p: Play, i: int)
    requires
        0 <= i < p.steps().len(),
        p.steps()[i] == Step::BlkSizeSane,
    ensures
        small_blocks_are_told(p, i),
{
    let b = p.before(i);
    if b.stage is Live && b.s.config_blk_size < 512 {
        lemma_end(p, i);
    }
}

/// A block size that is no power of two is told.
pub open spec fn odd_blocks_are_told(p: Play, i: int) -> bool {
    let b = p.before(i);
    b.stage is Live && b.s.config_blk_size >= 512
        && b.s.config_blk_size & ((b.s.config_blk_size - 1) as u32) != 0
            ==> p.fails("config.blk_size="@ + text::decimal(b.s.config_blk_size as nat)
                + " не степень двойки"@)
}

pub proof fn lemma_odd_blocks_are_told(p: Play, i: int)
    requires
        0 <= i < p.steps().len(),
        p.steps()[i] == Step::BlkSizeSane,
    ensures
        odd_blocks_are_told(p, i),
{
    let b = p.before(i);
    if b.stage is Live && b.s.config_blk_size >= 512
        && b.s.config_blk_size & ((b.s.config_blk_size - 1) as u32) != 0 {
        lemma_end(p, i);
    }
}

/// Where a chain is submitted, a completion that does not come is told, with the time it had.
pub open spec fn missing_completion_is_told(p: Play, i: int) -> bool {
    let b = p.before(i);
    b.stage is Live && b.postable(p.steps()[i]->Submit_chain) && account::answered(
        b.io,
        0,
        ReplyOf::TimedOut,
    ) ==> p.fails("ЗАВИСАНИЕ: нет завершения за 5000 мс"@)
}

pub proof fn lemma_missing_completion_is_told(p: Play, i: int)
    requires
        0 <= i < p.steps().len(),
        p.steps()[i] is Submit,
    ensures
        missing_completion_is_told(p, i),
{
    let b = p.before(i);
    if b.stage is Live && b.postable(p.steps()[i]->Submit_chain) && account::answered(
        b.io,
        0,
        ReplyOf::TimedOut,
    ) {
        lemma_hang(b);
        lemma_end(p, i);
    }
}

/// A completion that does not come is told, with the number of those that came before it.
pub open spec fn count_so_far_is_told(
    p: Play,
    i: int,
    done: nat,
    of: nat,
    first: Seq<char>,
    last: Seq<char>,
) -> bool {
    let b = p.before(i);
    b.stage is Live && account::answered(
        b.io,
        0,
        ReplyOf::TimedOut,
    ) ==> p.fails(first + text::decimal(done) + "/"@ + text::decimal(of) + last)
}

pub proof fn lemma_count_so_far_is_told(
    p: Play,
    i: int,
    done: nat,
    of: nat,
    first: Seq<char>,
    last: Seq<char>,
)
    requires
        0 <= i < p.steps().len(),
        p.steps()[i] == (Step::Complete { done, of, before: first, after: last }),
    ensures
        count_so_far_is_told(p, i, done, of, first, last),
{
    let b = p.before(i);
    if b.stage is Live && account::answered(b.io, 0, ReplyOf::TimedOut) {
        lemma_end(p, i);
    }
}

/// A completion of a chain that was never posted is told.
pub open spec fn unknown_head_is_told(p: Play, i: int) -> bool {
    let b = p.before(i);
    b.stage is Live && (forall|j: int| 0 <= j < b.heads.len()
        ==> #[trigger] b.heads[j] != b.used.id)
            ==> p.fails("неизвестный used.id="@ + text::decimal(b.used.id as nat))
}

pub proof fn lemma_unknown_head_is_told(p: Play, i: int)
    requires
        0 <= i < p.steps().len(),
        p.steps()[i] == Step::Find,
    ensures
        unknown_head_is_told(p, i),
{
    let b = p.before(i);
    if b.stage is Live && (forall|j: int| 0 <= j < b.heads.len()
        ==> #[trigger] b.heads[j] != b.used.id) {
        lemma_nowhere(b.heads, b.used.id, 0);
        lemma_end(p, i);
    }
}

/// A second completion of a chain is told.
pub open spec fn second_completion_is_told(p: Play, i: int) -> bool {
    let b = p.before(i);
    b.stage is Live && b.reported.contains(b.used.id)
        && (exists|j: int| 0 <= j < b.heads.len() && #[trigger] b.heads[j] == b.used.id)
            ==> p.fails("повторный used.id="@ + text::decimal(b.used.id as nat))
}

pub proof fn lemma_second_completion_is_told(p: Play, i: int)
    requires
        0 <= i < p.steps().len(),
        p.steps()[i] == Step::Find,
    ensures
        second_completion_is_told(p, i),
{
    let b = p.before(i);
    if b.stage is Live && b.reported.contains(b.used.id)
        && (exists|j: int| 0 <= j < b.heads.len() && #[trigger] b.heads[j] == b.used.id) {
        let j = choose|j: int| 0 <= j < b.heads.len() && #[trigger] b.heads[j] == b.used.id;
        lemma_somewhere(b.heads, b.used.id, j, 0);
        lemma_end(p, i);
    }
}

/// A completion that does not come in one of several sessions is told, after a tag.
pub open spec fn missing_read_is_told(p: Play, i: int, tag: Seq<char>) -> bool {
    let b = p.before(i);
    b.stage is Live && model::room_for_three(b.s, 512) && account::answered(
        b.io,
        0,
        ReplyOf::TimedOut,
    ) ==> p.fails(tag + "ЗАВИСАНИЕ: нет завершения за 5000 мс"@)
}

pub proof fn lemma_missing_read_is_told(p: Play, i: int, tag: Seq<char>)
    requires
        0 <= i < p.steps().len(),
        (p.steps()[i] matches Step::ReadIn { tag: w, len, .. } && w == tag && len == 512),
    ensures
        missing_read_is_told(p, i, tag),
{
    let b = p.before(i);
    if b.stage is Live && model::room_for_three(b.s, 512) && account::answered(
        b.io,
        0,
        ReplyOf::TimedOut,
    ) {
        lemma_hang(b);
        lemma_hung_read(b.line(), b.sector(p.steps()[i]->ReadIn_at));
        lemma_end(p, i);
    }
}

/// A write among several that did not succeed is told, by its sector and its status.
pub open spec fn failed_write_is_told(p: Play, i: int, stride: u64, st: u8) -> bool {
    let b = p.before(i);
    b.stage is Live && b.number < 1000 && b.inside(
        b.number * 3 + 2,
        0,
        1,
    ) && account::brought(b.io, 0, seq![st]) && st != 0
        ==> p.fails("write sector "@ + text::decimal((2048 + b.number * stride) as nat)
            + " status="@ + text::decimal(st as nat))
}

pub proof fn lemma_failed_write_is_told(p: Play, i: int, stride: u64, st: u8)
    requires
        0 <= i < p.steps().len(),
        stride < 1000,
        p.steps()[i] == (Step::Written { stride }),
    ensures
        failed_write_is_told(p, i, stride, st),
{
    let b = p.before(i);
    if b.stage is Live && b.number < 1000 && b.inside(
        b.number * 3 + 2,
        0,
        1,
    ) && account::brought(b.io, 0, seq![st]) && st != 0 {
        lemma_far_sector(b.number as int, stride as int);
        lemma_end(p, i);
    }
}

/// A read among several that brought other bytes is told, by its sector.
pub open spec fn wrong_sector_is_told(p: Play, i: int, stride: u64, data: Seq<u8>) -> bool {
    let b = p.before(i);
    b.stage is Live && b.number < 1000 && b.inside(b.number * 3 + 1, 0, 512) && data.len() == 512
        && account::brought(b.io, 0, data) && data != checks::pattern(
            ((0x70 + b.number) % 256) as u8,
            512,
        ) ==> p.end().stage is Failed
            && (exists|o: int| #[trigger] p.fails(checks::differs(
                "read sector "@ + text::decimal((2048 + b.number * stride) as nat),
                data,
                checks::pattern(((0x70 + b.number) % 256) as u8, 512),
                o,
            )))
}

pub proof fn lemma_wrong_sector_is_told(p: Play, i: int, stride: u64, data: Seq<u8>)
    requires
        0 <= i < p.steps().len(),
        stride < 1000,
        p.steps()[i] == (Step::Fetched { stride, seed: 0x70 }),
    ensures
        wrong_sector_is_told(p, i, stride, data),
{
    let b = p.before(i);
    if b.stage is Live && b.number < 1000 && b.inside(b.number * 3 + 1, 0, 512)
        && data.len() == 512 && account::brought(b.io, 0, data) && data != checks::pattern(
            ((0x70 + b.number) % 256) as u8,
            512,
        ) {
        let want = checks::pattern(((0x70 + b.number) % 256) as u8, 512);
        lemma_far_sector(b.number as int, stride as int);
        checks::parting_tells_difference(data, want);
        let o = checks::parting(data, want)->Some_0;
        lemma_end(p, i);
        assert(p.fails(checks::differs(
            "read sector "@ + text::decimal((2048 + b.number * stride) as nat),
            data,
            want,
            o,
        )));
    }
}

/// Every fault has its text.
proof fn lemma_every_text(p: Play)
    ensures
        forall|i: int, label: Seq<char>|
            0 <= i < p.steps().len() && p.steps()[i] == (Step::ExpectOk { label })
                ==> #[trigger] status_is_told(p, i, label),
        forall|i: int, label: Seq<char>, want: Seq<u8>|
            0 <= i < p.steps().len() && p.steps()[i] == (Step::Same { label, want })
                ==> #[trigger] difference_is_told(p, i, label, want),
        forall|i: int, label: Seq<char>|
            0 <= i < p.steps().len() && p.steps()[i] == (Step::AllZero { label })
                ==> #[trigger] rest_is_told(p, i, label),
        forall|i: int, label: Seq<char>, from: usize|
            0 <= i < p.steps().len() && p.steps()[i] == (Step::Untouched { label, from })
                ==> #[trigger] touch_is_told(p, i, label, from),
        forall|i: int, accept: Accept, first: Seq<char>, last: Seq<char>|
            0 <= i < p.steps().len()
                && p.steps()[i] == (Step::CheckStatus { accept, says: SaysOf::Status(first, last) })
                    ==> #[trigger] wrong_status_is_told(p, i, accept, first, last),
        forall|i: int, accept: Accept, m: Seq<char>|
            0 <= i < p.steps().len()
                && p.steps()[i] == (Step::CheckStatus { accept, says: SaysOf::Plain(m) })
                    ==> #[trigger] wrong_status_is_named(p, i, accept, m),
        forall|i: int, accept: Accept, first: Seq<char>, last: Seq<char>|
            0 <= i < p.steps().len()
                && p.steps()[i] == (Step::CheckStatus { accept, says: SaysOf::Capacity(first, last) })
                    ==> #[trigger] capacity_is_told(p, i, accept, first, last),
        forall|i: int, what: Wanted, m: Seq<char>|
            0 <= i < p.steps().len() && p.steps()[i] == (Step::Require { what, text: m })
                ==> #[trigger] lack_is_told(p, i, what, m),
        forall|i: int, m: Seq<char>|
            0 <= i < p.steps().len() && p.steps()[i] == (Step::Await { text: m })
                ==> #[trigger] hang_is_told(p, i, m),
        forall|i: int, prefix: Seq<char>|
            0 <= i < p.steps().len() && p.steps()[i] == (Step::CheckHead { prefix })
                ==> #[trigger] other_head_is_told(p, i, prefix),
        forall|i: int, ms: u64, first: Seq<char>, last: Seq<char>|
            0 <= i < p.steps().len()
                && p.steps()[i] == (Step::Silence { timeout_ms: ms, before: first, after: last })
                    ==> #[trigger] extra_is_told(p, i, ms, first, last),
        forall|i: int, ms: u64, want: bool, m: Seq<char>|
            0 <= i < p.steps().len()
                && p.steps()[i] == (Step::Signal { timeout_ms: ms, want, text: m })
                    ==> #[trigger] signal_is_told(p, i, ms, want, m),
        forall|i: int, want: u64, first: Seq<char>, last: Seq<char>|
            0 <= i < p.steps().len()
                && p.steps()[i] == (Step::CheckNumber { want, before: first, after: last })
                    ==> #[trigger] number_is_told(p, i, want, first, last),
        forall|i: int, want: nat, first: Seq<char>, last: Seq<char>|
            0 <= i < p.steps().len()
                && p.steps()[i] == (Step::Length { want, before: first, after: last })
                    ==> #[trigger] length_is_told(p, i, want, first, last),
        forall|i: int, label: Seq<char>, m: Seq<char>|
            0 <= i < p.steps().len() && ({
            let s = p.steps()[i];
            ||| s matches Step::Call { label: w, .. } && w == label
            ||| s matches Step::Features { label: w } && w == label
            ||| s matches Step::Config { label: w, .. } && w == label
            ||| s is Base && label == "get_vring_base"@
        }) ==> #[trigger] refusal_is_told(p, i, label, m),
        forall|i: int, sectors: u64|
            0 <= i < p.steps().len() && p.steps()[i] == (Step::Need { sectors })
                ==> #[trigger] smallness_is_told(p, i, sectors),
        forall|i: int, len: usize|
            0 <= i < p.steps().len() && p.steps()[i] == (Step::UsedLenOfRead { len })
                ==> #[trigger] wrong_count_is_told(p, i, len),
        forall|i: int|
            0 <= i < p.steps().len() && p.steps()[i] == Step::UsedLenOfWrite
                ==> #[trigger] count_of_write_is_told(p, i),
        forall|i: int|
            0 <= i < p.steps().len() && p.steps()[i] == Step::CheckStable
                ==> #[trigger] change_of_features_is_told(p, i),
        forall|i: int|
            0 <= i < p.steps().len() && p.steps()[i] == Step::CheckConfig
                ==> #[trigger] short_configuration_is_told(p, i),
        forall|i: int|
            0 <= i < p.steps().len() && p.steps()[i] == Step::CheckConfig
                ==> #[trigger] change_of_configuration_is_told(p, i),
        forall|i: int|
            0 <= i < p.steps().len() && p.steps()[i] == Step::BlkSizeSane
                ==> #[trigger] small_blocks_are_told(p, i),
        forall|i: int|
            0 <= i < p.steps().len() && p.steps()[i] == Step::BlkSizeSane
                ==> #[trigger] odd_blocks_are_told(p, i),
        forall|i: int|
            0 <= i < p.steps().len() && p.steps()[i] is Submit
                ==> #[trigger] missing_completion_is_told(p, i),
        forall|i: int, done: nat, of: nat, first: Seq<char>, last: Seq<char>|
            0 <= i < p.steps().len()
                && p.steps()[i] == (Step::Complete { done, of, before: first, after: last })
                    ==> #[trigger] count_so_far_is_told(p, i, done, of, first, last),
        forall|i: int|
            0 <= i < p.steps().len() && p.steps()[i] == Step::Find
                ==> #[trigger] unknown_head_is_told(p, i),
        forall|i: int|
            0 <= i < p.steps().len() && p.steps()[i] == Step::Find
                ==> #[trigger] second_completion_is_told(p, i),
        forall|i: int, tag: Seq<char>|
            0 <= i < p.steps().len()
                && (p.steps()[i] matches Step::ReadIn { tag: w, len, .. } && w == tag
                    && len == 512) ==> #[trigger] missing_read_is_told(p, i, tag),
{
    assert forall|i: int, label: Seq<char>|
        0 <= i < p.steps().len()
            && p.steps()[i] == (Step::ExpectOk { label }) implies #[trigger] status_is_told(
                p,
                i,
                label,
            ) by {
        lemma_status_is_told(p, i, label);
    }
    assert forall|i: int, label: Seq<char>, want: Seq<u8>|
        0 <= i < p.steps().len()
            && p.steps()[i] == (Step::Same { label, want }) implies #[trigger] difference_is_told(
                p,
                i,
                label,
                want,
            ) by {
        lemma_difference_is_told(p, i, label, want);
    }
    assert forall|i: int, label: Seq<char>|
        0 <= i < p.steps().len()
            && p.steps()[i] == (Step::AllZero { label }) implies #[trigger] rest_is_told(
                p,
                i,
                label,
            ) by {
        lemma_rest_is_told(p, i, label);
    }
    assert forall|i: int, label: Seq<char>, from: usize|
        0 <= i < p.steps().len()
            && p.steps()[i] == (Step::Untouched { label, from }) implies #[trigger] touch_is_told(
                p,
                i,
                label,
                from,
            ) by {
        lemma_touch_is_told(p, i, label, from);
    }
    assert forall|i: int, accept: Accept, first: Seq<char>, last: Seq<char>|
        0 <= i < p.steps().len()
            && p.steps()[i] == (Step::CheckStatus { accept, says: SaysOf::Status(first, last) })
                implies #[trigger] wrong_status_is_told(p, i, accept, first, last) by {
        lemma_wrong_status_is_told(p, i, accept, first, last);
    }
    assert forall|i: int, accept: Accept, m: Seq<char>|
        0 <= i < p.steps().len()
            && p.steps()[i] == (Step::CheckStatus { accept, says: SaysOf::Plain(m) })
                implies #[trigger] wrong_status_is_named(p, i, accept, m) by {
        lemma_wrong_status_is_named(p, i, accept, m);
    }
    assert forall|i: int, accept: Accept, first: Seq<char>, last: Seq<char>|
        0 <= i < p.steps().len()
            && p.steps()[i] == (Step::CheckStatus { accept, says: SaysOf::Capacity(first, last) })
                implies #[trigger] capacity_is_told(p, i, accept, first, last) by {
        lemma_capacity_is_told(p, i, accept, first, last);
    }
    assert forall|i: int, what: Wanted, m: Seq<char>|
        0 <= i < p.steps().len()
            && p.steps()[i] == (Step::Require { what, text: m }) implies #[trigger] lack_is_told(
                p,
                i,
                what,
                m,
            ) by {
        lemma_lack_is_told(p, i, what, m);
    }
    assert forall|i: int, m: Seq<char>|
        0 <= i < p.steps().len()
            && p.steps()[i] == (Step::Await { text: m })
                implies #[trigger] hang_is_told(p, i, m) by {
        lemma_hang_is_told(p, i, m);
    }
    assert forall|i: int, prefix: Seq<char>|
        0 <= i < p.steps().len()
            && p.steps()[i] == (Step::CheckHead { prefix }) implies #[trigger] other_head_is_told(
                p,
                i,
                prefix,
            ) by {
        lemma_other_head_is_told(p, i, prefix);
    }
    assert forall|i: int, ms: u64, first: Seq<char>, last: Seq<char>|
        0 <= i < p.steps().len()
            && p.steps()[i] == (Step::Silence { timeout_ms: ms, before: first, after: last })
                implies #[trigger] extra_is_told(p, i, ms, first, last) by {
        lemma_extra_is_told(p, i, ms, first, last);
    }
    assert forall|i: int, ms: u64, want: bool, m: Seq<char>|
        0 <= i < p.steps().len()
            && p.steps()[i] == (Step::Signal { timeout_ms: ms, want, text: m })
                implies #[trigger] signal_is_told(p, i, ms, want, m) by {
        lemma_signal_is_told(p, i, ms, want, m);
    }
    assert forall|i: int, want: u64, first: Seq<char>, last: Seq<char>|
        0 <= i < p.steps().len()
            && p.steps()[i] == (Step::CheckNumber { want, before: first, after: last })
                implies #[trigger] number_is_told(p, i, want, first, last) by {
        lemma_number_is_told(p, i, want, first, last);
    }
    assert forall|i: int, want: nat, first: Seq<char>, last: Seq<char>|
        0 <= i < p.steps().len()
            && p.steps()[i] == (Step::Length { want, before: first, after: last })
                implies #[trigger] length_is_told(p, i, want, first, last) by {
        lemma_length_is_told(p, i, want, first, last);
    }
    assert forall|i: int, label: Seq<char>, m: Seq<char>|
        0 <= i < p.steps().len() && ({
            let s = p.steps()[i];
            ||| s matches Step::Call { label: w, .. } && w == label
            ||| s matches Step::Features { label: w } && w == label
            ||| s matches Step::Config { label: w, .. } && w == label
            ||| s is Base && label == "get_vring_base"@
        }) implies #[trigger] refusal_is_told(p, i, label, m) by {
        lemma_refusal_is_told(p, i, label, m);
    }
    assert forall|i: int, sectors: u64|
        0 <= i < p.steps().len()
            && p.steps()[i] == (Step::Need { sectors }) implies #[trigger] smallness_is_told(
                p,
                i,
                sectors,
            ) by {
        lemma_smallness_is_told(p, i, sectors);
    }
    assert forall|i: int, len: usize|
        0 <= i < p.steps().len()
            && p.steps()[i] == (Step::UsedLenOfRead { len })
                implies #[trigger] wrong_count_is_told(p, i, len) by {
        lemma_wrong_count_is_told(p, i, len);
    }
    assert forall|i: int|
        0 <= i < p.steps().len()
            && p.steps()[i] == Step::UsedLenOfWrite
                implies #[trigger] count_of_write_is_told(p, i) by {
        lemma_count_of_write_is_told(p, i);
    }
    assert forall|i: int|
        0 <= i < p.steps().len()
            && p.steps()[i] == Step::CheckStable
                implies #[trigger] change_of_features_is_told(p, i) by {
        lemma_change_of_features_is_told(p, i);
    }
    assert forall|i: int|
        0 <= i < p.steps().len()
            && p.steps()[i] == Step::CheckConfig
                implies #[trigger] short_configuration_is_told(p, i) by {
        lemma_short_configuration_is_told(p, i);
    }
    assert forall|i: int|
        0 <= i < p.steps().len()
            && p.steps()[i] == Step::CheckConfig
                implies #[trigger] change_of_configuration_is_told(p, i) by {
        lemma_change_of_configuration_is_told(p, i);
    }
    assert forall|i: int|
        0 <= i < p.steps().len()
            && p.steps()[i] == Step::BlkSizeSane implies #[trigger] small_blocks_are_told(p, i) by {
        lemma_small_blocks_are_told(p, i);
    }
    assert forall|i: int|
        0 <= i < p.steps().len()
            && p.steps()[i] == Step::BlkSizeSane implies #[trigger] odd_blocks_are_told(p, i) by {
        lemma_odd_blocks_are_told(p, i);
    }
    assert forall|i: int|
        0 <= i < p.steps().len()
            && p.steps()[i] is Submit implies #[trigger] missing_completion_is_told(p, i) by {
        lemma_missing_completion_is_told(p, i);
    }
    assert forall|i: int, done: nat, of: nat, first: Seq<char>, last: Seq<char>|
        0 <= i < p.steps().len()
            && p.steps()[i] == (Step::Complete { done, of, before: first, after: last })
                implies #[trigger] count_so_far_is_told(p, i, done, of, first, last) by {
        lemma_count_so_far_is_told(p, i, done, of, first, last);
    }
    assert forall|i: int|
        0 <= i < p.steps().len()
            && p.steps()[i] == Step::Find implies #[trigger] unknown_head_is_told(p, i) by {
        lemma_unknown_head_is_told(p, i);
    }
    assert forall|i: int|
        0 <= i < p.steps().len()
            && p.steps()[i] == Step::Find implies #[trigger] second_completion_is_told(p, i) by {
        lemma_second_completion_is_told(p, i);
    }
    assert forall|i: int, tag: Seq<char>|
        0 <= i < p.steps().len()
            && (p.steps()[i] matches Step::ReadIn { tag: w, len, .. } && w == tag
                && len == 512) implies #[trigger] missing_read_is_told(p, i, tag) by {
        lemma_missing_read_is_told(p, i, tag);
    }
}

/// What the scenario `read0` says when it stops.
pub proof fn read0_says(p: Play)
    requires
        p.case == Case::Read0,
    ensures
        status_is_told(p, 2, "read sector 0"@),
{
    assert(p.steps().len() == 3);
    lemma_every_text(p);
}

/// What the scenario `roundtrip` says when it stops.
pub proof fn roundtrip_says(p: Play)
    requires
        p.case == Case::Roundtrip,
    ensures
        smallness_is_told(p, 1, p.steps()[1]->Need_sectors),
        status_is_told(p, 3, "write"@),
        status_is_told(p, 5, "read"@),
        difference_is_told(p, 6, "roundtrip"@, p.steps()[6]->Same_want),
{
    assert(p.steps().len() == 7);
    lemma_every_text(p);
}

/// What the scenario `multiblock` says when it stops.
pub proof fn multiblock_says(p: Play)
    requires
        p.case == Case::Multiblock,
    ensures
        smallness_is_told(p, 1, p.steps()[1]->Need_sectors),
        status_is_told(p, 3, "write blk"@),
        status_is_told(p, 5, "write blk"@),
        status_is_told(p, 7, "write blk"@),
        status_is_told(p, 9, "write blk"@),
        status_is_told(p, 11, "read blk"@),
        difference_is_told(p, 12, stages::with_number("blk "@, 0), p.steps()[12]->Same_want),
        status_is_told(p, 14, "read blk"@),
        difference_is_told(p, 15, stages::with_number("blk "@, 1), p.steps()[15]->Same_want),
        status_is_told(p, 17, "read blk"@),
        difference_is_told(p, 18, stages::with_number("blk "@, 2), p.steps()[18]->Same_want),
        status_is_told(p, 20, "read blk"@),
        difference_is_told(p, 21, stages::with_number("blk "@, 3), p.steps()[21]->Same_want),
{
    reveal_with_fuel(t_data::blocks_written, 5);
    reveal_with_fuel(t_data::blocks_read, 5);
    assert(p.steps().len() == 22);
    lemma_every_text(p);
}

/// What the scenario `overwrite` says when it stops.
pub proof fn overwrite_says(p: Play)
    requires
        p.case == Case::Overwrite,
    ensures
        smallness_is_told(p, 1, p.steps()[1]->Need_sectors),
        status_is_told(p, 3, "write A"@),
        status_is_told(p, 5, "write B"@),
        status_is_told(p, 7, "read"@),
        difference_is_told(p, 8, "overwrite"@, p.steps()[8]->Same_want),
{
    assert(p.steps().len() == 9);
    lemma_every_text(p);
}

/// What the scenario `persistence_reconnect` says when it stops.
pub proof fn persistence_reconnect_says(p: Play)
    requires
        p.case == Case::PersistenceReconnect,
    ensures
        smallness_is_told(p, 1, p.steps()[1]->Need_sectors),
        status_is_told(p, 3, "write (сессия A)"@),
        status_is_told(p, 8, "read (сессия B)"@),
        difference_is_told(p, 9, "данные пережили reconnect"@, p.steps()[9]->Same_want),
{
    assert(p.steps().len() == 10);
    lemma_every_text(p);
}

/// What the scenario `hdr_split2` says when it stops.
pub proof fn hdr_split2_says(p: Play)
    requires
        p.case == Case::HdrSplit2,
    ensures
        smallness_is_told(p, 1, p.steps()[1]->Need_sectors),
        missing_completion_is_told(p, 8),
        status_is_told(p, 10, "write (split hdr 8+8)"@),
        status_is_told(p, 12, "read back"@),
        difference_is_told(p, 13, "split-hdr data"@, p.steps()[13]->Same_want),
{
    assert(p.steps().len() == 14);
    lemma_every_text(p);
}

/// What the scenario `hdr_split4` says when it stops.
pub proof fn hdr_split4_says(p: Play)
    requires
        p.case == Case::HdrSplit4,
    ensures
        smallness_is_told(p, 1, p.steps()[1]->Need_sectors),
        missing_completion_is_told(p, 8),
        status_is_told(p, 10, "write (split hdr 4x4)"@),
        status_is_told(p, 12, "read back"@),
        difference_is_told(p, 13, "split4-hdr data"@, p.steps()[13]->Same_want),
{
    assert(p.steps().len() == 14);
    lemma_every_text(p);
}

/// What the scenario `hdr_data_contiguous_write` says when it stops.
pub proof fn hdr_data_contiguous_write_says(p: Play)
    requires
        p.case == Case::HdrDataContiguousWrite,
    ensures
        smallness_is_told(p, 1, p.steps()[1]->Need_sectors),
        missing_completion_is_told(p, 7),
        status_is_told(p, 9, "write (hdr+data в одном desc)"@),
        status_is_told(p, 11, "read back"@),
        difference_is_told(p, 12, "contiguous hdr+data"@, p.steps()[12]->Same_want),
{
    assert(p.steps().len() == 13);
    lemma_every_text(p);
}

/// What the scenario `scatter_write` says when it stops.
pub proof fn scatter_write_says(p: Play)
    requires
        p.case == Case::ScatterWrite,
    ensures
        smallness_is_told(p, 1, p.steps()[1]->Need_sectors),
        missing_completion_is_told(p, 8),
        status_is_told(p, 10, "scatter write"@),
        status_is_told(p, 12, "read back"@),
        difference_is_told(p, 13, "scatter-write data"@, p.steps()[13]->Same_want),
{
    assert(p.steps().len() == 14);
    lemma_every_text(p);
}

/// What the scenario `scatter_read` says when it stops.
pub proof fn scatter_read_says(p: Play)
    requires
        p.case == Case::ScatterRead,
    ensures
        smallness_is_told(p, 1, p.steps()[1]->Need_sectors),
        status_is_told(p, 3, "prewrite"@),
        missing_completion_is_told(p, 10),
        status_is_told(p, 12, "scatter read"@),
        difference_is_told(p, 14, "scatter-read data"@, p.steps()[14]->Same_want),
{
    assert(p.steps().len() == 15);
    lemma_every_text(p);
}

/// What the scenario `uneven_segments` says when it stops.
pub proof fn uneven_segments_says(p: Play)
    requires
        p.case == Case::UnevenSegments,
    ensures
        smallness_is_told(p, 1, p.steps()[1]->Need_sectors),
        status_is_told(p, 3, "prewrite"@),
        missing_completion_is_told(p, 10),
        status_is_told(p, 12, "uneven read"@),
        difference_is_told(p, 14, "uneven-seg data"@, p.steps()[14]->Same_want),
{
    assert(p.steps().len() == 15);
    lemma_every_text(p);
}

/// What the scenario `many_segments` says when it stops.
pub proof fn many_segments_says(p: Play)
    requires
        p.case == Case::ManySegments,
    ensures
        smallness_is_told(p, 1, p.steps()[1]->Need_sectors),
        status_is_told(p, 3, "prewrite"@),
        missing_completion_is_told(p, 10),
        status_is_told(p, 12, "64-seg read"@),
        difference_is_told(p, 14, "64-seg data"@, p.steps()[14]->Same_want),
{
    assert(p.steps().len() == 15);
    lemma_every_text(p);
}

/// What the scenario `status_oversized` says when it stops.
pub proof fn status_oversized_says(p: Play)
    requires
        p.case == Case::StatusOversized,
    ensures
        smallness_is_told(p, 1, p.steps()[1]->Need_sectors),
        status_is_told(p, 3, "prewrite"@),
        missing_completion_is_told(p, 10),
        status_is_told(p, 12, "status в 4-байтном desc"@),
        touch_is_told(p, 14, "status в 4-байтном desc"@, 1),
        difference_is_told(p, 16, "oversized-status data"@, p.steps()[16]->Same_want),
{
    assert(p.steps().len() == 17);
    lemma_every_text(p);
}

/// What the scenario `indirect_rw` says when it stops.
pub proof fn indirect_rw_says(p: Play)
    requires
        p.case == Case::IndirectRw,
    ensures
        lack_is_told(p, 1, p.steps()[1]->what, "INDIRECT_DESC не согласован"@),
        smallness_is_told(p, 2, p.steps()[2]->Need_sectors),
        status_is_told(p, 4, "prewrite"@),
        hang_is_told(p, 14, "ЗАВИСАНИЕ (indirect)"@),
        other_head_is_told(p, 15, "indirect: "@),
        status_is_told(p, 17, "indirect read"@),
        difference_is_told(p, 19, "indirect data"@, p.steps()[19]->Same_want),
{
    assert(p.steps().len() == 20);
    lemma_every_text(p);
}

/// What the scenario `flush` says when it stops.
pub proof fn flush_says(p: Play)
    requires
        p.case == Case::Flush,
    ensures
        lack_is_told(p, 1, p.steps()[1]->what, "FLUSH не согласован"@),
        smallness_is_told(p, 2, p.steps()[2]->Need_sectors),
        status_is_told(p, 4, "write"@),
        status_is_told(p, 6, "flush"@),
{
    assert(p.steps().len() == 7);
    lemma_every_text(p);
}

/// What the scenario `flush_nonzero_sector` says when it stops.
pub proof fn flush_nonzero_sector_says(p: Play)
    requires
        p.case == Case::FlushNonzeroSector,
    ensures
        lack_is_told(p, 1, p.steps()[1]->what, "FLUSH не согласован"@),
        missing_completion_is_told(p, 6),
        status_is_told(p, 8, "flush с ненулевым sector (должен игнорироваться)"@),
{
    assert(p.steps().len() == 9);
    lemma_every_text(p);
}

/// What the scenario `get_id` says when it stops.
pub proof fn get_id_says(p: Play)
    requires
        p.case == Case::GetId,
    ensures
        status_is_told(p, 2, "get_id"@),
        length_is_told(p, 3, 20, "get_id вернул "@, " байт (ожидалось 20)"@),
{
    assert(p.steps().len() == 4);
    lemma_every_text(p);
}

/// What the scenario `write_zeroes` says when it stops.
pub proof fn write_zeroes_says(p: Play)
    requires
        p.case == Case::WriteZeroes,
    ensures
        lack_is_told(p, 1, p.steps()[1]->what, "WRITE_ZEROES не согласован"@),
        smallness_is_told(p, 2, p.steps()[2]->Need_sectors),
        status_is_told(p, 4, "prewrite"@),
        status_is_told(p, 6, "write-zeroes"@),
        status_is_told(p, 8, "read after zeroes"@),
        rest_is_told(p, 9, "зона после write-zeroes"@),
{
    assert(p.steps().len() == 10);
    lemma_every_text(p);
}

/// What the scenario `write_zeroes_unmap` says when it stops.
pub proof fn write_zeroes_unmap_says(p: Play)
    requires
        p.case == Case::WriteZeroesUnmap,
    ensures
        lack_is_told(p, 1, p.steps()[1]->what, "WRITE_ZEROES не согласован"@),
        smallness_is_told(p, 2, p.steps()[2]->Need_sectors),
        status_is_told(p, 4, "prewrite"@),
        status_is_told(p, 6, "write-zeroes -u"@),
        status_is_told(p, 8, "read after zeroes -u"@),
        rest_is_told(p, 9, "зона после write-zeroes -u"@),
{
    assert(p.steps().len() == 10);
    lemma_every_text(p);
}

/// What the scenario `discard` says when it stops.
pub proof fn discard_says(p: Play)
    requires
        p.case == Case::Discard,
    ensures
        lack_is_told(p, 1, p.steps()[1]->what, "DISCARD не согласован"@),
        smallness_is_told(p, 2, p.steps()[2]->Need_sectors),
        status_is_told(p, 4, "prewrite"@),
        status_is_told(p, 6, "discard"@),
        status_is_told(p, 8, "rewrite after discard"@),
        status_is_told(p, 10, "read after rewrite"@),
        difference_is_told(p, 11, "перезапись после discard"@, p.steps()[11]->Same_want),
{
    assert(p.steps().len() == 12);
    lemma_every_text(p);
}

/// What the scenario `unsupported_type` says when it stops.
pub proof fn unsupported_type_says(p: Play)
    requires
        p.case == Case::UnsupportedType,
    ensures
        missing_completion_is_told(p, 7),
        wrong_status_is_told(
            p,
            9,
            p.steps()[9]->CheckStatus_accept,
            "неизвестный тип: status="@,
            " (ожидался UNSUPP=2 или IOERR=1)"@,
        ),
        status_is_told(p, 11, "после неизвестного типа"@),
{
    assert(p.steps().len() == 12);
    lemma_every_text(p);
}

/// What the scenario `zero_length_read` says when it stops.
pub proof fn zero_length_read_says(p: Play)
    requires
        p.case == Case::ZeroLengthRead,
    ensures
        missing_completion_is_told(p, 5),
        wrong_status_is_told(
            p,
            7,
            p.steps()[7]->CheckStatus_accept,
            "0-длина: недопустимый status="@,
            ""@,
        ),
        status_is_told(p, 9, "после 0-длины жив"@),
{
    assert(p.steps().len() == 10);
    lemma_every_text(p);
}

/// What the scenario `nonmultiple_length` says when it stops.
pub proof fn nonmultiple_length_says(p: Play)
    requires
        p.case == Case::NonmultipleLength,
    ensures
        smallness_is_told(p, 1, p.steps()[1]->Need_sectors),
        missing_completion_is_told(p, 8),
        wrong_status_is_told(
            p,
            10,
            p.steps()[10]->CheckStatus_accept,
            "некратная длина: недопустимый status="@,
            ""@,
        ),
        status_is_told(p, 12, "после некратной длины жив"@),
{
    assert(p.steps().len() == 13);
    lemma_every_text(p);
}

/// What the scenario `last_sector` says when it stops.
pub proof fn last_sector_says(p: Play)
    requires
        p.case == Case::LastSector,
    ensures
        smallness_is_told(p, 1, p.steps()[1]->Need_sectors),
        status_is_told(p, 3, "write last"@),
        status_is_told(p, 5, "read last"@),
        difference_is_told(p, 6, "last-sector"@, p.steps()[6]->Same_want),
{
    assert(p.steps().len() == 7);
    lemma_every_text(p);
}

/// What the scenario `cross_capacity` says when it stops.
pub proof fn cross_capacity_says(p: Play)
    requires
        p.case == Case::CrossCapacity,
    ensures
        smallness_is_told(p, 1, p.steps()[1]->Need_sectors),
        wrong_status_is_named(
            p,
            3,
            p.steps()[3]->CheckStatus_accept,
            "чтение через границу вернуло OK (ожидался IOERR)"@,
        ),
        wrong_status_is_told(
            p,
            4,
            p.steps()[4]->CheckStatus_accept,
            "чтение через границу: status="@,
            " (ожидался IOERR)"@,
        ),
        status_is_told(p, 6, "после cross-границы жив"@),
{
    assert(p.steps().len() == 7);
    lemma_every_text(p);
}

/// What the scenario `beyond_capacity` says when it stops.
pub proof fn beyond_capacity_says(p: Play)
    requires
        p.case == Case::BeyondCapacity,
    ensures
        smallness_is_told(p, 1, p.steps()[1]->Need_sectors),
        wrong_status_is_named(
            p,
            4,
            p.steps()[4]->CheckStatus_accept,
            "чтение за пределами ёмкости вернуло OK (ожидался IOERR)"@,
        ),
        wrong_status_is_told(
            p,
            5,
            p.steps()[5]->CheckStatus_accept,
            "чтение за пределами ёмкости: status="@,
            " (ожидался IOERR)"@,
        ),
        status_is_told(p, 7, "после out-of-range жив"@),
{
    assert(p.steps().len() == 8);
    lemma_every_text(p);
}

/// What the scenario `large_request` says when it stops.
pub proof fn large_request_says(p: Play)
    requires
        p.case == Case::LargeRequest,
    ensures
        smallness_is_told(p, 1, p.steps()[1]->Need_sectors),
        missing_completion_is_told(p, 8),
        status_is_told(p, 10, "large write"@),
        status_is_told(p, 12, "large read"@),
        difference_is_told(p, 13, "large-request"@, p.steps()[13]->Same_want),
{
    assert(p.steps().len() == 14);
    lemma_every_text(p);
}

/// What the scenario `used_len_read` says when it stops.
pub proof fn used_len_read_says(p: Play)
    requires
        p.case == Case::UsedLenRead,
    ensures
        smallness_is_told(p, 1, p.steps()[1]->Need_sectors),
        status_is_told(p, 3, "prewrite"@),
        missing_completion_is_told(p, 10),
        status_is_told(p, 12, "read"@),
        wrong_count_is_told(p, 13, 4096),
{
    assert(p.steps().len() == 14);
    lemma_every_text(p);
}

/// What the scenario `used_len_write` says when it stops.
pub proof fn used_len_write_says(p: Play)
    requires
        p.case == Case::UsedLenWrite,
    ensures
        smallness_is_told(p, 1, p.steps()[1]->Need_sectors),
        missing_completion_is_told(p, 8),
        status_is_told(p, 10, "write"@),
        count_of_write_is_told(p, 11),
{
    assert(p.steps().len() == 12);
    lemma_every_text(p);
}

/// What the scenario `spurious_kick` says when it stops.
pub proof fn spurious_kick_says(p: Play)
    requires
        p.case == Case::SpuriousKick,
    ensures
        extra_is_told(p, 2, 300, "устройство вернуло завершение id="@, " без запроса"@),
        status_is_told(p, 4, "после spurious kick"@),
{
    assert(p.steps().len() == 5);
    lemma_every_text(p);
}

/// What the scenario `no_interrupt` says when it stops.
pub proof fn no_interrupt_says(p: Play)
    requires
        p.case == Case::NoInterrupt,
    ensures
        smallness_is_told(p, 1, p.steps()[1]->Need_sectors),
        status_is_told(p, 3, "prewrite"@),
        status_is_told(p, 6, "read с NO_INTERRUPT"@),
        difference_is_told(p, 7, "данные с NO_INTERRUPT"@, p.steps()[7]->Same_want),
{
    assert(p.steps().len() == 8);
    lemma_every_text(p);
}

/// What the scenario `double_kick` says when it stops.
pub proof fn double_kick_says(p: Play)
    requires
        p.case == Case::DoubleKick,
    ensures
        smallness_is_told(p, 1, p.steps()[1]->Need_sectors),
        status_is_told(p, 3, "prewrite"@),
        hang_is_told(p, 13, "ЗАВИСАНИЕ (double kick)"@),
        other_head_is_told(p, 14, ""@),
        extra_is_told(p, 15, 300, "двойное завершение: лишний used id="@, ""@),
        difference_is_told(p, 17, "double-kick data"@, p.steps()[17]->Same_want),
{
    assert(p.steps().len() == 18);
    lemma_every_text(p);
}

/// What the scenario `config_capacity_consistency` says when it stops.
pub proof fn config_capacity_consistency_says(p: Play)
    requires
        p.case == Case::ConfigCapacityConsistency,
    ensures
        lack_is_told(p, 1, p.steps()[1]->what, "нет PROTOCOL_F_CONFIG — ёмкость неизвестна"@),
        status_is_told(p, 3, "чтение последнего сектора из config"@),
        capacity_is_told(
            p,
            5,
            p.steps()[5]->CheckStatus_accept,
            "config.capacity="@,
            " секторов, но чтение за границей вернуло OK"@,
        ),
        wrong_status_is_told(
            p,
            6,
            p.steps()[6]->CheckStatus_accept,
            "чтение за границей из config: status="@,
            " (ожидался IOERR)"@,
        ),
{
    assert(p.steps().len() == 7);
    lemma_every_text(p);
}

/// What the scenario `config_partial_read` says when it stops.
pub proof fn config_partial_read_says(p: Play)
    requires
        p.case == Case::ConfigPartialRead,
    ensures
        lack_is_told(p, 1, p.steps()[1]->what, "PROTOCOL_F_CONFIG не согласован"@),
        forall|m: Seq<char>| #[trigger] refusal_is_told(p, 2, "get_config(60)"@, m),
        forall|m: Seq<char>| #[trigger] refusal_is_told(p, 4, "get_config(8)"@, m),
        short_configuration_is_told(p, 5),
        change_of_configuration_is_told(p, 5),
{
    assert(p.steps().len() == 6);
    lemma_every_text(p);
}

/// What the scenario `get_features_stable` says when it stops.
pub proof fn get_features_stable_says(p: Play)
    requires
        p.case == Case::GetFeaturesStable,
    ensures
        forall|m: Seq<char>| #[trigger] refusal_is_told(p, 1, "get_features a"@, m),
        forall|m: Seq<char>| #[trigger] refusal_is_told(p, 3, "get_features b"@, m),
        change_of_features_is_told(p, 4),
{
    assert(p.steps().len() == 5);
    lemma_every_text(p);
}

/// What the scenario `desc_next_oob` says when it stops.
pub proof fn desc_next_oob_says(p: Play)
    requires
        p.case == Case::DescNextOob,
    ensures
        wrong_status_is_told(
            p,
            10,
            p.steps()[10]->CheckStatus_accept,
            "liveness-чтение вернуло status="@,
            ""@,
        ),
{
    assert(p.steps().len() == 11);
    lemma_every_text(p);
}

/// What the scenario `desc_loop` says when it stops.
pub proof fn desc_loop_says(p: Play)
    requires
        p.case == Case::DescLoop,
    ensures
        wrong_status_is_told(
            p,
            11,
            p.steps()[11]->CheckStatus_accept,
            "liveness-чтение вернуло status="@,
            ""@,
        ),
{
    assert(p.steps().len() == 12);
    lemma_every_text(p);
}

/// What the scenario `desc_addr_oob` says when it stops.
pub proof fn desc_addr_oob_says(p: Play)
    requires
        p.case == Case::DescAddrOob,
    ensures
        wrong_status_is_told(
            p,
            9,
            p.steps()[9]->CheckStatus_accept,
            "liveness-чтение вернуло status="@,
            ""@,
        ),
{
    assert(p.steps().len() == 10);
    lemma_every_text(p);
}

/// What the scenario `desc_len_past_region` says when it stops.
pub proof fn desc_len_past_region_says(p: Play)
    requires
        p.case == Case::DescLenPastRegion,
    ensures
        wrong_status_is_told(
            p,
            9,
            p.steps()[9]->CheckStatus_accept,
            "liveness-чтение вернуло status="@,
            ""@,
        ),
{
    assert(p.steps().len() == 10);
    lemma_every_text(p);
}

/// What the scenario `desc_huge_len` says when it stops.
pub proof fn desc_huge_len_says(p: Play)
    requires
        p.case == Case::DescHugeLen,
    ensures
        wrong_status_is_told(
            p,
            10,
            p.steps()[10]->CheckStatus_accept,
            "liveness-чтение вернуло status="@,
            ""@,
        ),
{
    assert(p.steps().len() == 11);
    lemma_every_text(p);
}

/// What the scenario `readable_after_writable` says when it stops.
pub proof fn readable_after_writable_says(p: Play)
    requires
        p.case == Case::ReadableAfterWritable,
    ensures
        wrong_status_is_told(
            p,
            11,
            p.steps()[11]->CheckStatus_accept,
            "liveness-чтение вернуло status="@,
            ""@,
        ),
{
    assert(p.steps().len() == 12);
    lemma_every_text(p);
}

/// What the scenario `indirect_with_next` says when it stops.
pub proof fn indirect_with_next_says(p: Play)
    requires
        p.case == Case::IndirectWithNext,
    ensures
        wrong_status_is_told(
            p,
            10,
            p.steps()[10]->CheckStatus_accept,
            "liveness-чтение вернуло status="@,
            ""@,
        ),
{
    assert(p.steps().len() == 11);
    lemma_every_text(p);
}

/// What the scenario `nested_indirect` says when it stops.
pub proof fn nested_indirect_says(p: Play)
    requires
        p.case == Case::NestedIndirect,
    ensures
        wrong_status_is_told(
            p,
            12,
            p.steps()[12]->CheckStatus_accept,
            "liveness-чтение вернуло status="@,
            ""@,
        ),
{
    assert(p.steps().len() == 13);
    lemma_every_text(p);
}

/// What the scenario `indirect_bad_table_len` says when it stops.
pub proof fn indirect_bad_table_len_says(p: Play)
    requires
        p.case == Case::IndirectBadTableLen,
    ensures
        wrong_status_is_told(
            p,
            10,
            p.steps()[10]->CheckStatus_accept,
            "liveness-чтение вернуло status="@,
            ""@,
        ),
{
    assert(p.steps().len() == 11);
    lemma_every_text(p);
}

/// What the scenario `avail_head_oob` says when it stops.
pub proof fn avail_head_oob_says(p: Play)
    requires
        p.case == Case::AvailHeadOob,
    ensures
        wrong_status_is_told(
            p,
            8,
            p.steps()[8]->CheckStatus_accept,
            "liveness-чтение вернуло status="@,
            ""@,
        ),
{
    assert(p.steps().len() == 9);
    lemma_every_text(p);
}

/// What the scenario `vring_base_roundtrip` says when it stops.
pub proof fn vring_base_roundtrip_says(p: Play)
    requires
        p.case == Case::VringBaseRoundtrip,
    ensures
        forall|m: Seq<char>| #[trigger] refusal_is_told(p, 1, "set_vring_num"@, m),
        forall|m: Seq<char>| #[trigger] refusal_is_told(p, 2, "set_vring_base"@, m),
        forall|m: Seq<char>| #[trigger] refusal_is_told(p, 3, "get_vring_base"@, m),
        number_is_told(
            p,
            4,
            p.steps()[4]->CheckNumber_want,
            "GET_VRING_BASE вернул "@,
            " после SET_VRING_BASE(7) — неверный учёт last_avail"@,
        ),
{
    assert(p.steps().len() == 5);
    lemma_every_text(p);
}

/// What the scenario `vring_base_tracks_consumed` says when it stops.
pub proof fn vring_base_tracks_consumed_says(p: Play)
    requires
        p.case == Case::VringBaseTracksConsumed,
    ensures
        status_is_told(p, 2, "read"@),
        status_is_told(p, 4, "read"@),
        status_is_told(p, 6, "read"@),
        forall|m: Seq<char>| #[trigger] refusal_is_told(p, 7, "get_vring_base"@, m),
        number_is_told(
            p,
            8,
            p.steps()[8]->CheckNumber_want,
            "GET_VRING_BASE="@,
            " после 3 запросов (ожидалось 3 = last_avail); неверный учёт сломает остановку/миграцию"@,
        ),
{
    assert(p.steps().len() == 9);
    lemma_every_text(p);
}

/// What the scenario `notify_signaled` says when it stops.
pub proof fn notify_signaled_says(p: Play)
    requires
        p.case == Case::NotifySignaled,
    ensures
        hang_is_told(p, 10, "ЗАВИСАНИЕ"@),
        other_head_is_told(p, 11, ""@),
        signal_is_told(
            p,
            12,
            p.steps()[12]->Signal_timeout_ms,
            p.steps()[12]->Signal_want,
            "устройство НЕ уведомило (callfd) при разрешённых уведомлениях — драйвер завис бы"@,
        ),
{
    assert(p.steps().len() == 13);
    lemma_every_text(p);
}

/// What the scenario `notify_suppressed` says when it stops.
pub proof fn notify_suppressed_says(p: Play)
    requires
        p.case == Case::NotifySuppressed,
    ensures
        hang_is_told(p, 11, "ЗАВИСАНИЕ (обработка должна идти и при NO_INTERRUPT)"@),
        other_head_is_told(p, 12, ""@),
        signal_is_told(
            p,
            13,
            p.steps()[13]->Signal_timeout_ms,
            p.steps()[13]->Signal_want,
            "устройство уведомило (callfd) ВОПРЕКИ VRING_AVAIL_F_NO_INTERRUPT — лишние прерывания"@,
        ),
{
    assert(p.steps().len() == 14);
    lemma_every_text(p);
}

/// What the scenario `feature_gating_discard` says when it stops.
pub proof fn feature_gating_discard_says(p: Play)
    requires
        p.case == Case::FeatureGatingDiscard,
    ensures
        lack_is_told(
            p,
            1,
            p.steps()[1]->what,
            "устройство не предлагает DISCARD — гейтинг не проверить"@,
        ),
        wrong_status_is_told(
            p,
            3,
            p.steps()[3]->CheckStatus_accept,
            "DISCARD при НЕсогласованном F_DISCARD → status="@,
            " (ожидался UNSUPP=2). Устройство гейтит по ПРЕДЛОЖЕННЫМ, а не НЕГОЦИИРОВАННЫМ фичам — функциональная неточность (обрабатывает несогласованную команду)"@,
        ),
{
    assert(p.steps().len() == 4);
    lemma_every_text(p);
}

/// What the scenario `config_blk_size_sane` says when it stops.
pub proof fn config_blk_size_sane_says(p: Play)
    requires
        p.case == Case::ConfigBlkSizeSane,
    ensures
        lack_is_told(p, 1, p.steps()[1]->what, "F_BLK_SIZE не согласован"@),
        small_blocks_are_told(p, 2),
        odd_blocks_are_told(p, 2),
{
    assert(p.steps().len() == 3);
    lemma_every_text(p);
}

/// What the scenario `getid_wrong_size` says when it stops.
pub proof fn getid_wrong_size_says(p: Play)
    requires
        p.case == Case::GetidWrongSize,
    ensures
        missing_completion_is_told(p, 7),
        wrong_status_is_told(
            p,
            9,
            p.steps()[9]->CheckStatus_accept,
            "get_id с буфером 10 байт: status="@,
            " (ожидался IOERR)"@,
        ),
        status_is_told(p, 11, "после get_id wrong-size"@),
{
    assert(p.steps().len() == 12);
    lemma_every_text(p);
}

/// What the scenario `discard_multi_segment` says when it stops.
pub proof fn discard_multi_segment_says(p: Play)
    requires
        p.case == Case::DiscardMultiSegment,
    ensures
        lack_is_told(p, 1, p.steps()[1]->what, "DISCARD не согласован"@),
        missing_completion_is_told(p, 10),
        wrong_status_is_told(
            p,
            12,
            p.steps()[12]->CheckStatus_accept,
            "discard с 2 сегментами: status="@,
            " (ожидался IOERR)"@,
        ),
        status_is_told(p, 14, "после discard multi-seg"@),
{
    assert(p.steps().len() == 15);
    lemma_every_text(p);
}

/// What the scenario `discard_beyond_capacity` says when it stops.
pub proof fn discard_beyond_capacity_says(p: Play)
    requires
        p.case == Case::DiscardBeyondCapacity,
    ensures
        lack_is_told(p, 1, p.steps()[1]->what, "DISCARD не согласован"@),
        lack_is_told(p, 2, p.steps()[2]->what, "ёмкость неизвестна"@),
        wrong_status_is_told(
            p,
            5,
            p.steps()[5]->CheckStatus_accept,
            "discard за границей: status="@,
            " (ожидался IOERR)"@,
        ),
        status_is_told(p, 7, "после discard beyond-cap"@),
{
    assert(p.steps().len() == 8);
    lemma_every_text(p);
}

/// What the scenario `sector_overflow` says when it stops.
pub proof fn sector_overflow_says(p: Play)
    requires
        p.case == Case::SectorOverflow,
    ensures
        wrong_status_is_told(
            p,
            2,
            p.steps()[2]->CheckStatus_accept,
            "чтение sector=u64::MAX (+2): status="@,
            " (ожидался IOERR; наивная проверка пропустила бы из-за переполнения)"@,
        ),
        status_is_told(p, 4, "после overflow-запроса"@),
{
    assert(p.steps().len() == 5);
    lemma_every_text(p);
}

/// What the scenario `discard_zero_sectors` says when it stops.
pub proof fn discard_zero_sectors_says(p: Play)
    requires
        p.case == Case::DiscardZeroSectors,
    ensures
        lack_is_told(p, 1, p.steps()[1]->what, "DISCARD не согласован"@),
        wrong_status_is_told(
            p,
            3,
            p.steps()[3]->CheckStatus_accept,
            "discard 0 секторов: недопустимый status="@,
            ""@,
        ),
        status_is_told(p, 5, "после discard 0 секторов"@),
{
    assert(p.steps().len() == 6);
    lemma_every_text(p);
}

/// What the scenario `readonly_write` says when it stops.
pub proof fn readonly_write_says(p: Play)
    requires
        p.case == Case::ReadonlyWrite,
    ensures
        lack_is_told(
            p,
            1,
            p.steps()[1]->what,
            "устройство не readonly (VIRTIO_BLK_F_RO не согласован)"@,
        ),
        wrong_status_is_told(
            p,
            3,
            p.steps()[3]->CheckStatus_accept,
            "запись на RO-устройство: status="@,
            " (ожидался IOERR)"@,
        ),
{
    assert(p.steps().len() == 4);
    lemma_every_text(p);
}

/// What the scenario `reconnect_stress` says when it stops.
pub proof fn reconnect_stress_says(p: Play)
    requires
        p.case == Case::ReconnectStress,
    ensures
        missing_read_is_told(p, 1, stages::with_number("цикл "@, 0) + ": "@),
        status_is_told(p, 2, stages::with_number("reconnect #"@, 0)),
        missing_read_is_told(p, 6, stages::with_number("цикл "@, 1) + ": "@),
        status_is_told(p, 7, stages::with_number("reconnect #"@, 1)),
        missing_read_is_told(p, 11, stages::with_number("цикл "@, 2) + ": "@),
        status_is_told(p, 12, stages::with_number("reconnect #"@, 2)),
        missing_read_is_told(p, 16, stages::with_number("цикл "@, 3) + ": "@),
        status_is_told(p, 17, stages::with_number("reconnect #"@, 3)),
        missing_read_is_told(p, 21, stages::with_number("цикл "@, 4) + ": "@),
        status_is_told(p, 22, stages::with_number("reconnect #"@, 4)),
{
    reveal_with_fuel(t_proto::cycles, 6);
    assert(p.steps().len() == 24);
    lemma_every_text(p);
}

/// What the scenario `double_set_owner` says when it stops.
pub proof fn double_set_owner_says(p: Play)
    requires
        p.case == Case::DoubleSetOwner,
    ensures
        wrong_status_is_told(
            p,
            6,
            p.steps()[6]->CheckStatus_accept,
            "liveness-чтение вернуло status="@,
            ""@,
        ),
{
    assert(p.steps().len() == 7);
    lemma_every_text(p);
}

/// What the scenario `vring_num_zero` says when it stops.
pub proof fn vring_num_zero_says(p: Play)
    requires
        p.case == Case::VringNumZero,
    ensures
        wrong_status_is_told(
            p,
            6,
            p.steps()[6]->CheckStatus_accept,
            "liveness-чтение вернуло status="@,
            ""@,
        ),
{
    assert(p.steps().len() == 7);
    lemma_every_text(p);
}

/// What the scenario `vring_num_not_pow2` says when it stops.
pub proof fn vring_num_not_pow2_says(p: Play)
    requires
        p.case == Case::VringNumNotPow2,
    ensures
        wrong_status_is_told(
            p,
            6,
            p.steps()[6]->CheckStatus_accept,
            "liveness-чтение вернуло status="@,
            ""@,
        ),
{
    assert(p.steps().len() == 7);
    lemma_every_text(p);
}

/// What the scenario `vring_num_too_big` says when it stops.
pub proof fn vring_num_too_big_says(p: Play)
    requires
        p.case == Case::VringNumTooBig,
    ensures
        wrong_status_is_told(
            p,
            6,
            p.steps()[6]->CheckStatus_accept,
            "liveness-чтение вернуло status="@,
            ""@,
        ),
{
    assert(p.steps().len() == 7);
    lemma_every_text(p);
}

/// What the scenario `vring_addr_unaligned` says when it stops.
pub proof fn vring_addr_unaligned_says(p: Play)
    requires
        p.case == Case::VringAddrUnaligned,
    ensures
        wrong_status_is_told(
            p,
            7,
            p.steps()[7]->CheckStatus_accept,
            "liveness-чтение вернуло status="@,
            ""@,
        ),
{
    assert(p.steps().len() == 8);
    lemma_every_text(p);
}

/// What the scenario `mem_table_empty` says when it stops.
pub proof fn mem_table_empty_says(p: Play)
    requires
        p.case == Case::MemTableEmpty,
    ensures
        wrong_status_is_told(
            p,
            6,
            p.steps()[6]->CheckStatus_accept,
            "liveness-чтение вернуло status="@,
            ""@,
        ),
{
    assert(p.steps().len() == 7);
    lemma_every_text(p);
}

/// What the scenario `vring_before_mem` says when it stops.
pub proof fn vring_before_mem_says(p: Play)
    requires
        p.case == Case::VringBeforeMem,
    ensures
        wrong_status_is_told(
            p,
            13,
            p.steps()[13]->CheckStatus_accept,
            "liveness-чтение вернуло status="@,
            ""@,
        ),
{
    assert(p.steps().len() == 14);
    lemma_every_text(p);
}

} // verus!
