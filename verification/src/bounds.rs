//! Scenarios keep within the shared region.

use vstd::prelude::*;

use crate::audit;
use crate::bench;
use crate::bench::{Bench, Step};
use crate::dev::{Session, DATA_OFF, SECTOR};
use crate::link::{Got, Rep, Talk};
use crate::model;
use crate::registry;
use crate::registry::Case;
use crate::replay;

verus! {

/// The step would reach outside the region, or look for a chain that was never posted.
pub open spec fn breaks(b: Bench, s: Step) -> bool {
    match s {
        Step::Write { data, .. } => !model::room_for_three(b.s, data.len() as int),
        Step::Read { len, .. } => !model::room_for_three(b.s, len as int),
        Step::ReadIn { len, .. } => !model::room_for_three(b.s, len as int),
        Step::Flush => !model::room_for_two(b.s),
        Step::GetId => !model::room_for_three(b.s, 20),
        Step::Range { .. } => !model::room_for_three(b.s, 16),
        Step::Alloc { len } => !model::has_room(b.s, len as int),
        Step::Header { buf, .. } => !b.inside(buf as int, 0, 16),
        Step::Put { buf, at, data } => !b.inside(buf as int, at as int, data.len() as int),
        Step::Zero { buf, len } => !b.inside(buf as int, 0, len as int),
        Step::TableEntry { buf, .. } => !b.inside(buf as int, 0, 16),
        Step::Post { chain } => !b.postable(chain),
        Step::PostIndirect { chain, table } => !b.postable(chain) || !b.inside(
            table as int,
            0,
            (chain.len() * 16) as int,
        ),
        Step::Submit { chain } => !b.postable(chain),
        Step::CheckHead { .. } => b.heads.len() == 0,
        Step::Written { .. } => !b.inside(b.number as int * 3 + 2, 0, 1),
        Step::Fetched { .. } => !b.inside(b.number as int * 3 + 1, 0, SECTOR as int),
        Step::Status { buf } => !b.inside(buf as int, 0, 1),
        Step::Load { buf, len } => !b.inside(buf as int, 0, len as int),
        _ => false,
    }
}

/// A step that breaks is reported as a fault of the scenario.
pub proof fn broken_steps_are_reported(b: Bench, s: Step)
    requires
        b.stage is Live,
        breaks(b, s),
    ensures
        bench::step(b, s) == b.broken(),
{
    reveal(bench::step);
}

/// How far into the region `k` steps can reach.
pub open spec fn reach(k: int) -> int {
    DATA_OFF + k * 0x2_4000
}

/// Buffers given out so far, and the place of the next one, are within the reach of `k`
/// steps.
pub open spec fn in_reach(b: Bench, k: int) -> bool {
    &&& DATA_OFF <= b.s.next_data <= reach(k)
    &&& forall|i: int| 0 <= i < b.bufs.len() ==> #[trigger] b.bufs[i] <= reach(k)
}

proof fn lemma_three(s: Session, len: int, k: int)
    requires
        0 <= len <= 0x2_0000,
        0 <= k < 256,
        DATA_OFF <= s.next_data <= reach(k),
    ensures
        model::room_for_three(s, len),
        model::room_for_two(s),
        model::has_room(s, len),
        DATA_OFF <= model::three(s, len).3.next_data <= reach(k + 1),
        DATA_OFF <= model::allocated(model::allocated(s, 16), 1).next_data <= reach(k + 1),
        DATA_OFF <= model::allocated(s, len).next_data <= reach(k + 1),
        model::next_buffer(s) <= reach(k + 1),
{
}

/// Neither the handshake nor the ring takes a buffer.
proof fn lemma_connected(t: Talk, path: Seq<char>, mask: u64, base: u16)
    ensures
        model::connect(t, path, false, mask, base).1 matches Got::Value(s) ==> s.next_data
            == DATA_OFF,
{
}

proof fn lemma_writing(b: Bench, at: bench::Sector, data: Seq<u8>, k: int)
    requires
        b.stage is Live,
        0 <= k < 256,
        in_reach(b, k),
        data.len() <= 0x2_0000,
    ensures
        bench::taken(b, Step::Write { at, data }).stage is Live ==> in_reach(
            bench::taken(b, Step::Write { at, data }),
            k + 1,
        ),
{
    lemma_three(b.s, data.len() as int, k);
}

proof fn lemma_reading(b: Bench, tag: Option<Seq<char>>, at: bench::Sector, len: usize, k: int)
    requires
        b.stage is Live,
        0 <= k < 256,
        in_reach(b, k),
        len <= 0x2_0000,
    ensures
        b.reading(tag, at, len).stage is Live ==> in_reach(b.reading(tag, at, len), k + 1),
{
    lemma_three(b.s, len as int, k);
}

proof fn lemma_ranging(b: Bench, s: Step, k: int)
    requires
        b.stage is Live,
        0 <= k < 256,
        in_reach(b, k),
        s is Range || s is Flush || s is GetId,
    ensures
        bench::taken(b, s).stage is Live ==> in_reach(bench::taken(b, s), k + 1),
{
    lemma_three(b.s, 16, k);
    lemma_three(b.s, 20, k);
}

proof fn lemma_opening(b: Bench, s: Step, k: int)
    requires
        b.stage is Live,
        0 <= k < 256,
        in_reach(b, k),
        audit::opens(s),
    ensures
        bench::taken(b, s).stage is Live ==> in_reach(bench::taken(b, s), k + 1),
{
    if let Step::Connect { path, mask_out, base } = s {
        lemma_connected(b.io, path, mask_out, base);
    }
}

/// The step makes a request that takes buffers.
pub open spec fn requests(s: Step) -> bool {
    s is Write || s is Read || s is ReadIn || s is Flush || s is GetId || s is Range
}

proof fn lemma_keeping(b: Bench, s: Step, k: int)
    requires
        b.stage is Live,
        0 <= k < 256,
        in_reach(b, k),
        audit::modest(s),
        !requests(s),
        !audit::opens(s),
    ensures
        bench::taken(b, s).stage is Live ==> in_reach(bench::taken(b, s), k + 1),
{
    if let Step::Alloc { len } = s {
        lemma_three(b.s, len as int, k);
    }
}

/// A modest step stays within the reach of one step more.
proof fn lemma_step_in_reach(b: Bench, s: Step, k: int)
    requires
        b.stage is Live,
        0 <= k < 256,
        in_reach(b, k),
        audit::modest(s),
    ensures
        bench::step(b, s).stage is Live ==> in_reach(bench::step(b, s), k + 1),
{
    assert(bench::step(b, s) == bench::taken(b, s)) by {
        reveal(bench::step);
    }
    if audit::opens(s) {
        lemma_opening(b, s, k);
    } else if let Step::Write { at, data } = s {
        lemma_writing(b, at, data, k);
    } else if let Step::Read { at, len } = s {
        lemma_reading(b, None, at, len, k);
    } else if let Step::ReadIn { tag, at, len } = s {
        lemma_reading(b, Some(tag), at, len, k);
    } else if requests(s) {
        lemma_ranging(b, s, k);
    } else {
        lemma_keeping(b, s, k);
    }
}

proof fn lemma_not_broken(b: Bench, s: Step, k: int)
    requires
        0 <= k < 256,
        in_reach(b, k),
        audit::modest(s),
        s is CheckHead ==> b.heads.len() > 0,
    ensures
        !breaks(b, s),
{
    lemma_three(b.s, 16, k);
    lemma_three(b.s, 20, k);
    match s {
        Step::Write { data, .. } => {
            lemma_three(b.s, data.len() as int, k);
        },
        Step::Read { len, .. } => {
            lemma_three(b.s, len as int, k);
        },
        Step::ReadIn { len, .. } => {
            lemma_three(b.s, len as int, k);
        },
        Step::Alloc { len } => {
            lemma_three(b.s, len as int, k);
        },
        _ => {},
    }
}

proof fn lemma_heads(b: Bench, s: Step)
    ensures
        !audit::opens(s) ==> bench::step(b, s).heads.len() >= b.heads.len(),
        b.stage is Live && bench::step(b, s).stage is Live && (s is Post || s is PostIndirect)
            ==> bench::step(b, s).heads.len() > 0,
{
    reveal(bench::step);
}

proof fn lemma_head_known(b: Bench, steps: Seq<Step>, i: int)
    requires
        0 <= i < steps.len(),
        steps[i] is CheckHead,
        audit::head_posted(steps, i),
        bench::run_to(b, steps, i as nat).stage is Live,
    ensures
        bench::run_to(b, steps, i as nat).heads.len() > 0,
{
    crate::verdicts::lemma_live_before(b, steps, (i - 1) as nat, i as nat);
    crate::verdicts::lemma_live_before(b, steps, (i - 2) as nat, i as nat);
    crate::verdicts::lemma_live_before(b, steps, (i - 3) as nat, i as nat);
    crate::verdicts::lemma_live_before(b, steps, (i - 4) as nat, i as nat);
    lemma_heads(bench::run_to(b, steps, (i - 4) as nat), steps[i - 4]);
    lemma_heads(bench::run_to(b, steps, (i - 3) as nat), steps[i - 3]);
    lemma_heads(bench::run_to(b, steps, (i - 2) as nat), steps[i - 2]);
    lemma_heads(bench::run_to(b, steps, (i - 1) as nat), steps[i - 1]);
}

pub proof fn lemma_run_in_reach(b: Bench, steps: Seq<Step>, k: nat)
    requires
        k <= steps.len() <= 256,
        in_reach(b, 0),
        forall|i: int| 0 <= i < steps.len() ==> audit::modest(#[trigger] steps[i]),
    ensures
        bench::run_to(b, steps, k).stage is Live ==> in_reach(
            bench::run_to(b, steps, k),
            k as int,
        ),
    decreases k,
{
    if k > 0 && bench::run_to(b, steps, k).stage is Live {
        crate::verdicts::lemma_live_before(b, steps, (k - 1) as nat, k);
        lemma_run_in_reach(b, steps, (k - 1) as nat);
        lemma_step_in_reach(bench::run_to(b, steps, (k - 1) as nat), steps[k - 1], k - 1);
    }
}

/// No step of any scenario reaches outside the region, or looks for a chain that was
/// never posted, whatever the device answers.
pub proof fn scenarios_keep_within_the_region(
    case: Case,
    sock: Seq<char>,
    delay_ms: u64,
    replies: Seq<Rep>,
    i: int,
)
    requires
        0 <= i < registry::script(case, sock).len(),
    ensures
        ({
            let b = bench::run_to(
                bench::set_out(replay::opening(delay_ms, replies)),
                registry::script(case, sock),
                i as nat,
            );
            b.stage is Live ==> !breaks(b, registry::script(case, sock)[i])
        }),
{
    let steps = registry::script(case, sock);
    let start = bench::set_out(replay::opening(delay_ms, replies));
    let b = bench::run_to(start, steps, i as nat);
    audit::lemma_every_script(case, sock);
    lemma_run_in_reach(start, steps, i as nat);
    if b.stage is Live {
        if steps[i] is CheckHead {
            lemma_head_known(start, steps, i);
        }
        lemma_not_broken(b, steps[i], i);
    }
}

} // verus!
