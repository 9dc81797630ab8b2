//! What it means that a scenario passes.

use vstd::prelude::*;

use crate::bench;
use crate::bench::{Bench, Step};
use crate::checks;
use crate::dev::{STATUS_POISON, VIRTIO_BLK_S_OK};
use crate::model;

verus! {

/// What a step that checks something asks of the bench that it finds.
pub open spec fn holds(b: Bench, s: Step) -> bool {
    match s {
        Step::Need { sectors } => checks::lacking(b.s.capacity_sectors, sectors) is None,
        Step::Require { what, .. } => b.has(what),
        Step::ExpectOk { .. } => b.status == VIRTIO_BLK_S_OK,
        Step::Same { want, .. } => b.data == want,
        Step::AllZero { .. } => forall|i: int|
            0 <= i < b.data.len() ==> #[trigger] b.data[i] == 0,
        Step::Untouched { from, .. } => forall|i: int|
            from <= i < b.data.len() ==> #[trigger] b.data[i] == STATUS_POISON,
        Step::Beyond { sectors } => b.s.capacity_sectors + sectors <= u64::MAX,
        Step::CheckStatus { accept, .. } => bench::accepts(accept, b.status),
        Step::Length { want, .. } => b.data.len() == want,
        Step::CheckHead { .. } => b.heads.len() > 0 && b.used.id == b.heads.last(),
        Step::Find => !b.reported.contains(b.used.id) && exists|i: int|
            0 <= i < b.heads.len() && #[trigger] b.heads[i] == b.used.id,
        Step::UsedLenOfRead { len } => b.used.len == (len + 1) % 0x1_0000_0000,
        Step::UsedLenOfWrite => b.used.len == 1,
        Step::CheckNumber { want, .. } => b.number == want,
        Step::CheckStable => b.number == b.kept_number,
        Step::CheckConfig => b.data.len() >= 8 && b.kept_data.len() >= 8 && b.data.take(8)
            == b.kept_data.take(8),
        Step::BlkSizeSane => b.s.config_blk_size >= 512 && bench::single_bit(
            b.s.config_blk_size,
        ),
        _ => true,
    }
}

/// The step does nothing but check.
pub open spec fn only_checks(s: Step) -> bool {
    s is ExpectOk || s is Same || s is AllZero || s is Untouched || s is Beyond || s is CheckStatus
        || s is Length || s is CheckHead
        || s is UsedLenOfRead || s is UsedLenOfWrite || s is CheckNumber || s is CheckStable
        || s is CheckConfig || s is BlkSizeSane
}

proof fn lemma_found(heads: Seq<u16>, id: u32, i: int)
    requires
        0 <= i <= heads.len(),
    ensures
        bench::place_of(heads, id, i) is Some ==> exists|j: int|
            0 <= j < heads.len() && #[trigger] heads[j] == id,
    decreases heads.len() - i,
{
    if i < heads.len() {
        if heads[i] != id {
            lemma_found(heads, id, i + 1);
        }
    }
}

pub proof fn lemma_live_find(b: Bench)
    requires
        b.stage is Live,
        bench::step(b, Step::Find).stage is Live,
    ensures
        holds(b, Step::Find),
{
    reveal(bench::step);
    lemma_found(b.heads, b.used.id, 0);
}

proof fn lemma_live_step(b: Bench, s: Step)
    requires
        bench::step(b, s).stage is Live,
    ensures
        b.stage is Live,
        holds(b, s),
{
    if !(b.stage is Live) {
        reveal(bench::step);
    } else if only_checks(s) {
        checks_stop_exactly_on_faults(b, s);
    } else if s is Need || s is Require {
        what_is_missing_skips(b, s);
    } else if s is Find {
        lemma_live_find(b);
    }
}

pub proof fn lemma_live_before(b: Bench, steps: Seq<Step>, i: nat, k: nat)
    requires
        i <= k,
        bench::run_to(b, steps, k).stage is Live,
    ensures
        bench::run_to(b, steps, i).stage is Live,
    decreases k,
{
    if i < k {
        lemma_live_step(bench::run_to(b, steps, (k - 1) as nat), steps[k - 1]);
        lemma_live_before(b, steps, i, (k - 1) as nat);
    }
}

/// A scenario passes only if each of its checks held when its turn came.
pub proof fn pass_means_every_check_held(b: Bench, steps: Seq<Step>, i: int)
    requires
        0 <= i < steps.len(),
        bench::run(b, steps).stage is Live,
    ensures
        bench::run_to(b, steps, i as nat).stage is Live,
        holds(bench::run_to(b, steps, i as nat), steps[i]),
{
    lemma_live_before(b, steps, (i + 1) as nat, steps.len());
    lemma_live_step(bench::run_to(b, steps, i as nat), steps[i]);
}

/// A step that only checks stops the bench exactly when what it asks does not hold, and
/// changes nothing else.
pub proof fn checks_stop_exactly_on_faults(b: Bench, s: Step)
    requires
        b.stage is Live,
        only_checks(s),
    ensures
        holds(b, s) ==> bench::step(b, s) == b,
        !holds(b, s) ==> bench::step(b, s).stage is Failed,
        bench::step(b, s) == (Bench { stage: bench::step(b, s).stage, ..b }),
{
    reveal(bench::step);
    match s {
        Step::Same { want, .. } => {
            checks::parting_tells_difference(b.data, want);
        },
        Step::AllZero { .. } => {
            checks::nonzero_tells_zeroes(b.data, 0);
        },
        Step::Untouched { from, .. } => {
            checks::touched_tells_changes(b.data, from as int);
        },
        _ => {},
    }
}

/// Where a scenario needs what the device does not have, it is skipped, and neither fails
/// nor goes on.
pub proof fn what_is_missing_skips(b: Bench, s: Step)
    requires
        b.stage is Live,
        s is Need || s is Require,
    ensures
        holds(b, s) ==> bench::step(b, s) == b,
        !holds(b, s) ==> bench::step(b, s).stage is Skipped,
{
    reveal(bench::step);
}

/// A completion that does not come, and one of another request, are both faults.
pub proof fn requests_complete_or_fail(b: Bench, chain: Seq<bench::Seg>)
    requires
        b.stage is Live,
        b.s.wf(),
        b.postable(chain),
    ensures
        ({
            let after = bench::step(b, Step::Submit { chain });
            &&& after.stage is Live ==> after.used.id == b.s.next_desc
            &&& model::submit(
                b.line(),
                b.descs(chain),
                crate::dev::TIMEOUT_MS,
            ).1 is Fault ==> after.stage is Failed
        }),
{
    reveal(bench::step);
}

} // verus!
