//! In which order requests in flight may complete.

use vstd::prelude::*;

use crate::audit;
use crate::bench;
use crate::bench::{Bench, Step};
use crate::bounds;
use crate::checks;
use crate::dev::{QSZ, REGION_SIZE, SECTOR};
use crate::link::{Rep, ReplyOf};
use crate::model;
use crate::registry::Case;
use crate::replay;
use crate::stages;
use crate::t_data;
use crate::turns;
use crate::verdicts;

verus! {

broadcast use bench::run_concat;

// ---- what is in flight ---------------------------------------------------------------

/// Each of the chains has a head of its own.
pub open spec fn heads_differ(heads: Seq<u16>) -> bool {
    forall|i: int, j: int|
        0 <= i < j < heads.len() ==> #[trigger] heads[i] != #[trigger] heads[j]
}

/// Head `i` of chains of three descriptors that follow each other from slot `first` on.
#[verifier::opaque]
spec fn third_slot(first: int, i: int) -> int {
    (first + 3 * i) % 256
}

proof fn lemma_third_slots(first: int, i: int, j: int)
    requires
        0 <= i < j < 16,
    ensures
        third_slot(first, i) != third_slot(first, j),
{
    reveal(third_slot);
}

proof fn lemma_next_slot(first: int, i: int)
    requires
        0 <= first < 256,
    ensures
        0 <= third_slot(first, i) < 256,
        (third_slot(first, i) + 3) % 256 == third_slot(first, i + 1),
        third_slot(first, 0) == first,
{
    reveal(third_slot);
}

/// The two benches have the same chains in flight, and the next one starts at the same
/// slot.
spec fn same_queue(a: Bench, b: Bench) -> bool {
    a.heads == b.heads && a.reported == b.reported && a.s.next_desc == b.s.next_desc
}

/// The step neither posts a chain nor takes a completion.
spec fn aside(s: Step) -> bool {
    s is Need || s is ExpectOk || s is Alloc || s is Header || s is Put || s is Zero || s is Kick
}

proof fn lemma_aside(b: Bench, s: Step)
    requires
        aside(s),
    ensures
        same_queue(b, bench::step(b, s)),
{
    reveal(bench::step);
}

proof fn lemma_all_aside(b: Bench, steps: Seq<Step>, k: nat)
    requires
        k <= steps.len(),
        forall|i: int| 0 <= i < steps.len() ==> aside(#[trigger] steps[i]),
    ensures
        same_queue(b, bench::run_to(b, steps, k)),
    decreases k,
{
    if k > 0 {
        lemma_all_aside(b, steps, (k - 1) as nat);
        lemma_aside(bench::run_to(b, steps, (k - 1) as nat), steps[k - 1]);
    }
}

/// A list of one step does what the step does.
proof fn lemma_one(b: Bench, s: Step)
    ensures
        bench::run(b, seq![s]) == bench::step(b, s),
{
    reveal_with_fuel(bench::run_to, 2);
}

proof fn lemma_two(b: Bench, s: Step, t: Step)
    ensures
        bench::run(b, seq![s, t]) == bench::step(bench::step(b, s), t),
{
    reveal_with_fuel(bench::run_to, 3);
}

proof fn lemma_three(b: Bench, s: Step, t: Step, u: Step)
    ensures
        bench::run(b, seq![s, t, u]) == bench::step(bench::step(bench::step(b, s), t), u),
{
    reveal_with_fuel(bench::run_to, 4);
}

/// A step that leaves the bench live found it so.
proof fn lemma_was_live(b: Bench, s: Step)
    requires
        bench::step(b, s).stage is Live,
    ensures
        b.stage is Live,
{
    reveal(bench::step);
}

proof fn lemma_write_step(b: Bench, at: bench::Sector, data: Seq<u8>)
    requires
        b.s.next_desc < QSZ,
    ensures
        ({
            let c = bench::step(b, Step::Write { at, data });
            &&& c.heads == b.heads
            &&& c.reported == b.reported
            &&& c.s.next_desc < QSZ
        }),
{
    reveal(bench::step);
}

/// A prepared sector leaves the list of chains as it is.
proof fn lemma_write_keeps(b: Bench, at: bench::Sector, data: Seq<u8>, label: Seq<char>)
    requires
        b.s.next_desc < QSZ,
    ensures
        ({
            let c = bench::run(b, stages::good_write(at, data, label));
            &&& c.heads == b.heads
            &&& c.reported == b.reported
            &&& c.s.next_desc < QSZ
        }),
{
    let write = Step::Write { at, data };
    let expect = Step::ExpectOk { label };
    lemma_two(b, write, expect);
    lemma_write_step(b, at, data);
    lemma_aside(bench::step(b, write), expect);
}

proof fn lemma_prepared(b: Bench, n: nat)
    requires
        b.stage is Live,
        b.s.next_desc < QSZ,
        bench::run(b, t_data::sectors_prepared(n)).stage is Live,
    ensures
        ({
            let c = bench::run(b, t_data::sectors_prepared(n));
            &&& c.heads == b.heads
            &&& c.reported == b.reported
            &&& c.s.next_desc < QSZ
        }),
    decreases n,
{
    if n > 0 {
        let i = n - 1;
        let rest = t_data::sectors_prepared(i as nat);
        let one = stages::good_write(t_data::spaced(i, 2), t_data::nth(0x70, i), "prewrite"@);
        let c = bench::run(b, rest);
        lemma_live_first(b, rest, one);
        lemma_prepared(b, i as nat);
        lemma_write_keeps(c, t_data::spaced(i, 2), t_data::nth(0x70, i), "prewrite"@);
    }
}

/// A run that is live at its end was so after its first part.
proof fn lemma_live_first(b: Bench, first: Seq<Step>, second: Seq<Step>)
    requires
        bench::run(b, first + second).stage is Live,
    ensures
        bench::run(b, first).stage is Live,
{
    if !(bench::run(b, first).stage is Live) {
        bench::stopped_stays_stopped(bench::run(b, first), second);
    }
}

proof fn lemma_post_adds(b: Bench, chain: Seq<bench::Seg>)
    requires
        b.s.next_desc < QSZ,
        chain.len() == 3,
    ensures
        ({
            let c = bench::step(b, Step::Post { chain });
            c.stage is Live ==> {
                &&& c.heads == b.heads.push(b.s.next_desc)
                &&& c.reported == b.reported
                &&& c.s.next_desc == (b.s.next_desc + 3) % 256
            }
        }),
{
    reveal(bench::step);
    assert(b.descs(chain).len() == 3);
}

/// A chain that is prepared and posted is one more in flight.
proof fn lemma_posted_one(b: Bench, staged: Seq<Step>, chain: Seq<bench::Seg>)
    requires
        b.s.next_desc < QSZ,
        chain.len() == 3,
        forall|i: int| 0 <= i < staged.len() ==> aside(#[trigger] staged[i]),
        bench::run(b, staged + seq![Step::Post { chain }]).stage is Live,
    ensures
        ({
            let c = bench::run(b, staged + seq![Step::Post { chain }]);
            &&& c.heads == b.heads.push(b.s.next_desc)
            &&& c.reported == b.reported
            &&& c.s.next_desc == (b.s.next_desc + 3) % 256
        }),
{
    lemma_all_aside(b, staged, staged.len());
    let d = bench::run(b, staged);
    lemma_one(d, Step::Post { chain });
    lemma_post_adds(d, chain);
}

/// The heads of `n` reads that are posted one after the other.
proof fn lemma_reads_posted(b: Bench, n: nat)
    requires
        b.stage is Live,
        b.s.next_desc < QSZ,
        b.heads.len() == 0,
        bench::run(b, t_data::reads_posted(n)).stage is Live,
    ensures
        ({
            let c = bench::run(b, t_data::reads_posted(n));
            &&& c.heads.len() == n
            &&& forall|i: int|
                0 <= i < n ==> #[trigger] c.heads[i] == third_slot(b.s.next_desc as int, i)
            &&& c.reported == b.reported
            &&& c.s.next_desc == third_slot(b.s.next_desc as int, n as int)
        }),
    decreases n,
{
    let first = b.s.next_desc as int;
    lemma_next_slot(first, n - 1);
    if n > 0 {
        let i = n - 1;
        let rest = t_data::reads_posted(i as nat);
        let staged = stages::staged_read((i * 3) as usize, t_data::spaced(i, 2), SECTOR);
        let chain = stages::reading_chain((i * 3) as usize, SECTOR);
        let post = seq![Step::Post { chain }];
        assert(rest + staged + post =~= rest + (staged + post));
        lemma_live_first(b, rest, staged + post);
        lemma_reads_posted(b, i as nat);
        let c = bench::run(b, rest);
        lemma_posted_one(c, staged, chain);
        let d = bench::run(c, staged + post);
        assert forall|k: int| 0 <= k < n implies #[trigger] d.heads[k] == third_slot(
            first,
            k,
        ) by {
            if k < i {
                assert(d.heads[k] == c.heads[k]);
            }
        }
    }
}

proof fn lemma_connect_step(b: Bench, sock: Seq<char>)
    requires
        b.stage is Live,
    ensures
        ({
            let c = bench::step(b, stages::plain(sock));
            c.stage is Live ==> {
                &&& c.heads.len() == 0
                &&& c.reported.len() == 0
                &&& c.s.next_desc == 0
            }
        }),
{
    reveal(bench::step);
}

proof fn lemma_connected(b: Bench, sock: Seq<char>, sectors: u64)
    requires
        b.stage is Live,
        bench::run(b, seq![stages::plain(sock), Step::Need { sectors }]).stage is Live,
    ensures
        ({
            let c = bench::run(b, seq![stages::plain(sock), Step::Need { sectors }]);
            &&& c.heads.len() == 0
            &&& c.reported.len() == 0
            &&& c.s.next_desc == 0
        }),
{
    let need = Step::Need { sectors };
    let c = bench::step(b, stages::plain(sock));
    lemma_two(b, stages::plain(sock), need);
    lemma_was_live(c, need);
    lemma_connect_step(b, sock);
    lemma_aside(c, need);
}

/// What holds once the eight reads are in flight.
proof fn lemma_in_flight(start: Bench, sock: Seq<char>)
    requires
        start.stage is Live,
        bench::run(start, t_data::reads_in_flight(sock)).stage is Live,
    ensures
        ({
            let c = bench::run(start, t_data::reads_in_flight(sock));
            &&& c.heads.len() == 8
            &&& heads_differ(c.heads)
            &&& c.reported.len() == 0
        }),
{
    let open = seq![stages::plain(sock), Step::Need { sectors: 64 }];
    let prepared = t_data::sectors_prepared(8);
    let posted = t_data::reads_posted(8);
    let kick = seq![Step::Kick];
    lemma_live_first(start, open + prepared + posted, kick);
    lemma_live_first(start, open + prepared, posted);
    lemma_live_first(start, open, prepared);
    lemma_connected(start, sock, 64);
    let b1 = bench::run(start, open);
    lemma_prepared(b1, 8);
    let b2 = bench::run(b1, prepared);
    lemma_reads_posted(b2, 8);
    let b3 = bench::run(b2, posted);
    lemma_one(b3, Step::Kick);
    lemma_aside(b3, Step::Kick);
    assert forall|i: int, j: int| 0 <= i < j < b3.heads.len() implies #[trigger] b3.heads[i]
        != #[trigger] b3.heads[j] by {
        lemma_third_slots(b2.s.next_desc as int, i, j);
    }
}

// ---- completions ---------------------------------------------------------------------

/// The answer brings the completion of the chain with this head.
pub open spec fn completes(r: Rep, head: u32) -> bool {
    r matches ReplyOf::Bytes(b) && b.len() == 8 && model::used_in(b).id == head
}

/// The answer brings the bytes of sector `i` of those that were prepared.
pub open spec fn brings_own(r: Rep, i: int) -> bool {
    r == ReplyOf::<Seq<char>, Seq<u8>>::Bytes(t_data::nth(0x70, i))
}

/// Of eight reads in flight, these complete next and in this order: each is one of the
/// eight and none comes twice, and when it is taken its buffer holds its own sector.
pub open spec fn complete_in_turn(b: Bench, order: Seq<int>) -> bool {
    &&& forall|k: int| 0 <= k < order.len() ==> 0 <= #[trigger] order[k] < 8
    &&& forall|k: int, m: int|
        0 <= k < m < order.len() ==> #[trigger] order[k] != #[trigger] order[m]
    &&& b.io.next + 2 * order.len() <= b.io.replies.len()
    &&& forall|k: int|
        0 <= k < order.len() ==> {
            &&& completes(b.io.replies[b.io.next + 2 * k], b.heads[#[trigger] order[k]] as u32)
            &&& brings_own(b.io.replies[b.io.next + 2 * k + 1], order[k])
        }
}

/// After these completions the next one is wrong: it does not come, or it is of no read in
/// flight or of one that has completed already, or the buffer of the read holds other
/// bytes than its sector.
pub open spec fn next_is_wrong(b: Bench, order: Seq<int>) -> bool {
    let at = b.io.next + 2 * order.len();
    &&& at < b.io.replies.len()
    &&& {
        ||| b.io.replies[at] is TimedOut
        ||| exists|id: u32| #[trigger]
            completes(b.io.replies[at], id) && ((forall|i: int|
                0 <= i < b.heads.len() ==> #[trigger] b.heads[i] != id) || (exists|k: int|
                0 <= k < order.len() && b.heads[#[trigger] order[k]] == id))
        ||| exists|i: int|
            0 <= i < 8 && !order.contains(i) && #[trigger] completes(
                b.io.replies[at],
                b.heads[i] as u32,
            ) && at + 1 < b.io.replies.len() && holds_other(b.io.replies[at + 1], i)
    }
}

/// The answer brings the bytes of a sector, but not those of sector `i` of the prepared.
pub open spec fn holds_other(r: Rep, i: int) -> bool {
    r matches ReplyOf::Bytes(d) && d.len() == SECTOR && d != t_data::nth(0x70, i)
}

/// How far the completions have been taken.
spec fn taken_so_far(b: Bench, c: Bench, order: Seq<int>, n: nat) -> bool {
    &&& c.stage is Live
    &&& c.heads == b.heads
    &&& c.bufs == b.bufs
    &&& c.io.replies == b.io.replies
    &&& c.io.next == b.io.next + 2 * n
    &&& c.reported == Seq::new(n, |k: int| b.heads[order[k]] as u32)
}

spec fn completion(n: int) -> Step {
    Step::Complete {
        done: n as nat,
        of: 8,
        before: "ЗАВИСАНИЕ: "@,
        after: " завершений"@,
    }
}

spec fn fetching() -> Step {
    Step::Fetched { stride: 2, seed: 0x70 }
}

proof fn lemma_complete(c: Bench, n: int, id: u32)
    requires
        c.stage is Live,
        0 <= c.io.next < c.io.replies.len(),
        completes(c.io.replies[c.io.next], id),
    ensures
        ({
            let d = bench::step(c, completion(n));
            &&& d.stage is Live
            &&& d.used.id == id
            &&& d.heads == c.heads && d.bufs == c.bufs && d.reported == c.reported
            &&& d.io.replies == c.io.replies
            &&& d.io.next == c.io.next + 1
        }),
{
    reveal(bench::step);
}

proof fn lemma_no_completion(c: Bench, n: int)
    requires
        c.stage is Live,
        0 <= c.io.next < c.io.replies.len(),
        c.io.replies[c.io.next] is TimedOut,
    ensures
        bench::step(c, completion(n)).stage is Failed,
{
    reveal(bench::step);
}

proof fn lemma_place(heads: Seq<u16>, i: int, from: int)
    requires
        heads_differ(heads),
        0 <= from <= i < heads.len(),
    ensures
        bench::place_of(heads, heads[i] as u32, from) == Some(i),
    decreases i - from,
{
    if from < i {
        assert(heads[from] != heads[i]);
        lemma_place(heads, i, from + 1);
    }
}

proof fn lemma_no_place(heads: Seq<u16>, id: u32, from: int)
    requires
        0 <= from <= heads.len(),
        forall|i: int| 0 <= i < heads.len() ==> #[trigger] heads[i] != id,
    ensures
        bench::place_of(heads, id, from) is None,
    decreases heads.len() - from,
{
    if from < heads.len() {
        lemma_no_place(heads, id, from + 1);
    }
}

proof fn lemma_find(c: Bench, i: int)
    requires
        c.stage is Live,
        heads_differ(c.heads),
        0 <= i < c.heads.len() <= 8,
        c.used.id == c.heads[i],
        !c.reported.contains(c.used.id),
    ensures
        bench::step(c, Step::Find) == (Bench {
            number: i as u64,
            reported: c.reported.push(c.used.id),
            ..c
        }),
{
    reveal(bench::step);
    lemma_place(c.heads, i, 0);
}

/// A completion of no chain in flight, or of one that has completed already, is a fault.
proof fn lemma_not_found(c: Bench)
    requires
        c.stage is Live,
        c.reported.contains(c.used.id) || forall|i: int|
            0 <= i < c.heads.len() ==> #[trigger] c.heads[i] != c.used.id,
    ensures
        bench::step(c, Step::Find).stage is Failed,
{
    reveal(bench::step);
    if !c.reported.contains(c.used.id) {
        lemma_no_place(c.heads, c.used.id, 0);
    }
}

proof fn lemma_fetched(c: Bench, i: int)
    requires
        c.stage is Live,
        0 <= i < 8,
        c.number == i,
        c.inside(i * 3 + 1, 0, SECTOR as int),
        0 <= c.io.next < c.io.replies.len(),
        brings_own(c.io.replies[c.io.next], i),
    ensures
        ({
            let d = bench::step(c, fetching());
            &&& d.stage is Live
            &&& d.heads == c.heads && d.bufs == c.bufs && d.reported == c.reported
            &&& d.io.replies == c.io.replies
            &&& d.io.next == c.io.next + 1
        }),
{
    reveal(bench::step);
    checks::parting_tells_difference(t_data::nth(0x70, i), t_data::nth(0x70, i));
}

proof fn lemma_other_bytes(c: Bench, i: int)
    requires
        c.stage is Live,
        0 <= i < 8,
        c.number == i,
        c.inside(i * 3 + 1, 0, SECTOR as int),
        0 <= c.io.next < c.io.replies.len(),
        holds_other(c.io.replies[c.io.next], i),
    ensures
        bench::step(c, fetching()).stage is Failed,
{
    reveal(bench::step);
    if let ReplyOf::Bytes(d) = c.io.replies[c.io.next] {
        checks::parting_tells_difference(d, t_data::nth(0x70, i));
    }
}

/// Every buffer leaves room for a sector.
spec fn roomy(b: Bench) -> bool {
    forall|i: int| 0 <= i < b.bufs.len() ==> #[trigger] b.bufs[i] + SECTOR <= REGION_SIZE
}

proof fn lemma_outstanding(b: Bench, c: Bench, order: Seq<int>, n: nat, i: int)
    requires
        taken_so_far(b, c, order, n),
        n <= order.len(),
        heads_differ(b.heads),
        b.heads.len() == 8,
        0 <= i < 8,
        forall|k: int| 0 <= k < order.len() ==> 0 <= #[trigger] order[k] < 8,
        forall|k: int| 0 <= k < n ==> #[trigger] order[k] != i,
    ensures
        !c.reported.contains(b.heads[i] as u32),
{
    assert forall|k: int| 0 <= k < n implies c.reported[k] != b.heads[i] as u32 by {
        let j = order[k];
        if j < i {
            assert(b.heads[j] != b.heads[i]);
        } else {
            assert(b.heads[i] != b.heads[j]);
        }
    }
}

proof fn lemma_turn(b: Bench, c: Bench, order: Seq<int>, n: nat)
    requires
        taken_so_far(b, c, order, n),
        n < order.len(),
        complete_in_turn(b, order),
        heads_differ(b.heads),
        b.heads.len() == 8,
        roomy(b),
        b.io.next >= 0,
    ensures
        taken_so_far(
            b,
            bench::run(c, seq![completion(n as int), Step::Find, fetching()]),
            order,
            n + 1,
        ),
{
    let i = order[n as int];
    let id = b.heads[i] as u32;
    lemma_three(c, completion(n as int), Step::Find, fetching());
    lemma_complete(c, n as int, id);
    let d = bench::step(c, completion(n as int));
    lemma_outstanding(b, c, order, n, i);
    lemma_find(d, i);
    let e = bench::step(d, Step::Find);
    lemma_fetched(e, i);
    let f = bench::step(e, fetching());
    assert(f.reported =~= Seq::new(n + 1, |k: int| b.heads[order[k]] as u32));
}

proof fn lemma_turns(b: Bench, order: Seq<int>, n: nat)
    requires
        b.stage is Live,
        n <= order.len(),
        complete_in_turn(b, order),
        heads_differ(b.heads),
        b.heads.len() == 8,
        b.reported.len() == 0,
        roomy(b),
        b.io.next >= 0,
    ensures
        taken_so_far(b, bench::run(b, t_data::reads_reaped(n)), order, n),
    decreases n,
{
    if n == 0 {
        assert(b.reported =~= Seq::new(0, |k: int| b.heads[order[k]] as u32));
    } else {
        let m = (n - 1) as nat;
        lemma_turns(b, order, m);
        let c = bench::run(b, t_data::reads_reaped(m));
        lemma_turn(b, c, order, m);
    }
}

proof fn lemma_wrong_turn(b: Bench, c: Bench, order: Seq<int>)
    requires
        taken_so_far(b, c, order, order.len()),
        complete_in_turn(b, order),
        next_is_wrong(b, order),
        heads_differ(b.heads),
        b.heads.len() == 8,
        roomy(b),
        b.io.next >= 0,
    ensures
        bench::run(
            c,
            seq![completion(order.len() as int), Step::Find, fetching()],
        ).stage is Failed,
{
    let n = order.len();
    let at = b.io.next + 2 * n;
    let d = bench::step(c, completion(n as int));
    let e = bench::step(d, Step::Find);
    lemma_three(c, completion(n as int), Step::Find, fetching());
    if b.io.replies[at] is TimedOut {
        lemma_no_completion(c, n as int);
        lemma_failed(d, Step::Find);
        lemma_failed(e, fetching());
    } else if exists|i: int|
        0 <= i < 8 && !order.contains(i) && #[trigger] completes(
            b.io.replies[at],
            b.heads[i] as u32,
        ) && at + 1 < b.io.replies.len() && holds_other(b.io.replies[at + 1], i) {
        let i = choose|i: int|
            0 <= i < 8 && !order.contains(i) && #[trigger] completes(
                b.io.replies[at],
                b.heads[i] as u32,
            ) && at + 1 < b.io.replies.len() && holds_other(b.io.replies[at + 1], i);
        lemma_complete(c, n as int, b.heads[i] as u32);
        assert forall|k: int| 0 <= k < n implies #[trigger] order[k] != i by {
            assert(order.contains(order[k]));
        }
        lemma_outstanding(b, c, order, n, i);
        lemma_find(d, i);
        lemma_other_bytes(e, i);
    } else {
        let id = choose|id: u32| #[trigger]
            completes(b.io.replies[at], id) && ((forall|i: int|
                0 <= i < b.heads.len() ==> #[trigger] b.heads[i] != id) || (exists|k: int|
                0 <= k < order.len() && b.heads[#[trigger] order[k]] == id));
        lemma_complete(c, n as int, id);
        if exists|k: int| 0 <= k < order.len() && b.heads[#[trigger] order[k]] == id {
            let k = choose|k: int| 0 <= k < order.len() && b.heads[#[trigger] order[k]] == id;
            assert(d.reported[k] == id);
        }
        lemma_not_found(d);
        lemma_failed(e, fetching());
    }
}

proof fn lemma_failed(b: Bench, s: Step)
    requires
        b.stage is Failed,
    ensures
        bench::step(b, s) == b,
{
    reveal(bench::step);
}

/// Once taking completions has failed, taking more of them changes nothing.
proof fn lemma_failed_reaping(b: Bench, n: nat, m: nat)
    requires
        n <= m,
        bench::run(b, t_data::reads_reaped(n)).stage is Failed,
    ensures
        bench::run(b, t_data::reads_reaped(m)).stage is Failed,
    decreases m,
{
    if n < m {
        let k = (m - 1) as nat;
        lemma_failed_reaping(b, n, k);
        bench::stopped_stays_stopped(
            bench::run(b, t_data::reads_reaped(k)),
            seq![completion(k as int), Step::Find, fetching()],
        );
    }
}

// ---- laws ----------------------------------------------------------------------------

/// The bench with the eight reads of the scenario in flight.
pub open spec fn in_flight(sock: Seq<char>, delay_ms: u64, replies: Seq<Rep>) -> Bench {
    bench::run(
        bench::set_out(replay::opening(delay_ms, replies)),
        t_data::reads_in_flight(sock),
    )
}

proof fn lemma_set_up(sock: Seq<char>, delay_ms: u64, replies: Seq<Rep>)
    requires
        in_flight(sock, delay_ms, replies).stage is Live,
    ensures
        ({
            let b = in_flight(sock, delay_ms, replies);
            &&& heads_differ(b.heads)
            &&& b.heads.len() == 8
            &&& b.reported.len() == 0
            &&& roomy(b)
            &&& b.io.next >= 0
            &&& b.io.replies == replies
        }),
{
    let start = bench::set_out(replay::opening(delay_ms, replies));
    let steps = t_data::reads_in_flight(sock);
    let all = t_data::out_of_order(sock);
    lemma_in_flight(start, sock);
    audit::lemma_every_script(Case::OutOfOrder, sock);
    assert(audit::considerate(all));
    assert forall|i: int| 0 <= i < steps.len() implies audit::modest(#[trigger] steps[i])
        && turns::proper(steps[i]) by {
        assert(all[i] == steps[i]);
    }
    turns::lemma_run_to(start, steps, steps.len());
    bounds::lemma_run_in_reach(start, steps, steps.len());
    replay::lemma_run_follows(start, steps, steps.len());
}

/// Eight reads in flight may complete in any order: where each of them completes once, and
/// holds its own sector when it is taken, the scenario passes.
pub proof fn every_order_of_completions_passes(
    sock: Seq<char>,
    delay_ms: u64,
    replies: Seq<Rep>,
    order: Seq<int>,
)
    requires
        in_flight(sock, delay_ms, replies).stage is Live,
        complete_in_turn(in_flight(sock, delay_ms, replies), order),
        order.len() == 8,
    ensures
        bench::run(
            bench::set_out(replay::opening(delay_ms, replies)),
            t_data::out_of_order(sock),
        ).stage is Live,
{
    lemma_set_up(sock, delay_ms, replies);
    lemma_turns(in_flight(sock, delay_ms, replies), order, 8);
}

/// After any number of right completions short of eight, one that does not come, one of
/// no read in flight, one that has come before, and one whose buffer holds other bytes are
/// all faults.
pub proof fn a_wrong_completion_fails(
    sock: Seq<char>,
    delay_ms: u64,
    replies: Seq<Rep>,
    order: Seq<int>,
)
    requires
        in_flight(sock, delay_ms, replies).stage is Live,
        complete_in_turn(in_flight(sock, delay_ms, replies), order),
        order.len() < 8,
        next_is_wrong(in_flight(sock, delay_ms, replies), order),
    ensures
        bench::run(
            bench::set_out(replay::opening(delay_ms, replies)),
            t_data::out_of_order(sock),
        ).stage is Failed,
{
    let b = in_flight(sock, delay_ms, replies);
    let n = order.len();
    lemma_set_up(sock, delay_ms, replies);
    lemma_turns(b, order, n);
    lemma_wrong_turn(b, bench::run(b, t_data::reads_reaped(n)), order);
    lemma_failed_reaping(b, n + 1, 8);
}

// ---- writes ----------------------------------------------------------------------------

/// The heads of `n` writes that are posted one after the other.
proof fn lemma_writes_posted(b: Bench, n: nat)
    requires
        b.stage is Live,
        b.s.next_desc < QSZ,
        b.heads.len() == 0,
        bench::run(b, t_data::writes_posted(n)).stage is Live,
    ensures
        ({
            let c = bench::run(b, t_data::writes_posted(n));
            &&& c.heads.len() == n
            &&& forall|i: int|
                0 <= i < n ==> #[trigger] c.heads[i] == third_slot(b.s.next_desc as int, i)
            &&& c.reported == b.reported
            &&& c.s.next_desc == third_slot(b.s.next_desc as int, n as int)
        }),
    decreases n,
{
    let first = b.s.next_desc as int;
    lemma_next_slot(first, n - 1);
    if n > 0 {
        let i = n - 1;
        let rest = t_data::writes_posted(i as nat);
        let staged = stages::staged_write(
            (i * 3) as usize,
            t_data::spaced(i, 4),
            t_data::nth(0x40, i),
        );
        let chain = stages::writing_chain((i * 3) as usize, SECTOR);
        let post = seq![Step::Post { chain }];
        assert(rest + staged + post =~= rest + (staged + post));
        lemma_live_first(b, rest, staged + post);
        lemma_writes_posted(b, i as nat);
        let c = bench::run(b, rest);
        lemma_posted_one(c, staged, chain);
        let d = bench::run(c, staged + post);
        assert forall|k: int| 0 <= k < n implies #[trigger] d.heads[k] == third_slot(
            first,
            k,
        ) by {
            if k < i {
                assert(d.heads[k] == c.heads[k]);
            }
        }
    }
}

/// One of the chains has this head.
pub open spec fn is_head(heads: Seq<u16>, id: u32) -> bool {
    exists|i: int| 0 <= i < heads.len() && #[trigger] heads[i] == id
}

/// What has completed so far: chains in flight, and none of them twice.
pub open spec fn completed_once(b: Bench) -> bool {
    &&& b.reported.no_duplicates()
    &&& forall|k: int|
        0 <= k < b.reported.len() ==> is_head(b.heads, #[trigger] b.reported[k])
}

proof fn lemma_wait_keeps(b: Bench, s: Step)
    requires
        s is Complete || s is Written,
    ensures
        bench::step(b, s).heads == b.heads,
        bench::step(b, s).reported == b.reported,
{
    reveal(bench::step);
}

proof fn lemma_found_once(b: Bench)
    requires
        completed_once(b),
        bench::step(b, Step::Find).stage is Live,
    ensures
        ({
            let c = bench::step(b, Step::Find);
            &&& c.heads == b.heads
            &&& c.reported.len() == b.reported.len() + 1
            &&& completed_once(c)
        }),
{
    lemma_was_live(b, Step::Find);
    verdicts::lemma_live_find(b);
    let c = bench::step(b, Step::Find);
    assert(c.heads == b.heads && c.reported == b.reported.push(b.used.id)) by {
        reveal(bench::step);
    }
    assert forall|k: int| 0 <= k < c.reported.len() implies is_head(
        c.heads,
        #[trigger] c.reported[k],
    ) by {
        if k < b.reported.len() {
            assert(c.reported[k] == b.reported[k]);
        }
    }
    assert forall|k: int, m: int|
        0 <= k < c.reported.len() && 0 <= m < c.reported.len() && k
            != m implies c.reported[k] != c.reported[m] by {
        if k == b.reported.len() {
            assert(b.reported.contains(b.reported[m]));
        }
        if m == b.reported.len() {
            assert(b.reported.contains(b.reported[k]));
        }
    }
}

proof fn lemma_writes_reaped(b: Bench, n: nat)
    requires
        completed_once(b),
        bench::run(b, t_data::writes_reaped(n)).stage is Live,
    ensures
        ({
            let c = bench::run(b, t_data::writes_reaped(n));
            &&& c.heads == b.heads
            &&& c.reported.len() == b.reported.len() + n
            &&& completed_once(c)
        }),
    decreases n,
{
    if n > 0 {
        let i = n - 1;
        let rest = t_data::writes_reaped(i as nat);
        let first = Step::Complete {
            done: i as nat,
            of: 16,
            before: "ЗАВИСАНИЕ: получено "@,
            after: " завершений"@,
        };
        let last = Step::Written { stride: 4 };
        lemma_live_first(b, rest, seq![first, Step::Find, last]);
        lemma_writes_reaped(b, i as nat);
        let c = bench::run(b, rest);
        lemma_three(c, first, Step::Find, last);
        let d = bench::step(c, first);
        let e = bench::step(d, Step::Find);
        lemma_was_live(e, last);
        lemma_wait_keeps(c, first);
        lemma_found_once(d);
        lemma_wait_keeps(e, last);
    }
}

/// As many different completions as there are chains are the completions of all chains.
proof fn lemma_all_completed(heads: Seq<u16>, reported: Seq<u32>, i: int)
    requires
        heads_differ(heads),
        reported.no_duplicates(),
        reported.len() == heads.len(),
        forall|k: int| 0 <= k < reported.len() ==> is_head(heads, #[trigger] reported[k]),
        0 <= i < heads.len(),
    ensures
        reported.contains(heads[i] as u32),
{
    let wide = Seq::new(heads.len(), |j: int| heads[j] as u32);
    assert forall|j: int, k: int|
        0 <= j < wide.len() && 0 <= k < wide.len() && j != k implies wide[j] != wide[k] by {
        if j < k {
            assert(heads[j] != heads[k]);
        } else {
            assert(heads[k] != heads[j]);
        }
    }
    wide.unique_seq_to_set();
    reported.unique_seq_to_set();
    assert forall|x: u32| reported.to_set().contains(x) implies wide.to_set().contains(x) by {
        let k = choose|k: int| 0 <= k < reported.len() && reported[k] == x;
        assert(is_head(heads, reported[k]));
        let j = choose|j: int| 0 <= j < heads.len() && #[trigger] heads[j] == reported[k];
        assert(wide[j] == x);
    }
    vstd::set_lib::lemma_subset_equality(reported.to_set(), wide.to_set());
    assert(wide.to_set().contains(wide[i]));
}

/// Where the scenario with sixteen writes in flight passes, the completion of each of them
/// has come, and none has come twice.
pub proof fn a_pass_means_each_write_completed_once(
    sock: Seq<char>,
    delay_ms: u64,
    replies: Seq<Rep>,
)
    requires
        bench::run(
            bench::set_out(replay::opening(delay_ms, replies)),
            t_data::multi_outstanding(sock),
        ).stage is Live,
    ensures
        ({
            let b = bench::run(
                bench::set_out(replay::opening(delay_ms, replies)),
                t_data::writes_in_flight(sock) + t_data::writes_reaped(16),
            );
            &&& b.heads.len() == 16
            &&& b.reported.len() == 16
            &&& completed_once(b)
            &&& forall|i: int| 0 <= i < 16 ==> b.reported.contains(#[trigger] b.heads[i] as u32)
        }),
{
    let start = bench::set_out(replay::opening(delay_ms, replies));
    let open = seq![stages::plain(sock), Step::Need { sectors: 80 }];
    let posted = t_data::writes_posted(16);
    let kick = seq![Step::Kick];
    let flight = t_data::writes_in_flight(sock);
    let reaped = t_data::writes_reaped(16);
    lemma_live_first(start, flight + reaped, t_data::writes_settled(16));
    lemma_live_first(start, flight, reaped);
    lemma_live_first(start, open + posted, kick);
    lemma_live_first(start, open, posted);
    lemma_connected(start, sock, 80);
    let b1 = bench::run(start, open);
    lemma_writes_posted(b1, 16);
    let b2 = bench::run(b1, posted);
    lemma_one(b2, Step::Kick);
    lemma_aside(b2, Step::Kick);
    let b3 = bench::run(b2, kick);
    lemma_writes_reaped(b3, 16);
    let b4 = bench::run(b3, reaped);
    assert forall|i: int, j: int| 0 <= i < j < b4.heads.len() implies #[trigger] b4.heads[i]
        != #[trigger] b4.heads[j] by {
        lemma_third_slots(b1.s.next_desc as int, i, j);
    }
    assert forall|i: int| 0 <= i < 16 implies b4.reported.contains(
        #[trigger] b4.heads[i] as u32,
    ) by {
        lemma_all_completed(b4.heads, b4.reported, i);
    }
}

} // verus!
