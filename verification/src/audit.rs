//! What holds of every scenario, by its list of steps.

use vstd::prelude::*;

use crate::bench;
use crate::bench::{Sector, Seg, Step};
use crate::checks::WORK;
use crate::dev::{QSZ, STATUS_POISON, VIRTIO_BLK_T_OUT};
use crate::link::Rep;
use crate::mem;
use crate::registry;
use crate::registry::Case;
use crate::replay;
use crate::stages;
use crate::t_data;
use crate::t_precision;
use crate::t_proto;
use crate::t_robust;
use crate::turns;

verus! {

/// The step opens a session.
pub open spec fn opens(s: Step) -> bool {
    s is Connect || s is Handshake
}

/// The sector from which on a step asks the device to change something.
pub open spec fn changed(s: Step) -> Option<Sector> {
    match s {
        Step::Write { at, .. } => Some(at),
        Step::Range { at, .. } => Some(at),
        Step::Header { req_type, at, .. } => if req_type == VIRTIO_BLK_T_OUT {
            Some(at)
        } else {
            None
        },
        _ => None,
    }
}

/// What the step changes lies in the work area.
pub open spec fn spares(s: Step) -> bool {
    match changed(s) {
        Some(Sector::At(n)) => n >= WORK,
        Some(_) => false,
        None => true,
    }
}

/// What step `i` changes lies at the end of the device or past it, and the step before
/// has made sure that this is in the work area or after it.
#[verifier::opaque]
pub open spec fn backed(steps: Seq<Step>, i: int) -> bool {
    i > 0 && match changed(steps[i]) {
        Some(Sector::Last) => steps[i - 1] is Need,
        Some(Sector::Past(k)) => k >= WORK && steps[i - 1] == (Step::Beyond { sectors: k }),
        _ => false,
    }
}

/// Nothing that the step stores has the length of a field of a header or of a run of
/// sectors, but for those themselves and a status of four bytes; and a request with a run
/// is no write.
pub open spec fn told_apart(s: Step) -> bool {
    match s {
        Step::Write { data, .. } => data.len() > 16,
        Step::Read { len, .. } => len > 16,
        Step::ReadIn { len, .. } => len > 16,
        Step::Zero { len, .. } => len > 8,
        Step::Put { at, data, .. } => data.len() == 1 || data.len() > 16 || (at == 0 && data
            == mem::repeated(STATUS_POISON, 4)),
        Step::Range { req_type, .. } => req_type != VIRTIO_BLK_T_OUT,
        _ => true,
    }
}

/// The chain that a step posts, if it posts one.
pub open spec fn chain_of(s: Step) -> Option<Seq<Seg>> {
    match s {
        Step::Submit { chain } => Some(chain),
        Step::Post { chain } => Some(chain),
        Step::PostIndirect { chain, .. } => Some(chain),
        _ => None,
    }
}

/// A chain as a driver has to lay it out: it fits into the ring, what the device reads
/// comes before what it writes, and the last segment takes the status.
pub open spec fn well_ordered(chain: Seq<Seg>) -> bool {
    &&& 1 <= chain.len() <= QSZ
    &&& chain[chain.len() - 1].write
    &&& forall|i: int, j: int|
        0 <= i < j < chain.len() && #[trigger] chain[i].write ==> #[trigger] chain[j].write
}

/// If the step posts a chain, it is well ordered.
pub open spec fn posts_properly(s: Step) -> bool {
    chain_of(s) matches Some(chain) ==> well_ordered(chain)
}

proof fn lemma_chains()
    ensures
        forall|b: usize, len: usize| #[trigger] well_ordered(stages::writing_chain(b, len)),
        forall|b: usize, len: usize| #[trigger] well_ordered(stages::reading_chain(b, len)),
        forall|b: usize| #[trigger] well_ordered(stages::bare_chain(b)),
        forall|n: nat, len: usize, write: bool|
            n <= 64 ==> #[trigger] well_ordered(t_data::spread(n, len, write)),
        forall|b: usize, len: usize| #[trigger] low(stages::writing_chain(b, len)),
        forall|b: usize, len: usize| #[trigger] low(stages::reading_chain(b, len)),
        forall|b: usize| #[trigger] low(stages::bare_chain(b)),
        forall|n: nat, len: usize, write: bool|
            n <= 64 && n * len <= 0x2_0000 ==> #[trigger] low(t_data::spread(n, len, write)),
{
    assert forall|n: nat, len: usize, write: bool|
        n <= 64 && n * len <= 0x2_0000 implies #[trigger] low(t_data::spread(n, len, write)) by {
        let chain = t_data::spread(n, len, write);
        assert forall|i: int| 0 <= i < chain.len() implies #[trigger] chain[i].at <= 0x2_0000 by {
            if 1 <= i <= n {
                assert((i - 1) * len <= n * len) by (nonlinear_arith)
                    requires
                        i <= n,
                ;
            }
        }
    }
}

/// The step asks for no more than 128 KiB at a time, nor for a place farther than that
/// into a buffer.
pub open spec fn modest(s: Step) -> bool {
    match s {
        Step::Write { data, .. } => data.len() <= 0x2_0000,
        Step::Read { len, .. } => len <= 0x2_0000,
        Step::ReadIn { len, .. } => len <= 0x2_0000,
        Step::Alloc { len } => len <= 0x2_0000,
        Step::Put { at, data, .. } => at <= 0x2_0000 && data.len() <= 0x2_0000,
        Step::Zero { len, .. } => len <= 0x2_0000,
        Step::Load { len, .. } => len <= 0x2_0000,
        Step::Post { chain } => low(chain),
        Step::PostIndirect { chain, .. } => low(chain),
        Step::Submit { chain } => low(chain),
        _ => true,
    }
}

/// The segments start within 128 KiB of their buffers, and there is one at least.
pub open spec fn low(chain: Seq<Seg>) -> bool {
    1 <= chain.len() <= QSZ && forall|i: int|
        0 <= i < chain.len() ==> #[trigger] chain[i].at <= 0x2_0000
}

/// The chain whose completion step `i` checks was posted three or four steps before, in
/// the same session.
pub open spec fn head_posted(steps: Seq<Step>, i: int) -> bool {
    &&& i >= 4
    &&& steps[i - 3] is Post || steps[i - 3] is PostIndirect || steps[i - 4] is Post
    &&& !opens(steps[i - 1]) && !opens(steps[i - 2]) && !opens(steps[i - 3])
}

/// Every step spares the sectors before the work area, or is backed by the one before it,
/// posts well ordered chains only, and sends messages that are answered; and a session is
/// opened only at the start or right after a pause.
pub open spec fn considerate(steps: Seq<Step>) -> bool {
    &&& steps.len() > 0 ==> opens(steps[0])
    &&& steps.len() <= 256
    &&& forall|i: int|
        0 <= i < steps.len() ==> (spares(#[trigger] steps[i]) || backed(steps, i))
            && turns::proper(steps[i]) && posts_properly(steps[i]) && modest(steps[i])
            && told_apart(steps[i])
    &&& forall|i: int|
        0 < i < steps.len() && opens(#[trigger] steps[i]) ==> steps[i - 1] is Cooldown
    &&& forall|i: int|
        0 <= i < steps.len() && #[trigger] steps[i] is CheckHead ==> head_posted(steps, i)
}

/// The same, with no session opened at all.
pub open spec fn quiet(steps: Seq<Step>) -> bool {
    &&& forall|i: int|
        0 <= i < steps.len() ==> spares(#[trigger] steps[i]) && turns::proper(steps[i])
            && posts_properly(steps[i]) && modest(steps[i]) && told_apart(steps[i])
    &&& forall|i: int| 0 <= i < steps.len() ==> !opens(#[trigger] steps[i])
    &&& forall|i: int| 0 <= i < steps.len() ==> !(#[trigger] steps[i] is CheckHead)
}

proof fn lemma_blocks_written(n: nat)
    requires
        n <= 16,
    ensures
        quiet(t_data::blocks_written(n)),
        t_data::blocks_written(n).len() == 2 * n,
    decreases n,
{
    lemma_chains();
    if n > 0 {
        lemma_blocks_written((n - 1) as nat);
    }
}

proof fn lemma_blocks_read(n: nat)
    ensures
        quiet(t_data::blocks_read(n)),
        t_data::blocks_read(n).len() == 3 * n,
    decreases n,
{
    lemma_chains();
    if n > 0 {
        lemma_blocks_read((n - 1) as nat);
    }
}

proof fn lemma_writes_posted(n: nat)
    requires
        n <= 16,
    ensures
        quiet(t_data::writes_posted(n)),
        t_data::writes_posted(n).len() == 7 * n,
    decreases n,
{
    lemma_chains();
    if n > 0 {
        lemma_writes_posted((n - 1) as nat);
    }
}

proof fn lemma_writes_reaped(n: nat)
    ensures
        quiet(t_data::writes_reaped(n)),
        t_data::writes_reaped(n).len() == 3 * n,
    decreases n,
{
    lemma_chains();
    if n > 0 {
        lemma_writes_reaped((n - 1) as nat);
    }
}

proof fn lemma_writes_settled(n: nat)
    ensures
        quiet(t_data::writes_settled(n)),
        t_data::writes_settled(n).len() == 3 * n,
    decreases n,
{
    lemma_chains();
    if n > 0 {
        lemma_writes_settled((n - 1) as nat);
    }
}

proof fn lemma_sectors_prepared(n: nat)
    requires
        n <= 16,
    ensures
        quiet(t_data::sectors_prepared(n)),
        t_data::sectors_prepared(n).len() == 2 * n,
    decreases n,
{
    lemma_chains();
    if n > 0 {
        lemma_sectors_prepared((n - 1) as nat);
    }
}

proof fn lemma_reads_posted(n: nat)
    ensures
        quiet(t_data::reads_posted(n)),
        t_data::reads_posted(n).len() == 7 * n,
    decreases n,
{
    lemma_chains();
    if n > 0 {
        lemma_reads_posted((n - 1) as nat);
    }
}

proof fn lemma_reads_reaped(n: nat)
    ensures
        quiet(t_data::reads_reaped(n)),
        t_data::reads_reaped(n).len() == 3 * n,
    decreases n,
{
    lemma_chains();
    if n > 0 {
        lemma_reads_reaped((n - 1) as nat);
    }
}

proof fn lemma_rounds(n: nat)
    ensures
        quiet(t_precision::rounds(n)),
        t_precision::rounds(n).len() == 5 * n,
    decreases n,
{
    lemma_chains();
    if n > 0 {
        lemma_rounds((n - 1) as nat);
    }
}

#[verifier::rlimit(30)]
proof fn lemma_cycles(sock: Seq<char>, n: nat)
    requires
        n <= 5,
    ensures
        t_proto::cycles(sock, n).len() <= 5 * n,
        considerate(t_proto::cycles(sock, n)),
        forall|i: int|
            0 <= i < t_proto::cycles(sock, n).len() ==> spares(
                #[trigger] t_proto::cycles(sock, n)[i],
            ),
        n > 0 ==> t_proto::cycles(sock, n).len() > 0,
    decreases n,
{
    if n > 0 {
        lemma_cycles(sock, (n - 1) as nat);
    }
}

#[verifier::rlimit(30)]
proof fn lemma_data_1(sock: Seq<char>)
    ensures
        considerate(t_data::handshake(sock)),
        considerate(t_data::read0(sock)),
        considerate(t_data::roundtrip(sock)),
        considerate(t_data::multiblock(sock)),
{
    lemma_chains();
    lemma_blocks_written(4);
    lemma_blocks_read(4);
}

#[verifier::rlimit(30)]
proof fn lemma_data_2(sock: Seq<char>)
    ensures
        considerate(t_data::overwrite(sock)),
        considerate(t_data::hdr_split2(sock)),
        considerate(t_data::hdr_split4(sock)),
        considerate(t_data::hdr_data_contiguous_write(sock)),
{
    lemma_chains();
}

#[verifier::rlimit(30)]
proof fn lemma_data_3(sock: Seq<char>)
    ensures
        considerate(t_data::scatter_write(sock)),
        considerate(t_data::scatter_read(sock)),
        considerate(t_data::uneven_segments(sock)),
        considerate(t_data::many_segments(sock)),
{
    lemma_chains();
}

#[verifier::rlimit(30)]
proof fn lemma_data_4(sock: Seq<char>)
    ensures
        considerate(t_data::status_oversized(sock)),
        considerate(t_data::indirect_rw(sock)),
        considerate(t_data::flush(sock)),
        considerate(t_data::flush_nonzero_sector(sock)),
{
    lemma_chains();
}

#[verifier::rlimit(30)]
proof fn lemma_data_5(sock: Seq<char>)
    ensures
        considerate(t_data::get_id(sock)),
        considerate(t_data::write_zeroes(sock)),
        considerate(t_data::write_zeroes_unmap(sock)),
        considerate(t_data::discard(sock)),
{
    lemma_chains();
}

#[verifier::rlimit(30)]
proof fn lemma_data_6(sock: Seq<char>)
    ensures
        considerate(t_data::unsupported_type(sock)),
        considerate(t_data::zero_length_read(sock)),
        considerate(t_data::nonmultiple_length(sock)),
        considerate(t_data::last_sector(sock)),
{
    reveal(backed);
    lemma_chains();
}

#[verifier::rlimit(30)]
proof fn lemma_data_7(sock: Seq<char>)
    ensures
        considerate(t_data::cross_capacity(sock)),
        considerate(t_data::beyond_capacity(sock)),
        considerate(t_data::large_request(sock)),
        considerate(t_data::multi_outstanding(sock)),
{
    lemma_chains();
    lemma_writes_posted(16);
    lemma_writes_reaped(16);
    lemma_writes_settled(16);
}

#[verifier::rlimit(30)]
proof fn lemma_data_8(sock: Seq<char>)
    ensures
        considerate(t_data::out_of_order(sock)),
        considerate(t_data::used_len_read(sock)),
        considerate(t_data::used_len_write(sock)),
        considerate(t_data::spurious_kick(sock)),
{
    lemma_chains();
    lemma_sectors_prepared(8);
    lemma_reads_posted(8);
    lemma_reads_reaped(8);
}

#[verifier::rlimit(30)]
proof fn lemma_data_9(sock: Seq<char>)
    ensures
        considerate(t_data::no_interrupt(sock)),
        considerate(t_data::double_kick(sock)),
{
    lemma_chains();
}

#[verifier::rlimit(30)]
proof fn lemma_proto_1(sock: Seq<char>)
    ensures
        considerate(t_proto::persistence_reconnect(sock)),
        considerate(t_proto::config_capacity_consistency(sock)),
        considerate(t_proto::config_partial_read(sock)),
        considerate(t_proto::get_features_stable(sock)),
{
    lemma_chains();
}

#[verifier::rlimit(30)]
proof fn lemma_proto_2(sock: Seq<char>)
    ensures
        considerate(t_proto::reconnect_stress(sock)),
        considerate(t_proto::double_set_owner(sock)),
        considerate(t_proto::vring_num_zero(sock)),
        considerate(t_proto::vring_num_not_pow2(sock)),
{
    lemma_chains();
    lemma_cycles(sock, 5);
}

#[verifier::rlimit(30)]
proof fn lemma_proto_3(sock: Seq<char>)
    ensures
        considerate(t_proto::vring_num_too_big(sock)),
        considerate(t_proto::vring_addr_unaligned(sock)),
        considerate(t_proto::mem_table_empty(sock)),
        considerate(t_proto::vring_before_mem(sock)),
{
    lemma_chains();
}

#[verifier::rlimit(30)]
proof fn lemma_robust_1(sock: Seq<char>)
    ensures
        considerate(t_robust::desc_next_oob(sock)),
        considerate(t_robust::desc_loop(sock)),
        considerate(t_robust::desc_addr_oob(sock)),
        considerate(t_robust::desc_len_past_region(sock)),
{
    lemma_chains();
}

#[verifier::rlimit(30)]
proof fn lemma_robust_2(sock: Seq<char>)
    ensures
        considerate(t_robust::desc_huge_len(sock)),
        considerate(t_robust::readable_after_writable(sock)),
        considerate(t_robust::indirect_with_next(sock)),
        considerate(t_robust::nested_indirect(sock)),
{
    lemma_chains();
}

#[verifier::rlimit(30)]
proof fn lemma_robust_3(sock: Seq<char>)
    ensures
        considerate(t_robust::indirect_bad_table_len(sock)),
        considerate(t_robust::avail_head_oob(sock)),
        considerate(t_robust::getid_wrong_size(sock)),
        considerate(t_robust::discard_multi_segment(sock)),
{
    lemma_chains();
}

#[verifier::rlimit(30)]
proof fn lemma_robust_4(sock: Seq<char>)
    ensures
        considerate(t_robust::discard_beyond_capacity(sock)),
        considerate(t_robust::sector_overflow(sock)),
        considerate(t_robust::discard_zero_sectors(sock)),
        considerate(t_robust::readonly_write(sock)),
{
    reveal(backed);
    lemma_chains();
}

#[verifier::rlimit(30)]
proof fn lemma_precision_1(sock: Seq<char>)
    ensures
        considerate(t_precision::vring_base_roundtrip(sock)),
        considerate(t_precision::vring_base_tracks_consumed(sock)),
        considerate(t_precision::notify_signaled(sock)),
        considerate(t_precision::notify_suppressed(sock)),
{
    lemma_chains();
}

#[verifier::rlimit(30)]
proof fn lemma_precision_2(sock: Seq<char>)
    ensures
        considerate(t_precision::feature_gating_discard(sock)),
        considerate(t_precision::config_blk_size_sane(sock)),
        considerate(t_precision::used_index_wrap(sock)),
{
    lemma_chains();
    lemma_rounds(24);
}

pub proof fn lemma_every_script(case: Case, sock: Seq<char>)
    ensures
        considerate(registry::script(case, sock)),
{
    lemma_data_1(sock);
    lemma_data_2(sock);
    lemma_data_3(sock);
    lemma_data_4(sock);
    lemma_data_5(sock);
    lemma_data_6(sock);
    lemma_data_7(sock);
    lemma_data_8(sock);
    lemma_data_9(sock);
    lemma_proto_1(sock);
    lemma_proto_2(sock);
    lemma_proto_3(sock);
    lemma_robust_1(sock);
    lemma_robust_2(sock);
    lemma_robust_3(sock);
    lemma_robust_4(sock);
    lemma_precision_1(sock);
    lemma_precision_2(sock);
}

// ---- laws ----------------------------------------------------------------------------

/// Every scenario starts with a session of its own.
pub proof fn scenarios_start_with_a_session(case: Case, sock: Seq<char>)
    ensures
        registry::script(case, sock).len() > 0,
        opens(registry::script(case, sock)[0]),
{
    lemma_every_script(case, sock);
    lemma_cycles(sock, 5);
}

/// A chain that a scenario posts is one that a correct driver posts, whatever else the
/// scenario writes by hand.
pub proof fn posted_chains_are_well_ordered(case: Case, sock: Seq<char>, i: int)
    requires
        0 <= i < registry::script(case, sock).len(),
    ensures
        posts_properly(registry::script(case, sock)[i]),
{
    lemma_every_script(case, sock);
}

/// In every scenario, a session that follows another one comes right after a pause.
pub proof fn later_sessions_follow_a_pause(case: Case, sock: Seq<char>, i: int)
    requires
        0 < i < registry::script(case, sock).len(),
        opens(registry::script(case, sock)[i]),
    ensures
        registry::script(case, sock)[i - 1] is Cooldown,
{
    lemma_every_script(case, sock);
}

/// In every scenario questions and answers take turns: the answers taken are as many as
/// the questions asked, but for one question at the very end of a run that waits.
pub proof fn scenarios_take_turns(
    case: Case,
    sock: Seq<char>,
    delay_ms: u64,
    replies: Seq<Rep>,
)
    ensures
        turns::orderly_at(
            bench::run(
                bench::set_out(replay::opening(delay_ms, replies)),
                registry::script(case, sock),
            ),
        ),
{
    lemma_every_script(case, sock);
    turns::answers_match_questions(registry::script(case, sock), delay_ms, replies);
}

/// The scenario feeds the device bad input that may cost it the session.
pub open spec fn hostile(case: Case) -> bool {
    match case {
        Case::DescNextOob => true,
        Case::DescLoop => true,
        Case::DescAddrOob => true,
        Case::DescLenPastRegion => true,
        Case::DescHugeLen => true,
        Case::ReadableAfterWritable => true,
        Case::IndirectWithNext => true,
        Case::NestedIndirect => true,
        Case::IndirectBadTableLen => true,
        Case::AvailHeadOob => true,
        Case::DoubleSetOwner => true,
        Case::VringNumZero => true,
        Case::VringNumNotPow2 => true,
        Case::VringNumTooBig => true,
        Case::VringAddrUnaligned => true,
        Case::MemTableEmpty => true,
        Case::VringBeforeMem => true,
        _ => false,
    }
}

/// The list of steps ends with a sign of life.
pub open spec fn ends_with_liveness(steps: Seq<Step>, sock: Seq<char>) -> bool {
    let n = stages::liveness(sock).len();
    steps.len() >= n && steps.skip(steps.len() - n) == stages::liveness(sock)
}

proof fn lemma_last_part(sock: Seq<char>)
    ensures
        forall|head: Seq<Step>|
            ends_with_liveness(#[trigger] (head + stages::liveness(sock)), sock),
{
    assert forall|head: Seq<Step>| ends_with_liveness(
        #[trigger] (head + stages::liveness(sock)),
        sock,
    ) by {
        let steps = head + stages::liveness(sock);
        assert(steps.skip(head.len() as int) =~= stages::liveness(sock));
    }
}

/// After bad input the device has to serve a new session: every such scenario ends with
/// a sign of life. These are the scenarios of two categories.
pub proof fn survival_is_checked(case: Case, sock: Seq<char>)
    requires
        hostile(case),
    ensures
        ends_with_liveness(registry::script(case, sock), sock),
        ({
            let category = registry::table()[registry::place(case)].1;
            category == "hostile"@ || category == "robustness"@
        }),
{
    lemma_last_part(sock);
}

} // verus!
