//! When a scenario is skipped.

use vstd::prelude::*;

use crate::bench;
use crate::bench::{Bench, Step};
use crate::deeds;
use crate::dev::Session;
use crate::link::{Got, Rep, Talk};
use crate::model;
use crate::model::Line;
use crate::passing;
use crate::registry;
use crate::registry::Case;
use crate::replay;
use crate::t_data;
use crate::t_precision;
use crate::t_proto;
use crate::verdicts;

verus! {

/// The device lacks what the scenario is about, or room for it past the sectors that are
/// spared.
pub open spec fn short_of(case: Case, s: Session) -> bool {
    match case {
        Case::Roundtrip => s.capacity_sectors < 2060,
        Case::Multiblock => s.capacity_sectors < 2072,
        Case::Overwrite => s.capacity_sectors < 2060,
        Case::PersistenceReconnect => s.capacity_sectors < 2060,
        Case::HdrSplit2 => s.capacity_sectors < 2060,
        Case::HdrSplit4 => s.capacity_sectors < 2060,
        Case::HdrDataContiguousWrite => s.capacity_sectors < 2060,
        Case::ScatterWrite => s.capacity_sectors < 2072,
        Case::ScatterRead => s.capacity_sectors < 2072,
        Case::UnevenSegments => s.capacity_sectors < 2072,
        Case::ManySegments => s.capacity_sectors < 2136,
        Case::StatusOversized => s.capacity_sectors < 2060,
        Case::IndirectRw => s.acked & 0x1000_0000 == 0 || s.capacity_sectors < 2060,
        Case::Flush => s.acked & 0x200 == 0 || s.capacity_sectors < 2060,
        Case::FlushNonzeroSector => s.acked & 0x200 == 0,
        Case::WriteZeroes => s.acked & 0x4000 == 0 || s.capacity_sectors < 2072,
        Case::WriteZeroesUnmap => s.acked & 0x4000 == 0 || s.capacity_sectors < 2072,
        Case::Discard => s.acked & 0x2000 == 0 || s.capacity_sectors < 2072,
        Case::NonmultipleLength => s.capacity_sectors < 2060,
        Case::LastSector => s.capacity_sectors < 2056,
        Case::CrossCapacity => s.capacity_sectors < 2056,
        Case::BeyondCapacity => s.capacity_sectors < 2056,
        Case::LargeRequest => s.capacity_sectors < 2404,
        Case::MultiOutstanding => s.capacity_sectors < 2136,
        Case::OutOfOrder => s.capacity_sectors < 2120,
        Case::UsedLenRead => s.capacity_sectors < 2072,
        Case::UsedLenWrite => s.capacity_sectors < 2252,
        Case::NoInterrupt => s.capacity_sectors < 2060,
        Case::DoubleKick => s.capacity_sectors < 2060,
        Case::ConfigCapacityConsistency => s.capacity_sectors == 0,
        Case::ConfigPartialRead => s.proto & 0x200 != 0x200,
        Case::FeatureGatingDiscard => s.offered & 0x2000 == 0,
        Case::ConfigBlkSizeSane => s.acked & 0x40 == 0,
        Case::UsedIndexWrap => s.capacity_sectors < 2060,
        Case::DiscardMultiSegment => s.acked & 0x2000 == 0,
        Case::DiscardBeyondCapacity => s.acked & 0x2000 == 0 || s.capacity_sectors == 0,
        Case::DiscardZeroSectors => s.acked & 0x2000 == 0,
        Case::ReadonlyWrite => s.acked & 0x20 == 0,
        _ => false,
    }
}

/// The step asks for something that a device need not have.
spec fn asks(t: Step) -> bool {
    t is Need || t is Require
}

/// The session does not have what the step asks for.
spec fn lacks(s: Session, t: Step) -> bool {
    match t {
        Step::Need { sectors } => s.capacity_sectors < 2056 + sectors,
        Step::Require { what, .. } => !deeds::has(s, what),
        _ => false,
    }
}

/// None of the steps asks for anything.
spec fn asks_nothing(steps: Seq<Step>) -> bool {
    forall|i: int| 0 <= i < steps.len() ==> !asks(#[trigger] steps[i])
}

/// The scenario asks for what `short_of` names, right after it has opened its first session,
/// and for nothing else.
spec fn agrees(case: Case, steps: Seq<Step>) -> bool {
    &&& 0 < steps.len()
    &&& !asks(steps[0])
    &&& forall|i: int|
        0 <= i < steps.len() && asks(#[trigger] steps[i]) ==> i == 1 || (i == 2 && asks(steps[1]))
    &&& forall|s: Session| #[trigger]
        short_of(case, s) <==> (steps.len() > 1 && lacks(s, steps[1])) || (steps.len() > 2 && lacks(
            s,
            steps[2],
        ))
}

// ---- the steps of the scenarios -----------------------------------------------------------

proof fn lemma_blocks(n: nat)
    ensures
        asks_nothing(t_data::blocks_written(n)),
        asks_nothing(t_data::blocks_read(n)),
    decreases n,
{
    if n > 0 {
        lemma_blocks((n - 1) as nat);
    }
}

proof fn lemma_writes_posted(n: nat)
    ensures
        asks_nothing(t_data::writes_posted(n)),
    decreases n,
{
    if n > 0 {
        lemma_writes_posted((n - 1) as nat);
    }
}

proof fn lemma_writes_reaped(n: nat)
    ensures
        asks_nothing(t_data::writes_reaped(n)),
    decreases n,
{
    if n > 0 {
        lemma_writes_reaped((n - 1) as nat);
    }
}

proof fn lemma_writes_settled(n: nat)
    ensures
        asks_nothing(t_data::writes_settled(n)),
    decreases n,
{
    if n > 0 {
        lemma_writes_settled((n - 1) as nat);
    }
}

proof fn lemma_sectors_prepared(n: nat)
    ensures
        asks_nothing(t_data::sectors_prepared(n)),
    decreases n,
{
    if n > 0 {
        lemma_sectors_prepared((n - 1) as nat);
    }
}

proof fn lemma_reads_posted(n: nat)
    ensures
        asks_nothing(t_data::reads_posted(n)),
    decreases n,
{
    if n > 0 {
        lemma_reads_posted((n - 1) as nat);
    }
}

proof fn lemma_reads_reaped(n: nat)
    ensures
        asks_nothing(t_data::reads_reaped(n)),
    decreases n,
{
    if n > 0 {
        lemma_reads_reaped((n - 1) as nat);
    }
}

proof fn lemma_rounds(n: nat)
    ensures
        asks_nothing(t_precision::rounds(n)),
    decreases n,
{
    if n > 0 {
        lemma_rounds((n - 1) as nat);
    }
}

proof fn lemma_cycles(sock: Seq<char>, n: nat)
    ensures
        asks_nothing(t_proto::cycles(sock, n)),
    decreases n,
{
    if n > 0 {
        lemma_cycles(sock, (n - 1) as nat);
    }
}

proof fn lemma_terms_1(sock: Seq<char>)
    ensures
        agrees(Case::Handshake, registry::script(Case::Handshake, sock)),
        agrees(Case::Read0, registry::script(Case::Read0, sock)),
        agrees(Case::Roundtrip, registry::script(Case::Roundtrip, sock)),
{
}

proof fn lemma_terms_2(sock: Seq<char>)
    ensures
        agrees(Case::Multiblock, registry::script(Case::Multiblock, sock)),
{
    lemma_blocks(4);
}

proof fn lemma_terms_3(sock: Seq<char>)
    ensures
        agrees(Case::Overwrite, registry::script(Case::Overwrite, sock)),
        agrees(Case::PersistenceReconnect, registry::script(Case::PersistenceReconnect, sock)),
        agrees(Case::HdrSplit2, registry::script(Case::HdrSplit2, sock)),
{
}

proof fn lemma_terms_4(sock: Seq<char>)
    ensures
        agrees(Case::HdrSplit4, registry::script(Case::HdrSplit4, sock)),
        agrees(Case::HdrDataContiguousWrite, registry::script(Case::HdrDataContiguousWrite, sock)),
        agrees(Case::ScatterWrite, registry::script(Case::ScatterWrite, sock)),
{
}

proof fn lemma_terms_5(sock: Seq<char>)
    ensures
        agrees(Case::ScatterRead, registry::script(Case::ScatterRead, sock)),
        agrees(Case::UnevenSegments, registry::script(Case::UnevenSegments, sock)),
        agrees(Case::ManySegments, registry::script(Case::ManySegments, sock)),
{
}

proof fn lemma_terms_6(sock: Seq<char>)
    ensures
        agrees(Case::StatusOversized, registry::script(Case::StatusOversized, sock)),
        agrees(Case::IndirectRw, registry::script(Case::IndirectRw, sock)),
        agrees(Case::Flush, registry::script(Case::Flush, sock)),
{
}

proof fn lemma_terms_7(sock: Seq<char>)
    ensures
        agrees(Case::FlushNonzeroSector, registry::script(Case::FlushNonzeroSector, sock)),
        agrees(Case::GetId, registry::script(Case::GetId, sock)),
        agrees(Case::WriteZeroes, registry::script(Case::WriteZeroes, sock)),
{
}

proof fn lemma_terms_8(sock: Seq<char>)
    ensures
        agrees(Case::WriteZeroesUnmap, registry::script(Case::WriteZeroesUnmap, sock)),
        agrees(Case::Discard, registry::script(Case::Discard, sock)),
        agrees(Case::UnsupportedType, registry::script(Case::UnsupportedType, sock)),
{
}

proof fn lemma_terms_9(sock: Seq<char>)
    ensures
        agrees(Case::ZeroLengthRead, registry::script(Case::ZeroLengthRead, sock)),
        agrees(Case::NonmultipleLength, registry::script(Case::NonmultipleLength, sock)),
        agrees(Case::LastSector, registry::script(Case::LastSector, sock)),
{
}

proof fn lemma_terms_10(sock: Seq<char>)
    ensures
        agrees(Case::CrossCapacity, registry::script(Case::CrossCapacity, sock)),
        agrees(Case::BeyondCapacity, registry::script(Case::BeyondCapacity, sock)),
        agrees(Case::LargeRequest, registry::script(Case::LargeRequest, sock)),
{
}

proof fn lemma_terms_11(sock: Seq<char>)
    ensures
        agrees(Case::MultiOutstanding, registry::script(Case::MultiOutstanding, sock)),
{
    lemma_writes_posted(16);
    lemma_writes_reaped(16);
    lemma_writes_settled(16);
}

proof fn lemma_terms_12(sock: Seq<char>)
    ensures
        agrees(Case::OutOfOrder, registry::script(Case::OutOfOrder, sock)),
{
    lemma_sectors_prepared(8);
    lemma_reads_posted(8);
    lemma_reads_reaped(8);
}

proof fn lemma_terms_13(sock: Seq<char>)
    ensures
        agrees(Case::UsedLenRead, registry::script(Case::UsedLenRead, sock)),
        agrees(Case::UsedLenWrite, registry::script(Case::UsedLenWrite, sock)),
        agrees(Case::SpuriousKick, registry::script(Case::SpuriousKick, sock)),
{
}

proof fn lemma_terms_14(sock: Seq<char>)
    ensures
        agrees(Case::NoInterrupt, registry::script(Case::NoInterrupt, sock)),
        agrees(Case::DoubleKick, registry::script(Case::DoubleKick, sock)),
        agrees(
            Case::ConfigCapacityConsistency,
            registry::script(Case::ConfigCapacityConsistency, sock),
        ),
{
}

proof fn lemma_terms_15(sock: Seq<char>)
    ensures
        agrees(Case::ConfigPartialRead, registry::script(Case::ConfigPartialRead, sock)),
        agrees(Case::GetFeaturesStable, registry::script(Case::GetFeaturesStable, sock)),
        agrees(Case::DescNextOob, registry::script(Case::DescNextOob, sock)),
{
}

proof fn lemma_terms_16(sock: Seq<char>)
    ensures
        agrees(Case::DescLoop, registry::script(Case::DescLoop, sock)),
        agrees(Case::DescAddrOob, registry::script(Case::DescAddrOob, sock)),
        agrees(Case::DescLenPastRegion, registry::script(Case::DescLenPastRegion, sock)),
{
}

proof fn lemma_terms_17(sock: Seq<char>)
    ensures
        agrees(Case::DescHugeLen, registry::script(Case::DescHugeLen, sock)),
        agrees(Case::ReadableAfterWritable, registry::script(Case::ReadableAfterWritable, sock)),
        agrees(Case::IndirectWithNext, registry::script(Case::IndirectWithNext, sock)),
{
}

proof fn lemma_terms_18(sock: Seq<char>)
    ensures
        agrees(Case::NestedIndirect, registry::script(Case::NestedIndirect, sock)),
        agrees(Case::IndirectBadTableLen, registry::script(Case::IndirectBadTableLen, sock)),
        agrees(Case::AvailHeadOob, registry::script(Case::AvailHeadOob, sock)),
{
}

proof fn lemma_terms_19(sock: Seq<char>)
    ensures
        agrees(Case::VringBaseRoundtrip, registry::script(Case::VringBaseRoundtrip, sock)),
        agrees(
            Case::VringBaseTracksConsumed,
            registry::script(Case::VringBaseTracksConsumed, sock),
        ),
        agrees(Case::NotifySignaled, registry::script(Case::NotifySignaled, sock)),
{
}

proof fn lemma_terms_20(sock: Seq<char>)
    ensures
        agrees(Case::NotifySuppressed, registry::script(Case::NotifySuppressed, sock)),
        agrees(Case::FeatureGatingDiscard, registry::script(Case::FeatureGatingDiscard, sock)),
        agrees(Case::ConfigBlkSizeSane, registry::script(Case::ConfigBlkSizeSane, sock)),
{
}

proof fn lemma_terms_21(sock: Seq<char>)
    ensures
        agrees(Case::UsedIndexWrap, registry::script(Case::UsedIndexWrap, sock)),
{
    lemma_rounds(24);
}

proof fn lemma_terms_22(sock: Seq<char>)
    ensures
        agrees(Case::GetidWrongSize, registry::script(Case::GetidWrongSize, sock)),
        agrees(Case::DiscardMultiSegment, registry::script(Case::DiscardMultiSegment, sock)),
        agrees(Case::DiscardBeyondCapacity, registry::script(Case::DiscardBeyondCapacity, sock)),
{
}

proof fn lemma_terms_23(sock: Seq<char>)
    ensures
        agrees(Case::SectorOverflow, registry::script(Case::SectorOverflow, sock)),
        agrees(Case::DiscardZeroSectors, registry::script(Case::DiscardZeroSectors, sock)),
        agrees(Case::ReadonlyWrite, registry::script(Case::ReadonlyWrite, sock)),
{
}

proof fn lemma_terms_24(sock: Seq<char>)
    ensures
        agrees(Case::ReconnectStress, registry::script(Case::ReconnectStress, sock)),
{
    lemma_cycles(sock, 5);
    reveal_with_fuel(t_proto::cycles, 6);
}

proof fn lemma_terms_25(sock: Seq<char>)
    ensures
        agrees(Case::DoubleSetOwner, registry::script(Case::DoubleSetOwner, sock)),
        agrees(Case::VringNumZero, registry::script(Case::VringNumZero, sock)),
        agrees(Case::VringNumNotPow2, registry::script(Case::VringNumNotPow2, sock)),
{
}

proof fn lemma_terms_26(sock: Seq<char>)
    ensures
        agrees(Case::VringNumTooBig, registry::script(Case::VringNumTooBig, sock)),
        agrees(Case::VringAddrUnaligned, registry::script(Case::VringAddrUnaligned, sock)),
        agrees(Case::MemTableEmpty, registry::script(Case::MemTableEmpty, sock)),
{
}

proof fn lemma_terms_27(sock: Seq<char>)
    ensures
        agrees(Case::VringBeforeMem, registry::script(Case::VringBeforeMem, sock)),
{
}

proof fn lemma_terms(case: Case, sock: Seq<char>)
    ensures
        agrees(case, registry::script(case, sock)),
{
    lemma_terms_1(sock);
    lemma_terms_2(sock);
    lemma_terms_3(sock);
    lemma_terms_4(sock);
    lemma_terms_5(sock);
    lemma_terms_6(sock);
    lemma_terms_7(sock);
    lemma_terms_8(sock);
    lemma_terms_9(sock);
    lemma_terms_10(sock);
    lemma_terms_11(sock);
    lemma_terms_12(sock);
    lemma_terms_13(sock);
    lemma_terms_14(sock);
    lemma_terms_15(sock);
    lemma_terms_16(sock);
    lemma_terms_17(sock);
    lemma_terms_18(sock);
    lemma_terms_19(sock);
    lemma_terms_20(sock);
    lemma_terms_21(sock);
    lemma_terms_22(sock);
    lemma_terms_23(sock);
    lemma_terms_24(sock);
    lemma_terms_25(sock);
    lemma_terms_26(sock);
    lemma_terms_27(sock);
}

// ---- skipping ---------------------------------------------------------------------------

proof fn lemma_no_skip_by_session(b: Bench, r: (Talk, Got<Session>))
    requires
        b.stage is Live,
    ensures
        !(b.opened(r).stage is Skipped),
{
}

proof fn lemma_no_skip_by_status(b: Bench, r: (Line, Got<u8>))
    requires
        b.stage is Live,
    ensures
        !(b.with_status(r).stage is Skipped),
{
}

proof fn lemma_no_skip_by_data(b: Bench, r: (Line, Got<(u8, Seq<u8>)>), tag: Option<Seq<char>>)
    requires
        b.stage is Live,
    ensures
        !(b.with_data(r, tag).stage is Skipped),
{
}

spec fn opens_session(t: Step) -> bool {
    t is Connect || t is Handshake
}

spec fn requests(t: Step) -> bool {
    t is Write || t is Read || t is ReadIn || t is Flush || t is GetId || t is Range || t is Submit
}

proof fn lemma_no_skip_on_opening(b: Bench, t: Step)
    requires
        b.stage is Live,
        opens_session(t),
    ensures
        !(bench::taken(b, t).stage is Skipped),
{
    match t {
        Step::Connect { path, mask_out, base } => {
            lemma_no_skip_by_session(b, model::connect(b.io, path, false, mask_out, base));
        },
        Step::Handshake { path, do_mem_table } => {
            lemma_no_skip_by_session(b, model::handshake(b.io, path, do_mem_table, false, 0));
        },
        _ => {},
    }
}

proof fn lemma_no_skip_on_request(b: Bench, t: Step)
    requires
        b.stage is Live,
        requests(t),
    ensures
        !(bench::taken(b, t).stage is Skipped),
{
    let l = b.line();
    match t {
        Step::Write { at, data } => {
            lemma_no_skip_by_status(b, model::blk_write(l, b.sector(at), data));
        },
        Step::Read { at, len } => {
            lemma_no_skip_by_data(b, model::blk_read(l, b.sector(at), len as int), None);
        },
        Step::ReadIn { tag, at, len } => {
            lemma_no_skip_by_data(b, model::blk_read(l, b.sector(at), len as int), Some(tag));
        },
        Step::Flush => {
            lemma_no_skip_by_status(b, model::blk_flush(l));
        },
        Step::GetId => {
            lemma_no_skip_by_data(b, model::blk_get_id(l), None);
        },
        Step::Range { req_type, at, num_sectors, unmap } => {
            lemma_no_skip_by_status(
                b,
                model::blk_zeroes_or_discard(l, req_type, b.sector(at), num_sectors, unmap),
            );
        },
        _ => {},
    }
}

proof fn lemma_no_skip_else(b: Bench, t: Step)
    requires
        b.stage is Live,
        !asks(t),
        !opens_session(t),
        !requests(t),
    ensures
        !(bench::taken(b, t).stage is Skipped),
{
}

/// A step that asks for something skips the scenario exactly where that is lacking, and does
/// nothing else. No other step skips a scenario.
pub proof fn only_what_is_lacking_skips(b: Bench, t: Step)
    requires
        b.stage is Live,
    ensures
        t matches Step::Need { sectors } ==> if b.s.capacity_sectors < 2056 + sectors {
            bench::step(b, t).stage is Skipped
        } else {
            bench::step(b, t) == b
        },
        t matches Step::Require { what, .. } ==> if deeds::has(b.s, what) {
            bench::step(b, t) == b
        } else {
            bench::step(b, t).stage is Skipped
        },
        bench::step(b, t).stage is Skipped ==> t is Need || t is Require,
        bench::step(b, t).stage is Skipped ==> bench::step(b, t).io == b.io,
{
    if asks(t) {
        reveal(bench::step);
    } else {
        assert(bench::step(b, t) == bench::taken(b, t)) by {
            reveal(bench::step);
        }
        if opens_session(t) {
            lemma_no_skip_on_opening(b, t);
        } else if requests(t) {
            lemma_no_skip_on_request(b, t);
        } else {
            lemma_no_skip_else(b, t);
        }
    }
}

proof fn lemma_stays(start: Bench, steps: Seq<Step>, i: nat, k: nat)
    requires
        i <= k,
        !(bench::run_to(start, steps, i).stage is Live),
    ensures
        bench::run_to(start, steps, k) == bench::run_to(start, steps, i),
    decreases k,
{
    if k > i {
        lemma_stays(start, steps, i, (k - 1) as nat);
        reveal(bench::step);
    }
}

/// Where a run was skipped.
proof fn lemma_skipped_at(start: Bench, steps: Seq<Step>, k: nat) -> (i: nat)
    requires
        start.stage is Live,
        k <= steps.len(),
        bench::run_to(start, steps, k).stage is Skipped,
    ensures
        i < k,
        bench::run_to(start, steps, i).stage is Live,
        bench::run_to(start, steps, i + 1).stage is Skipped,
        bench::run_to(start, steps, k) == bench::run_to(start, steps, i + 1),
    decreases k,
{
    let j = (k - 1) as nat;
    if bench::run_to(start, steps, j).stage is Live {
        j
    } else {
        lemma_stays(start, steps, j, k);
        lemma_skipped_at(start, steps, j)
    }
}

/// A scenario is skipped exactly where its first session was opened and the device is short
/// of what the scenario needs. It is skipped right then, before anything is asked of the
/// device. A fault is never a reason to skip.
pub proof fn skipped_exactly_where_short(
    case: Case,
    sock: Seq<char>,
    delay_ms: u64,
    replies: Seq<Rep>,
)
    ensures
        ({
            let start = bench::set_out(replay::opening(delay_ms, replies));
            let opened = bench::run_to(start, registry::script(case, sock), 1);
            let end = passing::run_of(case, sock, delay_ms, replies);
            &&& end.stage is Skipped <==> opened.stage is Live && short_of(case, opened.s)
            &&& end.stage is Skipped ==> end.io == opened.io
        }),
{
    let start = bench::set_out(replay::opening(delay_ms, replies));
    let steps = registry::script(case, sock);
    let end = bench::run(start, steps);
    lemma_terms(case, sock);
    reveal_with_fuel(bench::run_to, 4);
    let one = bench::run_to(start, steps, 1);
    if end.stage is Skipped {
        let i = lemma_skipped_at(start, steps, steps.len());
        let b = bench::run_to(start, steps, i);
        only_what_is_lacking_skips(b, steps[i as int]);
        assert(asks(steps[i as int]));
        if i == 2 {
            verdicts::lemma_live_before(start, steps, 1, 2);
            only_what_is_lacking_skips(one, steps[1]);
        }
        assert(lacks(one.s, steps[i as int]));
    }
    if one.stage is Live && short_of(case, one.s) {
        only_what_is_lacking_skips(one, steps[1]);
        if bench::run_to(start, steps, 2).stage is Live {
            only_what_is_lacking_skips(one, steps[2]);
            lemma_stays(start, steps, 3, steps.len());
        } else {
            lemma_stays(start, steps, 2, steps.len());
        }
    }
}

} // verus!
