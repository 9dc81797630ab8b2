//! All scenarios, by name and category, in the order in which they are run.

use vstd::prelude::*;

use crate::bench;
use crate::bench::Step;
use crate::t_data;
use crate::t_precision;
use crate::t_proto;
use crate::t_robust;
use crate::trial::Trial;

verus! {

/// One scenario.
#[derive(Clone, Copy, PartialEq, Eq, Structural)]
pub enum Case {
    Handshake,
    Read0,
    Roundtrip,
    Multiblock,
    Overwrite,
    PersistenceReconnect,
    HdrSplit2,
    HdrSplit4,
    HdrDataContiguousWrite,
    ScatterWrite,
    ScatterRead,
    UnevenSegments,
    ManySegments,
    StatusOversized,
    IndirectRw,
    Flush,
    FlushNonzeroSector,
    GetId,
    WriteZeroes,
    WriteZeroesUnmap,
    Discard,
    UnsupportedType,
    ZeroLengthRead,
    NonmultipleLength,
    LastSector,
    CrossCapacity,
    BeyondCapacity,
    LargeRequest,
    MultiOutstanding,
    OutOfOrder,
    UsedLenRead,
    UsedLenWrite,
    SpuriousKick,
    NoInterrupt,
    DoubleKick,
    ConfigCapacityConsistency,
    ConfigPartialRead,
    GetFeaturesStable,
    DescNextOob,
    DescLoop,
    DescAddrOob,
    DescLenPastRegion,
    DescHugeLen,
    ReadableAfterWritable,
    IndirectWithNext,
    NestedIndirect,
    IndirectBadTableLen,
    AvailHeadOob,
    VringBaseRoundtrip,
    VringBaseTracksConsumed,
    NotifySignaled,
    NotifySuppressed,
    FeatureGatingDiscard,
    ConfigBlkSizeSane,
    UsedIndexWrap,
    GetidWrongSize,
    DiscardMultiSegment,
    DiscardBeyondCapacity,
    SectorOverflow,
    DiscardZeroSectors,
    ReadonlyWrite,
    ReconnectStress,
    DoubleSetOwner,
    VringNumZero,
    VringNumNotPow2,
    VringNumTooBig,
    VringAddrUnaligned,
    MemTableEmpty,
    VringBeforeMem,
}

/// Name, category and scenario.
pub type Test = (&'static str, &'static str, Case);

/// Name, category and scenario, by characters.
pub type Entry = (Seq<char>, Seq<char>, Case);

pub open spec fn entry(t: Test) -> Entry {
    (t.0@, t.1@, t.2)
}

pub open spec fn entries(tests: Seq<Test>) -> Seq<Entry> {
    Seq::new(tests.len(), |i: int| entry(tests[i]))
}

/// The table of scenarios.
pub open spec fn table() -> Seq<Entry> {
    seq![
        ("handshake"@, "smoke"@, Case::Handshake),
        ("read-sector-0"@, "smoke"@, Case::Read0),
        ("roundtrip"@, "integrity"@, Case::Roundtrip),
        ("multiblock-distinct-patterns"@, "integrity"@, Case::Multiblock),
        ("overwrite"@, "integrity"@, Case::Overwrite),
        ("persistence-across-reconnect"@, "integrity"@, Case::PersistenceReconnect),
        ("header-split-8+8"@, "descriptors"@, Case::HdrSplit2),
        ("header-split-4x4"@, "descriptors"@, Case::HdrSplit4),
        ("header+data-one-desc (write)"@, "descriptors"@, Case::HdrDataContiguousWrite),
        ("scatter-write-8x512"@, "descriptors"@, Case::ScatterWrite),
        ("scatter-read-8x512"@, "descriptors"@, Case::ScatterRead),
        ("uneven-segments-512/1024/512/2048"@, "descriptors"@, Case::UnevenSegments),
        ("many-segments-64x512"@, "descriptors"@, Case::ManySegments),
        ("oversized-status-desc"@, "descriptors"@, Case::StatusOversized),
        ("indirect-descriptors"@, "descriptors"@, Case::IndirectRw),
        ("flush"@, "req-types"@, Case::Flush),
        ("flush-nonzero-sector"@, "req-types"@, Case::FlushNonzeroSector),
        ("get-id"@, "req-types"@, Case::GetId),
        ("write-zeroes"@, "req-types"@, Case::WriteZeroes),
        ("write-zeroes-unmap"@, "req-types"@, Case::WriteZeroesUnmap),
        ("discard-then-rewrite"@, "req-types"@, Case::Discard),
        ("unsupported-request-type"@, "req-types"@, Case::UnsupportedType),
        ("zero-length-read"@, "req-types"@, Case::ZeroLengthRead),
        ("non-multiple-length"@, "req-types"@, Case::NonmultipleLength),
        ("last-sector"@, "bounds"@, Case::LastSector),
        ("cross-capacity-boundary"@, "bounds"@, Case::CrossCapacity),
        ("beyond-capacity"@, "bounds"@, Case::BeyondCapacity),
        ("large-request-128k"@, "bounds"@, Case::LargeRequest),
        ("multi-outstanding-16"@, "vq-mechanics"@, Case::MultiOutstanding),
        ("out-of-order-completion"@, "vq-mechanics"@, Case::OutOfOrder),
        ("used.len-read=data+status"@, "vq-mechanics"@, Case::UsedLenRead),
        ("used.len-write=1"@, "vq-mechanics"@, Case::UsedLenWrite),
        ("spurious-kick"@, "vq-mechanics"@, Case::SpuriousKick),
        ("no-interrupt-flag"@, "vq-mechanics"@, Case::NoInterrupt),
        ("double-kick"@, "vq-mechanics"@, Case::DoubleKick),
        ("config-capacity-consistency"@, "config"@, Case::ConfigCapacityConsistency),
        ("config-partial-read"@, "config"@, Case::ConfigPartialRead),
        ("get-features-stable"@, "config"@, Case::GetFeaturesStable),
        ("desc-next-out-of-bounds"@, "robustness"@, Case::DescNextOob),
        ("descriptor-loop"@, "robustness"@, Case::DescLoop),
        ("oob-descriptor-address"@, "robustness"@, Case::DescAddrOob),
        ("descriptor-len-past-region"@, "robustness"@, Case::DescLenPastRegion),
        ("huge-descriptor-len"@, "robustness"@, Case::DescHugeLen),
        ("readable-after-writable"@, "robustness"@, Case::ReadableAfterWritable),
        ("indirect-with-next"@, "robustness"@, Case::IndirectWithNext),
        ("nested-indirect"@, "robustness"@, Case::NestedIndirect),
        ("indirect-bad-table-len"@, "robustness"@, Case::IndirectBadTableLen),
        ("avail-head-out-of-bounds"@, "robustness"@, Case::AvailHeadOob),
        ("vring-base-roundtrip"@, "precision"@, Case::VringBaseRoundtrip),
        ("vring-base-tracks-consumed"@, "precision"@, Case::VringBaseTracksConsumed),
        ("notify-signaled-when-enabled"@, "precision"@, Case::NotifySignaled),
        ("notify-suppressed-no-interrupt"@, "precision"@, Case::NotifySuppressed),
        ("feature-gating-discard"@, "precision"@, Case::FeatureGatingDiscard),
        ("config-blk-size-sane"@, "precision"@, Case::ConfigBlkSizeSane),
        ("used-index-wrap"@, "precision"@, Case::UsedIndexWrap),
        ("get-id-wrong-buffer-size"@, "validation"@, Case::GetidWrongSize),
        ("discard-multi-segment"@, "validation"@, Case::DiscardMultiSegment),
        ("discard-beyond-capacity"@, "validation"@, Case::DiscardBeyondCapacity),
        ("sector+len-overflow"@, "validation"@, Case::SectorOverflow),
        ("discard-zero-sectors"@, "validation"@, Case::DiscardZeroSectors),
        ("readonly-write-rejected"@, "validation"@, Case::ReadonlyWrite),
        ("reconnect-stress"@, "lifecycle"@, Case::ReconnectStress),
        ("double-set-owner"@, "hostile"@, Case::DoubleSetOwner),
        ("vring-num-zero"@, "hostile"@, Case::VringNumZero),
        ("vring-num-not-pow2"@, "hostile"@, Case::VringNumNotPow2),
        ("vring-num-too-big"@, "hostile"@, Case::VringNumTooBig),
        ("vring-addr-unaligned"@, "hostile"@, Case::VringAddrUnaligned),
        ("mem-table-empty"@, "hostile"@, Case::MemTableEmpty),
        ("vring-before-mem-table"@, "hostile"@, Case::VringBeforeMem),
    ]
}

/// All scenarios.
pub fn all() -> (v: Vec<Test>)
    ensures
        entries(v@) == table(),
{
    let v: Vec<Test> = vec![
        ("handshake", "smoke", Case::Handshake),
        ("read-sector-0", "smoke", Case::Read0),
        ("roundtrip", "integrity", Case::Roundtrip),
        ("multiblock-distinct-patterns", "integrity", Case::Multiblock),
        ("overwrite", "integrity", Case::Overwrite),
        ("persistence-across-reconnect", "integrity", Case::PersistenceReconnect),
        ("header-split-8+8", "descriptors", Case::HdrSplit2),
        ("header-split-4x4", "descriptors", Case::HdrSplit4),
        ("header+data-one-desc (write)", "descriptors", Case::HdrDataContiguousWrite),
        ("scatter-write-8x512", "descriptors", Case::ScatterWrite),
        ("scatter-read-8x512", "descriptors", Case::ScatterRead),
        ("uneven-segments-512/1024/512/2048", "descriptors", Case::UnevenSegments),
        ("many-segments-64x512", "descriptors", Case::ManySegments),
        ("oversized-status-desc", "descriptors", Case::StatusOversized),
        ("indirect-descriptors", "descriptors", Case::IndirectRw),
        ("flush", "req-types", Case::Flush),
        ("flush-nonzero-sector", "req-types", Case::FlushNonzeroSector),
        ("get-id", "req-types", Case::GetId),
        ("write-zeroes", "req-types", Case::WriteZeroes),
        ("write-zeroes-unmap", "req-types", Case::WriteZeroesUnmap),
        ("discard-then-rewrite", "req-types", Case::Discard),
        ("unsupported-request-type", "req-types", Case::UnsupportedType),
        ("zero-length-read", "req-types", Case::ZeroLengthRead),
        ("non-multiple-length", "req-types", Case::NonmultipleLength),
        ("last-sector", "bounds", Case::LastSector),
        ("cross-capacity-boundary", "bounds", Case::CrossCapacity),
        ("beyond-capacity", "bounds", Case::BeyondCapacity),
        ("large-request-128k", "bounds", Case::LargeRequest),
        ("multi-outstanding-16", "vq-mechanics", Case::MultiOutstanding),
        ("out-of-order-completion", "vq-mechanics", Case::OutOfOrder),
        ("used.len-read=data+status", "vq-mechanics", Case::UsedLenRead),
        ("used.len-write=1", "vq-mechanics", Case::UsedLenWrite),
        ("spurious-kick", "vq-mechanics", Case::SpuriousKick),
        ("no-interrupt-flag", "vq-mechanics", Case::NoInterrupt),
        ("double-kick", "vq-mechanics", Case::DoubleKick),
        ("config-capacity-consistency", "config", Case::ConfigCapacityConsistency),
        ("config-partial-read", "config", Case::ConfigPartialRead),
        ("get-features-stable", "config", Case::GetFeaturesStable),
        ("desc-next-out-of-bounds", "robustness", Case::DescNextOob),
        ("descriptor-loop", "robustness", Case::DescLoop),
        ("oob-descriptor-address", "robustness", Case::DescAddrOob),
        ("descriptor-len-past-region", "robustness", Case::DescLenPastRegion),
        ("huge-descriptor-len", "robustness", Case::DescHugeLen),
        ("readable-after-writable", "robustness", Case::ReadableAfterWritable),
        ("indirect-with-next", "robustness", Case::IndirectWithNext),
        ("nested-indirect", "robustness", Case::NestedIndirect),
        ("indirect-bad-table-len", "robustness", Case::IndirectBadTableLen),
        ("avail-head-out-of-bounds", "robustness", Case::AvailHeadOob),
        ("vring-base-roundtrip", "precision", Case::VringBaseRoundtrip),
        ("vring-base-tracks-consumed", "precision", Case::VringBaseTracksConsumed),
        ("notify-signaled-when-enabled", "precision", Case::NotifySignaled),
        ("notify-suppressed-no-interrupt", "precision", Case::NotifySuppressed),
        ("feature-gating-discard", "precision", Case::FeatureGatingDiscard),
        ("config-blk-size-sane", "precision", Case::ConfigBlkSizeSane),
        ("used-index-wrap", "precision", Case::UsedIndexWrap),
        ("get-id-wrong-buffer-size", "validation", Case::GetidWrongSize),
        ("discard-multi-segment", "validation", Case::DiscardMultiSegment),
        ("discard-beyond-capacity", "validation", Case::DiscardBeyondCapacity),
        ("sector+len-overflow", "validation", Case::SectorOverflow),
        ("discard-zero-sectors", "validation", Case::DiscardZeroSectors),
        ("readonly-write-rejected", "validation", Case::ReadonlyWrite),
        ("reconnect-stress", "lifecycle", Case::ReconnectStress),
        ("double-set-owner", "hostile", Case::DoubleSetOwner),
        ("vring-num-zero", "hostile", Case::VringNumZero),
        ("vring-num-not-pow2", "hostile", Case::VringNumNotPow2),
        ("vring-num-too-big", "hostile", Case::VringNumTooBig),
        ("vring-addr-unaligned", "hostile", Case::VringAddrUnaligned),
        ("mem-table-empty", "hostile", Case::MemTableEmpty),
        ("vring-before-mem-table", "hostile", Case::VringBeforeMem),
    ];
    assert(entries(v@) =~= table());
    v
}

/// The steps of a scenario.
pub open spec fn script(case: Case, sock: Seq<char>) -> Seq<Step> {
    match case {
        Case::Handshake => t_data::handshake(sock),
        Case::Read0 => t_data::read0(sock),
        Case::Roundtrip => t_data::roundtrip(sock),
        Case::Multiblock => t_data::multiblock(sock),
        Case::Overwrite => t_data::overwrite(sock),
        Case::PersistenceReconnect => t_proto::persistence_reconnect(sock),
        Case::HdrSplit2 => t_data::hdr_split2(sock),
        Case::HdrSplit4 => t_data::hdr_split4(sock),
        Case::HdrDataContiguousWrite => t_data::hdr_data_contiguous_write(sock),
        Case::ScatterWrite => t_data::scatter_write(sock),
        Case::ScatterRead => t_data::scatter_read(sock),
        Case::UnevenSegments => t_data::uneven_segments(sock),
        Case::ManySegments => t_data::many_segments(sock),
        Case::StatusOversized => t_data::status_oversized(sock),
        Case::IndirectRw => t_data::indirect_rw(sock),
        Case::Flush => t_data::flush(sock),
        Case::FlushNonzeroSector => t_data::flush_nonzero_sector(sock),
        Case::GetId => t_data::get_id(sock),
        Case::WriteZeroes => t_data::write_zeroes(sock),
        Case::WriteZeroesUnmap => t_data::write_zeroes_unmap(sock),
        Case::Discard => t_data::discard(sock),
        Case::UnsupportedType => t_data::unsupported_type(sock),
        Case::ZeroLengthRead => t_data::zero_length_read(sock),
        Case::NonmultipleLength => t_data::nonmultiple_length(sock),
        Case::LastSector => t_data::last_sector(sock),
        Case::CrossCapacity => t_data::cross_capacity(sock),
        Case::BeyondCapacity => t_data::beyond_capacity(sock),
        Case::LargeRequest => t_data::large_request(sock),
        Case::MultiOutstanding => t_data::multi_outstanding(sock),
        Case::OutOfOrder => t_data::out_of_order(sock),
        Case::UsedLenRead => t_data::used_len_read(sock),
        Case::UsedLenWrite => t_data::used_len_write(sock),
        Case::SpuriousKick => t_data::spurious_kick(sock),
        Case::NoInterrupt => t_data::no_interrupt(sock),
        Case::DoubleKick => t_data::double_kick(sock),
        Case::ConfigCapacityConsistency => t_proto::config_capacity_consistency(sock),
        Case::ConfigPartialRead => t_proto::config_partial_read(sock),
        Case::GetFeaturesStable => t_proto::get_features_stable(sock),
        Case::DescNextOob => t_robust::desc_next_oob(sock),
        Case::DescLoop => t_robust::desc_loop(sock),
        Case::DescAddrOob => t_robust::desc_addr_oob(sock),
        Case::DescLenPastRegion => t_robust::desc_len_past_region(sock),
        Case::DescHugeLen => t_robust::desc_huge_len(sock),
        Case::ReadableAfterWritable => t_robust::readable_after_writable(sock),
        Case::IndirectWithNext => t_robust::indirect_with_next(sock),
        Case::NestedIndirect => t_robust::nested_indirect(sock),
        Case::IndirectBadTableLen => t_robust::indirect_bad_table_len(sock),
        Case::AvailHeadOob => t_robust::avail_head_oob(sock),
        Case::VringBaseRoundtrip => t_precision::vring_base_roundtrip(sock),
        Case::VringBaseTracksConsumed => t_precision::vring_base_tracks_consumed(sock),
        Case::NotifySignaled => t_precision::notify_signaled(sock),
        Case::NotifySuppressed => t_precision::notify_suppressed(sock),
        Case::FeatureGatingDiscard => t_precision::feature_gating_discard(sock),
        Case::ConfigBlkSizeSane => t_precision::config_blk_size_sane(sock),
        Case::UsedIndexWrap => t_precision::used_index_wrap(sock),
        Case::GetidWrongSize => t_robust::getid_wrong_size(sock),
        Case::DiscardMultiSegment => t_robust::discard_multi_segment(sock),
        Case::DiscardBeyondCapacity => t_robust::discard_beyond_capacity(sock),
        Case::SectorOverflow => t_robust::sector_overflow(sock),
        Case::DiscardZeroSectors => t_robust::discard_zero_sectors(sock),
        Case::ReadonlyWrite => t_robust::readonly_write(sock),
        Case::ReconnectStress => t_proto::reconnect_stress(sock),
        Case::DoubleSetOwner => t_proto::double_set_owner(sock),
        Case::VringNumZero => t_proto::vring_num_zero(sock),
        Case::VringNumNotPow2 => t_proto::vring_num_not_pow2(sock),
        Case::VringNumTooBig => t_proto::vring_num_too_big(sock),
        Case::VringAddrUnaligned => t_proto::vring_addr_unaligned(sock),
        Case::MemTableEmpty => t_proto::mem_table_empty(sock),
        Case::VringBeforeMem => t_proto::vring_before_mem(sock),
    }
}

/// Runs a scenario as far as its answers go.
pub fn run_case(case: Case, sock: &str, t: &mut Trial)
    requires
        old(t).wf(),
    ensures
        final(t)@ == bench::run(old(t)@, script(case, sock@)),
        final(t).wf(),
{
    match case {
        Case::Handshake => t_data::t_handshake(sock, t),
        Case::Read0 => t_data::t_read0(sock, t),
        Case::Roundtrip => t_data::t_roundtrip(sock, t),
        Case::Multiblock => t_data::t_multiblock(sock, t),
        Case::Overwrite => t_data::t_overwrite(sock, t),
        Case::PersistenceReconnect => t_proto::t_persistence_reconnect(sock, t),
        Case::HdrSplit2 => t_data::t_hdr_split2(sock, t),
        Case::HdrSplit4 => t_data::t_hdr_split4(sock, t),
        Case::HdrDataContiguousWrite => t_data::t_hdr_data_contiguous_write(sock, t),
        Case::ScatterWrite => t_data::t_scatter_write(sock, t),
        Case::ScatterRead => t_data::t_scatter_read(sock, t),
        Case::UnevenSegments => t_data::t_uneven_segments(sock, t),
        Case::ManySegments => t_data::t_many_segments(sock, t),
        Case::StatusOversized => t_data::t_status_oversized(sock, t),
        Case::IndirectRw => t_data::t_indirect_rw(sock, t),
        Case::Flush => t_data::t_flush(sock, t),
        Case::FlushNonzeroSector => t_data::t_flush_nonzero_sector(sock, t),
        Case::GetId => t_data::t_get_id(sock, t),
        Case::WriteZeroes => t_data::t_write_zeroes(sock, t),
        Case::WriteZeroesUnmap => t_data::t_write_zeroes_unmap(sock, t),
        Case::Discard => t_data::t_discard(sock, t),
        Case::UnsupportedType => t_data::t_unsupported_type(sock, t),
        Case::ZeroLengthRead => t_data::t_zero_length_read(sock, t),
        Case::NonmultipleLength => t_data::t_nonmultiple_length(sock, t),
        Case::LastSector => t_data::t_last_sector(sock, t),
        Case::CrossCapacity => t_data::t_cross_capacity(sock, t),
        Case::BeyondCapacity => t_data::t_beyond_capacity(sock, t),
        Case::LargeRequest => t_data::t_large_request(sock, t),
        Case::MultiOutstanding => t_data::t_multi_outstanding(sock, t),
        Case::OutOfOrder => t_data::t_out_of_order(sock, t),
        Case::UsedLenRead => t_data::t_used_len_read(sock, t),
        Case::UsedLenWrite => t_data::t_used_len_write(sock, t),
        Case::SpuriousKick => t_data::t_spurious_kick(sock, t),
        Case::NoInterrupt => t_data::t_no_interrupt(sock, t),
        Case::DoubleKick => t_data::t_double_kick(sock, t),
        Case::ConfigCapacityConsistency => t_proto::t_config_capacity_consistency(sock, t),
        Case::ConfigPartialRead => t_proto::t_config_partial_read(sock, t),
        Case::GetFeaturesStable => t_proto::t_get_features_stable(sock, t),
        Case::DescNextOob => t_robust::t_desc_next_oob(sock, t),
        Case::DescLoop => t_robust::t_desc_loop(sock, t),
        Case::DescAddrOob => t_robust::t_desc_addr_oob(sock, t),
        Case::DescLenPastRegion => t_robust::t_desc_len_past_region(sock, t),
        Case::DescHugeLen => t_robust::t_desc_huge_len(sock, t),
        Case::ReadableAfterWritable => t_robust::t_readable_after_writable(sock, t),
        Case::IndirectWithNext => t_robust::t_indirect_with_next(sock, t),
        Case::NestedIndirect => t_robust::t_nested_indirect(sock, t),
        Case::IndirectBadTableLen => t_robust::t_indirect_bad_table_len(sock, t),
        Case::AvailHeadOob => t_robust::t_avail_head_oob(sock, t),
        Case::VringBaseRoundtrip => t_precision::t_vring_base_roundtrip(sock, t),
        Case::VringBaseTracksConsumed => t_precision::t_vring_base_tracks_consumed(sock, t),
        Case::NotifySignaled => t_precision::t_notify_signaled(sock, t),
        Case::NotifySuppressed => t_precision::t_notify_suppressed(sock, t),
        Case::FeatureGatingDiscard => t_precision::t_feature_gating_discard(sock, t),
        Case::ConfigBlkSizeSane => t_precision::t_config_blk_size_sane(sock, t),
        Case::UsedIndexWrap => t_precision::t_used_index_wrap(sock, t),
        Case::GetidWrongSize => t_robust::t_getid_wrong_size(sock, t),
        Case::DiscardMultiSegment => t_robust::t_discard_multi_segment(sock, t),
        Case::DiscardBeyondCapacity => t_robust::t_discard_beyond_capacity(sock, t),
        Case::SectorOverflow => t_robust::t_sector_overflow(sock, t),
        Case::DiscardZeroSectors => t_robust::t_discard_zero_sectors(sock, t),
        Case::ReadonlyWrite => t_robust::t_readonly_write(sock, t),
        Case::ReconnectStress => t_proto::t_reconnect_stress(sock, t),
        Case::DoubleSetOwner => t_proto::t_double_set_owner(sock, t),
        Case::VringNumZero => t_proto::t_vring_num_zero(sock, t),
        Case::VringNumNotPow2 => t_proto::t_vring_num_not_pow2(sock, t),
        Case::VringNumTooBig => t_proto::t_vring_num_too_big(sock, t),
        Case::VringAddrUnaligned => t_proto::t_vring_addr_unaligned(sock, t),
        Case::MemTableEmpty => t_proto::t_mem_table_empty(sock, t),
        Case::VringBeforeMem => t_proto::t_vring_before_mem(sock, t),
    }
}

/// The place of a scenario in the table.
pub open spec fn place(case: Case) -> int {
    match case {
        Case::Handshake => 0,
        Case::Read0 => 1,
        Case::Roundtrip => 2,
        Case::Multiblock => 3,
        Case::Overwrite => 4,
        Case::PersistenceReconnect => 5,
        Case::HdrSplit2 => 6,
        Case::HdrSplit4 => 7,
        Case::HdrDataContiguousWrite => 8,
        Case::ScatterWrite => 9,
        Case::ScatterRead => 10,
        Case::UnevenSegments => 11,
        Case::ManySegments => 12,
        Case::StatusOversized => 13,
        Case::IndirectRw => 14,
        Case::Flush => 15,
        Case::FlushNonzeroSector => 16,
        Case::GetId => 17,
        Case::WriteZeroes => 18,
        Case::WriteZeroesUnmap => 19,
        Case::Discard => 20,
        Case::UnsupportedType => 21,
        Case::ZeroLengthRead => 22,
        Case::NonmultipleLength => 23,
        Case::LastSector => 24,
        Case::CrossCapacity => 25,
        Case::BeyondCapacity => 26,
        Case::LargeRequest => 27,
        Case::MultiOutstanding => 28,
        Case::OutOfOrder => 29,
        Case::UsedLenRead => 30,
        Case::UsedLenWrite => 31,
        Case::SpuriousKick => 32,
        Case::NoInterrupt => 33,
        Case::DoubleKick => 34,
        Case::ConfigCapacityConsistency => 35,
        Case::ConfigPartialRead => 36,
        Case::GetFeaturesStable => 37,
        Case::DescNextOob => 38,
        Case::DescLoop => 39,
        Case::DescAddrOob => 40,
        Case::DescLenPastRegion => 41,
        Case::DescHugeLen => 42,
        Case::ReadableAfterWritable => 43,
        Case::IndirectWithNext => 44,
        Case::NestedIndirect => 45,
        Case::IndirectBadTableLen => 46,
        Case::AvailHeadOob => 47,
        Case::VringBaseRoundtrip => 48,
        Case::VringBaseTracksConsumed => 49,
        Case::NotifySignaled => 50,
        Case::NotifySuppressed => 51,
        Case::FeatureGatingDiscard => 52,
        Case::ConfigBlkSizeSane => 53,
        Case::UsedIndexWrap => 54,
        Case::GetidWrongSize => 55,
        Case::DiscardMultiSegment => 56,
        Case::DiscardBeyondCapacity => 57,
        Case::SectorOverflow => 58,
        Case::DiscardZeroSectors => 59,
        Case::ReadonlyWrite => 60,
        Case::ReconnectStress => 61,
        Case::DoubleSetOwner => 62,
        Case::VringNumZero => 63,
        Case::VringNumNotPow2 => 64,
        Case::VringNumTooBig => 65,
        Case::VringAddrUnaligned => 66,
        Case::MemTableEmpty => 67,
        Case::VringBeforeMem => 68,
    }
}

/// Every scenario stands in the table exactly once.
pub proof fn every_scenario_once(case: Case)
    ensures
        0 <= place(case) < table().len(),
        table()[place(case)].2 == case,
        forall|i: int|
            0 <= i < table().len() && #[trigger] table()[i].2 == case ==> i == place(case),
{
    assert forall|i: int| 0 <= i < table().len() implies place(#[trigger] table()[i].2) == i by {}
}

} // verus!
