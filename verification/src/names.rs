//! Names of the scenarios, how they are listed, and what the command line makes of its
//! arguments.

use vstd::prelude::*;
use vstd::string::*;

use crate::cli;
use crate::cli::{Flag, GivenText, ParsedOf};
use crate::registry;
use crate::registry::{Case, Entry};
use crate::report;
use crate::words;

verus! {

// ---- names ------------------------------------------------------------------------------

/// The name and the category that a scenario is known by.
pub open spec fn known_as(case: Case) -> (Seq<char>, Seq<char>) {
    match case {
        Case::Handshake => ("handshake"@, "smoke"@),
        Case::Read0 => ("read-sector-0"@, "smoke"@),
        Case::Roundtrip => ("roundtrip"@, "integrity"@),
        Case::Multiblock => ("multiblock-distinct-patterns"@, "integrity"@),
        Case::Overwrite => ("overwrite"@, "integrity"@),
        Case::PersistenceReconnect => ("persistence-across-reconnect"@, "integrity"@),
        Case::HdrSplit2 => ("header-split-8+8"@, "descriptors"@),
        Case::HdrSplit4 => ("header-split-4x4"@, "descriptors"@),
        Case::HdrDataContiguousWrite => ("header+data-one-desc (write)"@, "descriptors"@),
        Case::ScatterWrite => ("scatter-write-8x512"@, "descriptors"@),
        Case::ScatterRead => ("scatter-read-8x512"@, "descriptors"@),
        Case::UnevenSegments => ("uneven-segments-512/1024/512/2048"@, "descriptors"@),
        Case::ManySegments => ("many-segments-64x512"@, "descriptors"@),
        Case::StatusOversized => ("oversized-status-desc"@, "descriptors"@),
        Case::IndirectRw => ("indirect-descriptors"@, "descriptors"@),
        Case::Flush => ("flush"@, "req-types"@),
        Case::FlushNonzeroSector => ("flush-nonzero-sector"@, "req-types"@),
        Case::GetId => ("get-id"@, "req-types"@),
        Case::WriteZeroes => ("write-zeroes"@, "req-types"@),
        Case::WriteZeroesUnmap => ("write-zeroes-unmap"@, "req-types"@),
        Case::Discard => ("discard-then-rewrite"@, "req-types"@),
        Case::UnsupportedType => ("unsupported-request-type"@, "req-types"@),
        Case::ZeroLengthRead => ("zero-length-read"@, "req-types"@),
        Case::NonmultipleLength => ("non-multiple-length"@, "req-types"@),
        Case::LastSector => ("last-sector"@, "bounds"@),
        Case::CrossCapacity => ("cross-capacity-boundary"@, "bounds"@),
        Case::BeyondCapacity => ("beyond-capacity"@, "bounds"@),
        Case::LargeRequest => ("large-request-128k"@, "bounds"@),
        Case::MultiOutstanding => ("multi-outstanding-16"@, "vq-mechanics"@),
        Case::OutOfOrder => ("out-of-order-completion"@, "vq-mechanics"@),
        Case::UsedLenRead => ("used.len-read=data+status"@, "vq-mechanics"@),
        Case::UsedLenWrite => ("used.len-write=1"@, "vq-mechanics"@),
        Case::SpuriousKick => ("spurious-kick"@, "vq-mechanics"@),
        Case::NoInterrupt => ("no-interrupt-flag"@, "vq-mechanics"@),
        Case::DoubleKick => ("double-kick"@, "vq-mechanics"@),
        Case::ConfigCapacityConsistency => ("config-capacity-consistency"@, "config"@),
        Case::ConfigPartialRead => ("config-partial-read"@, "config"@),
        Case::GetFeaturesStable => ("get-features-stable"@, "config"@),
        Case::DescNextOob => ("desc-next-out-of-bounds"@, "robustness"@),
        Case::DescLoop => ("descriptor-loop"@, "robustness"@),
        Case::DescAddrOob => ("oob-descriptor-address"@, "robustness"@),
        Case::DescLenPastRegion => ("descriptor-len-past-region"@, "robustness"@),
        Case::DescHugeLen => ("huge-descriptor-len"@, "robustness"@),
        Case::ReadableAfterWritable => ("readable-after-writable"@, "robustness"@),
        Case::IndirectWithNext => ("indirect-with-next"@, "robustness"@),
        Case::NestedIndirect => ("nested-indirect"@, "robustness"@),
        Case::IndirectBadTableLen => ("indirect-bad-table-len"@, "robustness"@),
        Case::AvailHeadOob => ("avail-head-out-of-bounds"@, "robustness"@),
        Case::VringBaseRoundtrip => ("vring-base-roundtrip"@, "precision"@),
        Case::VringBaseTracksConsumed => ("vring-base-tracks-consumed"@, "precision"@),
        Case::NotifySignaled => ("notify-signaled-when-enabled"@, "precision"@),
        Case::NotifySuppressed => ("notify-suppressed-no-interrupt"@, "precision"@),
        Case::FeatureGatingDiscard => ("feature-gating-discard"@, "precision"@),
        Case::ConfigBlkSizeSane => ("config-blk-size-sane"@, "precision"@),
        Case::UsedIndexWrap => ("used-index-wrap"@, "precision"@),
        Case::GetidWrongSize => ("get-id-wrong-buffer-size"@, "validation"@),
        Case::DiscardMultiSegment => ("discard-multi-segment"@, "validation"@),
        Case::DiscardBeyondCapacity => ("discard-beyond-capacity"@, "validation"@),
        Case::SectorOverflow => ("sector+len-overflow"@, "validation"@),
        Case::DiscardZeroSectors => ("discard-zero-sectors"@, "validation"@),
        Case::ReadonlyWrite => ("readonly-write-rejected"@, "validation"@),
        Case::ReconnectStress => ("reconnect-stress"@, "lifecycle"@),
        Case::DoubleSetOwner => ("double-set-owner"@, "hostile"@),
        Case::VringNumZero => ("vring-num-zero"@, "hostile"@),
        Case::VringNumNotPow2 => ("vring-num-not-pow2"@, "hostile"@),
        Case::VringNumTooBig => ("vring-num-too-big"@, "hostile"@),
        Case::VringAddrUnaligned => ("vring-addr-unaligned"@, "hostile"@),
        Case::MemTableEmpty => ("mem-table-empty"@, "hostile"@),
        Case::VringBeforeMem => ("vring-before-mem-table"@, "hostile"@),
    }
}

/// Whoever looks up a scenario in the table finds it under its name and its category.
pub proof fn scenarios_are_known_by_name(case: Case)
    ensures
        0 <= registry::place(case) < registry::table().len(),
        registry::table()[registry::place(case)].0 == known_as(case).0,
        registry::table()[registry::place(case)].1 == known_as(case).1,
        registry::table()[registry::place(case)].2 == case,
{
}

// ---- arguments --------------------------------------------------------------------------

/// The flag takes a value.
pub open spec fn takes_value(f: Flag) -> bool {
    f is Only || f is Skip || f is Delay
}

/// The last argument is no flag that would take a further argument for its value.
pub open spec fn closed_off(args: Seq<Seq<char>>) -> bool {
    args.len() == 0 || !takes_value(cli::flag_of(cli::key_of(args.last()))) || cli::inline_of(
        args.last(),
    ) is Some
}

proof fn lemma_shifted(args: Seq<Seq<char>>, more: Seq<Seq<char>>, k: int, g: GivenText)
    requires
        0 <= k <= more.len(),
    ensures
        cli::parsed_from(args + more, args.len() + k, g) == cli::parsed_from(more, k, g),
    decreases more.len() - k,
{
    let all = args + more;
    let n = args.len() as int;
    if k < more.len() {
        assert(all[n + k] == more[k]);
        if k + 1 < more.len() {
            assert(all[n + k + 1] == more[k + 1]);
        }
        assert(cli::value_at(all, n + k) == cli::value_at(more, k));
        assert(cli::after_value(all, n + k) == n + cli::after_value(more, k));
        let v = cli::value_at(more, k);
        match cli::flag_of(cli::key_of(more[k])) {
            Flag::List => {
                lemma_shifted(args, more, k + 1, GivenText { list: true, ..g });
            },
            Flag::Only => {
                lemma_shifted(
                    args,
                    more,
                    cli::after_value(more, k),
                    GivenText { filter: v, ..g },
                );
            },
            Flag::Skip => {
                lemma_shifted(
                    args,
                    more,
                    cli::after_value(more, k),
                    GivenText { skip: v, ..g },
                );
            },
            Flag::Delay => {
                lemma_shifted(
                    args,
                    more,
                    cli::after_value(more, k),
                    GivenText { delay: v, ..g },
                );
            },
            Flag::Positional => {
                lemma_shifted(
                    args,
                    more,
                    k + 1,
                    GivenText { positionals: g.positionals.push(more[k]), ..g },
                );
            },
            _ => {},
        }
    }
}

proof fn lemma_in_order(args: Seq<Seq<char>>, more: Seq<Seq<char>>, i: int, g: GivenText)
    requires
        closed_off(args),
        0 <= i <= args.len(),
    ensures
        cli::parsed_from(args + more, i, g) == match cli::parsed_from(args, i, g) {
            ParsedOf::Run(h) => cli::parsed_from(more, 0, h),
            o => o,
        },
    decreases args.len() - i,
{
    let all = args + more;
    if i == args.len() {
        lemma_shifted(args, more, 0, g);
    } else {
        assert(all[i] == args[i]);
        if i + 1 < args.len() {
            assert(all[i + 1] == args[i + 1]);
        }
        let v = cli::value_at(args, i);
        match cli::flag_of(cli::key_of(args[i])) {
            Flag::List => {
                lemma_in_order(args, more, i + 1, GivenText { list: true, ..g });
            },
            Flag::Only => {
                assert(cli::value_at(all, i) == v);
                lemma_in_order(
                    args,
                    more,
                    cli::after_value(args, i),
                    GivenText { filter: v, ..g },
                );
            },
            Flag::Skip => {
                assert(cli::value_at(all, i) == v);
                lemma_in_order(
                    args,
                    more,
                    cli::after_value(args, i),
                    GivenText { skip: v, ..g },
                );
            },
            Flag::Delay => {
                assert(cli::value_at(all, i) == v);
                lemma_in_order(
                    args,
                    more,
                    cli::after_value(args, i),
                    GivenText { delay: v, ..g },
                );
            },
            Flag::Positional => {
                lemma_in_order(
                    args,
                    more,
                    i + 1,
                    GivenText { positionals: g.positionals.push(args[i]), ..g },
                );
            },
            _ => {},
        }
    }
}

/// Arguments are read one after the other: what comes later adds to what came before, or
/// overrides it. Where the usage was asked for, or a flag is unknown, nothing after that
/// matters.
pub proof fn arguments_are_read_in_order(args: Seq<Seq<char>>, more: Seq<Seq<char>>)
    requires
        closed_off(args),
    ensures
        cli::parsed(args + more) == match cli::parsed(args) {
            ParsedOf::Run(g) => cli::parsed_from(more, 0, g),
            o => o,
        },
{
    lemma_in_order(args, more, 0, cli::nothing_given());
}

proof fn lemma_no_sign(a: Seq<char>, i: int)
    requires
        0 <= i <= a.len(),
        forall|j: int| i <= j < a.len() ==> a[j] != '=',
    ensures
        words::place_of(a, '=', i) is None,
    decreases a.len() - i,
{
    if i < a.len() {
        lemma_no_sign(a, i + 1);
    }
}

proof fn lemma_first_sign(a: Seq<char>, n: int, i: int)
    requires
        0 <= i <= n < a.len(),
        forall|j: int| i <= j < n ==> a[j] != '=',
        a[n] == '=',
    ensures
        words::place_of(a, '=', i) == Some(n),
    decreases n - i,
{
    if i < n {
        lemma_first_sign(a, n, i + 1);
    }
}

/// The text holds no equals sign.
pub open spec fn plain(k: Seq<char>) -> bool {
    forall|j: int| 0 <= j < k.len() ==> #[trigger] k[j] != '='
}

proof fn lemma_key(k: Seq<char>)
    requires
        plain(k),
    ensures
        cli::key_of(k) == k,
        cli::inline_of(k) is None,
{
    lemma_no_sign(k, 0);
}

proof fn lemma_key_and_value(k: Seq<char>, v: Seq<char>)
    requires
        plain(k),
    ensures
        cli::key_of(k + seq!['='] + v) == k,
        cli::inline_of(k + seq!['='] + v) == Some(v),
{
    let a = k + seq!['='] + v;
    let n = k.len() as int;
    assert forall|j: int| 0 <= j < n implies a[j] != '=' by {
        assert(a[j] == k[j]);
    }
    lemma_first_sign(a, n, 0);
    assert(a.take(n) =~= k);
    assert(a.skip(n + 1) =~= v);
}

/// What a flag of each kind makes of its value.
pub open spec fn with_value(g: GivenText, f: Flag, v: Seq<char>) -> GivenText {
    match f {
        Flag::Only => GivenText { filter: v, ..g },
        Flag::Skip => GivenText { skip: v, ..g },
        Flag::Delay => GivenText { delay: v, ..g },
        _ => g,
    }
}

/// A flag that takes a value takes it after an equals sign or as the next argument, with the
/// same effect: it sets its own setting and leaves the others alone.
pub proof fn value_may_follow_or_be_joined(
    args: Seq<Seq<char>>,
    g: GivenText,
    k: Seq<char>,
    v: Seq<char>,
)
    requires
        closed_off(args),
        cli::parsed(args) == ParsedOf::<GivenText, Seq<char>>::Run(g),
        plain(k),
        takes_value(cli::flag_of(k)),
    ensures
        cli::parsed(args + seq![k, v]) == ParsedOf::<GivenText, Seq<char>>::Run(
            with_value(g, cli::flag_of(k), v),
        ),
        cli::parsed(args + seq![k + seq!['='] + v]) == ParsedOf::<GivenText, Seq<char>>::Run(
            with_value(g, cli::flag_of(k), v),
        ),
{
    arguments_are_read_in_order(args, seq![k, v]);
    arguments_are_read_in_order(args, seq![k + seq!['='] + v]);
    lemma_key(k);
    lemma_key_and_value(k, v);
    reveal_with_fuel(cli::parsed_from, 2);
}

/// These are the flags, and what they are for. Anything else that starts with a dash is an
/// unknown flag, and anything else at all an argument by its position.
pub proof fn flags_are_known(k: Seq<char>)
    ensures
        cli::flag_of("--only"@) == Flag::Only,
        cli::flag_of("-o"@) == Flag::Only,
        cli::flag_of("--filter"@) == Flag::Only,
        cli::flag_of("--skip"@) == Flag::Skip,
        cli::flag_of("-s"@) == Flag::Skip,
        cli::flag_of("--delay"@) == Flag::Delay,
        cli::flag_of("-d"@) == Flag::Delay,
        cli::flag_of("--list"@) == Flag::List,
        cli::flag_of("list"@) == Flag::List,
        cli::flag_of("--help"@) == Flag::Help,
        cli::flag_of("-h"@) == Flag::Help,
        plain("--only"@) && plain("-o"@) && plain("--filter"@) && plain("--skip"@) && plain("-s"@)
            && plain("--delay"@) && plain("-d"@),
        cli::flag_of(k) == Flag::Unknown ==> k.len() > 0 && k[0] == '-',
        cli::flag_of(k) == Flag::Positional ==> k.len() == 0 || k[0] != '-',
{
    reveal_strlit("--only");
    reveal_strlit("-o");
    reveal_strlit("--filter");
    reveal_strlit("--skip");
    reveal_strlit("-s");
    reveal_strlit("--delay");
    reveal_strlit("-d");
    reveal_strlit("--list");
    reveal_strlit("list");
    reveal_strlit("--help");
    reveal_strlit("-h");
    assert("--only"@[2] == 'o');
    assert("--filter"@[2] == 'f');
    assert("--skip"@[2] == 's');
    assert("--delay"@[2] == 'd');
    assert("--list"@[2] == 'l');
    assert("--help"@[2] == 'h');
    assert("-o"@[1] == 'o');
    assert("-s"@[1] == 's');
    assert("-d"@[1] == 'd');
    assert("-h"@[1] == 'h');
    assert("list"@[0] == 'l');
}

/// An argument that is no flag is kept as it is, after those before it.
pub proof fn positions_are_kept(args: Seq<Seq<char>>, g: GivenText, a: Seq<char>)
    requires
        closed_off(args),
        cli::parsed(args) == ParsedOf::<GivenText, Seq<char>>::Run(g),
        cli::flag_of(cli::key_of(a)) == Flag::Positional,
    ensures
        cli::parsed(args + seq![a]) == ParsedOf::<GivenText, Seq<char>>::Run(
            GivenText { positionals: g.positionals.push(a), ..g },
        ),
{
    arguments_are_read_in_order(args, seq![a]);
    reveal_with_fuel(cli::parsed_from, 2);
}

/// A question for the list or for the usage, and an unknown flag, whatever follows their
/// equals sign.
pub proof fn other_flags(args: Seq<Seq<char>>, g: GivenText, a: Seq<char>)
    requires
        closed_off(args),
        cli::parsed(args) == ParsedOf::<GivenText, Seq<char>>::Run(g),
    ensures
        cli::flag_of(cli::key_of(a)) == Flag::List ==> cli::parsed(args + seq![a])
            == ParsedOf::<GivenText, Seq<char>>::Run(GivenText { list: true, ..g }),
        cli::flag_of(cli::key_of(a)) == Flag::Help ==> cli::parsed(args + seq![a])
            == ParsedOf::<GivenText, Seq<char>>::Help,
        cli::flag_of(cli::key_of(a)) == Flag::Unknown ==> cli::parsed(args + seq![a])
            == ParsedOf::<GivenText, Seq<char>>::Unknown(cli::key_of(a)),
{
    arguments_are_read_in_order(args, seq![a]);
    reveal_with_fuel(cli::parsed_from, 2);
}

// ---- tokens -----------------------------------------------------------------------------

proof fn lemma_parts(x: Seq<char>, y: Seq<char>, from: int, i: int)
    requires
        0 <= from <= i <= x.len(),
    ensures
        words::parts_from(x + seq![','] + y, from, i) == words::parts_from(x, from, i)
            + words::parts_from(y, 0, 0),
    decreases x.len() - i,
{
    let all = x + seq![','] + y;
    let n = x.len() as int;
    if i == n {
        lemma_later_parts(x, y, 0, 0);
        assert(all.subrange(from, n) =~= x.subrange(from, n));
        assert(words::parts_from(all, from, n) == seq![all.subrange(from, n)] + words::parts_from(
            all,
            n + 1,
            n + 1,
        ));
    } else {
        assert(all[i] == x[i]);
        if x[i] == ',' {
            lemma_parts(x, y, i + 1, i + 1);
            assert(all.subrange(from, i) =~= x.subrange(from, i));
            assert(seq![x.subrange(from, i)] + (words::parts_from(x, i + 1, i + 1)
                + words::parts_from(y, 0, 0)) =~= seq![x.subrange(from, i)] + words::parts_from(
                x,
                i + 1,
                i + 1,
            ) + words::parts_from(y, 0, 0));
        } else {
            lemma_parts(x, y, from, i + 1);
        }
    }
}

proof fn lemma_later_parts(x: Seq<char>, y: Seq<char>, from: int, i: int)
    requires
        0 <= from <= i <= y.len(),
    ensures
        words::parts_from(x + seq![','] + y, x.len() + 1 + from, x.len() + 1 + i)
            == words::parts_from(y, from, i),
    decreases y.len() - i,
{
    let all = x + seq![','] + y;
    let n = x.len() + 1;
    if i == y.len() {
        assert(all.subrange(n + from, all.len() as int) =~= y.subrange(from, y.len() as int));
    } else {
        assert(all[n + i] == y[i]);
        if y[i] == ',' {
            lemma_later_parts(x, y, i + 1, i + 1);
            assert(all.subrange(n + from, n + i) =~= y.subrange(from, i));
        } else {
            lemma_later_parts(x, y, from, i + 1);
        }
    }
}

proof fn lemma_cleaned(a: Seq<Seq<char>>, b: Seq<Seq<char>>)
    ensures
        words::cleaned(a + b) == words::cleaned(a) + words::cleaned(b),
    decreases a.len(),
{
    if a.len() == 0 {
        assert(a + b =~= b);
        assert(words::cleaned(a) + words::cleaned(b) =~= words::cleaned(b));
    } else {
        lemma_cleaned(a.drop_first(), b);
        assert((a + b).drop_first() =~= a.drop_first() + b);
        assert((a + b)[0] == a[0]);
        let token = words::lowered(words::trimmed(a[0]));
        if token.len() > 0 {
            assert(seq![token] + (words::cleaned(a.drop_first()) + words::cleaned(b)) =~= seq![
                token,
            ] + words::cleaned(a.drop_first()) + words::cleaned(b));
        }
    }
}

/// A comma sets the tokens before it apart from those after it.
pub proof fn commas_set_tokens_apart(x: Seq<char>, y: Seq<char>)
    ensures
        words::tokens(x + seq![','] + y) == words::tokens(x) + words::tokens(y),
{
    lemma_parts(x, y, 0, 0);
    lemma_cleaned(words::parts_from(x, 0, 0), words::parts_from(y, 0, 0));
}

proof fn lemma_one_part(x: Seq<char>, i: int)
    requires
        0 <= i <= x.len(),
        forall|j: int| 0 <= j < x.len() ==> x[j] != ',',
    ensures
        words::parts_from(x, 0, i) == seq![x],
    decreases x.len() - i,
{
    if i == x.len() {
        assert(x.subrange(0, x.len() as int) =~= x);
    } else {
        lemma_one_part(x, i + 1);
    }
}

/// Without a comma there is one token at most: the text without the white space round it, in
/// lower case.
pub proof fn one_token_without_commas(x: Seq<char>)
    requires
        forall|j: int| 0 <= j < x.len() ==> x[j] != ',',
    ensures
        words::tokens(x) == if words::lowered(words::trimmed(x)).len() == 0 {
            Seq::empty()
        } else {
            seq![words::lowered(words::trimmed(x))]
        },
{
    lemma_one_part(x, 0);
    let parts = seq![x];
    assert(parts.drop_first() =~= Seq::empty());
    assert(words::cleaned(parts.drop_first()) =~= Seq::empty());
    reveal_with_fuel(words::cleaned, 2);
    assert(words::tokens(x) =~= words::cleaned(parts));
}

proof fn lemma_start_stripped(s: Seq<char>, marks: Seq<bool>) -> (n: int)
    requires
        marks.len() == s.len(),
    ensures
        0 <= n <= s.len(),
        words::stripped_start(s, marks) == s.skip(n),
        forall|i: int| 0 <= i < n ==> marks[i],
        n < s.len() ==> !marks[n],
    decreases s.len(),
{
    if s.len() > 0 && marks[0] {
        let m = lemma_start_stripped(s.drop_first(), marks.drop_first());
        assert(s.drop_first().skip(m) =~= s.skip(m + 1));
        assert forall|i: int| 0 <= i < m + 1 implies marks[i] by {
            if i > 0 {
                assert(marks.drop_first()[i - 1]);
            }
        }
        if m + 1 < s.len() {
            assert(!marks.drop_first()[m]);
        }
        m + 1
    } else {
        assert(s.skip(0) =~= s);
        0
    }
}

proof fn lemma_end_stripped(s: Seq<char>, marks: Seq<bool>) -> (n: int)
    requires
        marks.len() == s.len(),
    ensures
        0 <= n <= s.len(),
        words::stripped_end(s, marks) == s.take(n),
        forall|i: int| n <= i < s.len() ==> marks[i],
        n > 0 ==> !marks[n - 1],
    decreases s.len(),
{
    if s.len() > 0 && marks.last() {
        let m = lemma_end_stripped(s.drop_last(), marks.drop_last());
        assert(s.drop_last().take(m) =~= s.take(m));
        assert forall|i: int| m <= i < s.len() implies marks[i] by {
            if i < s.len() - 1 {
                assert(marks.drop_last()[i]);
            }
        }
        m
    } else {
        assert(s.take(s.len() as int) =~= s);
        s.len() as int
    }
}

/// What is trimmed away is all the white space at both ends, and nothing else: the rest
/// stands in the text, all round it is white, and it neither starts nor ends with white space.
pub proof fn white_space_is_trimmed_from_both_ends(s: Seq<char>) -> (r: (int, int))
    ensures
        0 <= r.0 <= r.1 <= s.len(),
        words::trimmed(s) == s.subrange(r.0, r.1),
        forall|i: int| 0 <= i < r.0 || r.1 <= i < s.len() ==> words::white(#[trigger] s[i]),
        r.0 < r.1 ==> !words::white(s[r.0]) && !words::white(s[r.1 - 1]),
{
    let marks = words::white_marks(s);
    let n = lemma_start_stripped(s, marks);
    let rest = s.skip(n);
    let kept = marks.skip(s.len() - rest.len());
    assert(kept =~= marks.skip(n));
    let m = lemma_end_stripped(rest, kept);
    assert(rest.take(m) =~= s.subrange(n, n + m));
    assert forall|i: int| 0 <= i < n || n + m <= i < s.len() implies words::white(
        #[trigger] s[i],
    ) by {
        if i < n {
            assert(marks[i]);
        } else {
            assert(kept[i - n]);
            assert(marks[i]);
        }
    }
    if 0 < m {
        assert(!marks[n]);
        assert(!kept[m - 1]);
        assert(!marks[n + m - 1]);
    }
    (n, n + m)
}

// ---- the list ---------------------------------------------------------------------------

/// The lines that one more scenario adds to the list, after one of category `last`.
pub open spec fn added(e: Entry, last: Seq<char>) -> Seq<Seq<char>> {
    if e.1 == last {
        seq!["  "@ + e.0]
    } else {
        seq!["\n["@ + e.1 + "]"@, "  "@ + e.0]
    }
}

proof fn lemma_added(es: Seq<Entry>, e: Entry, i: int, last: Seq<char>)
    requires
        0 <= i <= es.len(),
    ensures
        report::listing_from(es.push(e), i, last) == report::listing_from(es, i, last) + added(
            e,
            if i < es.len() {
                es.last().1
            } else {
                last
            },
        ),
    decreases es.len() - i,
{
    let all = es.push(e);
    if i == es.len() {
        assert(all[i] == e);
        assert(report::listing_from(all, i + 1, e.1) =~= Seq::empty());
        assert(report::listing_from(all, i, last) =~= added(e, last));
        assert(report::listing_from(es, i, last) =~= Seq::empty());
        assert(report::listing_from(es, i, last) + added(e, last) =~= added(e, last));
    } else {
        assert(all[i] == es[i]);
        lemma_added(es, e, i + 1, es[i].1);
        let here = added(es[i], last);
        let rest = report::listing_from(es, i + 1, es[i].1);
        let end = added(e, es.last().1);
        assert(report::listing_from(es, i, last) =~= here + rest);
        assert(here + (rest + end) =~= here + rest + end);
    }
}

/// A scenario adds its name to the list, and before it its category where that is not the one
/// of the scenario before.
pub proof fn names_are_listed_under_their_categories(es: Seq<Entry>, e: Entry)
    ensures
        report::listed(Seq::empty()) == Seq::<Seq<char>>::empty(),
        report::listed(es.push(e)) == report::listed(es) + added(
            e,
            if es.len() > 0 {
                es.last().1
            } else {
                Seq::empty()
            },
        ),
{
    lemma_added(es, e, 0, Seq::empty());
}

} // verus!
