//! What a pass means where many requests are in flight, or many rounds are made.

use vstd::prelude::*;

use crate::account;
use crate::bench;
use crate::bench::{Bench, Sector, Seg, Step};
use crate::checks;
use crate::link::{ActionOf, Rep};
use crate::mem;
use crate::model::Line;
use crate::passing;
use crate::registry;
use crate::registry::Case;
use crate::replay;
use crate::says;
use crate::says::Play;
use crate::stages;
use crate::t_data;
use crate::t_precision;

verus! {

// ---- posting ----------------------------------------------------------------------------

/// Of the requests that the steps from `f` on lay out and post, request `i` is this one; its
/// buffers follow those of the requests before it.
spec fn posts(
    steps: Seq<Step>,
    f: int,
    i: int,
    kind: u32,
    sector: Sector,
    bytes: Seq<u8>,
    fills: bool,
) -> bool {
    &&& passing::stages_three(steps, f + 7 * i, 3 * i, kind, sector, bytes)
    &&& steps[f + 7 * i + 6] == (Step::Post {
        chain: seq![
            Seg::readable((3 * i) as usize, 0, 16),
            Seg { buf: (3 * i + 1) as usize, at: 0, len: 512, write: fills },
            Seg::writable((3 * i + 2) as usize, 0, 1),
        ],
    })
}

/// In `c` the bench knows request `i` of those posted from step `f` on: its head, and where
/// its data and its status stand.
spec fn known(c: Bench, start: Bench, steps: Seq<Step>, f: int, i: int) -> bool {
    let s = passing::at(start, steps, f + 7 * i).s;
    &&& c.heads[i] == s.next_desc
    &&& c.buf(3 * i + 1) == account::places(s, 512).1
    &&& c.buf(3 * i + 2) == account::places(s, 512).2
}

/// Request `i` of those posted from step `f` on was handed to the device.
spec fn given(
    start: Bench,
    steps: Seq<Step>,
    f: int,
    i: int,
    kind: u32,
    sector: Sector,
    bytes: Seq<u8>,
    fills: bool,
) -> bool {
    let b = passing::at(start, steps, f + 7 * i);
    account::handed(
        b.line(),
        passing::at(start, steps, f + 7 * (i + 1)).line(),
        kind,
        b.sector(sector) as int,
        bytes,
        fills,
    )
}

proof fn lemma_all_given(
    start: Bench,
    steps: Seq<Step>,
    f: int,
    m: int,
    kind: u32,
    sectors: spec_fn(int) -> Sector,
    bytes: spec_fn(int) -> Seq<u8>,
    fills: bool,
)
    requires
        0 <= f,
        0 <= m <= 16,
        f + 7 * m <= steps.len(),
        passing::all_went(start, steps),
        passing::at(start, steps, f).bufs.len() == 0,
        passing::at(start, steps, f).heads.len() == 0,
        forall|i: int| 0 <= i < m ==> (#[trigger] bytes(i)).len() == 512,
        forall|i: int|
            0 <= i < m ==> #[trigger] posts(
                steps,
                f,
                i,
                kind,
                sectors(i),
                bytes(i),
                fills,
            ),
    ensures
        ({
            let c = passing::at(start, steps, f + 7 * m);
            &&& c.bufs.len() == 3 * m
            &&& c.heads.len() == m
            &&& c.reported == passing::at(start, steps, f).reported
            &&& forall|i: int| 0 <= i < m ==> #[trigger] known(c, start, steps, f, i)
            &&& forall|i: int|
                0 <= i < m ==> #[trigger] given(
                    start,
                    steps,
                    f,
                    i,
                    kind,
                    sectors(i),
                    bytes(i),
                    fills,
                )
        }),
    decreases m,
{
    if m > 0 {
        let n = m - 1;
        lemma_all_given(start, steps, f, n, kind, sectors, bytes, fills);
        let b = passing::at(start, steps, f + 7 * n);
        let c = passing::at(start, steps, f + 7 * m);
        assert(posts(steps, f, n, kind, sectors(n), bytes(n), fills));
        passing::lemma_handed(start, steps, f + 7 * n, kind, sectors(n), bytes(n), fills);
        assert forall|i: int| 0 <= i < m implies #[trigger] known(c, start, steps, f, i) by {
            if i < n {
                assert(known(b, start, steps, f, i));
                assert(c.buf(3 * i + 1) == b.buf(3 * i + 1));
                assert(c.buf(3 * i + 2) == b.buf(3 * i + 2));
            }
        }
        assert forall|i: int| 0 <= i < m implies #[trigger] given(
            start,
            steps,
            f,
            i,
            kind,
            sectors(i),
            bytes(i),
            fills,
        ) by {
            if i == n {
                assert(f + 7 * (n + 1) == f + 7 * n + 7);
            }
        }
    }
}

// ---- reaping ----------------------------------------------------------------------------

/// Of the steps from `g` on, turn `j` waits for a completion, finds its request, and looks at
/// what it left.
spec fn reaps(steps: Seq<Step>, g: int, j: int, seed: Option<u64>) -> bool {
    let x = g + 3 * j;
    &&& steps[x + 1] == Step::Find
    &&& match seed {
        Some(v) => {
            &&& steps[x] == (Step::Complete {
                done: j as nat,
                of: 8,
                before: "ЗАВИСАНИЕ: "@,
                after: " завершений"@,
            })
            &&& steps[x + 2] == (Step::Fetched { stride: 2, seed: v })
        },
        None => {
            &&& steps[x] == (Step::Complete {
                done: j as nat,
                of: 16,
                before: "ЗАВИСАНИЕ: получено "@,
                after: " завершений"@,
            })
            &&& steps[x + 2] == (Step::Written { stride: 4 })
        },
    }
}

/// What request `k` has to leave, and where.
spec fn owed(c: Bench, k: int, seed: Option<u64>) -> (int, Seq<u8>) {
    match seed {
        Some(v) => (c.buf(3 * k + 1), checks::pattern(((v + k) % 256) as u8, 512)),
        None => (c.buf(3 * k + 2), seq![0u8]),
    }
}

/// The completion that came from step `g` on was that of request `k`.
spec fn taken(start: Bench, steps: Seq<Step>, g: int, k: int, seed: Option<u64>) -> bool {
    let b = passing::at(start, steps, g);
    let (off, bytes) = owed(b, k, seed);
    account::collected(
        b.line(),
        passing::at(start, steps, g + 3).line(),
        b.heads[k] as int,
        off,
        bytes,
    )
}

proof fn lemma_taken(start: Bench, steps: Seq<Step>, g: int, j: int, seed: Option<u64>) -> (k: int)
    requires
        0 <= g,
        0 <= j,
        g + 3 * j + 3 <= steps.len(),
        passing::all_went(start, steps),
        reaps(steps, g, j, seed),
    ensures
        ({
            let b = passing::at(start, steps, g + 3 * j);
            let c = passing::at(start, steps, g + 3 * j + 3);
            &&& 0 <= k < b.heads.len()
            &&& taken(start, steps, g + 3 * j, k, seed)
            &&& !b.reported.contains(b.heads[k] as u32)
            &&& c.reported == b.reported.push(b.heads[k] as u32)
            &&& c.heads == b.heads
            &&& c.bufs == b.bufs
        }),
{
    let x = g + 3 * j;
    let b = passing::at(start, steps, x);
    let f = passing::at(start, steps, x + 2);
    let c = passing::at(start, steps, x + 3);
    passing::lemma_step(start, steps, x);
    passing::lemma_step(start, steps, x + 1);
    passing::lemma_step(start, steps, x + 2);
    let k = f.number as int;
    let (off, bytes) = owed(b, k, seed);
    assert(f.number * 3 == 3 * k);
    assert(c.io.log =~= b.io.log + seq![
        account::wait_for(b.s, 5000),
        account::look(off, bytes.len()),
    ]);
    k
}

proof fn lemma_all_taken(
    start: Bench,
    steps: Seq<Step>,
    g: int,
    m: int,
    seed: Option<u64>,
) -> (order:
    Seq<int>)
    requires
        0 <= g,
        0 <= m,
        g + 3 * m <= steps.len(),
        passing::all_went(start, steps),
        passing::at(start, steps, g).reported.len() == 0,
        forall|j: int| 0 <= j < m ==> #[trigger] reaps(steps, g, j, seed),
    ensures
        ({
            let b = passing::at(start, steps, g);
            let c = passing::at(start, steps, g + 3 * m);
            &&& order.len() == m
            &&& c.heads == b.heads
            &&& c.bufs == b.bufs
            &&& c.reported == Seq::new(m as nat, |j: int| b.heads[order[j]] as u32)
            &&& order.no_duplicates()
            &&& forall|j: int|
                0 <= j < m ==> 0 <= #[trigger] order[j] < b.heads.len() && taken(
                    start,
                    steps,
                    g + 3 * j,
                    order[j],
                    seed,
                )
        }),
    decreases m,
{
    let b = passing::at(start, steps, g);
    if m == 0 {
        let order = Seq::<int>::empty();
        assert(b.reported =~= Seq::new(0, |j: int| b.heads[order[j]] as u32));
        order
    } else {
        let n = m - 1;
        let before = lemma_all_taken(start, steps, g, n, seed);
        let mid = passing::at(start, steps, g + 3 * n);
        assert(reaps(steps, g, n, seed));
        let k = lemma_taken(start, steps, g, n, seed);
        let order = before.push(k);
        let c = passing::at(start, steps, g + 3 * m);
        assert(g + 3 * m == g + 3 * n + 3);
        assert forall|j: int| 0 <= j < n implies before[j] != k by {
            assert(mid.reported[j] == b.heads[before[j]] as u32);
        }
        assert forall|j: int| 0 <= j < m implies 0 <= #[trigger] order[j] < b.heads.len() && taken(
            start,
            steps,
            g + 3 * j,
            order[j],
            seed,
        ) by {
            if j < n {
                assert(order[j] == before[j]);
            }
        }
        assert(c.reported =~= Seq::new(m as nat, |j: int| b.heads[order[j]] as u32));
        order
    }
}

/// The chains in flight and the buffers stay the same while completions are collected.
proof fn lemma_kept_so_far(start: Bench, steps: Seq<Step>, g: int, m: int, seed: Option<u64>)
    requires
        0 <= g,
        0 <= m,
        g + 3 * m <= steps.len(),
        passing::all_went(start, steps),
        forall|j: int| 0 <= j < m ==> #[trigger] reaps(steps, g, j, seed),
    ensures
        passing::at(start, steps, g + 3 * m).heads == passing::at(start, steps, g).heads,
        passing::at(start, steps, g + 3 * m).bufs == passing::at(start, steps, g).bufs,
    decreases m,
{
    if m > 0 {
        let n = m - 1;
        lemma_kept_so_far(start, steps, g, n, seed);
        assert(reaps(steps, g, n, seed));
        let k = lemma_taken(start, steps, g, n, seed);
        assert(g + 3 * m == g + 3 * n + 3);
    }
}

// ---- where the steps stand --------------------------------------------------------------

spec fn writing(i: int) -> Seq<Step> {
    stages::staged_write((i * 3) as usize, t_data::spaced(i, 4), t_data::nth(0x40, i)) + seq![
        Step::Post { chain: stages::writing_chain((i * 3) as usize, 512) },
    ]
}

proof fn lemma_writes_posted(n: nat)
    ensures
        t_data::writes_posted(n).len() == 7 * n,
        forall|i: int, r: int|
            0 <= i < n && 0 <= r < 7 ==> t_data::writes_posted(n)[7 * i + r]
                == #[trigger] writing(i)[r],
    decreases n,
{
    if n > 0 {
        let m = (n - 1) as nat;
        lemma_writes_posted(m);
        let last = writing(m as int);
        assert(t_data::writes_posted(n) =~= t_data::writes_posted(m) + last);
        assert forall|i: int, r: int| 0 <= i < n && 0 <= r < 7 implies t_data::writes_posted(n)[7
            * i + r] == #[trigger] writing(i)[r] by {
            if i < m {
                assert(t_data::writes_posted(m)[7 * i + r] == writing(i)[r]);
            }
        }
    }
}

proof fn lemma_writes_reaped(n: nat)
    ensures
        t_data::writes_reaped(n).len() == 3 * n,
        forall|i: int| 0 <= i < n ==> #[trigger] reaps(t_data::writes_reaped(n), 0, i, None),
    decreases n,
{
    if n > 0 {
        let m = (n - 1) as nat;
        lemma_writes_reaped(m);
        assert forall|i: int| 0 <= i < n implies #[trigger] reaps(
            t_data::writes_reaped(n),
            0,
            i,
            None,
        ) by {
            if i < m {
                assert(reaps(t_data::writes_reaped(m), 0, i, None));
            }
        }
    }
}

/// Of the steps from `f` on, turn `i` reads this pattern back.
spec fn reads_back(steps: Seq<Step>, f: int, i: int, sector: Sector, want: Seq<u8>) -> bool {
    let x = f + 3 * i;
    &&& steps[x] == (Step::Read { at: sector, len: 512 })
    &&& steps[x + 1] == (Step::ExpectOk { label: "readback"@ })
    &&& steps[x + 2] == (Step::Same { label: "multi-outstanding"@, want })
}

proof fn lemma_writes_settled(n: nat)
    ensures
        t_data::writes_settled(n).len() == 3 * n,
        forall|i: int|
            0 <= i < n ==> #[trigger] reads_back(
                t_data::writes_settled(n),
                0,
                i,
                t_data::spaced(i, 4),
                t_data::nth(0x40, i),
            ),
    decreases n,
{
    if n > 0 {
        let m = (n - 1) as nat;
        lemma_writes_settled(m);
        assert forall|i: int| 0 <= i < n implies #[trigger] reads_back(
            t_data::writes_settled(n),
            0,
            i,
            t_data::spaced(i, 4),
            t_data::nth(0x40, i),
        ) by {
            if i < m {
                assert(reads_back(
                    t_data::writes_settled(m),
                    0,
                    i,
                    t_data::spaced(i, 4),
                    t_data::nth(0x40, i),
                ));
            }
        }
    }
}

/// Of the lines `l` of a run with sixteen writes in flight: write `i` was handed over.
pub open spec fn write_in_flight(l: Seq<Line>, i: int) -> bool {
    account::handed(
        l[1 + i],
        l[2 + i],
        1,
        2048 + 4 * i,
        checks::pattern((0x40 + i) as u8, 512),
        false,
    )
}

/// Of the lines `l` of a run with sixteen writes in flight: the completion that came in turn
/// `j` was that of write `k`, and its status was OK.
pub open spec fn write_collected(l: Seq<Line>, j: int, k: int) -> bool {
    account::collected(
        l[18 + j],
        l[19 + j],
        l[1 + k].s.next_desc as int,
        account::places(l[1 + k].s, 512).2,
        seq![0u8],
    )
}

/// Of the lines `l` of a run with sixteen writes in flight: what write `i` wrote was read
/// back.
pub open spec fn write_read_back(l: Seq<Line>, i: int) -> bool {
    account::read(
        l[34 + i],
        l[35 + i],
        2048 + 4 * i,
        checks::pattern((0x40 + i) as u8, 512),
        0,
    )
}

/// The steps of a run with sixteen writes in flight.
spec fn many_writes(steps: Seq<Step>, sock: Seq<char>) -> bool {
    &&& steps.len() == 211
    &&& steps[0] == stages::plain(sock)
    &&& steps[1] == (Step::Need { sectors: 80 })
    &&& steps[114] == Step::Kick
    &&& forall|i: int|
        0 <= i < 16 ==> #[trigger] posts(
            steps,
            2,
            i,
            1,
            t_data::spaced(i, 4),
            t_data::nth(0x40, i),
            false,
        )
    &&& forall|j: int| 0 <= j < 16 ==> #[trigger] reaps(steps, 115, j, None)
    &&& forall|i: int|
        0 <= i < 16 ==> #[trigger] reads_back(
            steps,
            163,
            i,
            t_data::spaced(i, 4),
            t_data::nth(0x40, i),
        )
}

proof fn lemma_many_writes(sock: Seq<char>)
    ensures
        many_writes(registry::script(Case::MultiOutstanding, sock), sock),
{
    let steps = registry::script(Case::MultiOutstanding, sock);
    let posted = t_data::writes_posted(16);
    let reaped = t_data::writes_reaped(16);
    let settled = t_data::writes_settled(16);
    lemma_writes_posted(16);
    lemma_writes_reaped(16);
    lemma_writes_settled(16);
    assert(forall|x: int| 0 <= x < 112 ==> steps[2 + x] == #[trigger] posted[x]);
    assert(forall|x: int| 0 <= x < 48 ==> steps[115 + x] == #[trigger] reaped[x]);
    assert(forall|x: int| 0 <= x < 48 ==> steps[163 + x] == #[trigger] settled[x]);
    assert forall|i: int| 0 <= i < 16 implies #[trigger] posts(
        steps,
        2,
        i,
        1,
        t_data::spaced(i, 4),
        t_data::nth(0x40, i),
        false,
    ) by {
        let w = writing(i);
        assert(forall|r: int| 0 <= r < 7 ==> steps[2 + 7 * i + r] == #[trigger] w[r]) by {
            assert forall|r: int| 0 <= r < 7 implies steps[2 + 7 * i + r] == #[trigger] w[r] by {
                assert(posted[7 * i + r] == writing(i)[r]);
            }
        }
        assert(steps[2 + 7 * i] == w[0]);
        assert(steps[2 + 7 * i + 1] == w[1]);
        assert(steps[2 + 7 * i + 2] == w[2]);
        assert(steps[2 + 7 * i + 3] == w[3]);
        assert(steps[2 + 7 * i + 4] == w[4]);
        assert(steps[2 + 7 * i + 5] == w[5]);
        assert(steps[2 + 7 * i + 6] == w[6]);
        assert(w[6]->Post_chain =~= seq![
            Seg::readable((3 * i) as usize, 0, 16),
            Seg { buf: (3 * i + 1) as usize, at: 0, len: 512, write: false },
            Seg::writable((3 * i + 2) as usize, 0, 1),
        ]);
    }
    assert forall|j: int| 0 <= j < 16 implies #[trigger] reaps(steps, 115, j, None) by {
        assert(reaps(reaped, 0, j, None));
        assert(steps[115 + 3 * j] == reaped[3 * j]);
        assert(steps[115 + 3 * j + 1] == reaped[3 * j + 1]);
        assert(steps[115 + 3 * j + 2] == reaped[3 * j + 2]);
    }
    assert forall|i: int| 0 <= i < 16 implies #[trigger] reads_back(
        steps,
        163,
        i,
        t_data::spaced(i, 4),
        t_data::nth(0x40, i),
    ) by {
        assert(reads_back(settled, 0, i, t_data::spaced(i, 4), t_data::nth(0x40, i)));
        assert(steps[163 + 3 * i] == settled[3 * i]);
        assert(steps[163 + 3 * i + 1] == settled[3 * i + 1]);
        assert(steps[163 + 3 * i + 2] == settled[3 * i + 2]);
    }
}

proof fn lemma_settled(start: Bench, steps: Seq<Step>, i: int)
    requires
        passing::all_went(start, steps),
        steps.len() == 211,
        0 <= i < 16,
        reads_back(steps, 163, i, t_data::spaced(i, 4), t_data::nth(0x40, i)),
    ensures
        account::read(
            passing::at(start, steps, 163 + 3 * i).line(),
            passing::at(start, steps, 163 + 3 * i + 3).line(),
            2048 + 4 * i,
            checks::pattern((0x40 + i) as u8, 512),
            0,
        ),
{
    passing::lemma_read_back(
        start,
        steps,
        163 + 3 * i,
        t_data::spaced(i, 4),
        t_data::nth(0x40, i),
    );
}

/// Before which step line `x` of a run with sixteen writes in flight stands.
spec fn point(x: int) -> int {
    if x == 0 {
        0
    } else if x <= 17 {
        2 + 7 * (x - 1)
    } else if x <= 34 {
        115 + 3 * (x - 18)
    } else {
        163 + 3 * (x - 34)
    }
}

proof fn lemma_write_collected(start: Bench, steps: Seq<Step>, j: int, k: int)
    requires
        passing::all_went(start, steps),
        steps.len() == 211,
        steps[114] == Step::Kick,
        0 <= j < 16,
        0 <= k < 16,
        forall|x: int| 0 <= x < 16 ==> #[trigger] reaps(steps, 115, x, None),
        known(passing::at(start, steps, 114), start, steps, 2, k),
        taken(start, steps, 115 + 3 * j, k, None),
    ensures
        ({
            let s = passing::at(start, steps, 2 + 7 * k).s;
            account::collected(
                passing::at(start, steps, 115 + 3 * j).line(),
                passing::at(start, steps, 118 + 3 * j).line(),
                s.next_desc as int,
                account::places(s, 512).2,
                seq![0u8],
            )
        }),
{
    lemma_kept_so_far(start, steps, 115, j, None);
    passing::lemma_step(start, steps, 114);
}

proof fn lemma_write_lines(
    start: Bench,
    steps: Seq<Step>,
    sock: Seq<char>,
) -> (r: (Seq<Line>, Seq<int>))
    requires
        passing::all_went(start, steps),
        many_writes(steps, sock),
    ensures
        r.0.len() == 51,
        account::opened(r.0[0], r.0[1], sock, 0, 0),
        r.0[1].s.capacity_sectors >= 2136,
        forall|i: int| 0 <= i < 16 ==> #[trigger] write_in_flight(r.0, i),
        account::spoke(r.0[17].io, r.0[18].io, seq![ActionOf::Kick], 0),
        r.0[18].s == r.0[17].s,
        r.1.len() == 16,
        r.1.no_duplicates(),
        forall|j: int|
            0 <= j < 16 ==> 0 <= #[trigger] r.1[j] < 16 && write_collected(r.0, j, r.1[j]),
        forall|i: int| 0 <= i < 16 ==> #[trigger] write_read_back(r.0, i),
        r.0[0] == passing::at(start, steps, 0).line(),
        r.0[50] == passing::at(start, steps, 211).line(),
{
    passing::lemma_opened(start, steps, 0, sock, 0, 0);
    passing::lemma_need(start, steps, 1, 80);
    let sectors = |i: int| t_data::spaced(i, 4);
    let bytes = |i: int| t_data::nth(0x40, i);
    passing::lemma_step(start, steps, 0);
    assert forall|i: int| 0 <= i < 16 implies #[trigger] posts(
        steps,
        2,
        i,
        1,
        sectors(i),
        bytes(i),
        false,
    ) by {
        assert(posts(steps, 2, i, 1, t_data::spaced(i, 4), t_data::nth(0x40, i), false));
    }
    lemma_all_given(start, steps, 2, 16, 1, sectors, bytes, false);
    passing::lemma_step(start, steps, 114);
    let order = lemma_all_taken(start, steps, 115, 16, None);
    let l = Seq::new(51, |x: int| passing::at(start, steps, point(x)).line());
    assert forall|i: int| 0 <= i < 16 implies #[trigger] write_in_flight(l, i) by {
        assert(given(start, steps, 2, i, 1, sectors(i), bytes(i), false));
        assert(point(1 + i) == 2 + 7 * i);
        assert(point(2 + i) == 2 + 7 * (i + 1));
    }
    assert forall|j: int| 0 <= j < 16 implies 0 <= #[trigger] order[j] < 16 && write_collected(
        l,
        j,
        order[j],
    ) by {
        let k = order[j];
        assert(known(passing::at(start, steps, 114), start, steps, 2, k));
        assert(taken(start, steps, 115 + 3 * j, k, None));
        lemma_write_collected(start, steps, j, k);
        assert(point(18 + j) == 115 + 3 * j);
        assert(point(19 + j) == 118 + 3 * j);
        assert(point(1 + k) == 2 + 7 * k);
    }
    assert forall|i: int| 0 <= i < 16 implies #[trigger] write_read_back(l, i) by {
        assert(reads_back(steps, 163, i, t_data::spaced(i, 4), t_data::nth(0x40, i)));
        lemma_settled(start, steps, i);
        assert(point(34 + i) == 163 + 3 * i);
        assert(point(35 + i) == 163 + 3 * i + 3);
    }
    (l, order)
}

/// A pass means that sixteen writes were handed over before the device was woken, that their
/// completions came one by one in some order, none of them twice and each within five
/// seconds, and that all sixteen sectors then held what had been written.
pub proof fn every_write_in_flight_is_completed_and_kept(
    sock: Seq<char>,
    delay_ms: u64,
    replies: Seq<Rep>,
) -> (r: (Seq<Line>, Seq<int>))
    requires
        passing::passes(Case::MultiOutstanding, sock, delay_ms, replies),
    ensures
        passing::spans(r.0, Case::MultiOutstanding, sock, delay_ms, replies),
        r.0.len() == 51,
        account::opened(r.0[0], r.0[1], sock, 0, 0),
        r.0[1].s.capacity_sectors >= 2136,
        forall|i: int| 0 <= i < 16 ==> #[trigger] write_in_flight(r.0, i),
        account::spoke(r.0[17].io, r.0[18].io, seq![ActionOf::Kick], 0),
        r.0[18].s == r.0[17].s,
        r.1.len() == 16,
        r.1.no_duplicates(),
        forall|j: int|
            0 <= j < 16 ==> 0 <= #[trigger] r.1[j] < 16 && write_collected(r.0, j, r.1[j]),
        forall|i: int| 0 <= i < 16 ==> #[trigger] write_read_back(r.0, i),
{
    let start = bench::set_out(replay::opening(delay_ms, replies));
    let steps = registry::script(Case::MultiOutstanding, sock);
    lemma_many_writes(sock);
    passing::lemma_went(Case::MultiOutstanding, sock, delay_ms, replies);
    lemma_write_lines(start, steps, sock)
}

// ---- reads in flight --------------------------------------------------------------------

/// Of the steps from `f` on, turn `i` writes this pattern.
spec fn writes(steps: Seq<Step>, f: int, i: int, sector: Sector, data: Seq<u8>) -> bool {
    let x = f + 2 * i;
    &&& steps[x] == (Step::Write { at: sector, data })
    &&& steps[x + 1] == (Step::ExpectOk { label: "prewrite"@ })
}

proof fn lemma_sectors_prepared(n: nat)
    ensures
        t_data::sectors_prepared(n).len() == 2 * n,
        forall|i: int|
            0 <= i < n ==> #[trigger] writes(
                t_data::sectors_prepared(n),
                0,
                i,
                t_data::spaced(i, 2),
                t_data::nth(0x70, i),
            ),
    decreases n,
{
    if n > 0 {
        let m = (n - 1) as nat;
        lemma_sectors_prepared(m);
        assert forall|i: int| 0 <= i < n implies #[trigger] writes(
            t_data::sectors_prepared(n),
            0,
            i,
            t_data::spaced(i, 2),
            t_data::nth(0x70, i),
        ) by {
            if i < m {
                assert(writes(
                    t_data::sectors_prepared(m),
                    0,
                    i,
                    t_data::spaced(i, 2),
                    t_data::nth(0x70, i),
                ));
            }
        }
    }
}

spec fn reading(i: int) -> Seq<Step> {
    stages::staged_read((i * 3) as usize, t_data::spaced(i, 2), 512) + seq![
        Step::Post { chain: stages::reading_chain((i * 3) as usize, 512) },
    ]
}

proof fn lemma_reads_posted(n: nat)
    ensures
        t_data::reads_posted(n).len() == 7 * n,
        forall|i: int, r: int|
            0 <= i < n && 0 <= r < 7 ==> t_data::reads_posted(n)[7 * i + r]
                == #[trigger] reading(i)[r],
    decreases n,
{
    if n > 0 {
        let m = (n - 1) as nat;
        lemma_reads_posted(m);
        let last = reading(m as int);
        assert(t_data::reads_posted(n) =~= t_data::reads_posted(m) + last);
        assert forall|i: int, r: int| 0 <= i < n && 0 <= r < 7 implies t_data::reads_posted(n)[7 * i
            + r] == #[trigger] reading(i)[r] by {
            if i < m {
                assert(t_data::reads_posted(m)[7 * i + r] == reading(i)[r]);
            }
        }
    }
}

proof fn lemma_reads_reaped(n: nat)
    ensures
        t_data::reads_reaped(n).len() == 3 * n,
        forall|i: int| 0 <= i < n ==> #[trigger] reaps(t_data::reads_reaped(n), 0, i, Some(0x70u64)),
    decreases n,
{
    if n > 0 {
        let m = (n - 1) as nat;
        lemma_reads_reaped(m);
        assert forall|i: int| 0 <= i < n implies #[trigger] reaps(
            t_data::reads_reaped(n),
            0,
            i,
            Some(0x70u64),
        ) by {
            if i < m {
                assert(reaps(t_data::reads_reaped(m), 0, i, Some(0x70u64)));
            }
        }
    }
}

/// Of the lines `l` of a run with eight reads in flight: sector `i` was prepared.
pub open spec fn sector_written(l: Seq<Line>, i: int) -> bool {
    account::wrote(
        l[1 + i],
        l[2 + i],
        2048 + 2 * i,
        checks::pattern((0x70 + i) as u8, 512),
        0,
    )
}

/// Of the lines `l` of a run with eight reads in flight: read `i` was handed over.
pub open spec fn read_in_flight(l: Seq<Line>, i: int) -> bool {
    account::handed(l[9 + i], l[10 + i], 0, 2048 + 2 * i, mem::repeated(0, 512), true)
}

/// Of the lines `l` of a run with eight reads in flight: the completion that came in turn `j`
/// was that of read `k`, and brought what sector `k` holds.
pub open spec fn read_collected(l: Seq<Line>, j: int, k: int) -> bool {
    account::collected(
        l[18 + j],
        l[19 + j],
        l[9 + k].s.next_desc as int,
        account::places(l[9 + k].s, 512).1,
        checks::pattern((0x70 + k) as u8, 512),
    )
}

/// The steps of a run with eight reads in flight.
spec fn many_reads(steps: Seq<Step>, sock: Seq<char>) -> bool {
    &&& steps.len() == 99
    &&& steps[0] == stages::plain(sock)
    &&& steps[1] == (Step::Need { sectors: 64 })
    &&& steps[74] == Step::Kick
    &&& forall|i: int|
        0 <= i < 8 ==> #[trigger] writes(
            steps,
            2,
            i,
            t_data::spaced(i, 2),
            t_data::nth(0x70, i),
        )
    &&& forall|i: int|
        0 <= i < 8 ==> #[trigger] posts(
            steps,
            18,
            i,
            0,
            t_data::spaced(i, 2),
            mem::repeated(0, 512),
            true,
        )
    &&& forall|j: int| 0 <= j < 8 ==> #[trigger] reaps(steps, 75, j, Some(0x70u64))
}

proof fn lemma_many_reads(sock: Seq<char>)
    ensures
        many_reads(registry::script(Case::OutOfOrder, sock), sock),
{
    let steps = registry::script(Case::OutOfOrder, sock);
    let prepared = t_data::sectors_prepared(8);
    let posted = t_data::reads_posted(8);
    let reaped = t_data::reads_reaped(8);
    lemma_sectors_prepared(8);
    lemma_reads_posted(8);
    lemma_reads_reaped(8);
    assert(forall|x: int| 0 <= x < 16 ==> steps[2 + x] == #[trigger] prepared[x]);
    assert(forall|x: int| 0 <= x < 56 ==> steps[18 + x] == #[trigger] posted[x]);
    assert(forall|x: int| 0 <= x < 24 ==> steps[75 + x] == #[trigger] reaped[x]);
    assert forall|i: int| 0 <= i < 8 implies #[trigger] writes(
        steps,
        2,
        i,
        t_data::spaced(i, 2),
        t_data::nth(0x70, i),
    ) by {
        assert(writes(prepared, 0, i, t_data::spaced(i, 2), t_data::nth(0x70, i)));
        assert(steps[2 + 2 * i] == prepared[2 * i]);
        assert(steps[2 + 2 * i + 1] == prepared[2 * i + 1]);
    }
    assert forall|i: int| 0 <= i < 8 implies #[trigger] posts(
        steps,
        18,
        i,
        0,
        t_data::spaced(i, 2),
        mem::repeated(0, 512),
        true,
    ) by {
        let w = reading(i);
        assert forall|r: int| 0 <= r < 7 implies steps[18 + 7 * i + r] == #[trigger] w[r] by {
            assert(posted[7 * i + r] == reading(i)[r]);
        }
        assert(steps[18 + 7 * i] == w[0]);
        assert(steps[18 + 7 * i + 1] == w[1]);
        assert(steps[18 + 7 * i + 2] == w[2]);
        assert(steps[18 + 7 * i + 3] == w[3]);
        assert(steps[18 + 7 * i + 4] == w[4]);
        assert(steps[18 + 7 * i + 5] == w[5]);
        assert(steps[18 + 7 * i + 6] == w[6]);
        assert(w[6]->Post_chain =~= seq![
            Seg::readable((3 * i) as usize, 0, 16),
            Seg { buf: (3 * i + 1) as usize, at: 0, len: 512, write: true },
            Seg::writable((3 * i + 2) as usize, 0, 1),
        ]);
    }
    assert forall|j: int| 0 <= j < 8 implies #[trigger] reaps(steps, 75, j, Some(0x70u64)) by {
        assert(reaps(reaped, 0, j, Some(0x70u64)));
        assert(steps[75 + 3 * j] == reaped[3 * j]);
        assert(steps[75 + 3 * j + 1] == reaped[3 * j + 1]);
        assert(steps[75 + 3 * j + 2] == reaped[3 * j + 2]);
    }
}

/// Writes one after the other leave the buffers and the chains in flight alone.
proof fn lemma_all_written(
    start: Bench,
    steps: Seq<Step>,
    f: int,
    m: int,
    sectors: spec_fn(int) -> Sector,
    bytes: spec_fn(int) -> Seq<u8>,
)
    requires
        0 <= f,
        0 <= m,
        f + 2 * m <= steps.len(),
        passing::all_went(start, steps),
        forall|i: int| 0 <= i < m ==> #[trigger] writes(steps, f, i, sectors(i), bytes(i)),
    ensures
        passing::kept(passing::at(start, steps, f), passing::at(start, steps, f + 2 * m)),
        passing::at(start, steps, f + 2 * m).reported == passing::at(start, steps, f).reported,
    decreases m,
{
    if m > 0 {
        let n = m - 1;
        lemma_all_written(start, steps, f, n, sectors, bytes);
        assert(writes(steps, f, n, sectors(n), bytes(n)));
        passing::lemma_good_write(start, steps, f + 2 * n, sectors(n), bytes(n));
        passing::lemma_step(start, steps, f + 2 * n);
        passing::lemma_step(start, steps, f + 2 * n + 1);
        assert(f + 2 * m == f + 2 * n + 2);
    }
}

/// Before which step line `x` of a run with eight reads in flight stands.
spec fn read_point(x: int) -> int {
    if x == 0 {
        0
    } else if x <= 9 {
        2 + 2 * (x - 1)
    } else if x <= 17 {
        18 + 7 * (x - 9)
    } else {
        75 + 3 * (x - 18)
    }
}

proof fn lemma_sector_written(start: Bench, steps: Seq<Step>, i: int)
    requires
        passing::all_went(start, steps),
        steps.len() == 99,
        0 <= i < 8,
        writes(steps, 2, i, t_data::spaced(i, 2), t_data::nth(0x70, i)),
    ensures
        account::wrote(
            passing::at(start, steps, 2 + 2 * i).line(),
            passing::at(start, steps, 4 + 2 * i).line(),
            2048 + 2 * i,
            checks::pattern((0x70 + i) as u8, 512),
            0,
        ),
{
    passing::lemma_good_write(
        start,
        steps,
        2 + 2 * i,
        t_data::spaced(i, 2),
        t_data::nth(0x70, i),
    );
}

proof fn lemma_read_collected(start: Bench, steps: Seq<Step>, j: int, k: int)
    requires
        passing::all_went(start, steps),
        steps.len() == 99,
        steps[74] == Step::Kick,
        0 <= j < 8,
        0 <= k < 8,
        forall|x: int| 0 <= x < 8 ==> #[trigger] reaps(steps, 75, x, Some(0x70u64)),
        known(passing::at(start, steps, 74), start, steps, 18, k),
        taken(start, steps, 75 + 3 * j, k, Some(0x70u64)),
    ensures
        ({
            let s = passing::at(start, steps, 18 + 7 * k).s;
            account::collected(
                passing::at(start, steps, 75 + 3 * j).line(),
                passing::at(start, steps, 78 + 3 * j).line(),
                s.next_desc as int,
                account::places(s, 512).1,
                checks::pattern((0x70 + k) as u8, 512),
            )
        }),
{
    lemma_kept_so_far(start, steps, 75, j, Some(0x70u64));
    passing::lemma_step(start, steps, 74);
}

proof fn lemma_read_lines(
    start: Bench,
    steps: Seq<Step>,
    sock: Seq<char>,
) -> (r: (Seq<Line>, Seq<int>))
    requires
        passing::all_went(start, steps),
        many_reads(steps, sock),
    ensures
        r.0.len() == 27,
        account::opened(r.0[0], r.0[1], sock, 0, 0),
        r.0[1].s.capacity_sectors >= 2120,
        forall|i: int| 0 <= i < 8 ==> #[trigger] sector_written(r.0, i),
        forall|i: int| 0 <= i < 8 ==> #[trigger] read_in_flight(r.0, i),
        account::spoke(r.0[17].io, r.0[18].io, seq![ActionOf::Kick], 0),
        r.0[18].s == r.0[17].s,
        r.1.len() == 8,
        r.1.no_duplicates(),
        forall|j: int| 0 <= j < 8 ==> 0 <= #[trigger] r.1[j] < 8 && read_collected(r.0, j, r.1[j]),
        r.0[0] == passing::at(start, steps, 0).line(),
        r.0[26] == passing::at(start, steps, 99).line(),
{
    passing::lemma_opened(start, steps, 0, sock, 0, 0);
    passing::lemma_step(start, steps, 0);
    passing::lemma_need(start, steps, 1, 64);
    let sectors = |i: int| t_data::spaced(i, 2);
    let bytes = |i: int| t_data::nth(0x70, i);
    let zeroes = |i: int| mem::repeated(0, 512);
    assert forall|i: int| 0 <= i < 8 implies #[trigger] writes(
        steps,
        2,
        i,
        sectors(i),
        bytes(i),
    ) by {
        assert(writes(steps, 2, i, t_data::spaced(i, 2), t_data::nth(0x70, i)));
    }
    lemma_all_written(start, steps, 2, 8, sectors, bytes);
    assert forall|i: int| 0 <= i < 8 implies #[trigger] posts(
        steps,
        18,
        i,
        0,
        sectors(i),
        zeroes(i),
        true,
    ) by {
        assert(posts(steps, 18, i, 0, t_data::spaced(i, 2), mem::repeated(0, 512), true));
    }
    lemma_all_given(start, steps, 18, 8, 0, sectors, zeroes, true);
    passing::lemma_step(start, steps, 74);
    let order = lemma_all_taken(start, steps, 75, 8, Some(0x70u64));
    let l = Seq::new(27, |x: int| passing::at(start, steps, read_point(x)).line());
    assert forall|i: int| 0 <= i < 8 implies #[trigger] sector_written(l, i) by {
        assert(writes(steps, 2, i, t_data::spaced(i, 2), t_data::nth(0x70, i)));
        lemma_sector_written(start, steps, i);
        assert(read_point(1 + i) == 2 + 2 * i);
        assert(read_point(2 + i) == 4 + 2 * i);
    }
    assert forall|i: int| 0 <= i < 8 implies #[trigger] read_in_flight(l, i) by {
        assert(given(start, steps, 18, i, 0, sectors(i), zeroes(i), true));
        assert(read_point(9 + i) == 18 + 7 * i);
        assert(read_point(10 + i) == 18 + 7 * (i + 1));
    }
    assert forall|j: int| 0 <= j < 8 implies 0 <= #[trigger] order[j] < 8 && read_collected(
        l,
        j,
        order[j],
    ) by {
        let k = order[j];
        assert(known(passing::at(start, steps, 74), start, steps, 18, k));
        assert(taken(start, steps, 75 + 3 * j, k, Some(0x70u64)));
        lemma_read_collected(start, steps, j, k);
        assert(read_point(18 + j) == 75 + 3 * j);
        assert(read_point(19 + j) == 78 + 3 * j);
        assert(read_point(9 + k) == 18 + 7 * k);
    }
    (l, order)
}

/// A pass means that eight reads of prepared sectors were handed over before the device was
/// woken, that their completions came one by one in some order, none of them twice and each
/// within five seconds, and that each brought what its own sector holds.
pub proof fn every_read_in_flight_brings_its_own_sector(
    sock: Seq<char>,
    delay_ms: u64,
    replies: Seq<Rep>,
) -> (r: (Seq<Line>, Seq<int>))
    requires
        passing::passes(Case::OutOfOrder, sock, delay_ms, replies),
    ensures
        passing::spans(r.0, Case::OutOfOrder, sock, delay_ms, replies),
        r.0.len() == 27,
        account::opened(r.0[0], r.0[1], sock, 0, 0),
        r.0[1].s.capacity_sectors >= 2120,
        forall|i: int| 0 <= i < 8 ==> #[trigger] sector_written(r.0, i),
        forall|i: int| 0 <= i < 8 ==> #[trigger] read_in_flight(r.0, i),
        account::spoke(r.0[17].io, r.0[18].io, seq![ActionOf::Kick], 0),
        r.0[18].s == r.0[17].s,
        r.1.len() == 8,
        r.1.no_duplicates(),
        forall|j: int| 0 <= j < 8 ==> 0 <= #[trigger] r.1[j] < 8 && read_collected(r.0, j, r.1[j]),
{
    let start = bench::set_out(replay::opening(delay_ms, replies));
    let steps = registry::script(Case::OutOfOrder, sock);
    lemma_many_reads(sock);
    passing::lemma_went(Case::OutOfOrder, sock, delay_ms, replies);
    lemma_read_lines(start, steps, sock)
}

// ---- rounds -----------------------------------------------------------------------------

/// Of the steps from `f` on, turn `i` writes this pattern and reads it back.
spec fn goes_round(steps: Seq<Step>, f: int, i: int) -> bool {
    let x = f + 5 * i;
    &&& steps[x] == (Step::Write { at: Sector::At(2048), data: checks::pattern(0x5c, 512) })
    &&& steps[x + 1] == (Step::ExpectOk { label: "write across wrap"@ })
    &&& steps[x + 2] == (Step::Read { at: Sector::At(2048), len: 512 })
    &&& steps[x + 3] == (Step::ExpectOk { label: "read across wrap"@ })
    &&& steps[x + 4] == (Step::Same {
        label: stages::with_number("wrap iter "@, i as nat),
        want: checks::pattern(0x5c, 512),
    })
}

proof fn lemma_rounds(n: nat)
    ensures
        t_precision::rounds(n).len() == 5 * n,
        forall|i: int| 0 <= i < n ==> #[trigger] goes_round(t_precision::rounds(n), 0, i),
    decreases n,
{
    if n > 0 {
        let m = (n - 1) as nat;
        lemma_rounds(m);
        assert forall|i: int| 0 <= i < n implies #[trigger] goes_round(
            t_precision::rounds(n),
            0,
            i,
        ) by {
            if i < m {
                assert(goes_round(t_precision::rounds(m), 0, i));
            }
        }
    }
}

/// Of the lines `l` of a run of rounds: round `i` wrote a pattern and read it back.
pub open spec fn went_round(l: Seq<Line>, i: int) -> bool {
    &&& account::wrote(l[1 + 2 * i], l[2 + 2 * i], 2048, checks::pattern(0x5c, 512), 0)
    &&& account::read(l[2 + 2 * i], l[3 + 2 * i], 2048, checks::pattern(0x5c, 512), 0)
}

/// Before which step line `x` of a run of rounds stands.
spec fn round_point(x: int) -> int {
    if x == 0 {
        0
    } else if x % 2 == 1 {
        2 + 5 * ((x - 1) / 2)
    } else {
        4 + 5 * ((x - 2) / 2)
    }
}

/// A pass means that 24 writes and 24 reads were served, one after the other, in a session
/// whose ring indices started at 0xfff0 and so went past their last value.
pub proof fn indices_of_the_ring_wrap(sock: Seq<char>, delay_ms: u64, replies: Seq<Rep>) -> (l: Seq<
    Line,
>)
    requires
        passing::passes(Case::UsedIndexWrap, sock, delay_ms, replies),
    ensures
        passing::spans(l, Case::UsedIndexWrap, sock, delay_ms, replies),
        l.len() == 50,
        account::opened(l[0], l[1], sock, 0, 0xfff0),
        l[1].s.capacity_sectors >= 2060,
        forall|i: int| 0 <= i < 24 ==> #[trigger] went_round(l, i),
{
    let start = bench::set_out(replay::opening(delay_ms, replies));
    let steps = registry::script(Case::UsedIndexWrap, sock);
    let rounds = t_precision::rounds(24);
    lemma_rounds(24);
    assert(steps.len() == 122);
    passing::lemma_went(Case::UsedIndexWrap, sock, delay_ms, replies);
    passing::lemma_opened(start, steps, 0, sock, 0, 0xfff0);
    passing::lemma_need(start, steps, 1, 4);
    let l = Seq::new(50, |x: int| passing::at(start, steps, round_point(x)).line());
    assert forall|i: int| 0 <= i < 24 implies #[trigger] went_round(l, i) by {
        assert(goes_round(rounds, 0, i));
        let x = 2 + 5 * i;
        assert(steps[x] == rounds[5 * i]);
        assert(steps[x + 1] == rounds[5 * i + 1]);
        assert(steps[x + 2] == rounds[5 * i + 2]);
        assert(steps[x + 3] == rounds[5 * i + 3]);
        assert(steps[x + 4] == rounds[5 * i + 4]);
        passing::lemma_good_write(
            start,
            steps,
            x,
            Sector::At(2048),
            checks::pattern(0x5c, 512),
        );
        passing::lemma_read_back(
            start,
            steps,
            x + 2,
            Sector::At(2048),
            checks::pattern(0x5c, 512),
        );
        assert(round_point(1 + 2 * i) == x);
        assert(round_point(2 + 2 * i) == x + 2);
        assert(round_point(3 + 2 * i) == x + 5);
    }
    l
}

// ---- texts ------------------------------------------------------------------------------

/// What the scenario `multi_outstanding` says when sector `i` does not hold what was written.
pub proof fn multi_outstanding_says(p: Play, i: int)
    requires
        p.case == Case::MultiOutstanding,
        0 <= i < 16,
    ensures
        says::status_is_told(p, 164 + 3 * i, "readback"@),
        says::difference_is_told(
            p,
            165 + 3 * i,
            "multi-outstanding"@,
            checks::pattern((0x40 + i) as u8, 512),
        ),
{
    let steps = p.steps();
    lemma_many_writes(p.sock);
    assert(reads_back(steps, 163, i, t_data::spaced(i, 4), t_data::nth(0x40, i)));
    says::lemma_status_is_told(p, 164 + 3 * i, "readback"@);
    says::lemma_difference_is_told(
        p,
        165 + 3 * i,
        "multi-outstanding"@,
        checks::pattern((0x40 + i) as u8, 512),
    );
}

/// What the scenario `multi_outstanding` says when turn `j` of its completions goes wrong.
pub proof fn multi_outstanding_says_in_turn(p: Play, j: int)
    requires
        p.case == Case::MultiOutstanding,
        0 <= j < 16,
    ensures
        says::count_so_far_is_told(
            p,
            115 + 3 * j,
            j as nat,
            16,
            "ЗАВИСАНИЕ: получено "@,
            " завершений"@,
        ),
        says::unknown_head_is_told(p, 116 + 3 * j),
        says::second_completion_is_told(p, 116 + 3 * j),
        forall|st: u8| #[trigger] says::failed_write_is_told(p, 117 + 3 * j, 4, st),
{
    lemma_many_writes(p.sock);
    assert(reaps(p.steps(), 115, j, None));
    says::lemma_count_so_far_is_told(
        p,
        115 + 3 * j,
        j as nat,
        16,
        "ЗАВИСАНИЕ: получено "@,
        " завершений"@,
    );
    says::lemma_unknown_head_is_told(p, 116 + 3 * j);
    says::lemma_second_completion_is_told(p, 116 + 3 * j);
    assert forall|st: u8| #[trigger] says::failed_write_is_told(p, 117 + 3 * j, 4, st) by {
        says::lemma_failed_write_is_told(p, 117 + 3 * j, 4, st);
    }
}

/// What the scenario `out_of_order` says when turn `j` of its completions goes wrong.
pub proof fn out_of_order_says_in_turn(p: Play, j: int)
    requires
        p.case == Case::OutOfOrder,
        0 <= j < 8,
    ensures
        says::count_so_far_is_told(
            p,
            75 + 3 * j,
            j as nat,
            8,
            "ЗАВИСАНИЕ: "@,
            " завершений"@,
        ),
        says::unknown_head_is_told(p, 76 + 3 * j),
        says::second_completion_is_told(p, 76 + 3 * j),
        forall|data: Seq<u8>| #[trigger] says::wrong_sector_is_told(p, 77 + 3 * j, 2, data),
{
    lemma_many_reads(p.sock);
    assert(reaps(p.steps(), 75, j, Some(0x70u64)));
    says::lemma_count_so_far_is_told(
        p,
        75 + 3 * j,
        j as nat,
        8,
        "ЗАВИСАНИЕ: "@,
        " завершений"@,
    );
    says::lemma_unknown_head_is_told(p, 76 + 3 * j);
    says::lemma_second_completion_is_told(p, 76 + 3 * j);
    assert forall|data: Seq<u8>| #[trigger] says::wrong_sector_is_told(p, 77 + 3 * j, 2, data) by {
        says::lemma_wrong_sector_is_told(p, 77 + 3 * j, 2, data);
    }
}

/// What the scenario `out_of_order` says when sector `i` cannot be prepared.
pub proof fn out_of_order_says(p: Play, i: int)
    requires
        p.case == Case::OutOfOrder,
        0 <= i < 8,
    ensures
        says::status_is_told(p, 3 + 2 * i, "prewrite"@),
{
    let steps = p.steps();
    lemma_many_reads(p.sock);
    assert(writes(steps, 2, i, t_data::spaced(i, 2), t_data::nth(0x70, i)));
    says::lemma_status_is_told(p, 3 + 2 * i, "prewrite"@);
}

/// What the scenario `used_index_wrap` says when round `i` goes wrong.
pub proof fn used_index_wrap_says(p: Play, i: int)
    requires
        p.case == Case::UsedIndexWrap,
        0 <= i < 24,
    ensures
        says::status_is_told(p, 3 + 5 * i, "write across wrap"@),
        says::status_is_told(p, 5 + 5 * i, "read across wrap"@),
        says::difference_is_told(
            p,
            6 + 5 * i,
            stages::with_number("wrap iter "@, i as nat),
            checks::pattern(0x5c, 512),
        ),
{
    let steps = p.steps();
    let rounds = t_precision::rounds(24);
    lemma_rounds(24);
    assert(goes_round(rounds, 0, i));
    assert(steps[3 + 5 * i] == rounds[5 * i + 1]);
    assert(steps[5 + 5 * i] == rounds[5 * i + 3]);
    assert(steps[6 + 5 * i] == rounds[5 * i + 4]);
    says::lemma_status_is_told(p, 3 + 5 * i, "write across wrap"@);
    says::lemma_status_is_told(p, 5 + 5 * i, "read across wrap"@);
    says::lemma_difference_is_told(
        p,
        6 + 5 * i,
        stages::with_number("wrap iter "@, i as nat),
        checks::pattern(0x5c, 512),
    );
}

} // verus!
