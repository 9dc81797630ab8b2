//! Scenarios as lists of steps, and what each step does.
//!
//! A bench is a conversation with the device under test, the session in it, and the
//! few things that a step leaves for the next one to look at. A step that finds a
//! fault stops the bench, and the steps after it do nothing.

use vstd::prelude::*;

use crate::checks;
use crate::checks::WORK;
use crate::dev::{
    Desc, Session, UsedElem, AVAIL_OFF, DATA_OFF, DESC_OFF, QSZ, REGION_SIZE, SECTOR, TIMEOUT_MS,
    VIRTIO_BLK_S_IOERR, VIRTIO_BLK_S_OK, VIRTIO_BLK_S_UNSUPP,
};
use crate::link::{Act, ActionOf, Got, Talk};
use crate::mem;
use crate::mem::SharedMem;
use crate::model;
use crate::model::Line;
use crate::text;

verus! {

/// How far a scenario has come. `S` is text.
pub enum StageOf<S> {
    /// Nothing has gone wrong so far.
    Live,
    /// The next answer of the outside is missing.
    Waiting,
    Failed(S),
    Skipped(S),
}

pub type Stage = StageOf<Seq<char>>;

/// A sector, given as such or by the capacity of the device.
#[derive(Clone, Copy)]
pub enum Sector {
    At(u64),
    /// The last sector of the device.
    Last,
    /// So many sectors after the end of the device.
    Past(u64),
}

/// A part of a buffer as a segment of a chain.
#[derive(Clone, Copy)]
pub struct Seg {
    /// Which of the buffers of the session.
    pub buf: usize,
    /// Where in the buffer the segment starts.
    pub at: usize,
    pub len: usize,
    /// The device writes the segment.
    pub write: bool,
}

/// An address for a descriptor that is written by hand.
#[derive(Clone, Copy)]
pub enum Place {
    /// The start of one of the buffers of the session.
    Buf(usize),
    Abs(u64),
}

/// What a scenario cannot do without.
#[derive(Clone, Copy)]
pub enum Wanted {
    /// An acknowledged feature.
    Feature(u64),
    /// An offered feature.
    Offered(u64),
    /// Agreed protocol features.
    Protocol(u64),
    /// A capacity that is known.
    Capacity,
}

/// Which statuses are right.
#[derive(Clone, Copy)]
pub enum Accept {
    Only(u8),
    /// Any but OK.
    NotOk,
    /// OK, an I/O error, or unsupported.
    Known,
    /// OK, or an I/O error.
    Served,
    /// An I/O error, or unsupported.
    Refusal,
}

/// The text for a wrong status. `S` is text.
pub enum SaysOf<S> {
    Plain(S),
    /// The status stands between the two.
    Status(S, S),
    /// The capacity stands between the two.
    Capacity(S, S),
}

pub type Says = SaysOf<Seq<char>>;

/// One step of a scenario.
#[allow(inconsistent_fields)]
pub enum Step {
    /// A new session with its ring enabled.
    Connect { path: Seq<char>, mask_out: u64, base: u16 },
    /// A new session without a ring.
    Handshake { path: Seq<char>, do_mem_table: bool },
    /// The session is given up.
    Close,
    /// A pause before the next session, if one is asked for.
    Cooldown,
    /// The device has room for so many sectors from the work area on, or the scenario
    /// is skipped.
    Need { sectors: u64 },
    /// So many sectors past the end of the device have a number, or the scenario is at
    /// fault.
    Beyond { sectors: u64 },
    /// The scenario is skipped without this.
    Require { what: Wanted, text: Seq<char> },
    /// A request that writes; leaves the status.
    Write { at: Sector, data: Seq<u8> },
    /// A request that reads; leaves the status and the bytes.
    Read { at: Sector, len: usize },
    /// The same, with a tag before the text of a fault.
    ReadIn { tag: Seq<char>, at: Sector, len: usize },
    /// A flush; leaves the status.
    Flush,
    /// A request for the identity; leaves the status and the bytes.
    GetId,
    /// A discard or a write-zeroes; leaves the status.
    Range { req_type: u32, at: Sector, num_sectors: u32, unmap: bool },
    /// The status is OK.
    ExpectOk { label: Seq<char> },
    /// The bytes are these.
    Same { label: Seq<char>, want: Seq<u8> },
    /// The bytes are zero.
    AllZero { label: Seq<char> },
    /// The bytes from this place on are as they were preset.
    Untouched { label: Seq<char>, from: usize },
    CheckStatus { accept: Accept, says: Says },
    /// So many bytes were left; the number found stands between the two texts.
    Length { want: nat, before: Seq<char>, after: Seq<char> },
    /// One more buffer.
    Alloc { len: usize },
    /// A request header at the start of a buffer.
    Header { buf: usize, req_type: u32, at: Sector },
    /// Bytes in a buffer.
    Put { buf: usize, at: usize, data: Seq<u8> },
    /// Zeroes at the start of a buffer.
    Zero { buf: usize, len: usize },
    /// A descriptor written by hand into the table of the ring.
    RawDesc { idx: u16, addr: Place, len: u32, flags: u16, next: u16 },
    /// A descriptor written by hand at the start of a buffer.
    TableEntry { buf: usize, addr: Place, len: u32, flags: u16, next: u16 },
    /// A head made available by hand.
    PushAvail { head: u16 },
    /// A chain made available; leaves its head.
    Post { chain: Seq<Seg> },
    /// A chain in a table of its own made available; leaves the head.
    PostIndirect { chain: Seq<Seg>, table: usize },
    Kick,
    /// A chain made available and completed; leaves the completion.
    Submit { chain: Seq<Seg> },
    /// A completion, or the text; leaves the completion.
    Await { text: Seq<char> },
    /// Any completion that comes in time is dropped.
    IgnoreUsed { timeout_ms: u64 },
    /// No completion may come in time; the id of one that does stands between the texts.
    Silence { timeout_ms: u64, before: Seq<char>, after: Seq<char> },
    /// The completion is that of the chain posted last.
    CheckHead { prefix: Seq<char> },
    /// One more completion of several, or a text with the count so far; leaves the
    /// completion.
    Complete { done: nat, of: nat, before: Seq<char>, after: Seq<char> },
    /// The completion is that of a posted chain, and the first of it; leaves which.
    Find,
    /// The request found was a write of three buffers that went well.
    Written { stride: u64 },
    /// The request found was a read of three buffers, and brought its own sector.
    Fetched { stride: u64, seed: u64 },
    UsedLenOfRead { len: usize },
    UsedLenOfWrite,
    /// Leaves the status in a buffer.
    Status { buf: usize },
    /// Leaves the bytes at the start of a buffer.
    Load { buf: usize, len: usize },
    AvailFlags { flags: u16 },
    DrainCall,
    /// The device signals in time, or it does not, as wanted.
    Signal { timeout_ms: u64, want: bool, text: Seq<char> },
    /// A protocol message whose refusal is a fault.
    Call { act: Act, label: Seq<char> },
    /// A protocol message whose refusal is of no consequence.
    Try { act: Act },
    /// The addresses of the ring, with the descriptor table at any offset; a refusal is
    /// of no consequence.
    TryRingAt { desc_off: usize },
    /// The set-up of the ring; a refusal is of no consequence.
    TrySetup,
    /// Leaves the position of the device in the available ring.
    Base,
    /// Leaves the offered features.
    Features { label: Seq<char> },
    /// Leaves the first bytes of the configuration.
    Config { size: u32, label: Seq<char> },
    /// Sets bytes and number aside, to be held against later ones.
    Keep,
    /// The number is this; the one found stands between the texts.
    CheckNumber { want: u64, before: Seq<char>, after: Seq<char> },
    /// The number is the one set aside.
    CheckStable,
    /// The first eight bytes are those of the bytes set aside.
    CheckConfig,
    BlkSizeSane,
}

/// The state of a scenario.
pub struct Bench {
    pub io: Talk,
    pub stage: Stage,
    pub s: Session,
    /// Where the buffers of the session start, in the order they were given out.
    pub bufs: Seq<usize>,
    /// The heads of the chains of the session, in the order they were posted.
    pub heads: Seq<u16>,
    /// The heads of those that were found completed, in the order they were.
    pub reported: Seq<u32>,
    pub status: u8,
    pub data: Seq<u8>,
    pub number: u64,
    pub kept_data: Seq<u8>,
    pub kept_number: u64,
    pub used: UsedElem,
}

/// A session that nobody has opened.
pub open spec fn no_session() -> Session {
    Session {
        mem: SharedMem { fd: 0, base: 0, size: REGION_SIZE },
        proto: 0,
        acked: 0,
        capacity_sectors: 0,
        blk_size: 512,
        config_blk_size: 512,
        offered: 0,
        next_desc: 0,
        avail_idx: 0,
        used_idx_seen: 0,
        next_data: DATA_OFF,
    }
}

/// The start of a scenario.
pub open spec fn set_out(io: Talk) -> Bench {
    Bench {
        io,
        stage: StageOf::Live,
        s: no_session(),
        bufs: Seq::empty(),
        heads: Seq::empty(),
        reported: Seq::empty(),
        status: 0,
        data: Seq::empty(),
        number: 0,
        kept_data: Seq::empty(),
        kept_number: 0,
        used: UsedElem { id: 0, len: 0 },
    }
}

/// A number between two texts.
pub open spec fn around(before: Seq<char>, n: nat, after: Seq<char>) -> Seq<char> {
    before + text::decimal(n) + after
}

pub open spec fn accepts(accept: Accept, status: u8) -> bool {
    match accept {
        Accept::Only(v) => status == v,
        Accept::NotOk => status != VIRTIO_BLK_S_OK,
        Accept::Known => status <= VIRTIO_BLK_S_UNSUPP,
        Accept::Served => status == VIRTIO_BLK_S_OK || status == VIRTIO_BLK_S_IOERR,
        Accept::Refusal => status == VIRTIO_BLK_S_UNSUPP || status == VIRTIO_BLK_S_IOERR,
    }
}

/// A power of two.
pub open spec fn single_bit(n: u32) -> bool {
    n & ((n - 1) as u32) == 0
}

/// The text for a reading request whose completion has the wrong length.
pub open spec fn used_len_of_read(found: u32, len: nat) -> Seq<char> {
    "used.len="@ + text::decimal(found as nat) + " (спека: данные+status="@ + text::decimal(
        (len + 1) % 0x1_0000_0000,
    ) + "). Значение "@ + text::decimal(len)
        + " (только данные) или 0 — известное нарушение"@
}

/// The text for configuration bytes that are not the same twice.
pub open spec fn config_differs(head: Seq<u8>, full: Seq<u8>) -> Seq<char> {
    "частичный GET_CONFIG(0,8) != первые 8 байт GET_CONFIG(0,60): ["@ + text::byte_list(
        head.take(8),
    ) + "] vs ["@ + text::byte_list(full.take(8)) + "]"@
}

/// The first place from `i` on where `id` stands among the heads.
pub open spec fn place_of(heads: Seq<u16>, id: u32, i: int) -> Option<int>
    decreases heads.len() - i,
{
    if i >= heads.len() {
        None
    } else if heads[i] == id {
        Some(i)
    } else {
        place_of(heads, id, i + 1)
    }
}

impl Bench {
    pub open spec fn fail(self, m: Seq<char>) -> Bench {
        Bench { stage: StageOf::Failed(m), ..self }
    }

    pub open spec fn skip(self, m: Seq<char>) -> Bench {
        Bench { stage: StageOf::Skipped(m), ..self }
    }

    /// A step that reaches outside the region, or for a sector that has no number: the
    /// scenario is at fault.
    pub open spec fn broken(self) -> Bench {
        self.fail("PANIC в харнессе"@)
    }

    /// An operation that gave no value.
    pub open spec fn stop<T>(self, g: Got<T>) -> Bench {
        match g {
            Got::Fault(m) => self.fail(m),
            _ => Bench { stage: StageOf::Waiting, ..self },
        }
    }

    pub open spec fn line(self) -> Line {
        Line { s: self.s, io: self.io }
    }

    pub open spec fn on(self, l: Line) -> Bench {
        Bench { s: l.s, io: l.io, ..self }
    }

    pub open spec fn hearing(self, io: Talk) -> Bench {
        Bench { io, ..self }
    }

    /// The number of a sector. Past the end of the number range it starts over, which
    /// `Step::Beyond` keeps from happening.
    pub open spec fn sector(self, at: Sector) -> u64 {
        match at {
            Sector::At(n) => n,
            Sector::Last => model::wrap64(self.s.capacity_sectors - 1),
            Sector::Past(k) => model::wrap64(self.s.capacity_sectors + k),
        }
    }

    /// Where buffer `i` starts; the start of the data area if there is none.
    pub open spec fn buf(self, i: int) -> int {
        if 0 <= i < self.bufs.len() {
            self.bufs[i] as int
        } else {
            DATA_OFF as int
        }
    }

    pub open spec fn place(self, p: Place) -> u64 {
        match p {
            Place::Buf(i) => self.buf(i as int) as u64,
            Place::Abs(a) => a,
        }
    }

    /// `len` bytes from `at` on in buffer `i` lie in the region.
    pub open spec fn inside(self, i: int, at: int, len: int) -> bool {
        self.buf(i) + at + len <= REGION_SIZE
    }

    /// A chain that can be posted: it has a segment, and each starts in the region.
    pub open spec fn postable(self, chain: Seq<Seg>) -> bool {
        chain.len() >= 1 && forall|i: int|
            0 <= i < chain.len() ==> self.inside(
                #[trigger] chain[i].buf as int,
                chain[i].at as int,
                0,
            )
    }

    /// A segment as a descriptor.
    pub open spec fn desc(self, seg: Seg) -> Desc {
        if seg.write {
            model::writable(self.buf(seg.buf as int) + seg.at, seg.len as int)
        } else {
            model::readable(self.buf(seg.buf as int) + seg.at, seg.len as int)
        }
    }

    pub open spec fn descs(self, chain: Seq<Seg>) -> Seq<Desc> {
        Seq::new(chain.len(), |i: int| self.desc(chain[i]))
    }

    pub open spec fn has(self, what: Wanted) -> bool {
        match what {
            Wanted::Feature(bit) => self.s.acked & bit != 0,
            Wanted::Offered(bit) => self.s.offered & bit != 0,
            Wanted::Protocol(bits) => self.s.proto & bits == bits,
            Wanted::Capacity => self.s.capacity_sectors != 0,
        }
    }

    pub open spec fn say(self, says: Says) -> Seq<char> {
        match says {
            SaysOf::Plain(m) => m,
            SaysOf::Status(before, after) => around(before, self.status as nat, after),
            SaysOf::Capacity(before, after) => around(
                before,
                self.s.capacity_sectors as nat,
                after,
            ),
        }
    }

    /// A new session, or none.
    pub open spec fn opened(self, r: (Talk, Got<Session>)) -> Bench {
        let b = self.hearing(r.0);
        match r.1 {
            Got::Value(s) => Bench {
                s,
                bufs: Seq::empty(),
                heads: Seq::empty(),
                reported: Seq::empty(),
                ..b
            },
            _ => b.stop(r.1),
        }
    }

    /// A request that left a status.
    pub open spec fn with_status(self, r: (Line, Got<u8>)) -> Bench {
        let b = self.on(r.0);
        match r.1 {
            Got::Value(status) => Bench { status, ..b },
            _ => b.stop(r.1),
        }
    }

    /// A request that left a status and bytes; `tag` stands before the text of a fault.
    pub open spec fn with_data(
        self,
        r: (Line, Got<(u8, Seq<u8>)>),
        tag: Option<Seq<char>>,
    ) -> Bench {
        let b = self.on(r.0);
        match r.1 {
            Got::Value((status, data)) => Bench { status, data, ..b },
            Got::Fault(m) => b.fail(
                match tag {
                    Some(t) => t + m,
                    None => m,
                },
            ),
            Got::Waiting => b.stop(r.1),
        }
    }

    pub open spec fn reading(self, tag: Option<Seq<char>>, at: Sector, len: usize) -> Bench {
        if model::room_for_three(self.s, len as int) {
            self.with_data(model::blk_read(self.line(), self.sector(at), len as int), tag)
        } else {
            self.broken()
        }
    }

    /// A completion, or the text.
    pub open spec fn awaited(self, text: Seq<char>) -> Bench {
        let (l, g) = model::wait_used(self.line(), TIMEOUT_MS);
        let b = self.on(l);
        match g {
            Got::Value(Some(used)) => Bench { used, ..b },
            Got::Value(None) => b.fail(text),
            _ => b.stop(g),
        }
    }

    /// `len` bytes at the start of buffer `i`.
    pub open spec fn loaded(self, i: int, len: usize) -> Bench {
        if self.inside(i, 0, len as int) {
            let (t, g) = self.io.load(self.buf(i) as usize, len);
            let b = self.hearing(t);
            match g {
                Got::Value(data) => Bench { data, ..b },
                _ => b.stop(g),
            }
        } else {
            self.broken()
        }
    }

    /// The status in buffer `i`.
    pub open spec fn status_in(self, i: int) -> Bench {
        if self.inside(i, 0, 1) {
            let (t, g) = mem::load_byte(self.io, self.buf(i));
            let b = self.hearing(t);
            match g {
                Got::Value(status) => Bench { status, ..b },
                _ => b.stop(g),
            }
        } else {
            self.broken()
        }
    }

    pub open spec fn matching(self, label: Seq<char>, want: Seq<u8>) -> Bench {
        match checks::parting(self.data, want) {
            None => self,
            Some(o) => self.fail(checks::differs(label, self.data, want, o)),
        }
    }

    /// What a call left, or its fault.
    pub open spec fn numbered(self, r: (Talk, Got<u64>)) -> Bench {
        let b = self.hearing(r.0);
        match r.1 {
            Got::Value(number) => Bench { number, ..b },
            _ => b.stop(r.1),
        }
    }

    /// A call without a value, or its fault.
    pub open spec fn called<T>(self, r: (Talk, Got<T>)) -> Bench {
        let b = self.hearing(r.0);
        match r.1 {
            Got::Value(_) => b,
            _ => b.stop(r.1),
        }
    }

    pub open spec fn written(self, stride: u64) -> Bench {
        let i = self.number as int;
        let b = self.status_in(i * 3 + 2);
        if b.stage is Live && b.status != 0 {
            b.fail(
                "write sector "@ + text::decimal(model::wrap64(WORK + i * stride) as nat)
                    + " status="@ + text::decimal(b.status as nat),
            )
        } else {
            b
        }
    }

    pub open spec fn fetched(self, stride: u64, seed: u64) -> Bench {
        let i = self.number as int;
        let b = self.loaded(i * 3 + 1, SECTOR);
        if b.stage is Live {
            b.matching(
                "read sector "@ + text::decimal(model::wrap64(WORK + i * stride) as nat),
                checks::pattern(((seed + i) % 256) as u8, SECTOR as nat),
            )
        } else {
            b
        }
    }

    pub open spec fn sane_block_size(self) -> Bench {
        let n = self.s.config_blk_size;
        if n < 512 {
            self.fail(around("config.blk_size="@, n as nat, " (< 512)"@))
        } else if !single_bit(n) {
            self.fail(around("config.blk_size="@, n as nat, " не степень двойки"@))
        } else {
            self
        }
    }
}

/// What a step does to a bench that nothing has stopped.
pub open spec fn taken(b: Bench, s: Step) -> Bench {
    match s {
        Step::Connect { path, mask_out, base } => b.opened(
            model::connect(b.io, path, false, mask_out, base),
        ),
        Step::Handshake { path, do_mem_table } => b.opened(
            model::handshake(b.io, path, do_mem_table, false, 0),
        ),
        Step::Close => b.hearing(b.io.tell(ActionOf::Close)),
        Step::Cooldown => if b.io.delay_ms > 0 {
            b.hearing(b.io.tell(ActionOf::Sleep { ms: b.io.delay_ms }))
        } else {
            b
        },
        Step::Need { sectors } => match checks::lacking(b.s.capacity_sectors, sectors) {
            None => b,
            Some(m) => b.skip(m),
        },
        Step::Beyond { sectors } => if b.s.capacity_sectors + sectors <= u64::MAX {
            b
        } else {
            b.broken()
        },
        Step::Require { what, text } => if b.has(what) {
            b
        } else {
            b.skip(text)
        },
        Step::Write { at, data } => if model::room_for_three(b.s, data.len() as int) {
            b.with_status(model::blk_write(b.line(), b.sector(at), data))
        } else {
            b.broken()
        },
        Step::Read { at, len } => b.reading(None, at, len),
        Step::ReadIn { tag, at, len } => b.reading(Some(tag), at, len),
        Step::Flush => if model::room_for_two(b.s) {
            b.with_status(model::blk_flush(b.line()))
        } else {
            b.broken()
        },
        Step::GetId => if model::room_for_three(b.s, 20) {
            b.with_data(model::blk_get_id(b.line()), None)
        } else {
            b.broken()
        },
        Step::Range { req_type, at, num_sectors, unmap } => if model::room_for_three(b.s, 16) {
            b.with_status(
                model::blk_zeroes_or_discard(b.line(), req_type, b.sector(at), num_sectors, unmap),
            )
        } else {
            b.broken()
        },
        Step::ExpectOk { label } => if b.status == VIRTIO_BLK_S_OK {
            b
        } else {
            b.fail(checks::not_ok(label, b.status))
        },
        Step::Same { label, want } => b.matching(label, want),
        Step::AllZero { label } => match checks::nonzero(b.data, 0) {
            None => b,
            Some(o) => b.fail(checks::not_zero(label, b.data, o)),
        },
        Step::Untouched { label, from } => match checks::touched(b.data, from as int) {
            None => b,
            Some(o) => b.fail(checks::was_touched(label, b.data, o)),
        },
        Step::CheckStatus { accept, says } => if accepts(accept, b.status) {
            b
        } else {
            b.fail(b.say(says))
        },
        Step::Length { want, before, after } => if b.data.len() == want {
            b
        } else {
            b.fail(around(before, b.data.len(), after))
        },
        Step::Alloc { len } => if model::has_room(b.s, len as int) {
            Bench {
                s: model::allocated(b.s, len as int),
                bufs: b.bufs.push(model::next_buffer(b.s) as usize),
                ..b
            }
        } else {
            b.broken()
        },
        Step::Header { buf, req_type, at } => if b.inside(buf as int, 0, 16) {
            b.hearing(
                b.io.tell_all(model::header_stores(b.buf(buf as int), req_type, b.sector(at))),
            )
        } else {
            b.broken()
        },
        Step::Put { buf, at, data } => if b.inside(buf as int, at as int, data.len() as int) {
            b.hearing(b.io.tell(mem::store(b.buf(buf as int) + at, data)))
        } else {
            b.broken()
        },
        Step::Zero { buf, len } => if b.inside(buf as int, 0, len as int) {
            b.hearing(
                b.io.tell(mem::store(b.buf(buf as int), mem::repeated(0, len as nat))),
            )
        } else {
            b.broken()
        },
        Step::RawDesc { idx, addr, len, flags, next } => b.hearing(
            b.io.tell_all(
                model::entry(
                    DESC_OFF + idx % QSZ * 16,
                    b.place(addr) as nat,
                    len,
                    flags,
                    next as nat,
                ),
            ),
        ),
        Step::TableEntry { buf, addr, len, flags, next } => if b.inside(buf as int, 0, 16) {
            b.hearing(
                b.io.tell_all(
                    model::entry(b.buf(buf as int), b.place(addr) as nat, len, flags, next as nat),
                ),
            )
        } else {
            b.broken()
        },
        Step::PushAvail { head } => b.on(model::push_avail(b.line(), head)),
        Step::Post { chain } => if b.postable(chain) {
            Bench {
                heads: b.heads.push(b.s.next_desc),
                ..b.on(model::post(b.line(), b.descs(chain)))
            }
        } else {
            b.broken()
        },
        Step::PostIndirect { chain, table } => if b.postable(chain) && b.inside(
            table as int,
            0,
            (chain.len() * 16) as int,
        ) {
            Bench {
                heads: b.heads.push(b.s.next_desc),
                ..b.on(model::post_indirect(b.line(), b.descs(chain), b.buf(table as int)))
            }
        } else {
            b.broken()
        },
        Step::Kick => b.hearing(b.io.tell(ActionOf::Kick)),
        Step::Submit { chain } => if b.postable(chain) {
            let (l, g) = model::submit(b.line(), b.descs(chain), TIMEOUT_MS);
            match g {
                Got::Value(used) => Bench { used, ..b.on(l) },
                _ => b.on(l).stop(g),
            }
        } else {
            b.broken()
        },
        Step::Await { text } => b.awaited(text),
        Step::IgnoreUsed { timeout_ms } => {
            let (l, g) = model::wait_used(b.line(), timeout_ms);
            match g {
                Got::Value(_) => b.on(l),
                _ => b.on(l).stop(g),
            }
        },
        Step::Silence { timeout_ms, before, after } => {
            let (l, g) = model::wait_used(b.line(), timeout_ms);
            match g {
                Got::Value(Some(u)) => b.on(l).fail(around(before, u.id as nat, after)),
                Got::Value(None) => b.on(l),
                _ => b.on(l).stop(g),
            }
        },
        Step::CheckHead { prefix } => if b.heads.len() == 0 {
            b.broken()
        } else if b.used.id == b.heads.last() {
            b
        } else {
            b.fail(prefix + model::wrong_id(b.used.id, b.heads.last()))
        },
        Step::Complete { done, of, before, after } => b.awaited(
            before + text::decimal(done) + "/"@ + text::decimal(of) + after,
        ),
        Step::Find => match place_of(b.heads, b.used.id, 0) {
            Some(i) => if b.reported.contains(b.used.id) {
                b.fail("повторный used.id="@ + text::decimal(b.used.id as nat))
            } else {
                Bench { number: i as u64, reported: b.reported.push(b.used.id), ..b }
            },
            None => b.fail("неизвестный used.id="@ + text::decimal(b.used.id as nat)),
        },
        Step::Written { stride } => b.written(stride),
        Step::Fetched { stride, seed } => b.fetched(stride, seed),
        Step::UsedLenOfRead { len } => if b.used.len == (len + 1) % 0x1_0000_0000 {
            b
        } else {
            b.fail(used_len_of_read(b.used.len, len as nat))
        },
        Step::UsedLenOfWrite => if b.used.len == 1 {
            b
        } else {
            b.fail(
                around(
                    "used.len="@,
                    b.used.len as nat,
                    " для записи (спека: только status = 1 байт)"@,
                ),
            )
        },
        Step::Status { buf } => b.status_in(buf as int),
        Step::Load { buf, len } => b.loaded(buf as int, len),
        Step::AvailFlags { flags } => b.hearing(
            b.io.tell(mem::store_le(AVAIL_OFF as int, flags as nat, 2)),
        ),
        Step::DrainCall => b.hearing(b.io.tell(ActionOf::DrainCall)),
        Step::Signal { timeout_ms, want, text } => {
            let (t, g) = b.io.await_call(timeout_ms);
            match g {
                Got::Value(came) => if came == want {
                    b.hearing(t)
                } else {
                    b.hearing(t).fail(text)
                },
                _ => b.hearing(t).stop(g),
            }
        },
        Step::Call { act, label } => b.called(b.io.call(act, label)),
        Step::Try { act } => b.called(b.io.attempt(act)),
        Step::TryRingAt { desc_off } => b.called(
            b.io.attempt(
                ActionOf::SetVringAddr {
                    config: model::ring_config(b.s.mem.base, desc_off as int),
                },
            ),
        ),
        Step::TrySetup => {
            let (l, g) = model::setup_vring(b.line(), 0);
            match g {
                Got::Waiting => b.on(l).stop(g),
                _ => b.on(l),
            }
        },
        Step::Base => {
            let (t, g) = model::vring_base(b.io);
            match g {
                Got::Value(n) => Bench { number: n as u64, ..b.hearing(t) },
                _ => b.hearing(t).stop(g),
            }
        },
        Step::Features { label } => b.numbered(b.io.query(ActionOf::GetFeatures, label)),
        Step::Config { size, label } => {
            let (t, g) = b.io.config_or(0, size, label);
            match g {
                Got::Value(data) => Bench { data, ..b.hearing(t) },
                _ => b.hearing(t).stop(g),
            }
        },
        Step::Keep => Bench { kept_data: b.data, kept_number: b.number, ..b },
        Step::CheckNumber { want, before, after } => if b.number == want {
            b
        } else {
            b.fail(around(before, b.number as nat, after))
        },
        Step::CheckStable => if b.kept_number == b.number {
            b
        } else {
            b.fail(
                "GET_FEATURES нестабилен: "@ + text::hexadecimal(b.kept_number as nat) + " != "@
                    + text::hexadecimal(b.number as nat),
            )
        },
        Step::CheckConfig => if b.data.len() < 8 || b.kept_data.len() < 8 {
            b.fail("config короче 8 байт"@)
        } else if b.data.take(8) != b.kept_data.take(8) {
            b.fail(config_differs(b.data, b.kept_data))
        } else {
            b
        },
        Step::BlkSizeSane => b.sane_block_size(),
    }
}

/// What a step does.
#[verifier::opaque]
pub open spec fn step(b: Bench, s: Step) -> Bench {
    if b.stage is Live {
        taken(b, s)
    } else {
        b
    }
}

/// What the first `k` of a list of steps do, one after the other.
pub open spec fn run_to(b: Bench, steps: Seq<Step>, k: nat) -> Bench
    decreases k,
{
    if k == 0 {
        b
    } else {
        step(run_to(b, steps, (k - 1) as nat), steps[k - 1])
    }
}

/// What a list of steps does, one after the other.
pub open spec fn run(b: Bench, steps: Seq<Step>) -> Bench {
    run_to(b, steps, steps.len())
}

proof fn lemma_run_to_same(b: Bench, a: Seq<Step>, c: Seq<Step>, k: nat)
    requires
        k <= a.len(),
        k <= c.len(),
        forall|i: int| 0 <= i < k ==> a[i] == c[i],
    ensures
        run_to(b, a, k) == run_to(b, c, k),
    decreases k,
{
    if k > 0 {
        lemma_run_to_same(b, a, c, (k - 1) as nat);
    }
}

proof fn lemma_run_to_after(b: Bench, first: Seq<Step>, second: Seq<Step>, k: nat)
    requires
        k <= second.len(),
    ensures
        run_to(b, first + second, first.len() + k) == run_to(run(b, first), second, k),
    decreases k,
{
    if k == 0 {
        lemma_run_to_same(b, first + second, first, first.len());
    } else {
        lemma_run_to_after(b, first, second, (k - 1) as nat);
        assert((first + second)[first.len() + k - 1] == second[k - 1]);
    }
}

/// Two lists, one after the other, do what the first does and then the second.
pub broadcast proof fn run_concat(b: Bench, first: Seq<Step>, second: Seq<Step>)
    ensures
        #[trigger] run(b, first + second) == run(run(b, first), second),
{
    lemma_run_to_after(b, first, second, second.len());
}

/// Once a scenario has stopped, its steps do nothing.
pub proof fn stopped_stays_stopped(b: Bench, steps: Seq<Step>)
    requires
        !(b.stage is Live),
    ensures
        run(b, steps) == b,
{
    lemma_stopped_to(b, steps, steps.len());
}

proof fn lemma_stopped_to(b: Bench, steps: Seq<Step>, k: nat)
    requires
        !(b.stage is Live),
    ensures
        run_to(b, steps, k) == b,
    decreases k,
{
    reveal(step);
    if k > 0 {
        lemma_stopped_to(b, steps, (k - 1) as nat);
    }
}

impl Seg {
    /// A segment that the device reads.
    #[verifier::allow_in_spec]
    pub fn readable(buf: usize, at: usize, len: usize) -> (seg: Seg)
        returns
            (Seg { buf, at, len, write: false }),
    {
        Seg { buf, at, len, write: false }
    }

    /// A segment that the device writes.
    #[verifier::allow_in_spec]
    pub fn writable(buf: usize, at: usize, len: usize) -> (seg: Seg)
        returns
            (Seg { buf, at, len, write: true }),
    {
        Seg { buf, at, len, write: true }
    }
}

} // verus!
