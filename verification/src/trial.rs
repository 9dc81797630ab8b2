//! The run of a scenario: one method for each kind of step.

use vstd::prelude::*;
use vstd::string::*;

use crate::bench;
use crate::bench::{Accept, Bench, Place, SaysOf, Sector, Seg, StageOf, Step, Wanted};
use crate::checks;
use crate::checks::{TestErr, TR, WORK};
use crate::dev::{
    Desc, Session, UsedElem, DATA_OFF, REGION_SIZE, SECTOR, TIMEOUT_MS, VIRTIO_BLK_S_IOERR,
    VIRTIO_BLK_S_OK, VIRTIO_BLK_S_UNSUPP,
};
use crate::dev;
use crate::link;
use crate::link::{Action, ActionOf, Halt, Link, Reply};
use crate::mem::SharedMem;
use crate::model;
use crate::ring;
use crate::text;

verus! {

pub type Phase = StageOf<String>;

impl View for StageOf<String> {
    type V = StageOf<Seq<char>>;

    open spec fn view(&self) -> StageOf<Seq<char>> {
        match *self {
            StageOf::Live => StageOf::Live,
            StageOf::Waiting => StageOf::Waiting,
            StageOf::Failed(m) => StageOf::Failed(m@),
            StageOf::Skipped(m) => StageOf::Skipped(m@),
        }
    }
}

/// A scenario that is being run.
pub struct Trial {
    pub link: Link,
    pub phase: Phase,
    pub s: Session,
    pub bufs: Vec<usize>,
    pub heads: Vec<u16>,
    pub reported: Vec<u32>,
    pub status: u8,
    pub data: Vec<u8>,
    pub number: u64,
    pub kept_data: Vec<u8>,
    pub kept_number: u64,
    pub used: UsedElem,
}

impl View for Trial {
    type V = Bench;

    open spec fn view(&self) -> Bench {
        Bench {
            io: self.link@,
            stage: self.phase@,
            s: self.s,
            bufs: self.bufs@,
            heads: self.heads@,
            reported: self.reported@,
            status: self.status,
            data: self.data@,
            number: self.number,
            kept_data: self.kept_data@,
            kept_number: self.kept_number,
            used: self.used,
        }
    }
}

impl Trial {
    pub open spec fn wf(self) -> bool {
        self.s.wf()
    }

    /// A scenario at its start, with the answers gathered so far.
    pub fn new(delay_ms: u64, replies: Vec<Reply>) -> (t: Trial)
        ensures
            t@ == bench::set_out(
                (link::Talk {
                    delay_ms,
                    replies: link::reps(replies@),
                    next: 0,
                    log: Seq::empty(),
                }),
            ),
            t.wf(),
    {
        let s = Session {
            mem: SharedMem { fd: 0, base: 0, size: REGION_SIZE },
            proto: 0,
            acked: 0,
            capacity_sectors: 0,
            blk_size: 512,
            config_blk_size: 512,
            offered: 0,
            next_desc: 0,
            avail_idx: 0,
            used_idx_seen: 0,
            next_data: DATA_OFF,
        };
        Trial {
            link: Link::new(delay_ms, replies),
            phase: StageOf::Live,
            s,
            bufs: Vec::new(),
            heads: Vec::new(),
            reported: Vec::new(),
            status: 0,
            data: Vec::new(),
            number: 0,
            kept_data: Vec::new(),
            kept_number: 0,
            used: UsedElem { id: 0, len: 0 },
        }
    }

    fn is_live(&self) -> (yes: bool)
        ensures
            yes == self@.stage is Live,
    {
        match self.phase {
            StageOf::Live => true,
            _ => false,
        }
    }

    fn fail(&mut self, m: String)
        ensures
            final(self)@ == old(self)@.fail(m@),
            final(self).s == old(self).s,
    {
        self.phase = StageOf::Failed(m);
    }

    fn skip(&mut self, m: String)
        ensures
            final(self)@ == old(self)@.skip(m@),
            final(self).s == old(self).s,
    {
        self.phase = StageOf::Skipped(m);
    }

    fn broken(&mut self)
        ensures
            final(self)@ == old(self)@.broken(),
            final(self).s == old(self).s,
    {
        self.fail(String::from_str("PANIC в харнессе"));
    }

    fn stop(&mut self, h: Halt)
        ensures
            final(self)@ == old(self)@.stop(link::got(Err::<(), Halt>(h))),
            final(self).s == old(self).s,
    {
        match h {
            Halt::Fault(m) => {
                self.fail(m);
            },
            Halt::Waiting => {
                self.phase = StageOf::Waiting;
            },
        }
    }

    fn sector(&self, at: Sector) -> (n: u64)
        ensures
            n == self@.sector(at),
    {
        match at {
            Sector::At(n) => n,
            Sector::Last => self.s.capacity_sectors.wrapping_sub(1),
            Sector::Past(k) => self.s.capacity_sectors.wrapping_add(k),
        }
    }

    fn settle(&mut self, s: Session)
        ensures
            final(self)@ == (Bench {
                s,
                bufs: Seq::empty(),
                heads: Seq::empty(),
                reported: Seq::empty(),
                ..old(self)@
            }),
            final(self).s == s,
    {
        self.s = s;
        self.bufs = Vec::new();
        self.heads = Vec::new();
        self.reported = Vec::new();
    }

    /// A new session with its ring enabled.
    pub fn connect(&mut self, sock: &str)
        requires
            old(self).wf(),
        ensures
            final(self)@ == bench::step(
                old(self)@,
                Step::Connect { path: sock@, mask_out: 0, base: 0 },
            ),
            final(self).wf(),
    {
        proof {
            reveal(bench::step);
        }
        if !self.is_live() {
            return;
        }
        match Session::connect(sock, &mut self.link) {
            Ok(s) => {
                self.settle(s);
            },
            Err(h) => {
                self.stop(h);
            },
        }
    }

    /// The same, with some offered features left out.
    pub fn connect_masking(&mut self, sock: &str, mask_out: u64)
        requires
            old(self).wf(),
        ensures
            final(self)@ == bench::step(
                old(self)@,
                Step::Connect { path: sock@, mask_out, base: 0 },
            ),
            final(self).wf(),
    {
        proof {
            reveal(bench::step);
        }
        if !self.is_live() {
            return;
        }
        match Session::connect_masking(sock, mask_out, &mut self.link) {
            Ok(s) => {
                self.settle(s);
            },
            Err(h) => {
                self.stop(h);
            },
        }
    }

    /// The same, with both ring indices at `base`.
    pub fn connect_at_base(&mut self, sock: &str, base: u16)
        requires
            old(self).wf(),
        ensures
            final(self)@ == bench::step(
                old(self)@,
                Step::Connect { path: sock@, mask_out: 0, base },
            ),
            final(self).wf(),
    {
        proof {
            reveal(bench::step);
        }
        if !self.is_live() {
            return;
        }
        match Session::connect_at_base(sock, base, &mut self.link) {
            Ok(s) => {
                self.settle(s);
            },
            Err(h) => {
                self.stop(h);
            },
        }
    }

    /// A new session without a ring.
    pub fn handshake(&mut self, sock: &str, do_mem_table: bool)
        requires
            old(self).wf(),
        ensures
            final(self)@ == bench::step(old(self)@, Step::Handshake { path: sock@, do_mem_table }),
            final(self).wf(),
    {
        proof {
            reveal(bench::step);
        }
        if !self.is_live() {
            return;
        }
        match Session::handshake(sock, do_mem_table, false, &mut self.link) {
            Ok(s) => {
                self.settle(s);
            },
            Err(h) => {
                self.stop(h);
            },
        }
    }

    /// Gives the session up.
    pub fn close(&mut self)
        requires
            old(self).wf(),
        ensures
            final(self)@ == bench::step(old(self)@, Step::Close),
            final(self).wf(),
    {
        proof {
            reveal(bench::step);
        }
        if !self.is_live() {
            return;
        }
        self.link.tell(ActionOf::Close);
    }

    /// Pauses before the next session, if that is asked for.
    pub fn cooldown(&mut self)
        requires
            old(self).wf(),
        ensures
            final(self)@ == bench::step(old(self)@, Step::Cooldown),
            final(self).wf(),
    {
        proof {
            reveal(bench::step);
        }
        if !self.is_live() {
            return;
        }
        if self.link.delay_ms > 0 {
            let ms: u64 = self.link.delay_ms;
            self.link.tell(ActionOf::Sleep { ms });
        }
    }

    /// Asks for `sectors` sectors from the work area on.
    pub fn need(&mut self, sectors: u64)
        requires
            old(self).wf(),
            WORK + sectors + 8 <= u64::MAX,
        ensures
            final(self)@ == bench::step(old(self)@, Step::Need { sectors }),
            final(self).wf(),
    {
        proof {
            reveal(bench::step);
        }
        if !self.is_live() {
            return;
        }
        match checks::need_cap(&self.s, sectors) {
            Ok(_) => {},
            Err(e) => {
                self.reject(e);
            },
        }
    }

    fn reject(&mut self, e: TestErr)
        ensures
            final(self)@ == (match e {
                TestErr::Fail(m) => old(self)@.fail(m@),
                TestErr::Skip(m) => old(self)@.skip(m@),
            }),
            final(self).s == old(self).s,
    {
        match e {
            TestErr::Fail(m) => {
                self.fail(m);
            },
            TestErr::Skip(m) => {
                self.skip(m);
            },
        }
    }

    fn judge(&mut self, r: TR)
        ensures
            final(self)@ == (match r {
                Ok(_) => old(self)@,
                Err(TestErr::Fail(m)) => old(self)@.fail(m@),
                Err(TestErr::Skip(m)) => old(self)@.skip(m@),
            }),
            final(self).s == old(self).s,
    {
        match r {
            Ok(_) => {},
            Err(e) => {
                self.reject(e);
            },
        }
    }

    fn has(&self, what: Wanted) -> (yes: bool)
        ensures
            yes == self@.has(what),
    {
        match what {
            Wanted::Feature(bit) => self.s.has_feature(bit),
            Wanted::Offered(bit) => self.s.offered_has(bit),
            Wanted::Protocol(bits) => self.s.has_proto(bits),
            Wanted::Capacity => self.s.capacity_sectors() != 0,
        }
    }

    /// Goes on only with this.
    pub fn require(&mut self, what: Wanted, text: &str)
        requires
            old(self).wf(),
        ensures
            final(self)@ == bench::step(old(self)@, Step::Require { what, text: text@ }),
            final(self).wf(),
    {
        proof {
            reveal(bench::step);
        }
        if !self.is_live() {
            return;
        }
        if !self.has(what) {
            self.skip(text.to_owned());
        }
    }

    /// A request that writes.
    pub fn write(&mut self, at: Sector, data: &[u8])
        requires
            old(self).wf(),
        ensures
            final(self)@ == bench::step(old(self)@, Step::Write { at, data: data@ }),
            final(self).wf(),
    {
        proof {
            reveal(bench::step);
        }
        if !self.is_live() {
            return;
        }
        let sector: u64 = self.sector(at);
        if !self.s.has_room_for_three(data.len()) {
            self.broken();
            return;
        }
        match self.s.blk_write(sector, data, &mut self.link) {
            Ok(status) => {
                self.status = status;
            },
            Err(h) => {
                self.stop(h);
            },
        }
    }

    /// A request that reads.
    pub fn read(&mut self, at: Sector, len: usize)
        requires
            old(self).wf(),
        ensures
            final(self)@ == bench::step(old(self)@, Step::Read { at, len }),
            final(self).wf(),
    {
        proof {
            reveal(bench::step);
        }
        if !self.is_live() {
            return;
        }
        if !self.s.has_room_for_three(len) {
            self.broken();
            return;
        }
        let sector: u64 = self.sector(at);
        match self.s.blk_read(sector, len, &mut self.link) {
            Ok(got) => {
                self.status = got.0;
                self.data = got.1;
            },
            Err(h) => {
                self.stop(h);
            },
        }
    }

    /// A request that reads, with a tag before the text of a fault.
    pub fn read_in(&mut self, tag: &str, at: Sector, len: usize)
        requires
            old(self).wf(),
        ensures
            final(self)@ == bench::step(old(self)@, Step::ReadIn { tag: tag@, at, len }),
            final(self).wf(),
    {
        proof {
            reveal(bench::step);
        }
        if !self.is_live() {
            return;
        }
        if !self.s.has_room_for_three(len) {
            self.broken();
            return;
        }
        let sector: u64 = self.sector(at);
        match self.s.blk_read(sector, len, &mut self.link) {
            Ok(got) => {
                self.status = got.0;
                self.data = got.1;
            },
            Err(Halt::Fault(fault)) => {
                let mut m = String::from_str(tag);
                m.append(fault.as_str());
                self.fail(m);
            },
            Err(Halt::Waiting) => {
                self.stop(Halt::Waiting);
            },
        }
    }

    /// A flush.
    pub fn flush(&mut self)
        requires
            old(self).wf(),
        ensures
            final(self)@ == bench::step(old(self)@, Step::Flush),
            final(self).wf(),
    {
        proof {
            reveal(bench::step);
        }
        if !self.is_live() {
            return;
        }
        if !self.s.has_room_for_two() {
            self.broken();
            return;
        }
        match self.s.blk_flush(&mut self.link) {
            Ok(status) => {
                self.status = status;
            },
            Err(h) => {
                self.stop(h);
            },
        }
    }

    /// A request for the identity of the device.
    pub fn get_id(&mut self)
        requires
            old(self).wf(),
        ensures
            final(self)@ == bench::step(old(self)@, Step::GetId),
            final(self).wf(),
    {
        proof {
            reveal(bench::step);
        }
        if !self.is_live() {
            return;
        }
        if !self.s.has_room_for_three(20) {
            self.broken();
            return;
        }
        match self.s.blk_get_id(&mut self.link) {
            Ok(got) => {
                self.status = got.0;
                self.data = got.1;
            },
            Err(h) => {
                self.stop(h);
            },
        }
    }

    /// A discard or a write-zeroes.
    pub fn range(&mut self, req_type: u32, at: Sector, num_sectors: u32, unmap: bool)
        requires
            old(self).wf(),
        ensures
            final(self)@ == bench::step(
                old(self)@,
                Step::Range { req_type, at, num_sectors, unmap },
            ),
            final(self).wf(),
    {
        proof {
            reveal(bench::step);
        }
        if !self.is_live() {
            return;
        }
        let sector: u64 = self.sector(at);
        if !self.s.has_room_for_three(16) {
            self.broken();
            return;
        }
        match self.s.blk_zeroes_or_discard(
            req_type,
            sector,
            num_sectors,
            unmap,
            &mut self.link,
        ) {
            Ok(status) => {
                self.status = status;
            },
            Err(h) => {
                self.stop(h);
            },
        }
    }

    /// The status has to be OK.
    pub fn expect_ok(&mut self, label: &str)
        requires
            old(self).wf(),
        ensures
            final(self)@ == bench::step(old(self)@, Step::ExpectOk { label: label@ }),
            final(self).wf(),
    {
        proof {
            reveal(bench::step);
        }
        if !self.is_live() {
            return;
        }
        self.judge(checks::expect_ok(label, self.status));
    }

    /// The bytes have to be these.
    pub fn same(&mut self, label: &str, want: &[u8])
        requires
            old(self).wf(),
        ensures
            final(self)@ == bench::step(old(self)@, Step::Same { label: label@, want: want@ }),
            final(self).wf(),
    {
        proof {
            reveal(bench::step);
        }
        if !self.is_live() {
            return;
        }
        self.judge(checks::same(label, self.data.as_slice(), want));
    }

    /// The bytes have to be zero.
    pub fn all_zero(&mut self, label: &str)
        requires
            old(self).wf(),
        ensures
            final(self)@ == bench::step(old(self)@, Step::AllZero { label: label@ }),
            final(self).wf(),
    {
        proof {
            reveal(bench::step);
        }
        if !self.is_live() {
            return;
        }
        self.judge(checks::all_zero(label, self.data.as_slice()));
    }

    /// The bytes from this place on have to be as they were preset.
    pub fn untouched(&mut self, label: &str, from: usize)
        requires
            old(self).wf(),
        ensures
            final(self)@ == bench::step(old(self)@, Step::Untouched { label: label@, from }),
            final(self).wf(),
    {
        proof {
            reveal(bench::step);
        }
        if !self.is_live() {
            return;
        }
        self.judge(checks::untouched(label, self.data.as_slice(), from));
    }

    /// So many sectors past the end of the device have to have a number.
    pub fn beyond(&mut self, sectors: u64)
        requires
            old(self).wf(),
        ensures
            final(self)@ == bench::step(old(self)@, Step::Beyond { sectors }),
            final(self).wf(),
    {
        proof {
            reveal(bench::step);
        }
        if !self.is_live() {
            return;
        }
        if sectors > u64::MAX - self.s.capacity_sectors {
            self.broken();
        }
    }

    fn accepts(accept: Accept, status: u8) -> (yes: bool)
        ensures
            yes == bench::accepts(accept, status),
    {
        match accept {
            Accept::Only(v) => status == v,
            Accept::NotOk => status != VIRTIO_BLK_S_OK,
            Accept::Known => status <= VIRTIO_BLK_S_UNSUPP,
            Accept::Served => status == VIRTIO_BLK_S_OK || status == VIRTIO_BLK_S_IOERR,
            Accept::Refusal => status == VIRTIO_BLK_S_UNSUPP || status == VIRTIO_BLK_S_IOERR,
        }
    }

    fn say(&self, says: SaysOf<&str>) -> (m: String)
        ensures
            m@ == self@.say(in_chars(says)),
    {
        match says {
            SaysOf::Plain(m) => m.to_owned(),
            SaysOf::Status(before, after) => around(before, self.status as u64, after),
            SaysOf::Capacity(before, after) => around(before, self.s.capacity_sectors, after),
        }
    }

    /// The status has to be one of those accepted.
    pub fn check_status(&mut self, accept: Accept, says: SaysOf<&str>)
        requires
            old(self).wf(),
        ensures
            final(self)@ == bench::step(
                old(self)@,
                Step::CheckStatus { accept, says: in_chars(says) },
            ),
            final(self).wf(),
    {
        proof {
            reveal(bench::step);
        }
        if !self.is_live() {
            return;
        }
        if !Trial::accepts(accept, self.status) {
            let m = self.say(says);
            self.fail(m);
        }
    }

    /// There have to be so many bytes.
    pub fn length(&mut self, want: usize, before: &str, after: &str)
        requires
            old(self).wf(),
        ensures
            final(self)@ == bench::step(
                old(self)@,
                Step::Length { want: want as nat, before: before@, after: after@ },
            ),
            final(self).wf(),
    {
        proof {
            reveal(bench::step);
        }
        if !self.is_live() {
            return;
        }
        let n: usize = self.data.len();
        if n != want {
            self.fail(around(before, n as u64, after));
        }
    }

    /// One more buffer.
    pub fn buffer(&mut self, len: usize)
        requires
            old(self).wf(),
        ensures
            final(self)@ == bench::step(old(self)@, Step::Alloc { len }),
            final(self).wf(),
    {
        proof {
            reveal(bench::step);
        }
        if !self.is_live() {
            return;
        }
        if !self.s.has_room(len) {
            self.broken();
            return;
        }
        let off: usize = self.s.alloc_buf(len);
        self.bufs.push(off);
    }

    fn buf(&self, i: usize) -> (off: usize)
        ensures
            off == self@.buf(i as int),
    {
        if i < self.bufs.len() {
            self.bufs[i]
        } else {
            DATA_OFF
        }
    }

    /// One of the three buffers of request `i`.
    fn third(&self, i: u64, k: usize) -> (off: usize)
        requires
            k < 3,
        ensures
            off == self@.buf(i * 3 + k),
    {
        if i < (self.bufs.len() / 3 + 1) as u64 && i as usize <= self.bufs.len() / 3 {
            let at: usize = i as usize;
            if at < self.bufs.len() / 3 {
                self.buf(at * 3 + k)
            } else if k < self.bufs.len() - at * 3 {
                self.buf(at * 3 + k)
            } else {
                DATA_OFF
            }
        } else {
            DATA_OFF
        }
    }

    fn place(&self, p: Place) -> (addr: u64)
        ensures
            addr == self@.place(p),
    {
        match p {
            Place::Buf(i) => self.buf(i) as u64,
            Place::Abs(a) => a,
        }
    }

    fn inside(off: usize, at: usize, len: usize) -> (yes: bool)
        ensures
            yes == (off + at + len <= REGION_SIZE),
    {
        off <= REGION_SIZE && at <= REGION_SIZE - off && len <= REGION_SIZE - off - at
    }

    /// A request header at the start of a buffer.
    pub fn header(&mut self, buf: usize, req_type: u32, at: Sector)
        requires
            old(self).wf(),
        ensures
            final(self)@ == bench::step(old(self)@, Step::Header { buf, req_type, at }),
            final(self).wf(),
    {
        proof {
            reveal(bench::step);
        }
        if !self.is_live() {
            return;
        }
        let off: usize = self.buf(buf);
        if !Trial::inside(off, 0, 16) {
            self.broken();
            return;
        }
        let sector: u64 = self.sector(at);
        self.s.wr_hdr(off, req_type, sector, &mut self.link);
    }

    /// Bytes in a buffer.
    pub fn put(&mut self, buf: usize, at: usize, data: &[u8])
        requires
            old(self).wf(),
        ensures
            final(self)@ == bench::step(old(self)@, Step::Put { buf, at, data: data@ }),
            final(self).wf(),
    {
        proof {
            reveal(bench::step);
        }
        if !self.is_live() {
            return;
        }
        let off: usize = self.buf(buf);
        if !Trial::inside(off, at, data.len()) {
            self.broken();
            return;
        }
        self.s.mem.wr(off + at, data, &mut self.link);
    }

    /// Zeroes at the start of a buffer.
    pub fn zero(&mut self, buf: usize, len: usize)
        requires
            old(self).wf(),
        ensures
            final(self)@ == bench::step(old(self)@, Step::Zero { buf, len }),
            final(self).wf(),
    {
        proof {
            reveal(bench::step);
        }
        if !self.is_live() {
            return;
        }
        let off: usize = self.buf(buf);
        if !Trial::inside(off, 0, len) {
            self.broken();
            return;
        }
        self.s.mem.zero(off, len, &mut self.link);
    }

    /// A descriptor written by hand into the table of the ring.
    pub fn raw_desc(&mut self, idx: u16, addr: Place, len: u32, flags: u16, next: u16)
        requires
            old(self).wf(),
        ensures
            final(self)@ == bench::step(old(self)@, Step::RawDesc { idx, addr, len, flags, next }),
            final(self).wf(),
    {
        proof {
            reveal(bench::step);
        }
        if !self.is_live() {
            return;
        }
        let addr: u64 = self.place(addr);
        self.s.write_raw_desc(idx, addr, len, flags, next, &mut self.link);
    }

    /// A descriptor written by hand at the start of a buffer.
    pub fn table_entry(&mut self, buf: usize, addr: Place, len: u32, flags: u16, next: u16)
        requires
            old(self).wf(),
        ensures
            final(self)@ == bench::step(
                old(self)@,
                Step::TableEntry { buf, addr, len, flags, next },
            ),
            final(self).wf(),
    {
        proof {
            reveal(bench::step);
        }
        if !self.is_live() {
            return;
        }
        let off: usize = self.buf(buf);
        if !Trial::inside(off, 0, 16) {
            self.broken();
            return;
        }
        let addr: u64 = self.place(addr);
        self.s.write_table_entry(off, addr, len, flags, next, &mut self.link);
    }

    /// Makes any head at all available.
    pub fn push_avail(&mut self, head: u16)
        requires
            old(self).wf(),
        ensures
            final(self)@ == bench::step(old(self)@, Step::PushAvail { head }),
            final(self).wf(),
    {
        proof {
            reveal(bench::step);
        }
        if !self.is_live() {
            return;
        }
        self.s.push_avail(head, &mut self.link);
    }

    /// The chain as descriptors, unless a segment starts outside the region.
    fn descs(&self, chain: &[Seg]) -> (r: Option<Vec<Desc>>)
        ensures
            match r {
                Some(v) => self@.postable(chain@) && v@ == self@.descs(chain@),
                None => !self@.postable(chain@),
            },
    {
        if chain.len() == 0 {
            return None;
        }
        let mut v: Vec<Desc> = Vec::new();
        let mut i: usize = 0;
        while i < chain.len()
            invariant
                i <= chain@.len(),
                v@ == self@.descs(chain@.take(i as int)),
                forall|j: int|
                    0 <= j < i ==> self@.inside(
                        #[trigger] chain@[j].buf as int,
                        chain@[j].at as int,
                        0,
                    ),
            decreases chain.len() - i,
        {
            let seg: Seg = chain[i];
            let off: usize = self.buf(seg.buf);
            if !Trial::inside(off, seg.at, 0) {
                assert(!self@.inside(chain@[i as int].buf as int, chain@[i as int].at as int, 0));
                return None;
            }
            if seg.write {
                v.push(dev::w(off + seg.at, seg.len));
            } else {
                v.push(dev::r(off + seg.at, seg.len));
            }
            i = i + 1;
            assert(v@ =~= self@.descs(chain@.take(i as int)));
        }
        assert(chain@.take(i as int) =~= chain@);
        Some(v)
    }

    /// Makes a chain available.
    pub fn post(&mut self, chain: &[Seg])
        requires
            old(self).wf(),
        ensures
            final(self)@ == bench::step(old(self)@, Step::Post { chain: chain@ }),
            final(self).wf(),
    {
        proof {
            reveal(bench::step);
        }
        if !self.is_live() {
            return;
        }
        match self.descs(chain) {
            Some(descs) => {
                let head: u16 = self.s.post(descs.as_slice(), &mut self.link);
                self.heads.push(head);
            },
            None => {
                self.broken();
            },
        }
    }

    /// Makes a chain available through a table in a buffer.
    pub fn post_indirect(&mut self, chain: &[Seg], table: usize)
        requires
            old(self).wf(),
        ensures
            final(self)@ == bench::step(old(self)@, Step::PostIndirect { chain: chain@, table }),
            final(self).wf(),
    {
        proof {
            reveal(bench::step);
        }
        if !self.is_live() {
            return;
        }
        let off: usize = self.buf(table);
        match self.descs(chain) {
            Some(descs) => {
                if chain.len() > REGION_SIZE / 16 || !Trial::inside(off, 0, chain.len() * 16) {
                    self.broken();
                    return;
                }
                let head: u16 = self.s.post_indirect(descs.as_slice(), off, &mut self.link);
                self.heads.push(head);
            },
            None => {
                self.broken();
            },
        }
    }

    /// Wakes the device.
    pub fn kick(&mut self)
        requires
            old(self).wf(),
        ensures
            final(self)@ == bench::step(old(self)@, Step::Kick),
            final(self).wf(),
    {
        proof {
            reveal(bench::step);
        }
        if !self.is_live() {
            return;
        }
        self.s.kick(&mut self.link);
    }

    /// Makes a chain available and waits for its completion.
    pub fn submit(&mut self, chain: &[Seg])
        requires
            old(self).wf(),
        ensures
            final(self)@ == bench::step(old(self)@, Step::Submit { chain: chain@ }),
            final(self).wf(),
    {
        proof {
            reveal(bench::step);
        }
        if !self.is_live() {
            return;
        }
        match self.descs(chain) {
            Some(descs) => {
                match self.s.submit(descs.as_slice(), TIMEOUT_MS, &mut self.link) {
                    Ok(used) => {
                        self.used = used;
                    },
                    Err(h) => {
                        self.stop(h);
                    },
                }
            },
            None => {
                self.broken();
            },
        }
    }

    fn awaited(&mut self, text: &str)
        requires
            old(self).wf(),
        ensures
            final(self)@ == old(self)@.awaited(text@),
            final(self).wf(),
    {
        match self.s.wait_used(TIMEOUT_MS, &mut self.link) {
            Ok(Some(used)) => {
                self.used = used;
            },
            Ok(None) => {
                self.fail(text.to_owned());
            },
            Err(h) => {
                self.stop(h);
            },
        }
    }

    /// A completion has to come in time.
    pub fn wait(&mut self, text: &str)
        requires
            old(self).wf(),
        ensures
            final(self)@ == bench::step(old(self)@, Step::Await { text: text@ }),
            final(self).wf(),
    {
        proof {
            reveal(bench::step);
        }
        if !self.is_live() {
            return;
        }
        self.awaited(text);
    }

    /// Drops a completion that comes in time.
    pub fn ignore_used(&mut self, timeout_ms: u64)
        requires
            old(self).wf(),
        ensures
            final(self)@ == bench::step(old(self)@, Step::IgnoreUsed { timeout_ms }),
            final(self).wf(),
    {
        proof {
            reveal(bench::step);
        }
        if !self.is_live() {
            return;
        }
        match self.s.wait_used(timeout_ms, &mut self.link) {
            Ok(_) => {},
            Err(h) => {
                self.stop(h);
            },
        }
    }

    /// No completion may come in time.
    pub fn silence(&mut self, timeout_ms: u64, before: &str, after: &str)
        requires
            old(self).wf(),
        ensures
            final(self)@ == bench::step(
                old(self)@,
                Step::Silence { timeout_ms, before: before@, after: after@ },
            ),
            final(self).wf(),
    {
        proof {
            reveal(bench::step);
        }
        if !self.is_live() {
            return;
        }
        match self.s.wait_used(timeout_ms, &mut self.link) {
            Ok(Some(u)) => {
                self.fail(around(before, u.id as u64, after));
            },
            Ok(None) => {},
            Err(h) => {
                self.stop(h);
            },
        }
    }

    /// The completion has to be that of the chain posted last.
    pub fn check_head(&mut self, prefix: &str)
        requires
            old(self).wf(),
        ensures
            final(self)@ == bench::step(old(self)@, Step::CheckHead { prefix: prefix@ }),
            final(self).wf(),
    {
        proof {
            reveal(bench::step);
        }
        if !self.is_live() {
            return;
        }
        let n: usize = self.heads.len();
        if n == 0 {
            self.broken();
            return;
        }
        let head: u16 = self.heads[n - 1];
        if self.used.id != head as u32 {
            let mut m = String::from_str(prefix);
            m.append(ring::wrong_id(self.used.id, head).as_str());
            self.fail(m);
        }
    }

    /// One more completion of several has to come in time.
    pub fn complete(&mut self, done: u64, of: u64, before: &str, after: &str)
        requires
            old(self).wf(),
        ensures
            final(self)@ == bench::step(old(self)@, Step::Complete {
                    done: done as nat,
                    of: of as nat,
                    before: before@,
                    after: after@,
                }),
            final(self).wf(),
    {
        proof {
            reveal(bench::step);
        }
        if !self.is_live() {
            return;
        }
        let mut m = String::from_str(before);
        m.append(text::dec(done).as_str());
        m.append("/");
        m.append(text::dec(of).as_str());
        m.append(after);
        self.awaited(m.as_str());
    }

    fn is_reported(&self, id: u32) -> (yes: bool)
        ensures
            yes == self.reported@.contains(id),
    {
        let mut i: usize = 0;
        while i < self.reported.len()
            invariant
                i <= self.reported@.len(),
                forall|j: int| 0 <= j < i ==> self.reported@[j] != id,
            decreases self.reported.len() - i,
        {
            if self.reported[i] == id {
                return true;
            }
            i = i + 1;
        }
        false
    }

    /// The completion has to be that of a posted chain, and the first of it.
    pub fn find(&mut self)
        requires
            old(self).wf(),
        ensures
            final(self)@ == bench::step(old(self)@, Step::Find),
            final(self).wf(),
    {
        proof {
            reveal(bench::step);
        }
        if !self.is_live() {
            return;
        }
        let mut i: usize = 0;
        while i < self.heads.len()
            invariant
                i <= self.heads@.len(),
                *self == *old(self),
                self.wf(),
                bench::place_of(self.heads@, self.used.id, 0) == bench::place_of(
                    self.heads@,
                    self.used.id,
                    i as int,
                ),
                self.phase@ is Live,
            decreases self.heads.len() - i,
        {
            if self.heads[i] as u32 == self.used.id {
                proof {
                    reveal(bench::step);
                }
                if self.is_reported(self.used.id) {
                    let mut m = String::from_str("повторный used.id=");
                    m.append(text::dec(self.used.id as u64).as_str());
                    self.fail(m);
                } else {
                    self.number = i as u64;
                    self.reported.push(self.used.id);
                }
                return;
            }
            i = i + 1;
        }
        let mut m = String::from_str("неизвестный used.id=");
        m.append(text::dec(self.used.id as u64).as_str());
        self.fail(m);
    }

    /// The request found has to be a write that went well.
    pub fn written(&mut self, stride: u64)
        requires
            old(self).wf(),
        ensures
            final(self)@ == bench::step(old(self)@, Step::Written { stride }),
            final(self).wf(),
    {
        proof {
            reveal(bench::step);
        }
        if !self.is_live() {
            return;
        }
        let off: usize = self.third(self.number, 2);
        if !Trial::inside(off, 0, 1) {
            self.broken();
            return;
        }
        match self.s.status_at(off, &mut self.link) {
            Ok(status) => {
                self.status = status;
                if status != 0 {
                    let sector: u64 = planned(self.number, stride);
                    let mut m = String::from_str("write sector ");
                    m.append(text::dec(sector).as_str());
                    m.append(" status=");
                    m.append(text::dec(status as u64).as_str());
                    self.fail(m);
                }
            },
            Err(h) => {
                self.stop(h);
            },
        }
    }

    /// The request found has to be a read that brought its own sector.
    pub fn fetched(&mut self, stride: u64, seed: u64)
        requires
            old(self).wf(),
        ensures
            final(self)@ == bench::step(old(self)@, Step::Fetched { stride, seed }),
            final(self).wf(),
    {
        proof {
            reveal(bench::step);
        }
        if !self.is_live() {
            return;
        }
        let off: usize = self.third(self.number, 1);
        if !Trial::inside(off, 0, SECTOR) {
            self.broken();
            return;
        }
        match self.s.mem.rd(off, SECTOR, &mut self.link) {
            Ok(data) => {
                let sector: u64 = planned(self.number, stride);
                let mut label = String::from_str("read sector ");
                label.append(text::dec(sector).as_str());
                let first: u8 = seed_of(seed, self.number);
                let want: Vec<u8> = checks::pat(first, SECTOR);
                self.data = data;
                self.judge(checks::same(label.as_str(), self.data.as_slice(), want.as_slice()));
            },
            Err(h) => {
                self.stop(h);
            },
        }
    }

    /// The completion of a read counts the bytes and the status.
    pub fn used_len_of_read(&mut self, len: usize)
        requires
            old(self).wf(),
            len < usize::MAX,
        ensures
            final(self)@ == bench::step(old(self)@, Step::UsedLenOfRead { len }),
            final(self).wf(),
    {
        proof {
            reveal(bench::step);
        }
        if !self.is_live() {
            return;
        }
        let want: u64 = (len as u64 + 1) % 0x1_0000_0000;
        if self.used.len as u64 != want {
            let mut m = String::from_str("used.len=");
            m.append(text::dec(self.used.len as u64).as_str());
            m.append(" (спека: данные+status=");
            m.append(text::dec(want).as_str());
            m.append("). Значение ");
            m.append(text::dec(len as u64).as_str());
            m.append(" (только данные) или 0 — известное нарушение");
            self.fail(m);
        }
    }

    /// The completion of a write counts the status alone.
    pub fn used_len_of_write(&mut self)
        requires
            old(self).wf(),
        ensures
            final(self)@ == bench::step(old(self)@, Step::UsedLenOfWrite),
            final(self).wf(),
    {
        proof {
            reveal(bench::step);
        }
        if !self.is_live() {
            return;
        }
        if self.used.len != 1 {
            self.fail(
                around(
                    "used.len=",
                    self.used.len as u64,
                    " для записи (спека: только status = 1 байт)",
                ),
            );
        }
    }

    /// The status in a buffer.
    pub fn take_status(&mut self, buf: usize)
        requires
            old(self).wf(),
        ensures
            final(self)@ == bench::step(old(self)@, Step::Status { buf }),
            final(self).wf(),
    {
        proof {
            reveal(bench::step);
        }
        if !self.is_live() {
            return;
        }
        let off: usize = self.buf(buf);
        if !Trial::inside(off, 0, 1) {
            self.broken();
            return;
        }
        match self.s.status_at(off, &mut self.link) {
            Ok(status) => {
                self.status = status;
            },
            Err(h) => {
                self.stop(h);
            },
        }
    }

    /// The bytes at the start of a buffer.
    pub fn take_data(&mut self, buf: usize, len: usize)
        requires
            old(self).wf(),
        ensures
            final(self)@ == bench::step(old(self)@, Step::Load { buf, len }),
            final(self).wf(),
    {
        proof {
            reveal(bench::step);
        }
        if !self.is_live() {
            return;
        }
        let off: usize = self.buf(buf);
        if !Trial::inside(off, 0, len) {
            self.broken();
            return;
        }
        match self.s.mem.rd(off, len, &mut self.link) {
            Ok(data) => {
                self.data = data;
            },
            Err(h) => {
                self.stop(h);
            },
        }
    }

    /// Sets the flags of the available ring.
    pub fn avail_flags(&mut self, flags: u16)
        requires
            old(self).wf(),
        ensures
            final(self)@ == bench::step(old(self)@, Step::AvailFlags { flags }),
            final(self).wf(),
    {
        proof {
            reveal(bench::step);
        }
        if !self.is_live() {
            return;
        }
        self.s.set_avail_flags(flags, &mut self.link);
    }

    /// Forgets a signal that has come in.
    pub fn drain_call(&mut self)
        requires
            old(self).wf(),
        ensures
            final(self)@ == bench::step(old(self)@, Step::DrainCall),
            final(self).wf(),
    {
        proof {
            reveal(bench::step);
        }
        if !self.is_live() {
            return;
        }
        self.s.drain_call(&mut self.link);
    }

    /// The device has to signal in time, or not, as wanted.
    pub fn signal(&mut self, timeout_ms: u64, want: bool, text: &str)
        requires
            old(self).wf(),
        ensures
            final(self)@ == bench::step(old(self)@, Step::Signal { timeout_ms, want, text: text@ }),
            final(self).wf(),
    {
        proof {
            reveal(bench::step);
        }
        if !self.is_live() {
            return;
        }
        match self.s.wait_call(timeout_ms, &mut self.link) {
            Ok(came) => {
                if came != want {
                    self.fail(text.to_owned());
                }
            },
            Err(h) => {
                self.stop(h);
            },
        }
    }

    /// A protocol message whose refusal is a fault.
    pub fn call(&mut self, act: Action, label: &str)
        requires
            old(self).wf(),
        ensures
            final(self)@ == bench::step(old(self)@, Step::Call { act: act@, label: label@ }),
            final(self).wf(),
    {
        proof {
            reveal(bench::step);
        }
        if !self.is_live() {
            return;
        }
        match self.link.call(act, label) {
            Ok(_) => {},
            Err(h) => {
                self.stop(h);
            },
        }
    }

    /// A protocol message whose refusal is of no consequence.
    pub fn attempt(&mut self, act: Action)
        requires
            old(self).wf(),
        ensures
            final(self)@ == bench::step(old(self)@, Step::Try { act: act@ }),
            final(self).wf(),
    {
        proof {
            reveal(bench::step);
        }
        if !self.is_live() {
            return;
        }
        match self.link.attempt(act) {
            Ok(_) => {},
            Err(h) => {
                self.stop(h);
            },
        }
    }

    /// The addresses of the ring with the descriptor table at `desc_off`; a refusal is of
    /// no consequence.
    pub fn try_ring_at(&mut self, desc_off: usize)
        requires
            old(self).wf(),
        ensures
            final(self)@ == bench::step(old(self)@, Step::TryRingAt { desc_off }),
            final(self).wf(),
    {
        proof {
            reveal(bench::step);
        }
        if !self.is_live() {
            return;
        }
        let config = self.s.ring_config(desc_off);
        match self.link.attempt(ActionOf::SetVringAddr { config }) {
            Ok(_) => {},
            Err(h) => {
                self.stop(h);
            },
        }
    }

    /// The set-up of the ring; a refusal is of no consequence.
    pub fn try_setup(&mut self)
        requires
            old(self).wf(),
        ensures
            final(self)@ == bench::step(old(self)@, Step::TrySetup),
            final(self).wf(),
    {
        proof {
            reveal(bench::step);
        }
        if !self.is_live() {
            return;
        }
        match self.s.setup_vring(&mut self.link) {
            Ok(_) => {},
            Err(Halt::Fault(_)) => {},
            Err(Halt::Waiting) => {
                self.stop(Halt::Waiting);
            },
        }
    }

    /// The position of the device in the available ring.
    pub fn base(&mut self)
        requires
            old(self).wf(),
        ensures
            final(self)@ == bench::step(old(self)@, Step::Base),
            final(self).wf(),
    {
        proof {
            reveal(bench::step);
        }
        if !self.is_live() {
            return;
        }
        match self.s.get_vring_base(&mut self.link) {
            Ok(number) => {
                self.number = number as u64;
            },
            Err(h) => {
                self.stop(h);
            },
        }
    }

    /// The offered features.
    pub fn features(&mut self, label: &str)
        requires
            old(self).wf(),
        ensures
            final(self)@ == bench::step(old(self)@, Step::Features { label: label@ }),
            final(self).wf(),
    {
        proof {
            reveal(bench::step);
        }
        if !self.is_live() {
            return;
        }
        match self.link.query(ActionOf::GetFeatures, label) {
            Ok(number) => {
                self.number = number;
            },
            Err(h) => {
                self.stop(h);
            },
        }
    }

    /// The first bytes of the configuration.
    pub fn config(&mut self, size: u32, label: &str)
        requires
            old(self).wf(),
        ensures
            final(self)@ == bench::step(old(self)@, Step::Config { size, label: label@ }),
            final(self).wf(),
    {
        proof {
            reveal(bench::step);
        }
        if !self.is_live() {
            return;
        }
        match self.link.config_or(0, size, label) {
            Ok(data) => {
                self.data = data;
            },
            Err(h) => {
                self.stop(h);
            },
        }
    }

    /// Sets bytes and number aside.
    pub fn keep(&mut self)
        requires
            old(self).wf(),
        ensures
            final(self)@ == bench::step(old(self)@, Step::Keep),
            final(self).wf(),
    {
        proof {
            reveal(bench::step);
        }
        if !self.is_live() {
            return;
        }
        self.kept_data = link::copy_of(self.data.as_slice());
        self.kept_number = self.number;
    }

    /// The number has to be this.
    pub fn check_number(&mut self, want: u64, before: &str, after: &str)
        requires
            old(self).wf(),
        ensures
            final(self)@ == bench::step(
                old(self)@,
                Step::CheckNumber { want, before: before@, after: after@ },
            ),
            final(self).wf(),
    {
        proof {
            reveal(bench::step);
        }
        if !self.is_live() {
            return;
        }
        if self.number != want {
            self.fail(around(before, self.number, after));
        }
    }

    /// The number has to be the one set aside.
    pub fn check_stable(&mut self)
        requires
            old(self).wf(),
        ensures
            final(self)@ == bench::step(old(self)@, Step::CheckStable),
            final(self).wf(),
    {
        proof {
            reveal(bench::step);
        }
        if !self.is_live() {
            return;
        }
        if self.kept_number != self.number {
            let mut m = String::from_str("GET_FEATURES нестабилен: ");
            m.append(text::hex(self.kept_number).as_str());
            m.append(" != ");
            m.append(text::hex(self.number).as_str());
            self.fail(m);
        }
    }

    /// The first eight bytes have to be those of the bytes set aside.
    pub fn check_config(&mut self)
        requires
            old(self).wf(),
        ensures
            final(self)@ == bench::step(old(self)@, Step::CheckConfig),
            final(self).wf(),
    {
        proof {
            reveal(bench::step);
        }
        if !self.is_live() {
            return;
        }
        if self.data.len() < 8 || self.kept_data.len() < 8 {
            self.fail(String::from_str("config короче 8 байт"));
            return;
        }
        if !same_start(&self.data, &self.kept_data, 8) {
            let mut m = String::from_str(
                "частичный GET_CONFIG(0,8) != первые 8 байт GET_CONFIG(0,60): [",
            );
            m.append(text::list_of_bytes(&self.data, 8).as_str());
            m.append("] vs [");
            m.append(text::list_of_bytes(&self.kept_data, 8).as_str());
            m.append("]");
            self.fail(m);
        }
    }

    /// The block size has to be a power of two, and a sector at least.
    pub fn check_blk_size(&mut self)
        requires
            old(self).wf(),
        ensures
            final(self)@ == bench::step(old(self)@, Step::BlkSizeSane),
            final(self).wf(),
    {
        proof {
            reveal(bench::step);
        }
        if !self.is_live() {
            return;
        }
        let n: u32 = self.s.config_blk_size();
        if n < 512 {
            self.fail(around("config.blk_size=", n as u64, " (< 512)"));
        } else if n & (n - 1) != 0 {
            self.fail(around("config.blk_size=", n as u64, " не степень двойки"));
        }
    }

    /// What the scenario came to; `None` while it waits for an answer.
    pub fn verdict(&self) -> (v: Option<TR>)
        ensures
            match self@.stage {
                StageOf::Live => v matches Some(Ok(_)),
                StageOf::Waiting => v is None,
                StageOf::Failed(m) => v matches Some(Err(TestErr::Fail(x))) && x@ == m,
                StageOf::Skipped(m) => v matches Some(Err(TestErr::Skip(x))) && x@ == m,
            },
    {
        match &self.phase {
            StageOf::Live => Some(Ok(())),
            StageOf::Waiting => None,
            StageOf::Failed(m) => Some(Err(TestErr::Fail(m.clone()))),
            StageOf::Skipped(m) => Some(Err(TestErr::Skip(m.clone()))),
        }
    }
}

/// Texts by their characters.
pub open spec fn in_chars(says: SaysOf<&str>) -> SaysOf<Seq<char>> {
    match says {
        SaysOf::Plain(m) => SaysOf::Plain(m@),
        SaysOf::Status(before, after) => SaysOf::Status(before@, after@),
        SaysOf::Capacity(before, after) => SaysOf::Capacity(before@, after@),
    }
}

/// The sector of request `i` where the requests lie `stride` sectors apart.
fn planned(i: u64, stride: u64) -> (sector: u64)
    ensures
        sector == model::wrap64(WORK + i * stride),
{
    assert(i * stride <= 0xffff_ffff_ffff_ffff * 0xffff_ffff_ffff_ffff) by (nonlinear_arith)
        requires
            i <= 0xffff_ffff_ffff_ffff,
            stride <= 0xffff_ffff_ffff_ffff,
    ;
    let x: u128 = i as u128 * stride as u128;
    ((WORK as u128 + x) % 0x1_0000_0000_0000_0000) as u64
}

/// The seed of the pattern of request `i`.
fn seed_of(seed: u64, i: u64) -> (b: u8)
    ensures
        b == (seed + i) % 256,
{
    ((seed % 256 + i % 256) % 256) as u8
}

fn around(before: &str, n: u64, after: &str) -> (m: String)
    ensures
        m@ == bench::around(before@, n as nat, after@),
{
    let mut m = String::from_str(before);
    m.append(text::dec(n).as_str());
    m.append(after);
    m
}

/// Tells whether two runs of bytes have the same first `n`.
fn same_start(a: &Vec<u8>, b: &Vec<u8>, n: usize) -> (yes: bool)
    requires
        n <= a.len(),
        n <= b.len(),
    ensures
        yes == (a@.take(n as int) == b@.take(n as int)),
{
    let mut i: usize = 0;
    while i < n
        invariant
            i <= n <= a.len(),
            n <= b.len(),
            forall|j: int| 0 <= j < i ==> a@[j] == b@[j],
        decreases n - i,
    {
        if a[i] != b[i] {
            assert(a@.take(n as int)[i as int] != b@.take(n as int)[i as int]);
            return false;
        }
        i = i + 1;
    }
    assert(a@.take(n as int) =~= b@.take(n as int));
    true
}

} // verus!
