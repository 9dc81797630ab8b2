//! Scenarios against a device in memory, good and bad.

use vhost_blk_conformance::checks::{pat, TestErr, TR};
use vhost_blk_conformance::link::{Action, ActionOf, Reply, ReplyOf};
use vhost_blk_conformance::registry::{all, run_case, Case};
use vhost_blk_conformance::trial::Trial;
use vhost_blk_conformance::turns::needs_answer;

const F_PROTOCOL: u64 = 1 << 30;
const F_INDIRECT: u64 = 1 << 28;
const F_EVENT_IDX: u64 = 1 << 29;
const F_VERSION_1: u64 = 1 << 32;
const F_RO: u64 = 1 << 5;
const F_BLK_SIZE: u64 = 1 << 6;
const F_FLUSH: u64 = 1 << 9;
const F_DISCARD: u64 = 1 << 13;
const F_WRITE_ZEROES: u64 = 1 << 14;

const BASE: u64 = 0x7f00_0000_0000;

/// What a device does wrong.
#[derive(Clone, Copy, PartialEq)]
enum Quirk {
    Good,
    /// Completes nothing.
    Hangs,
    /// Completes with an id that is one too large.
    WrongId,
    /// Counts only the data of a read.
    ShortUsedLen,
    /// Counts the data of a write.
    LongUsedLen,
    /// Hands out the data of the sector before.
    Misdirects,
    /// Accepts a write and keeps nothing.
    DropsWrites,
    /// Refuses every read.
    FailsReads,
    /// Reads past the end succeed.
    NoBounds,
    /// Completes a chain twice.
    CompletesTwice,
    /// Completes without a request.
    Fabricates,
    /// Never signals.
    Silent,
    /// Signals even where it should not.
    Noisy,
    /// Serves what was offered, agreed on or not.
    NoGating,
    /// Accepts unknown types of requests.
    AcceptsAll,
    /// Loses count of the requests that it took.
    LosesCount,
    /// Offers other features when asked again.
    Unstable,
    /// Answers partial reads of the configuration with other bytes.
    PartialConfig,
    /// Dies of bad input.
    Dies,
    /// Writes no status.
    NoStatus,
    /// Zeroes nothing.
    KeepsData,
    /// Completes in the opposite order.
    Reverses,
    /// Completes in the opposite order, and mixes up the data.
    MixesUp,
    /// Completes in no particular order.
    Shuffles,
    /// Reports the first of several chains in place of the last.
    Repeats,
    /// Reports one of several chains too few.
    Forgets,
    /// Fills the last segment with its status.
    FloodsStatus,
    /// Refuses what it cannot read as unsupported.
    Unsupported,
}

struct Fake {
    quirk: Quirk,
    offered: u64,
    proto: u64,
    config: Vec<u8>,
    disk: Vec<u8>,
    mem: Vec<u8>,
    acked: u64,
    mem_known: bool,
    ring: bool,
    last_avail: u16,
    used: u16,
    kicked: bool,
    broken: bool,
    signal: bool,
    dead: bool,
    feature_queries: u32,
    slept: Vec<u64>,
    sessions: u32,
    closed: u32,
    agreed_proto: Option<u64>,
    fed_bad_input: bool,
}

impl Fake {
    fn new(sectors: u64) -> Fake {
        let mut config = vec![0u8; 60];
        config[0..8].copy_from_slice(&sectors.to_le_bytes());
        config[20..24].copy_from_slice(&512u32.to_le_bytes());
        Fake {
            quirk: Quirk::Good,
            offered: F_PROTOCOL
                | F_INDIRECT
                | F_EVENT_IDX
                | F_VERSION_1
                | F_BLK_SIZE
                | F_FLUSH
                | F_DISCARD
                | F_WRITE_ZEROES,
            proto: 0x3ff,
            config,
            disk: vec![0u8; (sectors * 512) as usize],
            mem: Vec::new(),
            acked: 0,
            mem_known: false,
            ring: false,
            last_avail: 0,
            used: 0,
            kicked: false,
            broken: false,
            signal: false,
            dead: false,
            feature_queries: 0,
            slept: Vec::new(),
            sessions: 0,
            closed: 0,
            agreed_proto: None,
            fed_bad_input: false,
        }
    }

    fn with(quirk: Quirk) -> Fake {
        let mut f = Fake::new(8192);
        f.quirk = quirk;
        f
    }

    fn r16(&self, off: usize) -> u16 {
        u16::from_le_bytes([self.mem[off], self.mem[off + 1]])
    }

    fn r32(&self, off: usize) -> u32 {
        u32::from_le_bytes([
            self.mem[off],
            self.mem[off + 1],
            self.mem[off + 2],
            self.mem[off + 3],
        ])
    }

    fn r64(&self, off: usize) -> u64 {
        let mut b = [0u8; 8];
        b.copy_from_slice(&self.mem[off..off + 8]);
        u64::from_le_bytes(b)
    }

    fn w16(&mut self, off: usize, v: u16) {
        self.mem[off..off + 2].copy_from_slice(&v.to_le_bytes());
    }

    fn w32(&mut self, off: usize, v: u32) {
        self.mem[off..off + 4].copy_from_slice(&v.to_le_bytes());
    }

    /// The segments of a chain as (address, length, written by the device), or none if
    /// the chain is bad.
    fn walk(&self, head: u16) -> Option<Vec<(usize, usize, bool)>> {
        let mut segs = Vec::new();
        let mut table = 0x1000usize;
        let mut slots = 256usize;
        let mut i = head as usize;
        let mut indirect = false;
        let mut seen_write = false;
        loop {
            if i >= slots || segs.len() > 600 {
                return None;
            }
            let e = table + i * 16;
            let addr = self.r64(e) as usize;
            let len = self.r32(e + 8) as usize;
            let flags = self.r16(e + 12);
            let next = self.r16(e + 14);
            if addr > self.mem.len() || len > self.mem.len() - addr {
                return None;
            }
            if flags & 4 != 0 {
                if indirect || flags & 1 != 0 || len % 16 != 0 || len == 0 {
                    return None;
                }
                indirect = true;
                table = addr;
                slots = len / 16;
                i = 0;
                continue;
            }
            let write = flags & 2 != 0;
            if seen_write && !write {
                return None;
            }
            seen_write = write;
            segs.push((addr, len, write));
            if flags & 1 == 0 {
                return Some(segs);
            }
            i = next as usize;
        }
    }

    fn feature(&self, bit: u64) -> bool {
        let set = if self.quirk == Quirk::NoGating { self.offered } else { self.acked };
        set & bit != 0
    }

    /// Serves one request; returns the number of bytes written.
    fn serve(&mut self, segs: &[(usize, usize, bool)]) -> u32 {
        let mut input: Vec<u8> = Vec::new();
        for (a, l, w) in segs {
            if !*w {
                input.extend_from_slice(&self.mem[*a..*a + *l]);
            }
        }
        let outs: Vec<(usize, usize)> =
            segs.iter().filter(|s| s.2).map(|s| (s.0, s.1)).collect();
        let (st, data_outs) = outs.split_last().expect("status");
        let total: usize = data_outs.iter().map(|s| s.1).sum();
        let mut t = [0u8; 4];
        t.copy_from_slice(&input[0..4]);
        let kind = u32::from_le_bytes(t);
        let mut s = [0u8; 8];
        s.copy_from_slice(&input[8..16]);
        let sector = u64::from_le_bytes(s);
        let cap = (self.disk.len() / 512) as u64;
        let body = input[16..].to_vec();
        let fits = |n: u64, at: u64| n <= cap && at <= cap - n;
        let mut filled: Vec<u8> = Vec::new();
        let status: u8 = match kind {
            0 => {
                let n = (total / 512) as u64;
                if self.quirk == Quirk::FailsReads {
                    1
                } else if self.quirk == Quirk::NoBounds && !fits(n, sector) {
                    filled = vec![0u8; total];
                    0
                } else if total == 0 || total % 512 != 0 || !fits(n, sector) {
                    if self.quirk == Quirk::Unsupported {
                        2
                    } else {
                        1
                    }
                } else {
                    let from = if self.quirk == Quirk::Misdirects && sector > 0 {
                        sector - 1
                    } else {
                        sector
                    };
                    let a = from as usize * 512;
                    filled = self.disk[a..a + total].to_vec();
                    0
                }
            }
            1 => {
                let n = (body.len() / 512) as u64;
                if self.acked & F_RO != 0 || body.len() % 512 != 0 || !fits(n, sector) {
                    1
                } else {
                    if self.quirk != Quirk::DropsWrites {
                        let a = sector as usize * 512;
                        self.disk[a..a + body.len()].copy_from_slice(&body);
                    }
                    0
                }
            }
            4 => 0,
            8 => {
                if total == 20 {
                    filled = b"disk-0\0\0\0\0\0\0\0\0\0\0\0\0\0\0".to_vec();
                    0
                } else {
                    1
                }
            }
            11 | 13 => {
                let bit = if kind == 11 { F_DISCARD } else { F_WRITE_ZEROES };
                if !self.feature(bit) {
                    2
                } else if body.len() != 16 {
                    1
                } else {
                    let mut b = [0u8; 8];
                    b.copy_from_slice(&body[0..8]);
                    let at = u64::from_le_bytes(b);
                    let mut b = [0u8; 4];
                    b.copy_from_slice(&body[8..12]);
                    let n = u32::from_le_bytes(b) as u64;
                    if fits(n, at) {
                        if self.quirk != Quirk::KeepsData {
                            let a = at as usize * 512;
                            for x in &mut self.disk[a..a + n as usize * 512] {
                                *x = 0;
                            }
                        }
                        0
                    } else {
                        1
                    }
                }
            }
            _ => {
                if self.quirk == Quirk::AcceptsAll {
                    0
                } else {
                    2
                }
            }
        };
        let mut k = 0;
        for (a, l) in data_outs {
            for j in 0..*l {
                if k < filled.len() {
                    self.mem[*a + j] = filled[k];
                    k += 1;
                }
            }
        }
        if self.quirk != Quirk::NoStatus {
            self.mem[st.0] = status;
        }
        if self.quirk == Quirk::FloodsStatus {
            for i in 0..st.1 {
                self.mem[st.0 + i] = status;
            }
        }
        let mut written = k as u32 + 1;
        if kind == 0 && self.quirk == Quirk::ShortUsedLen {
            written = k as u32;
        }
        if kind == 1 && self.quirk == Quirk::LongUsedLen {
            written = body.len() as u32;
        }
        written
    }

    fn complete(&mut self, id: u32, len: u32) {
        let e = 0x3004 + (self.used % 256) as usize * 8;
        self.w32(e, id);
        self.w32(e + 4, len);
        self.used = self.used.wrapping_add(1);
        let used = self.used;
        self.w16(0x3002, used);
        let quiet = self.r16(0x2000) & 1 != 0;
        if (!quiet || self.quirk == Quirk::Noisy) && self.quirk != Quirk::Silent {
            self.signal = true;
        }
    }

    fn process(&mut self) {
        if !self.kicked || !self.ring || !self.mem_known || self.broken || self.dead {
            return;
        }
        self.kicked = false;
        if self.quirk == Quirk::Hangs {
            return;
        }
        if self.quirk == Quirk::Fabricates && self.r16(0x2002) == self.last_avail {
            self.complete(99, 0);
            return;
        }
        let mut done: Vec<(u32, u32)> = Vec::new();
        let mut served: Vec<Vec<(usize, usize, bool)>> = Vec::new();
        while self.last_avail != self.r16(0x2002) && !self.broken {
            let slot = 0x2004 + (self.last_avail % 256) as usize * 2;
            let head = self.r16(slot);
            self.last_avail = self.last_avail.wrapping_add(1);
            match self.walk(head) {
                Some(segs) if segs.last().map(|s| s.2).unwrap_or(false) => {
                    let len = self.serve(&segs);
                    let id = if self.quirk == Quirk::WrongId { head as u32 + 1 } else { head as u32 };
                    done.push((id, len));
                    served.push(segs);
                    if self.quirk == Quirk::CompletesTwice {
                        done.push((id, len));
                    }
                }
                _ => {
                    self.broken = true;
                    self.fed_bad_input = true;
                    if self.quirk == Quirk::Dies {
                        self.dead = true;
                    }
                }
            }
        }
        if self.quirk == Quirk::MixesUp && served.len() > 1 {
            let (a, b) = (served[0][1].0, served[1][1].0);
            for i in 0..512 {
                self.mem.swap(a + i, b + i);
            }
        }
        if self.quirk == Quirk::Reverses || self.quirk == Quirk::MixesUp {
            done.reverse();
        }
        let n = done.len();
        if self.quirk == Quirk::Shuffles && n > 2 {
            done.swap(0, n / 2);
            done.swap(1, n - 1);
        }
        if self.quirk == Quirk::Repeats && n > 1 {
            done[n - 1] = done[0];
        }
        if self.quirk == Quirk::Forgets && n > 1 {
            done.truncate(n - 1);
        }
        for (id, len) in done {
            self.complete(id, len);
        }
    }

    fn bad_message(&mut self) -> Reply {
        self.fed_bad_input = true;
        if self.quirk == Quirk::Dies {
            self.dead = true;
        }
        ReplyOf::Refused("InvalidParam".to_string())
    }

    fn perform(&mut self, a: &Action) -> Option<Reply> {
        if self.dead {
            match a {
                ActionOf::Connect { .. } => {
                    return Some(ReplyOf::Refused("ConnectFail".to_string()));
                }
                ActionOf::Load { len, .. } => return Some(ReplyOf::Bytes(vec![0u8; *len])),
                _ => {}
            }
        }
        match a {
            ActionOf::Connect { path } => {
                assert_eq!(path, "the.sock");
                self.sessions += 1;
                self.mem = Vec::new();
                self.mem_known = false;
                self.ring = false;
                self.last_avail = 0;
                self.used = 0;
                self.kicked = false;
                self.broken = false;
                self.signal = false;
                Some(ReplyOf::Done)
            }
            ActionOf::SetOwner => Some(ReplyOf::Done),
            ActionOf::GetFeatures => {
                self.feature_queries += 1;
                let extra = if self.quirk == Quirk::Unstable { self.feature_queries as u64 } else { 0 };
                Some(ReplyOf::Number(self.offered | extra))
            }
            ActionOf::GetProtocolFeatures => Some(ReplyOf::Number(self.proto)),
            ActionOf::SetProtocolFeatures { bits } => {
                self.agreed_proto = Some(*bits);
                Some(ReplyOf::Done)
            }
            ActionOf::SetFeatures { bits } => {
                self.acked = *bits;
                Some(ReplyOf::Done)
            }
            ActionOf::GetConfig { offset, size } => {
                assert_eq!(*offset, 0);
                let mut b = self.config[0..*size as usize].to_vec();
                if self.quirk == Quirk::PartialConfig && *size == 8 {
                    b[0] = b[0].wrapping_add(1);
                }
                Some(ReplyOf::Bytes(b))
            }
            ActionOf::MapMemory { total } => {
                self.mem = vec![0u8; *total];
                Some(ReplyOf::Mapped { fd: 5, va: BASE })
            }
            ActionOf::OpenKick | ActionOf::OpenCall => Some(ReplyOf::Done),
            ActionOf::SetMemTable { region } => match region {
                Some(r) => {
                    assert_eq!(r.guest_phys_addr, 0);
                    assert_eq!(r.memory_size, 64 * 1024 * 1024);
                    assert_eq!(r.userspace_addr, BASE);
                    assert_eq!(r.mmap_offset, 0);
                    assert_eq!(r.mmap_handle, 5);
                    self.mem_known = true;
                    Some(ReplyOf::Done)
                }
                None => Some(self.bad_message()),
            },
            ActionOf::SetVringNum { num } => {
                if *num == 0 || !num.is_power_of_two() || *num > 1024 {
                    Some(self.bad_message())
                } else {
                    Some(ReplyOf::Done)
                }
            }
            ActionOf::SetVringAddr { config } => {
                if config.desc_table_addr % 16 != 0 {
                    return Some(self.bad_message());
                }
                assert_eq!(config.queue_size, 256);
                assert_eq!(config.queue_max_size, 256);
                assert_eq!(config.flags, 0);
                assert_eq!(config.desc_table_addr, BASE + 0x1000);
                assert_eq!(config.avail_ring_addr, BASE + 0x2000);
                assert_eq!(config.used_ring_addr, BASE + 0x3000);
                assert!(config.log_addr.is_none());
                if self.mem_known {
                    Some(ReplyOf::Done)
                } else {
                    Some(self.bad_message())
                }
            }
            ActionOf::SetVringBase { base } => {
                self.last_avail = *base;
                self.used = *base;
                Some(ReplyOf::Done)
            }
            ActionOf::SetVringKick | ActionOf::SetVringCall => Some(ReplyOf::Done),
            ActionOf::SetVringEnable { on } => {
                self.ring = *on;
                Some(ReplyOf::Done)
            }
            ActionOf::GetVringBase => {
                let n = if self.quirk == Quirk::LosesCount { 1 } else { self.last_avail };
                Some(ReplyOf::Number(n as u64))
            }
            ActionOf::Store { off, data } => {
                self.mem[*off..*off + data.len()].copy_from_slice(data);
                None
            }
            ActionOf::Load { off, len } => {
                Some(ReplyOf::Bytes(self.mem[*off..*off + *len].to_vec()))
            }
            ActionOf::Kick => {
                self.kicked = true;
                None
            }
            ActionOf::DrainCall => {
                self.signal = false;
                None
            }
            ActionOf::WaitUsed { seen, index_off, elem_off, .. } => {
                self.process();
                if self.r16(*index_off) != *seen {
                    Some(ReplyOf::Bytes(self.mem[*elem_off..*elem_off + 8].to_vec()))
                } else {
                    Some(ReplyOf::TimedOut)
                }
            }
            ActionOf::WaitCall { .. } => {
                let came = self.signal;
                self.signal = false;
                Some(ReplyOf::Flag(came))
            }
            ActionOf::Close => {
                self.closed += 1;
                None
            }
            ActionOf::Sleep { ms } => {
                self.slept.push(*ms);
                None
            }
        }
    }
}

fn drive(case: Case, fake: &mut Fake, delay_ms: u64) -> TR {
    let mut replies: Vec<Reply> = Vec::new();
    let mut done = 0usize;
    loop {
        let mut t = Trial::new(delay_ms, replies);
        run_case(case, "the.sock", &mut t);
        let verdict = t.verdict();
        let log = t.link.log;
        replies = t.link.replies;
        for a in &log[done..] {
            let answer = fake.perform(a);
            assert_eq!(answer.is_some(), needs_answer(a));
            if let Some(r) = answer {
                replies.push(r);
            }
        }
        done = log.len();
        if let Some(v) = verdict {
            return v;
        }
    }
}

fn passes(case: Case) {
    let mut f = Fake::new(8192);
    match drive(case, &mut f, 0) {
        Ok(()) => {}
        Err(TestErr::Fail(m)) => panic!("failed: {}", m),
        Err(TestErr::Skip(m)) => panic!("skipped: {}", m),
    }
}

fn fails(case: Case, quirk: Quirk) -> String {
    let mut f = Fake::with(quirk);
    match drive(case, &mut f, 0) {
        Ok(()) => panic!("passed"),
        Err(TestErr::Fail(m)) => m,
        Err(TestErr::Skip(m)) => panic!("skipped: {}", m),
    }
}

fn skips(case: Case, f: &mut Fake) -> String {
    match drive(case, f, 0) {
        Ok(()) => panic!("passed"),
        Err(TestErr::Fail(m)) => panic!("failed: {}", m),
        Err(TestErr::Skip(m)) => m,
    }
}

// ---- a good device ---------------------------------------------------------------------

#[test]
fn good_device_passes_every_scenario() {
    for (name, _, case) in all() {
        let mut f = Fake::new(8192);
        if case == Case::ReadonlyWrite {
            f.offered |= F_RO;
        }
        match drive(case, &mut f, 0) {
            Ok(()) => {}
            Err(TestErr::Fail(m)) => panic!("{} failed: {}", name, m),
            Err(TestErr::Skip(m)) => panic!("{} skipped: {}", name, m),
        }
    }
}

#[test]
fn completions_in_any_order_pass() {
    let mut f = Fake::with(Quirk::Reverses);
    assert!(drive(Case::OutOfOrder, &mut f, 0).is_ok());
    let mut f = Fake::with(Quirk::Reverses);
    assert!(drive(Case::MultiOutstanding, &mut f, 0).is_ok());
    let mut f = Fake::with(Quirk::Shuffles);
    assert!(drive(Case::OutOfOrder, &mut f, 0).is_ok());
    let mut f = Fake::with(Quirk::Shuffles);
    assert!(drive(Case::MultiOutstanding, &mut f, 0).is_ok());
}

fn never_fails(sectors: u64) {
    for (name, _, case) in all() {
        let mut f = Fake::new(sectors);
        if let Err(TestErr::Fail(m)) = drive(case, &mut f, 0) {
            panic!("{} failed on {} sectors: {}", name, sectors, m);
        }
    }
}

#[test]
fn good_device_without_a_work_area_never_fails() {
    never_fails(16);
    never_fails(2048);
}

#[test]
fn good_device_with_a_small_work_area_never_fails() {
    never_fails(2064);
    never_fails(2136);
}

#[test]
fn good_device_with_a_middling_work_area_never_fails() {
    never_fails(2251);
    never_fails(2252);
}

#[test]
fn good_device_with_a_larger_work_area_never_fails() {
    never_fails(2356);
    never_fails(2403);
    never_fails(2404);
}

#[test]
fn work_area_is_all_that_is_written() {
    for (_, _, case) in all() {
        let mut f = Fake::new(8192);
        for (i, b) in f.disk.iter_mut().enumerate() {
            *b = (i / 512) as u8;
        }
        let _ = drive(case, &mut f, 0);
        for i in 0..2048 * 512 {
            assert_eq!(f.disk[i], (i / 512) as u8);
        }
    }
}

#[test]
fn roundtrip_leaves_its_pattern_on_the_disk() {
    let mut f = Fake::new(8192);
    assert!(drive(Case::Roundtrip, &mut f, 0).is_ok());
    assert_eq!(f.disk[2048 * 512..2049 * 512].to_vec(), pat(0xa5, 512));
}

#[test]
fn only_the_configuration_is_agreed_on() {
    let mut f = Fake::new(8192);
    assert!(drive(Case::Handshake, &mut f, 0).is_ok());
    assert_eq!(f.agreed_proto, Some(0x200));
    assert_eq!(f.acked, f.offered & !F_EVENT_IDX);
}

#[test]
fn masked_feature_is_not_acknowledged() {
    let mut f = Fake::new(8192);
    assert!(drive(Case::FeatureGatingDiscard, &mut f, 0).is_ok());
    assert_eq!(f.acked, f.offered & !F_EVENT_IDX & !F_DISCARD);
}

#[test]
fn pauses_stand_before_later_sessions() {
    let mut f = Fake::new(8192);
    assert!(drive(Case::PersistenceReconnect, &mut f, 250).is_ok());
    assert_eq!(f.slept, vec![250]);
    assert_eq!((f.sessions, f.closed), (2, 1));
    let mut f = Fake::new(8192);
    assert!(drive(Case::ReconnectStress, &mut f, 7).is_ok());
    assert_eq!(f.slept, vec![7, 7, 7, 7]);
    assert_eq!((f.sessions, f.closed), (5, 5));
    let mut f = Fake::new(8192);
    assert!(drive(Case::DoubleSetOwner, &mut f, 9).is_ok());
    assert_eq!(f.slept, vec![9]);
    let mut f = Fake::new(8192);
    assert!(drive(Case::ReconnectStress, &mut f, 0).is_ok());
    assert!(f.slept.is_empty());
}

#[test]
fn bad_input_reaches_the_device() {
    let cases = [
        Case::DescNextOob,
        Case::DescLoop,
        Case::DescAddrOob,
        Case::DescLenPastRegion,
        Case::DescHugeLen,
        Case::ReadableAfterWritable,
        Case::IndirectWithNext,
        Case::NestedIndirect,
        Case::IndirectBadTableLen,
        Case::AvailHeadOob,
        Case::VringNumZero,
        Case::VringNumNotPow2,
        Case::VringNumTooBig,
        Case::VringAddrUnaligned,
        Case::MemTableEmpty,
        Case::VringBeforeMem,
    ];
    for case in cases {
        let mut f = Fake::new(8192);
        assert!(drive(case, &mut f, 0).is_ok());
        assert!(f.fed_bad_input);
        assert_eq!((f.sessions, f.closed), (2, 1));
    }
}

// ---- bad devices -----------------------------------------------------------------------

#[test]
fn death_of_the_device_is_noticed() {
    for case in [Case::DescLoop, Case::AvailHeadOob, Case::VringNumZero, Case::MemTableEmpty] {
        assert_eq!(fails(case, Quirk::Dies), "connect: ConnectFail");
    }
}

#[test]
fn hang_is_reported() {
    assert_eq!(fails(Case::Read0, Quirk::Hangs), "ЗАВИСАНИЕ: нет завершения за 5000 мс");
    assert_eq!(fails(Case::ReconnectStress, Quirk::Hangs), "цикл 0: ЗАВИСАНИЕ: нет завершения за 5000 мс");
    assert_eq!(fails(Case::NotifySignaled, Quirk::Hangs), "ЗАВИСАНИЕ");
    assert_eq!(
        fails(Case::NotifySuppressed, Quirk::Hangs),
        "ЗАВИСАНИЕ (обработка должна идти и при NO_INTERRUPT)"
    );
    assert_eq!(
        fails(Case::MultiOutstanding, Quirk::Hangs),
        "ЗАВИСАНИЕ: получено 0/16 завершений"
    );
}

#[test]
fn foreign_completion_is_reported() {
    assert_eq!(fails(Case::Read0, Quirk::WrongId), "used.id=1 != head=0");
    assert_eq!(fails(Case::MultiOutstanding, Quirk::WrongId), "неизвестный used.id=1");
}

#[test]
fn used_length_is_checked() {
    assert_eq!(
        fails(Case::UsedLenRead, Quirk::ShortUsedLen),
        "used.len=4096 (спека: данные+status=4097). Значение 4096 (только данные) или 0 — известное нарушение"
    );
    assert_eq!(
        fails(Case::UsedLenWrite, Quirk::LongUsedLen),
        "used.len=2048 для записи (спека: только status = 1 байт)"
    );
}

#[test]
fn wrong_data_are_reported() {
    assert_eq!(
        fails(Case::Roundtrip, Quirk::DropsWrites),
        "roundtrip: расхождение на байте 0 из 512 (got=0x00 want=0xa5)"
    );
    assert_eq!(
        fails(Case::Multiblock, Quirk::Misdirects),
        "blk 0: расхождение на байте 0 из 512 (got=0x00 want=0x10)"
    );
    assert_eq!(
        fails(Case::UsedIndexWrap, Quirk::DropsWrites),
        "wrap iter 0: расхождение на байте 0 из 512 (got=0x00 want=0x5c)"
    );
    assert_eq!(
        fails(Case::OutOfOrder, Quirk::MixesUp),
        "read sector 2050: расхождение на байте 0 из 512 (got=0x70 want=0x71)"
    );
    assert_eq!(
        fails(Case::WriteZeroes, Quirk::KeepsData),
        "зона после write-zeroes: байт 0 не ноль (0xee)"
    );
}

#[test]
fn wrong_status_is_reported() {
    assert_eq!(
        fails(Case::Read0, Quirk::FailsReads),
        "read sector 0: status=1 (ожидался OK=0)"
    );
    assert_eq!(fails(Case::DescLoop, Quirk::FailsReads), "liveness-чтение вернуло status=1");
    assert_eq!(
        fails(Case::ReconnectStress, Quirk::FailsReads),
        "reconnect #0: status=1 (ожидался OK=0)"
    );
    assert_eq!(
        fails(Case::Read0, Quirk::NoStatus),
        "read sector 0: status=255 (ожидался OK=0)"
    );
    assert_eq!(
        fails(Case::ZeroLengthRead, Quirk::NoStatus),
        "0-длина: недопустимый status=255"
    );
    assert_eq!(
        fails(Case::UnsupportedType, Quirk::AcceptsAll),
        "неизвестный тип: status=0 (ожидался UNSUPP=2 или IOERR=1)"
    );
    assert_eq!(
        fails(Case::MultiOutstanding, Quirk::NoStatus),
        "write sector 2048 status=255"
    );
    assert_eq!(
        fails(Case::NonmultipleLength, Quirk::Unsupported),
        "некратная длина: недопустимый status=2"
    );
}

#[test]
fn status_is_one_byte() {
    assert_eq!(
        fails(Case::StatusOversized, Quirk::FloodsStatus),
        "status в 4-байтном desc: байт 1 перезаписан (0x00)"
    );
}

#[test]
fn each_completion_comes_once() {
    assert_eq!(fails(Case::MultiOutstanding, Quirk::Repeats), "повторный used.id=0");
    assert_eq!(fails(Case::OutOfOrder, Quirk::Repeats), "повторный used.id=24");
    assert_eq!(
        fails(Case::MultiOutstanding, Quirk::Forgets),
        "ЗАВИСАНИЕ: получено 15/16 завершений"
    );
    assert_eq!(fails(Case::OutOfOrder, Quirk::Forgets), "ЗАВИСАНИЕ: 7/8 завершений");
}

#[test]
fn bounds_are_refused_with_an_error() {
    assert_eq!(
        fails(Case::CrossCapacity, Quirk::Unsupported),
        "чтение через границу: status=2 (ожидался IOERR)"
    );
    assert_eq!(
        fails(Case::BeyondCapacity, Quirk::Unsupported),
        "чтение за пределами ёмкости: status=2 (ожидался IOERR)"
    );
    assert_eq!(
        fails(Case::ConfigCapacityConsistency, Quirk::Unsupported),
        "чтение за границей из config: status=2 (ожидался IOERR)"
    );
    assert_eq!(
        fails(Case::CrossCapacity, Quirk::NoStatus),
        "чтение через границу: status=255 (ожидался IOERR)"
    );
}

#[test]
fn sectors_past_the_end_have_numbers() {
    for case in [Case::BeyondCapacity, Case::DiscardBeyondCapacity] {
        let mut f = Fake::new(8192);
        f.config[0..8].copy_from_slice(&(u64::MAX - 999).to_le_bytes());
        match drive(case, &mut f, 0) {
            Err(TestErr::Fail(m)) => assert_eq!(m, "PANIC в харнессе"),
            _ => panic!("no failure"),
        }
    }
}

#[test]
fn missing_bounds_are_reported() {
    assert_eq!(
        fails(Case::CrossCapacity, Quirk::NoBounds),
        "чтение через границу вернуло OK (ожидался IOERR)"
    );
    assert_eq!(
        fails(Case::BeyondCapacity, Quirk::NoBounds),
        "чтение за пределами ёмкости вернуло OK (ожидался IOERR)"
    );
    assert_eq!(
        fails(Case::ConfigCapacityConsistency, Quirk::NoBounds),
        "config.capacity=8192 секторов, но чтение за границей вернуло OK"
    );
    assert_eq!(
        fails(Case::SectorOverflow, Quirk::NoBounds),
        "чтение sector=u64::MAX (+2): status=0 (ожидался IOERR; наивная проверка пропустила бы из-за переполнения)"
    );
}

#[test]
fn extra_completions_are_reported() {
    assert_eq!(
        fails(Case::DoubleKick, Quirk::CompletesTwice),
        "used.id=0 != head=3"
    );
    assert_eq!(
        fails(Case::SpuriousKick, Quirk::Fabricates),
        "устройство вернуло завершение id=99 без запроса"
    );
}

#[test]
fn signals_are_checked() {
    assert_eq!(
        fails(Case::NotifySignaled, Quirk::Silent),
        "устройство НЕ уведомило (callfd) при разрешённых уведомлениях — драйвер завис бы"
    );
    assert_eq!(
        fails(Case::NotifySuppressed, Quirk::Noisy),
        "устройство уведомило (callfd) ВОПРЕКИ VRING_AVAIL_F_NO_INTERRUPT — лишние прерывания"
    );
}

#[test]
fn ungated_feature_is_reported() {
    assert_eq!(
        fails(Case::FeatureGatingDiscard, Quirk::NoGating),
        "DISCARD при НЕсогласованном F_DISCARD → status=0 (ожидался UNSUPP=2). Устройство гейтит по ПРЕДЛОЖЕННЫМ, а не НЕГОЦИИРОВАННЫМ фичам — функциональная неточность (обрабатывает несогласованную команду)"
    );
}

#[test]
fn lost_count_is_reported() {
    assert_eq!(
        fails(Case::VringBaseTracksConsumed, Quirk::LosesCount),
        "GET_VRING_BASE=1 после 3 запросов (ожидалось 3 = last_avail); неверный учёт сломает остановку/миграцию"
    );
    assert_eq!(
        fails(Case::VringBaseRoundtrip, Quirk::LosesCount),
        "GET_VRING_BASE вернул 1 после SET_VRING_BASE(7) — неверный учёт last_avail"
    );
}

#[test]
fn unstable_answers_are_reported() {
    let m = fails(Case::GetFeaturesStable, Quirk::Unstable);
    let base = Fake::new(8192).offered;
    assert_eq!(m, format!("GET_FEATURES нестабилен: {:#x} != {:#x}", base | 2, base | 3));
    assert_eq!(
        fails(Case::ConfigPartialRead, Quirk::PartialConfig),
        "частичный GET_CONFIG(0,8) != первые 8 байт GET_CONFIG(0,60): [1, 32, 0, 0, 0, 0, 0, 0] vs [0, 32, 0, 0, 0, 0, 0, 0]"
    );
}

#[test]
fn short_configuration_is_reported() {
    let mut f = Fake::new(8192);
    f.config = vec![1, 2, 3];
    let mut replies: Vec<Reply> = vec![
        ReplyOf::Done,
        ReplyOf::Done,
        ReplyOf::Number(F_PROTOCOL),
        ReplyOf::Done,
        ReplyOf::Number(0x200),
        ReplyOf::Done,
        ReplyOf::Bytes(vec![0u8; 60]),
        ReplyOf::Mapped { fd: 1, va: BASE },
        ReplyOf::Done,
        ReplyOf::Done,
    ];
    replies.push(ReplyOf::Bytes(vec![0u8; 3]));
    replies.push(ReplyOf::Bytes(vec![0u8; 8]));
    let mut t = Trial::new(0, replies);
    run_case(Case::ConfigPartialRead, "the.sock", &mut t);
    match t.verdict() {
        Some(Err(TestErr::Fail(m))) => assert_eq!(m, "config короче 8 байт"),
        _ => panic!("no failure"),
    }
}

#[test]
fn block_size_is_checked() {
    for (size, text) in [
        (100u32, Some("config.blk_size=100 (< 512)")),
        (1536, Some("config.blk_size=1536 не степень двойки")),
        (4096, None),
        (0, Some("config.blk_size=0 (< 512)")),
    ] {
        let mut f = Fake::new(8192);
        f.config[20..24].copy_from_slice(&size.to_le_bytes());
        match (drive(Case::ConfigBlkSizeSane, &mut f, 0), text) {
            (Ok(()), None) => {}
            (Err(TestErr::Fail(m)), Some(t)) => assert_eq!(m, t),
            _ => panic!("block size {}", size),
        }
    }
}

// ---- what is missing -------------------------------------------------------------------

#[test]
fn missing_features_skip() {
    let mut f = Fake::new(8192);
    f.offered &= !F_FLUSH;
    assert_eq!(skips(Case::Flush, &mut f), "FLUSH не согласован");
    let mut f = Fake::new(8192);
    f.offered &= !F_INDIRECT;
    assert_eq!(skips(Case::IndirectRw, &mut f), "INDIRECT_DESC не согласован");
    let mut f = Fake::new(8192);
    f.offered &= !F_WRITE_ZEROES;
    assert_eq!(skips(Case::WriteZeroes, &mut f), "WRITE_ZEROES не согласован");
    let mut f = Fake::new(8192);
    f.offered &= !F_DISCARD;
    assert_eq!(skips(Case::Discard, &mut f), "DISCARD не согласован");
    let mut f = Fake::new(8192);
    f.offered &= !F_DISCARD;
    assert_eq!(
        skips(Case::FeatureGatingDiscard, &mut f),
        "устройство не предлагает DISCARD — гейтинг не проверить"
    );
    let mut f = Fake::new(8192);
    f.offered &= !F_BLK_SIZE;
    assert_eq!(skips(Case::ConfigBlkSizeSane, &mut f), "F_BLK_SIZE не согласован");
    let mut f = Fake::new(8192);
    assert_eq!(
        skips(Case::ReadonlyWrite, &mut f),
        "устройство не readonly (VIRTIO_BLK_F_RO не согласован)"
    );
}

#[test]
fn unknown_capacity_skips() {
    let mut f = Fake::new(8192);
    f.proto = 0;
    assert_eq!(
        skips(Case::Roundtrip, &mut f),
        "ёмкость неизвестна (нет PROTOCOL_F_CONFIG)"
    );
    let mut f = Fake::new(8192);
    f.proto = 0;
    assert_eq!(
        skips(Case::ConfigCapacityConsistency, &mut f),
        "нет PROTOCOL_F_CONFIG — ёмкость неизвестна"
    );
    let mut f = Fake::new(8192);
    f.proto = 0;
    assert_eq!(skips(Case::ConfigPartialRead, &mut f), "PROTOCOL_F_CONFIG не согласован");
    let mut f = Fake::new(8192);
    f.proto = 0;
    assert_eq!(skips(Case::DiscardBeyondCapacity, &mut f), "ёмкость неизвестна");
}

#[test]
fn small_device_skips() {
    let mut f = Fake::new(2059);
    assert_eq!(skips(Case::Roundtrip, &mut f), "диск мал: 2059 секторов");
    let mut f = Fake::new(2060);
    assert!(drive(Case::Roundtrip, &mut f, 0).is_ok());
    let mut f = Fake::new(2403);
    assert_eq!(skips(Case::LargeRequest, &mut f), "диск мал: 2403 секторов");
    let mut f = Fake::new(2404);
    assert!(drive(Case::LargeRequest, &mut f, 0).is_ok());
    let mut f = Fake::new(2251);
    assert_eq!(skips(Case::UsedLenWrite, &mut f), "диск мал: 2251 секторов");
    let mut f = Fake::new(2252);
    assert!(drive(Case::UsedLenWrite, &mut f, 0).is_ok());
    let mut f = Fake::new(2252);
    f.quirk = Quirk::LongUsedLen;
    match drive(Case::UsedLenWrite, &mut f, 0) {
        Err(TestErr::Fail(_)) => {}
        _ => panic!("no failure"),
    }
}

// ---- refusals --------------------------------------------------------------------------

#[test]
fn refused_message_is_a_failure() {
    let texts = [
        "connect: no",
        "set_owner: no",
        "get_features: no",
        "set_features: no",
        "get_protocol_features: no",
        "set_protocol_features: no",
    ];
    for (k, text) in texts.iter().enumerate() {
        let mut replies: Vec<Reply> = vec![
            ReplyOf::Done,
            ReplyOf::Done,
            ReplyOf::Number(F_PROTOCOL),
            ReplyOf::Done,
            ReplyOf::Number(0x200),
        ];
        replies.truncate(k);
        replies.push(ReplyOf::Refused("no".to_string()));
        let mut t = Trial::new(0, replies);
        run_case(Case::Handshake, "the.sock", &mut t);
        match t.verdict() {
            Some(Err(TestErr::Fail(m))) => assert_eq!(m, *text),
            _ => panic!("no failure at {}", k),
        }
        assert_eq!(t.link.log.len(), k + 1);
    }
}

#[test]
fn refused_configuration_leaves_the_capacity_open() {
    let replies: Vec<Reply> = vec![
        ReplyOf::Done,
        ReplyOf::Done,
        ReplyOf::Number(F_PROTOCOL),
        ReplyOf::Done,
        ReplyOf::Number(0x200),
        ReplyOf::Done,
        ReplyOf::Refused("no".to_string()),
        ReplyOf::Refused("memfd_create: none".to_string()),
    ];
    let mut t = Trial::new(0, replies);
    run_case(Case::Handshake, "the.sock", &mut t);
    match t.verdict() {
        Some(Err(TestErr::Fail(m))) => assert_eq!(m, "memfd_create: none"),
        _ => panic!("no failure"),
    }
}

// ---- runs and reruns ---------------------------------------------------------------------

#[test]
fn run_without_answers_waits_on_its_first_question() {
    for (_, _, case) in all() {
        let mut t = Trial::new(0, Vec::new());
        run_case(case, "the.sock", &mut t);
        assert!(t.verdict().is_none());
        assert_eq!(t.link.log.len(), 1);
        assert!(needs_answer(&t.link.log[0]));
    }
}

#[test]
fn rerun_repeats_its_actions() {
    let mut fake = Fake::new(8192);
    let mut replies: Vec<Reply> = Vec::new();
    let mut before: Vec<String> = Vec::new();
    loop {
        let mut t = Trial::new(0, replies);
        run_case(Case::Roundtrip, "the.sock", &mut t);
        let now: Vec<String> = t.link.log.iter().map(describe).collect();
        assert!(now.len() >= before.len());
        assert_eq!(now[..before.len()].to_vec(), before);
        if t.verdict().is_some() {
            break;
        }
        replies = t.link.replies;
        for a in &t.link.log[before.len()..] {
            if let Some(r) = fake.perform(a) {
                replies.push(r);
            }
        }
        let asked = t.link.log.iter().filter(|a| needs_answer(a)).count();
        assert_eq!(asked, replies.len());
        before = now;
    }
    assert_eq!(before[0], "connect the.sock");
}

fn describe(a: &Action) -> String {
    match a {
        ActionOf::Connect { path } => format!("connect {}", path),
        ActionOf::Store { off, data } => format!("store {} {}", off, data.len()),
        ActionOf::Load { off, len } => format!("load {} {}", off, len),
        ActionOf::Kick => "kick".to_string(),
        ActionOf::WaitUsed { seen, elem_off, .. } => format!("wait {} {}", seen, elem_off),
        _ => "message".to_string(),
    }
}

// ---- one test for each kind of scenario --------------------------------------------------

#[test]
fn layouts_pass() {
    for case in [
        Case::HdrSplit2,
        Case::HdrSplit4,
        Case::HdrDataContiguousWrite,
        Case::ScatterWrite,
        Case::ScatterRead,
        Case::UnevenSegments,
        Case::ManySegments,
        Case::StatusOversized,
        Case::IndirectRw,
        Case::LargeRequest,
    ] {
        passes(case);
    }
}
