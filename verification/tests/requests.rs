//! The stores and messages of a session, as the device gets them.

use vhost_blk_conformance::dev::{r, w, Session, DATA_OFF, REGION_SIZE};
use vhost_blk_conformance::link::{Action, ActionOf, Halt, Link, Reply, ReplyOf};
use vhost_blk_conformance::mem::SharedMem;
use vhost_blk_conformance::stages::{alive, reconnect_cooldown, set_reconnect_delay};
use vhost_blk_conformance::trial::Trial;

fn session(next_desc: u16, avail_idx: u16, used_idx_seen: u16) -> Session {
    Session {
        mem: SharedMem { fd: 3, base: 0x7000_0000, size: REGION_SIZE },
        proto: 0x200,
        acked: 1 << 30,
        capacity_sectors: 4096,
        blk_size: 512,
        config_blk_size: 512,
        offered: 1 << 30,
        next_desc,
        avail_idx,
        used_idx_seen,
        next_data: DATA_OFF,
    }
}

/// Memory after the stores of a log.
fn replay(log: &[Action]) -> Vec<u8> {
    let mut m = vec![0u8; REGION_SIZE];
    for a in log {
        if let ActionOf::Store { off, data } = a {
            m[*off..*off + data.len()].copy_from_slice(data);
        }
    }
    m
}

fn n16(m: &[u8], off: usize) -> u16 {
    u16::from_le_bytes([m[off], m[off + 1]])
}

fn n32(m: &[u8], off: usize) -> u32 {
    u32::from_le_bytes([m[off], m[off + 1], m[off + 2], m[off + 3]])
}

fn n64(m: &[u8], off: usize) -> u64 {
    (n32(m, off) as u64) | ((n32(m, off + 4) as u64) << 32)
}

fn desc(m: &[u8], e: usize) -> (u64, u32, u16, u16) {
    (n64(m, e), n32(m, e + 8), n16(m, e + 12), n16(m, e + 14))
}

#[test]
fn posted_chain_is_found_in_memory() {
    let mut link = Link::new(0, Vec::new());
    let mut s = session(254, 0xffff, 0);
    let head = s.post(&[r(0x10_0000, 16), r(0x10_1000, 512), w(0x10_2000, 1)], &mut link);
    assert_eq!(head, 254);
    let m = replay(&link.log);
    assert_eq!(desc(&m, 0x1000 + 254 * 16), (0x10_0000, 16, 1, 255));
    assert_eq!(desc(&m, 0x1000 + 255 * 16), (0x10_1000, 512, 1, 0));
    assert_eq!(desc(&m, 0x1000), (0x10_2000, 1, 2, 1));
    assert_eq!(n16(&m, 0x2004 + 255 * 2), 254);
    assert_eq!(n16(&m, 0x2002), 0);
    assert_eq!((s.next_desc, s.avail_idx), (1, 0));
    match &link.log[link.log.len() - 1] {
        ActionOf::Store { off, .. } => assert_eq!(*off, 0x2002),
        _ => panic!("no store"),
    }
}

#[test]
fn posted_table_is_found_in_memory() {
    let mut link = Link::new(0, Vec::new());
    let mut s = session(255, 7, 0);
    let head = s.post_indirect(
        &[r(0x10_0000, 16), w(0x10_1000, 512), w(0x10_2000, 1)],
        0x20_0000,
        &mut link,
    );
    assert_eq!(head, 255);
    let m = replay(&link.log);
    assert_eq!(desc(&m, 0x20_0000), (0x10_0000, 16, 1, 1));
    assert_eq!(desc(&m, 0x20_0010), (0x10_1000, 512, 3, 2));
    assert_eq!(desc(&m, 0x20_0020), (0x10_2000, 1, 2, 3));
    assert_eq!(desc(&m, 0x1000 + 255 * 16), (0x20_0000, 48, 4, 0));
    assert_eq!(n16(&m, 0x2004 + 7 * 2), 255);
    assert_eq!(n16(&m, 0x2002), 8);
    assert_eq!((s.next_desc, s.avail_idx), (0, 8));
}

#[test]
fn empty_table_is_posted_wherever_it_lies() {
    let mut link = Link::new(0, Vec::new());
    let mut s = session(3, 0, 0);
    assert_eq!(s.post_indirect(&[], REGION_SIZE + 64, &mut link), 3);
    let m = replay(&link.log);
    assert_eq!(desc(&m, 0x1000 + 3 * 16), (REGION_SIZE as u64 + 64, 0, 4, 0));
    assert_eq!(n16(&m, 0x2002), 1);
}

#[test]
fn any_head_can_be_made_available() {
    let mut link = Link::new(0, Vec::new());
    let mut s = session(0, 300, 0);
    s.push_avail(261, &mut link);
    s.write_raw_desc(257, 0x1234, 0xffff_ffff, 5, 9, &mut link);
    s.set_avail_flags(1, &mut link);
    let m = replay(&link.log);
    assert_eq!(n16(&m, 0x2004 + 44 * 2), 261);
    assert_eq!(n16(&m, 0x2002), 301);
    assert_eq!(desc(&m, 0x1010), (0x1234, 0xffff_ffff, 5, 9));
    assert_eq!(n16(&m, 0x2000), 1);
}

#[test]
fn write_request_is_found_in_memory() {
    let replies: Vec<Reply> = vec![
        ReplyOf::Bytes(vec![0, 0, 0, 0, 1, 0, 0, 0]),
        ReplyOf::Bytes(vec![0]),
    ];
    let mut link = Link::new(0, replies);
    let mut s = session(0, 0, 0);
    match s.blk_write(2048, &[7u8; 512], &mut link) {
        Ok(status) => assert_eq!(status, 0),
        Err(_) => panic!("no status"),
    }
    let m = replay(&link.log);
    assert_eq!((n32(&m, 0x10_0000), n32(&m, 0x10_0004), n64(&m, 0x10_0008)), (1, 0, 2048));
    assert_eq!(m[0x10_1000..0x10_1200].to_vec(), vec![7u8; 512]);
    assert_eq!(m[0x10_2000], 0xff);
    assert_eq!(desc(&m, 0x1000), (0x10_0000, 16, 1, 1));
    assert_eq!(desc(&m, 0x1010), (0x10_1000, 512, 1, 2));
    assert_eq!(desc(&m, 0x1020), (0x10_2000, 1, 2, 3));
    assert_eq!(s.used_idx_seen, 1);
    assert_eq!(s.next_desc, 3);
}

#[test]
fn read_request_brings_status_and_bytes() {
    let replies: Vec<Reply> = vec![
        ReplyOf::Bytes(vec![0, 0, 0, 0, 1, 2, 0, 0]),
        ReplyOf::Bytes(vec![9u8; 512]),
        ReplyOf::Bytes(vec![1]),
    ];
    let mut link = Link::new(0, replies);
    let mut s = session(0, 0, 0xffff);
    match s.blk_read(5, 512, &mut link) {
        Ok((status, data)) => {
            assert_eq!(status, 1);
            assert_eq!(data, vec![9u8; 512]);
        }
        Err(_) => panic!("no data"),
    }
    assert_eq!(s.used_idx_seen, 0);
    match &link.log[link.log.len() - 3] {
        ActionOf::WaitUsed { seen, index_off, elem_off, timeout_ms } => {
            assert_eq!((*seen, *index_off, *elem_off), (0xffff, 0x3002, 0x3004 + 255 * 8));
            assert_eq!(*timeout_ms, 5000);
        }
        _ => panic!("no wait"),
    }
}

#[test]
fn foreign_completion_is_a_fault() {
    let replies: Vec<Reply> = vec![ReplyOf::Bytes(vec![4, 0, 0, 0, 0, 0, 0, 0])];
    let mut link = Link::new(0, replies);
    let mut s = session(6, 0, 0);
    match s.submit(&[w(0x10_0000, 1)], 100, &mut link) {
        Err(Halt::Fault(m)) => assert_eq!(m, "used.id=4 != head=6"),
        _ => panic!("no fault"),
    }
}

#[test]
fn missing_completion_is_a_fault() {
    let mut link = Link::new(0, vec![ReplyOf::TimedOut]);
    let mut s = session(0, 0, 0);
    match s.submit(&[w(0x10_0000, 1)], 123, &mut link) {
        Err(Halt::Fault(m)) => assert_eq!(m, "ЗАВИСАНИЕ: нет завершения за 123 мс"),
        _ => panic!("no fault"),
    }
    let mut link = Link::new(0, Vec::new());
    let mut s = session(0, 0, 0);
    assert!(matches!(s.submit(&[w(0x10_0000, 1)], 123, &mut link), Err(Halt::Waiting)));
}

#[test]
fn discard_names_its_sectors_in_the_segment() {
    let replies: Vec<Reply> = vec![
        ReplyOf::Bytes(vec![0, 0, 0, 0, 1, 0, 0, 0]),
        ReplyOf::Bytes(vec![2]),
    ];
    let mut link = Link::new(0, replies);
    let mut s = session(0, 0, 0);
    assert!(matches!(s.blk_zeroes_or_discard(13, 77, 8, true, &mut link), Ok(2)));
    let m = replay(&link.log);
    assert_eq!((n32(&m, 0x10_0000), n64(&m, 0x10_0008)), (13, 0));
    assert_eq!((n64(&m, 0x10_1000), n32(&m, 0x10_1008), n32(&m, 0x10_100c)), (77, 8, 1));
}

#[test]
fn ring_starts_where_it_is_told() {
    let replies: Vec<Reply> = vec![
        ReplyOf::Done,
        ReplyOf::Done,
        ReplyOf::Done,
        ReplyOf::Done,
        ReplyOf::Done,
        ReplyOf::Done,
    ];
    let mut link = Link::new(0, replies);
    let mut s = session(0, 0, 0);
    assert!(s.setup_vring_impl(0xfff0, &mut link).is_ok());
    assert_eq!((s.avail_idx, s.used_idx_seen), (0xfff0, 0xfff0));
    let m = replay(&link.log);
    assert_eq!((n16(&m, 0x2002), n16(&m, 0x3002), n16(&m, 0x2000)), (0xfff0, 0xfff0, 0));
    let calls = link.log.iter().filter(|a| matches!(a, ActionOf::SetVringEnable { on: true }));
    assert_eq!(calls.count(), 1);
}

#[test]
fn memory_is_written_and_read() {
    let replies: Vec<Reply> = vec![
        ReplyOf::Mapped { fd: 4, va: 0x1000 },
        ReplyOf::Bytes(vec![0x34, 0x12]),
        ReplyOf::Bytes(vec![1, 0, 0, 0x80]),
        ReplyOf::Bytes(vec![9]),
        ReplyOf::Bytes(vec![1, 2, 3]),
    ];
    let mut link = Link::new(0, replies);
    let m = match SharedMem::new(4096, &mut link) {
        Ok(m) => m,
        Err(_) => panic!("no memory"),
    };
    assert_eq!((m.fd(), m.base_va(), m.size()), (4, 0x1000, 4096));
    m.fill(10, 0xee, 3, &mut link);
    m.zero(11, 1, &mut link);
    m.w64(100, 0x0102_0304_0506_0708, &mut link);
    assert!(matches!(m.r16(0, &mut link), Ok(0x1234)));
    assert!(matches!(m.r32(0, &mut link), Ok(0x8000_0001)));
    assert!(matches!(m.r8(0, &mut link), Ok(9)));
    match m.rd(7, 3, &mut link) {
        Ok(b) => assert_eq!(b, vec![1, 2, 3]),
        Err(_) => panic!("no bytes"),
    }
    assert!(matches!(m.r8(0, &mut link), Err(Halt::Waiting)));
    let mem = replay(&link.log);
    assert_eq!(mem[10..13].to_vec(), vec![0xee, 0, 0xee]);
    assert_eq!(n64(&mem, 100), 0x0102_0304_0506_0708);
}

#[test]
fn sign_of_life_comes_after_a_pause() {
    let mut t = Trial::new(0, Vec::new());
    set_reconnect_delay(40, &mut t);
    alive("a.sock", &mut t);
    assert!(t.verdict().is_none());
    assert_eq!(t.link.log.len(), 2);
    assert!(matches!(t.link.log[0], ActionOf::Sleep { ms: 40 }));
    assert!(matches!(t.link.log[1], ActionOf::Connect { .. }));
    let mut t = Trial::new(0, Vec::new());
    reconnect_cooldown(&mut t);
    assert!(t.link.log.is_empty());
}

#[test]
fn chains_in_flight_are_both_found_in_memory() {
    let mut link = Link::new(0, Vec::new());
    let mut s = session(250, 0xffff, 0);
    let first = s.post(&[r(0x10_0000, 16), w(0x10_1000, 512), w(0x10_2000, 1)], &mut link);
    let second = s.post(&[r(0x10_3000, 16), r(0x10_4000, 8), w(0x10_5000, 1)], &mut link);
    assert_eq!((first, second), (250, 253));
    let m = replay(&link.log);
    assert_eq!(desc(&m, 0x1000 + 250 * 16), (0x10_0000, 16, 1, 251));
    assert_eq!(desc(&m, 0x1000 + 251 * 16), (0x10_1000, 512, 3, 252));
    assert_eq!(desc(&m, 0x1000 + 252 * 16), (0x10_2000, 1, 2, 253));
    assert_eq!(desc(&m, 0x1000 + 253 * 16), (0x10_3000, 16, 1, 254));
    assert_eq!(desc(&m, 0x1000 + 254 * 16), (0x10_4000, 8, 1, 255));
    assert_eq!(desc(&m, 0x1000 + 255 * 16), (0x10_5000, 1, 2, 0));
    assert_eq!((n16(&m, 0x2004 + 255 * 2), n16(&m, 0x2004)), (250, 253));
    assert_eq!(n16(&m, 0x2002), 1);
}

#[test]
fn read_and_flush_requests_are_found_in_memory() {
    let mut link = Link::new(0, Vec::new());
    let mut s = session(0, 0, 0);
    assert!(matches!(s.blk_read(5, 1024, &mut link), Err(Halt::Waiting)));
    let m = replay(&link.log);
    assert_eq!((n32(&m, 0x10_0000), n64(&m, 0x10_0008)), (0, 5));
    assert_eq!(m[0x10_2000], 0xff);
    assert_eq!(desc(&m, 0x1010), (0x10_1000, 1024, 3, 2));
    let mut link = Link::new(0, Vec::new());
    let mut s = session(0, 0, 0);
    assert!(matches!(s.blk_flush(&mut link), Err(Halt::Waiting)));
    let m = replay(&link.log);
    assert_eq!((n32(&m, 0x10_0000), n64(&m, 0x10_0008)), (4, 0));
    assert_eq!(m[0x10_1000], 0xff);
    assert_eq!(desc(&m, 0x1000), (0x10_0000, 16, 1, 1));
    assert_eq!(desc(&m, 0x1010), (0x10_1000, 1, 2, 2));
    assert_eq!(n16(&m, 0x2002), 1);
}

#[test]
fn handshake_sends_its_messages_in_order() {
    let mut config = vec![0u8; 60];
    config[1] = 0x10;
    config[21] = 0x10;
    let replies: Vec<Reply> = vec![
        ReplyOf::Done,
        ReplyOf::Done,
        ReplyOf::Number(0x1_6000_0200),
        ReplyOf::Done,
        ReplyOf::Number(0xffff),
        ReplyOf::Done,
        ReplyOf::Bytes(config),
        ReplyOf::Mapped { fd: 5, va: 0x9000_0000 },
        ReplyOf::Done,
        ReplyOf::Done,
        ReplyOf::Done,
    ];
    let mut link = Link::new(0, replies);
    let s = match Session::handshake("d.sock", true, false, &mut link) {
        Ok(s) => s,
        Err(_) => panic!("no session"),
    };
    assert_eq!((s.capacity_sectors(), s.blk_size()), (4096, 4096));
    assert_eq!((s.offered, s.acked, s.proto), (0x1_6000_0200, 0x1_4000_0200, 0x200));
    assert_eq!(link.log.len(), 11);
    match &link.log[0] {
        ActionOf::Connect { path } => assert_eq!(path, "d.sock"),
        _ => panic!("no connect"),
    }
    assert!(matches!(link.log[1], ActionOf::SetOwner));
    assert!(matches!(link.log[2], ActionOf::GetFeatures));
    assert!(matches!(link.log[3], ActionOf::SetFeatures { bits: 0x1_4000_0200 }));
    assert!(matches!(link.log[4], ActionOf::GetProtocolFeatures));
    assert!(matches!(link.log[5], ActionOf::SetProtocolFeatures { bits: 0x200 }));
    assert!(matches!(link.log[6], ActionOf::GetConfig { offset: 0, size: 60 }));
    assert!(matches!(link.log[7], ActionOf::MapMemory { .. }));
    assert!(matches!(link.log[8], ActionOf::OpenKick));
    assert!(matches!(link.log[9], ActionOf::OpenCall));
    match &link.log[10] {
        ActionOf::SetMemTable { region: Some(g) } => {
            assert_eq!((g.guest_phys_addr, g.memory_size), (0, REGION_SIZE as u64));
            assert_eq!(g.userspace_addr, 0x9000_0000);
        }
        _ => panic!("no table"),
    }
}
