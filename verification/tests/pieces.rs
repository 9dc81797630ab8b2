//! Checks, patterns, numbers and little-endian values.

use vhost_blk_conformance::checks::{
    all_zero, expect_ok, first_diff, need_cap, pat, same, TestErr, TR, WORK,
};
use vhost_blk_conformance::dev::{
    r, w, Session, DATA_OFF, QSZ, REGION_SIZE, SECTOR, STATUS_POISON, TIMEOUT_MS,
};
use vhost_blk_conformance::features;
use vhost_blk_conformance::le::{le16, le32, le64, to_le};
use vhost_blk_conformance::mem::SharedMem;
use vhost_blk_conformance::ring::{poll_call, poll_used, wrong_id, CallPoll, Poll};
use vhost_blk_conformance::text::{dec, hex, hex_of_byte, list_of_bytes};
use vhost_blk_conformance::words::parse_or_zero;

fn failure(r: TR) -> String {
    match r {
        Err(TestErr::Fail(m)) => m,
        _ => panic!("no failure"),
    }
}

fn session() -> Session {
    Session {
        mem: SharedMem { fd: 3, base: 0x1000_0000, size: REGION_SIZE },
        proto: 0x200,
        acked: features::VIRTIO_BLK_F_FLUSH | features::VIRTIO_F_VERSION_1,
        capacity_sectors: 4096,
        blk_size: 512,
        config_blk_size: 512,
        offered: features::VIRTIO_BLK_F_FLUSH
            | features::VIRTIO_F_VERSION_1
            | features::VIRTIO_BLK_F_DISCARD,
        next_desc: 0,
        avail_idx: 0,
        used_idx_seen: 0,
        next_data: DATA_OFF,
    }
}

#[test]
fn pattern_follows_its_formula() {
    for seed in [0u8, 1, 0x5a, 0xa5, 0xff] {
        let v = pat(seed, 1000);
        assert_eq!(v.len(), 1000);
        for (i, b) in v.iter().enumerate() {
            assert_eq!(*b, seed ^ (i as u8).wrapping_mul(31).wrapping_add((i >> 8) as u8));
        }
    }
    assert_eq!(pat(0x10, 4), vec![0x10, 0x0f, 0x2e, 0x4d]);
    assert!(pat(7, 0).is_empty());
}

#[test]
fn pattern_tells_positions_and_seeds_apart() {
    let a = pat(0x21, 70000);
    let b = pat(0x22, 70000);
    for i in 0..a.len() {
        assert_ne!(a[i], b[i]);
    }
    for i in 0..256 {
        for j in 0..i {
            assert_ne!(a[i], a[j]);
        }
    }
    for k in 1..128 {
        for i in 0..512 {
            assert_ne!(a[i], a[i + k * 512]);
        }
    }
}

#[test]
fn first_difference() {
    assert_eq!(first_diff(&[1, 2, 3], &[1, 2, 3]), None);
    assert_eq!(first_diff(&[1, 2, 3], &[1, 9, 8]), Some(1));
    assert_eq!(first_diff(&[1, 2], &[1, 2, 3]), Some(2));
    assert_eq!(first_diff(&[1, 2, 3], &[9, 2]), Some(0));
    assert_eq!(first_diff(&[9, 9, 9], &[1]), Some(0));
    assert_eq!(first_diff(&[9, 9, 9], &[9]), Some(1));
    assert_eq!(first_diff(&[], &[7]), Some(0));
    assert_eq!(first_diff(&[], &[]), None);
}

#[test]
fn same_bytes_or_a_text() {
    assert!(same("x", &[1, 2], &[1, 2]).is_ok());
    assert_eq!(
        failure(same("data", &[1, 2, 3], &[1, 2, 0xab])),
        "data: расхождение на байте 2 из 3 (got=0x03 want=0xab)"
    );
    assert_eq!(
        failure(same("data", &[1], &[1, 7])),
        "data: расхождение на байте 1 из 2 (got=0x00 want=0x07)"
    );
}

#[test]
fn status_ok_or_a_text() {
    assert!(expect_ok("read", 0).is_ok());
    assert_eq!(failure(expect_ok("read", 2)), "read: status=2 (ожидался OK=0)");
    assert_eq!(
        failure(expect_ok("read", STATUS_POISON)),
        "read: status=255 (ожидался OK=0)"
    );
}

#[test]
fn zeroes_or_a_text() {
    assert!(all_zero("z", &[0, 0, 0]).is_ok());
    assert!(all_zero("z", &[]).is_ok());
    assert_eq!(failure(all_zero("z", &[0, 0, 0x1f, 1])), "z: байт 2 не ноль (0x1f)");
}

#[test]
fn text_is_a_failure() {
    match TestErr::from("boom".to_string()) {
        TestErr::Fail(m) => assert_eq!(m, "boom"),
        TestErr::Skip(_) => panic!("skip"),
    }
}

#[test]
fn capacity_is_needed() {
    let mut s = session();
    assert!(matches!(need_cap(&s, 4), Ok(4096)));
    s.capacity_sectors = WORK + 4 + 8;
    assert!(matches!(need_cap(&s, 4), Ok(2060)));
    s.capacity_sectors = WORK + 4 + 7;
    match need_cap(&s, 4) {
        Err(TestErr::Skip(m)) => assert_eq!(m, "диск мал: 2059 секторов"),
        _ => panic!("no skip"),
    }
    s.capacity_sectors = 0;
    match need_cap(&s, 4) {
        Err(TestErr::Skip(m)) => assert_eq!(m, "ёмкость неизвестна (нет PROTOCOL_F_CONFIG)"),
        _ => panic!("no skip"),
    }
}

#[test]
fn segments() {
    let d = r(0x10_0000, 16);
    assert_eq!((d.off, d.len, d.write), (0x10_0000, 16, false));
    let d = w(0x10_1000, 1);
    assert_eq!((d.off, d.len, d.write), (0x10_1000, 1, true));
    let d = w(0, 0x1_0000_0005);
    assert_eq!(d.len, 5);
}

#[test]
fn features_of_a_session() {
    let s = session();
    assert!(s.has_feature(features::VIRTIO_BLK_F_FLUSH));
    assert!(!s.has_feature(features::VIRTIO_BLK_F_DISCARD));
    assert!(s.offered_has(features::VIRTIO_BLK_F_DISCARD));
    assert!(!s.offered_has(features::VIRTIO_BLK_F_RO));
    assert!(s.has_proto(features::PROTOCOL_CONFIG));
    assert!(s.has_proto(0));
    assert!(!s.has_proto(0x201));
    assert!(!s.has_proto(1));
    assert_eq!(s.capacity_sectors(), 4096);
    assert_eq!(s.blk_size(), 512);
    assert_eq!(s.base_va(), 0x1000_0000);
}

#[test]
fn feature_bits() {
    assert_eq!(features::VIRTIO_F_RING_INDIRECT_DESC, 1 << 28);
    assert_eq!(features::VIRTIO_F_RING_EVENT_IDX, 1 << 29);
    assert_eq!(features::VHOST_USER_F_PROTOCOL_FEATURES, 1 << 30);
    assert_eq!(features::VIRTIO_F_VERSION_1, 1 << 32);
    assert_eq!(features::VIRTIO_BLK_F_RO, 1 << 5);
    assert_eq!(features::VIRTIO_BLK_F_BLK_SIZE, 1 << 6);
    assert_eq!(features::VIRTIO_BLK_F_FLUSH, 1 << 9);
    assert_eq!(features::VIRTIO_BLK_F_MQ, 1 << 12);
    assert_eq!(features::VIRTIO_BLK_F_DISCARD, 1 << 13);
    assert_eq!(features::VIRTIO_BLK_F_WRITE_ZEROES, 1 << 14);
    assert_eq!(
        features::PROTOCOL_CONFIG,
        vhost::vhost_user::message::VhostUserProtocolFeatures::CONFIG.bits()
    );
    assert_eq!((QSZ, SECTOR, TIMEOUT_MS), (256, 512, 5000));
}

#[test]
fn buffers_start_pages_and_stay_apart() {
    let mut s = session();
    assert!(s.has_room(16));
    assert_eq!(s.alloc_buf(16), 0x10_0000);
    assert_eq!(s.alloc_buf(0), 0x10_1000);
    assert_eq!(s.alloc_buf(4097), 0x10_2000);
    assert_eq!(s.alloc_buf(1), 0x10_4000);
    assert_eq!(s.next_data, 0x10_4001);
    let rest = REGION_SIZE - 0x10_5000;
    assert!(s.has_room(rest));
    assert!(!s.has_room(rest + 1));
    assert_eq!(s.alloc_buf(rest), 0x10_5000);
    assert!(!s.has_room(0));
    assert!(!s.has_room_for_two());
    assert!(!s.has_room_for_three(1));
}

#[test]
fn polls_of_the_used_index() {
    assert!(poll_used(3, 4, 0, 300) == Poll::Ready);
    assert!(poll_used(3, 4, 900, 300) == Poll::Ready);
    assert!(poll_used(0xffff, 0, 0, 300) == Poll::Ready);
    assert!(poll_used(3, 3, 299, 300) == Poll::Again);
    assert!(poll_used(3, 3, 300, 300) == Poll::TimedOut);
}

#[test]
fn polls_of_the_signal() {
    assert!(poll_call(true, 0, 1000) == CallPoll::Ready);
    assert!(poll_call(true, 2000, 1000) == CallPoll::Ready);
    assert!(poll_call(true, 0, 0) == CallPoll::Ready);
    assert!(poll_call(false, 0, 0) == CallPoll::TimedOut);
    assert!(poll_call(false, 1000, 1000) == CallPoll::TimedOut);
    assert!(poll_call(false, u64::MAX, 1000) == CallPoll::TimedOut);
    assert!(poll_call(false, 0, 1000) == CallPoll::Wait(1000));
    assert!(poll_call(false, 999, 1000) == CallPoll::Wait(1));
    assert!(poll_call(false, 0, 0x7fff_ffff) == CallPoll::Wait(0x7fff_ffff));
    assert!(poll_call(false, 0, 0x8000_0000) == CallPoll::Wait(0x7fff_ffff));
    assert!(poll_call(false, 0x7fff_ffff, 0x8000_0000) == CallPoll::Wait(1));
    assert!(poll_call(false, 5, u64::MAX) == CallPoll::Wait(0x7fff_ffff));
}

#[test]
fn long_waits_are_waited_out() {
    let timeout = 0xffff_ffffu64;
    let mut elapsed = 0u64;
    let mut waits = 0;
    while let CallPoll::Wait(ms) = poll_call(false, elapsed, timeout) {
        assert!(ms > 0);
        elapsed += ms as u64;
        waits += 1;
    }
    assert_eq!((elapsed, waits), (timeout, 3));
}

#[test]
fn foreign_completion_text() {
    assert_eq!(wrong_id(4294967295, 12), "used.id=4294967295 != head=12");
}

#[test]
fn little_endian_values() {
    assert_eq!(to_le(0x1122_3344_5566_7788, 8), 0x1122_3344_5566_7788u64.to_le_bytes().to_vec());
    assert_eq!(to_le(0x1234, 2), vec![0x34, 0x12]);
    assert_eq!(to_le(0x12345, 2), vec![0x45, 0x23]);
    let b = [1u8, 2, 3, 4, 5, 6, 7, 8, 9];
    assert_eq!(le64(&b, 0), 0x0807_0605_0403_0201);
    assert_eq!(le64(&b, 1), 0x0908_0706_0504_0302);
    assert_eq!(le64(&b, 7), 0x0908);
    assert_eq!(le64(&b, 20), 0);
    assert_eq!(le32(&b, 2), 0x0605_0403);
    assert_eq!(le32(&b, 8), 9);
    assert_eq!(le16(&b, 3), 0x0504);
}

#[test]
fn numerals() {
    for n in [0u64, 7, 10, 99, 100, 4096, 65535, 1234567890123456789, u64::MAX] {
        assert_eq!(dec(n), format!("{}", n));
        assert_eq!(parse_or_zero(&dec(n)), n);
        assert_eq!(hex(n), format!("{:#x}", n));
    }
    for b in 0..=255u8 {
        assert_eq!(hex_of_byte(b), format!("{:#04x}", b));
    }
    let v = vec![0u8, 32, 255];
    assert_eq!(format!("[{}]", list_of_bytes(&v, 3)), format!("{:?}", v));
    assert_eq!(list_of_bytes(&v, 1), "0");
    assert_eq!(list_of_bytes(&v, 0), "");
}
