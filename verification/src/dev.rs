//! A correct vhost-user frontend over one split ring in shared memory, with the
//! requests of virtio-blk on top.
//!
//! Two kinds of addresses meet here. A descriptor holds a guest physical address,
//! which the backend translates through the start of the region in guest memory. The
//! ring itself is announced by addresses in this process. The region starts at guest
//! address zero, so the two never have the same value and a backend that takes one
//! for the other is found out.

use vstd::prelude::*;
use vstd::string::*;

use crate::features;
use crate::features::{VHOST_USER_F_PROTOCOL_FEATURES, VIRTIO_F_RING_EVENT_IDX};
use crate::le;
use crate::link;
use crate::link::{ActionOf, Got, Halt, Link, Region, VringConfig};
use crate::mem;
use crate::mem::SharedMem;
use crate::model;
use crate::model::Line;
use crate::text;

verus! {

// ---- geometry of memory and ring ---------------------------------------------

pub const QSZ: u16 = 256;

pub const GPA_BASE: u64 = 0;

pub const REGION_SIZE: usize = 0x400_0000;

/// The descriptor table.
pub const DESC_OFF: usize = 0x1000;

/// The available ring.
pub const AVAIL_OFF: usize = 0x2000;

/// The used ring.
pub const USED_OFF: usize = 0x3000;

/// The buffers.
pub const DATA_OFF: usize = 0x10_0000;

/// A sector of virtio-blk, whatever the block size of the device.
pub const SECTOR: usize = 512;

pub const TIMEOUT_MS: u64 = 5000;

// ---- ring flags --------------------------------------------------------------

pub const VRING_DESC_F_NEXT: u16 = 1;

pub const VRING_DESC_F_WRITE: u16 = 2;

pub const VRING_DESC_F_INDIRECT: u16 = 4;

pub const VRING_AVAIL_F_NO_INTERRUPT: u16 = 1;

// ---- request types and statuses ----------------------------------------------

pub const VIRTIO_BLK_T_IN: u32 = 0;

pub const VIRTIO_BLK_T_OUT: u32 = 1;

pub const VIRTIO_BLK_T_FLUSH: u32 = 4;

pub const VIRTIO_BLK_T_GET_ID: u32 = 8;

pub const VIRTIO_BLK_T_DISCARD: u32 = 11;

pub const VIRTIO_BLK_T_WRITE_ZEROES: u32 = 13;

pub const VIRTIO_BLK_S_OK: u8 = 0;

pub const VIRTIO_BLK_S_IOERR: u8 = 1;

pub const VIRTIO_BLK_S_UNSUPP: u8 = 2;

/// Stands in a status byte before the request: the device has not touched it.
pub const STATUS_POISON: u8 = 0xff;

/// One segment of a request.
#[derive(Clone, Copy)]
pub struct Desc {
    /// Where the buffer lies in the region, which is its guest address too.
    pub off: usize,
    pub len: u32,
    /// The device writes the segment.
    pub write: bool,
}

/// A segment that the device reads: a header, or data to be written.
pub fn r(off: usize, len: usize) -> (d: Desc)
    ensures
        d == model::readable(off as int, len as int),
{
    Desc { off, len: low_word(len), write: false }
}

/// A segment that the device writes: data that was read, or a status.
pub fn w(off: usize, len: usize) -> (d: Desc)
    ensures
        d == model::writable(off as int, len as int),
{
    Desc { off, len: low_word(len), write: true }
}

fn low_word(len: usize) -> (v: u32)
    ensures
        v == len as int % 0x1_0000_0000,
{
    (len as u64 % 0x1_0000_0000) as u32
}

#[derive(Clone, Copy, Debug)]
pub struct UsedElem {
    pub id: u32,
    pub len: u32,
}

/// A session: what was agreed on, and how far ring and buffers are used.
#[derive(Clone, Copy)]
pub struct Session {
    pub mem: SharedMem,
    pub proto: u64,
    pub acked: u64,
    pub capacity_sectors: u64,
    pub blk_size: u32,
    /// The block size as the configuration holds it, which may be no size at all.
    pub config_blk_size: u32,
    pub offered: u64,
    pub next_desc: u16,
    pub avail_idx: u16,
    pub used_idx_seen: u16,
    pub next_data: usize,
}

impl Session {
    /// The region has its size, the next descriptor is in the table, and the buffers
    /// given out so far lie in the data area.
    pub open spec fn wf(self) -> bool {
        &&& self.mem.size == REGION_SIZE
        &&& self.next_desc < QSZ
        &&& DATA_OFF <= self.next_data <= REGION_SIZE
    }

    fn agree_protocol(offered: u64, link: &mut Link) -> (r: Result<u64, Halt>)
        ensures
            (final(link)@, link::got(r)) == model::agree_protocol(old(link)@, offered),
    {
        if offered & VHOST_USER_F_PROTOCOL_FEATURES == 0 {
            return Ok(0);
        }
        match link.query(ActionOf::GetProtocolFeatures, "get_protocol_features") {
            Ok(have) => {
                let proto: u64 = features::protocol_common(have, features::protocol_config());
                match link.call(
                    ActionOf::SetProtocolFeatures { bits: proto },
                    "set_protocol_features",
                ) {
                    Ok(_) => Ok(proto),
                    Err(h) => Err(h),
                }
            },
            Err(h) => Err(h),
        }
    }

    fn negotiate(path: &str, want_event_idx: bool, mask_out: u64, link: &mut Link) -> (r: Result<
        (u64, u64, u64),
        Halt,
    >)
        ensures
            final(link)@ == model::negotiate(old(link)@, path@, want_event_idx, mask_out).0,
            match model::negotiate(old(link)@, path@, want_event_idx, mask_out).1 {
                Got::Value(terms) => r == Ok::<(u64, u64, u64), Halt>(
                    (terms.offered, terms.proto, terms.acked),
                ),
                Got::Fault(m) => r matches Err(Halt::Fault(text)) && text@ == m,
                Got::Waiting => r == Err::<(u64, u64, u64), Halt>(Halt::Waiting),
            },
    {
        match link.call(ActionOf::Connect { path: path.to_owned() }, "connect") {
            Ok(_) => {},
            Err(h) => {
                return Err(h);
            },
        }
        match link.call(ActionOf::SetOwner, "set_owner") {
            Ok(_) => {},
            Err(h) => {
                return Err(h);
            },
        }
        let offered: u64 = match link.query(ActionOf::GetFeatures, "get_features") {
            Ok(bits) => bits,
            Err(h) => {
                return Err(h);
            },
        };
        let mut acked: u64 = offered;
        if !want_event_idx {
            acked = acked & !VIRTIO_F_RING_EVENT_IDX;
        }
        acked = acked & !mask_out;
        match link.call(ActionOf::SetFeatures { bits: acked }, "set_features") {
            Ok(_) => {},
            Err(h) => {
                return Err(h);
            },
        }
        match Session::agree_protocol(offered, link) {
            Ok(proto) => Ok((offered, proto, acked)),
            Err(h) => Err(h),
        }
    }

    fn geometry(proto: u64, link: &mut Link) -> (r: Result<(u64, u32), Halt>)
        ensures
            (final(link)@, link::got(r)) == model::geometry(old(link)@, proto),
    {
        if features::protocol_contains(proto, features::protocol_config()) {
            match link.config(0, 60) {
                Ok(Some(payload)) => {
                    let cap: u64 = le::le64(payload.as_slice(), 0);
                    let bs: u32 = le::le32(payload.as_slice(), 20);
                    Ok((cap, bs))
                },
                Ok(None) => Ok((0, 512)),
                Err(h) => Err(h),
            }
        } else {
            Ok((0, 512))
        }
    }

    fn resources(link: &mut Link) -> (r: Result<SharedMem, Halt>)
        ensures
            (final(link)@, link::got(r)) == model::resources(old(link)@),
    {
        let memory = match SharedMem::new(REGION_SIZE, link) {
            Ok(m) => m,
            Err(h) => {
                return Err(h);
            },
        };
        match link.call(ActionOf::OpenKick, "eventfd kick") {
            Ok(_) => {},
            Err(h) => {
                return Err(h);
            },
        }
        match link.call(ActionOf::OpenCall, "eventfd call") {
            Ok(_) => Ok(memory),
            Err(h) => Err(h),
        }
    }

    /// Everything up to the ring, with some offered features left out. Of the protocol
    /// features only the configuration messages are agreed on: the others ask for a
    /// set-up that is not made here.
    pub fn handshake_masked(
        path: &str,
        do_mem_table: bool,
        want_event_idx: bool,
        mask_out: u64,
        link: &mut Link,
    ) -> (r: Result<Session, Halt>)
        ensures
            (final(link)@, link::got(r)) == model::handshake(
                old(link)@,
                path@,
                do_mem_table,
                want_event_idx,
                mask_out,
            ),
            r matches Ok(s) ==> s.wf(),
    {
        let agreed = Session::negotiate(path, want_event_idx, mask_out, link);
        let terms: (u64, u64, u64) = match agreed {
            Ok(terms) => terms,
            Err(h) => {
                return Err(h);
            },
        };
        let geo: (u64, u32) = match Session::geometry(terms.1, link) {
            Ok(geo) => geo,
            Err(h) => {
                return Err(h);
            },
        };
        let memory = match Session::resources(link) {
            Ok(memory) => memory,
            Err(h) => {
                return Err(h);
            },
        };
        let s = Session {
            mem: memory,
            proto: terms.1,
            acked: terms.2,
            capacity_sectors: geo.0,
            blk_size: if geo.1 == 0 {
                512
            } else {
                geo.1
            },
            config_blk_size: geo.1,
            offered: terms.0,
            next_desc: 0,
            avail_idx: 0,
            used_idx_seen: 0,
            next_data: DATA_OFF,
        };
        if do_mem_table {
            let region = s.region();
            match link.call(ActionOf::SetMemTable { region: Some(region) }, "set_mem_table") {
                Ok(_) => Ok(s),
                Err(h) => Err(h),
            }
        } else {
            Ok(s)
        }
    }

    /// Everything up to the ring; without `do_mem_table` not even the memory table.
    pub fn handshake(path: &str, do_mem_table: bool, want_event_idx: bool, link: &mut Link) -> (r:
        Result<Session, Halt>)
        ensures
            (final(link)@, link::got(r)) == model::handshake(
                old(link)@,
                path@,
                do_mem_table,
                want_event_idx,
                0,
            ),
            r matches Ok(s) ==> s.wf(),
    {
        Session::handshake_masked(path, do_mem_table, want_event_idx, 0, link)
    }

    fn connect_with(
        path: &str,
        want_event_idx: bool,
        mask_out: u64,
        base: u16,
        link: &mut Link,
    ) -> (r: Result<Session, Halt>)
        ensures
            (final(link)@, link::got(r)) == model::connect(
                old(link)@,
                path@,
                want_event_idx,
                mask_out,
                base,
            ),
            r matches Ok(s) ==> s.wf(),
    {
        match Session::handshake_masked(path, true, want_event_idx, mask_out, link) {
            Ok(s0) => {
                let mut s = s0;
                match s.setup_vring_impl(base, link) {
                    Ok(_) => Ok(s),
                    Err(h) => Err(h),
                }
            },
            Err(h) => Err(h),
        }
    }

    /// A session with its ring enabled and without the event index.
    pub fn connect(path: &str, link: &mut Link) -> (r: Result<Session, Halt>)
        ensures
            (final(link)@, link::got(r)) == model::connect(old(link)@, path@, false, 0, 0),
            r matches Ok(s) ==> s.wf(),
    {
        Session::connect_with(path, false, 0, 0, link)
    }

    /// The same, with the event index if it is offered.
    pub fn connect_event_idx(path: &str, link: &mut Link) -> (r: Result<Session, Halt>)
        ensures
            (final(link)@, link::got(r)) == model::connect(old(link)@, path@, true, 0, 0),
            r matches Ok(s) ==> s.wf(),
    {
        Session::connect_with(path, true, 0, 0, link)
    }

    /// The same, with all features but those masked out. It shows whether the backend
    /// goes by what was agreed on, and not by what it can do.
    pub fn connect_masking(path: &str, mask_out: u64, link: &mut Link) -> (r: Result<Session, Halt>)
        ensures
            (final(link)@, link::got(r)) == model::connect(old(link)@, path@, false, mask_out, 0),
            r matches Ok(s) ==> s.wf(),
    {
        Session::connect_with(path, false, mask_out, 0, link)
    }

    /// The same, with both ring indices at `base`.
    pub fn connect_at_base(path: &str, base: u16, link: &mut Link) -> (r: Result<Session, Halt>)
        ensures
            (final(link)@, link::got(r)) == model::connect(old(link)@, path@, false, 0, base),
            r matches Ok(s) ==> s.wf(),
    {
        Session::connect_with(path, false, 0, base, link)
    }

    fn region(&self) -> (region: Region)
        ensures
            region == model::region_of(self.mem),
    {
        Region {
            guest_phys_addr: GPA_BASE,
            memory_size: REGION_SIZE as u64,
            userspace_addr: self.mem.base_va(),
            mmap_offset: 0,
            mmap_handle: self.mem.fd(),
        }
    }

    /// The announcement of the ring with the descriptor table at `desc_off`.
    pub fn ring_config(&self, desc_off: usize) -> (config: VringConfig)
        ensures
            config == model::ring_config(self.mem.base, desc_off as int),
    {
        let va: u64 = self.mem.base_va();
        VringConfig {
            queue_max_size: QSZ,
            queue_size: QSZ,
            flags: 0,
            desc_table_addr: va.wrapping_add(desc_off as u64),
            avail_ring_addr: va.wrapping_add(AVAIL_OFF as u64),
            used_ring_addr: va.wrapping_add(USED_OFF as u64),
            log_addr: None,
        }
    }

    /// The ring with both indices at zero.
    pub fn setup_vring(&mut self, link: &mut Link) -> (r: Result<(), Halt>)
        requires
            old(self).wf(),
        ensures
            (Line { s: *final(self), io: final(link)@ }, link::got(r)) == model::setup_vring(
                Line { s: *old(self), io: old(link)@ },
                0,
            ),
            final(self).wf(),
    {
        self.setup_vring_impl(0, link)
    }

    /// The ring with both indices at `base_idx`, here and in memory, so that the device
    /// and this side start from the same value.
    pub fn setup_vring_impl(&mut self, base_idx: u16, link: &mut Link) -> (r: Result<(), Halt>)
        requires
            old(self).wf(),
        ensures
            (Line { s: *final(self), io: final(link)@ }, link::got(r)) == model::setup_vring(
                Line { s: *old(self), io: old(link)@ },
                base_idx,
            ),
            final(self).wf(),
    {
        self.mem.zero(DESC_OFF, DATA_OFF - DESC_OFF, link);
        match link.call(ActionOf::SetVringNum { num: QSZ }, "set_vring_num") {
            Ok(_) => {},
            Err(h) => {
                return Err(h);
            },
        }
        let config = self.ring_config(DESC_OFF);
        match link.call(ActionOf::SetVringAddr { config }, "set_vring_addr") {
            Ok(_) => {},
            Err(h) => {
                return Err(h);
            },
        }
        match link.call(ActionOf::SetVringBase { base: base_idx }, "set_vring_base") {
            Ok(_) => {},
            Err(h) => {
                return Err(h);
            },
        }
        if base_idx != 0 {
            self.mem.w16(AVAIL_OFF + 2, base_idx, link);
            self.mem.w16(USED_OFF + 2, base_idx, link);
            self.avail_idx = base_idx;
            self.used_idx_seen = base_idx;
        }
        match link.call(ActionOf::SetVringKick, "set_vring_kick") {
            Ok(_) => {},
            Err(h) => {
                return Err(h);
            },
        }
        match link.call(ActionOf::SetVringCall, "set_vring_call") {
            Ok(_) => {},
            Err(h) => {
                return Err(h);
            },
        }
        if self.acked & VHOST_USER_F_PROTOCOL_FEATURES != 0 {
            match link.call(ActionOf::SetVringEnable { on: true }, "set_vring_enable") {
                Ok(_) => {},
                Err(h) => {
                    return Err(h);
                },
            }
        }
        Ok(())
    }

    // ---- what is known of the device -------------------------------------------

    pub fn capacity_sectors(&self) -> (n: u64)
        ensures
            n == self.capacity_sectors,
    {
        self.capacity_sectors
    }

    pub fn blk_size(&self) -> (n: u32)
        ensures
            n == self.blk_size,
    {
        self.blk_size
    }

    /// The block size as the configuration holds it; one sector if it was not read.
    pub fn config_blk_size(&self) -> (n: u32)
        ensures
            n == self.config_blk_size,
    {
        self.config_blk_size
    }

    /// The feature was acknowledged.
    pub fn has_feature(&self, bit: u64) -> (yes: bool)
        ensures
            yes == (self.acked & bit != 0),
    {
        self.acked & bit != 0
    }

    /// The feature was offered, acknowledged or not.
    pub fn offered_has(&self, bit: u64) -> (yes: bool)
        ensures
            yes == (self.offered & bit != 0),
    {
        self.offered & bit != 0
    }

    /// All of these protocol features were agreed on.
    pub fn has_proto(&self, f: u64) -> (yes: bool)
        ensures
            yes == (self.proto & f == f),
    {
        features::protocol_contains(self.proto, f)
    }

    pub fn base_va(&self) -> (va: u64)
        ensures
            va == self.mem.base,
    {
        self.mem.base_va()
    }

    /// The device's position in the available ring; asking stops the ring.
    pub fn get_vring_base(&self, link: &mut Link) -> (r: Result<u32, Halt>)
        ensures
            (final(link)@, link::got(r)) == model::vring_base(old(link)@),
    {
        match link.query(ActionOf::GetVringBase, "get_vring_base") {
            Ok(n) => if n <= 0xffff_ffff {
                Ok(n as u32)
            } else {
                Err(Halt::Waiting)
            },
            Err(h) => Err(h),
        }
    }

    /// Forgets a signal of the device that has come in.
    pub fn drain_call(&self, link: &mut Link)
        ensures
            final(link)@ == old(link)@.tell(ActionOf::DrainCall),
    {
        link.tell(ActionOf::DrainCall);
    }

    /// Tells whether the device signals in time. How the time is waited out, whatever its
    /// length, `ring::poll_call` decides.
    pub fn wait_call(&self, timeout_ms: u64, link: &mut Link) -> (r: Result<bool, Halt>)
        ensures
            (final(link)@, link::got(r)) == old(link)@.await_call(timeout_ms),
    {
        link.await_call(timeout_ms)
    }
}

} // verus!
