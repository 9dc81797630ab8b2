//! Buffers and the requests of virtio-blk.

use vstd::prelude::*;

use crate::dev::{
    r, w, Desc, Session, REGION_SIZE, STATUS_POISON, TIMEOUT_MS, VIRTIO_BLK_T_FLUSH,
    VIRTIO_BLK_T_GET_ID, VIRTIO_BLK_T_IN, VIRTIO_BLK_T_OUT,
};
use crate::link;
use crate::link::{Got, Halt, Link};
use crate::mem;
use crate::model;
use crate::model::Line;

verus! {

/// A result that carries a status and bytes, read as what the operation came to.
pub open spec fn got_data(r: Result<(u8, Vec<u8>), Halt>) -> Got<(u8, Seq<u8>)> {
    match r {
        Ok(v) => Got::Value((v.0, v.1@)),
        Err(Halt::Fault(text)) => Got::Fault(text@),
        Err(Halt::Waiting) => Got::Waiting,
    }
}

impl Session {
    /// Tells whether a buffer of `len` bytes still fits into the region.
    pub fn has_room(&self, len: usize) -> (yes: bool)
        requires
            self.wf(),
        ensures
            yes == model::has_room(*self, len as int),
    {
        let start: usize = (self.next_data + 0xfff) / 0x1000 * 0x1000;
        let need: usize = if len < 1 {
            1
        } else {
            len
        };
        start <= REGION_SIZE && need <= REGION_SIZE - start
    }

    /// Tells whether the buffers of a request with a middle part of `len` bytes fit.
    pub fn has_room_for_three(&self, len: usize) -> (yes: bool)
        requires
            self.wf(),
        ensures
            yes == model::room_for_three(*self, len as int),
    {
        let mut s: Session = *self;
        if !s.has_room(16) {
            return false;
        }
        s.alloc_buf(16);
        if !s.has_room(len) {
            return false;
        }
        s.alloc_buf(len);
        s.has_room(1)
    }

    /// Tells whether the buffers of a request without a middle part fit.
    pub fn has_room_for_two(&self) -> (yes: bool)
        requires
            self.wf(),
        ensures
            yes == model::room_for_two(*self),
    {
        let mut s: Session = *self;
        if !s.has_room(16) {
            return false;
        }
        s.alloc_buf(16);
        s.has_room(1)
    }

    /// A buffer of `len` bytes at the start of the next free page.
    pub fn alloc_buf(&mut self, len: usize) -> (off: usize)
        requires
            old(self).wf(),
            model::has_room(*old(self), len as int),
        ensures
            off == model::next_buffer(*old(self)),
            *final(self) == model::allocated(*old(self), len as int),
            final(self).wf(),
            final(self).mem.covers(off as int, len as int),
    {
        let a: usize = (self.next_data + 0xfff) / 0x1000 * 0x1000;
        self.next_data = a + if len < 1 {
            1
        } else {
            len
        };
        a
    }

    /// Writes a request header.
    pub fn wr_hdr(&self, off: usize, req_type: u32, sector: u64, link: &mut Link)
        requires
            self.wf(),
            self.mem.covers(off as int, 16),
        ensures
            final(link)@ == old(link)@.tell_all(
                model::header_stores(off as int, req_type, sector),
            ),
    {
        self.mem.w32(off, req_type, link);
        self.mem.w32(off + 4, 0, link);
        self.mem.w64(off + 8, sector, link);
        assert(link@.log =~= old(link)@.log + model::header_stores(off as int, req_type, sector));
    }

    /// Reads a status byte.
    pub fn status_at(&self, off: usize, link: &mut Link) -> (r: Result<u8, Halt>)
        requires
            self.mem.covers(off as int, 1),
        ensures
            (final(link)@, link::got(r)) == mem::load_byte(old(link)@, off as int),
    {
        self.mem.r8(off, link)
    }

    fn poison(&self, off: usize, link: &mut Link)
        requires
            self.mem.covers(off as int, 1),
        ensures
            final(link)@ == old(link)@.tell(model::poison(off as int)),
    {
        let b: Vec<u8> = vec![STATUS_POISON];
        assert(b@ =~= seq![STATUS_POISON]);
        self.mem.wr(off, b.as_slice(), link);
    }

    fn submit_for_status(&mut self, descs: &[Desc], st: usize, link: &mut Link) -> (r: Result<
        u8,
        Halt,
    >)
        requires
            old(self).wf(),
            descs@.len() >= 1,
            old(self).mem.covers(st as int, 1),
        ensures
            (Line { s: *final(self), io: final(link)@ }, link::got(r)) == model::submit_for_status(
                Line { s: *old(self), io: old(link)@ },
                descs@,
                st as int,
            ),
            final(self).wf(),
    {
        match self.submit(descs, TIMEOUT_MS, link) {
            Ok(_) => self.status_at(st, link),
            Err(h) => Err(h),
        }
    }

    fn submit_for_data(
        &mut self,
        descs: &[Desc],
        dbuf: usize,
        len: usize,
        st: usize,
        link: &mut Link,
    ) -> (r: Result<(u8, Vec<u8>), Halt>)
        requires
            old(self).wf(),
            descs@.len() >= 1,
            old(self).mem.covers(dbuf as int, len as int),
            old(self).mem.covers(st as int, 1),
        ensures
            (Line { s: *final(self), io: final(link)@ }, got_data(r)) == model::submit_for_data(
                Line { s: *old(self), io: old(link)@ },
                descs@,
                dbuf as int,
                len as int,
                st as int,
            ),
            final(self).wf(),
    {
        match self.submit(descs, TIMEOUT_MS, link) {
            Ok(_) => match self.mem.rd(dbuf, len, link) {
                Ok(out) => match self.status_at(st, link) {
                    Ok(status) => Ok((status, out)),
                    Err(h) => Err(h),
                },
                Err(h) => Err(h),
            },
            Err(h) => Err(h),
        }
    }

    /// Writes `data` from `sector` on; returns the status.
    pub fn blk_write(&mut self, sector: u64, data: &[u8], link: &mut Link) -> (r: Result<u8, Halt>)
        requires
            old(self).wf(),
            model::room_for_three(*old(self), data@.len() as int),
        ensures
            (Line { s: *final(self), io: final(link)@ }, link::got(r)) == model::blk_write(
                Line { s: *old(self), io: old(link)@ },
                sector,
                data@,
            ),
            final(self).wf(),
    {
        let hdr: usize = self.alloc_buf(16);
        self.wr_hdr(hdr, VIRTIO_BLK_T_OUT, sector, link);
        let dbuf: usize = self.alloc_buf(data.len());
        self.mem.wr(dbuf, data, link);
        let st: usize = self.alloc_buf(1);
        self.poison(st, link);
        let descs: [Desc; 3] = [r(hdr, 16), r(dbuf, data.len()), w(st, 1)];
        assert(descs@ =~= seq![
            model::readable(hdr as int, 16),
            model::readable(dbuf as int, data@.len() as int),
            model::writable(st as int, 1),
        ]);
        self.submit_for_status(&descs, st, link)
    }

    fn blk_fetch(&mut self, req_type: u32, sector: u64, len: usize, link: &mut Link) -> (r: Result<
        (u8, Vec<u8>),
        Halt,
    >)
        requires
            old(self).wf(),
            model::room_for_three(*old(self), len as int),
        ensures
            (Line { s: *final(self), io: final(link)@ }, got_data(r)) == model::blk_fetch(
                Line { s: *old(self), io: old(link)@ },
                req_type,
                sector,
                len as int,
            ),
            final(self).wf(),
    {
        let hdr: usize = self.alloc_buf(16);
        self.wr_hdr(hdr, req_type, sector, link);
        let dbuf: usize = self.alloc_buf(len);
        self.mem.zero(dbuf, len, link);
        let st: usize = self.alloc_buf(1);
        self.poison(st, link);
        let descs: [Desc; 3] = [r(hdr, 16), w(dbuf, len), w(st, 1)];
        assert(descs@ =~= seq![
            model::readable(hdr as int, 16),
            model::writable(dbuf as int, len as int),
            model::writable(st as int, 1),
        ]);
        self.submit_for_data(&descs, dbuf, len, st, link)
    }

    /// Reads `len` bytes from `sector` on; returns the status and the bytes.
    pub fn blk_read(&mut self, sector: u64, len: usize, link: &mut Link) -> (r: Result<
        (u8, Vec<u8>),
        Halt,
    >)
        requires
            old(self).wf(),
            model::room_for_three(*old(self), len as int),
        ensures
            (Line { s: *final(self), io: final(link)@ }, got_data(r)) == model::blk_read(
                Line { s: *old(self), io: old(link)@ },
                sector,
                len as int,
            ),
            final(self).wf(),
    {
        self.blk_fetch(VIRTIO_BLK_T_IN, sector, len, link)
    }

    /// Flushes; returns the status.
    pub fn blk_flush(&mut self, link: &mut Link) -> (r: Result<u8, Halt>)
        requires
            old(self).wf(),
            model::room_for_two(*old(self)),
        ensures
            (Line { s: *final(self), io: final(link)@ }, link::got(r)) == model::blk_flush(
                Line { s: *old(self), io: old(link)@ },
            ),
            final(self).wf(),
    {
        let hdr: usize = self.alloc_buf(16);
        self.wr_hdr(hdr, VIRTIO_BLK_T_FLUSH, 0, link);
        let st: usize = self.alloc_buf(1);
        self.poison(st, link);
        let descs: [Desc; 2] = [r(hdr, 16), w(st, 1)];
        assert(descs@ =~= seq![model::readable(hdr as int, 16), model::writable(st as int, 1)]);
        self.submit_for_status(&descs, st, link)
    }

    /// Asks for the identity of the device; returns the status and its 20 bytes.
    pub fn blk_get_id(&mut self, link: &mut Link) -> (r: Result<(u8, Vec<u8>), Halt>)
        requires
            old(self).wf(),
            model::room_for_three(*old(self), 20),
        ensures
            (Line { s: *final(self), io: final(link)@ }, got_data(r)) == model::blk_get_id(
                Line { s: *old(self), io: old(link)@ },
            ),
            final(self).wf(),
    {
        self.blk_fetch(VIRTIO_BLK_T_GET_ID, 0, 20, link)
    }

    /// Discards or zeroes one run of sectors; returns the status. The header names no
    /// sector, the segment does.
    pub fn blk_zeroes_or_discard(
        &mut self,
        req_type: u32,
        sector: u64,
        num_sectors: u32,
        unmap: bool,
        link: &mut Link,
    ) -> (r: Result<u8, Halt>)
        requires
            old(self).wf(),
            model::room_for_three(*old(self), 16),
        ensures
            (Line { s: *final(self), io: final(link)@ }, link::got(r))
                == model::blk_zeroes_or_discard(
                Line { s: *old(self), io: old(link)@ },
                req_type,
                sector,
                num_sectors,
                unmap,
            ),
            final(self).wf(),
    {
        let hdr: usize = self.alloc_buf(16);
        self.wr_hdr(hdr, req_type, 0, link);
        let ghost before = link@;
        let payload: usize = self.alloc_buf(16);
        self.mem.w64(payload, sector, link);
        self.mem.w32(payload + 8, num_sectors, link);
        self.mem.w32(
            payload + 12,
            if unmap {
                1
            } else {
                0
            },
            link,
        );
        assert(link@.log =~= before.log + model::segment_stores(
            payload as int,
            sector,
            num_sectors,
            unmap,
        ));
        let st: usize = self.alloc_buf(1);
        self.poison(st, link);
        let descs: [Desc; 3] = [r(hdr, 16), r(payload, 16), w(st, 1)];
        assert(descs@ =~= seq![
            model::readable(hdr as int, 16),
            model::readable(payload as int, 16),
            model::writable(st as int, 1),
        ]);
        self.submit_for_status(&descs, st, link)
    }
}

} // verus!
