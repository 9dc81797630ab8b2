//! The guest memory that is shared with the backend.
//!
//! The other side reads and changes these bytes at any time, so nothing of them is
//! kept here: a write is an action, in its order among the other actions, and a
//! read is a question to the outside.

use vstd::prelude::*;

use crate::le;
use crate::link;
use crate::link::{Act, ActionOf, Got, Halt, Link, Talk};

verus! {

/// A shared region: its descriptor, its address in this process, and its size.
#[derive(Clone, Copy)]
pub struct SharedMem {
    pub fd: i32,
    pub base: u64,
    pub size: usize,
}

/// The store of `data` at `off`.
pub open spec fn store(off: int, data: Seq<u8>) -> Act {
    ActionOf::Store { off: off as usize, data }
}

/// The store of the `n` low bytes of `v` at `off`.
pub open spec fn store_le(off: int, v: nat, n: nat) -> Act {
    store(off, le::le_bytes(v, n))
}

/// `len` times the same byte.
pub open spec fn repeated(byte: u8, len: nat) -> Seq<u8> {
    Seq::new(len, |i: int| byte)
}

/// Memory after `data` has been stored at `off`.
pub open spec fn overwritten(mem: Seq<u8>, off: int, data: Seq<u8>) -> Seq<u8> {
    Seq::new(
        mem.len(),
        |i: int|
            if off <= i < off + data.len() {
                data[i - off]
            } else {
                mem[i]
            },
    )
}

/// Memory after the stores among `log`, in order.
pub open spec fn replayed(mem: Seq<u8>, log: Seq<Act>) -> Seq<u8>
    decreases log.len(),
{
    if log.len() == 0 {
        mem
    } else {
        let before = replayed(mem, log.drop_last());
        match log.last() {
            ActionOf::Store { off, data } => overwritten(before, off as int, data),
            _ => before,
        }
    }
}

/// A read of `n` bytes as a little-endian value.
pub open spec fn load_le(t: Talk, off: int, n: nat) -> (Talk, Got<nat>) {
    let (t2, g) = t.load(off as usize, n as usize);
    (
        t2,
        match g {
            Got::Value(b) => Got::Value(le::le_value(b)),
            Got::Fault(m) => Got::Fault(m),
            Got::Waiting => Got::Waiting,
        },
    )
}

/// `len` times `byte`.
fn run_of(byte: u8, len: usize) -> (v: Vec<u8>)
    ensures
        v@ == repeated(byte, len as nat),
{
    let v: Vec<u8> = vec![byte; len];
    assert(v@ =~= repeated(byte, len as nat));
    v
}

impl SharedMem {
    /// The region covers `len` bytes from `off` on.
    pub open spec fn covers(self, off: int, len: int) -> bool {
        0 <= off && off + len <= self.size
    }

    /// A fresh zeroed region of `size` bytes.
    pub fn new(size: usize, link: &mut Link) -> (r: Result<SharedMem, Halt>)
        ensures
            final(link)@ == old(link)@.map(size).0,
            match old(link)@.map(size).1 {
                Got::Value((fd, va)) => r == Ok::<SharedMem, Halt>(
                    SharedMem { fd, base: va, size },
                ),
                Got::Fault(text) => r matches Err(Halt::Fault(m)) && m@ == text,
                Got::Waiting => r == Err::<SharedMem, Halt>(Halt::Waiting),
            },
    {
        match link.map(size) {
            Ok(m) => Ok(SharedMem { fd: m.0, base: m.1, size }),
            Err(h) => Err(h),
        }
    }

    pub fn fd(&self) -> (fd: i32)
        ensures
            fd == self.fd,
    {
        self.fd
    }

    pub fn base_va(&self) -> (va: u64)
        ensures
            va == self.base,
    {
        self.base
    }

    pub fn size(&self) -> (size: usize)
        ensures
            size == self.size,
    {
        self.size
    }

    pub fn wr(&self, off: usize, data: &[u8], link: &mut Link)
        requires
            self.covers(off as int, data@.len() as int),
        ensures
            final(link)@ == old(link)@.tell(store(off as int, data@)),
    {
        link.tell(ActionOf::Store { off, data: link::copy_of(data) });
    }

    /// `len` bytes from `off` on.
    pub fn rd(&self, off: usize, len: usize, link: &mut Link) -> (r: Result<Vec<u8>, Halt>)
        requires
            self.covers(off as int, len as int),
        ensures
            (final(link)@, link::got_bytes(r)) == old(link)@.load(off, len),
            r matches Ok(b) ==> b@.len() == len,
    {
        link.load(off, len)
    }

    pub fn zero(&self, off: usize, len: usize, link: &mut Link)
        requires
            self.covers(off as int, len as int),
        ensures
            final(link)@ == old(link)@.tell(store(off as int, repeated(0, len as nat))),
    {
        link.tell(ActionOf::Store { off, data: run_of(0, len) });
    }

    pub fn fill(&self, off: usize, byte: u8, len: usize, link: &mut Link)
        requires
            self.covers(off as int, len as int),
        ensures
            final(link)@ == old(link)@.tell(store(off as int, repeated(byte, len as nat))),
    {
        link.tell(ActionOf::Store { off, data: run_of(byte, len) });
    }

    pub fn w16(&self, off: usize, v: u16, link: &mut Link)
        requires
            self.covers(off as int, 2),
        ensures
            final(link)@ == old(link)@.tell(store_le(off as int, v as nat, 2)),
    {
        link.tell(ActionOf::Store { off, data: le::to_le(v as u64, 2) });
    }

    pub fn w32(&self, off: usize, v: u32, link: &mut Link)
        requires
            self.covers(off as int, 4),
        ensures
            final(link)@ == old(link)@.tell(store_le(off as int, v as nat, 4)),
    {
        link.tell(ActionOf::Store { off, data: le::to_le(v as u64, 4) });
    }

    pub fn w64(&self, off: usize, v: u64, link: &mut Link)
        requires
            self.covers(off as int, 8),
        ensures
            final(link)@ == old(link)@.tell(store_le(off as int, v as nat, 8)),
    {
        link.tell(ActionOf::Store { off, data: le::to_le(v, 8) });
    }

    pub fn r16(&self, off: usize, link: &mut Link) -> (r: Result<u16, Halt>)
        requires
            self.covers(off as int, 2),
        ensures
            final(link)@ == load_le(old(link)@, off as int, 2).0,
            match load_le(old(link)@, off as int, 2).1 {
                Got::Value(v) => r matches Ok(x) && x == v,
                Got::Fault(_) => false,
                Got::Waiting => r == Err::<u16, Halt>(Halt::Waiting),
            },
    {
        match link.load(off, 2) {
            Ok(b) => {
                assert(le::window(b@, 0, 2) =~= b@);
                Ok(le::le16(b.as_slice(), 0))
            },
            Err(h) => Err(h),
        }
    }

    pub fn r32(&self, off: usize, link: &mut Link) -> (r: Result<u32, Halt>)
        requires
            self.covers(off as int, 4),
        ensures
            final(link)@ == load_le(old(link)@, off as int, 4).0,
            match load_le(old(link)@, off as int, 4).1 {
                Got::Value(v) => r matches Ok(x) && x == v,
                Got::Fault(_) => false,
                Got::Waiting => r == Err::<u32, Halt>(Halt::Waiting),
            },
    {
        match link.load(off, 4) {
            Ok(b) => {
                assert(le::window(b@, 0, 4) =~= b@);
                Ok(le::le32(b.as_slice(), 0))
            },
            Err(h) => Err(h),
        }
    }

    pub fn r8(&self, off: usize, link: &mut Link) -> (r: Result<u8, Halt>)
        requires
            self.covers(off as int, 1),
        ensures
            (final(link)@, link::got(r)) == load_byte(old(link)@, off as int),
    {
        match link.load(off, 1) {
            Ok(b) => Ok(b[0]),
            Err(h) => Err(h),
        }
    }
}

/// A read of one byte.
pub open spec fn load_byte(t: Talk, off: int) -> (Talk, Got<u8>) {
    let (t2, g) = t.load(off as usize, 1);
    (
        t2,
        match g {
            Got::Value(b) => Got::Value(b[0]),
            Got::Fault(m) => Got::Fault(m),
            Got::Waiting => Got::Waiting,
        },
    )
}

} // verus!
