//! The split ring of a session: posting chains and taking completions.

use vstd::prelude::*;
use vstd::string::*;

use crate::dev::{
    Desc, Session, UsedElem, AVAIL_OFF, DESC_OFF, GPA_BASE, QSZ, REGION_SIZE, USED_OFF,
    VRING_DESC_F_INDIRECT, VRING_DESC_F_NEXT, VRING_DESC_F_WRITE,
};
use crate::le;
use crate::link;
use crate::link::{ActionOf, Halt, Link, Talk};
use crate::mem;
use crate::model;
use crate::model::Line;
use crate::text;

verus! {

/// What a look at the used index says.
#[derive(Clone, Copy, PartialEq, Eq, Structural)]
pub enum Poll {
    /// An element is there.
    Ready,
    /// None came in time.
    TimedOut,
    /// Look again.
    Again,
}

/// What to do after a look at the used index: an element counts even if it is seen
/// only after the time is over.
pub fn poll_used(seen: u16, index: u16, elapsed_ms: u64, timeout_ms: u64) -> (p: Poll)
    ensures
        p == (if index != seen {
            Poll::Ready
        } else if elapsed_ms >= timeout_ms {
            Poll::TimedOut
        } else {
            Poll::Again
        }),
{
    if index != seen {
        Poll::Ready
    } else if elapsed_ms >= timeout_ms {
        Poll::TimedOut
    } else {
        Poll::Again
    }
}

/// What a look for the device's signal says.
#[derive(Clone, Copy, PartialEq, Eq, Structural)]
pub enum CallPoll {
    /// The signal is there.
    Ready,
    /// It did not come in time.
    TimedOut,
    /// Wait for it for so many milliseconds, and look again.
    Wait(i32),
}

/// How long to wait at a time, with so much of the time over: what is left of it, or the
/// longest wait that can be asked for at once.
pub open spec fn next_wait(elapsed_ms: u64, timeout_ms: u64) -> int {
    if timeout_ms - elapsed_ms <= i32::MAX {
        timeout_ms - elapsed_ms
    } else {
        i32::MAX as int
    }
}

/// What to do after a look for the device's signal. The signal counts even if it is seen
/// only after the time is over; until then the waits go on, and none of them reaches past
/// the end of the time.
pub fn poll_call(came: bool, elapsed_ms: u64, timeout_ms: u64) -> (p: CallPoll)
    ensures
        p == (if came {
            CallPoll::Ready
        } else if elapsed_ms >= timeout_ms {
            CallPoll::TimedOut
        } else {
            CallPoll::Wait(next_wait(elapsed_ms, timeout_ms) as i32)
        }),
        p matches CallPoll::Wait(ms) ==> 0 < ms && elapsed_ms + ms <= timeout_ms,
{
    if came {
        return CallPoll::Ready;
    }
    if elapsed_ms >= timeout_ms {
        return CallPoll::TimedOut;
    }
    let left: u64 = timeout_ms - elapsed_ms;
    if left <= 0x7fff_ffff {
        CallPoll::Wait(left as i32)
    } else {
        CallPoll::Wait(0x7fff_ffff)
    }
}

/// Waits that last as long as they are asked to last make up the whole time, however long
/// it is: the wait that is asked for either ends it, or leaves less of it than before.
pub proof fn waits_make_up_the_time(elapsed_ms: u64, timeout_ms: u64)
    requires
        elapsed_ms < timeout_ms,
    ensures
        0 < next_wait(elapsed_ms, timeout_ms) <= i32::MAX,
        elapsed_ms + next_wait(elapsed_ms, timeout_ms) <= timeout_ms,
        next_wait(elapsed_ms, timeout_ms) < i32::MAX ==> elapsed_ms + next_wait(
            elapsed_ms,
            timeout_ms,
        ) == timeout_ms,
{
}

fn flags_of(descs: &[Desc], i: usize) -> (flags: u16)
    requires
        i < descs@.len(),
    ensures
        flags == model::flags_in(descs@, i as int),
{
    let write: u16 = if descs[i].write {
        VRING_DESC_F_WRITE
    } else {
        0
    };
    let next: u16 = if descs.len() - i > 1 {
        VRING_DESC_F_NEXT
    } else {
        0
    };
    write + next
}

proof fn lemma_tells(t: Talk, acts: Seq<link::Act>, more: Seq<link::Act>)
    ensures
        t.tell_all(acts).tell_all(more) == t.tell_all(acts + more),
        t.tell_all(Seq::empty()) == t,
{
    assert(t.log + acts + more =~= t.log + (acts + more));
    assert(t.log + Seq::<link::Act>::empty() =~= t.log);
}

impl Session {
    /// Writes a descriptor with any fields at all at `e`.
    fn write_entry(&self, e: usize, addr: u64, len: u32, flags: u16, next: u16, link: &mut Link)
        requires
            self.mem.covers(e as int, 16),
            self.mem.size == REGION_SIZE,
        ensures
            final(link)@ == old(link)@.tell_all(
                model::entry(e as int, addr as nat, len, flags, next as nat),
            ),
    {
        self.mem.w64(e, addr, link);
        self.mem.w32(e + 8, len, link);
        self.mem.w16(e + 12, flags, link);
        self.mem.w16(e + 14, next, link);
        assert(link@.log =~= old(link)@.log + model::entry(
            e as int,
            addr as nat,
            len,
            flags,
            next as nat,
        ));
    }

    /// Makes any head at all available, in or out of the table.
    pub fn push_avail(&mut self, head: u16, link: &mut Link)
        requires
            old(self).wf(),
        ensures
            (Line { s: *final(self), io: final(link)@ }) == model::push_avail(
                Line { s: *old(self), io: old(link)@ },
                head,
            ),
            final(self).wf(),
    {
        let ring: usize = AVAIL_OFF + 4 + (self.avail_idx % QSZ) as usize * 2;
        self.mem.w16(ring, head, link);
        self.avail_idx = self.avail_idx.wrapping_add(1);
        self.mem.w16(AVAIL_OFF + 2, self.avail_idx, link);
        assert(link@.log =~= old(link)@.log + model::publish(old(self).avail_idx, head as nat));
    }

    /// Lays out a chain of descriptors and makes it available; returns its head.
    pub fn post(&mut self, descs: &[Desc], link: &mut Link) -> (head: u16)
        requires
            old(self).wf(),
            descs@.len() >= 1,
        ensures
            head == old(self).next_desc,
            (Line { s: *final(self), io: final(link)@ }) == model::post(
                Line { s: *old(self), io: old(link)@ },
                descs@,
            ),
            final(self).wf(),
    {
        let n: usize = descs.len();
        let head: u16 = self.next_desc;
        let first: usize = self.next_desc as usize;
        let q: usize = QSZ as usize;
        let mut i: usize = 0;
        proof {
            lemma_tells(link@, Seq::empty(), Seq::empty());
        }
        while i < n
            invariant
                i <= n,
                n == descs@.len(),
                q == 256,
                first == self.next_desc,
                self.wf(),
                *self == *old(self),
                link@ == old(link)@.tell_all(model::chain_stores(first as int, descs@, i as nat)),
            decreases n - i,
        {
            let d: Desc = descs[i];
            let slot: usize = (first + i % q) % q;
            let e: usize = DESC_OFF + slot * 16;
            let next: usize = (slot + 1) % q;
            assert(slot == (first + i) % 256);
            assert(next == (first + i + 1) % 256);
            let flags: u16 = flags_of(descs, i);
            proof {
                lemma_tells(
                    old(link)@,
                    model::chain_stores(first as int, descs@, i as nat),
                    model::entry(
                        e as int,
                        GPA_BASE as nat + d.off as nat,
                        d.len,
                        flags,
                        next as nat,
                    ),
                );
            }
            self.write_entry(e, GPA_BASE + d.off as u64, d.len, flags, next as u16, link);
            i = i + 1;
        }
        self.next_desc = ((first + n % q) % q) as u16;
        proof {
            lemma_tells(
                old(link)@,
                model::chain_stores(first as int, descs@, n as nat),
                model::publish(self.avail_idx, head as nat),
            );
        }
        self.push_avail(head, link);
        head
    }

    /// Lays out a chain in the table at `table_off` and makes one descriptor available
    /// that points to the table; returns its index.
    pub fn post_indirect(
        &mut self,
        descs: &[Desc],
        table_off: usize,
        link: &mut Link,
    ) -> (head: u16)
        requires
            old(self).wf(),
            descs@.len() > 0 ==> old(self).mem.covers(
                table_off as int,
                (descs@.len() * 16) as int,
            ),
        ensures
            head == old(self).next_desc,
            (Line { s: *final(self), io: final(link)@ }) == model::post_indirect(
                Line { s: *old(self), io: old(link)@ },
                descs@,
                table_off as int,
            ),
            final(self).wf(),
    {
        let n: usize = descs.len();
        let mut i: usize = 0;
        proof {
            lemma_tells(link@, Seq::empty(), Seq::empty());
        }
        while i < n
            invariant
                i <= n,
                n == descs@.len(),
                self.wf(),
                n > 0 ==> self.mem.covers(table_off as int, n * 16),
                *self == *old(self),
                link@ == old(link)@.tell_all(
                    model::table_stores(table_off as int, descs@, i as nat),
                ),
            decreases n - i,
        {
            let d: Desc = descs[i];
            let e: usize = table_off + i * 16;
            let next: usize = (i + 1) % 0x1_0000;
            let flags: u16 = flags_of(descs, i);
            proof {
                lemma_tells(
                    old(link)@,
                    model::table_stores(table_off as int, descs@, i as nat),
                    model::entry(
                        e as int,
                        GPA_BASE as nat + d.off as nat,
                        d.len,
                        flags,
                        next as nat,
                    ),
                );
            }
            self.write_entry(e, GPA_BASE + d.off as u64, d.len, flags, next as u16, link);
            i = i + 1;
        }
        let head: u16 = self.next_desc;
        let e: usize = DESC_OFF + head as usize * 16;
        let bytes: u32 = (n * 16) as u32;
        proof {
            let table = model::table_stores(table_off as int, descs@, n as nat);
            let one = model::entry(
                e as int,
                GPA_BASE as nat + table_off as nat,
                bytes,
                VRING_DESC_F_INDIRECT,
                0,
            );
            lemma_tells(old(link)@, table, one);
            lemma_tells(old(link)@, table + one, model::publish(self.avail_idx, head as nat));
        }
        self.write_entry(e, GPA_BASE + table_off as u64, bytes, VRING_DESC_F_INDIRECT, 0, link);
        self.next_desc = (head + 1) % QSZ;
        self.push_avail(head, link);
        head
    }

    /// Sets the flags of the available ring.
    pub fn set_avail_flags(&self, flags: u16, link: &mut Link)
        requires
            self.wf(),
        ensures
            final(link)@ == old(link)@.tell(mem::store_le(AVAIL_OFF as int, flags as nat, 2)),
    {
        self.mem.w16(AVAIL_OFF, flags, link);
    }

    /// Writes a descriptor with any fields at all into the table.
    pub fn write_raw_desc(
        &self,
        idx: u16,
        addr: u64,
        len: u32,
        flags: u16,
        next: u16,
        link: &mut Link,
    )
        requires
            self.wf(),
        ensures
            final(link)@ == old(link)@.tell_all(
                model::entry(DESC_OFF + idx % QSZ * 16, addr as nat, len, flags, next as nat),
            ),
    {
        let e: usize = DESC_OFF + (idx % QSZ) as usize * 16;
        self.write_entry(e, addr, len, flags, next, link);
    }

    /// Writes a descriptor with any fields at all into a table in a buffer.
    pub fn write_table_entry(
        &self,
        e: usize,
        addr: u64,
        len: u32,
        flags: u16,
        next: u16,
        link: &mut Link,
    )
        requires
            self.wf(),
            self.mem.covers(e as int, 16),
        ensures
            final(link)@ == old(link)@.tell_all(
                model::entry(e as int, addr as nat, len, flags, next as nat),
            ),
    {
        self.write_entry(e, addr, len, flags, next, link);
    }

    pub fn kick(&self, link: &mut Link)
        ensures
            final(link)@ == old(link)@.tell(ActionOf::Kick),
    {
        link.tell(ActionOf::Kick);
    }

    /// The next used element, read from memory so that suppressed signals do not
    /// matter; `None` if none came in time.
    pub fn wait_used(&mut self, timeout_ms: u64, link: &mut Link) -> (r: Result<
        Option<UsedElem>,
        Halt,
    >)
        ensures
            (Line { s: *final(self), io: final(link)@ }, link::got(r)) == model::wait_used(
                Line { s: *old(self), io: old(link)@ },
                timeout_ms,
            ),
            old(self).wf() ==> final(self).wf(),
    {
        let slot: usize = (self.used_idx_seen % QSZ) as usize;
        let e: usize = USED_OFF + 4 + slot * 8;
        match link.await_used(self.used_idx_seen, USED_OFF + 2, e, timeout_ms) {
            Ok(Some(b)) => {
                let id: u32 = le::le32(b.as_slice(), 0);
                let len: u32 = le::le32(b.as_slice(), 4);
                self.used_idx_seen = self.used_idx_seen.wrapping_add(1);
                Ok(Some(UsedElem { id, len }))
            },
            Ok(None) => Ok(None),
            Err(h) => Err(h),
        }
    }

    /// Posts a chain, kicks, and waits for one completion. The device owes the head of
    /// the chain as its id.
    pub fn submit(&mut self, descs: &[Desc], timeout_ms: u64, link: &mut Link) -> (r: Result<
        UsedElem,
        Halt,
    >)
        requires
            old(self).wf(),
            descs@.len() >= 1,
        ensures
            (Line { s: *final(self), io: final(link)@ }, link::got(r)) == model::submit(
                Line { s: *old(self), io: old(link)@ },
                descs@,
                timeout_ms,
            ),
            final(self).wf(),
    {
        let head: u16 = self.post(descs, link);
        self.kick(link);
        match self.wait_used(timeout_ms, link) {
            Ok(Some(u)) => {
                if u.id != head as u32 {
                    return Err(Halt::Fault(wrong_id(u.id, head)));
                }
                Ok(u)
            },
            Ok(None) => {
                let mut m = String::from_str("ЗАВИСАНИЕ: нет завершения за ");
                m.append(text::dec(timeout_ms).as_str());
                m.append(" мс");
                Err(Halt::Fault(m))
            },
            Err(h) => Err(h),
        }
    }
}

/// The text for a completion that is not of the posted chain.
pub fn wrong_id(id: u32, head: u16) -> (m: String)
    ensures
        m@ == model::wrong_id(id, head),
{
    let mut m = String::from_str("used.id=");
    m.append(text::dec(id as u64).as_str());
    m.append(" != head=");
    m.append(text::dec(head as u64).as_str());
    m
}

} // verus!
