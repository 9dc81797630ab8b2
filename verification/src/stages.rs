//! Pieces that many scenarios are made of.

use vstd::prelude::*;
use vstd::string::*;

use crate::bench;
use crate::bench::{Accept, SaysOf, Sector, Seg, Step};
use crate::dev::{
    SECTOR, STATUS_POISON, VIRTIO_BLK_S_OK, VIRTIO_BLK_T_IN, VIRTIO_BLK_T_OUT,
};
use crate::text;
use crate::trial::Trial;

verus! {

/// A plain session with its ring enabled.
pub open spec fn plain(sock: Seq<char>) -> Step {
    Step::Connect { path: sock, mask_out: 0, base: 0 }
}

/// The buffers of a write request: header, data and status from buffer `b` on.
pub open spec fn staged_write(b: usize, at: Sector, data: Seq<u8>) -> Seq<Step> {
    seq![
        Step::Alloc { len: 16 },
        Step::Header { buf: b, req_type: VIRTIO_BLK_T_OUT, at },
        Step::Alloc { len: data.len() as usize },
        Step::Put { buf: (b + 1) as usize, at: 0, data },
        Step::Alloc { len: 1 },
        Step::Put { buf: (b + 2) as usize, at: 0, data: seq![STATUS_POISON] },
    ]
}

/// The buffers of a request that fills `len` bytes: header, data and status from buffer
/// `b` on.
pub open spec fn staged_fetch(b: usize, req_type: u32, at: Sector, len: usize) -> Seq<Step> {
    seq![
        Step::Alloc { len: 16 },
        Step::Header { buf: b, req_type, at },
        Step::Alloc { len },
        Step::Zero { buf: (b + 1) as usize, len },
        Step::Alloc { len: 1 },
        Step::Put { buf: (b + 2) as usize, at: 0, data: seq![STATUS_POISON] },
    ]
}

/// The buffers of a read request.
pub open spec fn staged_read(b: usize, at: Sector, len: usize) -> Seq<Step> {
    staged_fetch(b, VIRTIO_BLK_T_IN, at, len)
}

/// The buffers of a request without data: header and status from buffer `b` on.
pub open spec fn staged_bare(b: usize, req_type: u32, at: Sector) -> Seq<Step> {
    seq![
        Step::Alloc { len: 16 },
        Step::Header { buf: b, req_type, at },
        Step::Alloc { len: 1 },
        Step::Put { buf: (b + 1) as usize, at: 0, data: seq![STATUS_POISON] },
    ]
}

/// The chain of a request with one segment of data that the device reads.
pub open spec fn writing_chain(b: usize, len: usize) -> Seq<Seg> {
    seq![
        Seg::readable(b, 0, 16),
        Seg::readable((b + 1) as usize, 0, len),
        Seg::writable((b + 2) as usize, 0, 1),
    ]
}

/// The chain of a request with one segment of data that the device fills.
pub open spec fn reading_chain(b: usize, len: usize) -> Seq<Seg> {
    seq![
        Seg::readable(b, 0, 16),
        Seg::writable((b + 1) as usize, 0, len),
        Seg::writable((b + 2) as usize, 0, 1),
    ]
}

/// The chain of a request without data.
pub open spec fn bare_chain(b: usize) -> Seq<Seg> {
    seq![Seg::readable(b, 0, 16), Seg::writable((b + 1) as usize, 0, 1)]
}

/// A write that goes well.
pub open spec fn good_write(at: Sector, data: Seq<u8>, label: Seq<char>) -> Seq<Step> {
    seq![Step::Write { at, data }, Step::ExpectOk { label }]
}

/// A read that goes well.
pub open spec fn good_read(at: Sector, len: usize, label: Seq<char>) -> Seq<Step> {
    seq![Step::Read { at, len }, Step::ExpectOk { label }]
}

/// A read that goes well and brings these bytes.
pub open spec fn read_back(at: Sector, want: Seq<u8>, read: Seq<char>, same: Seq<char>) -> Seq<
    Step,
> {
    seq![
        Step::Read { at, len: want.len() as usize },
        Step::ExpectOk { label: read },
        Step::Same { label: same, want },
    ]
}

/// The status in a buffer is OK.
pub open spec fn good_status(buf: usize, label: Seq<char>) -> Seq<Step> {
    seq![Step::Status { buf }, Step::ExpectOk { label }]
}

/// The bytes in a buffer are these.
pub open spec fn good_data(buf: usize, want: Seq<u8>, label: Seq<char>) -> Seq<Step> {
    seq![Step::Load { buf, len: want.len() as usize }, Step::Same { label, want }]
}

/// The device still serves: after a pause, a new session reads a sector.
pub open spec fn liveness(sock: Seq<char>) -> Seq<Step> {
    seq![
        Step::Cooldown,
        plain(sock),
        Step::Read { at: Sector::At(0), len: SECTOR },
        Step::CheckStatus {
            accept: Accept::Only(VIRTIO_BLK_S_OK),
            says: SaysOf::Status("liveness-чтение вернуло status="@, ""@),
        },
    ]
}

/// A text with a number after it.
pub open spec fn with_number(before: Seq<char>, n: nat) -> Seq<char> {
    before + text::decimal(n)
}

pub fn numbered(before: &str, n: u64) -> (m: String)
    ensures
        m@ == with_number(before@, n as nat),
{
    let mut m = String::from_str(before);
    m.append(text::dec(n).as_str());
    m
}

/// Sets the pause before a session that follows another one in the same scenario.
pub fn set_reconnect_delay(ms: u64, t: &mut Trial)
    ensures
        final(t)@ == (bench::Bench {
            io: crate::link::Talk { delay_ms: ms, ..old(t)@.io },
            ..old(t)@
        }),
        final(t).s == old(t).s,
{
    t.link.delay_ms = ms;
}

/// Pauses before a session that follows another one in the same scenario.
pub fn reconnect_cooldown(t: &mut Trial)
    requires
        old(t).wf(),
    ensures
        final(t)@ == bench::step(old(t)@, Step::Cooldown),
        final(t).wf(),
{
    t.cooldown();
}

/// A sign of life: after a pause, a new session reads a sector. The device owes this
/// after any input, however bad.
pub fn alive(sock: &str, t: &mut Trial)
    requires
        old(t).wf(),
    ensures
        final(t)@ == bench::run(old(t)@, liveness(sock@)),
        final(t).wf(),
{
    reconnect_cooldown(t);
    t.connect(sock);
    t.read(Sector::At(0), SECTOR);
    t.check_status(
        Accept::Only(VIRTIO_BLK_S_OK),
        SaysOf::Status("liveness-чтение вернуло status=", ""),
    );
    proof {
        reveal_with_fuel(bench::run_to, 5);
    }
}

fn poison(t: &mut Trial, buf: usize)
    requires
        old(t).wf(),
    ensures
        final(t)@ == bench::step(
            old(t)@,
            Step::Put { buf, at: 0, data: seq![STATUS_POISON] },
        ),
        final(t).wf(),
{
    let mark: Vec<u8> = vec![STATUS_POISON];
    assert(mark@ =~= seq![STATUS_POISON]);
    t.put(buf, 0, mark.as_slice());
}

impl Trial {
    pub fn stage_write(&mut self, b: usize, at: Sector, data: &[u8])
        requires
            old(self).wf(),
            b + 2 <= usize::MAX,
        ensures
            final(self)@ == bench::run(old(self)@, staged_write(b, at, data@)),
            final(self).wf(),
    {
        self.buffer(16);
        self.header(b, VIRTIO_BLK_T_OUT, at);
        self.buffer(data.len());
        self.put(b + 1, 0, data);
        self.buffer(1);
        poison(self, b + 2);
        proof {
            reveal_with_fuel(bench::run_to, 7);
        }
    }

    pub fn stage_fetch(&mut self, b: usize, req_type: u32, at: Sector, len: usize)
        requires
            old(self).wf(),
            b + 2 <= usize::MAX,
        ensures
            final(self)@ == bench::run(old(self)@, staged_fetch(b, req_type, at, len)),
            final(self).wf(),
    {
        self.buffer(16);
        self.header(b, req_type, at);
        self.buffer(len);
        self.zero(b + 1, len);
        self.buffer(1);
        poison(self, b + 2);
        proof {
            reveal_with_fuel(bench::run_to, 7);
        }
    }

    pub fn stage_read(&mut self, b: usize, at: Sector, len: usize)
        requires
            old(self).wf(),
            b + 2 <= usize::MAX,
        ensures
            final(self)@ == bench::run(old(self)@, staged_read(b, at, len)),
            final(self).wf(),
    {
        self.stage_fetch(b, VIRTIO_BLK_T_IN, at, len);
    }

    pub fn stage_bare(&mut self, b: usize, req_type: u32, at: Sector)
        requires
            old(self).wf(),
            b + 1 <= usize::MAX,
        ensures
            final(self)@ == bench::run(old(self)@, staged_bare(b, req_type, at)),
            final(self).wf(),
    {
        self.buffer(16);
        self.header(b, req_type, at);
        self.buffer(1);
        poison(self, b + 1);
        proof {
            reveal_with_fuel(bench::run_to, 5);
        }
    }

    pub fn good_write(&mut self, at: Sector, data: &[u8], label: &str)
        requires
            old(self).wf(),
        ensures
            final(self)@ == bench::run(old(self)@, good_write(at, data@, label@)),
            final(self).wf(),
    {
        self.write(at, data);
        self.expect_ok(label);
        proof {
            reveal_with_fuel(bench::run_to, 3);
        }
    }

    pub fn good_read(&mut self, at: Sector, len: usize, label: &str)
        requires
            old(self).wf(),
        ensures
            final(self)@ == bench::run(old(self)@, good_read(at, len, label@)),
            final(self).wf(),
    {
        self.read(at, len);
        self.expect_ok(label);
        proof {
            reveal_with_fuel(bench::run_to, 3);
        }
    }

    pub fn read_back(&mut self, at: Sector, want: &[u8], read: &str, same: &str)
        requires
            old(self).wf(),
        ensures
            final(self)@ == bench::run(old(self)@, read_back(at, want@, read@, same@)),
            final(self).wf(),
    {
        self.read(at, want.len());
        self.expect_ok(read);
        self.same(same, want);
        proof {
            reveal_with_fuel(bench::run_to, 4);
        }
    }

    pub fn good_status(&mut self, buf: usize, label: &str)
        requires
            old(self).wf(),
        ensures
            final(self)@ == bench::run(old(self)@, good_status(buf, label@)),
            final(self).wf(),
    {
        self.take_status(buf);
        self.expect_ok(label);
        proof {
            reveal_with_fuel(bench::run_to, 3);
        }
    }

    pub fn good_data(&mut self, buf: usize, want: &[u8], label: &str)
        requires
            old(self).wf(),
        ensures
            final(self)@ == bench::run(old(self)@, good_data(buf, want@, label@)),
            final(self).wf(),
    {
        self.take_data(buf, want.len());
        self.same(label, want);
        proof {
            reveal_with_fuel(bench::run_to, 3);
        }
    }

    pub fn submit_writing(&mut self, b: usize, len: usize)
        requires
            old(self).wf(),
            b + 2 <= usize::MAX,
        ensures
            final(self)@ == bench::step(
                old(self)@,
                Step::Submit { chain: writing_chain(b, len) },
            ),
            final(self).wf(),
    {
        let chain: [Seg; 3] = [
            Seg::readable(b, 0, 16),
            Seg::readable(b + 1, 0, len),
            Seg::writable(b + 2, 0, 1),
        ];
        assert(chain@ =~= writing_chain(b, len));
        self.submit(&chain);
    }

    pub fn submit_reading(&mut self, b: usize, len: usize)
        requires
            old(self).wf(),
            b + 2 <= usize::MAX,
        ensures
            final(self)@ == bench::step(
                old(self)@,
                Step::Submit { chain: reading_chain(b, len) },
            ),
            final(self).wf(),
    {
        let chain: [Seg; 3] = [
            Seg::readable(b, 0, 16),
            Seg::writable(b + 1, 0, len),
            Seg::writable(b + 2, 0, 1),
        ];
        assert(chain@ =~= reading_chain(b, len));
        self.submit(&chain);
    }

    pub fn submit_bare(&mut self, b: usize)
        requires
            old(self).wf(),
            b + 1 <= usize::MAX,
        ensures
            final(self)@ == bench::step(old(self)@, Step::Submit { chain: bare_chain(b) }),
            final(self).wf(),
    {
        let chain: [Seg; 2] = [Seg::readable(b, 0, 16), Seg::writable(b + 1, 0, 1)];
        assert(chain@ =~= bare_chain(b));
        self.submit(&chain);
    }

    pub fn post_writing(&mut self, b: usize, len: usize)
        requires
            old(self).wf(),
            b + 2 <= usize::MAX,
        ensures
            final(self)@ == bench::step(
                old(self)@,
                Step::Post { chain: writing_chain(b, len) },
            ),
            final(self).wf(),
    {
        let chain: [Seg; 3] = [
            Seg::readable(b, 0, 16),
            Seg::readable(b + 1, 0, len),
            Seg::writable(b + 2, 0, 1),
        ];
        assert(chain@ =~= writing_chain(b, len));
        self.post(&chain);
    }

    pub fn post_reading(&mut self, b: usize, len: usize)
        requires
            old(self).wf(),
            b + 2 <= usize::MAX,
        ensures
            final(self)@ == bench::step(
                old(self)@,
                Step::Post { chain: reading_chain(b, len) },
            ),
            final(self).wf(),
    {
        let chain: [Seg; 3] = [
            Seg::readable(b, 0, 16),
            Seg::writable(b + 1, 0, len),
            Seg::writable(b + 2, 0, 1),
        ];
        assert(chain@ =~= reading_chain(b, len));
        self.post(&chain);
    }
}

} // verus!
