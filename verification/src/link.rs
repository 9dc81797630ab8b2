//! The conversation with the outside: what a scenario asks for, and what was answered.
//!
//! A scenario is a deterministic function of the answers. It runs over a `Link`
//! that holds the answers gathered so far, and writes down every action it takes.
//! When it needs an answer that is not there yet it stops and waits; the driver
//! performs the actions that are new, appends the answer, and runs it again.

use vstd::prelude::*;
use vstd::string::*;

verus! {

/// A memory region as it is announced to the backend.
#[derive(Clone, Copy)]
pub struct Region {
    pub guest_phys_addr: u64,
    pub memory_size: u64,
    pub userspace_addr: u64,
    pub mmap_offset: u64,
    pub mmap_handle: i32,
}

/// The addresses and sizes of one ring as they are announced to the backend.
#[derive(Clone, Copy)]
pub struct VringConfig {
    pub queue_max_size: u16,
    pub queue_size: u16,
    pub flags: u32,
    pub desc_table_addr: u64,
    pub avail_ring_addr: u64,
    pub used_ring_addr: u64,
    pub log_addr: Option<u64>,
}

/// One thing done to the outside. `S` is text, `B` is bytes.
pub enum ActionOf<S, B> {
    /// Open the socket.
    Connect { path: S },
    SetOwner,
    GetFeatures,
    GetProtocolFeatures,
    SetProtocolFeatures { bits: u64 },
    SetFeatures { bits: u64 },
    GetConfig { offset: u32, size: u32 },
    /// Create the zeroed shared region.
    MapMemory { total: usize },
    /// Create the event that wakes the device.
    OpenKick,
    /// Create the event that the device signals; reading it does not block.
    OpenCall,
    /// Announce one region, or an empty table.
    SetMemTable { region: Option<Region> },
    SetVringNum { num: u16 },
    SetVringAddr { config: VringConfig },
    SetVringBase { base: u16 },
    SetVringKick,
    SetVringCall,
    SetVringEnable { on: bool },
    GetVringBase,
    /// Write bytes into the shared region, in order.
    Store { off: usize, data: B },
    /// Read bytes of the shared region.
    Load { off: usize, len: usize },
    Kick,
    DrainCall,
    /// Wait until the used index at `index_off` leaves `seen`, then read the
    /// element at `elem_off`.
    WaitUsed { seen: u16, index_off: usize, elem_off: usize, timeout_ms: u64 },
    /// Wait for the device's signal until the time is over, and take it.
    WaitCall { timeout_ms: u64 },
    /// Give up the session: socket, region and events.
    Close,
    Sleep { ms: u64 },
}

/// One answer of the outside. `S` is text, `B` is bytes.
pub enum ReplyOf<S, B> {
    Done,
    /// The call failed; the text describes the failure.
    Refused(S),
    Number(u64),
    Mapped { fd: i32, va: u64 },
    Bytes(B),
    TimedOut,
    Flag(bool),
}

pub type Action = ActionOf<String, Vec<u8>>;

pub type Act = ActionOf<Seq<char>, Seq<u8>>;

pub type Reply = ReplyOf<String, Vec<u8>>;

pub type Rep = ReplyOf<Seq<char>, Seq<u8>>;

impl View for ActionOf<String, Vec<u8>> {
    type V = ActionOf<Seq<char>, Seq<u8>>;

    open spec fn view(&self) -> ActionOf<Seq<char>, Seq<u8>> {
        match *self {
            ActionOf::Connect { path } => ActionOf::Connect { path: path@ },
            ActionOf::SetOwner => ActionOf::SetOwner,
            ActionOf::GetFeatures => ActionOf::GetFeatures,
            ActionOf::GetProtocolFeatures => ActionOf::GetProtocolFeatures,
            ActionOf::SetProtocolFeatures { bits } => ActionOf::SetProtocolFeatures { bits },
            ActionOf::SetFeatures { bits } => ActionOf::SetFeatures { bits },
            ActionOf::GetConfig { offset, size } => ActionOf::GetConfig { offset, size },
            ActionOf::MapMemory { total } => ActionOf::MapMemory { total },
            ActionOf::OpenKick => ActionOf::OpenKick,
            ActionOf::OpenCall => ActionOf::OpenCall,
            ActionOf::SetMemTable { region } => ActionOf::SetMemTable { region },
            ActionOf::SetVringNum { num } => ActionOf::SetVringNum { num },
            ActionOf::SetVringAddr { config } => ActionOf::SetVringAddr { config },
            ActionOf::SetVringBase { base } => ActionOf::SetVringBase { base },
            ActionOf::SetVringKick => ActionOf::SetVringKick,
            ActionOf::SetVringCall => ActionOf::SetVringCall,
            ActionOf::SetVringEnable { on } => ActionOf::SetVringEnable { on },
            ActionOf::GetVringBase => ActionOf::GetVringBase,
            ActionOf::Store { off, data } => ActionOf::Store { off, data: data@ },
            ActionOf::Load { off, len } => ActionOf::Load { off, len },
            ActionOf::Kick => ActionOf::Kick,
            ActionOf::DrainCall => ActionOf::DrainCall,
            ActionOf::WaitUsed { seen, index_off, elem_off, timeout_ms } =>
                ActionOf::WaitUsed { seen, index_off, elem_off, timeout_ms },
            ActionOf::WaitCall { timeout_ms } => ActionOf::WaitCall { timeout_ms },
            ActionOf::Close => ActionOf::Close,
            ActionOf::Sleep { ms } => ActionOf::Sleep { ms },
        }
    }
}

impl View for ReplyOf<String, Vec<u8>> {
    type V = ReplyOf<Seq<char>, Seq<u8>>;

    open spec fn view(&self) -> ReplyOf<Seq<char>, Seq<u8>> {
        match *self {
            ReplyOf::Done => ReplyOf::Done,
            ReplyOf::Refused(text) => ReplyOf::Refused(text@),
            ReplyOf::Number(n) => ReplyOf::Number(n),
            ReplyOf::Mapped { fd, va } => ReplyOf::Mapped { fd, va },
            ReplyOf::Bytes(b) => ReplyOf::Bytes(b@),
            ReplyOf::TimedOut => ReplyOf::TimedOut,
            ReplyOf::Flag(f) => ReplyOf::Flag(f),
        }
    }
}

/// Why an operation gave no result.
pub enum Halt {
    /// The outside refused, or answered in a way that is an error.
    Fault(String),
    /// The answer has not been given yet.
    Waiting,
}

/// What an operation came to, in terms of plain values.
pub enum Got<T> {
    Value(T),
    Fault(Seq<char>),
    Waiting,
}

/// A result read as what the operation came to.
pub open spec fn got<T>(r: Result<T, Halt>) -> Got<T> {
    match r {
        Ok(v) => Got::Value(v),
        Err(Halt::Fault(text)) => Got::Fault(text@),
        Err(Halt::Waiting) => Got::Waiting,
    }
}

/// A result that carries bytes, read as what the operation came to.
pub open spec fn got_bytes(r: Result<Vec<u8>, Halt>) -> Got<Seq<u8>> {
    match r {
        Ok(v) => Got::Value(v@),
        Err(Halt::Fault(text)) => Got::Fault(text@),
        Err(Halt::Waiting) => Got::Waiting,
    }
}

/// The state of a conversation: the answers given, how many of them have been
/// taken, and the actions so far.
pub struct Talk {
    pub delay_ms: u64,
    pub replies: Seq<Rep>,
    pub next: int,
    pub log: Seq<Act>,
}

/// The text of a refused call: the name of the call, then the failure.
pub open spec fn refusal(label: Seq<char>, text: Seq<char>) -> Seq<char> {
    label + ": "@ + text
}

impl Talk {
    /// Take an action that has no answer.
    pub open spec fn tell(self, a: Act) -> Talk {
        Talk { log: self.log.push(a), ..self }
    }

    /// Take actions that have no answer, in order.
    pub open spec fn tell_all(self, acts: Seq<Act>) -> Talk {
        Talk { log: self.log + acts, ..self }
    }

    /// Take an action and its answer, if that has been given.
    pub open spec fn ask(self, a: Act) -> (Talk, Option<Rep>) {
        if 0 <= self.next < self.replies.len() {
            (
                Talk { log: self.log.push(a), next: self.next + 1, ..self },
                Some(self.replies[self.next]),
            )
        } else {
            (self.tell(a), None)
        }
    }

    /// A call that succeeds or is refused. An answer of another kind is no answer.
    pub open spec fn call(self, a: Act, label: Seq<char>) -> (Talk, Got<()>) {
        let (t, r) = self.ask(a);
        (
            t,
            match r {
                Some(ReplyOf::Done) => Got::Value(()),
                Some(ReplyOf::Refused(text)) => Got::Fault(refusal(label, text)),
                _ => Got::Waiting,
            },
        )
    }

    /// A call whose refusal is of no consequence; tells whether it succeeded.
    pub open spec fn attempt(self, a: Act) -> (Talk, Got<bool>) {
        let (t, r) = self.ask(a);
        (
            t,
            match r {
                Some(ReplyOf::Done) => Got::Value(true),
                Some(ReplyOf::Refused(_)) => Got::Value(false),
                _ => Got::Waiting,
            },
        )
    }

    /// A call that gives a number or is refused.
    pub open spec fn query(self, a: Act, label: Seq<char>) -> (Talk, Got<u64>) {
        let (t, r) = self.ask(a);
        (
            t,
            match r {
                Some(ReplyOf::Number(n)) => Got::Value(n),
                Some(ReplyOf::Refused(text)) => Got::Fault(refusal(label, text)),
                _ => Got::Waiting,
            },
        )
    }

    /// A read of the device configuration; `None` when it is refused.
    pub open spec fn config(self, offset: u32, size: u32) -> (Talk, Got<Option<Seq<u8>>>) {
        let (t, r) = self.ask(ActionOf::GetConfig { offset, size });
        (
            t,
            match r {
                Some(ReplyOf::Bytes(b)) => Got::Value(Some(b)),
                Some(ReplyOf::Refused(_)) => Got::Value(None),
                _ => Got::Waiting,
            },
        )
    }

    /// A read of the device configuration whose refusal is an error.
    pub open spec fn config_or(self, offset: u32, size: u32, label: Seq<char>) -> (
        Talk,
        Got<Seq<u8>>,
    ) {
        let (t, r) = self.ask(ActionOf::GetConfig { offset, size });
        (
            t,
            match r {
                Some(ReplyOf::Bytes(b)) => Got::Value(b),
                Some(ReplyOf::Refused(text)) => Got::Fault(refusal(label, text)),
                _ => Got::Waiting,
            },
        )
    }

    /// A read of the shared region: exactly `len` bytes.
    pub open spec fn load(self, off: usize, len: usize) -> (Talk, Got<Seq<u8>>) {
        let (t, r) = self.ask(ActionOf::Load { off, len });
        (
            t,
            match r {
                Some(ReplyOf::Bytes(b)) => if b.len() == len {
                    Got::Value(b)
                } else {
                    Got::Waiting
                },
                _ => Got::Waiting,
            },
        )
    }

    /// A wait for the next used element: its eight bytes, or `None` on timeout.
    pub open spec fn await_used(
        self,
        seen: u16,
        index_off: usize,
        elem_off: usize,
        timeout_ms: u64,
    ) -> (Talk, Got<Option<Seq<u8>>>) {
        let (t, r) = self.ask(ActionOf::WaitUsed { seen, index_off, elem_off, timeout_ms });
        (
            t,
            match r {
                Some(ReplyOf::Bytes(b)) => if b.len() == 8 {
                    Got::Value(Some(b))
                } else {
                    Got::Waiting
                },
                Some(ReplyOf::TimedOut) => Got::Value(None),
                _ => Got::Waiting,
            },
        )
    }

    /// A wait for the device's signal; tells whether it came.
    pub open spec fn await_call(self, timeout_ms: u64) -> (Talk, Got<bool>) {
        let (t, r) = self.ask(ActionOf::WaitCall { timeout_ms });
        (
            t,
            match r {
                Some(ReplyOf::Flag(f)) => Got::Value(f),
                _ => Got::Waiting,
            },
        )
    }

    /// A request for the shared region; tells its descriptor and address.
    pub open spec fn map(self, size: usize) -> (Talk, Got<(i32, u64)>) {
        let (t, r) = self.ask(ActionOf::MapMemory { total: size });
        (
            t,
            match r {
                Some(ReplyOf::Mapped { fd, va }) => Got::Value((fd, va)),
                Some(ReplyOf::Refused(text)) => Got::Fault(text),
                _ => Got::Waiting,
            },
        )
    }
}

/// The answers gathered so far and the actions of the present run.
pub struct Link {
    pub delay_ms: u64,
    pub replies: Vec<Reply>,
    pub next: usize,
    pub log: Vec<Action>,
}

/// Actions by their views.
pub open spec fn acts(log: Seq<Action>) -> Seq<Act> {
    Seq::new(log.len(), |i: int| log[i]@)
}

/// Answers by their views.
pub open spec fn reps(replies: Seq<Reply>) -> Seq<Rep> {
    Seq::new(replies.len(), |i: int| replies[i]@)
}

impl View for Link {
    type V = Talk;

    open spec fn view(&self) -> Talk {
        Talk {
            delay_ms: self.delay_ms,
            replies: reps(self.replies@),
            next: self.next as int,
            log: acts(self.log@),
        }
    }
}

fn refused(label: &str, text: &String) -> (h: Halt)
    ensures
        h matches Halt::Fault(m) && m@ == refusal(label@, text@),
{
    let mut m = String::from_str(label);
    m.append(": ");
    m.append(text.as_str());
    Halt::Fault(m)
}

impl Link {
    /// A conversation that starts over with the answers gathered so far.
    pub fn new(delay_ms: u64, replies: Vec<Reply>) -> (link: Link)
        ensures
            link@ == (Talk { delay_ms, replies: reps(replies@), next: 0, log: Seq::empty() }),
    {
        let link = Link { delay_ms, replies, next: 0, log: Vec::new() };
        assert(acts(link.log@) =~= Seq::empty());
        link
    }

    pub fn tell(&mut self, a: Action)
        ensures
            final(self)@ == old(self)@.tell(a@),
            final(self).replies == old(self).replies,
            final(self).next == old(self).next,
    {
        self.log.push(a);
        assert(acts(self.log@) =~= acts(old(self).log@).push(a@));
    }

    /// Takes the action; the answer, if there is one, is at the index returned.
    fn ask(&mut self, a: Action) -> (at: Option<usize>)
        ensures
            final(self)@ == old(self)@.ask(a@).0,
            final(self).replies == old(self).replies,
            match at {
                Some(i) => i < old(self).replies.len() && old(self)@.ask(a@).1 == Some(
                    old(self).replies[i as int]@,
                ),
                None => old(self)@.ask(a@).1 is None,
            },
    {
        self.tell(a);
        if self.next < self.replies.len() {
            let i: usize = self.next;
            self.next = self.next + 1;
            Some(i)
        } else {
            None
        }
    }

    pub fn call(&mut self, a: Action, label: &str) -> (r: Result<(), Halt>)
        ensures
            (final(self)@, got(r)) == old(self)@.call(a@, label@),
    {
        match self.ask(a) {
            Some(i) => match &self.replies[i] {
                ReplyOf::Done => Ok(()),
                ReplyOf::Refused(text) => Err(refused(label, text)),
                _ => Err(Halt::Waiting),
            },
            None => Err(Halt::Waiting),
        }
    }

    pub fn attempt(&mut self, a: Action) -> (r: Result<bool, Halt>)
        ensures
            (final(self)@, got(r)) == old(self)@.attempt(a@),
    {
        match self.ask(a) {
            Some(i) => match &self.replies[i] {
                ReplyOf::Done => Ok(true),
                ReplyOf::Refused(_) => Ok(false),
                _ => Err(Halt::Waiting),
            },
            None => Err(Halt::Waiting),
        }
    }

    pub fn query(&mut self, a: Action, label: &str) -> (r: Result<u64, Halt>)
        ensures
            (final(self)@, got(r)) == old(self)@.query(a@, label@),
    {
        match self.ask(a) {
            Some(i) => match &self.replies[i] {
                ReplyOf::Number(n) => Ok(*n),
                ReplyOf::Refused(text) => Err(refused(label, text)),
                _ => Err(Halt::Waiting),
            },
            None => Err(Halt::Waiting),
        }
    }

    pub fn config(&mut self, offset: u32, size: u32) -> (r: Result<Option<Vec<u8>>, Halt>)
        ensures
            final(self)@ == old(self)@.config(offset, size).0,
            old(self)@.config(offset, size).1 == (match r {
                Ok(Some(b)) => Got::Value(Some(b@)),
                Ok(None) => Got::Value(None),
                Err(Halt::Fault(text)) => Got::Fault(text@),
                Err(Halt::Waiting) => Got::Waiting,
            }),
    {
        match self.ask(ActionOf::GetConfig { offset, size }) {
            Some(i) => match &self.replies[i] {
                ReplyOf::Bytes(b) => Ok(Some(copy_of(b))),
                ReplyOf::Refused(_) => Ok(None),
                _ => Err(Halt::Waiting),
            },
            None => Err(Halt::Waiting),
        }
    }

    pub fn config_or(&mut self, offset: u32, size: u32, label: &str) -> (r: Result<Vec<u8>, Halt>)
        ensures
            (final(self)@, got_bytes(r)) == old(self)@.config_or(offset, size, label@),
    {
        match self.ask(ActionOf::GetConfig { offset, size }) {
            Some(i) => match &self.replies[i] {
                ReplyOf::Bytes(b) => Ok(copy_of(b)),
                ReplyOf::Refused(text) => Err(refused(label, text)),
                _ => Err(Halt::Waiting),
            },
            None => Err(Halt::Waiting),
        }
    }

    pub fn load(&mut self, off: usize, len: usize) -> (r: Result<Vec<u8>, Halt>)
        ensures
            (final(self)@, got_bytes(r)) == old(self)@.load(off, len),
    {
        match self.ask(ActionOf::Load { off, len }) {
            Some(i) => match &self.replies[i] {
                ReplyOf::Bytes(b) => if b.len() == len {
                    Ok(copy_of(b))
                } else {
                    Err(Halt::Waiting)
                },
                _ => Err(Halt::Waiting),
            },
            None => Err(Halt::Waiting),
        }
    }

    pub fn await_used(
        &mut self,
        seen: u16,
        index_off: usize,
        elem_off: usize,
        timeout_ms: u64,
    ) -> (r: Result<Option<Vec<u8>>, Halt>)
        ensures
            final(self)@ == old(self)@.await_used(seen, index_off, elem_off, timeout_ms).0,
            old(self)@.await_used(seen, index_off, elem_off, timeout_ms).1 == (match r {
                Ok(Some(b)) => Got::Value(Some(b@)),
                Ok(None) => Got::Value(None),
                Err(Halt::Fault(text)) => Got::Fault(text@),
                Err(Halt::Waiting) => Got::Waiting,
            }),
    {
        match self.ask(ActionOf::WaitUsed { seen, index_off, elem_off, timeout_ms }) {
            Some(i) => match &self.replies[i] {
                ReplyOf::Bytes(b) => if b.len() == 8 {
                    Ok(Some(copy_of(b)))
                } else {
                    Err(Halt::Waiting)
                },
                ReplyOf::TimedOut => Ok(None),
                _ => Err(Halt::Waiting),
            },
            None => Err(Halt::Waiting),
        }
    }

    pub fn await_call(&mut self, timeout_ms: u64) -> (r: Result<bool, Halt>)
        ensures
            (final(self)@, got(r)) == old(self)@.await_call(timeout_ms),
    {
        match self.ask(ActionOf::WaitCall { timeout_ms }) {
            Some(i) => match &self.replies[i] {
                ReplyOf::Flag(f) => Ok(*f),
                _ => Err(Halt::Waiting),
            },
            None => Err(Halt::Waiting),
        }
    }

    pub fn map(&mut self, size: usize) -> (r: Result<(i32, u64), Halt>)
        ensures
            (final(self)@, got(r)) == old(self)@.map(size),
    {
        match self.ask(ActionOf::MapMemory { total: size }) {
            Some(i) => match &self.replies[i] {
                ReplyOf::Mapped { fd, va } => Ok((*fd, *va)),
                ReplyOf::Refused(text) => Err(Halt::Fault(text.clone())),
                _ => Err(Halt::Waiting),
            },
            None => Err(Halt::Waiting),
        }
    }
}

/// A vector of the same bytes.
pub fn copy_of(b: &[u8]) -> (v: Vec<u8>)
    ensures
        v@ == b@,
{
    let mut v: Vec<u8> = Vec::new();
    v.extend_from_slice(b);
    assert(v@ =~= b@);
    v
}

} // verus!
