use vstd::prelude::*;

verus! {

/// Token of the listening socket.
pub const SERVER: usize = 0;

/// Token of the event channel's receiver.
pub const CHANNEL: usize = 1;

/// The token counter's start; the first connection gets the next one.
pub const TOKEN_BASE: usize = 4;

/// Size of the scratch chunk a read drain reads into.
pub const CHUNK: usize = 1024;

/// What a live connection is waiting for.
#[derive(PartialEq, Eq, Structural, Clone, Copy, Debug)]
pub enum Phase {
    /// Armed for read readiness.
    Reading,
    /// Its buffer is with a worker job.
    Working,
    /// Armed for write readiness.
    Writing,
}

/// A request from a worker job, or from the write path, to re-arm a connection.
#[derive(PartialEq, Eq, Structural, Clone, Copy, Debug)]
pub enum ConnEvent {
    Write(usize),
    Read(usize),
}

/// The readiness direction a connection is re-armed for.
#[derive(PartialEq, Eq, Structural, Clone, Copy, Debug)]
pub enum Interest {
    Readable,
    Writable,
}

/// The readiness reported for a connection.
#[derive(PartialEq, Eq, Structural, Clone, Copy, Debug)]
pub struct Readiness {
    pub readable: bool,
    pub writable: bool,
    pub hup: bool,
    pub error: bool,
}

/// What the poller does next with a connection.
#[derive(PartialEq, Eq, Structural, Clone, Copy, Debug)]
pub enum Action {
    /// Nothing.
    Ignore,
    /// Deregister it and shut its socket down; it has left the table.
    Remove,
    /// Drain the socket into the read buffer.
    Read,
    /// Drain the write buffer into the socket.
    Write,
    /// Hand the buffer to a worker job.
    Dispatch,
    /// Re-arm it for write readiness: bytes are still pending.
    Rearm,
}

/// What happened in one step of a connection's life.
#[derive(PartialEq, Eq, Structural, Clone, Copy, Debug)]
pub enum Step {
    /// Its socket was drained into the read buffer.
    Drained,
    /// Its worker job finished and asked for write readiness.
    Handled,
    /// Its write buffer was sent and read readiness was asked for.
    Sent,
}

/// The phase after `s`; a step that does not fit the phase changes nothing.
pub open spec fn advance(p: Phase, s: Step) -> Phase {
    match (p, s) {
        (Phase::Reading, Step::Drained) => Phase::Working,
        (Phase::Working, Step::Handled) => Phase::Writing,
        (Phase::Writing, Step::Sent) => Phase::Reading,
        _ => p,
    }
}

/// The phase after the steps `ss`, from `p`.
pub open spec fn advance_all(p: Phase, ss: Seq<Step>) -> Phase
    decreases ss.len(),
{
    if ss.len() == 0 {
        p
    } else {
        advance(advance_all(p, ss.drop_last()), ss.last())
    }
}

/// Whether step `s` in phase `p` starts a worker job.
pub open spec fn starts_job(p: Phase, s: Step) -> bool {
    p == Phase::Reading && s == Step::Drained
}

/// Requests on one connection are handled in order: once a job has started
/// (the phase is `Working`), the next job starts only after that job has
/// finished and its response has been sent.
pub proof fn lemma_jobs_in_order(ss: Seq<Step>, k: int)
    requires
        0 <= k < ss.len(),
        starts_job(advance_all(Phase::Working, ss.subrange(0, k)), ss[k]),
    ensures
        exists|i: int, j: int| 0 <= i < j < k && ss[i] == Step::Handled && ss[j] == Step::Sent,
{
    lemma_reading_needs_sent(ss.subrange(0, k));
    let j = choose|j: int| 0 <= j < k && ss.subrange(0, k)[j] == Step::Sent
        && advance_all(Phase::Working, ss.subrange(0, k).subrange(0, j)) == Phase::Writing;
    assert(ss.subrange(0, k).subrange(0, j) == ss.subrange(0, j));
    lemma_writing_needs_handled(ss.subrange(0, j));
    let i = choose|i: int| 0 <= i < j && ss.subrange(0, j)[i] == Step::Handled;
    assert(ss[i] == Step::Handled && ss[j] == Step::Sent);
}

proof fn lemma_reading_needs_sent(ss: Seq<Step>)
    requires
        advance_all(Phase::Working, ss) == Phase::Reading,
    ensures
        exists|j: int| 0 <= j < ss.len() && ss[j] == Step::Sent && advance_all(Phase::Working, ss.subrange(0, j)) == Phase::Writing,
    decreases ss.len(),
{
    let prev = advance_all(Phase::Working, ss.drop_last());
    if prev == Phase::Reading {
        lemma_reading_needs_sent(ss.drop_last());
        let j = choose|j: int| 0 <= j < ss.drop_last().len() && ss.drop_last()[j] == Step::Sent
            && advance_all(Phase::Working, ss.drop_last().subrange(0, j)) == Phase::Writing;
        assert(ss.drop_last().subrange(0, j) == ss.subrange(0, j));
    } else {
        assert(ss.subrange(0, ss.len() - 1) == ss.drop_last());
        assert(ss[ss.len() - 1] == Step::Sent);
    }
}

proof fn lemma_writing_needs_handled(ss: Seq<Step>)
    requires
        advance_all(Phase::Working, ss) == Phase::Writing,
    ensures
        exists|i: int| 0 <= i < ss.len() && ss[i] == Step::Handled,
    decreases ss.len(),
{
    let prev = advance_all(Phase::Working, ss.drop_last());
    if prev == Phase::Writing {
        lemma_writing_needs_handled(ss.drop_last());
        let i = choose|i: int| 0 <= i < ss.drop_last().len() && ss.drop_last()[i] == Step::Handled;
        assert(ss[i] == Step::Handled);
    } else {
        assert(ss[ss.len() - 1] == Step::Handled);
    }
}

/// The outcome of one non-blocking read into the scratch chunk.
#[derive(PartialEq, Eq, Structural, Clone, Copy, Debug)]
pub enum ReadResult {
    /// This many bytes were read.
    Data(usize),
    /// No data right now.
    WouldBlock,
    /// Any other error.
    Failed,
}

/// What a read drain does after one read.
#[derive(PartialEq, Eq, Structural, Clone, Copy, Debug)]
pub enum ReadStep {
    /// Keep the bytes and read again.
    Continue,
    /// Keep the bytes and stop; the buffer goes to a worker.
    Stop,
    /// The peer closed or the socket failed: close the connection.
    Close,
}

/// The read drain's rule: a zero-length read or an error other than
/// would-block closes; a full chunk reads again; a short read or would-block
/// stops.
pub fn read_step(r: ReadResult) -> (s: ReadStep)
    ensures
        s == match r {
            ReadResult::Data(n) => if n == 0 {
                ReadStep::Close
            } else if n < CHUNK {
                ReadStep::Stop
            } else {
                ReadStep::Continue
            },
            ReadResult::WouldBlock => ReadStep::Stop,
            ReadResult::Failed => ReadStep::Close,
        },
{
    match r {
        ReadResult::Data(n) => if n == 0 {
            ReadStep::Close
        } else if n < CHUNK {
            ReadStep::Stop
        } else {
            ReadStep::Continue
        },
        ReadResult::WouldBlock => ReadStep::Stop,
        ReadResult::Failed => ReadStep::Close,
    }
}

/// What a write drain leads to.
#[derive(PartialEq, Eq, Structural, Clone, Copy, Debug)]
pub enum WriteStep {
    /// Nothing was written or the write failed: close the connection.
    Close,
    /// Bytes are still pending: re-arm for write readiness.
    Partial,
    /// Everything was sent: ask for read readiness.
    Sent,
}

/// The write drain's rule, given how many bytes the one write of `writer` took
/// (`None` for an error): nothing written or an error closes; the bytes
/// written leave the buffer, and what is left waits for the next write
/// readiness; an emptied buffer lets the next request be read.
pub fn after_written(writer: &mut Vec<u8>, written: Option<usize>) -> (s: WriteStep)
    ensures
        s == match written {
            None => WriteStep::Close,
            Some(k) => if k == 0 {
                WriteStep::Close
            } else if k < old(writer)@.len() {
                WriteStep::Partial
            } else {
                WriteStep::Sent
            },
        },
        s == WriteStep::Close ==> final(writer)@ == old(writer)@,
        s == WriteStep::Partial ==> final(writer)@ == old(writer)@.subrange(written.unwrap() as int, old(writer)@.len() as int),
        s == WriteStep::Sent ==> final(writer)@.len() == 0,
{
    match written {
        None => WriteStep::Close,
        Some(k) => {
            if k == 0 {
                WriteStep::Close
            } else if k < writer.len() {
                let rest = writer.split_off(k);
                *writer = rest;
                WriteStep::Partial
            } else {
                writer.clear();
                WriteStep::Sent
            }
        },
    }
}

/// The poller's table of live connections: each with its token and phase.
pub struct ConnTable {
    /// The last token handed out.
    pub token: usize,
    pub conns: Vec<(usize, Phase)>,
}

impl ConnTable {
    /// Tokens in the table are in increasing order, above the reserved ones
    /// and not above the last one handed out; so no two entries share one.
    pub open spec fn wf(&self) -> bool {
        &&& self.token >= TOKEN_BASE
        &&& forall|i: int, j: int| 0 <= i < j < self.conns@.len() ==> self.conns@[i].0 < self.conns@[j].0
        &&& forall|i: int| 0 <= i < self.conns@.len() ==> TOKEN_BASE < #[trigger] self.conns@[i].0 <= self.token
    }

    pub open spec fn live(&self, t: usize) -> bool {
        exists|i: int| 0 <= i < self.conns@.len() && self.conns@[i].0 == t
    }

    /// The phase of the connection with token `t`.
    pub open spec fn phase(&self, t: usize) -> Phase {
        self.conns@[choose|i: int| 0 <= i < self.conns@.len() && self.conns@[i].0 == t].1
    }

    pub fn new() -> (r: ConnTable)
        ensures
            r.wf(),
            r.token == TOKEN_BASE,
            forall|t: usize| !r.live(t),
    {
        ConnTable { token: TOKEN_BASE, conns: Vec::new() }
    }

    pub fn len(&self) -> (r: usize)
        ensures
            r == self.conns@.len(),
    {
        self.conns.len()
    }

    fn index_of(&self, t: usize) -> (r: Option<usize>)
        requires
            self.wf(),
        ensures
            match r {
                Some(i) => i < self.conns@.len() && self.conns@[i as int].0 == t && self.live(t) && self.phase(t)
                    == self.conns@[i as int].1,
                None => !self.live(t),
            },
    {
        let mut i: usize = 0;
        while i < self.conns.len()
            invariant
                self.wf(),
                i <= self.conns@.len(),
                forall|j: int| 0 <= j < i ==> self.conns@[j].0 != t,
            decreases self.conns@.len() - i,
        {
            if self.conns[i].0 == t {
                proof {
                    let w = choose|w: int| 0 <= w < self.conns@.len() && self.conns@[w].0 == t;
                    if w < i {
                    } else if w > i {
                    }
                }
                return Some(i);
            }
            i = i + 1;
        }
        None
    }

    /// Whether a connection holds token `t`.
    pub fn contains(&self, t: usize) -> (r: bool)
        requires
            self.wf(),
        ensures
            r == self.live(t),
    {
        self.index_of(t).is_some()
    }

    /// Allocates the next token for a new connection, armed for reading.
    /// `None` when the counter is exhausted.
    pub fn accept(&mut self) -> (r: Option<usize>)
        requires
            old(self).wf(),
        ensures
            final(self).wf(),
            r is None <==> old(self).token == usize::MAX,
            r is None ==> *final(self) == *old(self),
            r matches Some(t) ==> t == old(self).token + 1 && !old(self).live(t) && final(self).live(t)
                && final(self).phase(t) == Phase::Reading && final(self).token == t,
            r matches Some(t) ==> forall|u: usize| u != t ==> final(self).live(u) == old(self).live(u),
            r matches Some(t) ==> forall|u: usize|
                u != t && old(self).live(u) ==> final(self).phase(u) == old(self).phase(u),
    {
        if self.token == usize::MAX {
            return None;
        }
        let t = self.token + 1;
        let ghost before = self.conns@;
        self.token = t;
        self.conns.push((t, Phase::Reading));
        proof {
            let n = before.len() as int;
            assert(self.conns@[n].0 == t);
            assert forall|u: usize| u != t implies self.live(u) == old(self).live(u) && (old(self).live(u)
                ==> self.phase(u) == old(self).phase(u)) by {
                if old(self).live(u) {
                    let i = choose|i: int| 0 <= i < old(self).conns@.len() && old(self).conns@[i].0 == u;
                    assert(self.conns@[i] == before[i]);
                    assert(self.conns@[i].0 == u);
                    let k = choose|k: int| 0 <= k < self.conns@.len() && self.conns@[k].0 == u;
                    if k < n {
                        assert(self.conns@[k] == before[k]);
                    }
                    if k < i {
                    } else if k > i {
                    }
                    assert(k == i);
                }
                if self.live(u) {
                    let k = choose|k: int| 0 <= k < self.conns@.len() && self.conns@[k].0 == u;
                    assert(k < n);
                    assert(self.conns@[k] == before[k]);
                }
            };
            let k = choose|k: int| 0 <= k < self.conns@.len() && self.conns@[k].0 == t;
            if k < n {
            }
        }
        Some(t)
    }

    /// Removes the connection with token `t`; `true` if there was one.
    pub fn remove(&mut self, t: usize) -> (r: bool)
        requires
            old(self).wf(),
        ensures
            final(self).wf(),
            r == old(self).live(t),
            !final(self).live(t),
            final(self).token == old(self).token,
            forall|u: usize| u != t ==> final(self).live(u) == old(self).live(u),
            forall|u: usize| u != t && old(self).live(u) ==> final(self).phase(u) == old(self).phase(u),
    {
        match self.index_of(t) {
            None => false,
            Some(i) => {
                let ghost before = self.conns@;
                self.conns.remove(i);
                proof {
                    assert(self.conns@ =~= before.remove(i as int));
                    assert forall|u: usize| u != t implies self.live(u) == old(self).live(u) && (old(self).live(u)
                        ==> self.phase(u) == old(self).phase(u)) by {
                        if old(self).live(u) {
                            let a = choose|a: int| 0 <= a < old(self).conns@.len() && old(self).conns@[a].0 == u;
                            assert(a != i);
                            let b = if a < i { a } else { a - 1 };
                            assert(self.conns@[b] == before[a]);
                            let k = choose|k: int| 0 <= k < self.conns@.len() && self.conns@[k].0 == u;
                            let ka = if k < i { k } else { k + 1 };
                            assert(self.conns@[k] == before[ka]);
                            if ka < a {
                            } else if ka > a {
                            }
                            assert(ka == a);
                        }
                        if self.live(u) {
                            let k = choose|k: int| 0 <= k < self.conns@.len() && self.conns@[k].0 == u;
                            let ka = if k < i { k } else { k + 1 };
                            assert(self.conns@[k] == before[ka]);
                        }
                    };
                    if self.live(t) {
                        let k = choose|k: int| 0 <= k < self.conns@.len() && self.conns@[k].0 == t;
                        let ka = if k < i { k } else { k + 1 };
                        assert(self.conns@[k] == before[ka]);
                    }
                }
                true
            },
        }
    }

    fn set_phase(&mut self, i: usize, p: Phase)
        requires
            old(self).wf(),
            i < old(self).conns@.len(),
        ensures
            final(self).wf(),
            final(self).token == old(self).token,
            forall|u: usize| final(self).live(u) == old(self).live(u),
            final(self).phase(old(self).conns@[i as int].0) == p,
            forall|u: usize|
                u != old(self).conns@[i as int].0 && old(self).live(u) ==> final(self).phase(u) == old(self).phase(u),
    {
        let t = self.conns[i].0;
        let ghost before = self.conns@;
        self.conns.set(i, (t, p));
        proof {
            assert forall|u: usize| self.live(u) == old(self).live(u) by {
                if old(self).live(u) {
                    let a = choose|a: int| 0 <= a < old(self).conns@.len() && old(self).conns@[a].0 == u;
                    assert(self.conns@[a].0 == u);
                }
                if self.live(u) {
                    let k = choose|k: int| 0 <= k < self.conns@.len() && self.conns@[k].0 == u;
                    assert(before[k].0 == u);
                }
            };
            assert(self.conns@[i as int].0 == t);
            let k = choose|k: int| 0 <= k < self.conns@.len() && self.conns@[k].0 == t;
            if k < i {
            } else if k > i {
            }
            assert forall|u: usize| u != t && old(self).live(u) implies self.phase(u) == old(self).phase(u) by {
                let a = choose|a: int| 0 <= a < old(self).conns@.len() && old(self).conns@[a].0 == u;
                assert(self.conns@[a].0 == u);
                let k = choose|k: int| 0 <= k < self.conns@.len() && self.conns@[k].0 == u;
                assert(before[k].0 == u);
                if k < a {
                } else if k > a {
                }
            };
        }
    }

    /// Handles a re-arm request from the channel. `Write(t)` moves a
    /// connection whose job is running to `Writing`, `Read(t)` one whose
    /// response went out back to `Reading`; the interest to re-arm is
    /// returned. A request for a connection that is gone, or that does not fit
    /// its phase, is ignored.
    pub fn on_channel(&mut self, ev: ConnEvent) -> (r: Option<(usize, Interest)>)
        requires
            old(self).wf(),
        ensures
            final(self).wf(),
            final(self).token == old(self).token,
            forall|u: usize| final(self).live(u) == old(self).live(u),
            match ev {
                ConnEvent::Write(t) => if old(self).live(t) && old(self).phase(t) == Phase::Working {
                    r == Some((t, Interest::Writable)) && final(self).phase(t) == advance(old(self).phase(t), Step::Handled)
                        && forall|u: usize| u != t && old(self).live(u) ==> final(self).phase(u) == old(self).phase(u)
                } else {
                    r is None && *final(self) == *old(self)
                },
                ConnEvent::Read(t) => if old(self).live(t) && old(self).phase(t) == Phase::Writing {
                    r == Some((t, Interest::Readable)) && final(self).phase(t) == advance(old(self).phase(t), Step::Sent)
                        && forall|u: usize| u != t && old(self).live(u) ==> final(self).phase(u) == old(self).phase(u)
                } else {
                    r is None && *final(self) == *old(self)
                },
            },
    {
        let (t, from, to, interest) = match ev {
            ConnEvent::Write(t) => (t, Phase::Working, Phase::Writing, Interest::Writable),
            ConnEvent::Read(t) => (t, Phase::Writing, Phase::Reading, Interest::Readable),
        };
        match self.index_of(t) {
            Some(i) => {
                if self.conns[i].1 == from {
                    self.set_phase(i, to);
                    Some((t, interest))
                } else {
                    None
                }
            },
            None => None,
        }
    }

    /// Decides what a readiness event on connection `t` calls for. Hang-up or
    /// error removes the connection at once; read readiness while `Reading`
    /// asks for a read drain, write readiness while `Writing` for a write
    /// drain; anything else is ignored.
    pub fn on_ready(&mut self, t: usize, rd: Readiness) -> (a: Action)
        requires
            old(self).wf(),
        ensures
            final(self).wf(),
            final(self).token == old(self).token,
            a == if !old(self).live(t) {
                Action::Ignore
            } else if rd.hup || rd.error {
                Action::Remove
            } else if rd.readable && old(self).phase(t) == Phase::Reading {
                Action::Read
            } else if rd.writable && old(self).phase(t) == Phase::Writing {
                Action::Write
            } else {
                Action::Ignore
            },
            a == Action::Remove ==> !final(self).live(t),
            a != Action::Remove ==> *final(self) == *old(self),
            forall|u: usize| u != t ==> final(self).live(u) == old(self).live(u),
            forall|u: usize| u != t && old(self).live(u) ==> final(self).phase(u) == old(self).phase(u),
    {
        match self.index_of(t) {
            None => Action::Ignore,
            Some(i) => {
                if rd.hup || rd.error {
                    self.remove(t);
                    Action::Remove
                } else if rd.readable && self.conns[i].1 == Phase::Reading {
                    Action::Read
                } else if rd.writable && self.conns[i].1 == Phase::Writing {
                    Action::Write
                } else {
                    Action::Ignore
                }
            },
        }
    }

    /// After a read drain of connection `t`: if it closed, the connection
    /// leaves the table; else a `Reading` connection moves to `Working` and its
    /// buffer is handed to a worker.
    pub fn after_read(&mut self, t: usize, closing: bool) -> (a: Action)
        requires
            old(self).wf(),
        ensures
            final(self).wf(),
            final(self).token == old(self).token,
            a == if !old(self).live(t) {
                Action::Ignore
            } else if closing {
                Action::Remove
            } else if old(self).phase(t) == Phase::Reading {
                Action::Dispatch
            } else {
                Action::Ignore
            },
            a == Action::Remove ==> !final(self).live(t),
            a == Action::Dispatch ==> final(self).live(t) && final(self).phase(t) == advance(old(self).phase(t), Step::Drained)
                && starts_job(old(self).phase(t), Step::Drained),
            a == Action::Ignore ==> *final(self) == *old(self),
            forall|u: usize| u != t ==> final(self).live(u) == old(self).live(u),
            forall|u: usize| u != t && old(self).live(u) ==> final(self).phase(u) == old(self).phase(u),
    {
        match self.index_of(t) {
            None => Action::Ignore,
            Some(i) => {
                if closing {
                    self.remove(t);
                    Action::Remove
                } else if self.conns[i].1 == Phase::Reading {
                    self.set_phase(i, Phase::Working);
                    Action::Dispatch
                } else {
                    Action::Ignore
                }
            },
        }
    }

    /// After a write drain of connection `t`: if it closed, the connection
    /// leaves the table; if bytes are left, a `Writing` connection is re-armed
    /// for writing; once all is sent it waits for its `Read` re-arm request.
    pub fn after_write(&mut self, t: usize, step: WriteStep) -> (a: Action)
        requires
            old(self).wf(),
        ensures
            final(self).wf(),
            a == if !old(self).live(t) {
                Action::Ignore
            } else if step == WriteStep::Close {
                Action::Remove
            } else if step == WriteStep::Partial && old(self).phase(t) == Phase::Writing {
                Action::Rearm
            } else {
                Action::Ignore
            },
            a == Action::Remove ==> !final(self).live(t),
            a != Action::Remove ==> *final(self) == *old(self),
            final(self).token == old(self).token,
            forall|u: usize| u != t ==> final(self).live(u) == old(self).live(u),
            forall|u: usize| u != t && old(self).live(u) ==> final(self).phase(u) == old(self).phase(u),
    {
        match self.index_of(t) {
            None => Action::Ignore,
            Some(i) => {
                if step == WriteStep::Close {
                    self.remove(t);
                    Action::Remove
                } else if step == WriteStep::Partial && self.conns[i].1 == Phase::Writing {
                    Action::Rearm
                } else {
                    Action::Ignore
                }
            },
        }
    }
}

/// No two live connections share a token.
pub proof fn lemma_token_unique(tab: ConnTable, i: int, j: int)
    requires
        tab.wf(),
        0 <= i < tab.conns@.len(),
        0 <= j < tab.conns@.len(),
        tab.conns@[i].0 == tab.conns@[j].0,
    ensures
        i == j,
{
    if i < j {
    } else if j < i {
    }
}

/// Tokens are issued in strictly increasing order, above the reserved ones,
/// so none is issued twice. `before[k]` is the counter when the `k`-th token,
/// `issued[k]`, was handed out (`accept` hands out the counter plus one and
/// leaves the counter there; no other operation moves it).
pub proof fn lemma_tokens_increase(before: Seq<usize>, issued: Seq<usize>)
    requires
        before.len() == issued.len(),
        forall|k: int| 0 <= k < issued.len() ==> before[k] >= TOKEN_BASE,
        forall|k: int| 0 <= k < issued.len() ==> issued[k] == before[k] + 1,
        forall|k: int| 0 < k < issued.len() ==> before[k] >= issued[k - 1],
    ensures
        forall|i: int| 0 <= i < issued.len() ==> issued[i] > TOKEN_BASE,
        forall|i: int, j: int| 0 <= i < j < issued.len() ==> issued[i] < issued[j],
    decreases issued.len(),
{
    if issued.len() > 0 {
        let n = issued.len() - 1;
        lemma_tokens_increase(before.drop_last(), issued.drop_last());
        assert forall|i: int, j: int| 0 <= i < j < issued.len() implies issued[i] < issued[j] by {
            if j == n {
                if i < n - 1 {
                    assert(issued.drop_last()[i] < issued.drop_last()[n - 1]);
                }
            } else {
                assert(issued.drop_last()[i] < issued.drop_last()[j]);
            }
        };
    }
}

} // verus!
