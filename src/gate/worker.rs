use vstd::prelude::*;

use crate::gate::job::{Action, Auth, Job};
use crate::model::Position;
use crate::net::incoming::Incoming;
use crate::net::reader::{ReadError, Reader};
use crate::reason::{DropReason, Failure};
use crate::schedule::{inserted, Schedule, ScheduleQueue};

verus! {

/// Id of the map of a player with no location on record.
pub open spec fn default_map_id() -> Seq<char> {
    seq!['m', 'a', 'p', '_', '0', '0', '0', '0']
}

/// The map of a player with no location on record.
pub fn default_map() -> (r: String)
    ensures
        r@ == default_map_id(),
{
    let r = "map_0000".to_owned();
    proof {
        reveal_strlit("map_0000");
    }
    assert(r@ =~= default_map_id());
    r
}

/// Where a routed player is placed on its map.
pub open spec fn spawn() -> Position {
    Position { x: 0, y: 0, z: 0 }
}

/// The front door: connections not yet routed, the channels to the map workers, and the
/// router's pending jobs. `C` is a connection and `S` the sending end of a handoff channel.
pub struct Worker<C, S> {
    streams: Vec<C>,
    schedule_queue: ScheduleQueue<Job<C>>,
    channels: Vec<(String, S)>,
}

/// Whether a channel is registered under `key`, at index `k`.
pub open spec fn channel_at<S>(channels: Seq<(String, S)>, key: Seq<char>, k: int) -> bool {
    0 <= k < channels.len() && channels[k].0@ == key
}

pub open spec fn has_channel<S>(channels: Seq<(String, S)>, key: Seq<char>) -> bool {
    exists|k: int| #[trigger] channel_at(channels, key, k)
}

/// After a read from connection `index`: nothing queued (it would block), or one job queued
/// at `now`, the packet read or the connection's drop for a failed read.
pub open spec fn read_queued<C>(old: Seq<Schedule<Job<C>>>, new: Seq<Schedule<Job<C>>>, index: usize, now: u64) -> bool {
    new == old || exists|s: Schedule<Job<C>>|
        #[trigger] inserted(old, new, s) && s.due == now && ((s.job matches Job::Incoming(k, _) && k == index)
            || (s.job matches Job::Drop(k, DropReason::Read(e)) && k == index && !(e is WouldBlock)))
}

/// The entry of a routed connection in `jobs`, due at `now`.
pub open spec fn send_job<C>(index: usize, user_id: String, map_id: String, now: u64) -> Schedule<Job<C>> {
    Schedule { job: Job::Send { index, user_id, map_id }, due: now }
}

impl<C, S> Worker<C, S> {
    pub closed spec fn streams(&self) -> Seq<C> {
        self.streams@
    }

    pub closed spec fn jobs(&self) -> Seq<Schedule<Job<C>>> {
        self.schedule_queue@
    }

    pub closed spec fn channels(&self) -> Seq<(String, S)> {
        self.channels@
    }

    pub closed spec fn wf(&self) -> bool {
        &&& self.schedule_queue.wf()
        &&& forall|i: int, j: int|
            0 <= i < j < self.channels@.len() ==> self.channels@[i].0@ != self.channels@[j].0@
    }

    pub fn new() -> (r: Worker<C, S>)
        ensures
            r.wf(),
            r.streams().len() == 0,
            r.jobs().len() == 0,
            r.channels().len() == 0,
    {
        Worker { streams: Vec::new(), schedule_queue: ScheduleQueue::new(), channels: Vec::new() }
    }

    /// Registers the handoff channel of map `key`, replacing one already registered there.
    pub fn add_channel(&mut self, key: &str, channel: S)
        requires
            old(self).wf(),
        ensures
            final(self).wf(),
            final(self).streams() == old(self).streams(),
            final(self).jobs() == old(self).jobs(),
            forall|k: int| #[trigger] channel_at(old(self).channels(), key@, k) ==> final(self).channels()
                == old(self).channels().update(k, (final(self).channels()[k].0, channel))
                && final(self).channels()[k].0@ == key@,
            !has_channel(old(self).channels(), key@) ==> final(self).channels().len() == old(self).channels().len()
                + 1 && final(self).channels().drop_last() == old(self).channels()
                && final(self).channels().last().1 == channel,
            has_channel(final(self).channels(), key@),
    {
        let name = key.to_owned();
        match find_channel(&self.channels, &name) {
            Some(k) => {
                let ghost before = self.channels@;
                self.channels.set(k, (name, channel));
                assert(channel_at(self.channels@, key@, k as int));
                assert forall|i: int, j: int| 0 <= i < j < self.channels@.len() implies self.channels@[i].0@
                    != self.channels@[j].0@ by {
                    assert(before[i].0@ != before[j].0@);
                }
                assert forall|j: int| #[trigger] channel_at(before, key@, j) implies j == k by {
                    if j < k {
                        assert(before[j].0@ != before[k as int].0@);
                    } else if j > k {
                        assert(before[k as int].0@ != before[j].0@);
                    }
                }
            },
            None => {
                let ghost before = self.channels@;
                self.channels.push((name, channel));
                assert(self.channels@.drop_last() =~= before);
                assert forall|i: int, j: int| 0 <= i < j < self.channels@.len() implies self.channels@[i].0@
                    != self.channels@[j].0@ by {
                    if j == before.len() {
                        assert(!channel_at(before, key@, i));
                    } else {
                        assert(before[i].0@ != before[j].0@);
                    }
                }
                assert(channel_at(self.channels@, key@, before.len() as int));
            },
        }
    }

    /// The sending end of the channel at `k`.
    pub fn channel(&self, k: usize) -> (r: &S)
        requires
            k < self.channels().len(),
        ensures
            *r == self.channels()[k as int].1,
    {
        &self.channels[k].1
    }

    /// Number of pending jobs.
    pub fn pending(&self) -> (r: usize)
        ensures
            r == self.jobs().len(),
    {
        self.schedule_queue.len()
    }

    /// Number of connections waiting for routing.
    pub fn len(&self) -> (r: usize)
        ensures
            r == self.streams().len(),
    {
        self.streams.len()
    }

    /// The connection at `i`.
    pub fn stream(&self, i: usize) -> (r: &C)
        requires
            i < self.streams().len(),
        ensures
            *r == self.streams()[i as int],
    {
        &self.streams[i]
    }

    /// The earliest pending job, removed, where it is due at `now`.
    pub fn take_due(&mut self, now: u64) -> (r: Option<Job<C>>)
        requires
            old(self).wf(),
        ensures
            final(self).wf(),
            final(self).streams() == old(self).streams(),
            final(self).channels() == old(self).channels(),
            old(self).jobs().len() > 0 && old(self).jobs()[0].due <= now ==> r == Some(old(self).jobs()[0].job)
                && final(self).jobs() == old(self).jobs().drop_first(),
            !(old(self).jobs().len() > 0 && old(self).jobs()[0].due <= now) ==> r is None && *final(self)
                == *old(self),
    {
        if self.schedule_queue.is_first_due(now) {
            self.schedule_queue.take_due(now)
        } else {
            None
        }
    }

    /// When the earliest pending job falls due.
    pub fn first_due(&self) -> (r: Option<u64>)
        ensures
            self.jobs().len() == 0 ==> r is None,
            self.jobs().len() > 0 ==> r == Some(self.jobs()[0].due),
    {
        self.schedule_queue.first_due()
    }

    /// Queues what a read from connection `index` gave: a packet to handle, or the drop of
    /// a connection that failed; a read that would block changes nothing.
    pub fn on_read(&mut self, index: usize, result: Result<Incoming, ReadError>, now: u64)
        requires
            old(self).wf(),
        ensures
            final(self).wf(),
            final(self).streams() == old(self).streams(),
            final(self).channels() == old(self).channels(),
            result matches Err(ReadError::WouldBlock) ==> *final(self) == *old(self),
            result matches Ok(p) ==> inserted(old(self).jobs(), final(self).jobs(), Schedule { job: Job::Incoming(index, p), due: now }),
            result matches Err(e) ==> (e is WouldBlock || inserted(
                old(self).jobs(),
                final(self).jobs(),
                Schedule { job: Job::Drop(index, DropReason::Read(e)), due: now },
            )),
    {
        match result {
            Ok(packet) => {
                self.schedule_queue.push(Schedule::instant(Job::Incoming(index, packet), now));
            },
            Err(ReadError::WouldBlock) => {},
            Err(e) => {
                self.schedule_queue.push(Schedule::instant(Job::Drop(index, DropReason::Read(e)), now));
            },
        }
    }

    /// Queues what authentication of connection `index` gave: its handoff to the player's
    /// map (the default map where none is on record), or exactly one drop that carries the
    /// refusal's text.
    pub fn on_auth(&mut self, index: usize, outcome: Auth, now: u64)
        requires
            old(self).wf(),
        ensures
            final(self).wf(),
            final(self).streams() == old(self).streams(),
            final(self).channels() == old(self).channels(),
            outcome matches Auth::Denied(reason) ==> inserted(
                old(self).jobs(),
                final(self).jobs(),
                Schedule { job: Job::Drop(index, DropReason::Rejected(reason)), due: now },
            ),
            outcome matches Auth::Granted { user_id, map_id } ==> exists|m: String|
                inserted(old(self).jobs(), final(self).jobs(), #[trigger] send_job(index, user_id, m, now))
                    && m@ == (match map_id {
                    Some(id) => id@,
                    None => default_map_id(),
                }),
    {
        match outcome {
            Auth::Granted { user_id, map_id } => {
                let map_id = match map_id {
                    Some(id) => id,
                    None => default_map(),
                };
                let entry = Schedule::instant(Job::Send { index, user_id, map_id }, now);
                self.schedule_queue.push(entry);
                assert(entry == send_job::<C>(index, user_id, map_id, now));
            },
            Auth::Denied(reason) => {
                self.schedule_queue.push(Schedule::instant(Job::Drop(index, DropReason::Rejected(reason)), now));
            },
        }
    }
}

impl<C: Reader, S> Worker<C, S> {
    /// Handles one job. A failure that concerns one connection becomes that connection's
    /// drop or an error for the caller to log, never more.
    pub fn handle_job(&mut self, job: Job<C>, now: u64) -> (r: Result<Action<C>, Failure>)
        requires
            old(self).wf(),
        ensures
            final(self).wf(),
            final(self).channels() == old(self).channels(),
            job matches Job::Accept(c) ==> r matches Ok(Action::Nothing) && final(self).streams()
                == old(self).streams().push(c) && final(self).jobs() == old(self).jobs(),
            job matches Job::Drop(i, reason) ==> if i < old(self).streams().len() {
                r == Ok::<Action<C>, Failure>(Action::Close(old(self).streams()[i as int], reason))
                    && final(self).streams() == old(self).streams().remove(i as int)
                    && final(self).jobs() == old(self).jobs()
            } else {
                r == Err::<Action<C>, Failure>(Failure::StreamNotFound) && *final(self) == *old(self)
            },
            job matches Job::Readable(i) ==> (i >= old(self).streams().len() ==> r == Err::<
                Action<C>,
                Failure,
            >(Failure::StreamNotFound) && *final(self) == *old(self)),
            job matches Job::Readable(i) ==> final(self).streams() == old(self).streams(),
            job matches Job::Readable(i) ==> (i < old(self).streams().len() ==> (r matches Ok(Action::Nothing))
                && read_queued(old(self).jobs(), final(self).jobs(), i, now)),
            job matches Job::Incoming(i, Incoming::Hello { token }) ==> r == Ok::<Action<C>, Failure>(
                Action::Authenticate { index: i, token },
            ) && *final(self) == *old(self),
            job matches Job::Incoming(i, Incoming::Move { .. }) ==> r matches Ok(Action::Nothing)
                && *final(self) == *old(self),
            job matches Job::Send { index, user_id, map_id } ==> if index < old(self).streams().len() {
                &&& final(self).streams() == old(self).streams().remove(index as int)
                &&& final(self).jobs() == old(self).jobs()
                &&& forall|k: int| #[trigger] channel_at(old(self).channels(), map_id@, k) ==> r
                    == Ok::<Action<C>, Failure>(
                    Action::Handoff {
                        conn: old(self).streams()[index as int],
                        channel: k as usize,
                        user_id,
                        position: spawn(),
                    },
                )
                &&& !has_channel(old(self).channels(), map_id@) ==> r == Ok::<Action<C>, Failure>(
                    Action::Close(old(self).streams()[index as int], DropReason::Failed(Failure::UnknownMap)),
                )
            } else {
                r == Err::<Action<C>, Failure>(Failure::StreamNotFound) && *final(self) == *old(self)
            },
    {
        match job {
            Job::Accept(conn) => {
                self.streams.push(conn);
                Ok(Action::Nothing)
            },
            Job::Drop(index, reason) => {
                if index >= self.streams.len() {
                    return Err(Failure::StreamNotFound);
                }
                let conn = self.streams.remove(index);
                Ok(Action::Close(conn, reason))
            },
            Job::Readable(index) => {
                if index >= self.streams.len() {
                    return Err(Failure::StreamNotFound);
                }
                let result = self.streams[index].try_read_packet();
                let ghost before = self.schedule_queue@;
                let ghost got = result;
                self.on_read(index, result, now);
                proof {
                    match got {
                        Ok(p) => {
                            assert(inserted(before, self.schedule_queue@, Schedule { job: Job::Incoming(index, p), due: now }));
                        },
                        Err(e) => {
                            if !(e is WouldBlock) {
                                assert(inserted(before, self.schedule_queue@, Schedule { job: Job::Drop(index, DropReason::Read(e)), due: now }));
                            }
                        },
                    }
                }
                Ok(Action::Nothing)
            },
            Job::Incoming(index, packet) => match packet {
                Incoming::Hello { token } => Ok(Action::Authenticate { index, token }),
                Incoming::Move { .. } => Ok(Action::Nothing),
            },
            Job::Send { index, user_id, map_id } => {
                if index >= self.streams.len() {
                    return Err(Failure::StreamNotFound);
                }
                let conn = self.streams.remove(index);
                match find_channel(&self.channels, &map_id) {
                    Some(k) => {
                        proof {
                            assert forall|j: int| #[trigger] channel_at(self.channels@, map_id@, j) implies j == k by {
                                if j < k {
                                    assert(self.channels@[j].0@ != self.channels@[k as int].0@);
                                } else if j > k {
                                    assert(self.channels@[k as int].0@ != self.channels@[j].0@);
                                }
                            }
                        }
                        Ok(Action::Handoff { conn, channel: k, user_id, position: Position { x: 0, y: 0, z: 0 } })
                    },
                    None => Ok(Action::Close(conn, DropReason::Failed(Failure::UnknownMap))),
                }
            },
        }
    }
}

/// A refused login queues exactly one job, the drop of that connection with the refusal's
/// text, and no handoff: every `Send` job pending afterwards was pending before.
pub proof fn lemma_rejection_never_routes<C>(
    old: Seq<Schedule<Job<C>>>,
    new: Seq<Schedule<Job<C>>>,
    index: usize,
    reason: String,
    now: u64,
)
    requires
        inserted(old, new, Schedule { job: Job::Drop(index, DropReason::Rejected(reason)), due: now }),
    ensures
        new.len() == old.len() + 1,
        forall|i: int| 0 <= i < new.len() && (#[trigger] new[i]).job is Send ==> exists|j: int|
            0 <= j < old.len() && old[j] == new[i],
{
    let e = Schedule { job: Job::<C>::Drop(index, DropReason::Rejected(reason)), due: now };
    let k = choose|k: int|
        0 <= k <= old.len() && new == old.insert(k, e) && (forall|i: int|
            0 <= i < k ==> old[i].due <= e.due) && (forall|i: int|
            k <= i < old.len() ==> old[i].due > e.due);
    assert forall|i: int| 0 <= i < new.len() && (#[trigger] new[i]).job is Send implies exists|j: int|
        0 <= j < old.len() && old[j] == new[i] by {
        if i < k {
            assert(old[i] == new[i]);
        } else if i > k {
            assert(old[i - 1] == new[i]);
        }
    }
}

/// Index of the channel registered under `key`.
fn find_channel<S>(channels: &Vec<(String, S)>, key: &String) -> (r: Option<usize>)
    ensures
        r matches Some(k) ==> channel_at(channels@, key@, k as int),
        r is None ==> !has_channel(channels@, key@),
{
    let mut k: usize = 0;
    while k < channels.len()
        invariant
            k <= channels@.len(),
            forall|j: int| 0 <= j < k ==> channels@[j].0@ != key@,
        decreases channels@.len() - k,
    {
        if channels[k].0 == *key {
            return Some(k);
        }
        k = k + 1;
    }
    None
}

} // verus!
