use vstd::prelude::*;
use crate::identity::{pad_beyond, random_uuid_text, starts_with_uuid};
use crate::listener::{
    carries, scheduled, scheduled_push, survivors, survivors_ids, Handler, Job, Listener,
};
use crate::registry::{
    channel_ids_distinct, emitted, event_index_unique, holds_id, id_at, listeners_of, registered,
    registered_well_formed, with_listeners, with_listeners_well_formed, without_id,
    without_id_well_formed, holder_unique, Channel, Entry, Registry,
};

verus! {

/// Manages event listeners and the bookkeeping of emissions.
pub struct EventEmitter<C> {
    pub listeners: Registry<C>,
}

impl<C> View for EventEmitter<C> {
    type V = Seq<Entry<C>>;

    open spec fn view(&self) -> Seq<Entry<C>> {
        self.listeners@
    }
}

/// The work unit that delivers `payload` to one listener.
fn job_for<C: Clone>(listener: &Listener<C>, payload: &Vec<u8>) -> (job: Job<C>)
    ensures
        cloned(listener.callback, job.callback),
        job.payload@ == payload@,
{
    Job { callback: listener.callback.clone(), payload: payload.clone() }
}

/// One scheduling pass over an event's listeners: every listener that is not
/// exhausted gets a job and has its budget charged, every exhausted one is
/// removed.
pub fn sweep<C: Clone>(listeners: &mut Vec<Listener<C>>, payload: &Vec<u8>) -> (jobs: Vec<Job<C>>)
    ensures
        final(listeners)@ == survivors(old(listeners)@),
        carries(jobs@, scheduled(old(listeners)@), payload@),
{
    let ghost orig = listeners@;
    let ghost mut done: int = 0;
    let mut jobs: Vec<Job<C>> = Vec::new();
    let mut i: usize = 0;
    proof {
        assert(orig.take(0) =~= Seq::<Listener<C>>::empty());
        assert(listeners@ =~= survivors(orig.take(0)) + orig.skip(0));
    }
    while i < listeners.len()
        invariant
            0 <= done <= orig.len(),
            i == scheduled(orig.take(done)).len(),
            listeners@ == survivors(orig.take(done)) + orig.skip(done),
            carries(jobs@, scheduled(orig.take(done)), payload@),
        decreases orig.len() - done,
    {
        let ghost before = listeners@;
        let ghost head = orig.take(done);
        proof {
            assert(before[i as int] == orig.skip(done)[0]);
            assert(orig.take(done + 1) =~= head.push(orig[done]));
            scheduled_push(head, orig[done]);
        }
        let limit = listeners[i].limit;
        if limit == Some(0u64) {
            listeners.remove(i);
        } else {
            let job = job_for(&listeners[i], payload);
            jobs.push(job);
            match limit {
                Some(n) => {
                    listeners[i].limit = Some(n - 1);
                },
                None => {},
            }
            i += 1;
        }
        proof {
            done = done + 1;
            assert(listeners@ =~= survivors(orig.take(done)) + orig.skip(done));
        }
    }
    proof {
        assert(orig.take(done) =~= orig);
        assert(listeners@ =~= survivors(orig));
    }
    jobs
}

impl<C> EventEmitter<C> {
    /// Event names are unique, and listener ids are unique across all events.
    pub open spec fn wf(&self) -> bool {
        self.listeners.wf()
    }

    /// An emitter without listeners.
    pub fn new() -> (emitter: Self)
        ensures
            emitter@ == Seq::<Entry<C>>::empty(),
            emitter.wf(),
    {
        EventEmitter { listeners: Registry::new() }
    }

    /// Registers a listener that is called on every emission of the event.
    /// Returns its id, which no listener of the registry carried before.
    pub fn on(&mut self, event: &str, callback: C) -> (id: String)
        requires
            old(self).wf(),
        ensures
            final(self).wf(),
            !holds_id(old(self)@, id@),
            starts_with_uuid(id@),
            final(self)@ == registered(old(self)@, event@, (Listener { callback, limit: None, id })),
    {
        self.on_limited(event, None, callback)
    }

    /// Registers a listener that is called on the next emission of the event
    /// only.
    pub fn once(&mut self, event: &str, callback: C) -> (id: String)
        requires
            old(self).wf(),
        ensures
            final(self).wf(),
            !holds_id(old(self)@, id@),
            starts_with_uuid(id@),
            final(self)@ == registered(old(self)@, event@, (Listener { callback, limit: Some(1u64), id })),
    {
        self.on_limited(event, Some(1), callback)
    }

    /// Registers a listener with a call budget: `None` for no limit,
    /// `Some(n)` for `n` calls. The listener goes to the end of its event's
    /// sequence; the event is created on first use.
    ///
    /// The id is the text of a random UUID. Should that text already stand in
    /// the registry, it is lengthened with hyphens beyond every registered
    /// id, so that the returned id is new in every case.
    /// That the id was never handed out before, for a listener since removed,
    /// rests on the randomness of the UUID alone.
    pub fn on_limited(&mut self, event: &str, limit: Option<u64>, callback: C) -> (id: String)
        requires
            old(self).wf(),
        ensures
            final(self).wf(),
            !holds_id(old(self)@, id@),
            starts_with_uuid(id@),
            final(self)@ == registered(old(self)@, event@, (Listener { callback, limit, id })),
    {
        let drawn = random_uuid_text();
        proof {
            assert(drawn@.subrange(0, 36) =~= drawn@);
        }
        let id = match self.listeners.find(&drawn) {
            None => drawn,
            Some(_) => {
                let longest = self.listeners.longest_id();
                let padded = pad_beyond(drawn, longest);
                proof {
                    assert forall|k: int, i: int| !id_at(self@, k, i, padded@) by {
                        if id_at(self@, k, i, padded@) {
                            assert(self@[k].listeners[i].id@.len() <= longest);
                        }
                    }
                }
                padded
            },
        };
        let listener = Listener { callback, limit, id: id.clone() };
        let name = event.to_owned();
        proof {
            registered_well_formed(self@, event@, listener);
        }
        match self.listeners.index_of(&name) {
            Some(k) => {
                proof {
                    event_index_unique(self@, event@, k as int);
                }
                self.listeners.channels[k].listeners.push(listener);
                proof {
                    assert(self@ =~= registered(old(self)@, event@, listener));
                }
            },
            None => {
                let mut listeners: Vec<Listener<C>> = Vec::new();
                listeners.push(listener);
                self.listeners.channels.push(Channel { name, listeners });
                proof {
                    assert(self@ =~= registered(old(self)@, event@, listener));
                }
            },
        }
        id
    }

    /// Removes the listener with the given id, wherever it is registered.
    /// Returns the id if a listener was removed, `None` if no listener
    /// carried it; afterwards no listener carries it.
    pub fn remove_listener(&mut self, id_to_delete: &str) -> (removed: Option<String>)
        requires
            old(self).wf(),
        ensures
            final(self).wf(),
            final(self)@ == without_id(old(self)@, id_to_delete@),
            !holds_id(final(self)@, id_to_delete@),
            match removed {
                Some(id) => id@ == id_to_delete@ && holds_id(old(self)@, id_to_delete@),
                None => !holds_id(old(self)@, id_to_delete@) && final(self)@ == old(self)@,
            },
    {
        let id = id_to_delete.to_owned();
        proof {
            without_id_well_formed(self@, id@);
        }
        match self.listeners.find(&id) {
            Some((k, i)) => {
                proof {
                    holder_unique(self@, id@, k as int, i as int);
                }
                self.listeners.channels[k].listeners.remove(i);
                proof {
                    assert(self@ =~= without_id(old(self)@, id@));
                }
                Some(id)
            },
            None => None,
        }
    }
}

impl<C> Default for EventEmitter<C> {
    /// An emitter without listeners.
    fn default() -> (emitter: Self)
        ensures
            emitter@ == Seq::<Entry<C>>::empty(),
            emitter.wf(),
    {
        EventEmitter::new()
    }
}

impl<C: Clone> EventEmitter<C> {
    /// The bookkeeping of one emission. For each listener of the event, in
    /// registration order: an exhausted listener is removed and gets no job;
    /// any other gets one job carrying the payload, and a finite budget is
    /// charged at once, before the job runs. An event without listeners
    /// yields no job and changes nothing.
    ///
    /// The jobs are independent of each other; the caller runs them, side by
    /// side if it likes, and waits for all of them.
    pub fn emit(&mut self, event: &str, payload: Vec<u8>) -> (jobs: Vec<Job<C>>)
        requires
            old(self).wf(),
        ensures
            final(self).wf(),
            final(self)@ == emitted(old(self)@, event@),
            carries(
                jobs@,
                match listeners_of(old(self)@, event@) {
                    Some(ls) => scheduled(ls),
                    None => Seq::empty(),
                },
                payload@,
            ),
    {
        let name = event.to_owned();
        match self.listeners.index_of(&name) {
            Some(k) => {
                let ghost ls = self@[k as int].listeners;
                proof {
                    event_index_unique(self@, event@, k as int);
                    channel_ids_distinct(self@, k as int);
                    survivors_ids(ls);
                    with_listeners_well_formed(self@, k as int, survivors(ls));
                }
                let jobs = sweep(&mut self.listeners.channels[k].listeners, &payload);
                proof {
                    assert(self@ =~= with_listeners(old(self)@, k as int, survivors(ls)));
                }
                jobs
            },
            None => Vec::new(),
        }
    }
}

impl<C: Clone> EventEmitter<C> {
    /// The jobs of a synchronous emission: one for every listener of the
    /// event, exhausted or not, in registration order. An unknown event has
    /// none.
    pub fn sync_jobs(&self, event: &str, payload: &Vec<u8>) -> (jobs: Vec<Job<C>>)
        requires
            self.wf(),
        ensures
            carries(
                jobs@,
                match listeners_of(self@, event@) {
                    Some(ls) => ls,
                    None => Seq::empty(),
                },
                payload@,
            ),
    {
        let mut jobs: Vec<Job<C>> = Vec::new();
        match self.listeners.get(event) {
            Some(listeners) => {
                let mut i: usize = 0;
                while i < listeners.len()
                    invariant
                        i <= listeners@.len(),
                        carries(jobs@, listeners@.take(i as int), payload@),
                    decreases listeners@.len() - i,
                {
                    let job = job_for(&listeners[i], payload);
                    jobs.push(job);
                    i += 1;
                }
                proof {
                    assert(listeners@.take(i as int) =~= listeners@);
                }
            },
            None => {},
        }
        jobs
    }
}

/// Runs the jobs one after the other, first to last, each ending before the
/// next begins.
pub fn run_in_order<C: Handler>(jobs: Vec<Job<C>>) {
    for job in jobs {
        job.run();
    }
}

impl<C: Handler + Clone> EventEmitter<C> {
    /// Calls every listener of the event with the payload, one after the
    /// other in registration order, on the caller's own thread. Call budgets
    /// are neither checked nor charged, and nothing is removed.
    pub fn sync_emit(&self, event: &str, payload: Vec<u8>)
        requires
            self.wf(),
    {
        let jobs = self.sync_jobs(event, &payload);
        run_in_order(jobs);
    }
}

} // verus!
