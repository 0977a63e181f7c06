use vstd::prelude::*;

verus! {

/// The one capability every registered callback shares: it can be handed an
/// encoded payload. Decoding into the listener's own value type happens inside.
pub trait Handler {
    fn handle(&self, payload: Vec<u8>);
}

/// A registered callback with its identity and its remaining call budget.
///
/// `limit` is `None` for an unlimited listener; `Some(0)` marks a listener
/// that must not be invoked any more and is swept by the next emission.
pub struct Listener<C> {
    pub callback: C,
    pub limit: Option<u64>,
    pub id: String,
}

/// One unit of work produced by an emission: a callback and the payload it
/// is to receive.
pub struct Job<C> {
    pub callback: C,
    pub payload: Vec<u8>,
}

impl<C: Handler> Job<C> {
    /// Hands the payload to the callback.
    pub fn run(self) {
        self.callback.handle(self.payload)
    }
}

/// A listener whose call budget is used up.
pub open spec fn is_exhausted<C>(l: Listener<C>) -> bool {
    l.limit == Some(0u64)
}

/// The listener as it is stored after one dispatch: a finite budget shrinks
/// by one, an unlimited listener is unchanged.
pub open spec fn after_dispatch<C>(l: Listener<C>) -> Listener<C> {
    match l.limit {
        Some(n) if n > 0 => Listener { callback: l.callback, limit: Some((n - 1) as u64), id: l.id },
        _ => l,
    }
}

/// The listeners an emission schedules, in registration order: all but the
/// exhausted ones.
pub open spec fn scheduled<C>(ls: Seq<Listener<C>>) -> Seq<Listener<C>>
    decreases ls.len(),
{
    if ls.len() == 0 {
        Seq::empty()
    } else if is_exhausted(ls.last()) {
        scheduled(ls.drop_last())
    } else {
        scheduled(ls.drop_last()).push(ls.last())
    }
}

/// The listeners an emission leaves registered: the scheduled ones, each with
/// its budget charged.
pub open spec fn survivors<C>(ls: Seq<Listener<C>>) -> Seq<Listener<C>> {
    scheduled(ls).map_values(|l: Listener<C>| after_dispatch(l))
}

/// No two listeners of the sequence share an id.
pub open spec fn distinct_ids<C>(ls: Seq<Listener<C>>) -> bool {
    forall|i: int, j: int|
        0 <= i < j < ls.len() ==> (#[trigger] ls[i]).id@ != (#[trigger] ls[j]).id@
}

/// Some listener of the sequence carries the id.
pub open spec fn mentions<C>(ls: Seq<Listener<C>>, id: Seq<char>) -> bool {
    exists|i: int| 0 <= i < ls.len() && (#[trigger] ls[i]).id@ == id
}

/// `jobs` delivers `payload` to exactly the callbacks of `targets`, in order.
pub open spec fn carries<C: Clone>(jobs: Seq<Job<C>>, targets: Seq<Listener<C>>, payload: Seq<u8>) -> bool {
    &&& jobs.len() == targets.len()
    &&& forall|j: int|
        0 <= j < jobs.len() ==> cloned(targets[j].callback, (#[trigger] jobs[j]).callback)
            && jobs[j].payload@ == payload
}

/// Scheduling one more listener extends the schedule at its end, unless the
/// listener is exhausted.
pub proof fn scheduled_push<C>(ls: Seq<Listener<C>>, l: Listener<C>)
    ensures
        is_exhausted(l) ==> scheduled(ls.push(l)) == scheduled(ls),
        !is_exhausted(l) ==> scheduled(ls.push(l)) == scheduled(ls).push(l),
{
    assert(ls.push(l).drop_last() =~= ls);
    assert(ls.push(l).last() == l);
}

/// Every scheduled listener was registered, and a sequence without repeated
/// ids keeps that property through scheduling.
pub proof fn scheduled_ids<C>(ls: Seq<Listener<C>>)
    ensures
        scheduled(ls).len() <= ls.len(),
        forall|j: int|
            0 <= j < scheduled(ls).len() ==> mentions(ls, (#[trigger] scheduled(ls)[j]).id@)
                && !is_exhausted(scheduled(ls)[j]),
        distinct_ids(ls) ==> distinct_ids(scheduled(ls)),
    decreases ls.len(),
{
    if ls.len() > 0 {
        let front = ls.drop_last();
        scheduled_ids(front);
        assert forall|j: int| 0 <= j < scheduled(ls).len() implies mentions(
            ls,
            (#[trigger] scheduled(ls)[j]).id@,
        ) && !is_exhausted(scheduled(ls)[j]) by {
            if j < scheduled(front).len() {
                let i = choose|i: int| 0 <= i < front.len() && (#[trigger] front[i]).id@ == scheduled(front)[j].id@;
                assert(ls[i] == front[i]);
            } else {
                assert(ls[ls.len() - 1] == ls.last());
            }
        }
        if distinct_ids(ls) {
            assert forall|i: int, j: int| 0 <= i < j < front.len() implies (#[trigger] front[i]).id@
                != (#[trigger] front[j]).id@ by {
                assert(front[i] == ls[i] && front[j] == ls[j]);
            }
            assert forall|i: int, j: int| 0 <= i < j < scheduled(ls).len() implies (#[trigger] scheduled(
                ls,
            )[i]).id@ != (#[trigger] scheduled(ls)[j]).id@ by {
                if j == scheduled(front).len() {
                    let a = choose|a: int| 0 <= a < front.len() && (#[trigger] front[a]).id@ == scheduled(front)[i].id@;
                    assert(front[a] == ls[a]);
                    assert(ls[ls.len() - 1] == ls.last());
                }
            }
        }
    }
}

/// The survivors carry the ids and callbacks of the scheduled listeners,
/// position by position; a sequence without repeated ids has survivors
/// without repeated ids.
pub proof fn survivors_ids<C>(ls: Seq<Listener<C>>)
    ensures
        survivors(ls).len() == scheduled(ls).len(),
        forall|j: int|
            0 <= j < survivors(ls).len() ==> (#[trigger] survivors(ls)[j]).id@ == scheduled(ls)[j].id@
                && survivors(ls)[j].callback == scheduled(ls)[j].callback && mentions(
                ls,
                survivors(ls)[j].id@,
            ),
        distinct_ids(ls) ==> distinct_ids(survivors(ls)),
{
    scheduled_ids(ls);
    if distinct_ids(ls) {
        assert forall|i: int, j: int| 0 <= i < j < survivors(ls).len() implies (#[trigger] survivors(
            ls,
        )[i]).id@ != (#[trigger] survivors(ls)[j]).id@ by {
            assert(scheduled(ls)[i].id@ != scheduled(ls)[j].id@);
        }
    }
}

} // verus!
