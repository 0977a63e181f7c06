use vstd::prelude::*;
use crate::listener::{
    after_dispatch, mentions, scheduled, scheduled_ids, scheduled_push, survivors,
    survivors_ids, Listener,
};
use crate::registry::{
    channel_ids_distinct, emitted, event_index, event_index_unique, has_event, holder, holds_id,
    id_at, listeners_of, registered, registered_well_formed, well_formed, with_listeners,
    with_listeners_well_formed, without_id, without_id_well_formed, Entry,
};

verus! {

/// The listeners registered under a name; none for an unknown name.
pub open spec fn audience<C>(book: Seq<Entry<C>>, name: Seq<char>) -> Seq<Listener<C>> {
    match listeners_of(book, name) {
        Some(ls) => ls,
        None => Seq::empty(),
    }
}

/// A registration with a new id leaves every id in the registry unique, puts
/// the listener at the end of its event's sequence and makes its id known.
pub proof fn registration_keeps_ids_unique<C>(book: Seq<Entry<C>>, name: Seq<char>, l: Listener<C>)
    requires
        well_formed(book),
        !holds_id(book, l.id@),
    ensures
        well_formed(registered(book, name, l)),
        audience(registered(book, name, l), name) == audience(book, name).push(l),
        holds_id(registered(book, name, l), l.id@),
{
    registered_well_formed(book, name, l);
    let next = registered(book, name, l);
    let k = event_index(next, name);
    assert(audience(book, name).push(l) =~= next[k].listeners);
    let i = next[k].listeners.len() - 1;
    assert(id_at(next, k, i, l.id@));
}

/// Removing an id that no listener carries changes nothing.
pub proof fn removing_unknown_id_changes_nothing<C>(book: Seq<Entry<C>>, id: Seq<char>)
    requires
        !holds_id(book, id),
    ensures
        without_id(book, id) == book,
{
}

/// Removing an id that a listener carries takes exactly that listener out:
/// its sequence gets shorter by one, every other channel is unchanged, and
/// the id is gone.
pub proof fn removal_takes_exactly_one<C>(book: Seq<Entry<C>>, id: Seq<char>)
    requires
        well_formed(book),
        holds_id(book, id),
    ensures
        ({
            let (k, i) = holder(book, id);
            let next = without_id(book, id);
            &&& id_at(book, k, i, id)
            &&& next.len() == book.len()
            &&& next[k].name == book[k].name
            &&& next[k].listeners == book[k].listeners.remove(i)
            &&& next[k].listeners.len() == book[k].listeners.len() - 1
            &&& forall|a: int| 0 <= a < book.len() && a != k ==> #[trigger] next[a] == book[a]
            &&& !holds_id(next, id)
            &&& well_formed(next)
        }),
{
    without_id_well_formed(book, id);
}

/// Removing the same id a second time finds nothing and changes nothing.
pub proof fn removal_is_idempotent<C>(book: Seq<Entry<C>>, id: Seq<char>)
    requires
        well_formed(book),
    ensures
        !holds_id(without_id(book, id), id),
        without_id(without_id(book, id), id) == without_id(book, id),
{
    without_id_well_formed(book, id);
}

/// An emission on a known event keeps the book well-formed, replaces that
/// event's listeners by their survivors and introduces no id.
pub proof fn emission_keeps_ids_unique<C>(book: Seq<Entry<C>>, name: Seq<char>)
    requires
        well_formed(book),
    ensures
        well_formed(emitted(book, name)),
        audience(emitted(book, name), name) == survivors(audience(book, name)),
        has_event(emitted(book, name), name) == has_event(book, name),
        forall|id: Seq<char>| holds_id(emitted(book, name), id) ==> holds_id(book, id),
{
    if has_event(book, name) {
        let k = event_index(book, name);
        let ls = book[k].listeners;
        let next = emitted(book, name);
        channel_ids_distinct(book, k);
        survivors_ids(ls);
        with_listeners_well_formed(book, k, survivors(ls));
        event_index_unique(book, name, k);
        event_index_unique(next, name, k);
        assert forall|id: Seq<char>| holds_id(next, id) implies holds_id(book, id) by {
            let (a, j) = holder(next, id);
            assert(id_at(next, a, j, id));
            if a == k {
                assert(mentions(ls, survivors(ls)[j].id@));
                let w = choose|w: int| 0 <= w < ls.len() && (#[trigger] ls[w]).id@ == id;
                assert(id_at(book, k, w, id));
            } else {
                assert(id_at(book, a, j, id));
            }
        }
    } else {
        assert(survivors(Seq::<Listener<C>>::empty()) =~= Seq::<Listener<C>>::empty());
    }
}

/// A listener registered with a budget of zero is never scheduled: the
/// emission that follows schedules exactly what it would have scheduled
/// without it, and afterwards the listener is gone from the registry.
pub proof fn exhausted_registration_never_fires<C>(book: Seq<Entry<C>>, name: Seq<char>, l: Listener<C>)
    requires
        well_formed(book),
        !holds_id(book, l.id@),
        l.limit == Some(0u64),
    ensures
        ({
            let first = registered(book, name, l);
            &&& scheduled(audience(first, name)) == scheduled(audience(book, name))
            &&& !mentions(scheduled(audience(first, name)), l.id@)
            &&& audience(emitted(first, name), name) == survivors(audience(book, name))
            &&& !holds_id(emitted(first, name), l.id@)
        }),
{
    let first = registered(book, name, l);
    let prior = audience(book, name);
    registration_keeps_ids_unique(book, name, l);
    scheduled_push(prior, l);
    emission_keeps_ids_unique(first, name);
    assert(survivors(prior.push(l)) == survivors(prior));
    not_mentioned_after_scheduling(book, name, l.id@);
    let k = event_index(first, name);
    let next = emitted(first, name);
    if holds_id(next, l.id@) {
        let (a, j) = holder(next, l.id@);
        assert(id_at(next, a, j, l.id@));
        if a == k {
            assert(survivors(prior)[j].id@ == l.id@);
        } else {
            assert(first[a] == book[a]);
            assert(id_at(book, a, j, l.id@));
        }
    }
}

/// An id that a listener of an event carries is held by the book.
pub proof fn known_listeners_are_held<C>(book: Seq<Entry<C>>, name: Seq<char>, id: Seq<char>)
    requires
        mentions(audience(book, name), id),
    ensures
        holds_id(book, id),
{
    let ls = audience(book, name);
    let w = choose|w: int| 0 <= w < ls.len() && (#[trigger] ls[w]).id@ == id;
    let k = event_index(book, name);
    assert(id_at(book, k, w, id));
}

/// An id that the book does not hold is carried by no scheduled listener.
pub proof fn not_mentioned_after_scheduling<C>(book: Seq<Entry<C>>, name: Seq<char>, id: Seq<char>)
    requires
        !holds_id(book, id),
    ensures
        !mentions(scheduled(audience(book, name)), id),
        !mentions(survivors(audience(book, name)), id),
{
    let ls = audience(book, name);
    scheduled_ids(ls);
    survivors_ids(ls);
    if mentions(scheduled(ls), id) {
        let j = choose|j: int| 0 <= j < scheduled(ls).len() && (#[trigger] scheduled(ls)[j]).id@ == id;
        assert(mentions(ls, scheduled(ls)[j].id@));
        known_listeners_are_held(book, name, id);
    }
    if mentions(survivors(ls), id) {
        let j = choose|j: int| 0 <= j < survivors(ls).len() && (#[trigger] survivors(ls)[j]).id@ == id;
        assert(mentions(ls, survivors(ls)[j].id@));
        known_listeners_are_held(book, name, id);
    }
}

/// A one-shot listener is scheduled by the first emission after its
/// registration, as the last of that emission's jobs, and by no later one:
/// the second emission schedules what it would have scheduled without it and
/// removes it.
pub proof fn one_shot_fires_once<C>(book: Seq<Entry<C>>, name: Seq<char>, l: Listener<C>)
    requires
        well_formed(book),
        !holds_id(book, l.id@),
        l.limit == Some(1u64),
    ensures
        ({
            let first = registered(book, name, l);
            let second = emitted(first, name);
            let third = emitted(second, name);
            let spent = Listener { callback: l.callback, limit: Some(0u64), id: l.id };
            &&& scheduled(audience(first, name)) == scheduled(audience(book, name)).push(l)
            &&& audience(second, name) == survivors(audience(book, name)).push(spent)
            &&& scheduled(audience(second, name)) == scheduled(survivors(audience(book, name)))
            &&& !mentions(scheduled(audience(second, name)), l.id@)
            &&& audience(third, name) == survivors(survivors(audience(book, name)))
            &&& !mentions(audience(third, name), l.id@)
        }),
{
    let first = registered(book, name, l);
    let second = emitted(first, name);
    let prior = audience(book, name);
    let spent = Listener { callback: l.callback, limit: Some(0u64), id: l.id };
    registration_keeps_ids_unique(book, name, l);
    scheduled_push(prior, l);
    emission_keeps_ids_unique(first, name);
    assert(after_dispatch(l) == spent);
    assert(survivors(prior.push(l)) =~= survivors(prior).push(spent));
    scheduled_push(survivors(prior), spent);
    emission_keeps_ids_unique(second, name);
    assert(survivors(survivors(prior).push(spent)) == survivors(survivors(prior)));
    // no listener that was registered before carries the new id, so none of
    // their survivors does
    let once = survivors(prior);
    let twice = survivors(once);
    survivors_ids(prior);
    survivors_ids(once);
    scheduled_ids(once);
    if mentions(scheduled(once), l.id@) {
        let j = choose|j: int| 0 <= j < scheduled(once).len() && (#[trigger] scheduled(once)[j]).id@ == l.id@;
        assert(mentions(once, scheduled(once)[j].id@));
        let w = choose|w: int| 0 <= w < once.len() && (#[trigger] once[w]).id@ == l.id@;
        assert(mentions(prior, once[w].id@));
        known_listeners_are_held(book, name, l.id@);
    }
    if mentions(twice, l.id@) {
        let j = choose|j: int| 0 <= j < twice.len() && (#[trigger] twice[j]).id@ == l.id@;
        assert(mentions(once, twice[j].id@));
        let w = choose|w: int| 0 <= w < once.len() && (#[trigger] once[w]).id@ == l.id@;
        assert(mentions(prior, once[w].id@));
        known_listeners_are_held(book, name, l.id@);
    }
}

/// Listeners stand in their event's sequence in the order of their
/// registration: two registrations in a row put the first listener directly
/// before the second, behind everything registered earlier.
pub proof fn registration_order_is_kept<C>(
    book: Seq<Entry<C>>,
    name: Seq<char>,
    a: Listener<C>,
    b: Listener<C>,
)
    requires
        well_formed(book),
        !holds_id(book, a.id@),
        !holds_id(registered(book, name, a), b.id@),
    ensures
        audience(registered(registered(book, name, a), name, b), name) == audience(book, name).push(
            a,
        ).push(b),
{
    registration_keeps_ids_unique(book, name, a);
    registration_keeps_ids_unique(registered(book, name, a), name, b);
}

/// An emission on an event without listeners, known or not, schedules
/// nothing and changes nothing.
pub proof fn emission_without_listeners<C>(book: Seq<Entry<C>>, name: Seq<char>)
    requires
        audience(book, name).len() == 0,
    ensures
        scheduled(audience(book, name)).len() == 0,
        emitted(book, name) == book,
{
    let ls = audience(book, name);
    assert(ls =~= Seq::<Listener<C>>::empty());
    if has_event(book, name) {
        let k = event_index(book, name);
        assert(survivors(ls) =~= ls);
        assert(with_listeners(book, k, survivors(ls)) =~= book);
    }
}

} // verus!
