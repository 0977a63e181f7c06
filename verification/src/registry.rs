use vstd::prelude::*;
use crate::listener::{distinct_ids, mentions, survivors, Listener};

verus! {

/// One event name with its listeners in registration order.
pub struct Channel<C> {
    pub name: String,
    pub listeners: Vec<Listener<C>>,
}

/// The mathematical content of a channel.
pub struct Entry<C> {
    pub name: Seq<char>,
    pub listeners: Seq<Listener<C>>,
}

impl<C> Channel<C> {
    pub open spec fn entry(self) -> Entry<C> {
        Entry { name: self.name@, listeners: self.listeners@ }
    }
}

/// Some channel of the book carries the name.
pub open spec fn has_event<C>(book: Seq<Entry<C>>, name: Seq<char>) -> bool {
    exists|k: int| 0 <= k < book.len() && (#[trigger] book[k]).name == name
}

/// The position of the channel with the given name.
pub open spec fn event_index<C>(book: Seq<Entry<C>>, name: Seq<char>) -> int {
    choose|k: int| 0 <= k < book.len() && (#[trigger] book[k]).name == name
}

/// The listeners registered under a name, if the name is known.
pub open spec fn listeners_of<C>(book: Seq<Entry<C>>, name: Seq<char>) -> Option<Seq<Listener<C>>> {
    if has_event(book, name) {
        Some(book[event_index(book, name)].listeners)
    } else {
        None
    }
}

/// The book with the listeners of channel `k` replaced.
pub open spec fn with_listeners<C>(book: Seq<Entry<C>>, k: int, ls: Seq<Listener<C>>) -> Seq<Entry<C>> {
    book.update(k, Entry { name: book[k].name, listeners: ls })
}

/// The book after a registration: the listener goes to the end of its
/// event's sequence; an unknown event gets a new channel at the end.
pub open spec fn registered<C>(book: Seq<Entry<C>>, name: Seq<char>, l: Listener<C>) -> Seq<Entry<C>> {
    if has_event(book, name) {
        let k = event_index(book, name);
        with_listeners(book, k, book[k].listeners.push(l))
    } else {
        book.push(Entry { name, listeners: seq![l] })
    }
}

/// Listener `i` of channel `k` carries the id.
pub open spec fn id_at<C>(book: Seq<Entry<C>>, k: int, i: int, id: Seq<char>) -> bool {
    0 <= k < book.len() && 0 <= i < book[k].listeners.len() && book[k].listeners[i].id@ == id
}

/// Some listener of the book carries the id.
pub open spec fn holds_id<C>(book: Seq<Entry<C>>, id: Seq<char>) -> bool {
    exists|k: int, i: int| id_at(book, k, i, id)
}

/// Where the listener with the id stands: channel and position.
pub open spec fn holder<C>(book: Seq<Entry<C>>, id: Seq<char>) -> (int, int) {
    choose|k: int, i: int| id_at(book, k, i, id)
}

/// The book after the removal of an id: the one listener that carries it is
/// taken out of its sequence, the others keep their order; a book that does
/// not hold the id is unchanged.
pub open spec fn without_id<C>(book: Seq<Entry<C>>, id: Seq<char>) -> Seq<Entry<C>> {
    if holds_id(book, id) {
        let (k, i) = holder(book, id);
        with_listeners(book, k, book[k].listeners.remove(i))
    } else {
        book
    }
}

/// The book after an emission on a name: the event's sequence is reduced to
/// its survivors; every other channel, and a book that does not know the
/// name, is unchanged.
pub open spec fn emitted<C>(book: Seq<Entry<C>>, name: Seq<char>) -> Seq<Entry<C>> {
    if has_event(book, name) {
        let k = event_index(book, name);
        with_listeners(book, k, survivors(book[k].listeners))
    } else {
        book
    }
}

/// Event names are unique, and listener ids are unique across the whole book.
pub open spec fn well_formed<C>(book: Seq<Entry<C>>) -> bool {
    &&& forall|a: int, b: int|
        0 <= a < b < book.len() ==> (#[trigger] book[a]).name != (#[trigger] book[b]).name
    &&& forall|k: int, i: int, k2: int, i2: int|
        #![trigger book[k].listeners[i], book[k2].listeners[i2]]
        0 <= k < book.len() && 0 <= i < book[k].listeners.len() && 0 <= k2 < book.len() && 0 <= i2
            < book[k2].listeners.len() && book[k].listeners[i].id@ == book[k2].listeners[i2].id@ ==> k
            == k2 && i == i2
}

/// In a well-formed book a name stands at one position only.
pub proof fn event_index_unique<C>(book: Seq<Entry<C>>, name: Seq<char>, k: int)
    requires
        well_formed(book),
        0 <= k < book.len(),
        book[k].name == name,
    ensures
        has_event(book, name),
        event_index(book, name) == k,
        listeners_of(book, name) == Some(book[k].listeners),
{
    let c = event_index(book, name);
    if c < k {
        assert(book[c].name != book[k].name);
    } else if k < c {
        assert(book[k].name != book[c].name);
    }
}

/// In a well-formed book an id stands at one place only.
pub proof fn holder_unique<C>(book: Seq<Entry<C>>, id: Seq<char>, k: int, i: int)
    requires
        well_formed(book),
        id_at(book, k, i, id),
    ensures
        holds_id(book, id),
        holder(book, id) == (k, i),
{
    let (k2, i2) = holder(book, id);
    assert(id_at(book, k2, i2, id));
    assert(book[k].listeners[i].id@ == book[k2].listeners[i2].id@);
}

/// The sequences of a well-formed book hold no id twice.
pub proof fn channel_ids_distinct<C>(book: Seq<Entry<C>>, k: int)
    requires
        well_formed(book),
        0 <= k < book.len(),
    ensures
        distinct_ids(book[k].listeners),
{
    assert forall|i: int, j: int| 0 <= i < j < book[k].listeners.len() implies (#[trigger] book[k].listeners[i]).id@
        != (#[trigger] book[k].listeners[j]).id@ by {
        if book[k].listeners[i].id@ == book[k].listeners[j].id@ {
            assert(i == j);
        }
    }
}

/// Replacing one channel's listeners by a sequence that repeats no id and
/// introduces none keeps the book well-formed.
pub proof fn with_listeners_well_formed<C>(book: Seq<Entry<C>>, k: int, ls: Seq<Listener<C>>)
    requires
        well_formed(book),
        0 <= k < book.len(),
        distinct_ids(ls),
        forall|j: int| 0 <= j < ls.len() ==> mentions(book[k].listeners, (#[trigger] ls[j]).id@),
    ensures
        well_formed(with_listeners(book, k, ls)),
{
    let next = with_listeners(book, k, ls);
    assert forall|a: int, b: int| 0 <= a < b < next.len() implies (#[trigger] next[a]).name != (#[trigger] next[b]).name by {
        assert(next[a].name == book[a].name && next[b].name == book[b].name);
    }
    assert forall|a: int, i: int, b: int, j: int|
        #![trigger next[a].listeners[i], next[b].listeners[j]]
        0 <= a < next.len() && 0 <= i < next[a].listeners.len() && 0 <= b < next.len() && 0 <= j
            < next[b].listeners.len() && next[a].listeners[i].id@ == next[b].listeners[j].id@ implies a
        == b && i == j by {
        if a == k && b == k {
            if i < j {
                assert(ls[i].id@ != ls[j].id@);
            } else if j < i {
                assert(ls[j].id@ != ls[i].id@);
            }
        } else if a == k {
            let w = choose|w: int| 0 <= w < book[k].listeners.len() && (#[trigger] book[k].listeners[w]).id@ == ls[i].id@;
            assert(book[k].listeners[w].id@ == book[b].listeners[j].id@);
        } else if b == k {
            let w = choose|w: int| 0 <= w < book[k].listeners.len() && (#[trigger] book[k].listeners[w]).id@ == ls[j].id@;
            assert(book[a].listeners[i].id@ == book[k].listeners[w].id@);
        } else {
            assert(book[a].listeners[i].id@ == book[b].listeners[j].id@);
        }
    }
}

/// Registering a listener whose id is new keeps the book well-formed.
pub proof fn registered_well_formed<C>(book: Seq<Entry<C>>, name: Seq<char>, l: Listener<C>)
    requires
        well_formed(book),
        !holds_id(book, l.id@),
    ensures
        well_formed(registered(book, name, l)),
        has_event(registered(book, name, l), name),
        listeners_of(registered(book, name, l), name) == Some(
            match listeners_of(book, name) {
                Some(ls) => ls.push(l),
                None => seq![l],
            },
        ),
{
    let next = registered(book, name, l);
    let at = if has_event(book, name) {
        event_index(book, name)
    } else {
        book.len() as int
    };
    assert(next.len() > at && next[at].name == name);
    assert forall|a: int| 0 <= a < next.len() && a != at implies #[trigger] next[a] == book[a] by {}
    assert forall|a: int, b: int| 0 <= a < b < next.len() implies (#[trigger] next[a]).name != (#[trigger] next[b]).name by {
        if a < book.len() && b < book.len() {
            assert(next[a].name == book[a].name && next[b].name == book[b].name);
        } else {
            assert(next[a].name == book[a].name);
        }
    }
    assert forall|a: int, i: int, b: int, j: int|
        #![trigger next[a].listeners[i], next[b].listeners[j]]
        0 <= a < next.len() && 0 <= i < next[a].listeners.len() && 0 <= b < next.len() && 0 <= j
            < next[b].listeners.len() && next[a].listeners[i].id@ == next[b].listeners[j].id@ implies a
        == b && i == j by {
        let new_a = a == at && i == next[at].listeners.len() - 1;
        let new_b = b == at && j == next[at].listeners.len() - 1;
        if !new_a {
            assert(id_at(book, a, i, next[a].listeners[i].id@));
        }
        if !new_b {
            assert(id_at(book, b, j, next[b].listeners[j].id@));
        }
        if !new_a && !new_b {
            assert(book[a].listeners[i].id@ == book[b].listeners[j].id@);
        }
    }
    event_index_unique(next, name, at);
}

/// Removing an id keeps the book well-formed and leaves no listener with
/// that id.
pub proof fn without_id_well_formed<C>(book: Seq<Entry<C>>, id: Seq<char>)
    requires
        well_formed(book),
    ensures
        well_formed(without_id(book, id)),
        !holds_id(without_id(book, id), id),
{
    if holds_id(book, id) {
        let (k, i) = holder(book, id);
        assert(id_at(book, k, i, id));
        let old_ls = book[k].listeners;
        let ls = old_ls.remove(i);
        let next = with_listeners(book, k, ls);
        channel_ids_distinct(book, k);
        assert forall|j: int| 0 <= j < ls.len() implies mentions(old_ls, (#[trigger] ls[j]).id@) && ls[j].id@ != id by {
            if j < i {
                assert(ls[j] == old_ls[j]);
                assert(old_ls[j].id@ != old_ls[i].id@);
            } else {
                assert(ls[j] == old_ls[j + 1]);
                assert(old_ls[i].id@ != old_ls[j + 1].id@);
            }
        }
        assert forall|a: int, b: int| 0 <= a < b < ls.len() implies (#[trigger] ls[a]).id@ != (#[trigger] ls[b]).id@ by {
            let a0 = if a < i { a } else { a + 1 };
            let b0 = if b < i { b } else { b + 1 };
            assert(ls[a] == old_ls[a0] && ls[b] == old_ls[b0]);
            assert(old_ls[a0].id@ != old_ls[b0].id@);
        }
        with_listeners_well_formed(book, k, ls);
        assert forall|a: int, j: int| !id_at(next, a, j, id) by {
            if id_at(next, a, j, id) {
                if a == k {
                    assert(ls[j].id@ != id);
                } else {
                    assert(book[a].listeners[j].id@ == book[k].listeners[i].id@);
                }
            }
        }
    }
}

/// The listener registry: every known event name with its listeners.
pub struct Registry<C> {
    pub channels: Vec<Channel<C>>,
}

impl<C> View for Registry<C> {
    type V = Seq<Entry<C>>;

    open spec fn view(&self) -> Seq<Entry<C>> {
        self.channels@.map_values(|c: Channel<C>| c.entry())
    }
}

/// The position of the first listener with the id, if there is one.
pub fn position_of<C>(listeners: &Vec<Listener<C>>, id: &String) -> (found: Option<usize>)
    ensures
        match found {
            Some(i) => i < listeners@.len() && listeners@[i as int].id@ == id@ && forall|j: int|
                0 <= j < i ==> (#[trigger] listeners@[j]).id@ != id@,
            None => !mentions(listeners@, id@),
        },
{
    let mut i: usize = 0;
    while i < listeners.len()
        invariant
            i <= listeners@.len(),
            forall|j: int| 0 <= j < i ==> (#[trigger] listeners@[j]).id@ != id@,
        decreases listeners@.len() - i,
    {
        if listeners[i].id == *id {
            return Some(i);
        }
        i += 1;
    }
    None
}

impl<C> Registry<C> {
    pub open spec fn wf(&self) -> bool {
        well_formed(self@)
    }

    /// A registry without events.
    pub fn new() -> (registry: Self)
        ensures
            registry@ == Seq::<Entry<C>>::empty(),
            registry.wf(),
    {
        let registry = Registry { channels: Vec::new() };
        assert(registry@ =~= Seq::<Entry<C>>::empty());
        registry
    }

    /// The position of the channel with the given name.
    pub fn index_of(&self, name: &String) -> (found: Option<usize>)
        ensures
            match found {
                Some(k) => k < self@.len() && self@[k as int].name == name@ && forall|j: int|
                    0 <= j < k ==> (#[trigger] self@[j]).name != name@,
                None => !has_event(self@, name@),
            },
    {
        let mut k: usize = 0;
        while k < self.channels.len()
            invariant
                k <= self.channels@.len(),
                self@.len() == self.channels@.len(),
                forall|j: int| 0 <= j < k ==> (#[trigger] self@[j]).name != name@,
            decreases self.channels@.len() - k,
        {
            if self.channels[k].name == *name {
                return Some(k);
            }
            k += 1;
        }
        None
    }

    /// The listeners of an event in registration order, or `None` for a name
    /// that was never registered.
    pub fn get(&self, event: &str) -> (found: Option<&Vec<Listener<C>>>)
        requires
            self.wf(),
        ensures
            match found {
                Some(ls) => listeners_of(self@, event@) == Some(ls@),
                None => listeners_of(self@, event@).is_none(),
            },
    {
        let name = event.to_owned();
        match self.index_of(&name) {
            Some(k) => {
                proof {
                    event_index_unique(self@, event@, k as int);
                }
                Some(&self.channels[k].listeners)
            },
            None => None,
        }
    }

    /// Where the first listener with the id stands, channels taken in the
    /// order of their creation: channel and position.
    pub fn find(&self, id: &String) -> (found: Option<(usize, usize)>)
        ensures
            match found {
                Some((k, i)) => id_at(self@, k as int, i as int, id@) && forall|a: int, j: int|
                    id_at(self@, a, j, id@) ==> k < a || (k == a && i <= j),
                None => !holds_id(self@, id@),
            },
    {
        let mut k: usize = 0;
        while k < self.channels.len()
            invariant
                k <= self.channels@.len(),
                self@.len() == self.channels@.len(),
                forall|a: int, i: int| 0 <= a < k ==> !id_at(self@, a, i, id@),
            decreases self.channels@.len() - k,
        {
            match position_of(&self.channels[k].listeners, id) {
                Some(i) => {
                    proof {
                        assert forall|a: int, j: int| id_at(self@, a, j, id@) implies k < a || (k
                            == a && i <= j) by {
                            if a == k && j < i {
                                assert(self.channels@[k as int].listeners@[j].id@ != id@);
                            }
                        }
                    }
                    return Some((k, i));
                },
                None => {
                    assert forall|i: int| !id_at(self@, k as int, i, id@) by {
                        if id_at(self@, k as int, i, id@) {
                            assert(self@[k as int].listeners[i].id@ == id@);
                            assert(mentions(self.channels@[k as int].listeners@, id@));
                        }
                    }
                },
            }
            k += 1;
        }
        None
    }

    /// Whether event names are unique and listener ids are unique across all
    /// events: every name and every id is looked up and must be found where
    /// it stands.
    pub fn is_well_formed(&self) -> (ok: bool)
        ensures
            ok == self.wf(),
    {
        let mut k: usize = 0;
        while k < self.channels.len()
            invariant
                k <= self.channels@.len(),
                self@.len() == self.channels@.len(),
                forall|a: int, b: int| 0 <= b < a < k ==> (#[trigger] self@[b]).name != (#[trigger] self@[a]).name,
                forall|a: int, i: int, b: int, j: int|
                    0 <= a < k && 0 <= i < self@[a].listeners.len() && #[trigger] id_at(
                        self@,
                        b,
                        j,
                        self@[a].listeners[i].id@,
                    ) ==> a < b || (a == b && i <= j),
            decreases self.channels@.len() - k,
        {
            match self.index_of(&self.channels[k].name) {
                Some(first) => {
                    if first != k {
                        assert(self@[first as int].name == self@[k as int].name);
                        return false;
                    }
                },
                None => {
                    assert(self@[k as int].name == self.channels@[k as int].name@);
                    return false;
                },
            }
            let mut i: usize = 0;
            while i < self.channels[k].listeners.len()
                invariant
                    k < self.channels@.len(),
                    self@.len() == self.channels@.len(),
                    i <= self@[k as int].listeners.len(),
                    self@[k as int].listeners == self.channels@[k as int].listeners@,
                    forall|a: int, b: int|
                        0 <= b < a <= k ==> (#[trigger] self@[b]).name != (#[trigger] self@[a]).name,
                    forall|a: int, i0: int, b: int, j: int|
                        0 <= a < k && 0 <= i0 < self@[a].listeners.len() && #[trigger] id_at(
                            self@,
                            b,
                            j,
                            self@[a].listeners[i0].id@,
                        ) ==> a < b || (a == b && i0 <= j),
                    forall|i0: int, b: int, j: int|
                        0 <= i0 < i && #[trigger] id_at(self@, b, j, self@[k as int].listeners[i0].id@)
                            ==> k < b || (k == b && i0 <= j),
                decreases self@[k as int].listeners.len() - i,
            {
                let ghost id = self@[k as int].listeners[i as int].id@;
                assert(id_at(self@, k as int, i as int, id));
                match self.find(&self.channels[k].listeners[i].id) {
                    Some((a, j)) => {
                        if a != k || j != i {
                            assert(self@[a as int].listeners[j as int].id@ == self@[k as int].listeners[i as int].id@);
                            return false;
                        }
                    },
                    None => {
                        return false;
                    },
                }
                i += 1;
            }
            k += 1;
        }
        proof {
            assert forall|a: int, i: int, b: int, j: int|
                #![trigger self@[a].listeners[i], self@[b].listeners[j]]
                0 <= a < self@.len() && 0 <= i < self@[a].listeners.len() && 0 <= b < self@.len() && 0
                    <= j < self@[b].listeners.len() && self@[a].listeners[i].id@
                    == self@[b].listeners[j].id@ implies a == b && i == j by {
                assert(id_at(self@, b, j, self@[a].listeners[i].id@));
                assert(id_at(self@, a, i, self@[b].listeners[j].id@));
            }
        }
        true
    }

    /// The length of the longest id in the registry; 0 for a registry
    /// without listeners.
    pub fn longest_id(&self) -> (longest: usize)
        ensures
            forall|k: int, i: int|
                0 <= k < self@.len() && 0 <= i < self@[k].listeners.len() ==> (
                #[trigger] self@[k].listeners[i]).id@.len() <= longest,
            longest == 0 || exists|k: int, i: int|
                0 <= k < self@.len() && 0 <= i < self@[k].listeners.len() && (
                #[trigger] self@[k].listeners[i]).id@.len() == longest,
    {
        let mut longest: usize = 0;
        let mut k: usize = 0;
        while k < self.channels.len()
            invariant
                k <= self.channels@.len(),
                self@.len() == self.channels@.len(),
                forall|a: int, i: int|
                    0 <= a < k && 0 <= i < self@[a].listeners.len() ==> (
                    #[trigger] self@[a].listeners[i]).id@.len() <= longest,
                longest == 0 || exists|a: int, i: int|
                    0 <= a < self@.len() && 0 <= i < self@[a].listeners.len() && (
                    #[trigger] self@[a].listeners[i]).id@.len() == longest,
            decreases self.channels@.len() - k,
        {
            let mut i: usize = 0;
            while i < self.channels[k].listeners.len()
                invariant
                    k < self.channels@.len(),
                    self@.len() == self.channels@.len(),
                    i <= self@[k as int].listeners.len(),
                    self@[k as int].listeners == self.channels@[k as int].listeners@,
                    forall|a: int, j: int|
                        0 <= a < k && 0 <= j < self@[a].listeners.len() ==> (
                        #[trigger] self@[a].listeners[j]).id@.len() <= longest,
                    forall|j: int|
                        0 <= j < i ==> (#[trigger] self@[k as int].listeners[j]).id@.len() <= longest,
                    longest == 0 || exists|a: int, j: int|
                        0 <= a < self@.len() && 0 <= j < self@[a].listeners.len() && (
                        #[trigger] self@[a].listeners[j]).id@.len() == longest,
                decreases self@[k as int].listeners.len() - i,
            {
                let n = self.channels[k].listeners[i].id.as_str().unicode_len();
                if n > longest {
                    longest = n;
                    assert(self@[k as int].listeners[i as int].id@.len() == longest);
                }
                i += 1;
            }
            k += 1;
        }
        longest
    }
}

} // verus!
