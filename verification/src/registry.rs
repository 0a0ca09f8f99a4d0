//! The client registry: who is connected, and the handle through which
//! lines reach each of them.

use crate::name_map::{others, NameMap};
use vstd::prelude::*;

verus! {

/// One change that a session makes to the registry.
pub enum Change<H> {
    /// `register(username, handle)`.
    Register { username: Seq<char>, handle: H },
    /// `deregister(username)`.
    Deregister { username: Seq<char> },
}

impl<H> Change<H> {
    /// The username that the change is about.
    pub open spec fn username(self) -> Seq<char> {
        match self {
            Change::Register { username, .. } => username,
            Change::Deregister { username } => username,
        }
    }

    /// The entries after the change was made to `entries`: what `register`
    /// and `deregister` do to the registry's view.
    pub open spec fn apply(self, entries: Map<Seq<char>, H>) -> Map<Seq<char>, H> {
        match self {
            Change::Register { username, handle } => entries.insert(username, handle),
            Change::Deregister { username } => entries.remove(username),
        }
    }
}

/// The entries after `changes` were made to `entries`, one after the other.
pub open spec fn after_changes<H>(entries: Map<Seq<char>, H>, changes: Seq<Change<H>>) -> Map<
    Seq<char>,
    H,
>
    decreases changes.len(),
{
    if changes.len() == 0 {
        entries
    } else {
        changes.last().apply(after_changes(entries, changes.drop_last()))
    }
}

/// Changes that do not name `username` leave its entry as it was.
pub proof fn lemma_untouched_entry_stays<H>(
    entries: Map<Seq<char>, H>,
    changes: Seq<Change<H>>,
    username: Seq<char>,
)
    requires
        forall|i: int| 0 <= i < changes.len() ==> (#[trigger] changes[i]).username() != username,
    ensures
        after_changes(entries, changes).contains_key(username) == entries.contains_key(username),
        entries.contains_key(username) ==> after_changes(entries, changes)[username]
            == entries[username],
    decreases changes.len(),
{
    if changes.len() > 0 {
        let earlier = changes.drop_last();
        assert forall|i: int| 0 <= i < earlier.len() implies (#[trigger] earlier[i]).username()
            != username by {
            assert(earlier[i] == changes[i]);
        }
        lemma_untouched_entry_stays(entries, earlier, username);
        assert(changes.last() == changes[changes.len() - 1]);
    }
}

/// Writers have the registry one at a time, so however the sessions'
/// calls fall in time, their changes take effect in some order. For every
/// such order: where the last change that names `username` is a `register`,
/// a lookup afterwards finds the handle of that call.
pub proof fn lemma_last_register_wins<H>(
    entries: Map<Seq<char>, H>,
    changes: Seq<Change<H>>,
    at: int,
    username: Seq<char>,
    handle: H,
)
    requires
        0 <= at < changes.len(),
        changes[at] == (Change::Register { username, handle }),
        forall|i: int| at < i < changes.len() ==> (#[trigger] changes[i]).username() != username,
    ensures
        after_changes(entries, changes).contains_key(username),
        after_changes(entries, changes)[username] == handle,
    decreases changes.len(),
{
    let earlier = changes.drop_last();
    if at == changes.len() - 1 {
    } else {
        assert(earlier[at] == changes[at]);
        assert forall|i: int| at < i < earlier.len() implies (#[trigger] earlier[i]).username()
            != username by {
            assert(earlier[i] == changes[i]);
        }
        lemma_last_register_wins(entries, earlier, at, username, handle);
        assert(changes.last() == changes[changes.len() - 1]);
    }
}

/// For every order of the changes: where the last change that names
/// `username` is a `deregister`, a lookup afterwards finds nothing.
pub proof fn lemma_last_deregister_wins<H>(
    entries: Map<Seq<char>, H>,
    changes: Seq<Change<H>>,
    at: int,
    username: Seq<char>,
)
    requires
        0 <= at < changes.len(),
        changes[at] == (Change::<H>::Deregister { username }),
        forall|i: int| at < i < changes.len() ==> (#[trigger] changes[i]).username() != username,
    ensures
        !after_changes(entries, changes).contains_key(username),
    decreases changes.len(),
{
    let earlier = changes.drop_last();
    if at == changes.len() - 1 {
    } else {
        assert(earlier[at] == changes[at]);
        assert forall|i: int| at < i < earlier.len() implies (#[trigger] earlier[i]).username()
            != username by {
            assert(earlier[i] == changes[i]);
        }
        lemma_last_deregister_wins(entries, earlier, at, username);
        assert(changes.last() == changes[changes.len() - 1]);
    }
}

/// The live connections: for each username the handle of its outbound
/// queue. A username has at most one entry, and an entry is there only
/// while its session lives. The registry holds the handle, the capability
/// to put lines into the queue, never the queue itself.
///
/// Reading takes `&self` and changing takes `&mut self`: readers may share
/// the registry, a writer has it alone, and nobody sees a half-made change.
#[verifier::reject_recursive_types(H)]
pub struct Registry<H> {
    entries: NameMap<H>,
}

impl<H> View for Registry<H> {
    type V = Map<Seq<char>, H>;

    closed spec fn view(&self) -> Map<Seq<char>, H> {
        self.entries@
    }
}

impl<H> Registry<H> {
    /// The registered usernames, in the order in which they first came.
    pub closed spec fn order(&self) -> Seq<Seq<char>> {
        self.entries.order()
    }

    /// The registry is well formed. Every registry that this module hands
    /// out is, and stays so under its methods.
    pub closed spec fn wf(&self) -> bool {
        self.entries.wf()
    }

    /// In a well-formed registry `order` lists the registered usernames,
    /// each of them once.
    pub proof fn lemma_order_lists_entries(&self)
        requires
            self.wf(),
        ensures
            self.order().no_duplicates(),
            forall|username: Seq<char>|
                self.order().contains(username) <==> self@.contains_key(username),
    {
    }

    /// A registry without entries.
    pub fn new() -> (registry: Self)
        ensures
            registry.wf(),
            registry@ == Map::<Seq<char>, H>::empty(),
            registry.order() == Seq::<Seq<char>>::empty(),
    {
        Registry { entries: NameMap::new() }
    }

    /// Enters `handle` under `username`. An entry that the name already had
    /// is overwritten: who registers last has the name, and the handle that
    /// was there before can no longer be found.
    pub fn register(&mut self, username: String, handle: H)
        requires
            old(self).wf(),
        ensures
            final(self).wf(),
            final(self)@ == old(self)@.insert(username@, handle),
            final(self).order() == if old(self)@.contains_key(username@) {
                old(self).order()
            } else {
                old(self).order().push(username@)
            },
    {
        self.entries.insert(username, handle);
    }

    /// Takes the entry of `username` out; without one, nothing changes.
    pub fn deregister(&mut self, username: &str)
        requires
            old(self).wf(),
        ensures
            final(self).wf(),
            final(self)@ == old(self)@.remove(username@),
            final(self).order() == others(old(self).order(), username@),
    {
        self.entries.remove(username);
    }

    /// The handle registered under `username`, if there is one.
    pub fn lookup(&self, username: &str) -> (handle: Option<&H>)
        ensures
            match handle {
                Some(h) => self@.contains_key(username@) && *h == self@[username@],
                None => !self@.contains_key(username@),
            },
    {
        self.entries.get(username)
    }

    /// Every entry but that of `exclude`: each username with its handle, in
    /// the order in which the names first came. The registry cannot change
    /// while the result is held, so the result is one state of it.
    pub fn broadcast_targets<'a>(&'a self, exclude: &str) -> (targets: Vec<(&'a str, &'a H)>)
        requires
            self.wf(),
        ensures
            targets.len() == others(self.order(), exclude@).len(),
            forall|i: int|
                0 <= i < targets.len() ==> {
                    &&& (#[trigger] targets[i]).0@ == others(self.order(), exclude@)[i]
                    &&& self@.contains_key(targets[i].0@)
                    &&& *targets[i].1 == self@[targets[i].0@]
                },
    {
        self.entries.entries_except(exclude)
    }

    /// How many usernames are registered.
    pub fn len(&self) -> (count: usize)
        ensures
            count == self.order().len(),
    {
        self.entries.len()
    }
}

} // verus!
