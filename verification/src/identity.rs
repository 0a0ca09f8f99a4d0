//! The identity store: the username that belongs to each client key, and
//! the making of fresh guest identities.

use crate::name_map::{lemma_lists_keys_insert, lists_keys, NameMap};
use rand::Rng;
use vstd::prelude::*;
use vstd::string::StringExecFns;

verus! {

/// The identity of one client: a username that the server chose, and the
/// number it was made from. It does not change once made.
#[derive(Clone, Debug, PartialEq, Eq)]
pub struct User {
    pub username: String,
    pub id: u16,
}

/// An identity over mathematical text.
pub struct UserView {
    pub username: Seq<char>,
    pub id: u16,
}

impl View for User {
    type V = UserView;

    open spec fn view(&self) -> UserView {
        UserView { username: self.username@, id: self.id }
    }
}

/// The character for one decimal digit.
pub open spec fn digit(d: nat) -> char {
    if d == 0 {
        '0'
    } else if d == 1 {
        '1'
    } else if d == 2 {
        '2'
    } else if d == 3 {
        '3'
    } else if d == 4 {
        '4'
    } else if d == 5 {
        '5'
    } else if d == 6 {
        '6'
    } else if d == 7 {
        '7'
    } else if d == 8 {
        '8'
    } else {
        '9'
    }
}

/// `n` in decimal, without leading zeros.
pub open spec fn decimal(n: nat) -> Seq<char>
    decreases n,
{
    if n < 10 {
        seq![digit(n)]
    } else {
        decimal(n / 10).push(digit(n % 10))
    }
}

/// The username of the guest with number `id`: `Guest` and the number.
pub open spec fn guest_name(id: u16) -> Seq<char> {
    "Guest"@ + decimal(id as nat)
}

/// The identity of the guest with number `id`.
pub open spec fn guest(id: u16) -> UserView {
    UserView { username: guest_name(id), id }
}

/// The outcome of asking for the identity of `key` where `users` are the
/// identities on record and `suffix` is the number at hand for a new one:
/// the record afterwards, the username, and whether it was made just now.
///
/// A key on record keeps its username and the record stays as it is. A new
/// key becomes the guest with number `suffix` and is entered.
pub open spec fn assigned(users: Map<Seq<char>, UserView>, key: Seq<char>, suffix: u16) -> (
    Map<Seq<char>, UserView>,
    Seq<char>,
    bool,
) {
    if users.contains_key(key) {
        (users, users[key].username, false)
    } else {
        (users.insert(key, guest(suffix)), guest_name(suffix), true)
    }
}

/// An identity, once assigned, is stable: asking again for the same key,
/// on the record as the first answer left it, gives the same username and
/// number whatever number is at hand then, and changes nothing.
pub proof fn lemma_assignment_is_stable(
    users: Map<Seq<char>, UserView>,
    key: Seq<char>,
    first: u16,
    second: u16,
)
    ensures
        ({
            let (record, username, _) = assigned(users, key, first);
            &&& record.contains_key(key)
            &&& record[key].username == username
            &&& !users.contains_key(key) ==> record[key].id == first
            &&& assigned(record, key, second) == (record, username, false)
        }),
{
}

/// The record as it is written out: each client key of `order` with its
/// identity.
pub open spec fn listing(order: Seq<Seq<char>>, users: Map<Seq<char>, UserView>) -> Seq<
    (Seq<char>, UserView),
> {
    order.map_values(|key: Seq<char>| (key, users[key]))
}

/// The record that reading `entries` back gives: each entry is entered in
/// turn, so of two entries with one key the later stands.
pub open spec fn rebuilt(entries: Seq<(Seq<char>, UserView)>) -> Map<Seq<char>, UserView>
    decreases entries.len(),
{
    if entries.len() == 0 {
        Map::empty()
    } else {
        rebuilt(entries.drop_last()).insert(entries.last().0, entries.last().1)
    }
}

/// The keys of `entries`, each once, in the order in which they first
/// occur.
pub open spec fn first_seen(entries: Seq<(Seq<char>, UserView)>) -> Seq<Seq<char>>
    decreases entries.len(),
{
    if entries.len() == 0 {
        Seq::empty()
    } else if rebuilt(entries.drop_last()).contains_key(entries.last().0) {
        first_seen(entries.drop_last())
    } else {
        first_seen(entries.drop_last()).push(entries.last().0)
    }
}

/// The entries of a list as mathematical values.
pub open spec fn entry_views(entries: Seq<(String, User)>) -> Seq<(Seq<char>, UserView)> {
    entries.map_values(|entry: (String, User)| (entry.0@, entry.1@))
}

/// Writing a record out and reading it back gives the same record.
pub proof fn lemma_reload_restores_record(order: Seq<Seq<char>>, users: Map<Seq<char>, UserView>)
    requires
        lists_keys(order, users),
    ensures
        rebuilt(listing(order, users)) == users,
    decreases order.len(),
{
    if order.len() == 0 {
        assert forall|key: Seq<char>| !users.contains_key(key) by {
            assert(!order.contains(key));
        }
        assert(users =~= Map::empty());
    } else {
        let last = order.last();
        let init = order.drop_last();
        let fewer = users.remove(last);
        assert(order.contains(last)) by {
            assert(order[order.len() - 1] == last);
        }
        assert forall|key: Seq<char>| init.contains(key) <==> fewer.contains_key(key) by {
            if init.contains(key) {
                let i = choose|i: int| 0 <= i < init.len() && init[i] == key;
                assert(order[i] == key);
                assert(order.contains(key));
            }
            if fewer.contains_key(key) {
                assert(order.contains(key));
                let i = choose|i: int| 0 <= i < order.len() && order[i] == key;
                assert(init[i] == key);
            }
        }
        assert(listing(init, fewer) =~= listing(order, users).drop_last()) by {
            assert forall|i: int| 0 <= i < init.len() implies init[i] != last by {
                assert(order[i] != order[order.len() - 1]);
            }
        }
        lemma_reload_restores_record(init, fewer);
        assert(rebuilt(listing(order, users)) =~= users);
    }
}

/// An identity survives the restart of the server: a new key is given an
/// identity, the record is written out and read back, and the key is
/// asked for again. The answer is the same username, the number on record
/// is the one it was made from, and nothing is made anew.
pub proof fn lemma_identity_survives_reload(
    order: Seq<Seq<char>>,
    users: Map<Seq<char>, UserView>,
    key: Seq<char>,
    first: u16,
    second: u16,
)
    requires
        lists_keys(order, users),
        !users.contains_key(key),
    ensures
        ({
            let (record, username, _) = assigned(users, key, first);
            let reloaded = rebuilt(listing(order.push(key), record));
            &&& assigned(reloaded, key, second) == (record, username, false)
            &&& reloaded[key] == guest(first)
        }),
{
    lemma_lists_keys_insert(order, users, key, guest(first));
    lemma_reload_restores_record(order.push(key), users.insert(key, guest(first)));
}

/// The identities on record, by client key.
pub struct IdentityMap {
    users: NameMap<User>,
}

impl View for IdentityMap {
    type V = Map<Seq<char>, UserView>;

    closed spec fn view(&self) -> Map<Seq<char>, UserView> {
        self.users@.map_values(|user: User| user@)
    }
}

/// What the server answers to a request for an identity.
#[derive(Clone, Debug, PartialEq, Eq)]
pub struct Assignment {
    /// The username of the client.
    pub username: String,
    /// Whether the identity was made for this request, so that the record
    /// has changed and is to be written out.
    pub fresh: bool,
}

impl IdentityMap {
    /// The client keys, in the order in which they were first entered.
    pub closed spec fn order(&self) -> Seq<Seq<char>> {
        self.users.order()
    }

    /// The record is well formed. Every record that this module hands out
    /// is, and stays so under its methods.
    pub closed spec fn wf(&self) -> bool {
        self.users.wf()
    }

    /// In a well-formed record `order` lists the client keys, each once.
    pub proof fn lemma_order_lists_keys(&self)
        requires
            self.wf(),
        ensures
            self.order().no_duplicates(),
            forall|key: Seq<char>| self.order().contains(key) <==> self@.contains_key(key),
    {
    }

    /// An empty record: what a missing, blank or unreadable file stands for.
    pub fn new() -> (record: Self)
        ensures
            record.wf(),
            record@ == Map::<Seq<char>, UserView>::empty(),
            record.order() == Seq::<Seq<char>>::empty(),
    {
        let record = IdentityMap { users: NameMap::new() };
        assert(record@ =~= Map::<Seq<char>, UserView>::empty());
        record
    }

    /// The record that `entries` stand for, as read back from where it
    /// was written out.
    pub fn from_entries(entries: &Vec<(String, User)>) -> (record: Self)
        ensures
            record.wf(),
            record@ == rebuilt(entry_views(entries@)),
            record.order() == first_seen(entry_views(entries@)),
    {
        let mut record = IdentityMap::new();
        let mut i: usize = 0;
        while i < entries.len()
            invariant
                0 <= i <= entries.len(),
                record.wf(),
                record@ == rebuilt(entry_views(entries@.take(i as int))),
                record.order() == first_seen(entry_views(entries@.take(i as int))),
            decreases entries.len() - i,
        {
            let key = entries[i].0.clone();
            let user = User { username: entries[i].1.username.clone(), id: entries[i].1.id };
            proof {
                let seen = entry_views(entries@.take(i + 1));
                assert(seen.drop_last() =~= entry_views(entries@.take(i as int)));
                assert(seen.last() == (key@, user@));
            }
            record.insert(key, user);
            i = i + 1;
        }
        assert(entries@.take(i as int) =~= entries@);
        record
    }

    /// Enters `user` as the identity of `key`, in place of what was there.
    pub fn insert(&mut self, key: String, user: User)
        requires
            old(self).wf(),
        ensures
            final(self).wf(),
            final(self)@ == old(self)@.insert(key@, user@),
            final(self).order() == if old(self)@.contains_key(key@) {
                old(self).order()
            } else {
                old(self).order().push(key@)
            },
    {
        self.users.insert(key, user);
        assert(self@ =~= old(self)@.insert(key@, user@));
    }

    /// The identity on record for `key`, if there is one.
    pub fn get(&self, key: &str) -> (user: Option<&User>)
        ensures
            match user {
                Some(u) => self@.contains_key(key@) && u@ == self@[key@],
                None => !self@.contains_key(key@),
            },
    {
        self.users.get(key)
    }

    /// How many client keys are on record.
    pub fn len(&self) -> (count: usize)
        ensures
            count == self.order().len(),
    {
        self.users.len()
    }

    /// The whole record, for writing it out: each client key with its
    /// identity, in the order of the keys.
    pub fn entries<'a>(&'a self) -> (all: Vec<(&'a str, &'a User)>)
        requires
            self.wf(),
        ensures
            all.len() == self.order().len(),
            forall|i: int|
                0 <= i < all.len() ==> ((#[trigger] all[i]).0@, all[i].1@) == listing(
                    self.order(),
                    self@,
                )[i],
    {
        self.users.entries()
    }
}

/// One decimal digit as text.
fn digit_text(d: u16) -> (text: &'static str)
    requires
        d < 10,
    ensures
        text@ == seq![digit(d as nat)],
{
    proof {
        reveal_strlit("0");
        reveal_strlit("1");
        reveal_strlit("2");
        reveal_strlit("3");
        reveal_strlit("4");
        reveal_strlit("5");
        reveal_strlit("6");
        reveal_strlit("7");
        reveal_strlit("8");
        reveal_strlit("9");
    }
    let text = if d == 0 {
        "0"
    } else if d == 1 {
        "1"
    } else if d == 2 {
        "2"
    } else if d == 3 {
        "3"
    } else if d == 4 {
        "4"
    } else if d == 5 {
        "5"
    } else if d == 6 {
        "6"
    } else if d == 7 {
        "7"
    } else if d == 8 {
        "8"
    } else {
        "9"
    };
    assert(text@ =~= seq![digit(d as nat)]);
    text
}

/// Writes `n` in decimal behind what `out` holds.
fn push_decimal(out: &mut String, n: u16)
    ensures
        final(out)@ == old(out)@ + decimal(n as nat),
    decreases n,
{
    if n >= 10 {
        push_decimal(out, n / 10);
    }
    out.append(digit_text(n % 10));
}

/// The username of the guest with number `id`.
pub fn guest_username(id: u16) -> (username: String)
    ensures
        username@ == guest_name(id),
{
    let mut username = String::from_str("Guest");
    push_decimal(&mut username, id);
    username
}

/// The username of a client whose identity could not be asked for at all.
pub fn fallback_username() -> (username: String)
    ensures
        username@ == guest_name(0),
{
    guest_username(0)
}

/// Draws the number for a new guest from `rand::thread_rng()` with
/// `Rng::gen::<u16>()`: any of the 65536 numbers may come, so nothing is
/// claimed of the result. The generator stops the program where the
/// operating system gives it no seed.
#[verifier::external_body]
fn random_suffix() -> (suffix: u16) {
    rand::thread_rng().gen::<u16>()
}

/// Answers a request for the identity of `key`, with `suffix` as the
/// number for a new guest: a key on record gets its username back, a new
/// key becomes guest number `suffix` and is entered in the record.
pub fn assign_with_suffix(record: &mut IdentityMap, key: &str, suffix: u16) -> (answer: Assignment)
    requires
        old(record).wf(),
    ensures
        final(record).wf(),
        (final(record)@, answer.username@, answer.fresh) == assigned(old(record)@, key@, suffix),
        final(record).order() == if answer.fresh {
            old(record).order().push(key@)
        } else {
            old(record).order()
        },
{
    let known = match record.get(key) {
        Some(user) => Some(user.username.clone()),
        None => None,
    };
    match known {
        Some(username) => Assignment { username, fresh: false },
        None => {
            let username = guest_username(suffix);
            record.insert(key.to_owned(), User { username: username.clone(), id: suffix });
            Assignment { username, fresh: true }
        },
    }
}

/// Answers a request for the identity of `key`. A key on record gets its
/// username back and the record stays as it is. A new key becomes a guest
/// with a number drawn at random from the whole range of `u16`, and is
/// entered in the record, which the caller then writes out.
pub fn assign_identity(record: &mut IdentityMap, key: &str) -> (answer: Assignment)
    requires
        old(record).wf(),
    ensures
        final(record).wf(),
        exists|suffix: u16|
            (final(record)@, answer.username@, answer.fresh) == #[trigger] assigned(
                old(record)@,
                key@,
                suffix,
            ),
        final(record).order() == if answer.fresh {
            old(record).order().push(key@)
        } else {
            old(record).order()
        },
{
    let suffix = random_suffix();
    assign_with_suffix(record, key, suffix)
}

} // verus!
