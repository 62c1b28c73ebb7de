use vstd::prelude::*;

use tokio::sync::mpsc;

use crate::cancel::Cancel;
use crate::protocol::{bytes_eq, opt_view, IRCString, ToUser, UserID};
use crate::slots::{
    issued_form, live_keys, table_get, table_insert, table_len, table_new, table_remove, UserTable,
};

verus! {

/// One nickname held by one user.
pub struct NickEntry {
    pub user: UserID,
    pub nick: IRCString,
}

pub open spec fn pairs_view(s: Seq<NickEntry>) -> Seq<(u64, Seq<u8>)> {
    s.map_values(|e: NickEntry| (e.user.key, e.nick@))
}

/// No user and no nickname occurs twice.
pub open spec fn unique_pairs(s: Seq<(u64, Seq<u8>)>) -> bool {
    forall|i: int, j: int|
        0 <= i < j < s.len() ==> (#[trigger] s[i]).0 != (#[trigger] s[j]).0 && s[i].1 != s[j].1
}

/// The user-to-nickname map of a list of pairs.
pub open spec fn nick_map(s: Seq<(u64, Seq<u8>)>) -> Map<u64, Seq<u8>>
    decreases s.len(),
{
    if s.len() == 0 {
        Map::empty()
    } else {
        nick_map(s.drop_last()).insert(s.last().0, s.last().1)
    }
}

/// The nickname-to-user map of a list of pairs.
pub open spec fn owner_map(s: Seq<(u64, Seq<u8>)>) -> Map<Seq<u8>, u64>
    decreases s.len(),
{
    if s.len() == 0 {
        Map::empty()
    } else {
        owner_map(s.drop_last()).insert(s.last().1, s.last().0)
    }
}

/// Each map is the other read backwards.
pub open spec fn inverse(m: Map<u64, Seq<u8>>, o: Map<Seq<u8>, u64>) -> bool {
    &&& forall|k: u64| #[trigger] m.contains_key(k) ==> o.contains_key(m[k]) && o[m[k]] == k
    &&& forall|n: Seq<u8>| #[trigger] o.contains_key(n) ==> m.contains_key(o[n]) && m[o[n]] == n
}

proof fn lemma_unique_prefix(s: Seq<(u64, Seq<u8>)>)
    requires
        unique_pairs(s),
        s.len() > 0,
    ensures
        unique_pairs(s.drop_last()),
{
    let t = s.drop_last();
    assert forall|i: int, j: int| 0 <= i < j < t.len() implies (#[trigger] t[i]).0 != (#[trigger] t[j]).0
        && t[i].1 != t[j].1 by {
        assert(t[i] == s[i] && t[j] == s[j]);
    }
}

proof fn lemma_absent(s: Seq<(u64, Seq<u8>)>, k: u64, n: Seq<u8>)
    ensures
        (forall|i: int| 0 <= i < s.len() ==> (#[trigger] s[i]).0 != k) ==> !nick_map(s).contains_key(k),
        (forall|i: int| 0 <= i < s.len() ==> (#[trigger] s[i]).1 != n) ==> !owner_map(s).contains_key(n),
    decreases s.len(),
{
    if s.len() > 0 {
        let t = s.drop_last();
        assert forall|i: int| 0 <= i < t.len() implies #[trigger] t[i] == s[i] by {}
        lemma_absent(t, k, n);
        assert(s.last() == s[s.len() - 1]);
    }
}

proof fn lemma_at(s: Seq<(u64, Seq<u8>)>, i: int)
    requires
        unique_pairs(s),
        0 <= i < s.len(),
    ensures
        nick_map(s).contains_key(s[i].0),
        nick_map(s)[s[i].0] == s[i].1,
        owner_map(s).contains_key(s[i].1),
        owner_map(s)[s[i].1] == s[i].0,
    decreases s.len(),
{
    let t = s.drop_last();
    if i < s.len() - 1 {
        lemma_unique_prefix(s);
        assert(t[i] == s[i]);
        lemma_at(t, i);
        assert(s[i].0 != s[s.len() - 1].0 && s[i].1 != s[s.len() - 1].1);
    }
}

proof fn lemma_domain(s: Seq<(u64, Seq<u8>)>)
    ensures
        forall|k: u64| #[trigger] nick_map(s).contains_key(k) ==> exists|i: int| 0 <= i < s.len() && s[i].0 == k,
        forall|n: Seq<u8>| #[trigger] owner_map(s).contains_key(n) ==> exists|i: int| 0 <= i < s.len() && s[i].1 == n,
    decreases s.len(),
{
    if s.len() > 0 {
        let t = s.drop_last();
        lemma_domain(t);
        assert forall|k: u64| #[trigger] nick_map(s).contains_key(k) implies exists|i: int| 0 <= i < s.len() && s[i].0 == k by {
            if k != s.last().0 {
                assert(nick_map(s) == nick_map(t).insert(s.last().0, s.last().1));
                assert(nick_map(t).contains_key(k));
                let i = choose|i: int| 0 <= i < t.len() && t[i].0 == k;
                assert(s[i] == t[i]);
            } else {
                assert(s[s.len() - 1].0 == k);
            }
        }
        assert forall|n: Seq<u8>| #[trigger] owner_map(s).contains_key(n) implies exists|i: int| 0 <= i < s.len() && s[i].1 == n by {
            if n != s.last().1 {
                assert(owner_map(s) == owner_map(t).insert(s.last().1, s.last().0));
                assert(owner_map(t).contains_key(n));
                let i = choose|i: int| 0 <= i < t.len() && t[i].1 == n;
                assert(s[i] == t[i]);
            } else {
                assert(s[s.len() - 1].1 == n);
            }
        }
    }
}

/// A list of pairs without repeats reads as two maps, each the inverse of the other.
pub proof fn lemma_inverse(s: Seq<(u64, Seq<u8>)>)
    requires
        unique_pairs(s),
    ensures
        inverse(nick_map(s), owner_map(s)),
{
    lemma_domain(s);
    assert forall|k: u64| #[trigger] nick_map(s).contains_key(k) implies owner_map(s).contains_key(nick_map(s)[k])
        && owner_map(s)[nick_map(s)[k]] == k by {
        let i = choose|i: int| 0 <= i < s.len() && s[i].0 == k;
        lemma_at(s, i);
    }
    assert forall|n: Seq<u8>| #[trigger] owner_map(s).contains_key(n) implies nick_map(s).contains_key(owner_map(s)[n])
        && nick_map(s)[owner_map(s)[n]] == n by {
        let i = choose|i: int| 0 <= i < s.len() && s[i].1 == n;
        lemma_at(s, i);
    }
}

proof fn lemma_remove(s: Seq<(u64, Seq<u8>)>, i: int)
    requires
        unique_pairs(s),
        0 <= i < s.len(),
    ensures
        unique_pairs(s.remove(i)),
        nick_map(s.remove(i)) == nick_map(s).remove(s[i].0),
        owner_map(s.remove(i)) == owner_map(s).remove(s[i].1),
    decreases s.len(),
{
    let r = s.remove(i);
    assert forall|a: int, b: int| 0 <= a < b < r.len() implies (#[trigger] r[a]).0 != (#[trigger] r[b]).0
        && r[a].1 != r[b].1 by {
        let a2 = if a < i { a } else { a + 1 };
        let b2 = if b < i { b } else { b + 1 };
        assert(r[a] == s[a2] && r[b] == s[b2]);
    }
    let t = s.drop_last();
    lemma_unique_prefix(s);
    if i == s.len() - 1 {
        assert(r =~= t);
        lemma_absent(t, s[i].0, s[i].1);
        assert forall|j: int| 0 <= j < t.len() implies (#[trigger] t[j]).0 != s[i].0 && t[j].1 != s[i].1 by {
            assert(t[j] == s[j]);
        }
        assert(nick_map(r) =~= nick_map(s).remove(s[i].0));
        assert(owner_map(r) =~= owner_map(s).remove(s[i].1));
    } else {
        lemma_remove(t, i);
        assert(r =~= t.remove(i).push(s.last()));
        assert(r.drop_last() =~= t.remove(i));
        assert(r.last() == s.last());
        assert(t[i] == s[i]);
        assert(s[i].0 != s[s.len() - 1].0 && s[i].1 != s[s.len() - 1].1);
        assert(nick_map(r) =~= nick_map(s).remove(s[i].0));
        assert(owner_map(r) =~= owner_map(s).remove(s[i].1));
    }
}

/// Why a nickname change was refused.
#[derive(Clone, Copy, Debug, PartialEq, Eq, Structural)]
pub enum ChangeNickError {
    NickInUse,
}

pub open spec fn map_get<K, V>(m: Map<K, V>, k: K) -> Option<V> {
    if m.contains_key(k) {
        Some(m[k])
    } else {
        None
    }
}

/// A change of user `uid`'s nickname to `new` (or to none), on the maps
/// from user to nickname and back: the new maps, and whether it succeeded.
/// Asking for the nickname one already has succeeds and changes nothing;
/// asking for one that another user holds fails and changes nothing;
/// otherwise the old nickname is released and the new one taken.
pub open spec fn change_nick_spec(
    m: Map<u64, Seq<u8>>,
    o: Map<Seq<u8>, u64>,
    uid: u64,
    new: Option<Seq<u8>>,
) -> (Map<u64, Seq<u8>>, Map<Seq<u8>, u64>, bool) {
    let cur = map_get(m, uid);
    if cur == new {
        (m, o, true)
    } else if new.is_some() && o.contains_key(new.unwrap()) {
        (m, o, false)
    } else {
        let m1 = m.remove(uid);
        let o1 = match cur {
            Some(c) => o.remove(c),
            None => o,
        };
        match new {
            Some(n) => (m1.insert(uid, n), o1.insert(n, uid), true),
            None => (m1, o1, true),
        }
    }
}

/// A nickname change keeps the two maps inverse to each other.
pub proof fn lemma_change_keeps_inverse(
    m: Map<u64, Seq<u8>>,
    o: Map<Seq<u8>, u64>,
    uid: u64,
    new: Option<Seq<u8>>,
)
    requires
        inverse(m, o),
    ensures
        inverse(change_nick_spec(m, o, uid, new).0, change_nick_spec(m, o, uid, new).1),
{
    let r = change_nick_spec(m, o, uid, new);
    let (m2, o2) = (r.0, r.1);
    assert forall|k: u64| #[trigger] m2.contains_key(k) implies o2.contains_key(m2[k]) && o2[m2[k]] == k by {
        if m.contains_key(uid) && k != uid && m.contains_key(k) {
            assert(o[m[k]] == k);
            assert(o[m[uid]] == uid);
        }
    }
    assert forall|n: Seq<u8>| #[trigger] o2.contains_key(n) implies m2.contains_key(o2[n]) && m2[o2[n]] == n by {
        if o.contains_key(n) {
            assert(m[o[n]] == n);
        }
    }
}

/// The outcome of users `users`, one after the other, each asking for the
/// nickname `n`: the final maps, and which of the requests succeeded.
pub open spec fn claim_all(
    m: Map<u64, Seq<u8>>,
    o: Map<Seq<u8>, u64>,
    users: Seq<u64>,
    n: Seq<u8>,
) -> (Map<u64, Seq<u8>>, Map<Seq<u8>, u64>, Seq<bool>)
    decreases users.len(),
{
    if users.len() == 0 {
        (m, o, seq![])
    } else {
        let r = change_nick_spec(m, o, users[0], Some(n));
        let rest = claim_all(r.0, r.1, users.drop_first(), n);
        (rest.0, rest.1, seq![r.2] + rest.2)
    }
}

proof fn lemma_claims_after_owner(
    m: Map<u64, Seq<u8>>,
    o: Map<Seq<u8>, u64>,
    users: Seq<u64>,
    n: Seq<u8>,
)
    requires
        inverse(m, o),
        o.contains_key(n),
        forall|i: int| 0 <= i < users.len() ==> #[trigger] users[i] != o[n],
    ensures
        claim_all(m, o, users, n).0 == m,
        claim_all(m, o, users, n).1 == o,
        claim_all(m, o, users, n).2.len() == users.len(),
        forall|i: int| 0 <= i < users.len() ==> !(#[trigger] claim_all(m, o, users, n).2[i]),
    decreases users.len(),
{
    if users.len() > 0 {
        let u = users[0];
        if m.contains_key(u) && m[u] == n {
            assert(o[m[u]] == u);
        }
        let rest = users.drop_first();
        assert forall|i: int| 0 <= i < rest.len() implies #[trigger] rest[i] != o[n] by {
            assert(rest[i] == users[i + 1]);
        }
        lemma_claims_after_owner(m, o, rest, n);
        let all = claim_all(m, o, users, n).2;
        assert forall|i: int| 0 <= i < users.len() implies !(#[trigger] all[i]) by {
            if i > 0 {
                assert(all[i] == claim_all(m, o, rest, n).2[i - 1]);
            }
        }
    }
}

/// When several distinct users ask in turn for a nickname that nobody holds,
/// exactly the first succeeds and takes it; every later one is refused; and
/// the maps from user to nickname and back stay inverse to each other.
pub proof fn lemma_one_claim_wins(
    m: Map<u64, Seq<u8>>,
    o: Map<Seq<u8>, u64>,
    users: Seq<u64>,
    n: Seq<u8>,
)
    requires
        inverse(m, o),
        !o.contains_key(n),
        users.len() > 0,
        forall|i: int, j: int| 0 <= i < j < users.len() ==> #[trigger] users[i] != #[trigger] users[j],
    ensures
        ({
            let r = claim_all(m, o, users, n);
            &&& r.2.len() == users.len()
            &&& r.2[0]
            &&& forall|i: int| 0 < i < users.len() ==> !(#[trigger] r.2[i])
            &&& inverse(r.0, r.1)
            &&& r.1.contains_key(n) && r.1[n] == users[0]
            &&& r.0.contains_key(users[0]) && r.0[users[0]] == n
        }),
{
    let u = users[0];
    if m.contains_key(u) && m[u] == n {
        assert(o[m[u]] == u);
    }
    let first = change_nick_spec(m, o, u, Some(n));
    lemma_change_keeps_inverse(m, o, u, Some(n));
    let rest = users.drop_first();
    assert forall|i: int| 0 <= i < rest.len() implies #[trigger] rest[i] != first.1[n] by {
        assert(rest[i] == users[i + 1]);
    }
    lemma_claims_after_owner(first.0, first.1, rest, n);
    let all = claim_all(m, o, users, n).2;
    assert forall|i: int| 0 < i < users.len() implies !(#[trigger] all[i]) by {
        assert(all[i] == claim_all(first.0, first.1, rest, n).2[i - 1]);
    }
}

/// The directory's tables: the live users, and the nicknames they hold.
pub struct DirectoryData {
    pub users: UserTable,
    pub nicks: Vec<NickEntry>,
}

impl DirectoryData {
    pub open spec fn wf(&self) -> bool {
        &&& unique_pairs(pairs_view(self.nicks@))
        &&& live_keys(self.users).finite()
        &&& forall|k: u64| #[trigger] live_keys(self.users).contains(k) ==> issued_form(k)
        &&& forall|k: u64| #[trigger] nick_map(pairs_view(self.nicks@)).contains_key(k) ==> live_keys(self.users).contains(k)
    }

    /// In a well-formed directory the two nickname maps are inverse to each other.
    pub proof fn lemma_wf_inverse(&self)
        requires
            self.wf(),
        ensures
            inverse(self.nick_of(), self.owner_of()),
    {
        lemma_inverse(pairs_view(self.nicks@));
    }

    /// The live users' keys.
    pub open spec fn live(&self) -> Set<u64> {
        live_keys(self.users)
    }

    /// Each user's nickname.
    pub open spec fn nick_of(&self) -> Map<u64, Seq<u8>> {
        nick_map(pairs_view(self.nicks@))
    }

    /// Each nickname's user.
    pub open spec fn owner_of(&self) -> Map<Seq<u8>, u64> {
        owner_map(pairs_view(self.nicks@))
    }

    pub fn new() -> (r: DirectoryData)
        ensures
            r.wf(),
            r.live() == Set::<u64>::empty(),
            r.nick_of() == Map::<u64, Seq<u8>>::empty(),
            r.owner_of() == Map::<Seq<u8>, u64>::empty(),
    {
        let r = DirectoryData { users: table_new(), nicks: Vec::new() };
        assert(pairs_view(r.nicks@) =~= Seq::empty());
        r
    }

    fn find_user(&self, uid: UserID) -> (r: Option<usize>)
        requires
            self.wf(),
        ensures
            match r {
                Some(i) => i < self.nicks@.len() && self.nicks@[i as int].user == uid
                    && map_get(self.nick_of(), uid.key) == Some(self.nicks@[i as int].nick@),
                None => (forall|j: int| 0 <= j < self.nicks@.len() ==> (#[trigger] self.nicks@[j]).user.key != uid.key)
                    && !self.nick_of().contains_key(uid.key),
            },
    {
        let ghost s = pairs_view(self.nicks@);
        let mut i: usize = 0;
        while i < self.nicks.len()
            invariant
                0 <= i <= self.nicks@.len(),
                s == pairs_view(self.nicks@),
                self.wf(),
                forall|j: int| 0 <= j < i ==> (#[trigger] self.nicks@[j]).user.key != uid.key,
            decreases self.nicks@.len() - i,
        {
            if self.nicks[i].user.key == uid.key {
                proof {
                    lemma_at(s, i as int);
                }
                return Some(i);
            }
            i = i + 1;
        }
        proof {
            assert forall|j: int| 0 <= j < s.len() implies (#[trigger] s[j]).0 != uid.key by {
                assert(s[j].0 == self.nicks@[j].user.key);
            }
            lemma_absent(s, uid.key, seq![]);
        }
        None
    }

    fn find_nick(&self, nick: &[u8]) -> (r: Option<usize>)
        requires
            self.wf(),
        ensures
            match r {
                Some(i) => i < self.nicks@.len() && self.nicks@[i as int].nick@ == nick@
                    && map_get(self.owner_of(), nick@) == Some(self.nicks@[i as int].user.key),
                None => (forall|j: int| 0 <= j < self.nicks@.len() ==> (#[trigger] self.nicks@[j]).nick@ != nick@)
                    && !self.owner_of().contains_key(nick@),
            },
    {
        let ghost s = pairs_view(self.nicks@);
        let mut i: usize = 0;
        while i < self.nicks.len()
            invariant
                0 <= i <= self.nicks@.len(),
                s == pairs_view(self.nicks@),
                self.wf(),
                forall|j: int| 0 <= j < i ==> (#[trigger] self.nicks@[j]).nick@ != nick@,
            decreases self.nicks@.len() - i,
        {
            if bytes_eq(self.nicks[i].nick.bytes.as_slice(), nick) {
                proof {
                    lemma_at(s, i as int);
                }
                return Some(i);
            }
            i = i + 1;
        }
        proof {
            assert forall|j: int| 0 <= j < s.len() implies (#[trigger] s[j]).1 != nick@ by {
                assert(s[j].1 == self.nicks@[j].nick@);
            }
            lemma_absent(s, 0, nick@);
        }
        None
    }

    /// Registers a user with the given mailbox and guard and returns its new
    /// handle; `None` when every slot of the table is taken.
    pub fn user_create(&mut self, mailbox: mpsc::Sender<ToUser>, cancel: Cancel) -> (r: Option<UserID>)
        requires
            old(self).wf(),
        ensures
            final(self).wf(),
            final(self).nick_of() == old(self).nick_of(),
            final(self).owner_of() == old(self).owner_of(),
            r.is_none() == (old(self).live().len() >= u32::MAX - 1),
            match r {
                Some(id) => !old(self).live().contains(id.key) && final(self).live() == old(self).live().insert(id.key)
                    && !final(self).nick_of().contains_key(id.key),
                None => final(self).live() == old(self).live(),
            },
    {
        if table_len(&self.users) >= 4294967294 {
            return None;
        }
        let id = table_insert(&mut self.users, mailbox, cancel);
        Some(id)
    }

    /// Forgets a user: its entry and its nickname go.
    pub fn user_drop(&mut self, user_id: UserID)
        requires
            old(self).wf(),
        ensures
            final(self).wf(),
            final(self).live() == old(self).live().remove(user_id.key),
            final(self).nick_of() == change_nick_spec(old(self).nick_of(), old(self).owner_of(), user_id.key, None).0,
            final(self).owner_of() == change_nick_spec(old(self).nick_of(), old(self).owner_of(), user_id.key, None).1,
    {
        if self.is_live(user_id) {
            let _ = self.user_change_nick(user_id, None);
            let _ = table_remove(&mut self.users, user_id);
        } else {
            assert(old(self).live().remove(user_id.key) =~= old(self).live());
        }
    }

    /// Whether `user_id` names a live user.
    pub fn is_live(&self, user_id: UserID) -> (r: bool)
        requires
            self.wf(),
        ensures
            r == self.live().contains(user_id.key),
    {
        if (user_id.key >> 32u64) % 2 != 1 {
            return false;
        }
        table_get(&self.users, user_id).is_some()
    }

    /// A handle on the mailbox of a live user.
    pub fn user_get_mailbox(&self, user_id: UserID) -> (r: Option<mpsc::Sender<ToUser>>)
        requires
            self.wf(),
        ensures
            r.is_some() == self.live().contains(user_id.key),
    {
        if (user_id.key >> 32u64) % 2 != 1 {
            return None;
        }
        match table_get(&self.users, user_id) {
            Some(u) => Some(u.get_mailbox()),
            None => None,
        }
    }

    /// The user that holds a nickname.
    pub fn user_by_nick(&self, nick: &IRCString) -> (r: Option<UserID>)
        requires
            self.wf(),
        ensures
            r == match map_get(self.owner_of(), nick@) {
                Some(k) => Some(UserID { key: k }),
                None => None,
            },
    {
        match self.find_nick(nick.bytes.as_slice()) {
            Some(i) => Some(self.nicks[i].user),
            None => None,
        }
    }

    /// The nickname a user holds.
    pub fn user_get_nick(&self, user_id: UserID) -> (r: Option<IRCString>)
        requires
            self.wf(),
        ensures
            opt_view(r) == map_get(self.nick_of(), user_id.key),
    {
        match self.find_user(user_id) {
            Some(i) => Some(self.nicks[i].nick.duplicate()),
            None => None,
        }
    }

    /// The mailbox of the live user that holds a nickname.
    pub fn user_nick_to_mailbox(&self, nick: &IRCString) -> (r: Option<mpsc::Sender<ToUser>>)
        requires
            self.wf(),
        ensures
            r.is_some() == (self.owner_of().contains_key(nick@) && self.live().contains(self.owner_of()[nick@])),
    {
        match self.user_by_nick(nick) {
            Some(user_id) => self.user_get_mailbox(user_id),
            None => None,
        }
    }

    /// Gives user `user_id` the nickname `nick`, or takes its nickname away
    /// (`None`); refused when another user holds it. See `change_nick_spec`.
    /// Only a live user can hold a nickname.
    pub fn user_change_nick(&mut self, user_id: UserID, nick: Option<IRCString>) -> (r: Result<(), ChangeNickError>)
        requires
            old(self).wf(),
            old(self).live().contains(user_id.key),
        ensures
            final(self).wf(),
            final(self).live() == old(self).live(),
            (final(self).nick_of(), final(self).owner_of(), r.is_ok())
                == change_nick_spec(old(self).nick_of(), old(self).owner_of(), user_id.key, opt_view(nick)),
    {
        let ghost s0 = pairs_view(self.nicks@);
        let ghost m = self.nick_of();
        let ghost o = self.owner_of();
        let cur = self.find_user(user_id);
        let same = match (&cur, &nick) {
            (None, None) => true,
            (Some(i), Some(n)) => bytes_eq(self.nicks[*i].nick.bytes.as_slice(), n.bytes.as_slice()),
            _ => false,
        };
        if same {
            return Ok(());
        }
        if let Some(n) = &nick {
            if self.find_nick(n.bytes.as_slice()).is_some() {
                return Err(ChangeNickError::NickInUse);
            }
        }
        proof {
            lemma_absent(s0, user_id.key, seq![]);
        }
        if let Some(i) = cur {
            let ghost cur_nick = self.nicks@[i as int].nick@;
            proof {
                lemma_remove(s0, i as int);
            }
            self.nicks.remove(i);
            assert(pairs_view(self.nicks@) =~= s0.remove(i as int));
            assert(self.nick_of() == m.remove(user_id.key));
            assert(self.owner_of() == o.remove(cur_nick));
            assert forall|j: int| 0 <= j < self.nicks@.len() implies (#[trigger] self.nicks@[j]).user.key != user_id.key by {
                let j2 = if j < i { j } else { j + 1 };
                assert(self.nicks@[j] == old(self).nicks@[j2]);
                assert(s0[j2].0 != s0[i as int].0);
            }
        } else {
            assert(m.remove(user_id.key) =~= m);
        }
        let ghost s1 = pairs_view(self.nicks@);
        let ghost m1 = self.nick_of();
        let ghost o1 = self.owner_of();
        match nick {
            Some(n) => {
                let ghost nv = n@;
                assert forall|j: int| 0 <= j < self.nicks@.len() implies (#[trigger] self.nicks@[j]).nick@ != nv by {
                    if cur.is_some() {
                        let i = cur.unwrap() as int;
                        let j2 = if j < i { j } else { j + 1 };
                        assert(self.nicks@[j] == old(self).nicks@[j2]);
                    } else {
                        assert(self.nicks@[j] == old(self).nicks@[j]);
                    }
                }
                self.nicks.push(NickEntry { user: user_id, nick: n });
                let ghost s2 = pairs_view(self.nicks@);
                assert(s2 =~= s1.push((user_id.key, nv)));
                assert(s2.drop_last() =~= s1);
                assert forall|a: int, b: int| 0 <= a < b < s2.len() implies (#[trigger] s2[a]).0 != (#[trigger] s2[b]).0
                    && s2[a].1 != s2[b].1 by {
                    if b == s2.len() - 1 {
                        assert(s2[a] == s1[a]);
                        assert(s1[a].0 == self.nicks@[a].user.key);
                    } else {
                        assert(s2[a] == s1[a] && s2[b] == s1[b]);
                    }
                }
            },
            None => {},
        }
        Ok(())
    }
}

} // verus!
