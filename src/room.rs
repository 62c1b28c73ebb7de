use vstd::prelude::*;

use tokio::sync::mpsc;

use crate::cancel::Cancel;
use crate::protocol::{R2U, RoomID, U2R, UserID};

verus! {

/// What an observer can see of a room without joining it.
#[derive(Clone, Copy, Debug, PartialEq, Eq, Structural)]
pub struct RoomSnapshot {
    pub n_members: usize,
}

/// A member of a room: the guard of the task relaying the room's broadcasts
/// to the member, and the member's mailbox.
pub struct Member {
    pub cancel: Cancel,
    pub mailbox: mpsc::Sender<(RoomID, R2U)>,
}

/// A message this room does not handle yet (room chat).
#[derive(Clone, Copy, Debug, PartialEq, Eq, Structural)]
pub enum RoomError {
    Unhandled,
}

/// The state of one room, apart from its channels.
pub struct RoomState {
    pub id: RoomID,
    pub done: bool,
    pub members: Vec<(UserID, Member)>,
}

pub open spec fn ids_view(s: Seq<(UserID, Member)>) -> Seq<UserID> {
    s.map_values(|p: (UserID, Member)| p.0)
}

/// The members after `user` joins: added at the end unless already there.
pub open spec fn join_spec(ms: Seq<UserID>, user: UserID) -> Seq<UserID> {
    if ms.contains(user) {
        ms
    } else {
        ms.push(user)
    }
}

/// The members after each of `users` joins, in turn.
pub open spec fn joins(ms: Seq<UserID>, users: Seq<UserID>) -> Seq<UserID>
    decreases users.len(),
{
    if users.len() == 0 {
        ms
    } else {
        joins(join_spec(ms, users[0]), users.drop_first())
    }
}

/// After the joins of users that are all different and none of them a
/// member yet, with no part in between, the room counts exactly that many
/// more members; and each join keeps every member listed once.
pub proof fn lemma_joins_count(ms: Seq<UserID>, users: Seq<UserID>)
    requires
        ms.no_duplicates(),
        users.no_duplicates(),
        forall|i: int| 0 <= i < users.len() ==> !ms.contains(#[trigger] users[i]),
    ensures
        joins(ms, users).len() == ms.len() + users.len(),
        joins(ms, users).no_duplicates(),
    decreases users.len(),
{
    if users.len() > 0 {
        let u = users[0];
        assert(!ms.contains(u));
        let ms2 = ms.push(u);
        assert(join_spec(ms, u) == ms2);
        let rest = users.drop_first();
        assert forall|i: int, j: int| 0 <= i < j < ms2.len() implies ms2[i] != ms2[j] by {
            if j == ms2.len() - 1 {
                assert(ms2[i] == ms[i]);
            }
        }
        assert forall|i: int, j: int| 0 <= i < j < rest.len() implies rest[i] != rest[j] by {
            assert(rest[i] == users[i + 1] && rest[j] == users[j + 1]);
        }
        assert forall|i: int| 0 <= i < rest.len() implies !ms2.contains(#[trigger] rest[i]) by {
            assert(rest[i] == users[i + 1]);
            assert(users[i + 1] != users[0]);
            if ms2.contains(rest[i]) {
                let k = choose|k: int| 0 <= k < ms2.len() && ms2[k] == rest[i];
                if k < ms.len() {
                    assert(ms[k] == rest[i]);
                }
            }
        }
        lemma_joins_count(ms2, rest);
    }
}

/// What `part` does: a member leaves, and its notice and its entry come
/// back; a user who is not a member changes nothing.
pub open spec fn parted(
    old: Seq<(UserID, Member)>,
    new: Seq<(UserID, Member)>,
    user: UserID,
    r: Option<(R2U, Member)>,
) -> bool {
    if ids_view(old).contains(user) {
        exists|i: int|
            0 <= i < old.len() && (#[trigger] old[i]).0 == user && new == old.remove(i) && r == Some(
                (R2U::Part { user }, old[i].1),
            )
    } else {
        new == old && r.is_none()
    }
}

pub open spec fn pair_of(r: (Option<R2U>, Option<Member>)) -> Option<(R2U, Member)> {
    match r {
        (Some(n), Some(m)) => Some((n, m)),
        _ => None,
    }
}

impl RoomState {
    /// Every member is listed once.
    pub open spec fn wf(&self) -> bool {
        ids_view(self.members@).no_duplicates()
    }

    pub open spec fn member_ids(&self) -> Seq<UserID> {
        ids_view(self.members@)
    }

    pub fn new(id: RoomID) -> (r: RoomState)
        ensures
            r.wf(),
            r.id == id,
            !r.done,
            r.member_ids() == Seq::<UserID>::empty(),
    {
        let r = RoomState { id, done: false, members: Vec::new() };
        assert(r.member_ids() =~= Seq::<UserID>::empty());
        r
    }

    /// The snapshot to publish: the current member count.
    pub fn touch_snapshot(&self) -> (r: RoomSnapshot)
        ensures
            r.n_members == self.member_ids().len(),
    {
        RoomSnapshot { n_members: self.members.len() }
    }

    fn find(&self, user: UserID) -> (r: Option<usize>)
        ensures
            match r {
                Some(i) => i < self.members@.len() && self.member_ids()[i as int] == user,
                None => !self.member_ids().contains(user),
            },
    {
        let mut i: usize = 0;
        while i < self.members.len()
            invariant
                0 <= i <= self.members@.len(),
                forall|j: int| 0 <= j < i ==> (#[trigger] self.members@[j]).0 != user,
            decreases self.members@.len() - i,
        {
            if self.members[i].0 == user {
                return Some(i);
            }
            i = i + 1;
        }
        proof {
            if self.member_ids().contains(user) {
                let k = choose|k: int| 0 <= k < self.member_ids().len() && self.member_ids()[k] == user;
                assert(self.members@[k].0 == user);
            }
        }
        None
    }

    /// Whether `user` is a member.
    pub fn is_member(&self, user: UserID) -> (r: bool)
        ensures
            r == self.member_ids().contains(user),
    {
        self.find(user).is_some()
    }

    /// Adds a member; a user already in the room is left as it is (and the
    /// new guard is dropped). Returns the join notice to broadcast.
    pub fn join(&mut self, user: UserID, member: Member) -> (r: Option<R2U>)
        requires
            old(self).wf(),
        ensures
            final(self).wf(),
            final(self).id == old(self).id,
            final(self).done == old(self).done,
            final(self).member_ids() == join_spec(old(self).member_ids(), user),
            final(self).members@ == if old(self).member_ids().contains(user) {
                old(self).members@
            } else {
                old(self).members@.push((user, member))
            },
            r == if old(self).member_ids().contains(user) {
                None
            } else {
                Some(R2U::Join { user })
            },
    {
        if self.find(user).is_some() {
            return None;
        }
        self.members.push((user, member));
        proof {
            let old_ids = old(self).member_ids();
            assert(self.member_ids() =~= old_ids.push(user));
            assert forall|i: int, j: int| 0 <= i < j < self.member_ids().len() implies self.member_ids()[i]
                != self.member_ids()[j] by {
                if j == old_ids.len() {
                    assert(self.member_ids()[i] == old_ids[i]);
                }
            }
        }
        Some(R2U::Join { user })
    }

    /// Removes a member; nothing happens for a user who is not one.
    /// Returns the part notice and the departed member: the caller
    /// broadcasts the notice before dropping the member, whose relay guard
    /// then stops its relay.
    pub fn part(&mut self, user: UserID) -> (r: Option<(R2U, Member)>)
        requires
            old(self).wf(),
        ensures
            final(self).wf(),
            final(self).id == old(self).id,
            final(self).done == old(self).done,
            parted(old(self).members@, final(self).members@, user, r),
            old(self).member_ids().contains(user) ==> {
                &&& final(self).member_ids().len() == old(self).member_ids().len() - 1
                &&& !final(self).member_ids().contains(user)
                &&& forall|u: UserID| u != user ==> (#[trigger] final(self).member_ids().contains(u)
                    == old(self).member_ids().contains(u))
            },
    {
        match self.find(user) {
            None => None,
            Some(i) => {
                let ghost old_ids = self.member_ids();
                let ghost old_members = self.members@;
                let gone = self.members.remove(i);
                proof {
                    let ids = self.member_ids();
                    assert(ids =~= old_ids.remove(i as int));
                    assert forall|a: int, b: int| 0 <= a < b < ids.len() implies ids[a] != ids[b] by {
                        let a2 = if a < i { a } else { a + 1 };
                        let b2 = if b < i { b } else { b + 1 };
                        assert(ids[a] == old_ids[a2] && ids[b] == old_ids[b2]);
                    }
                    assert forall|u: UserID| u != user implies #[trigger] ids.contains(u) == old_ids.contains(u) by {
                        if old_ids.contains(u) {
                            let k = choose|k: int| 0 <= k < old_ids.len() && old_ids[k] == u;
                            let k2 = if k < i { k } else { k - 1 };
                            assert(ids[k2] == u);
                        }
                        if ids.contains(u) {
                            let k = choose|k: int| 0 <= k < ids.len() && ids[k] == u;
                            let k2 = if k < i { k } else { k + 1 };
                            assert(old_ids[k2] == u);
                        }
                    }
                    if ids.contains(user) {
                        let k = choose|k: int| 0 <= k < ids.len() && ids[k] == user;
                        let k2 = if k < i { k } else { k + 1 };
                        assert(old_ids[k2] == user);
                    }
                    assert(old_members[i as int].0 == user);
                }
                Some((R2U::Part { user }, gone.1))
            },
        }
    }

    /// A broadcast found no receiver: the room has no reason to go on.
    pub fn broadcast_failed(&mut self)
        ensures
            final(self).done,
            final(self).id == old(self).id,
            final(self).members@ == old(self).members@,
    {
        self.done = true;
    }

    /// Tears the room down: a part notice for every member, in order, each
    /// with the departed member (to be dropped once the notices are out);
    /// then no members, and the room is done.
    pub fn kill(&mut self) -> (r: Vec<(R2U, Member)>)
        ensures
            final(self).done,
            final(self).id == old(self).id,
            final(self).members@.len() == 0,
            r@.len() == old(self).members@.len(),
            forall|i: int| 0 <= i < r@.len() ==> (#[trigger] r@[i]) == (R2U::Part { user: old(self).members@[i].0 }, old(self).members@[i].1),
    {
        let mut out: Vec<(R2U, Member)> = Vec::new();
        let ghost n = self.members@.len();
        while self.members.len() > 0
            invariant
                n == old(self).members@.len(),
                out@.len() + self.members@.len() == n,
                self.members@ == old(self).members@.subrange(out@.len() as int, n as int),
                self.id == old(self).id,
                forall|j: int| 0 <= j < out@.len() ==> (#[trigger] out@[j]) == (R2U::Part { user: old(self).members@[j].0 }, old(self).members@[j].1),
            decreases self.members@.len(),
        {
            let ghost k = out@.len();
            let (user, m) = self.members.remove(0);
            assert(old(self).members@[k as int] == (user, m));
            out.push((R2U::Part { user }, m));
            assert(self.members@ =~= old(self).members@.subrange(out@.len() as int, n as int));
        }
        self.done = true;
        out
    }

    /// Handles one message to the room: `Kill` ends it, `Join` adds the
    /// user with `relay_guard` as the guard of its relay task, `Part`
    /// removes the user. Returns the notice to broadcast, if any, and the
    /// departed member, to be dropped after the broadcast. Room chat is
    /// unhandled.
    pub fn handle(&mut self, msg: U2R, relay_guard: Cancel) -> (r: Result<(Option<R2U>, Option<Member>), RoomError>)
        requires
            old(self).wf(),
        ensures
            final(self).wf(),
            final(self).id == old(self).id,
            match msg {
                U2R::Kill {} => r matches Ok((None, None)) && final(self).done
                    && final(self).members@ == old(self).members@,
                U2R::Join { user, user_mailbox } => final(self).done == old(self).done
                    && final(self).members@ == (if old(self).member_ids().contains(user) {
                        old(self).members@
                    } else {
                        old(self).members@.push((user, Member { cancel: relay_guard, mailbox: user_mailbox }))
                    })
                    && r.is_ok() && r.unwrap().1.is_none()
                    && r.unwrap().0 == (if old(self).member_ids().contains(user) { None } else { Some(R2U::Join { user }) }),
                U2R::Part { user } => final(self).done == old(self).done
                    && r.is_ok() && parted(old(self).members@, final(self).members@, user, pair_of(r.unwrap())),
                U2R::Privmsg { .. } => r == Err::<(Option<R2U>, Option<Member>), RoomError>(RoomError::Unhandled)
                    && final(self).members@ == old(self).members@ && final(self).done == old(self).done,
            },
    {
        match msg {
            U2R::Kill {} => {
                self.done = true;
                Ok((None, None))
            },
            U2R::Join { user, user_mailbox } => Ok((self.join(user, Member { cancel: relay_guard, mailbox: user_mailbox }), None)),
            U2R::Part { user } => match self.part(user) {
                Some((notice, member)) => Ok((Some(notice), Some(member))),
                None => Ok((None, None)),
            },
            U2R::Privmsg { .. } => Err(RoomError::Unhandled),
        }
    }
}

} // verus!
