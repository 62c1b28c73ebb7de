use vstd::prelude::*;

use tokio::sync::mpsc;

use crate::directory::ChangeNickError;
use crate::parse::{dump, parse, parse_spec, render_line};
use crate::protocol::{
    bytes_eq, opt_view, Command, CommandModel, IRCString, RoomID, ToUser, U2R, U2U, UserID,
};
use crate::sock::{ends_crlf, MessageIn, MessageOut};

verus! {

pub open spec fn cap_token() -> Seq<u8> {
    seq![67u8, 65, 80]
}

pub open spec fn nick_token() -> Seq<u8> {
    seq![78u8, 73, 67, 75]
}

pub open spec fn user_token() -> Seq<u8> {
    seq![85u8, 83, 69, 82]
}

pub open spec fn privmsg_token() -> Seq<u8> {
    seq![80u8, 82, 73, 86, 77, 83, 71]
}

/// The nickname shown for a user that has none yet.
pub open spec fn unknown_nick() -> Seq<u8> {
    seq![117u8, 110, 107, 110, 111, 119, 110]
}

/// The four numeric replies that greet a user who has logged in.
pub open spec fn welcome_line(i: int) -> Seq<u8> {
    if i == 0 {
        seq![48u8, 48, 49, 32, 78, 121, 101, 111, 103, 109, 105, 32, 58, 87, 101, 108, 99, 111, 109, 101, 32, 116, 111, 32, 116, 104, 101, 32, 115, 101, 114, 118, 101, 114, 32, 40, 116, 101, 115, 116, 41, 13, 10]
    } else if i == 1 {
        seq![48u8, 48, 50, 32, 98, 97, 114, 102, 13, 10]
    } else if i == 2 {
        seq![48u8, 48, 51, 32, 98, 97, 114, 102, 13, 10]
    } else {
        seq![48u8, 48, 52, 32, 98, 97, 114, 102, 13, 10]
    }
}

/// What a user has told about itself so far.
#[derive(Debug)]
pub struct UserIDCard {
    pub nick: Option<IRCString>,
    pub user: Option<IRCString>,
    pub realname: Option<IRCString>,
}

impl UserIDCard {
    pub fn new() -> (r: UserIDCard)
        ensures
            r.nick.is_none() && r.user.is_none() && r.realname.is_none(),
    {
        UserIDCard { nick: None, user: None, realname: None }
    }

    /// Login needs a nickname and a user name; the real name is optional.
    pub open spec fn complete(&self) -> bool {
        self.nick.is_some() && self.user.is_some()
    }

    #[verifier::when_used_as_spec(complete)]
    pub fn is_complete(&self) -> (r: bool)
        ensures
            r == self.complete(),
    {
        self.nick.is_some() && self.user.is_some()
    }
}

/// A user's link to a room it has joined: the room's mailbox.
pub struct Membership {
    pub mailbox: mpsc::Sender<U2R>,
}

/// A command this minimal server does not handle (an unknown command, a
/// wrong number of arguments, a room target, an unknown recipient).
#[derive(Clone, Copy, Debug, PartialEq, Eq, Structural)]
pub enum UserError {
    Unhandled,
}

/// What a line read from the user's connection calls for.
pub enum Step {
    /// Nothing more to do.
    Continue,
    /// The identity is complete: claim this nickname in the directory and
    /// report the outcome to `finish_login`.
    Register(IRCString),
    /// Deliver this message to the user holding the nickname `to`.
    Deliver { to: IRCString, message: ToUser },
}

/// The state of one user's session, apart from its channels.
pub struct UserState {
    pub id: UserID,
    pub done: bool,
    pub id_card: UserIDCard,
    pub memberships: Vec<(RoomID, Membership)>,
}

pub open spec fn card_view(c: UserIDCard) -> (Option<Seq<u8>>, Option<Seq<u8>>, Option<Seq<u8>>) {
    (opt_view(c.nick), opt_view(c.user), opt_view(c.realname))
}

pub open spec fn token_is(c: CommandModel, t: Seq<u8>) -> bool {
    c.cmd == t
}

/// A login record as byte strings: nickname, user name, real name.
pub type CardModel = (Option<Seq<u8>>, Option<Seq<u8>>, Option<Seq<u8>>);

pub open spec fn card_complete(k: CardModel) -> bool {
    k.0.is_some() && k.1.is_some()
}

/// The login record after command `c` before login; `None` when `c` is
/// not one that login accepts.
pub open spec fn prelogin_card(k: CardModel, c: CommandModel) -> Option<CardModel> {
    if token_is(c, cap_token()) {
        Some(k)
    } else if token_is(c, nick_token()) && c.args.len() == 1 {
        Some((Some(c.args[0]), k.1, k.2))
    } else if token_is(c, user_token()) && c.args.len() == 4 {
        Some((k.0, Some(c.args[0]), Some(c.args[3])))
    } else {
        None
    }
}

/// What a login command leads to: claim the nickname once the record is complete.
pub open spec fn prelogin_step_ok(r: Step, k: CardModel) -> bool {
    match r {
        Step::Register(n) => card_complete(k) && k.0 == Some(n@),
        Step::Continue => !card_complete(k),
        Step::Deliver { .. } => false,
    }
}

/// Whether `msg` is a direct message with text `text` signed `nick`.
pub open spec fn is_privmsg(msg: ToUser, nick: Seq<u8>, text: Seq<u8>) -> bool {
    match msg {
        ToUser::User { nick: n, message: U2U::Privmsg { message } } => n@ == nick && message@ == text,
        _ => false,
    }
}

/// Whether `c` is a direct message to a user: `PRIVMSG`, a target and a
/// text, the target not naming a room (a leading `#`).
pub open spec fn is_user_privmsg(c: CommandModel) -> bool {
    &&& token_is(c, privmsg_token())
    &&& c.args.len() == 2
    &&& !(c.args[0].len() > 0 && c.args[0][0] == 35u8)
}

impl UserState {
    pub fn new(id: UserID) -> (r: UserState)
        ensures
            r.id == id,
            !r.done,
            card_view(r.id_card) == (None::<Seq<u8>>, None::<Seq<u8>>, None::<Seq<u8>>),
            r.memberships@.len() == 0,
    {
        UserState { id, done: false, id_card: UserIDCard::new(), memberships: Vec::new() }
    }

    /// The user's nickname, or `unknown` before it has one.
    pub fn my_nick(&self) -> (r: IRCString)
        ensures
            r@ == match self.id_card.nick {
                Some(n) => n@,
                None => unknown_nick(),
            },
    {
        match &self.id_card.nick {
            Some(n) => n.duplicate(),
            None => IRCString::new(vec![117u8, 110, 107, 110, 111, 119, 110]),
        }
    }

    /// Handles a command before login. `CAP` is accepted and ignored, `NICK`
    /// with one argument proposes a nickname, `USER` with four arguments
    /// gives the user name (first) and the real name (last); anything else
    /// is unhandled. Once nickname and user name are both known, the
    /// nickname is to be claimed.
    pub fn handle_user_prelogin(&mut self, cmd: &Command) -> (r: Result<Step, UserError>)
        requires
            !old(self).id_card.is_complete(),
        ensures
            final(self).id == old(self).id,
            final(self).done == old(self).done,
            final(self).memberships@ == old(self).memberships@,
            match prelogin_card(card_view(old(self).id_card), cmd@) {
                None => r.is_err() && card_view(final(self).id_card) == card_view(old(self).id_card),
                Some(k) => card_view(final(self).id_card) == k && r.is_ok()
                    && prelogin_step_ok(r.unwrap(), k),
            },
    {
        let t = cmd.cmd.bytes.as_slice();
        if bytes_eq(t, vec![67u8, 65, 80].as_slice()) {
        } else if bytes_eq(t, vec![78u8, 73, 67, 75].as_slice()) && cmd.args.len() == 1 {
            self.id_card.nick = Some(cmd.args[0].duplicate());
        } else if bytes_eq(t, vec![85u8, 83, 69, 82].as_slice()) && cmd.args.len() == 4 {
            self.id_card.user = Some(cmd.args[0].duplicate());
            self.id_card.realname = Some(cmd.args[3].duplicate());
        } else {
            return Err(UserError::Unhandled);
        }
        if self.id_card.is_complete() {
            match &self.id_card.nick {
                Some(n) => Ok(Step::Register(n.duplicate())),
                None => Ok(Step::Continue),
            }
        } else {
            Ok(Step::Continue)
        }
    }

    /// Ends a login attempt with the directory's answer to the nickname
    /// claim: on success the four welcome lines, due at `now`; on a
    /// collision the nickname is forgotten and nothing is sent.
    pub fn finish_login(&mut self, committed: Result<(), ChangeNickError>, now: u64) -> (r: Vec<MessageOut>)
        requires
            old(self).id_card.complete(),
        ensures
            final(self).id == old(self).id,
            final(self).done == old(self).done,
            final(self).memberships@ == old(self).memberships@,
            committed.is_ok() ==> card_view(final(self).id_card) == card_view(old(self).id_card)
                && r@.len() == 4
                && forall|i: int| 0 <= i < 4 ==> (#[trigger] r@[i]).data@ == welcome_line(i) && r@[i].deadline == now
                    && ends_crlf(r@[i].data@),
            committed.is_err() ==> card_view(final(self).id_card) == (None::<Seq<u8>>, opt_view(old(self).id_card.user), opt_view(old(self).id_card.realname))
                && r@.len() == 0,
    {
        let mut out: Vec<MessageOut> = Vec::new();
        match committed {
            Ok(()) => {
                out.push(MessageOut { deadline: now, data: IRCString::new(vec![48u8, 48, 49, 32, 78, 121, 101, 111, 103, 109, 105, 32, 58, 87, 101, 108, 99, 111, 109, 101, 32, 116, 111, 32, 116, 104, 101, 32, 115, 101, 114, 118, 101, 114, 32, 40, 116, 101, 115, 116, 41, 13, 10]) });
                out.push(MessageOut { deadline: now, data: IRCString::new(vec![48u8, 48, 50, 32, 98, 97, 114, 102, 13, 10]) });
                out.push(MessageOut { deadline: now, data: IRCString::new(vec![48u8, 48, 51, 32, 98, 97, 114, 102, 13, 10]) });
                out.push(MessageOut { deadline: now, data: IRCString::new(vec![48u8, 48, 52, 32, 98, 97, 114, 102, 13, 10]) });
            },
            Err(_) => {
                self.id_card.nick = None;
            },
        }
        out
    }

    /// Handles a command after login: only a direct message to a user is
    /// handled, to be delivered with this user's nickname as sender.
    pub fn handle_user(&self, cmd: &Command) -> (r: Result<Step, UserError>)
        ensures
            r.is_ok() == is_user_privmsg(cmd@),
            match r {
                Ok(Step::Deliver { to, message }) => to@ == cmd@.args[0]
                    && is_privmsg(message, opt_view(self.id_card.nick).unwrap_or(unknown_nick()), cmd@.args[1]),
                Ok(_) => false,
                Err(_) => true,
            },
    {
        if !bytes_eq(cmd.cmd.bytes.as_slice(), vec![80u8, 82, 73, 86, 77, 83, 71].as_slice()) || cmd.args.len() != 2 {
            return Err(UserError::Unhandled);
        }
        let target = &cmd.args[0];
        if target.bytes.len() > 0 && target.bytes[0] == 35 {
            return Err(UserError::Unhandled);
        }
        let message = ToUser::User { nick: self.my_nick(), message: U2U::Privmsg { message: cmd.args[1].duplicate() } };
        Ok(Step::Deliver { to: target.duplicate(), message })
    }

    /// Handles a line read from the connection. A line without a command
    /// is dropped; before login it goes to `handle_user_prelogin`, after
    /// it to `handle_user`.
    pub fn dispatch(&mut self, line: &MessageIn) -> (r: Result<Step, UserError>)
        ensures
            final(self).id == old(self).id,
            final(self).done == old(self).done,
            final(self).memberships@ == old(self).memberships@,
            match parse_spec(line.data@) {
                None => r matches Ok(Step::Continue) && card_view(final(self).id_card) == card_view(old(self).id_card),
                Some(c) => if !old(self).id_card.complete() {
                    match prelogin_card(card_view(old(self).id_card), c) {
                        None => r.is_err() && card_view(final(self).id_card) == card_view(old(self).id_card),
                        Some(k) => card_view(final(self).id_card) == k && r.is_ok() && prelogin_step_ok(r.unwrap(), k),
                    }
                } else {
                    &&& card_view(final(self).id_card) == card_view(old(self).id_card)
                    &&& r.is_ok() == is_user_privmsg(c)
                    &&& match r {
                        Ok(Step::Deliver { to, message }) => to@ == c.args[0]
                            && is_privmsg(message, opt_view(old(self).id_card.nick).unwrap_or(unknown_nick()), c.args[1]),
                        Ok(_) => false,
                        Err(_) => true,
                    }
                },
            },
    {
        let cmd = match parse(line) {
            Some(c) => c,
            None => {
                return Ok(Step::Continue);
            },
        };
        if !self.id_card.is_complete() {
            self.handle_user_prelogin(&cmd)
        } else {
            self.handle_user(&cmd)
        }
    }

    /// Renders what another user sent for this user's connection: a direct
    /// message becomes `:<sender> PRIVMSG <me> :<text>`, due half a second
    /// after `now`. Room traffic is unhandled.
    pub fn handle_server(&self, msg: ToUser, now: u64) -> (r: Result<MessageOut, UserError>)
        requires
            now + 500 <= u64::MAX,
        ensures
            match msg {
                ToUser::User { nick, message: U2U::Privmsg { message } } => r.is_ok()
                    && r.unwrap().deadline == now + 500
                    && r.unwrap().data@ == render_line(CommandModel {
                        pfx: Some(nick@),
                        cmd: privmsg_token(),
                        args: seq![opt_view(self.id_card.nick).unwrap_or(unknown_nick()), seq![58u8] + message@],
                    }) + seq![13u8, 10u8],
                ToUser::Room { .. } => r.is_err(),
            },
    {
        match msg {
            ToUser::User { nick, message: U2U::Privmsg { message } } => {
                let mut text: Vec<u8> = vec![58u8];
                crate::protocol::append_bytes(&mut text, message.bytes.as_slice());
                let me = self.my_nick();
                assert(me@ == opt_view(self.id_card.nick).unwrap_or(unknown_nick()));
                let mut args: Vec<IRCString> = Vec::new();
                args.push(me);
                args.push(IRCString::new(text));
                let cmd = Command { pfx: Some(nick), cmd: IRCString::new(vec![80u8, 82, 73, 86, 77, 83, 71]), args };
                proof {
                    assert(text@ =~= seq![58u8] + message@);
                    assert(crate::protocol::args_view(cmd.args@) =~= seq![opt_view(self.id_card.nick).unwrap_or(unknown_nick()), seq![58u8] + message@]);
                }
                Ok(dump(cmd, now, 500))
            },
            ToUser::Room { .. } => Err(UserError::Unhandled),
        }
    }

    /// The mailbox of a room this user belongs to, with the message for
    /// it; the message comes back when the user is not a member.
    pub fn send_room(&self, room: RoomID, msg: U2R) -> (r: Result<(mpsc::Sender<U2R>, U2R), U2R>)
        ensures
            r.is_ok() == exists|i: int| 0 <= i < self.memberships@.len() && (#[trigger] self.memberships@[i]).0 == room,
            match r {
                Ok((_, m)) => m == msg,
                Err(m) => m == msg,
            },
    {
        let mut i: usize = 0;
        while i < self.memberships.len()
            invariant
                0 <= i <= self.memberships@.len(),
                forall|j: int| 0 <= j < i ==> (#[trigger] self.memberships@[j]).0 != room,
            decreases self.memberships@.len() - i,
        {
            if self.memberships[i].0 == room {
                return Ok((self.memberships[i].1.mailbox.clone(), msg));
            }
            i = i + 1;
        }
        Err(msg)
    }

    /// Ends the session: every room the user belongs to gets a part notice
    /// (its mailbox and the notice are returned, in membership order), the
    /// memberships are cleared and the session is done.
    pub fn kill(&mut self) -> (r: Vec<(Membership, U2R)>)
        ensures
            final(self).done,
            final(self).id == old(self).id,
            final(self).memberships@.len() == 0,
            card_view(final(self).id_card) == card_view(old(self).id_card),
            r@.len() == old(self).memberships@.len(),
            forall|i: int| 0 <= i < r@.len() ==> (#[trigger] r@[i]).1 == (U2R::Part { user: old(self).id })
                && r@[i].0 == old(self).memberships@[i].1,
    {
        let mut out: Vec<(Membership, U2R)> = Vec::new();
        let n = self.memberships.len();
        while self.memberships.len() > 0
            invariant
                out@.len() + self.memberships@.len() == n,
                n == old(self).memberships@.len(),
                self.memberships@ == old(self).memberships@.subrange(out@.len() as int, n as int),
                self.id == old(self).id,
                card_view(self.id_card) == card_view(old(self).id_card),
                forall|i: int| 0 <= i < out@.len() ==> (#[trigger] out@[i]).1 == (U2R::Part { user: old(self).id })
                    && out@[i].0 == old(self).memberships@[i].1,
            decreases self.memberships@.len(),
        {
            let ghost k = out@.len();
            let (room, m) = self.memberships.remove(0);
            assert(old(self).memberships@[k as int] == (room, m));
            out.push((m, U2R::Part { user: self.id }));
            assert(self.memberships@ =~= old(self).memberships@.subrange(out@.len() as int, n as int));
        }
        self.done = true;
        out
    }
}

} // verus!
