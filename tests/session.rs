use nyirc::directory::DirectoryData;
use nyirc::cancel::Cancel;
use nyirc::protocol::{IRCString, RoomID, ToUser, U2R, U2U, UserID};
use nyirc::sock::MessageIn;
use nyirc::user::{Membership, Step, UserError, UserState};
use tokio::sync::mpsc;

fn line(b: &[u8]) -> MessageIn {
    MessageIn { time: 0, data: IRCString::new(b.to_vec()) }
}

fn new_user(d: &mut DirectoryData) -> UserState {
    let (tx, _rx) = mpsc::channel(1);
    let (cancel, _r) = Cancel::new();
    UserState::new(d.user_create(tx, cancel).unwrap())
}

/// Feeds lines before login; returns the welcome lines sent, or None when
/// the nickname claim collided.
fn login(d: &mut DirectoryData, u: &mut UserState, lines: &[&[u8]]) -> Option<Vec<Vec<u8>>> {
    for l in lines {
        match u.dispatch(&line(l)).unwrap() {
            Step::Continue => {}
            Step::Register(nick) => {
                let r = d.user_change_nick(u.id, Some(nick));
                let ok = r.is_ok();
                let out = u.finish_login(r, 10);
                return if ok { Some(out.into_iter().map(|m| m.data.bytes).collect()) } else {
                    assert!(out.is_empty());
                    None
                };
            }
            Step::Deliver { .. } => panic!("no delivery before login"),
        }
    }
    panic!("login did not complete")
}

#[test]
fn login_sends_four_welcome_lines() {
    let mut d = DirectoryData::new();
    let mut u = new_user(&mut d);
    let out = login(&mut d, &mut u, &[b"NICK bob", b"USER b 0 0 :Bob B"]).unwrap();
    assert_eq!(out.len(), 4);
    assert_eq!(out[0], b"001 Nyeogmi :Welcome to the server (test)\r\n".to_vec());
    assert_eq!(out[1], b"002 barf\r\n".to_vec());
    assert_eq!(out[2], b"003 barf\r\n".to_vec());
    assert_eq!(out[3], b"004 barf\r\n".to_vec());
    assert!(out.iter().all(|l| l.ends_with(b"\r\n")));
    assert!(u.id_card.is_complete());
    assert_eq!(u.id_card.realname.as_ref().unwrap().bytes, b"Bob B".to_vec());
}

#[test]
fn second_client_with_same_nick_collides() {
    let mut d = DirectoryData::new();
    let mut a = new_user(&mut d);
    let mut b = new_user(&mut d);
    assert!(login(&mut d, &mut a, &[b"NICK bob", b"USER b 0 0 :Bob B"]).is_some());
    assert!(login(&mut d, &mut b, &[b"NICK bob", b"USER c 0 0 :Other"]).is_none());
    assert!(b.id_card.nick.is_none());
    assert!(!b.id_card.is_complete());
    assert_eq!(d.user_by_nick(&IRCString::new(b"bob".to_vec())), Some(a.id));
    let again = login(&mut d, &mut b, &[b"NICK rob"]).unwrap();
    assert_eq!(again.len(), 4);
}

#[test]
fn cap_is_ignored_and_unknown_commands_are_unhandled() {
    let mut d = DirectoryData::new();
    let mut u = new_user(&mut d);
    assert!(matches!(u.dispatch(&line(b"CAP LS 302")), Ok(Step::Continue)));
    assert!(matches!(u.dispatch(&line(b"")), Ok(Step::Continue)));
    assert_eq!(u.dispatch(&line(b"JOIN #x")).err(), Some(UserError::Unhandled));
    assert_eq!(u.dispatch(&line(b"NICK a b")).err(), Some(UserError::Unhandled));
    assert!(u.id_card.nick.is_none());
}

#[test]
fn direct_message_reaches_target_connection() {
    let mut d = DirectoryData::new();
    let mut alice = new_user(&mut d);
    let mut carol = new_user(&mut d);
    login(&mut d, &mut alice, &[b"NICK alice", b"USER a 0 0 :A"]).unwrap();
    login(&mut d, &mut carol, &[b"NICK carol", b"USER c 0 0 :C"]).unwrap();
    let (to, message) = match alice.dispatch(&line(b"PRIVMSG carol :hi")).unwrap() {
        Step::Deliver { to, message } => (to, message),
        _ => panic!("expected a delivery"),
    };
    assert_eq!(to.bytes, b"carol".to_vec());
    assert_eq!(d.user_by_nick(&to), Some(carol.id));
    let out = carol.handle_server(message, 1000).unwrap();
    assert_eq!(out.data.bytes, b":alice PRIVMSG carol :hi\r\n".to_vec());
    assert_eq!(out.deadline, 1500);
}

#[test]
fn room_targets_and_room_traffic_are_unhandled() {
    let mut d = DirectoryData::new();
    let mut u = new_user(&mut d);
    login(&mut d, &mut u, &[b"NICK z", b"USER z 0 0 :Z"]).unwrap();
    assert_eq!(u.dispatch(&line(b"PRIVMSG #room :hi")).err(), Some(UserError::Unhandled));
    assert_eq!(u.dispatch(&line(b"PRIVMSG a")).err(), Some(UserError::Unhandled));
    let m = ToUser::Room { room_id: RoomID { key: 1 }, message: nyirc::protocol::R2U::Join { user: u.id } };
    assert_eq!(u.handle_server(m, 0).err(), Some(UserError::Unhandled));
}

#[test]
fn nick_shows_unknown_before_login() {
    let u = UserState::new(UserID { key: 1 << 32 });
    assert_eq!(u.my_nick().bytes, b"unknown".to_vec());
    let m = ToUser::User { nick: IRCString::new(b"q".to_vec()), message: U2U::Privmsg { message: IRCString::new(b"a b".to_vec()) } };
    assert_eq!(u.handle_server(m, 0).unwrap().data.bytes, b":q PRIVMSG unknown :a b\r\n".to_vec());
}

#[test]
fn kill_parts_every_room_and_clears() {
    let mut u = UserState::new(UserID { key: 7 });
    let (tx1, mut rx1) = mpsc::channel(1);
    let (tx2, _rx2) = mpsc::channel(1);
    u.memberships.push((RoomID { key: 1 }, Membership { mailbox: tx1 }));
    u.memberships.push((RoomID { key: 2 }, Membership { mailbox: tx2 }));
    assert!(matches!(u.send_room(RoomID { key: 3 }, U2R::Part { user: UserID { key: 9 } }), Err(U2R::Part { user }) if user == UserID { key: 9 }));
    let (mb, msg) = u.send_room(RoomID { key: 1 }, U2R::Part { user: u.id }).ok().unwrap();
    mb.try_send(msg).unwrap();
    assert!(matches!(rx1.try_recv().unwrap(), U2R::Part { user } if user == UserID { key: 7 }));
    let parts = u.kill();
    assert_eq!(parts.len(), 2);
    parts[0].0.mailbox.try_send(U2R::Kill {}).unwrap();
    assert!(matches!(rx1.try_recv().unwrap(), U2R::Kill {}));
    assert!(parts.iter().all(|(_, m)| matches!(m, U2R::Part { user } if *user == UserID { key: 7 })));
    assert!(u.memberships.is_empty());
    assert!(u.done);
}
