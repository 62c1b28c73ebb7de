use nyirc::cancel::Cancel;
use nyirc::directory::{ChangeNickError, DirectoryData};
use nyirc::protocol::{IRCString, ToUser, UserID};
use tokio::sync::mpsc;

fn s(b: &[u8]) -> IRCString {
    IRCString::new(b.to_vec())
}

fn add_user(d: &mut DirectoryData) -> (UserID, mpsc::Receiver<ToUser>) {
    let (tx, rx) = mpsc::channel(1);
    let (cancel, _r) = Cancel::new();
    (d.user_create(tx, cancel).unwrap(), rx)
}

#[test]
fn created_users_have_distinct_live_handles() {
    let mut d = DirectoryData::new();
    let (a, _ra) = add_user(&mut d);
    let (b, _rb) = add_user(&mut d);
    assert_ne!(a, b);
    assert!(d.user_get_mailbox(a).is_some());
    assert!(d.user_get_mailbox(b).is_some());
    assert!(d.user_get_mailbox(UserID { key: 12345 }).is_none());
}

#[test]
fn second_claim_of_a_nickname_collides() {
    let mut d = DirectoryData::new();
    let (a, _ra) = add_user(&mut d);
    let (b, _rb) = add_user(&mut d);
    let (c, _rc) = add_user(&mut d);
    assert!(d.user_change_nick(a, Some(s(b"bob"))).is_ok());
    assert_eq!(d.user_change_nick(b, Some(s(b"bob"))), Err(ChangeNickError::NickInUse));
    assert_eq!(d.user_change_nick(c, Some(s(b"bob"))), Err(ChangeNickError::NickInUse));
    assert_eq!(d.user_by_nick(&s(b"bob")), Some(a));
    assert_eq!(d.user_get_nick(a).unwrap().bytes, b"bob".to_vec());
    assert!(d.user_get_nick(b).is_none());
    assert!(d.user_get_nick(c).is_none());
}

#[test]
fn nicknames_are_case_sensitive() {
    let mut d = DirectoryData::new();
    let (a, _ra) = add_user(&mut d);
    let (b, _rb) = add_user(&mut d);
    assert!(d.user_change_nick(a, Some(s(b"bob"))).is_ok());
    assert!(d.user_change_nick(b, Some(s(b"Bob"))).is_ok());
    assert_eq!(d.user_by_nick(&s(b"Bob")), Some(b));
}

#[test]
fn renaming_releases_the_old_nickname() {
    let mut d = DirectoryData::new();
    let (a, _ra) = add_user(&mut d);
    let (b, _rb) = add_user(&mut d);
    assert!(d.user_change_nick(a, Some(s(b"x"))).is_ok());
    assert!(d.user_change_nick(a, Some(s(b"x"))).is_ok());
    assert!(d.user_change_nick(a, Some(s(b"y"))).is_ok());
    assert!(d.user_by_nick(&s(b"x")).is_none());
    assert_eq!(d.user_by_nick(&s(b"y")), Some(a));
    assert!(d.user_change_nick(b, Some(s(b"x"))).is_ok());
    assert_eq!(d.user_by_nick(&s(b"x")), Some(b));
    assert!(d.user_change_nick(a, None).is_ok());
    assert!(d.user_by_nick(&s(b"y")).is_none());
    assert!(d.user_get_nick(a).is_none());
}

#[test]
fn dropped_user_loses_handle_and_nickname() {
    let mut d = DirectoryData::new();
    let (a, _ra) = add_user(&mut d);
    assert!(d.is_live(a));
    assert!(d.user_change_nick(a, Some(s(b"carol"))).is_ok());
    d.user_drop(a);
    assert!(!d.is_live(a));
    d.user_drop(a);
    assert!(d.user_get_mailbox(a).is_none());
    assert!(d.user_by_nick(&s(b"carol")).is_none());
    assert!(d.user_nick_to_mailbox(&s(b"carol")).is_none());
    let (b, _rb) = add_user(&mut d);
    assert_ne!(a, b);
    assert!(d.user_get_nick(b).is_none());
    assert!(d.user_get_mailbox(a).is_none());
    assert!(d.user_get_mailbox(b).is_some());
}

#[test]
fn nickname_resolves_to_the_users_mailbox() {
    let mut d = DirectoryData::new();
    let (a, mut ra) = add_user(&mut d);
    assert!(d.user_change_nick(a, Some(s(b"carol"))).is_ok());
    let mb = d.user_nick_to_mailbox(&s(b"carol")).unwrap();
    let msg = ToUser::User { nick: s(b"x"), message: nyirc::protocol::U2U::Privmsg { message: s(b"hi") } };
    mb.try_send(msg).unwrap();
    match ra.try_recv().unwrap() {
        ToUser::User { nick, .. } => assert_eq!(nick.bytes, b"x".to_vec()),
        _ => panic!("wrong message"),
    }
    assert!(d.user_nick_to_mailbox(&s(b"dave")).is_none());
}
