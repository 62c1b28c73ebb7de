use nyirc::cancel::Cancel;
use nyirc::protocol::{IRCString, R2U, RoomID, U2R, UserID};
use nyirc::room::{Member, RoomError, RoomState};
use tokio::sync::mpsc;

fn member() -> Member {
    let (tx, _rx) = mpsc::channel(1);
    let (cancel, _r) = Cancel::new();
    Member { cancel, mailbox: tx }
}

fn uid(k: u64) -> UserID {
    UserID { key: k }
}

#[test]
fn joins_count_members_and_part_decrements() {
    let mut r = RoomState::new(RoomID { key: 9 });
    assert_eq!(r.touch_snapshot().n_members, 0);
    for k in 1..=5 {
        assert!(matches!(r.join(uid(k), member()), Some(R2U::Join { user }) if user == uid(k)));
    }
    assert_eq!(r.touch_snapshot().n_members, 5);
    assert!(r.join(uid(3), member()).is_none());
    assert_eq!(r.touch_snapshot().n_members, 5);
    assert!(matches!(r.part(uid(2)), Some((R2U::Part { user }, _)) if user == uid(2)));
    assert_eq!(r.touch_snapshot().n_members, 4);
    assert!(!r.is_member(uid(2)));
    assert!(r.is_member(uid(4)));
    assert!(r.part(uid(2)).is_none());
    assert_eq!(r.touch_snapshot().n_members, 4);
}

#[test]
fn handle_dispatches_room_messages() {
    let mut r = RoomState::new(RoomID { key: 1 });
    let (tx, _rx) = mpsc::channel(1);
    let (g, _gr) = Cancel::new();
    let (j, gone) = r.handle(U2R::Join { user: uid(1), user_mailbox: tx }, g).unwrap();
    assert!(matches!(j, Some(R2U::Join { user }) if user == uid(1)));
    assert!(gone.is_none());
    let (g2, _gr2) = Cancel::new();
    let m = U2R::Privmsg { user: uid(1), message: IRCString::new(b"hi".to_vec()) };
    assert_eq!(r.handle(m, g2).err(), Some(RoomError::Unhandled));
    let (g3, _gr3) = Cancel::new();
    assert!(matches!(r.handle(U2R::Part { user: uid(1) }, g3), Ok((Some(R2U::Part { .. }), Some(_)))));
    let (g4, _gr4) = Cancel::new();
    assert!(matches!(r.handle(U2R::Kill {}, g4), Ok((None, None))));
    assert!(r.done);
}

#[test]
fn kill_parts_every_member() {
    let mut r = RoomState::new(RoomID { key: 1 });
    r.join(uid(10), member());
    r.join(uid(20), member());
    let notes = r.kill();
    assert_eq!(notes.len(), 2);
    assert!(matches!(notes[0].0, R2U::Part { user } if user == uid(10)));
    assert!(matches!(notes[1].0, R2U::Part { user } if user == uid(20)));
    assert_eq!(r.touch_snapshot().n_members, 0);
    assert!(r.done);
}

#[test]
fn failed_broadcast_ends_room() {
    let mut r = RoomState::new(RoomID { key: 1 });
    r.broadcast_failed();
    assert!(r.done);
}

#[test]
fn parting_member_drops_its_relay_guard() {
    let mut r = RoomState::new(RoomID { key: 1 });
    let (tx, _rx) = mpsc::channel(1);
    let (cancel, mut signal) = Cancel::new();
    r.join(uid(1), Member { cancel, mailbox: tx });
    assert!(signal.try_recv().is_err());
    let (notice, departed) = r.part(uid(1)).unwrap();
    assert!(matches!(notice, R2U::Part { user } if user == uid(1)));
    assert!(matches!(signal.try_recv(), Err(tokio::sync::oneshot::error::TryRecvError::Empty)));
    drop(departed);
    assert!(matches!(signal.try_recv(), Err(tokio::sync::oneshot::error::TryRecvError::Closed)));
}

#[test]
fn repeat_join_keeps_the_first_member() {
    let mut r = RoomState::new(RoomID { key: 1 });
    let (tx1, mut rx1) = mpsc::channel(1);
    let (c1, mut s1) = Cancel::new();
    let (tx2, _rx2) = mpsc::channel(1);
    let (c2, mut s2) = Cancel::new();
    assert!(r.join(uid(5), Member { cancel: c1, mailbox: tx1 }).is_some());
    assert!(r.join(uid(5), Member { cancel: c2, mailbox: tx2 }).is_none());
    assert!(matches!(s2.try_recv(), Err(tokio::sync::oneshot::error::TryRecvError::Closed)));
    assert!(matches!(s1.try_recv(), Err(tokio::sync::oneshot::error::TryRecvError::Empty)));
    let kept = &r.members[0].1;
    kept.mailbox.try_send((RoomID { key: 1 }, R2U::Join { user: uid(5) })).unwrap();
    assert!(rx1.try_recv().is_ok());
}
