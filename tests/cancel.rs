use nyirc::cancel::Cancel;
use tokio::sync::oneshot::error::TryRecvError;

#[test]
fn fire_signals_once() {
    let (mut c, mut r) = Cancel::new();
    assert!(matches!(r.try_recv(), Err(TryRecvError::Empty)));
    c.fire();
    assert!(r.try_recv().is_ok());
    c.fire();
    drop(c);
}

#[test]
fn dropping_the_guard_wakes_the_waiting_task() {
    let rt = tokio::runtime::Builder::new_current_thread().enable_all().build().unwrap();
    let (c, r) = Cancel::new();
    let task = rt.spawn(async move {
        let _ = r.await;
        true
    });
    drop(c);
    assert!(rt.block_on(task).unwrap());
}
