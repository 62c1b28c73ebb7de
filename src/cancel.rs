use vstd::prelude::*;

use tokio::sync::oneshot;

verus! {

/// A guard that signals its receiver once, when the guard is fired or
/// dropped, whichever comes first. Dropping the guard drops the sender it
/// holds, and tokio's receiver then completes with an error: either outcome
/// wakes the task that waits on the receiver.
pub struct Cancel(pub Option<oneshot::Sender<()>>);

impl Cancel {
    /// Whether the signal is still to be sent.
    pub open spec fn armed(&self) -> bool {
        self.0.is_some()
    }

    /// A new armed guard and the receiver that its signal reaches.
    pub fn new() -> (r: (Cancel, oneshot::Receiver<()>))
        ensures
            r.0.armed(),
    {
        let (s, r) = oneshot::channel();
        (Cancel(Some(s)), r)
    }

    /// Sends the signal if it has not been sent; later calls do nothing.
    pub fn fire(&mut self)
        ensures
            !final(self).armed(),
    {
        if let Some(c) = self.0.take() {
            let _ = c.send(());
        }
    }
}

} // verus!
