use vstd::prelude::*;

verus! {

#[verifier::external_type_specification]
#[verifier::external_body]
#[verifier::reject_recursive_types(T)]
pub struct ExSender<T>(std::sync::mpsc::Sender<T>);

/// Holds the sending end of the channel on which file-change events are posted.
pub struct FileWatcher {
    tx: std::sync::mpsc::Sender<()>,
}

impl FileWatcher {
    /// A watcher that posts on `tx`.
    pub fn new(tx: std::sync::mpsc::Sender<()>) -> (w: FileWatcher)
        ensures
            w.sender_spec() == tx,
    {
        FileWatcher { tx }
    }

    /// The channel the watcher posts on.
    pub closed spec fn sender_spec(&self) -> std::sync::mpsc::Sender<()> {
        self.tx
    }

    /// The sending end, for the code that starts watching.
    pub fn sender(&self) -> (r: &std::sync::mpsc::Sender<()>)
        ensures
            *r == self.sender_spec(),
    {
        &self.tx
    }
}

} // verus!
