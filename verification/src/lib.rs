//! A local, file-backed store for calendar events.
//!
//! Each event is serialized to its own file in a dedicated events
//! directory, keyed by a randomly generated unique 128-bit identifier
//! whose decimal form is the filename.  The verified core covers the
//! identifier generation with collision avoidance, the binary record
//! encoding and decoding, and create / list-all / delete over an
//! in-memory picture of the flat file namespace; the thin outer layer
//! that touches the real filesystem mirrors that picture.

use vstd::prelude::*;

pub mod codec;
pub mod dir;
pub mod error;
pub mod event;
pub mod ids;
pub mod time;

verus! {

use vstd::string::StringExecFns;

/// The storage context: the root data directory and the events
/// sub-directory that every store operation resolves against.
/// Pure path composition; no filesystem work happens here, so
/// construction never fails.
pub struct App {
    /// The directory in which the program's data is stored.
    pub data_dir: String,
    /// The directory in which the events are stored: the `events`
    /// sub-directory of `data_dir`.
    pub events_dir: String,
}

impl App {
    pub fn new(data_dir: &str) -> (a: App)
        ensures
            a.data_dir@ == data_dir@,
            a.events_dir@ == data_dir@ + "/events/"@,
    {
        App {
            data_dir: data_dir.to_owned(),
            events_dir: data_dir.to_owned().concat("/events/"),
        }
    }
}

} // verus!
