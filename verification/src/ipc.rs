//! Requests accepted on the control socket.

use crate::chord::Key;
use vstd::prelude::*;

verus! {

#[derive(Debug, Clone, PartialEq, Eq, Structural)]
pub enum Request {
    Status,
    Why,
    /// Leave the brightness alone, for `minutes` or until resumed.
    Pause { minutes: Option<u64> },
    Resume,
    Forget,
    /// A brightness key was pressed.
    Key { key: Key },
}

} // verus!
