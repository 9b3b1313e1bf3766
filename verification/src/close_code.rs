//! The close codes a connection is dismissed with before it ever joins a
//! room.

use vstd::prelude::*;
use vstd::string::StringExecFns;

verus! {

#[derive(Debug, PartialEq, Eq)]
pub enum SocketCloseCode {
    RoomNotFound(String),
    InvalidUsername,
}

impl SocketCloseCode {
    /// The numeric close code sent on the wire.
    pub fn code(&self) -> (r: u16)
        ensures
            self matches SocketCloseCode::RoomNotFound(_) ==> r == 4000,
            self is InvalidUsername ==> r == 4001,
    {
        match self {
            SocketCloseCode::RoomNotFound(_) => 4000,
            SocketCloseCode::InvalidUsername => 4001,
        }
    }

    /// The human-readable close reason; for a missing room it names the
    /// code that was asked for.
    pub fn reason(&self) -> (r: String)
        ensures
            self matches SocketCloseCode::RoomNotFound(c) ==> r@ == "Could not find room \""@ + c@
                + "\""@,
            self is InvalidUsername ==> r@
                == "Either no username or an invalid username was supplied."@,
    {
        match self {
            SocketCloseCode::RoomNotFound(room_code) => {
                let head: String = "Could not find room \"".to_owned();
                let with_code = head.concat(room_code.as_str());
                let full = with_code.concat("\"");
                full
            }
            SocketCloseCode::InvalidUsername => {
                "Either no username or an invalid username was supplied.".to_owned()
            }
        }
    }
}

} // verus!
