//! The messages that two players exchange through a room server. Notation
//! strings and board records travel in them as opaque text.
use vstd::prelude::*;

verus! {

pub type RoomCode = u64;

#[derive(Debug)]
pub struct LoginRequest {
    pub room: RoomCode,
}

/// `player` is true for White.
#[derive(Debug)]
pub struct LoginResponse {
    pub player: bool,
}

#[derive(Debug)]
pub struct CommandRequest {
    pub room: RoomCode,
    pub player: bool,
    pub cmd: String,
    pub board: String,
}

#[derive(Debug)]
pub struct QueryRequest {
    pub room: RoomCode,
    pub player: bool,
}

#[derive(Debug)]
pub struct QueryResponse {
    pub cmd: String,
}

#[derive(Debug)]
pub struct IsOkRequest {
    pub room: RoomCode,
}

#[derive(Debug)]
pub struct IsOkResponse {
    pub ok: bool,
}

#[derive(Debug)]
pub struct LogoutRequest {
    pub room: RoomCode,
}

#[derive(Debug)]
pub struct LogBackRequest {
    pub room: RoomCode,
    pub player: bool,
}

#[derive(Debug)]
pub struct LogBackResponse {
    pub board: String,
}

#[derive(Debug)]
pub struct ServerError;

impl ServerError {
    pub fn message(&self) -> (r: &'static str)
        ensures
            r@ == "Server Error"@,
    {
        "Server Error"
    }
}

} // verus!
