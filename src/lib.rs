//! A chess rules engine: positions, reachable squares, legal moves, move
//! notation, check, checkmate and stalemate, and a text record of a
//! position.

pub mod board;
pub mod config;
pub mod input;
pub mod moves;
pub mod notation;
pub mod piece;
pub mod protocol;
pub mod reach;
pub mod rules;
pub mod serialize;
pub mod square;
pub mod update;

pub use board::{Board, Status};
pub use config::Config;
pub use input::{parse_raw, Command};
pub use moves::Move;
pub use notation::{Notation, NotationError};
pub use piece::{Piece, PieceColor, PieceKind};
pub use protocol::{
    CommandRequest, IsOkRequest, IsOkResponse, LogBackRequest, LogBackResponse, LoginRequest,
    LoginResponse, LogoutRequest, QueryRequest, QueryResponse, RoomCode, ServerError,
};
pub use square::{Square, SquareSet};
