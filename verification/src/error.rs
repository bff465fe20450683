//! Errors of requests, and how they are answered.

use vstd::prelude::*;

verus! {

pub enum AppError {
    /// The request's client id is not registered (no init, or its room expired).
    UnknownClient,
    /// The addressed room does not exist.
    RoomNotFound,
    /// The action requires an active room but the room is inactive.
    RoomInactive,
    /// The requested username is already in use by another client.
    UsernameTaken,
    /// Anything unexpected, with its description.
    Internal(String),
}

/// The HTTP status with which an error is answered.
pub open spec fn error_status(e: AppError) -> u16 {
    match e {
        AppError::UnknownClient => 401,
        AppError::RoomNotFound => 404,
        AppError::RoomInactive => 409,
        AppError::UsernameTaken => 409,
        AppError::Internal(_) => 500,
    }
}

/// The text with which an error is answered.
pub open spec fn error_message(e: AppError) -> Seq<char> {
    match e {
        AppError::UnknownClient => "unknown client"@,
        AppError::RoomNotFound => "room not found"@,
        AppError::RoomInactive => "room is inactive"@,
        AppError::UsernameTaken => "username already taken"@,
        AppError::Internal(_) => "internal server error"@,
    }
}

impl AppError {
    /// The HTTP status code of the answer.
    pub fn status(&self) -> (s: u16)
        ensures
            s == error_status(*self),
    {
        match self {
            AppError::UnknownClient => 401,
            AppError::RoomNotFound => 404,
            AppError::RoomInactive => 409,
            AppError::UsernameTaken => 409,
            AppError::Internal(_) => 500,
        }
    }

    /// The body of the answer.
    pub fn message(&self) -> (m: &'static str)
        ensures
            m@ == error_message(*self),
    {
        match self {
            AppError::UnknownClient => "unknown client",
            AppError::RoomNotFound => "room not found",
            AppError::RoomInactive => "room is inactive",
            AppError::UsernameTaken => "username already taken",
            AppError::Internal(_) => "internal server error",
        }
    }
}

} // verus!
