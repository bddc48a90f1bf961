//! The engine's error type: a failure carrying a human-readable message.

use vstd::prelude::*;

verus! {

/// An error which contains a message.
#[derive(Debug)]
pub struct GameError {
    msg: String,
}

/// Default result type in the engine.
pub type GameResult<T> = Result<T, GameError>;

impl View for GameError {
    type V = Seq<char>;

    closed spec fn view(&self) -> Seq<char> {
        self.msg@
    }
}

impl GameError {
    /// Generates a new game error with the given message.
    pub fn new(msg: &str) -> (r: Self)
        ensures
            r@ == msg@,
    {
        GameError { msg: msg.to_owned() }
    }

    /// Read the message carried by this error.
    pub fn message(&self) -> (r: &str)
        ensures
            r@ == self@,
    {
        self.msg.as_str()
    }
}

/// Shortcut to create a GameError with a given message.
pub fn gerr(msg: &str) -> (r: GameError)
    ensures
        r@ == msg@,
{
    GameError::new(msg)
}

/// Shortcut to create a boxed GameError with a given message.
pub fn berr(msg: &str) -> (r: Box<GameError>)
    ensures
        r@ == msg@,
{
    Box::new(gerr(msg))
}

} // verus!
