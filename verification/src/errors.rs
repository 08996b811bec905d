//! The errors of this crate.
use vstd::prelude::*;

use crate::logic::actions::Action;

verus! {

/// Declares the standard library's error for a failed integer parse.
#[verifier::external_type_specification]
#[verifier::external_body]
pub struct ExParseIntError(std::num::ParseIntError);

/// General Pijersi errors
#[derive(Debug)]
pub enum RuntimeError {
    /// Broken rules
    Rules(RulesErrorKind),
    /// Failed parsing
    Parse(ParseError),
    /// UGI engine error
    UGI(UgiErrorKind),
}

/// Errors returned if game rules are broken
#[derive(Debug, Clone, PartialEq, Eq)]
pub enum RulesErrorKind {
    /// Illegal action
    IllegalAction(Action),
}

/// Errors returned if parsing fails
#[derive(Debug, PartialEq, Eq)]
pub struct ParseError {
    /// The kind of parsing error
    pub kind: ParseErrorKind,
    /// The value that caused the error
    pub value: String,
}

/// The different kinds of parsing errors
#[derive(Debug, PartialEq, Eq)]
pub enum ParseErrorKind {
    /// Invalid action
    InvalidAction,
    /// Invalid position
    InvalidPosition(InvalidPositionKind),
    /// Invalid PSN string
    InvalidPSN,
    /// Invalid coordinates
    InvalidCoordinates {
        /// The kind of coordinates error (vertical or horizontal)
        kind: InvalidCoordinatesKind,
        /// The value that caused the error
        value: char,
    },
    /// Invalid player
    InvalidPlayer(InvalidPlayerKind),
    /// Invalid bool
    InvalidBool,
    /// Invalid int
    InvalidInt(std::num::ParseIntError),
}

/// The different kinds of invalid position errors
#[derive(Debug, Clone, Copy, PartialEq, Eq)]
pub enum InvalidPositionKind {
    /// Wrong number of lines
    WrongLineNumber(usize),
}

/// The kind of coordinates error (vertical or horizontal)
#[derive(Debug, Clone, Copy, PartialEq, Eq)]
pub enum InvalidCoordinatesKind {
    /// Vertical
    Vertical,
    /// Horizontal
    Horizontal,
}

impl InvalidCoordinatesKind {
    /// The name of the coordinate: "vertical" or "horizontal".
    pub fn to_string(&self) -> (r: String)
        ensures
            r@ == (match self {
                InvalidCoordinatesKind::Vertical => "vertical"@,
                InvalidCoordinatesKind::Horizontal => "horizontal"@,
            }),
    {
        match self {
            InvalidCoordinatesKind::Vertical => "vertical".to_owned(),
            InvalidCoordinatesKind::Horizontal => "horizontal".to_owned(),
        }
    }
}

/// The different kinds of invalid player errors
#[derive(Debug, Clone, PartialEq, Eq)]
pub enum InvalidPlayerKind {
    /// String to player
    StrToPlayer(String),
    /// Player to string
    PlayerToStr(u8),
}

/// UGI engine errors
#[derive(Debug, Clone, PartialEq, Eq)]
pub enum UgiErrorKind {
    /// Empty command
    EmptyCommand,
    /// Invalid position arguments
    InvalidUGIPosition(String),
    /// Command parsing error, with the message of the command parser
    ClapError(String),
}

} // verus!
