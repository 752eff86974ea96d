//! The types that the host and the plugins exchange besides values.

use crate::ast::Program;
use vstd::prelude::*;

verus! {

/// How grave a line of the log is.
#[derive(Debug, Clone, Copy, PartialEq, Eq, Structural)]
pub enum Level {
    Error,
    Warn,
    Info,
    Debug,
    Trace,
}

/// A line that a plugin hands to the log of the host.
#[derive(Debug)]
pub struct Record {
    pub level: Level,
    pub target: String,
    pub msg: String,
    /// The module that the line comes from.
    pub module: Option<String>,
    pub file: Option<String>,
    pub line: Option<u32>,
}

/// The kind of frontend that shows the game.
#[derive(Debug, Clone, Copy, PartialEq, Eq, Structural)]
pub enum FrontendType {
    Text,
    Html,
}

/// A piece of the line of an action.
#[derive(Debug)]
pub enum ActionLine {
    /// Characters that are shown one by one.
    Chars(String),
    /// Characters that are shown at once.
    Block(String),
}

impl ActionLine {
    /// The characters of the piece.
    pub open spec fn text(self) -> Seq<char> {
        match self {
            ActionLine::Chars(s) => s@,
            ActionLine::Block(s) => s@,
        }
    }

    /// The characters of the piece.
    pub fn as_str(&self) -> (r: &str)
        ensures
            r@ == self.text(),
    {
        match self {
            ActionLine::Chars(s) => s.as_str(),
            ActionLine::Block(s) => s.as_str(),
        }
    }

    /// The characters of the piece, out of the piece.
    pub fn into_string(self) -> (r: String)
        ensures
            r@ == self.text(),
    {
        match self {
            ActionLine::Chars(s) => s,
            ActionLine::Block(s) => s,
        }
    }
}

/// A choice that the player can make.
#[derive(Debug)]
pub struct Switch {
    pub text: String,
    pub enabled: bool,
}

impl Default for Switch {
    fn default() -> (r: Switch)
        ensures
            r.text@.len() == 0,
            !r.enabled,
    {
        Switch { text: String::new(), enabled: false }
    }
}

/// What is shown at one step of the game.
#[derive(Debug)]
pub struct Action {
    pub line: Vec<ActionLine>,
    pub character: Option<String>,
    pub para_title: Option<String>,
    pub switches: Vec<Switch>,
    pub bg: Option<String>,
    pub bgm: Option<String>,
    pub video: Option<String>,
    pub switch_actions: Vec<Program>,
}

impl Action {
    /// Whether nothing is shown.
    pub open spec fn is_empty(self) -> bool {
        &&& self.line@.len() == 0
        &&& self.character is None
        &&& self.para_title is None
        &&& self.switches@.len() == 0
        &&& self.bg is None
        &&& self.bgm is None
        &&& self.video is None
        &&& self.switch_actions@.len() == 0
    }
}

impl Default for Action {
    fn default() -> (r: Action)
        ensures
            r.is_empty(),
    {
        Action {
            line: Vec::new(),
            character: None,
            para_title: None,
            switches: Vec::new(),
            bg: None,
            bgm: None,
            video: None,
            switch_actions: Vec::new(),
        }
    }
}

} // verus!
