//! What is kept of a session: the settings, and the records of the games.

use crate::bindings::Action;
use crate::integer::{decimal, text, Integer};
use crate::map::{values_of, VarMap};
use crate::text::{ends_with, has_ending};
use vstd::prelude::*;
use vstd::string::StringExecFns;

verus! {

/// The settings of an installation.
#[derive(Debug)]
pub struct Settings {
    /// The language in which the game is shown.
    pub lang: String,
}

impl Default for Settings {
    fn default() -> (r: Settings)
        ensures
            r.lang@.len() == 0,
    {
        Settings { lang: String::new() }
    }
}

/// An action that was shown, with the place and the variables of the session
/// at the time.
pub struct HistoryAction {
    pub cur_para: String,
    pub cur_act: usize,
    pub locals: VarMap,
    pub action: Action,
}

/// A session as it is recorded: the place in the game, the variables of the
/// session, and the actions that were shown.
pub struct RawContext {
    /// The paragraph in course.
    pub cur_para: String,
    /// The index of the action in course.
    pub cur_act: usize,
    /// The variables of the session.
    pub locals: VarMap,
    /// The actions that were shown.
    pub history: Vec<HistoryAction>,
}

impl Default for RawContext {
    fn default() -> (r: RawContext)
        ensures
            r.cur_para@.len() == 0,
            r.cur_act == 0,
            r.locals@ == Map::<Seq<char>, crate::value::RawValue>::empty(),
            r.history@.len() == 0,
    {
        RawContext {
            cur_para: String::new(),
            cur_act: 0,
            locals: VarMap::new(),
            history: Vec::new(),
        }
    }
}

impl RawContext {
    /// Adds an action to the history, with the place and the variables as they
    /// are now. Nothing else changes.
    pub fn push_history(&mut self, action: Action)
        ensures
            final(self).cur_para == old(self).cur_para,
            final(self).cur_act == old(self).cur_act,
            final(self).locals == old(self).locals,
            final(self).history@.len() == old(self).history@.len() + 1,
            final(self).history@.drop_last() == old(self).history@,
            final(self).history@.last().cur_para@ == old(self).cur_para@,
            final(self).history@.last().cur_act == old(self).cur_act,
            values_of(final(self).history@.last().locals@) == values_of(old(self).locals@),
            final(self).history@.last().action == action,
    {
        let entry = HistoryAction {
            cur_para: self.cur_para.clone(),
            cur_act: self.cur_act,
            locals: self.locals.copy(),
            action,
        };
        self.history.push(entry);
        assert(self.history@.drop_last() =~= old(self).history@);
    }
}

/// The ending of the file of a record.
pub open spec fn record_ending() -> Seq<char> {
    seq!['.', 'j', 's', 'o', 'n']
}

/// The name of the file that holds the record number `index`: the number in
/// decimal, and `.json`.
pub fn record_file_name(index: usize) -> (r: String)
    ensures
        r@ == decimal(index as int) + record_ending(),
{
    proof {
        reveal_strlit(".json");
        assert(".json"@ =~= record_ending());
    }
    let mut name = text(&Integer::from_usize(index));
    name.append(".json");
    name
}

/// Whether a file of the directory of the records is a record: its name ends in
/// `.json`, after something.
pub fn is_record_file(file_name: &str) -> (r: bool)
    ensures
        r == (ends_with(file_name@, record_ending()) && file_name@.len() > 5),
{
    proof {
        reveal_strlit(".json");
        assert(".json"@ =~= record_ending());
    }
    has_ending(file_name, ".json") && file_name.unicode_len() > 5
}

} // verus!
