//! What a front end is told while a game opens.

use crate::registry::{LoadStatus, LoadStatusView};
use vstd::prelude::*;

verus! {

/// A step of the opening of a game.
#[derive(Debug, Clone, Copy, PartialEq, Eq, Structural)]
pub enum OpenGameStatus {
    LoadSettings,
    LoadProfile,
    CreateRuntime,
    LoadPlugin,
    LoadRecords,
    Loaded,
}

/// What goes with the status `LoadPlugin`: the plugin that is about to be
/// loaded, its index, and the number of plugins.
#[derive(Debug)]
pub struct OpenGameLoadPlugin {
    pub name: String,
    pub index: usize,
    pub len: usize,
}

/// The status that a front end is told for a step of the load of the plugins.
pub open spec fn spec_open_game_status(status: LoadStatusView) -> OpenGameStatus {
    match status {
        LoadStatusView::CreateEngine => OpenGameStatus::CreateRuntime,
        LoadStatusView::LoadPlugin(_, _, _) => OpenGameStatus::LoadPlugin,
    }
}

/// What a front end is told for a step of the load of the plugins: the status,
/// and for a plugin its name, its index and the number of plugins.
pub fn open_game_status(status: &LoadStatus) -> (r: (OpenGameStatus, Option<OpenGameLoadPlugin>))
    ensures
        r.0 == spec_open_game_status(status@),
        match r.1 {
            Some(plugin) => status@ == LoadStatusView::LoadPlugin(
                plugin.name@,
                plugin.index as nat,
                plugin.len as nat,
            ),
            None => status@ is CreateEngine,
        },
{
    match status {
        LoadStatus::CreateEngine => (OpenGameStatus::CreateRuntime, None),
        LoadStatus::LoadPlugin(name, index, len) => (
            OpenGameStatus::LoadPlugin,
            Some(OpenGameLoadPlugin { name: name.clone(), index: *index, len: *len }),
        ),
    }
}

} // verus!
