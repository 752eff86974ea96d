//! The plugin registry: which module answers to which name, and which plugins
//! take part in what.
//!
//! A registry is built by loading modules one by one. Instantiating a module
//! and asking it questions is the work of the engine that runs the modules; the
//! [`Loader`] decides what is done next and what each answer changes, and the
//! caller does the work it names.

use crate::plugin_type::PluginType;
use crate::text::has_ending;
use crate::wire::texts;
use vstd::hash_map::StringHashMap;
use vstd::prelude::*;

verus! {

/// The registry of the loaded plugins. `H` is the handle of an instantiated
/// module.
#[verifier::reject_recursive_types(H)]
pub struct Runtime<H> {
    /// The module under each plugin name.
    pub modules: StringHashMap<H>,
    /// The names of the plugins that rewrite actions, in load order.
    pub action_modules: Vec<String>,
    /// The plugin that owns each command for texts.
    pub text_modules: StringHashMap<String>,
    /// The names of the plugins that rewrite the game, in load order.
    pub game_modules: Vec<String>,
}

/// What a registry holds.
pub struct Registry<H> {
    pub modules: Map<Seq<char>, H>,
    pub action_modules: Seq<Seq<char>>,
    pub text_modules: Map<Seq<char>, Seq<char>>,
    pub game_modules: Seq<Seq<char>>,
}

/// A command whose owner changed because a later plugin offers it too.
#[derive(Debug)]
pub struct Collision {
    pub command: String,
    /// The plugin that owns the command from now on.
    pub winner: String,
    /// The plugin that owned it before.
    pub loser: String,
}

/// What a collision says: the command, its new owner and its former owner.
pub struct CollisionView {
    pub command: Seq<char>,
    pub winner: Seq<char>,
    pub loser: Seq<char>,
}

impl View for Collision {
    type V = CollisionView;

    open spec fn view(&self) -> CollisionView {
        CollisionView { command: self.command@, winner: self.winner@, loser: self.loser@ }
    }
}

/// What each of a sequence of collisions says.
pub open spec fn collision_views(collisions: Seq<Collision>) -> Seq<CollisionView> {
    collisions.map_values(|c: Collision| c@)
}

/// The owners of the commands after `owner` has taken `commands`, one by one:
/// the last plugin to offer a command owns it.
pub open spec fn owners_after(
    owners: Map<Seq<char>, Seq<char>>,
    commands: Seq<Seq<char>>,
    owner: Seq<char>,
) -> Map<Seq<char>, Seq<char>>
    decreases commands.len(),
{
    if commands.len() == 0 {
        owners
    } else {
        owners_after(owners.insert(commands[0], owner), commands.skip(1), owner)
    }
}

/// The collisions that happen while `owner` takes `commands`, one by one: one
/// for each command that has an owner when it is taken.
pub open spec fn collisions_of(
    owners: Map<Seq<char>, Seq<char>>,
    commands: Seq<Seq<char>>,
    owner: Seq<char>,
) -> Seq<CollisionView>
    decreases commands.len(),
{
    if commands.len() == 0 {
        Seq::empty()
    } else {
        let rest = collisions_of(owners.insert(commands[0], owner), commands.skip(1), owner);
        if owners.dom().contains(commands[0]) {
            seq![CollisionView { command: commands[0], winner: owner, loser: owners[commands[0]] }]
                + rest
        } else {
            rest
        }
    }
}

/// The last plugin to offer a command owns it: after a plugin has taken its
/// commands it owns each of them, and every other command is with the owner
/// that it had, or with none as before.
pub proof fn lemma_last_owner_wins(
    owners: Map<Seq<char>, Seq<char>>,
    commands: Seq<Seq<char>>,
    owner: Seq<char>,
    command: Seq<char>,
)
    ensures
        commands.contains(command) ==> owners_after(owners, commands, owner).dom().contains(command)
            && owners_after(owners, commands, owner)[command] == owner,
        !commands.contains(command) ==> owners_after(owners, commands, owner).dom().contains(
            command,
        ) == owners.dom().contains(command) && (owners.dom().contains(command)
            ==> owners_after(owners, commands, owner)[command] == owners[command]),
    decreases commands.len(),
{
    if commands.len() > 0 {
        let rest = commands.skip(1);
        lemma_last_owner_wins(owners.insert(commands[0], owner), rest, owner, command);
        if commands.contains(command) {
            let i = choose|i: int| 0 <= i < commands.len() && commands[i] == command;
            if i > 0 {
                assert(rest[i - 1] == command);
            }
        }
        if rest.contains(command) {
            let i = choose|i: int| 0 <= i < rest.len() && rest[i] == command;
            assert(commands[i + 1] == command);
        }
    }
}

impl<H> Registry<H> {
    /// The registry without plugins.
    pub open spec fn empty() -> Registry<H> {
        Registry {
            modules: Map::empty(),
            action_modules: Seq::empty(),
            text_modules: Map::empty(),
            game_modules: Seq::empty(),
        }
    }

    /// The registry after a plugin has been added: the module stands under the
    /// name of the plugin, a plugin that rewrites actions or the game comes last
    /// in the list of those, and a plugin for texts takes its commands.
    pub open spec fn with_plugin(
        self,
        name: Seq<char>,
        host: H,
        capabilities: PluginType,
        commands: Seq<Seq<char>>,
    ) -> Registry<H> {
        Registry {
            modules: self.modules.insert(name, host),
            action_modules: if capabilities.action {
                self.action_modules.push(name)
            } else {
                self.action_modules
            },
            text_modules: if capabilities.text {
                owners_after(self.text_modules, commands, name)
            } else {
                self.text_modules
            },
            game_modules: if capabilities.game {
                self.game_modules.push(name)
            } else {
                self.game_modules
            },
        }
    }
}

impl<H> View for Runtime<H> {
    type V = Registry<H>;

    open spec fn view(&self) -> Registry<H> {
        Registry {
            modules: self.modules@,
            action_modules: texts(self.action_modules@),
            text_modules: self.text_modules@.map_values(|s: String| s@),
            game_modules: texts(self.game_modules@),
        }
    }
}

impl<H> Runtime<H> {
    /// The registry without plugins.
    pub fn new() -> (r: Runtime<H>)
        ensures
            r@ == Registry::<H>::empty(),
    {
        let r = Runtime {
            modules: StringHashMap::new(),
            action_modules: Vec::new(),
            text_modules: StringHashMap::new(),
            game_modules: Vec::new(),
        };
        proof {
            assert(r@.modules =~= Map::<Seq<char>, H>::empty());
            assert(r@.action_modules =~= Seq::<Seq<char>>::empty());
            assert(r@.text_modules =~= Map::<Seq<char>, Seq<char>>::empty());
            assert(r@.game_modules =~= Seq::<Seq<char>>::empty());
        }
        r
    }

    /// The module of the plugin `name`, if it is loaded.
    pub fn get(&self, name: &str) -> (r: Option<&H>)
        ensures
            r is Some <==> self@.modules.dom().contains(name@),
            r matches Some(h) ==> *h == self@.modules[name@],
    {
        self.modules.get(name)
    }

    /// Adds a loaded plugin. The commands are looked at only for a plugin for
    /// texts. A command that had an owner goes to the new plugin; the result
    /// lists those collisions, for a warning each.
    pub fn register(
        &mut self,
        name: String,
        host: H,
        capabilities: PluginType,
        commands: Vec<String>,
    ) -> (r: Vec<Collision>)
        ensures
            final(self)@ == old(self)@.with_plugin(name@, host, capabilities, texts(commands@)),
            collision_views(r@) == if capabilities.text {
                collisions_of(old(self)@.text_modules, texts(commands@), name@)
            } else {
                Seq::<CollisionView>::empty()
            },
    {
        let ghost before = self@;
        let ghost all = texts(commands@);
        let mut collisions: Vec<Collision> = Vec::new();
        assert(collision_views(collisions@) =~= Seq::<CollisionView>::empty());
        if capabilities.action {
            self.action_modules.push(name.clone());
            assert(texts(self.action_modules@) =~= before.action_modules.push(name@));
        }
        if capabilities.text {
            let mut i: usize = 0;
            assert(all.skip(0) =~= all);
            while i < commands.len()
                invariant
                    i <= commands@.len(),
                    all == texts(commands@),
                    owners_after(before.text_modules, all, name@) == owners_after(
                        self@.text_modules,
                        all.skip(i as int),
                        name@,
                    ),
                    collisions_of(before.text_modules, all, name@) == collision_views(collisions@)
                        + collisions_of(self@.text_modules, all.skip(i as int), name@),
                    self@.modules == before.modules,
                    self@.game_modules == before.game_modules,
                    self@.action_modules == old(self)@.with_plugin(
                        name@,
                        host,
                        capabilities,
                        all,
                    ).action_modules,
                decreases commands@.len() - i,
            {
                let ghost owners = self@.text_modules;
                let ghost seen = collision_views(collisions@);
                let command = commands[i].clone();
                proof {
                    assert(all.skip(i as int)[0] == command@);
                    assert(all.skip(i as int).skip(1) =~= all.skip(i + 1));
                }
                let previous: Option<String> = match self.text_modules.get(commands[i].as_str()) {
                    Some(owner) => Some(owner.clone()),
                    None => None,
                };
                self.text_modules.insert(command, name.clone());
                proof {
                    assert(self@.text_modules =~= owners.insert(commands@[i as int]@, name@));
                }
                match previous {
                    Some(loser) => {
                        collisions.push(
                            Collision { command: commands[i].clone(), winner: name.clone(), loser },
                        );
                        proof {
                            let one = CollisionView {
                                command: commands@[i as int]@,
                                winner: name@,
                                loser: owners[commands@[i as int]@],
                            };
                            assert(collision_views(collisions@) =~= seen.push(one));
                            assert(seen.push(one) + collisions_of(
                                self@.text_modules,
                                all.skip(i + 1),
                                name@,
                            ) =~= seen + (seq![one] + collisions_of(
                                self@.text_modules,
                                all.skip(i + 1),
                                name@,
                            )));
                        }
                    },
                    None => {},
                }
                i += 1;
            }
        }
        if capabilities.game {
            self.game_modules.push(name.clone());
            assert(texts(self.game_modules@) =~= before.game_modules.push(name@));
        }
        self.modules.insert(name, host);
        proof {
            assert(collision_views(collisions@) + Seq::<CollisionView>::empty()
                =~= collision_views(collisions@));
        }
        collisions
    }
}

/// A step of progress of a load, for the caller to show.
#[derive(Debug)]
pub enum LoadStatus {
    /// The engine is about to be created.
    CreateEngine,
    /// A plugin is about to be loaded: its name, its index, and the number of
    /// plugins to load.
    LoadPlugin(String, usize, usize),
}

/// What a status says.
pub enum LoadStatusView {
    CreateEngine,
    LoadPlugin(Seq<char>, nat, nat),
}

impl View for LoadStatus {
    type V = LoadStatusView;

    open spec fn view(&self) -> LoadStatusView {
        match self {
            LoadStatus::CreateEngine => LoadStatusView::CreateEngine,
            LoadStatus::LoadPlugin(name, index, total) => LoadStatusView::LoadPlugin(
                name@,
                *index as nat,
                *total as nat,
            ),
        }
    }
}

/// Where a load stands.
#[derive(Debug, Clone, Copy, PartialEq, Eq, Structural)]
pub enum Phase {
    /// Nothing has been done.
    Start,
    /// The engine is being created.
    Engine,
    /// A module is being instantiated and asked for its capabilities.
    Instantiating,
    /// A plugin for texts is being asked for its commands.
    Querying,
    /// Every plugin is in the registry.
    Finished,
    /// The load was given up. There is no registry.
    Failed,
}

/// What happened outside, told to the loader.
pub enum LoadEvent<H> {
    /// The caller wants the load to begin.
    Begin,
    /// The engine has been created.
    EngineCreated,
    /// The module has been instantiated, and these are its capabilities.
    Instantiated(H, PluginType),
    /// These are the commands of the plugin.
    Commands(Vec<String>),
    /// The work could not be done.
    Failed,
    /// The caller does not want the rest of the load.
    Cancelled,
}

/// What the caller does next.
#[derive(Debug)]
pub enum LoadAction {
    /// Show the status, then create the engine and report `EngineCreated`.
    CreateEngine(LoadStatus),
    /// Show the status, then instantiate the module of that name, ask it for
    /// its capabilities and report `Instantiated`.
    Instantiate(LoadStatus),
    /// Ask the module that was instantiated last for its commands and report
    /// `Commands`.
    QueryCommands,
    /// Take the registry: the load is done.
    Finish,
    /// Give up: the load has failed, and nothing of it is kept.
    Abort,
}

/// What an action says.
pub enum LoadActionView {
    CreateEngine(LoadStatusView),
    Instantiate(LoadStatusView),
    QueryCommands,
    Finish,
    Abort,
}

impl View for LoadAction {
    type V = LoadActionView;

    open spec fn view(&self) -> LoadActionView {
        match self {
            LoadAction::CreateEngine(status) => LoadActionView::CreateEngine(status@),
            LoadAction::Instantiate(status) => LoadActionView::Instantiate(status@),
            LoadAction::QueryCommands => LoadActionView::QueryCommands,
            LoadAction::Finish => LoadActionView::Finish,
            LoadAction::Abort => LoadActionView::Abort,
        }
    }
}

/// What an event says.
pub enum LoadEventView<H> {
    Begin,
    EngineCreated,
    Instantiated(H, PluginType),
    Commands(Seq<Seq<char>>),
    Failed,
    Cancelled,
}

impl<H> View for LoadEvent<H> {
    type V = LoadEventView<H>;

    open spec fn view(&self) -> LoadEventView<H> {
        match self {
            LoadEvent::Begin => LoadEventView::Begin,
            LoadEvent::EngineCreated => LoadEventView::EngineCreated,
            LoadEvent::Instantiated(host, capabilities) => LoadEventView::Instantiated(
                *host,
                *capabilities,
            ),
            LoadEvent::Commands(commands) => LoadEventView::Commands(texts(commands@)),
            LoadEvent::Failed => LoadEventView::Failed,
            LoadEvent::Cancelled => LoadEventView::Cancelled,
        }
    }
}

/// The state of a load.
pub struct Loading<H> {
    /// The names of the plugins to load, in load order.
    pub names: Seq<Seq<char>>,
    pub phase: Phase,
    /// How many plugins are in the registry.
    pub loaded: nat,
    /// The module that waits for its commands, while they are asked for.
    pub pending: Option<(H, PluginType)>,
    pub registry: Registry<H>,
    /// Every collision so far.
    pub collisions: Seq<CollisionView>,
}

impl<H> Loading<H> {
    /// A load goes through the names in order, and holds a module back only
    /// while it asks for its commands.
    pub open spec fn well_formed(self) -> bool {
        &&& self.loaded <= self.names.len()
        &&& (self.phase == Phase::Instantiating || self.phase == Phase::Querying) ==> self.loaded
            < self.names.len()
        &&& self.phase == Phase::Finished ==> self.loaded == self.names.len()
        &&& self.phase == Phase::Querying <==> self.pending is Some
        &&& (self.phase == Phase::Start || self.phase == Phase::Engine) ==> self.loaded == 0
    }

    /// The state before anything is done.
    pub open spec fn initial(names: Seq<Seq<char>>) -> Loading<H> {
        Loading {
            names,
            phase: Phase::Start,
            loaded: 0,
            pending: None,
            registry: Registry::empty(),
            collisions: Seq::empty(),
        }
    }

    /// The state of a load that was given up.
    pub open spec fn failed(self) -> Loading<H> {
        Loading { phase: Phase::Failed, pending: None, ..self }
    }

    /// The state after the plugin in turn has gone into the registry.
    pub open spec fn with_next(
        self,
        host: H,
        capabilities: PluginType,
        commands: Seq<Seq<char>>,
    ) -> Loading<H> {
        let name = self.names[self.loaded as int];
        Loading {
            names: self.names,
            phase: if self.loaded + 1 == self.names.len() {
                Phase::Finished
            } else {
                Phase::Instantiating
            },
            loaded: self.loaded + 1,
            pending: None,
            registry: self.registry.with_plugin(name, host, capabilities, commands),
            collisions: if capabilities.text {
                self.collisions + collisions_of(self.registry.text_modules, commands, name)
            } else {
                self.collisions
            },
        }
    }

    /// What the caller does in a state that waits for nothing: load the plugin
    /// in turn, or take the registry.
    pub open spec fn onward(self) -> LoadActionView {
        if self.phase == Phase::Finished {
            LoadActionView::Finish
        } else {
            LoadActionView::Instantiate(
                LoadStatusView::LoadPlugin(
                    self.names[self.loaded as int],
                    self.loaded,
                    self.names.len(),
                ),
            )
        }
    }

    /// The state after an event, and what the caller does next. An event that
    /// the state does not wait for, a failure and a cancellation all give the
    /// load up.
    pub open spec fn step(self, event: LoadEventView<H>) -> (Loading<H>, LoadActionView) {
        match (self.phase, event) {
            (Phase::Finished, _) => (self, LoadActionView::Finish),
            (Phase::Start, LoadEventView::Begin) => (
                Loading { phase: Phase::Engine, ..self },
                LoadActionView::CreateEngine(LoadStatusView::CreateEngine),
            ),
            (Phase::Engine, LoadEventView::EngineCreated) => {
                let next = Loading {
                    phase: if self.names.len() == 0 {
                        Phase::Finished
                    } else {
                        Phase::Instantiating
                    },
                    ..self
                };
                (next, next.onward())
            },
            (Phase::Instantiating, LoadEventView::Instantiated(host, capabilities)) => {
                if capabilities.text {
                    (
                        Loading {
                            phase: Phase::Querying,
                            pending: Some((host, capabilities)),
                            ..self
                        },
                        LoadActionView::QueryCommands,
                    )
                } else {
                    let next = self.with_next(host, capabilities, Seq::empty());
                    (next, next.onward())
                }
            },
            (Phase::Querying, LoadEventView::Commands(commands)) => {
                let held = self.pending.unwrap();
                let next = self.with_next(held.0, held.1, commands);
                (next, next.onward())
            },
            _ => (self.failed(), LoadActionView::Abort),
        }
    }
}

/// Where a load stands, with the module that waits for its commands.
enum Stage<H> {
    Start,
    Engine,
    Instantiating,
    Querying(H, PluginType),
    Finished,
    Failed,
}

impl<H> Stage<H> {
    spec fn phase(self) -> Phase {
        match self {
            Stage::Start => Phase::Start,
            Stage::Engine => Phase::Engine,
            Stage::Instantiating => Phase::Instantiating,
            Stage::Querying(_, _) => Phase::Querying,
            Stage::Finished => Phase::Finished,
            Stage::Failed => Phase::Failed,
        }
    }

    spec fn pending(self) -> Option<(H, PluginType)> {
        match self {
            Stage::Querying(host, capabilities) => Some((host, capabilities)),
            _ => None,
        }
    }
}

/// The decisions of a load. The caller begins with the event `Begin`, does what
/// each action names, and reports what came of it, until the action is
/// `Finish` or `Abort`.
#[verifier::reject_recursive_types(H)]
pub struct Loader<H> {
    names: Vec<String>,
    stage: Stage<H>,
    runtime: Runtime<H>,
    loaded: usize,
    collisions: Vec<Collision>,
}

impl<H> View for Loader<H> {
    type V = Loading<H>;

    closed spec fn view(&self) -> Loading<H> {
        Loading {
            names: texts(self.names@),
            phase: self.stage.phase(),
            loaded: self.loaded as nat,
            pending: self.stage.pending(),
            registry: self.runtime@,
            collisions: collision_views(self.collisions@),
        }
    }
}

impl<H> Loader<H> {
    #[verifier::type_invariant]
    spec fn well_formed(self) -> bool {
        self@.well_formed()
    }

    /// A load of the plugins of these names, in this order.
    pub fn new(names: Vec<String>) -> (r: Loader<H>)
        ensures
            r@ == Loading::<H>::initial(texts(names@)),
    {
        let runtime = Runtime::new();
        let r = Loader { names, stage: Stage::Start, runtime, loaded: 0, collisions: Vec::new() };
        assert(r@.collisions =~= Seq::<CollisionView>::empty());
        r
    }

    /// Where the load stands.
    pub fn phase(&self) -> (r: Phase)
        ensures
            r == self@.phase,
    {
        match &self.stage {
            Stage::Start => Phase::Start,
            Stage::Engine => Phase::Engine,
            Stage::Instantiating => Phase::Instantiating,
            Stage::Querying(_, _) => Phase::Querying,
            Stage::Finished => Phase::Finished,
            Stage::Failed => Phase::Failed,
        }
    }

    /// The module that waits for its commands, while they are asked for.
    pub fn pending(&self) -> (r: Option<&H>)
        ensures
            r is Some <==> self@.pending is Some,
            r matches Some(host) ==> *host == self@.pending.unwrap().0,
    {
        match &self.stage {
            Stage::Querying(host, _) => Some(host),
            _ => None,
        }
    }

    /// Every collision so far.
    pub fn collisions(&self) -> (r: &Vec<Collision>)
        ensures
            collision_views(r@) == self@.collisions,
    {
        &self.collisions
    }

    /// Takes an event, and says what the caller does next.
    pub fn step(&mut self, event: LoadEvent<H>) -> (r: LoadAction)
        ensures
            old(self)@.well_formed(),
            final(self)@.well_formed(),
            (final(self)@, r@) == old(self)@.step(event@),
    {
        proof {
            use_type_invariant(&*self);
        }
        let ghost before = self@;
        let mut stage: Stage<H> = Stage::Failed;
        let mut names: Vec<String> = Vec::new();
        let mut runtime: Runtime<H> = Runtime::new();
        let mut collisions: Vec<Collision> = Vec::new();
        let mut loaded = self.loaded;
        std::mem::swap(&mut self.stage, &mut stage);
        self.loaded = 0;
        std::mem::swap(&mut self.names, &mut names);
        std::mem::swap(&mut self.runtime, &mut runtime);
        std::mem::swap(&mut self.collisions, &mut collisions);
        let mut arrived: Option<(H, PluginType, Vec<String>)> = None;
        let mut action = LoadAction::Abort;
        let mut next: Stage<H> = Stage::Failed;
        match (stage, event) {
            (Stage::Finished, _) => {
                next = Stage::Finished;
                action = LoadAction::Finish;
            },
            (Stage::Start, LoadEvent::Begin) => {
                next = Stage::Engine;
                action = LoadAction::CreateEngine(LoadStatus::CreateEngine);
            },
            (Stage::Engine, LoadEvent::EngineCreated) => {
                if names.len() == 0 {
                    next = Stage::Finished;
                    action = LoadAction::Finish;
                } else {
                    next = Stage::Instantiating;
                    action = LoadAction::Instantiate(
                        LoadStatus::LoadPlugin(names[0].clone(), 0, names.len()),
                    );
                }
            },
            (Stage::Instantiating, LoadEvent::Instantiated(host, capabilities)) => {
                if capabilities.text {
                    next = Stage::Querying(host, capabilities);
                    action = LoadAction::QueryCommands;
                } else {
                    arrived = Some((host, capabilities, Vec::new()));
                    assert(texts(Seq::<String>::empty()) =~= Seq::<Seq<char>>::empty());
                }
            },
            (Stage::Querying(host, capabilities), LoadEvent::Commands(commands)) => {
                arrived = Some((host, capabilities, commands));
            },
            _ => {},
        }
        assert(arrived is Some ==> loaded < names@.len());
        let total: usize = names.len();
        match arrived {
            Some((host, capabilities, commands)) => {
                let ghost seen = collision_views(collisions@);
                let mut new_collisions = runtime.register(
                    names[loaded].clone(),
                    host,
                    capabilities,
                    commands,
                );
                let ghost fresh = collision_views(new_collisions@);
                collisions.append(&mut new_collisions);
                proof {
                    assert(collision_views(collisions@) =~= seen + fresh);
                    assert(seen + Seq::<CollisionView>::empty() =~= seen);
                }
                loaded = loaded + 1;
                if loaded == total {
                    next = Stage::Finished;
                    action = LoadAction::Finish;
                } else {
                    next = Stage::Instantiating;
                    action = LoadAction::Instantiate(
                        LoadStatus::LoadPlugin(names[loaded].clone(), loaded, total),
                    );
                }
            },
            None => {},
        }
        std::mem::swap(&mut self.names, &mut names);
        std::mem::swap(&mut self.runtime, &mut runtime);
        std::mem::swap(&mut self.collisions, &mut collisions);
        self.loaded = loaded;
        std::mem::swap(&mut self.stage, &mut next);
        action
    }

    /// The registry of a load that is done. A load that is not done, or was
    /// given up, has none.
    pub fn finish(self) -> (r: Option<Runtime<H>>)
        ensures
            r is Some <==> self@.phase == Phase::Finished,
            r matches Some(runtime) ==> runtime@ == self@.registry && self@.loaded
                == self@.names.len(),
    {
        proof {
            use_type_invariant(&self);
        }
        match self.stage {
            Stage::Finished => Some(self.runtime),
            _ => None,
        }
    }
}

/// What a module answers while it is loaded: itself, its capabilities, and, if
/// it is a plugin for texts, its commands.
pub struct Answer<H> {
    pub host: H,
    pub capabilities: PluginType,
    pub commands: Seq<Seq<char>>,
}

impl<H> Loading<H> {
    /// The state after the plugin in turn has answered: it is instantiated, and
    /// a plugin for texts is asked for its commands.
    pub open spec fn answered(self, answer: Answer<H>) -> Loading<H> {
        let asked = self.step(LoadEventView::Instantiated(answer.host, answer.capabilities)).0;
        if answer.capabilities.text {
            asked.step(LoadEventView::Commands(answer.commands)).0
        } else {
            asked
        }
    }

    /// The state after the plugins in turn have answered, one after the other.
    pub open spec fn answered_all(self, answers: Seq<Answer<H>>) -> Loading<H>
        decreases answers.len(),
    {
        if answers.len() == 0 {
            self
        } else {
            self.answered(answers[0]).answered_all(answers.skip(1))
        }
    }
}

impl<H> Registry<H> {
    /// The registry after the plugins of these names have been added in order,
    /// each with what it answered.
    pub open spec fn with_plugins(self, names: Seq<Seq<char>>, answers: Seq<Answer<H>>) -> Registry<
        H,
    >
        decreases answers.len(),
    {
        if answers.len() == 0 || names.len() == 0 {
            self
        } else {
            self.with_plugin(
                names[0],
                answers[0].host,
                answers[0].capabilities,
                answers[0].commands,
            ).with_plugins(names.skip(1), answers.skip(1))
        }
    }
}

/// A step keeps a load in order.
pub proof fn lemma_step_keeps_order<H>(state: Loading<H>, event: LoadEventView<H>)
    requires
        state.well_formed(),
    ensures
        state.step(event).0.well_formed(),
{
}

/// A load that goes on from the middle ends with the rest of the plugins in the
/// registry, in order.
proof fn lemma_rest_is_loaded<H>(state: Loading<H>, answers: Seq<Answer<H>>)
    requires
        state.well_formed(),
        state.phase == Phase::Instantiating || state.phase == Phase::Finished,
        answers.len() == state.names.len() - state.loaded,
    ensures
        state.answered_all(answers).phase == Phase::Finished,
        state.answered_all(answers).loaded == state.names.len(),
        state.answered_all(answers).names == state.names,
        state.answered_all(answers).registry == state.registry.with_plugins(
            state.names.skip(state.loaded as int),
            answers,
        ),
    decreases answers.len(),
{
    if answers.len() > 0 {
        let next = state.answered(answers[0]);
        let rest = state.names.skip(state.loaded as int);
        assert(rest[0] == state.names[state.loaded as int]);
        assert(rest.skip(1) =~= state.names.skip(state.loaded as int + 1));
        lemma_rest_is_loaded(next, answers.skip(1));
    }
}

/// A load is all or nothing, and in order: once the engine is there and every
/// plugin has answered, the load is done, and the registry holds every plugin,
/// added in the order of the names.
pub proof fn lemma_load_is_complete<H>(names: Seq<Seq<char>>, answers: Seq<Answer<H>>)
    requires
        answers.len() == names.len(),
    ensures
        ({
            let begun = Loading::<H>::initial(names).step(LoadEventView::Begin).0.step(
                LoadEventView::EngineCreated,
            ).0;
            let end = begun.answered_all(answers);
            &&& end.phase == Phase::Finished
            &&& end.loaded == names.len()
            &&& end.registry == Registry::<H>::empty().with_plugins(names, answers)
        }),
{
    let begun = Loading::<H>::initial(names).step(LoadEventView::Begin).0.step(
        LoadEventView::EngineCreated,
    ).0;
    assert(names.skip(0) =~= names);
    lemma_rest_is_loaded(begun, answers);
}

/// A load that is told of a failure, or that is cancelled, is given up, and
/// stays given up whatever comes after.
pub proof fn lemma_failure_is_final<H>(state: Loading<H>, event: LoadEventView<H>)
    requires
        state.phase != Phase::Finished,
        event is Failed || event is Cancelled || state.phase == Phase::Failed,
    ensures
        state.step(event).0.phase == Phase::Failed,
        state.step(event).1 is Abort,
{
}

/// The ending of the file of a module.
pub open spec fn module_ending() -> Seq<char> {
    seq!['.', 'w', 'a', 's', 'm']
}

/// The plugin name that a file name stands for: the name without its ending,
/// for a file that ends in `.wasm` and has something before that.
pub open spec fn spec_module_name(file_name: Seq<char>) -> Option<Seq<char>> {
    let stem = file_name.len() - 5;
    if stem > 0 && file_name.subrange(stem, file_name.len() as int) == module_ending() {
        Some(file_name.subrange(0, stem))
    } else {
        None
    }
}

/// The plugin name that a file of the plugin directory stands for, if the file
/// is a module. This is how plugins are found where none is named.
pub fn module_name(file_name: &str) -> (r: Option<String>)
    ensures
        match r {
            Some(name) => spec_module_name(file_name@) == Some(name@),
            None => spec_module_name(file_name@) is None,
        },
{
    proof {
        reveal_strlit(".wasm");
        assert(".wasm"@ =~= module_ending());
    }
    let len = file_name.unicode_len();
    if len > 5 && has_ending(file_name, ".wasm") {
        Some(file_name.substring_char(0, len - 5).to_owned())
    } else {
        None
    }
}

} // verus!
