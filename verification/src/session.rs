//! The course of one run, as a state machine.
//!
//! The program around the library performs what the session asks for
//! (`pending`) and reports what happened (`advance`); every decision of the
//! run is taken here. An event that does not answer the pending action is
//! ignored, so the same action stays pending.

use crate::config::{Bundle, DockerConfig};
use crate::docker::{
    bundles_of, lemma_bundles_well_formed, DockerManager, Entry, Origin, LOCAL_ROOT,
};
use crate::envfile::env_text;
use crate::error::Error;
use vstd::prelude::*;

verus! {

/// How far a run has come.
#[derive(Clone, Copy, Debug, PartialEq, Eq, Structural)]
pub enum Phase {
    /// Finding out whether the local bundle root exists.
    Probing,
    /// Cloning the remote repository into the scratch directory.
    Acquiring,
    /// Listing the bundle root.
    Discovering,
    /// Waiting for the user to choose a bundle.
    Choosing,
    /// Waiting for the value of the next variable.
    Prompting,
    /// Writing the environment file.
    Writing,
    /// Over.
    Finished,
}

/// How a run ended.
#[derive(Clone, Copy, Debug, PartialEq, Eq, Structural)]
pub enum Outcome {
    /// The chosen bundle is ready for use.
    Ready,
    /// The bundle root holds no bundle. This is no failure.
    NoBundles,
    /// The user interrupted the run.
    Interrupted,
    /// The run failed.
    Failed(Error),
}

/// What happened outside the library.
#[derive(Debug)]
pub enum Event {
    /// Whether the local bundle root exists.
    LocalRoot { present: bool },
    /// The repository was cloned into the scratch directory.
    Acquired,
    /// The listing of the bundle root.
    Discovered { entries: Vec<Entry> },
    /// The user chose the bundle with this index.
    Chosen { index: usize },
    /// The user gave this value for the variable asked for.
    Answered { value: String },
    /// The environment file was written.
    Written,
    /// The pending action failed.
    Failed { error: Error },
    /// The user interrupted the run.
    Interrupted,
}

/// What the session asks the program around it to do next.
#[derive(Debug)]
pub enum Action {
    /// Find out whether the directory `root` exists.
    ProbeLocalRoot { root: String },
    /// Delete the directory `scratch` with all it holds, create it anew, and
    /// clone the repository at `url` into it.
    Acquire { url: String, scratch: String },
    /// List the children of the directory `root`.
    Discover { root: String },
    /// Let the user choose one of the bundles with these names.
    Choose { names: Vec<String> },
    /// Ask the user for the value of the variable `name`, the one after
    /// `answered` variables that have their value.
    Prompt { name: String, answered: usize },
    /// Write `text` to the environment file in the directory `dir`, replacing
    /// what is there.
    Write { dir: String, text: String },
    /// End the run: remove the directory `release`, if one is named, and
    /// report `outcome`; `path` is the directory of the bundle that is ready.
    Finish { outcome: Outcome, path: Option<String>, release: Option<String> },
}

/// The value of a session.
pub struct State {
    /// How far the run has come.
    pub phase: Phase,
    /// Where the remote repository is.
    pub url: Seq<char>,
    /// The path of the scratch directory.
    pub scratch: Seq<char>,
    /// Whether the run has asked for the scratch directory to be created.
    pub remote: bool,
    /// The bundles that were discovered.
    pub bundles: Seq<Bundle>,
    /// The index of the chosen bundle.
    pub chosen: int,
    /// The values collected so far for the chosen bundle's variables.
    pub values: Seq<Seq<char>>,
    /// How the run ended, once it has.
    pub outcome: Option<Outcome>,
}

impl State {
    /// The variables of the chosen bundle.
    pub open spec fn variables(self) -> Seq<Seq<char>> {
        self.bundles[self.chosen].env_vars
    }

    /// This state, ended with `outcome`.
    pub open spec fn finish(self, outcome: Outcome) -> State {
        State { phase: Phase::Finished, outcome: Some(outcome), ..self }
    }

    /// The root that is listed: the scratch directory where the bundles are
    /// remote, else the local bundle root.
    pub open spec fn root(self) -> Seq<char> {
        if self.remote {
            self.scratch
        } else {
            LOCAL_ROOT@
        }
    }

    /// What holds of every state that a run reaches.
    pub open spec fn wf(self) -> bool {
        &&& self.phase is Finished <==> self.outcome is Some
        &&& self.phase is Probing ==> !self.remote
        &&& self.phase is Acquiring ==> self.remote
        &&& self.phase is Choosing ==> self.bundles.len() > 0
        &&& self.phase is Prompting || self.phase is Writing || self.outcome == Some(Outcome::Ready)
            ==> 0 <= self.chosen < self.bundles.len()
        &&& self.phase is Prompting ==> self.values.len() < self.variables().len()
        &&& self.phase is Writing ==> self.values.len() == self.variables().len()
        &&& forall|i: int| 0 <= i < self.bundles.len() ==> (#[trigger] self.bundles[i]).well_formed()
    }
}

/// The state in which a run starts.
pub open spec fn initial(url: Seq<char>, scratch: Seq<char>) -> State {
    State {
        phase: Phase::Probing,
        url,
        scratch,
        remote: false,
        bundles: Seq::empty(),
        chosen: 0,
        values: Seq::empty(),
        outcome: None,
    }
}

/// The state after `event`.
///
/// An interruption or a failure ends the run from any phase. Otherwise an
/// event counts only in the phase whose action it answers.
pub open spec fn step(s: State, event: Event) -> State {
    match (s.phase, event) {
        (Phase::Finished, _) => s,
        (_, Event::Interrupted) => s.finish(Outcome::Interrupted),
        (_, Event::Failed { error }) => s.finish(Outcome::Failed(error)),
        (Phase::Probing, Event::LocalRoot { present }) => if present {
            State { phase: Phase::Discovering, ..s }
        } else {
            State { phase: Phase::Acquiring, remote: true, ..s }
        },
        (Phase::Acquiring, Event::Acquired) => State { phase: Phase::Discovering, ..s },
        (Phase::Discovering, Event::Discovered { entries }) => {
            let found = State { bundles: bundles_of(entries@), ..s };
            if found.bundles.len() == 0 {
                found.finish(Outcome::NoBundles)
            } else {
                State { phase: Phase::Choosing, ..found }
            }
        },
        (Phase::Choosing, Event::Chosen { index }) => if index < s.bundles.len() {
            let chosen = State { chosen: index as int, values: Seq::empty(), ..s };
            if chosen.variables().len() == 0 {
                chosen.finish(Outcome::Ready)
            } else {
                State { phase: Phase::Prompting, ..chosen }
            }
        } else {
            s.finish(Outcome::Failed(Error::InteractionAborted))
        },
        (Phase::Prompting, Event::Answered { value }) => {
            let values = s.values.push(value@);
            if values.len() < s.variables().len() {
                State { values, ..s }
            } else {
                State { phase: Phase::Writing, values, ..s }
            }
        },
        (Phase::Writing, Event::Written) => s.finish(Outcome::Ready),
        _ => s,
    }
}

/// Whether `action` is what a session in state `s` asks for.
pub open spec fn asks(s: State, action: Action) -> bool {
    match s.phase {
        Phase::Probing => action matches Action::ProbeLocalRoot { root } && root@ == LOCAL_ROOT@,
        Phase::Acquiring => action matches Action::Acquire { url, scratch } && url@ == s.url
            && scratch@ == s.scratch,
        Phase::Discovering => action matches Action::Discover { root } && root@ == s.root(),
        Phase::Choosing => action matches Action::Choose { names } && names.deep_view()
            == s.bundles.map_values(|b: Bundle| b.name),
        Phase::Prompting => action matches Action::Prompt { name, answered } && answered
            == s.values.len() && name@ == s.variables()[s.values.len() as int],
        Phase::Writing => action matches Action::Write { dir, text } && dir@
            == s.bundles[s.chosen].path && text@ == env_text(s.variables(), s.values),
        Phase::Finished => action matches Action::Finish { outcome, path, release } && Some(outcome)
            == s.outcome && path.deep_view() == (if outcome == Outcome::Ready {
            Some(s.bundles[s.chosen].path)
        } else {
            None
        }) && release.deep_view() == (if s.remote {
            Some(s.scratch)
        } else {
            None
        }),
    }
}

impl Outcome {
    /// The exit code of the process: zero unless the run failed.
    pub open spec fn code(self) -> int {
        if self is Failed {
            1
        } else {
            0
        }
    }

    /// The exit code of the process: zero unless the run failed.
    pub fn exit_code(&self) -> (code: i32)
        ensures
            code == self.code(),
    {
        match self {
            Outcome::Failed(_) => 1,
            _ => 0,
        }
    }
}

/// A run in progress.
pub struct Session {
    manager: DockerManager,
    url: String,
    phase: Phase,
    scratch: Option<String>,
    bundles: Vec<DockerConfig>,
    chosen: usize,
    values: Vec<String>,
    outcome: Option<Outcome>,
}

impl View for Session {
    type V = State;

    closed spec fn view(&self) -> State {
        State {
            phase: self.phase,
            url: self.url@,
            scratch: self.manager.scratch(),
            remote: self.scratch is Some,
            bundles: self.bundles.deep_view(),
            chosen: self.chosen as int,
            values: self.values.deep_view(),
            outcome: self.outcome,
        }
    }
}

impl Session {
    #[verifier::type_invariant]
    spec fn inv(self) -> bool {
        &&& self@.wf()
        &&& self.scratch matches Some(dir) ==> dir@ == self.manager.scratch()
    }

    /// A run that fetches remote bundles from `git_url` and clones into the
    /// scratch directory of `manager`.
    pub fn start(manager: DockerManager, git_url: String) -> (session: Self)
        ensures
            session@ == initial(git_url@, manager.scratch()),
            session@.wf(),
    {
        let session = Session {
            manager,
            url: git_url,
            phase: Phase::Probing,
            scratch: None,
            bundles: Vec::new(),
            chosen: 0,
            values: Vec::new(),
            outcome: None,
        };
        assert(session@ =~= initial(git_url@, manager.scratch())) by {
            assert(session.bundles.deep_view() =~= Seq::<Bundle>::empty());
            assert(session.values.deep_view() =~= Seq::<Seq<char>>::empty());
        }
        session
    }

    /// Whether the run is over.
    pub fn is_finished(&self) -> (finished: bool)
        ensures
            finished == (self@.phase is Finished),
    {
        match self.phase {
            Phase::Finished => true,
            _ => false,
        }
    }

    /// What the program around the library is to do next.
    pub fn pending(&self) -> (action: Action)
        ensures
            self@.wf(),
            asks(self@, action),
    {
        proof {
            use_type_invariant(self);
        }
        match self.phase {
            Phase::Probing => Action::ProbeLocalRoot { root: String::from_str(LOCAL_ROOT) },
            Phase::Acquiring => match &self.scratch {
                Some(dir) => Action::Acquire { url: self.url.clone(), scratch: dir.clone() },
                None => unreached(),
            },
            Phase::Discovering => match &self.scratch {
                Some(dir) => Action::Discover { root: dir.clone() },
                None => Action::Discover { root: String::from_str(LOCAL_ROOT) },
            },
            Phase::Choosing => Action::Choose { names: self.names() },
            Phase::Prompting => {
                let answered = self.values.len();
                let name = &self.bundles[self.chosen].env_vars[answered];
                Action::Prompt { name: name.clone(), answered }
            },
            Phase::Writing => {
                let bundle = &self.bundles[self.chosen];
                match self.manager.create_env_file(&bundle.env_vars, &self.values) {
                    Some(text) => Action::Write { dir: bundle.path.clone(), text },
                    None => unreached(),
                }
            },
            Phase::Finished => {
                let outcome = match self.outcome {
                    Some(outcome) => outcome,
                    None => unreached(),
                };
                let path = match outcome {
                    Outcome::Ready => Some(self.bundles[self.chosen].path.clone()),
                    _ => None,
                };
                let release = match &self.scratch {
                    Some(dir) => Some(dir.clone()),
                    None => None,
                };
                Action::Finish { outcome, path, release }
            },
        }
    }

    /// The session after `event`.
    pub fn advance(self, event: Event) -> (next: Self)
        ensures
            next@ == step(self@, event),
            next@.wf(),
    {
        proof {
            use_type_invariant(&self);
            lemma_step_keeps_wf(self@, event);
        }
        let Session { manager, url, phase, scratch, bundles, chosen, values, outcome } = self;
        match (phase, event) {
            (Phase::Finished, _) => Session {
                manager,
                url,
                phase,
                scratch,
                bundles,
                chosen,
                values,
                outcome,
            },
            (_, Event::Interrupted) => Session {
                manager,
                url,
                phase: Phase::Finished,
                scratch,
                bundles,
                chosen,
                values,
                outcome: Some(Outcome::Interrupted),
            },
            (_, Event::Failed { error }) => Session {
                manager,
                url,
                phase: Phase::Finished,
                scratch,
                bundles,
                chosen,
                values,
                outcome: Some(Outcome::Failed(error)),
            },
            (Phase::Probing, Event::LocalRoot { present }) => {
                match manager.fetch_configs(url.as_str(), present) {
                    Ok(Origin::Local { root: _ }) => Session {
                        manager,
                        url,
                        phase: Phase::Discovering,
                        scratch,
                        bundles,
                        chosen,
                        values,
                        outcome,
                    },
                    Ok(Origin::Remote { url: _, scratch: dir }) => Session {
                        manager,
                        url,
                        phase: Phase::Acquiring,
                        scratch: Some(dir),
                        bundles,
                        chosen,
                        values,
                        outcome,
                    },
                    Err(error) => Session {
                        manager,
                        url,
                        phase: Phase::Finished,
                        scratch,
                        bundles,
                        chosen,
                        values,
                        outcome: Some(Outcome::Failed(error)),
                    },
                }
            },
            (Phase::Acquiring, Event::Acquired) => Session {
                manager,
                url,
                phase: Phase::Discovering,
                scratch,
                bundles,
                chosen,
                values,
                outcome,
            },
            (Phase::Discovering, Event::Discovered { entries }) => {
                let found = manager.read_local_configs(&entries);
                if found.len() == 0 {
                    Session {
                        manager,
                        url,
                        phase: Phase::Finished,
                        scratch,
                        bundles: found,
                        chosen,
                        values,
                        outcome: Some(Outcome::NoBundles),
                    }
                } else {
                    Session {
                        manager,
                        url,
                        phase: Phase::Choosing,
                        scratch,
                        bundles: found,
                        chosen,
                        values,
                        outcome,
                    }
                }
            },
            (Phase::Choosing, Event::Chosen { index }) => {
                let fresh: Vec<String> = Vec::new();
                assert(fresh.deep_view() =~= Seq::<Seq<char>>::empty());
                if index >= bundles.len() {
                    Session {
                        manager,
                        url,
                        phase: Phase::Finished,
                        scratch,
                        bundles,
                        chosen,
                        values,
                        outcome: Some(Outcome::Failed(Error::InteractionAborted)),
                    }
                } else if bundles[index].env_vars.len() == 0 {
                    Session {
                        manager,
                        url,
                        phase: Phase::Finished,
                        scratch,
                        bundles,
                        chosen: index,
                        values: fresh,
                        outcome: Some(Outcome::Ready),
                    }
                } else {
                    Session {
                        manager,
                        url,
                        phase: Phase::Prompting,
                        scratch,
                        bundles,
                        chosen: index,
                        values: fresh,
                        outcome,
                    }
                }
            },
            (Phase::Prompting, Event::Answered { value }) => {
                let ghost before = values.deep_view();
                let mut values = values;
                values.push(value);
                assert(values.deep_view() =~= before.push(value@));
                let complete = values.len() >= bundles[chosen].env_vars.len();
                Session {
                    manager,
                    url,
                    phase: if complete {
                        Phase::Writing
                    } else {
                        Phase::Prompting
                    },
                    scratch,
                    bundles,
                    chosen,
                    values,
                    outcome,
                }
            },
            (Phase::Writing, Event::Written) => Session {
                manager,
                url,
                phase: Phase::Finished,
                scratch,
                bundles,
                chosen,
                values,
                outcome: Some(Outcome::Ready),
            },
            (phase, _) => Session {
                manager,
                url,
                phase,
                scratch,
                bundles,
                chosen,
                values,
                outcome,
            },
        }
    }

    /// The names of the discovered bundles, in order.
    fn names(&self) -> (names: Vec<String>)
        ensures
            names.deep_view() == self@.bundles.map_values(|b: Bundle| b.name),
    {
        let mut names: Vec<String> = Vec::new();
        let mut i: usize = 0;
        while i < self.bundles.len()
            invariant
                i <= self.bundles.len(),
                names.len() == i,
                forall|k: int| 0 <= k < i ==> (#[trigger] names[k])@ == self.bundles[k].name@,
            decreases self.bundles.len() - i,
        {
            names.push(self.bundles[i].name.clone());
            i += 1;
        }
        assert(names.deep_view() =~= self@.bundles.map_values(|b: Bundle| b.name));
        names
    }
}

/// Every step keeps a state well formed.
pub proof fn lemma_step_keeps_wf(s: State, event: Event)
    requires
        s.wf(),
    ensures
        step(s, event).wf(),
{
    match (s.phase, event) {
        (Phase::Discovering, Event::Discovered { entries }) => {
            lemma_bundles_well_formed(entries@);
        },
        _ => {},
    }
}

/// A run that is over stays as it is, whatever is reported.
pub proof fn lemma_finished_is_final(s: State, event: Event)
    requires
        s.phase is Finished,
    ensures
        step(s, event) == s,
{
}

/// An interruption ends a run at once, from wherever it stands: the only
/// action left is to finish, which removes the scratch directory exactly
/// where the run asked for one, and which is no write. What was collected is
/// discarded with the session; no environment file is asked for.
pub proof fn lemma_interruption_cleans_up(s: State, action: Action)
    requires
        s.wf(),
        !(s.phase is Finished),
        asks(step(s, Event::Interrupted), action),
    ensures
        step(s, Event::Interrupted).phase is Finished,
        action matches Action::Finish { outcome, path, release } && outcome == Outcome::Interrupted
            && path is None && (release is Some <==> s.remote) && (release matches Some(dir)
            ==> dir@ == s.scratch),
{
}

/// An environment file is written whole or not at all: a write is asked for
/// only when every variable of the chosen bundle has its value, and its text
/// assigns each of them, in order.
pub proof fn lemma_write_is_whole(s: State, action: Action)
    requires
        s.wf(),
        asks(s, action),
        action is Write,
    ensures
        s.phase is Writing,
        s.values.len() == s.variables().len(),
        action matches Action::Write { dir, text } && text@ == env_text(s.variables(), s.values)
            && dir@ == s.bundles[s.chosen].path,
{
}

/// Once a run has asked for the scratch directory, it goes on knowing so,
/// and the directory's path never changes: whenever the run ends, the scratch
/// directory is named for removal.
pub proof fn lemma_scratch_is_remembered(s: State, event: Event)
    ensures
        step(s, event).scratch == s.scratch,
        step(s, event).url == s.url,
        s.remote ==> step(s, event).remote,
{
}

} // verus!
