//! Bundle discovery and the decisions of a run that need no file system:
//! where the bundles come from, which bundles a listing holds, and what the
//! environment file says.

use crate::config::{Bundle, DockerConfig};
use crate::envfile::{env_text, render};
use crate::error::Error;
use crate::extract::{
    find_env_vars, is_variable_list, lemma_required_variables_form, required_variables,
};
use crate::utils::{scratch_location, TempDirManager};
use vstd::prelude::*;

verus! {

/// The directory that, where it exists, holds the bundles of a run.
pub const LOCAL_ROOT: &'static str = "docker";

/// The name of a bundle's service-definition file.
pub const COMPOSE_FILE_NAME: &'static str = "docker-compose.yml";

/// The name of a bundle's environment file.
pub const ENV_FILE_NAME: &'static str = ".env";

/// What a listing of a bundle root shows of one of its children.
#[derive(Debug)]
pub struct Entry {
    /// The child's path.
    pub path: String,
    /// The child's base name, `None` where it is not valid Unicode.
    pub name: Option<String>,
    /// Whether the child is a directory.
    pub is_dir: bool,
    /// The text of the service-definition file in the child, `None` where
    /// there is no such file.
    pub compose: Option<String>,
    /// The text of the environment file in the child, `None` where there is
    /// no such file.
    pub env: Option<String>,
}

/// Where the bundles of a run come from.
#[derive(Debug)]
pub enum Origin {
    /// The local bundle root `root`.
    Local { root: String },
    /// The repository at `url`, cloned into the directory `scratch`, which is
    /// emptied first.
    Remote { url: String, scratch: String },
}

/// The bundle that `entry` stands for: one for each directory with a name.
pub open spec fn bundle_of(entry: Entry) -> Option<Bundle> {
    if entry.is_dir && entry.name is Some {
        Some(
            Bundle {
                name: entry.name->0@,
                path: entry.path@,
                env_vars: required_variables(entry.compose.deep_view(), entry.env.deep_view()),
            },
        )
    } else {
        None
    }
}

/// The bundles of a listing, in the order of the listing.
pub open spec fn bundles_of(entries: Seq<Entry>) -> Seq<Bundle>
    decreases entries.len(),
{
    if entries.len() == 0 {
        Seq::empty()
    } else {
        let front = bundles_of(entries.drop_last());
        match bundle_of(entries.last()) {
            Some(bundle) => front.push(bundle),
            None => front,
        }
    }
}

/// Every bundle of a listing is well formed: its variables hold no built-in
/// name and no name twice in a row.
pub proof fn lemma_bundles_well_formed(entries: Seq<Entry>)
    ensures
        forall|i: int|
            0 <= i < bundles_of(entries).len() ==> (#[trigger] bundles_of(entries)[i]).well_formed(),
    decreases entries.len(),
{
    if entries.len() > 0 {
        let front = bundles_of(entries.drop_last());
        let last = entries.last();
        lemma_bundles_well_formed(entries.drop_last());
        lemma_required_variables_form(last.compose.deep_view(), last.env.deep_view());
        assert forall|i: int| 0 <= i < bundles_of(entries).len() implies (#[trigger] bundles_of(
            entries,
        )[i]).well_formed() by {
            if i < front.len() {
                assert(bundles_of(entries)[i] == front[i]);
            }
        }
    }
}

/// The bundles of a listing are as many as its directories with a name, at
/// most; a listing without such a directory holds none.
pub proof fn lemma_bundles_count(entries: Seq<Entry>)
    ensures
        bundles_of(entries).len() <= entries.len(),
        (forall|i: int| 0 <= i < entries.len() ==> bundle_of(#[trigger] entries[i]) is None)
            ==> bundles_of(entries).len() == 0,
    decreases entries.len(),
{
    if entries.len() > 0 {
        lemma_bundles_count(entries.drop_last());
        assert(forall|i: int|
            0 <= i < entries.len() - 1 ==> entries.drop_last()[i] == #[trigger] entries[i]);
    }
}

/// Manages the bundles of a run.
pub struct DockerManager {
    temp_dir_manager: TempDirManager,
}

impl DockerManager {
    /// The path of the scratch directory that this manager clones into.
    pub closed spec fn scratch(&self) -> Seq<char> {
        self.temp_dir_manager@
    }

    /// A manager whose scratch directory is that of the current user.
    pub fn new() -> (r: Result<Self, Error>)
        ensures
            r is Ok,
            exists|home: Option<Seq<char>>| r->Ok_0.scratch() == scratch_location(home),
    {
        match TempDirManager::new() {
            Ok(temp_dir_manager) => Ok(Self { temp_dir_manager }),
            Err(error) => Err(error),
        }
    }

    /// A manager that clones into the scratch directory of `temp_dir_manager`.
    pub fn with_temp_dir(temp_dir_manager: TempDirManager) -> (manager: Self)
        ensures
            manager.scratch() == temp_dir_manager@,
    {
        Self { temp_dir_manager }
    }

    /// Where the bundles are fetched from: the local bundle root where it is
    /// present, else the repository at `git_url`, cloned into the scratch
    /// directory.
    pub fn fetch_configs(&self, git_url: &str, local_present: bool) -> (r: Result<Origin, Error>)
        ensures
            r is Ok,
            match r->Ok_0 {
                Origin::Local { root } => local_present && root@ == LOCAL_ROOT@,
                Origin::Remote { url, scratch } => !local_present && url@ == git_url@ && scratch@
                    == self.scratch(),
            },
    {
        if local_present {
            Ok(Origin::Local { root: String::from_str(LOCAL_ROOT) })
        } else {
            match self.temp_dir_manager.get_temp_dir() {
                Ok(scratch) => Ok(Origin::Remote { url: String::from_str(git_url), scratch }),
                Err(error) => Err(error),
            }
        }
    }

    /// The bundles of a listing: one for each directory with a name, in the
    /// order of the listing, each with its required variables.
    pub fn read_local_configs(&self, entries: &Vec<Entry>) -> (configs: Vec<DockerConfig>)
        ensures
            configs.deep_view() == bundles_of(entries@),
            forall|i: int| 0 <= i < configs.len() ==> (#[trigger] configs[i])@.well_formed(),
    {
        let mut configs: Vec<DockerConfig> = Vec::new();
        let mut i: usize = 0;
        assert(configs.deep_view() =~= Seq::<Bundle>::empty());
        assert(entries@.take(0) =~= Seq::<Entry>::empty());
        while i < entries.len()
            invariant
                i <= entries.len(),
                configs.deep_view() == bundles_of(entries@.take(i as int)),
                forall|k: int| 0 <= k < configs.len() ==> (#[trigger] configs[k])@.well_formed(),
            decreases entries.len() - i,
        {
            let entry = &entries[i];
            let ghost found = configs.deep_view();
            assert(entries@.take(i + 1).drop_last() =~= entries@.take(i as int));
            if entry.is_dir {
                if let Some(name) = &entry.name {
                    let env_vars = self.find_env_vars(
                        as_text(&entry.compose),
                        as_text(&entry.env),
                    );
                    let config = DockerConfig::new(name.clone(), entry.path.clone(), env_vars);
                    configs.push(config);
                    assert(configs.deep_view() =~= found.push(bundle_of(*entry)->0));
                }
            }
            i += 1;
        }
        assert(entries@.take(entries.len() as int) =~= entries@);
        configs
    }

    /// The required variables of a bundle, from the text of its
    /// service-definition file and of its environment file, each `None`
    /// where the file does not exist.
    pub fn find_env_vars(&self, compose: Option<&str>, env: Option<&str>) -> (names: Vec<String>)
        ensures
            names.deep_view() == required_variables(compose.deep_view(), env.deep_view()),
            is_variable_list(names.deep_view()),
    {
        find_env_vars(compose, env)
    }

    /// The text of the environment file that assigns `values[i]` to
    /// `env_vars[i]`: `Some` exactly where every variable has its value.
    pub fn create_env_file(&self, env_vars: &Vec<String>, values: &Vec<String>) -> (text: Option<
        String,
    >)
        ensures
            text is Some <==> env_vars.len() == values.len(),
            text matches Some(t) ==> t@ == env_text(env_vars.deep_view(), values.deep_view()),
    {
        render(env_vars, values)
    }
}

/// The text of a file that may be absent.
fn as_text(content: &Option<String>) -> (text: Option<&str>)
    ensures
        text.deep_view() == content.deep_view(),
{
    match content {
        Some(s) => Some(s.as_str()),
        None => None,
    }
}

} // verus!
