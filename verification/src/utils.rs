//! The scratch directory into which a remote repository is cloned.

use crate::error::Error;
use vstd::prelude::*;

verus! {

/// The name of the scratch directory below the user's home directory.
pub const SCRATCH_DIR_NAME: &'static str = ".docker-cli-temp";

/// The path that `std::path::Path::join` gives for the path `base` extended
/// by `child`, both as text.
pub uninterp spec fn joined_path(base: Seq<char>, child: Seq<char>) -> Seq<char>;

/// Where the scratch directory lies: `.docker-cli-temp` below the home
/// directory, or below the working directory where no home directory is
/// known.
pub open spec fn scratch_location(home: Option<Seq<char>>) -> Seq<char> {
    joined_path(
        match home {
            Some(dir) => dir,
            None => "."@,
        },
        SCRATCH_DIR_NAME@,
    )
}

/// `dirs::home_dir`: the home directory of the current user, as the
/// operating system or the environment names it, or `None` where neither
/// does. The answer depends on the process's surroundings, so nothing is
/// claimed of it. A path that is not valid Unicode arrives with its invalid
/// parts replaced, as `Path::to_string_lossy` does.
#[verifier::external_body]
fn home_dir() -> (home: Option<String>) {
    dirs::home_dir().map(|dir| dir.to_string_lossy().into_owned())
}

/// `std::path::Path::join`: `base` extended by `child`, by the path rules of
/// the platform that the program is built for. For two given texts the
/// result is always the same text; the contract says that and no more.
#[verifier::external_body]
fn join(base: &str, child: &str) -> (path: String)
    ensures
        path@ == joined_path(base@, child@),
{
    std::path::Path::new(base).join(child).to_string_lossy().into_owned()
}

/// Keeps the location of the scratch directory.
pub struct TempDirManager {
    temp_dir: String,
}

impl View for TempDirManager {
    type V = Seq<char>;

    /// The path of the scratch directory.
    closed spec fn view(&self) -> Seq<char> {
        self.temp_dir@
    }
}

impl TempDirManager {
    /// A manager for the scratch directory of the current user: below the
    /// home directory that the surroundings name, if they name one.
    pub fn new() -> (r: Result<Self, Error>)
        ensures
            r is Ok,
            exists|home: Option<Seq<char>>| r->Ok_0@ == scratch_location(home),
    {
        let home = home_dir();
        let manager = Self::under(home);
        assert(manager@ == scratch_location(home.deep_view()));
        Ok(manager)
    }

    /// A manager for the scratch directory below `home`, or below the working
    /// directory where `home` is `None`.
    pub fn under(home: Option<String>) -> (manager: Self)
        ensures
            manager@ == scratch_location(home.deep_view()),
    {
        let base = match home {
            Some(dir) => dir,
            None => String::from_str("."),
        };
        Self { temp_dir: join(base.as_str(), SCRATCH_DIR_NAME) }
    }

    /// The path of the scratch directory.
    pub fn get_temp_dir(&self) -> (r: Result<String, Error>)
        ensures
            r is Ok,
            r->Ok_0@ == self@,
    {
        Ok(self.temp_dir.clone())
    }
}

} // verus!
