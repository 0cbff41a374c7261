//! Run configuration: the intent of a run and the values the engine needs —
//! target platform, validation command, optional manifest path, bounds, and
//! whether every patch release is a candidate.

use vstd::prelude::*;
use vstd::string::StringExecFns;
use crate::version::Version;

verus! {

/// What a run is meant to do.
#[derive(Clone, Copy, Debug, PartialEq, Eq, Structural)]
pub enum ModeIntent {
    DetermineMSRV,
    VerifyMSRV,
    List,
}

/// The configuration values of one run.
#[derive(Clone, Debug)]
pub struct CmdMatches {
    target: String,
    check_command: Vec<String>,
    seek_path: Option<String>,
    include_all_patch_releases: bool,
    minimum_version: Option<Version>,
    maximum_version: Option<Version>,
}

impl CmdMatches {
    pub closed spec fn spec_target(&self) -> Seq<char> {
        self.target@
    }

    pub closed spec fn spec_check_command(&self) -> Seq<String> {
        self.check_command@
    }

    pub closed spec fn spec_seek_path(&self) -> Option<Seq<char>> {
        match self.seek_path {
            Some(ref p) => Some(p@),
            None => None,
        }
    }

    pub closed spec fn spec_include_all_patch_releases(&self) -> bool {
        self.include_all_patch_releases
    }

    pub closed spec fn spec_minimum_version(&self) -> Option<Version> {
        self.minimum_version
    }

    pub closed spec fn spec_maximum_version(&self) -> Option<Version> {
        self.maximum_version
    }

    /// A configuration for `target` with the defaults: the standard
    /// build-all validation command, no manifest path, only the newest patch
    /// release per minor line, and no bounds.
    pub fn new(target: String) -> (s: Self)
        ensures
            s.spec_target() == target@,
            s.spec_check_command().len() == 3,
            s.spec_check_command()[0]@ == "cargo"@,
            s.spec_check_command()[1]@ == "build"@,
            s.spec_check_command()[2]@ == "--all"@,
            s.spec_seek_path() is None,
            !s.spec_include_all_patch_releases(),
            s.spec_minimum_version() is None,
            s.spec_maximum_version() is None,
    {
        let mut check_command: Vec<String> = Vec::new();
        check_command.push(String::from_str("cargo"));
        check_command.push(String::from_str("build"));
        check_command.push(String::from_str("--all"));
        CmdMatches {
            target,
            check_command,
            seek_path: None,
            include_all_patch_releases: false,
            minimum_version: None,
            maximum_version: None,
        }
    }

    pub fn target(&self) -> (r: &String)
        ensures
            r@ == self.spec_target(),
    {
        &self.target
    }

    pub fn check_command(&self) -> (r: &Vec<String>)
        ensures
            r@ == self.spec_check_command(),
    {
        &self.check_command
    }

    pub fn seek_path(&self) -> (r: Option<&String>)
        ensures
            match r {
                Some(p) => self.spec_seek_path() == Some(p@),
                None => self.spec_seek_path() is None,
            },
    {
        self.seek_path.as_ref()
    }

    pub fn include_all_patch_releases(&self) -> (r: bool)
        ensures
            r == self.spec_include_all_patch_releases(),
    {
        self.include_all_patch_releases
    }

    pub fn minimum_version(&self) -> (r: Option<&Version>)
        ensures
            match r {
                Some(v) => self.spec_minimum_version() == Some(*v),
                None => self.spec_minimum_version() is None,
            },
    {
        self.minimum_version.as_ref()
    }

    pub fn maximum_version(&self) -> (r: Option<&Version>)
        ensures
            match r {
                Some(v) => self.spec_maximum_version() == Some(*v),
                None => self.spec_maximum_version() is None,
            },
    {
        self.maximum_version.as_ref()
    }
}

/// A builder over `CmdMatches`, starting from the defaults.
#[derive(Clone, Debug)]
pub struct CmdMatchesBuilder {
    inner: CmdMatches,
}

impl CmdMatchesBuilder {
    pub closed spec fn spec_inner(&self) -> CmdMatches {
        self.inner
    }

    pub fn new(default_target: &str) -> (b: Self)
        ensures
            b.spec_inner().spec_target() == default_target@,
            b.spec_inner().spec_check_command().len() == 3,
            b.spec_inner().spec_seek_path() is None,
            !b.spec_inner().spec_include_all_patch_releases(),
            b.spec_inner().spec_minimum_version() is None,
            b.spec_inner().spec_maximum_version() is None,
    {
        CmdMatchesBuilder { inner: CmdMatches::new(default_target.to_owned()) }
    }

    pub fn target(self, target: &str) -> (b: Self)
        ensures
            b.spec_inner().spec_target() == target@,
            b.spec_inner().spec_check_command() == self.spec_inner().spec_check_command(),
            b.spec_inner().spec_seek_path() == self.spec_inner().spec_seek_path(),
            b.spec_inner().spec_include_all_patch_releases()
                == self.spec_inner().spec_include_all_patch_releases(),
            b.spec_inner().spec_minimum_version() == self.spec_inner().spec_minimum_version(),
            b.spec_inner().spec_maximum_version() == self.spec_inner().spec_maximum_version(),
    {
        let mut inner = self.inner;
        inner.target = target.to_owned();
        CmdMatchesBuilder { inner }
    }

    pub fn check_command(self, cmd: Vec<String>) -> (b: Self)
        ensures
            b.spec_inner().spec_check_command() == cmd@,
            b.spec_inner().spec_target() == self.spec_inner().spec_target(),
            b.spec_inner().spec_seek_path() == self.spec_inner().spec_seek_path(),
            b.spec_inner().spec_include_all_patch_releases()
                == self.spec_inner().spec_include_all_patch_releases(),
            b.spec_inner().spec_minimum_version() == self.spec_inner().spec_minimum_version(),
            b.spec_inner().spec_maximum_version() == self.spec_inner().spec_maximum_version(),
    {
        let mut inner = self.inner;
        inner.check_command = cmd;
        CmdMatchesBuilder { inner }
    }

    pub fn seek_path(self, path: Option<&str>) -> (b: Self)
        ensures
            match path {
                Some(p) => b.spec_inner().spec_seek_path() == Some(p@),
                None => b.spec_inner().spec_seek_path() is None,
            },
            b.spec_inner().spec_target() == self.spec_inner().spec_target(),
            b.spec_inner().spec_check_command() == self.spec_inner().spec_check_command(),
            b.spec_inner().spec_include_all_patch_releases()
                == self.spec_inner().spec_include_all_patch_releases(),
            b.spec_inner().spec_minimum_version() == self.spec_inner().spec_minimum_version(),
            b.spec_inner().spec_maximum_version() == self.spec_inner().spec_maximum_version(),
    {
        let mut inner = self.inner;
        inner.seek_path = match path {
            Some(p) => Some(p.to_owned()),
            None => None,
        };
        CmdMatchesBuilder { inner }
    }

    pub fn include_all_patch_releases(self, answer: bool) -> (b: Self)
        ensures
            b.spec_inner().spec_include_all_patch_releases() == answer,
            b.spec_inner().spec_target() == self.spec_inner().spec_target(),
            b.spec_inner().spec_check_command() == self.spec_inner().spec_check_command(),
            b.spec_inner().spec_seek_path() == self.spec_inner().spec_seek_path(),
            b.spec_inner().spec_minimum_version() == self.spec_inner().spec_minimum_version(),
            b.spec_inner().spec_maximum_version() == self.spec_inner().spec_maximum_version(),
    {
        let mut inner = self.inner;
        inner.include_all_patch_releases = answer;
        CmdMatchesBuilder { inner }
    }

    pub fn minimum_version(self, version: Option<Version>) -> (b: Self)
        ensures
            b.spec_inner().spec_minimum_version() == version,
            b.spec_inner().spec_target() == self.spec_inner().spec_target(),
            b.spec_inner().spec_check_command() == self.spec_inner().spec_check_command(),
            b.spec_inner().spec_seek_path() == self.spec_inner().spec_seek_path(),
            b.spec_inner().spec_include_all_patch_releases()
                == self.spec_inner().spec_include_all_patch_releases(),
            b.spec_inner().spec_maximum_version() == self.spec_inner().spec_maximum_version(),
    {
        let mut inner = self.inner;
        inner.minimum_version = version;
        CmdMatchesBuilder { inner }
    }

    pub fn maximum_version(self, version: Option<Version>) -> (b: Self)
        ensures
            b.spec_inner().spec_maximum_version() == version,
            b.spec_inner().spec_target() == self.spec_inner().spec_target(),
            b.spec_inner().spec_check_command() == self.spec_inner().spec_check_command(),
            b.spec_inner().spec_seek_path() == self.spec_inner().spec_seek_path(),
            b.spec_inner().spec_include_all_patch_releases()
                == self.spec_inner().spec_include_all_patch_releases(),
            b.spec_inner().spec_minimum_version() == self.spec_inner().spec_minimum_version(),
    {
        let mut inner = self.inner;
        inner.maximum_version = version;
        CmdMatchesBuilder { inner }
    }

    pub fn build(self) -> (r: CmdMatches)
        ensures
            r == self.spec_inner(),
    {
        self.inner
    }
}

} // verus!
