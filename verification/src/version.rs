//! Concrete three-component release versions and the releases built from
//! them, ordered component-wise (major, then minor, then patch).

use vstd::prelude::*;

verus! {

/// A concrete released toolchain version: major.minor.patch.
#[derive(Clone, Copy, Debug, PartialEq, Eq, Structural)]
pub struct Version {
    pub major: u64,
    pub minor: u64,
    pub patch: u64,
}

/// The release channel a version was published on. Only stable releases are
/// ever search candidates.
#[derive(Clone, Copy, Debug, PartialEq, Eq, Structural)]
pub enum Channel {
    Stable,
    Beta,
    Nightly,
}

/// A released version together with its channel marker.
#[derive(Clone, Copy, Debug, PartialEq, Eq, Structural)]
pub struct Release {
    version: Version,
    channel: Channel,
}

/// Strict component-wise (lexicographic) order on versions.
pub open spec fn spec_version_lt(a: Version, b: Version) -> bool {
    a.major < b.major || (a.major == b.major && (a.minor < b.minor || (a.minor == b.minor
        && a.patch < b.patch)))
}

pub open spec fn spec_version_le(a: Version, b: Version) -> bool {
    spec_version_lt(a, b) || a == b
}

impl Version {
    pub fn new(major: u64, minor: u64, patch: u64) -> (v: Version)
        ensures
            v == (Version { major, minor, patch }),
    {
        Version { major, minor, patch }
    }

    /// Strict component-wise comparison.
    pub fn lt(&self, other: &Version) -> (r: bool)
        ensures
            r == spec_version_lt(*self, *other),
    {
        self.major < other.major || (self.major == other.major && (self.minor < other.minor || (
        self.minor == other.minor && self.patch < other.patch)))
    }

    /// Non-strict component-wise comparison.
    pub fn le(&self, other: &Version) -> (r: bool)
        ensures
            r == spec_version_le(*self, *other),
    {
        self.lt(other) || (self.major == other.major && self.minor == other.minor && self.patch
            == other.patch)
    }
}

impl Release {
    /// A release on the stable channel.
    pub fn new_stable(version: Version) -> (r: Release)
        ensures
            r.spec_version() == version,
            r.spec_channel() == Channel::Stable,
    {
        Release { version, channel: Channel::Stable }
    }

    pub fn new(version: Version, channel: Channel) -> (r: Release)
        ensures
            r.spec_version() == version,
            r.spec_channel() == channel,
    {
        Release { version, channel }
    }

    pub closed spec fn spec_version(self) -> Version {
        self.version
    }

    pub closed spec fn spec_channel(self) -> Channel {
        self.channel
    }

    pub fn version(&self) -> (v: Version)
        ensures
            v == self.spec_version(),
    {
        self.version
    }

    pub fn channel(&self) -> (c: Channel)
        ensures
            c == self.spec_channel(),
    {
        self.channel
    }
}

} // verus!
