//! Toolchain identity: the channel or concrete version a toolchain is
//! selected by, together with its host triple and components.

use vstd::prelude::*;
use crate::version::{Channel, Version};

verus! {

/// A toolchain selector: either a named channel or a concrete version.
#[derive(Clone, Copy, Debug, PartialEq, Eq, Structural)]
pub enum ToolchainChannel {
    Channel(Channel),
    Version(Version),
}

/// A release date marker for a toolchain.
#[derive(Clone, Copy, Debug, PartialEq, Eq, Structural)]
pub struct Date;

/// A host target triple marker.
#[derive(Clone, Copy, Debug, PartialEq, Eq, Structural)]
pub struct TargetTriple;

/// An installable toolchain component.
#[derive(Clone, Debug)]
pub struct Component {
    id: String,
}

impl Component {
    pub closed spec fn spec_id(&self) -> Seq<char> {
        self.id@
    }

    pub fn new(id: String) -> (c: Component)
        ensures
            c.spec_id() == id@,
    {
        Component { id }
    }

    pub fn id(&self) -> (r: &String)
        ensures
            r@ == self.spec_id(),
    {
        &self.id
    }
}

/// A toolchain: a selector plus its date, host and components.
#[derive(Debug)]
pub struct Toolchain {
    channel: ToolchainChannel,
    date: Date,
    host: TargetTriple,
    components: Vec<Component>,
}

impl Toolchain {
    pub closed spec fn spec_channel(&self) -> ToolchainChannel {
        self.channel
    }

    pub closed spec fn spec_date(&self) -> Date {
        self.date
    }

    pub closed spec fn spec_host(&self) -> TargetTriple {
        self.host
    }

    pub closed spec fn spec_components(&self) -> Seq<Component> {
        self.components@
    }

    pub fn new(channel: ToolchainChannel, date: Date, host: TargetTriple, components: Vec<
        Component,
    >) -> (t: Toolchain)
        ensures
            t.spec_channel() == channel,
            t.spec_date() == date,
            t.spec_host() == host,
            t.spec_components() == components@,
    {
        Toolchain { channel, date, host, components }
    }

    pub fn channel(&self) -> (c: &ToolchainChannel)
        ensures
            *c == self.spec_channel(),
    {
        &self.channel
    }
}

} // verus!
