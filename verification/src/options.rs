//! The choices that a request can make, and their names in the API.

use vstd::prelude::*;

verus! {

/// What a cache refresh addresses.
#[derive(Clone, Copy, Debug)]
pub enum RefreshType {
    File,
    Directory,
}

impl RefreshType {
    /// The name of the choice in the API.
    pub open spec fn api_value(self) -> Seq<char> {
        match self {
            RefreshType::File => "file"@,
            RefreshType::Directory => "directory"@,
        }
    }

    /// The name of the choice in the API.
    pub fn as_api_value(&self) -> (value: &'static str)
        ensures
            value@ == self.api_value(),
    {
        match self {
            RefreshType::File => "file",
            RefreshType::Directory => "directory",
        }
    }
}

/// The configuration of a domain that a query reads.
#[derive(Clone, Copy, Debug)]
pub enum EdgeScriptEnv {
    Production,
    Staging,
}

impl EdgeScriptEnv {
    /// The API action that reads the configuration.
    pub open spec fn query_action(self) -> Seq<char> {
        match self {
            EdgeScriptEnv::Production => "DescribeCdnDomainConfigs"@,
            EdgeScriptEnv::Staging => "DescribeCdnDomainStagingConfig"@,
        }
    }

    /// The API action that reads the configuration.
    pub fn as_query_action(&self) -> (action: &'static str)
        ensures
            action@ == self.query_action(),
    {
        match self {
            EdgeScriptEnv::Production => "DescribeCdnDomainConfigs",
            EdgeScriptEnv::Staging => "DescribeCdnDomainStagingConfig",
        }
    }
}

/// Where in the processing of a request a script runs.
#[derive(Clone, Copy, Debug)]
pub enum EdgeScriptPosition {
    Head,
    Foot,
}

impl EdgeScriptPosition {
    /// The name of the choice in the API.
    pub open spec fn api_value(self) -> Seq<char> {
        match self {
            EdgeScriptPosition::Head => "head"@,
            EdgeScriptPosition::Foot => "foot"@,
        }
    }

    /// The name of the choice in the API.
    pub fn as_api_value(&self) -> (value: &'static str)
        ensures
            value@ == self.api_value(),
    {
        match self {
            EdgeScriptPosition::Head => "head",
            EdgeScriptPosition::Foot => "foot",
        }
    }
}

/// Whether a script is enabled.
#[derive(Clone, Copy, Debug)]
pub enum OnOff {
    On,
    Off,
}

impl OnOff {
    /// The name of the choice in the API.
    pub open spec fn api_value(self) -> Seq<char> {
        match self {
            OnOff::On => "on"@,
            OnOff::Off => "off"@,
        }
    }

    /// The name of the choice in the API.
    pub fn as_api_value(&self) -> (value: &'static str)
        ensures
            value@ == self.api_value(),
    {
        match self {
            OnOff::On => "on",
            OnOff::Off => "off",
        }
    }
}

} // verus!
