//! The two ways of discovery, and the choice between them. A host is handed
//! in as a snapshot of what discovery reads, so that either way can be run
//! against any host, real or made up.

use vstd::prelude::*;
use crate::posix::{lemma_empty_registry_lists_nothing, registered_shells, registered_shells_of, registry_text};
use crate::search_path::search_directories;
use crate::text::texts;
use crate::windows::{found_shells, lemma_empty_search_path_finds_nothing, path_text, windows_shells};

verus! {

/// How the shells of a host are discovered.
#[derive(Clone, Copy, Debug, PartialEq, Eq, Structural)]
pub enum ShellDiscoveryStrategy {
    /// Look for the known shells in the directories of the search path.
    WindowsStyle,
    /// Read the shells from the system's shell registry.
    PosixStyle,
}

/// What discovery reads of a host.
pub struct HostSnapshot {
    /// The executable search path; `None` where the host has none.
    pub search_path: Option<String>,
    /// Of the files that discovery probes, those that exist.
    pub existing_files: Vec<String>,
    /// The text of the shell registry; `None` where it is missing or cannot
    /// be read.
    pub shell_registry: Option<String>,
}

/// A borrowed view of an optional string.
pub fn as_text(value: &Option<String>) -> (text: Option<&str>)
    ensures
        value is Some <==> text is Some,
        value is Some ==> text->0@ == value->0@,
{
    match value {
        Some(s) => Some(s.as_str()),
        None => None,
    }
}

impl HostSnapshot {
    /// The text of the search path, empty where the host has none.
    pub open spec fn search_path_text(self) -> Seq<char> {
        match self.search_path {
            Some(path) => path@,
            None => Seq::empty(),
        }
    }

    /// The text of the shell registry, empty where the host has none.
    pub open spec fn registry_text(self) -> Seq<char> {
        match self.shell_registry {
            Some(content) => content@,
            None => Seq::empty(),
        }
    }

    /// The files that exist.
    pub open spec fn files(self) -> Set<Seq<char>> {
        texts(self.existing_files@).to_set()
    }
}

impl ShellDiscoveryStrategy {
    /// What this strategy reports on `host`.
    pub open spec fn shells_on(self, host: HostSnapshot) -> Seq<Seq<char>> {
        match self {
            ShellDiscoveryStrategy::WindowsStyle => found_shells(
                search_directories(host.search_path_text()),
                host.files(),
            ),
            ShellDiscoveryStrategy::PosixStyle => registered_shells(host.registry_text()),
        }
    }

    /// The strategy that belongs to a host's family.
    pub open spec fn chosen_for(windows_like: bool) -> ShellDiscoveryStrategy {
        if windows_like {
            ShellDiscoveryStrategy::WindowsStyle
        } else {
            ShellDiscoveryStrategy::PosixStyle
        }
    }

    /// The strategy for a host of the given family.
    pub fn for_host(windows_like: bool) -> (strategy: ShellDiscoveryStrategy)
        ensures
            strategy == ShellDiscoveryStrategy::chosen_for(windows_like),
    {
        if windows_like {
            ShellDiscoveryStrategy::WindowsStyle
        } else {
            ShellDiscoveryStrategy::PosixStyle
        }
    }

    /// The shells of `host`, discovered in this strategy's way. Only what the
    /// strategy reads of the host counts.
    pub fn discover(&self, host: &HostSnapshot) -> (out: Vec<String>)
        ensures
            texts(out@) == self.shells_on(*host),
    {
        match self {
            ShellDiscoveryStrategy::WindowsStyle => {
                let path = as_text(&host.search_path);
                assert(path_text(path) == host.search_path_text());
                windows_shells(path, &host.existing_files)
            },
            ShellDiscoveryStrategy::PosixStyle => {
                let registry = as_text(&host.shell_registry);
                assert(registry_text(registry) == host.registry_text());
                registered_shells_of(registry)
            },
        }
    }
}

/// The shells installed on `host`, which belongs to the Windows-like family
/// or to the POSIX-like one. Nothing that is missing on the host is an error:
/// there are then fewer shells, or none.
pub fn enumerate_installed_shells(windows_like: bool, host: &HostSnapshot) -> (out: Vec<String>)
    ensures
        texts(out@) == ShellDiscoveryStrategy::chosen_for(windows_like).shells_on(*host),
{
    ShellDiscoveryStrategy::for_host(windows_like).discover(host)
}

/// Discovery is a function of what it reads: on two hosts with the same
/// search path, the same existing files and the same registry, a strategy
/// reports the same shells, and so does a second run on an unchanged host.
pub proof fn lemma_discovery_is_repeatable(
    strategy: ShellDiscoveryStrategy,
    host: HostSnapshot,
    again: HostSnapshot,
)
    requires
        host.search_path_text() == again.search_path_text(),
        host.files() == again.files(),
        host.registry_text() == again.registry_text(),
    ensures
        strategy.shells_on(host) == strategy.shells_on(again),
{
}

/// A host without a search path and without a registry has no shells,
/// whichever family it belongs to.
pub proof fn lemma_bare_host_has_no_shells(strategy: ShellDiscoveryStrategy, host: HostSnapshot)
    requires
        host.search_path_text().len() == 0,
        host.registry_text().len() == 0,
    ensures
        strategy.shells_on(host) == Seq::<Seq<char>>::empty(),
{
    assert(host.search_path_text() =~= Seq::empty());
    assert(host.registry_text() =~= Seq::empty());
    lemma_empty_search_path_finds_nothing(host.files());
    lemma_empty_registry_lists_nothing();
}

} // verus!
