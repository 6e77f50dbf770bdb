//! The ignore list of the Windows app: the rules, where they are saved, and the
//! defaults seeded on first launch. Reading and writing the file belong to the
//! application; here the store decides what the rules become and when they are
//! to be written.

use vstd::prelude::*;
use crate::ignore_rules::{
    IgnoreRules, Persisted, name_matches, persisted_sets, seed_needs_save, seeded_ports,
    seeded_processes, spec_ignored, strs,
};
use crate::models::PortInfo;
use crate::text::chars_of;

verus! {

/// Bumped when new entries are added to the defaults, so existing installs pick
/// them up once (without clobbering the user's own removals afterwards).
pub const SEED_VERSION: u32 = 1;

/// Windows system processes that hold ports but are never dev servers.
pub open spec fn default_process_names() -> Seq<Seq<char>> {
    seq![
        "System"@,
        "svchost"@,
        "lsass"@,
        "services"@,
        "wininit"@,
        "spoolsv"@,
        "System Idle Process"@,
    ]
}

pub fn default_processes() -> (r: Vec<&'static str>)
    ensures
        strs(r@) == default_process_names(),
{
    let r = vec![
        "System",
        "svchost",
        "lsass",
        "services",
        "wininit",
        "spoolsv",
        "System Idle Process",
    ];
    assert(strs(r@) =~= default_process_names());
    r
}

pub struct IgnoreStore {
    pub rules: IgnoreRules,
    /// Where the rules are saved.
    pub path: String,
}

impl IgnoreStore {
    /// The store for the file at `path`, given what was read from it (`None`
    /// when nothing readable was there): the defaults at first launch, else the
    /// saved rules, with the defaults merged in once for older installs. The
    /// flag says whether the rules are to be written back at once.
    pub fn load(path: String, saved: Option<Persisted>) -> (r: (IgnoreStore, bool))
        ensures
            r.0.path == path,
            r.0.rules.process_set() == seeded_processes(
                persisted_sets(saved),
                default_process_names().to_set(),
                SEED_VERSION,
            ),
            r.0.rules.port_set() == seeded_ports(persisted_sets(saved)),
            r.1 == seed_needs_save(persisted_sets(saved), SEED_VERSION),
    {
        let defaults = default_processes();
        let (rules, save) = IgnoreRules::seeded(saved, &defaults, SEED_VERSION);
        (IgnoreStore { rules, path }, save)
    }

    /// Hides processes named `name`. An empty name changes nothing and returns
    /// `false`; otherwise the rules are to be saved and `true` is returned.
    pub fn ignore_process(&mut self, name: &str) -> (changed: bool)
        ensures
            final(self).path == old(self).path,
            changed == (name@.len() > 0),
            final(self).rules.process_set() == if changed {
                old(self).rules.process_set().insert(name@)
            } else {
                old(self).rules.process_set()
            },
            final(self).rules.port_set() == old(self).rules.port_set(),
    {
        if name.is_empty() {
            return false;
        }
        self.rules.insert_process(name);
        true
    }

    /// Hides port `port`.
    pub fn ignore_port(&mut self, port: u16)
        ensures
            final(self).path == old(self).path,
            final(self).rules.port_set() == old(self).rules.port_set().insert(port),
            final(self).rules.process_set() == old(self).rules.process_set(),
    {
        self.rules.insert_port(port);
    }

    /// Removes the process rule `name`.
    pub fn unignore_process(&mut self, name: &str)
        ensures
            final(self).path == old(self).path,
            final(self).rules.process_set() == old(self).rules.process_set().remove(name@),
            final(self).rules.port_set() == old(self).rules.port_set(),
    {
        self.rules.remove_process(name);
    }

    /// Removes the rule on port `port`.
    pub fn unignore_port(&mut self, port: u16)
        ensures
            final(self).path == old(self).path,
            final(self).rules.port_set() == old(self).rules.port_set().remove(port),
            final(self).rules.process_set() == old(self).rules.process_set(),
    {
        self.rules.remove_port(port);
    }

    /// Removes whichever rule (port or process name) hides this port.
    pub fn unignore_matching(&mut self, port: u16, command: &str, display_name: &str)
        ensures
            final(self).path == old(self).path,
            final(self).rules.port_set() == old(self).rules.port_set().remove(port),
            final(self).rules.process_set() == old(self).rules.process_set().filter(
                |n: Seq<char>| !name_matches(n, command@, display_name@),
            ),
            !spec_ignored(
                final(self).rules.process_set(),
                final(self).rules.port_set(),
                port,
                command@,
                display_name@,
            ),
    {
        let cmd = chars_of(command);
        let dn = chars_of(display_name);
        self.rules.remove_matching(port, cmd.as_slice(), dn.as_slice());
    }

    pub fn is_ignored(&self, port: &PortInfo) -> (r: bool)
        ensures
            r == spec_ignored(
                self.rules.process_set(),
                self.rules.port_set(),
                port.port,
                port.command@,
                port.display_name@,
            ),
    {
        self.rules.is_ignored(port)
    }

    /// The rules in their saved form.
    pub fn persisted(&self) -> (r: Persisted)
        ensures
            crate::ignore_rules::texts(r.processes@) == self.rules.names(),
            r.ports@ == self.rules.port_list(),
            r.seed_version == SEED_VERSION,
    {
        self.rules.persisted(SEED_VERSION)
    }
}

} // verus!
