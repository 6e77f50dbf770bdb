//! Rules deciding which ports to hide from the main list. A port is ignored when
//! its number is in `ports`, or its process command/display name matches an
//! entry in `processes` (case-insensitive).
//!
//! Both lists are private and hold each entry once, which a type invariant
//! keeps; they are read as sets.

use vstd::prelude::*;
use crate::models::PortInfo;
use crate::text::{chars_eq, chars_of, chars_eq_ignore_ascii_case, eq_ignore_ascii_case};

verus! {

#[derive(Debug)]
pub struct IgnoreRules {
    processes: Vec<String>,
    ports: Vec<u16>,
}

/// The texts of a list of strings.
pub open spec fn texts(v: Seq<String>) -> Seq<Seq<char>> {
    v.map_values(|s: String| s@)
}

/// A process rule `name` hides a process called `command` / `display_name`.
pub open spec fn name_matches(name: Seq<char>, command: Seq<char>, display_name: Seq<char>) -> bool {
    eq_ignore_ascii_case(name, command) || eq_ignore_ascii_case(name, display_name)
}

/// Whether a port with this number, command and display name is hidden by the
/// process names `procs` and port numbers `ports`.
pub open spec fn spec_ignored(
    procs: Set<Seq<char>>,
    ports: Set<u16>,
    port: u16,
    command: Seq<char>,
    display_name: Seq<char>,
) -> bool {
    ports.contains(port) || exists|n: Seq<char>|
        #![trigger procs.contains(n)]
        procs.contains(n) && name_matches(n, command, display_name)
}

impl IgnoreRules {
    /// Each process name and each port occurs once.
    #[verifier::type_invariant]
    closed spec fn wf(&self) -> bool {
        texts(self.processes@).no_duplicates() && self.ports@.no_duplicates()
    }

    /// The process names, in the order they are kept.
    pub closed spec fn names(&self) -> Seq<Seq<char>> {
        texts(self.processes@)
    }

    /// The port numbers, in the order they are kept.
    pub closed spec fn port_list(&self) -> Seq<u16> {
        self.ports@
    }

    /// The process names, as a set.
    pub open spec fn process_set(&self) -> Set<Seq<char>> {
        self.names().to_set()
    }

    /// The port numbers, as a set.
    pub open spec fn port_set(&self) -> Set<u16> {
        self.port_list().to_set()
    }

    /// The process names, each once.
    pub fn processes(&self) -> (r: &Vec<String>)
        ensures
            texts(r@) == self.names(),
            self.names().no_duplicates(),
    {
        proof {
            use_type_invariant(self);
        }
        &self.processes
    }

    /// The port numbers, each once.
    pub fn ports(&self) -> (r: &Vec<u16>)
        ensures
            r@ == self.port_list(),
            self.port_list().no_duplicates(),
    {
        proof {
            use_type_invariant(self);
        }
        &self.ports
    }

    pub fn new(processes: Vec<String>, ports: Vec<u16>) -> (r: Self)
        ensures
            r.process_set() == texts(processes@).to_set(),
            r.port_set() == ports@.to_set(),
    {
        let mut r = IgnoreRules { processes: Vec::new(), ports: Vec::new() };
        assert(texts(r.processes@) =~= Seq::<Seq<char>>::empty());
        let mut i: usize = 0;
        while i < processes.len()
            invariant
                0 <= i <= processes@.len(),
                r.process_set() == texts(processes@.take(i as int)).to_set(),
                r.port_set() == Set::<u16>::empty(),
            decreases processes@.len() - i,
        {
            r.insert_process(processes[i].as_str());
            assert(texts(processes@.take(i as int + 1)) =~= texts(processes@.take(i as int)).push(
                processes@[i as int]@,
            ));
            proof {
                lemma_push_to_set(texts(processes@.take(i as int)), processes@[i as int]@);
            }
            i = i + 1;
        }
        assert(processes@.take(processes@.len() as int) =~= processes@);
        let mut j: usize = 0;
        assert(ports@.take(0).to_set() =~= Set::<u16>::empty());
        while j < ports.len()
            invariant
                0 <= j <= ports@.len(),
                r.process_set() == texts(processes@).to_set(),
                r.port_set() == ports@.take(j as int).to_set(),
            decreases ports@.len() - j,
        {
            r.insert_port(ports[j]);
            assert(ports@.take(j as int + 1) =~= ports@.take(j as int).push(ports@[j as int]));
            proof {
                lemma_push_to_set(ports@.take(j as int), ports@[j as int]);
            }
            j = j + 1;
        }
        assert(ports@.take(ports@.len() as int) =~= ports@);
        r
    }

    pub fn is_ignored(&self, port: &PortInfo) -> (r: bool)
        ensures
            r == spec_ignored(
                self.process_set(),
                self.port_set(),
                port.port,
                port.command@,
                port.display_name@,
            ),
    {
        let cmd = chars_of(port.command.as_str());
        let dn = chars_of(port.display_name.as_str());
        self.matches(port.port, cmd.as_slice(), dn.as_slice())
    }

    /// `is_ignored` for a port given by its number, command and display name.
    pub fn matches(&self, port: u16, command: &[char], display_name: &[char]) -> (r: bool)
        ensures
            r == spec_ignored(self.process_set(), self.port_set(), port, command@, display_name@),
    {
        if self.has_port(port) {
            return true;
        }
        let mut i: usize = 0;
        while i < self.processes.len()
            invariant
                0 <= i <= self.processes@.len(),
                forall|j: int|
                    0 <= j < i ==> !name_matches(
                        #[trigger] texts(self.processes@)[j],
                        command@,
                        display_name@,
                    ),
            decreases self.processes@.len() - i,
        {
            if name_matches_exec(self.processes[i].as_str(), command, display_name) {
                assert(self.process_set().contains(texts(self.processes@)[i as int]));
                return true;
            }
            i = i + 1;
        }
        assert forall|n: Seq<char>|
            self.process_set().contains(n) implies !name_matches(n, command@, display_name@) by {
            let j = choose|j: int| 0 <= j < texts(self.processes@).len() && texts(self.processes@)[j] == n;
            assert(!name_matches(texts(self.processes@)[j], command@, display_name@));
        }
        false
    }

    pub fn has_port(&self, port: u16) -> (r: bool)
        ensures
            r == self.port_set().contains(port),
    {
        let mut i: usize = 0;
        while i < self.ports.len()
            invariant
                0 <= i <= self.ports@.len(),
                forall|j: int| 0 <= j < i ==> self.ports@[j] != port,
            decreases self.ports@.len() - i,
        {
            if self.ports[i] == port {
                assert(self.ports@.to_set().contains(self.ports@[i as int]));
                return true;
            }
            i = i + 1;
        }
        false
    }

    /// The index of the process rule spelled exactly `name`.
    fn process_index(&self, name: &[char]) -> (r: Option<usize>)
        ensures
            r matches Some(i) ==> i < self.processes@.len() && texts(self.processes@)[i as int]
                == name@,
            r is None ==> !self.process_set().contains(name@),
    {
        let mut i: usize = 0;
        while i < self.processes.len()
            invariant
                0 <= i <= self.processes@.len(),
                forall|j: int| 0 <= j < i ==> texts(self.processes@)[j] != name@,
            decreases self.processes@.len() - i,
        {
            let cv = chars_of(self.processes[i].as_str());
            if chars_eq(cv.as_slice(), name) {
                return Some(i);
            }
            i = i + 1;
        }
        proof {
            false_if_absent(texts(self.processes@), name@);
        }
        None
    }

    /// Adds the process name `name`, if absent.
    pub fn insert_process(&mut self, name: &str)
        ensures
            final(self).process_set() == old(self).process_set().insert(name@),
            final(self).port_list() == old(self).port_list(),
    {
        proof {
            use_type_invariant(&*self);
        }
        let nv = chars_of(name);
        match self.process_index(nv.as_slice()) {
            Some(_) => {
                assert(old(self).process_set().contains(name@));
                assert(self.process_set().insert(name@) =~= self.process_set());
            },
            None => {
                let ghost before = texts(self.processes@);
                let mut procs: Vec<String> = Vec::new();
                std::mem::swap(&mut procs, &mut self.processes);
                procs.push(String::from_str(name));
                assert(texts(procs@) =~= before.push(name@));
                proof {
                    lemma_push_to_set(before, name@);
                    lemma_push_no_dup(before, name@);
                }
                self.processes = procs;
            },
        }
    }

    /// Removes the process rule spelled exactly `name`.
    pub fn remove_process(&mut self, name: &str)
        ensures
            final(self).process_set() == old(self).process_set().remove(name@),
            final(self).port_list() == old(self).port_list(),
    {
        proof {
            use_type_invariant(&*self);
        }
        let nv = chars_of(name);
        match self.process_index(nv.as_slice()) {
            Some(i) => {
                let ghost before = texts(self.processes@);
                let mut procs: Vec<String> = Vec::new();
                std::mem::swap(&mut procs, &mut self.processes);
                procs.remove(i);
                assert(texts(procs@) =~= before.remove(i as int));
                proof {
                    lemma_remove_no_dup(before, i as int);
                }
                self.processes = procs;
            },
            None => {
                assert(self.process_set().remove(name@) =~= self.process_set());
            },
        }
    }

    /// Adds the port `port`, if absent.
    pub fn insert_port(&mut self, port: u16)
        ensures
            final(self).port_set() == old(self).port_set().insert(port),
            final(self).names() == old(self).names(),
    {
        proof {
            use_type_invariant(&*self);
        }
        if self.has_port(port) {
            assert(self.port_set().insert(port) =~= self.port_set());
        } else {
            let ghost before = self.ports@;
            let mut nums: Vec<u16> = Vec::new();
            std::mem::swap(&mut nums, &mut self.ports);
            nums.push(port);
            proof {
                lemma_push_to_set(before, port);
                lemma_push_no_dup(before, port);
            }
            self.ports = nums;
        }
    }

    /// Removes the port `port`.
    pub fn remove_port(&mut self, port: u16)
        ensures
            final(self).port_set() == old(self).port_set().remove(port),
            final(self).names() == old(self).names(),
    {
        proof {
            use_type_invariant(&*self);
        }
        let mut i: usize = 0;
        while i < self.ports.len()
            invariant
                0 <= i <= self.ports@.len(),
                self.ports@.no_duplicates(),
                texts(self.processes@).no_duplicates(),
                self.ports@ == old(self).ports@,
                self.processes == old(self).processes,
                forall|j: int| 0 <= j < i ==> self.ports@[j] != port,
            decreases self.ports@.len() - i,
        {
            if self.ports[i] == port {
                let ghost before = self.ports@;
                let mut nums: Vec<u16> = Vec::new();
                std::mem::swap(&mut nums, &mut self.ports);
                nums.remove(i);
                proof {
                    lemma_remove_no_dup(before, i as int);
                }
                self.ports = nums;
                return;
            }
            i = i + 1;
        }
        proof {
            false_if_absent(self.ports@, port);
        }
        assert(self.port_set().remove(port) =~= self.port_set());
    }

    /// Removes the rule on `port` and every process rule matching `command` or
    /// `display_name` (ASCII case-insensitive).
    pub fn remove_matching(&mut self, port: u16, command: &[char], display_name: &[char])
        ensures
            final(self).port_set() == old(self).port_set().remove(port),
            final(self).process_set() == old(self).process_set().filter(
                |n: Seq<char>| !name_matches(n, command@, display_name@),
            ),
    {
        proof {
            use_type_invariant(&*self);
        }
        self.remove_port(port);
        proof {
            use_type_invariant(&*self);
        }
        let ghost procs0 = self.process_set();
        let ghost ports1 = self.ports;
        let mut kept: Vec<String> = Vec::new();
        let mut i: usize = 0;
        while i < self.processes.len()
            invariant
                0 <= i <= self.processes@.len(),
                texts(self.processes@).no_duplicates(),
                self.ports@.no_duplicates(),
                procs0 == texts(self.processes@).to_set(),
                self.ports == ports1,
                texts(kept@).no_duplicates(),
                texts(kept@).to_set() == texts(self.processes@.take(i as int)).to_set().filter(
                    |n: Seq<char>| !name_matches(n, command@, display_name@),
                ),
                forall|k: int|
                    0 <= k < kept@.len() ==> exists|j: int|
                        0 <= j < i && #[trigger] texts(kept@)[k] == texts(self.processes@)[j],
            decreases self.processes@.len() - i,
        {
            let ghost before = texts(kept@);
            let ghost prefix = texts(self.processes@.take(i as int));
            let ghost x = texts(self.processes@)[i as int];
            assert(texts(self.processes@.take(i as int + 1)) =~= prefix.push(x));
            proof {
                lemma_push_to_set(prefix, x);
            }
            if !name_matches_exec(self.processes[i].as_str(), command, display_name) {
                kept.push(self.processes[i].clone());
                assert(texts(kept@) =~= before.push(x));
                proof {
                    assert(!before.contains(x)) by {
                        if before.contains(x) {
                            let k = choose|k: int| 0 <= k < before.len() && before[k] == x;
                            let j = choose|j: int| 0 <= j < i && #[trigger] texts(kept@)[k] == texts(self.processes@)[j];
                            assert(texts(self.processes@)[j] == texts(self.processes@)[i as int]);
                        }
                    }
                    lemma_push_to_set(before, x);
                    lemma_push_no_dup(before, x);
                    assert(texts(kept@).to_set() =~= prefix.push(x).to_set().filter(
                        |n: Seq<char>| !name_matches(n, command@, display_name@),
                    ));
                    assert forall|k: int| 0 <= k < kept@.len() implies exists|j: int|
                        0 <= j < i + 1 && #[trigger] texts(kept@)[k] == texts(self.processes@)[j] by {
                        if k < before.len() {
                            assert(texts(kept@)[k] == before[k]);
                        } else {
                            assert(texts(kept@)[k] == texts(self.processes@)[i as int]);
                        }
                    }
                }
            } else {
                assert(texts(kept@).to_set() =~= prefix.push(x).to_set().filter(
                    |n: Seq<char>| !name_matches(n, command@, display_name@),
                ));
            }
            i = i + 1;
        }
        assert(self.processes@.take(self.processes@.len() as int) =~= self.processes@);
        self.processes = kept;
    }
}

/// The ignore list as it is saved: the rules and the version of the defaults
/// they were last seeded with.
#[derive(Debug, Default)]
pub struct Persisted {
    pub processes: Vec<String>,
    pub ports: Vec<u16>,
    pub seed_version: u32,
}

/// The texts of a list of string slices.
pub open spec fn strs(v: Seq<&str>) -> Seq<Seq<char>> {
    v.map_values(|s: &str| s@)
}

/// The rules a store starts with, given what was read back (`None` when there
/// was nothing readable), the default process names and the current seed
/// version: defaults alone at first launch; the saved rules otherwise, with
/// the defaults merged in when they were seeded by an older version.
pub open spec fn seeded_processes(
    saved: Option<(Set<Seq<char>>, Set<u16>, u32)>,
    defaults: Set<Seq<char>>,
    seed_version: u32,
) -> Set<Seq<char>> {
    match saved {
        None => defaults,
        Some((procs, _, v)) => if v < seed_version {
            procs.union(defaults)
        } else {
            procs
        },
    }
}

pub open spec fn seeded_ports(saved: Option<(Set<Seq<char>>, Set<u16>, u32)>) -> Set<u16> {
    match saved {
        None => Set::empty(),
        Some((_, ports, _)) => ports,
    }
}

/// Whether the seeded rules are to be written back at once.
pub open spec fn seed_needs_save(saved: Option<(Set<Seq<char>>, Set<u16>, u32)>, seed_version: u32) -> bool {
    match saved {
        None => true,
        Some((_, _, v)) => v < seed_version,
    }
}

/// The sets a saved ignore list stands for.
pub open spec fn persisted_sets(p: Option<Persisted>) -> Option<(Set<Seq<char>>, Set<u16>, u32)> {
    match p {
        Some(s) => Some((texts(s.processes@).to_set(), s.ports@.to_set(), s.seed_version)),
        None => None,
    }
}

impl IgnoreRules {
    /// The rules to start from; the flag says whether to save them at once.
    pub fn seeded(saved: Option<Persisted>, defaults: &Vec<&str>, seed_version: u32) -> (r: (
        IgnoreRules,
        bool,
    ))
        ensures
            r.0.process_set() == seeded_processes(
                persisted_sets(saved),
                strs(defaults@).to_set(),
                seed_version,
            ),
            r.0.port_set() == seeded_ports(persisted_sets(saved)),
            r.1 == seed_needs_save(persisted_sets(saved), seed_version),
    {
        match saved {
            None => {
                let rules = IgnoreRules::new(Vec::new(), Vec::new());
                let mut rules = rules;
                assert(texts(Seq::<String>::empty()).to_set() =~= Set::<Seq<char>>::empty());
                assert(Seq::<u16>::empty().to_set() =~= Set::<u16>::empty());
                rules.insert_all(defaults);
                assert(Set::<Seq<char>>::empty().union(strs(defaults@).to_set()) =~= strs(
                    defaults@,
                ).to_set());
                (rules, true)
            },
            Some(s) => {
                let old_seed = s.seed_version;
                let mut rules = IgnoreRules::new(s.processes, s.ports);
                if old_seed < seed_version {
                    rules.insert_all(defaults);
                    (rules, true)
                } else {
                    (rules, false)
                }
            },
        }
    }

    /// Adds every name of `names`.
    pub fn insert_all(&mut self, names: &Vec<&str>)
        ensures
            final(self).process_set() == old(self).process_set().union(strs(names@).to_set()),
            final(self).port_list() == old(self).port_list(),
    {
        let mut i: usize = 0;
        assert(strs(names@.take(0)).to_set() =~= Set::<Seq<char>>::empty());
        assert(old(self).process_set().union(Set::<Seq<char>>::empty()) =~= old(self).process_set());
        while i < names.len()
            invariant
                0 <= i <= names@.len(),
                self.port_list() == old(self).port_list(),
                self.process_set() == old(self).process_set().union(strs(names@.take(i as int)).to_set()),
            decreases names@.len() - i,
        {
            let ghost before = strs(names@.take(i as int));
            self.insert_process(names[i]);
            assert(strs(names@.take(i as int + 1)) =~= before.push(names@[i as int]@));
            proof {
                lemma_push_to_set(before, names@[i as int]@);
            }
            assert(self.process_set() =~= old(self).process_set().union(strs(names@.take(i as int + 1)).to_set()));
            i = i + 1;
        }
        assert(names@.take(names@.len() as int) =~= names@);
    }

    /// The rules in their saved form, stamped with `seed_version`.
    pub fn persisted(&self, seed_version: u32) -> (r: Persisted)
        ensures
            texts(r.processes@) == self.names(),
            r.ports@ == self.port_list(),
            r.seed_version == seed_version,
    {
        let mut processes: Vec<String> = Vec::new();
        let mut i: usize = 0;
        while i < self.processes.len()
            invariant
                0 <= i <= self.processes@.len(),
                texts(processes@) == texts(self.processes@.take(i as int)),
            decreases self.processes@.len() - i,
        {
            let ghost before = texts(processes@);
            let c = self.processes[i].clone();
            assert(c@ == self.processes@[i as int]@);
            processes.push(c);
            assert(texts(processes@) =~= before.push(c@));
            assert(texts(self.processes@.take(i as int + 1)) =~= texts(self.processes@.take(i as int)).push(self.processes@[i as int]@));
            assert(texts(processes@) =~= texts(self.processes@.take(i as int + 1)));
            i = i + 1;
        }
        assert(self.processes@.take(self.processes@.len() as int) =~= self.processes@);
        let mut ports: Vec<u16> = Vec::new();
        let mut j: usize = 0;
        while j < self.ports.len()
            invariant
                0 <= j <= self.ports@.len(),
                ports@ == self.ports@.take(j as int),
            decreases self.ports@.len() - j,
        {
            ports.push(self.ports[j]);
            assert(ports@ =~= self.ports@.take(j as int + 1));
            j = j + 1;
        }
        assert(self.ports@.take(self.ports@.len() as int) =~= self.ports@);
        Persisted { processes, ports, seed_version }
    }
}

/// Ignoring a process name hides every port whose command or display name
/// equals it up to ASCII case.
pub proof fn law_ignore_process_hides(
    procs: Set<Seq<char>>,
    ports: Set<u16>,
    name: Seq<char>,
    port: u16,
    command: Seq<char>,
    display_name: Seq<char>,
)
    requires
        name_matches(name, command, display_name),
    ensures
        spec_ignored(procs.insert(name), ports, port, command, display_name),
{
    assert(procs.insert(name).contains(name));
}

/// Ignoring a port number hides every port with that number.
pub proof fn law_ignore_port_hides(
    procs: Set<Seq<char>>,
    ports: Set<u16>,
    port: u16,
    command: Seq<char>,
    display_name: Seq<char>,
)
    ensures
        spec_ignored(procs, ports.insert(port), port, command, display_name),
{
}

/// After removing the rules that match a port (its number, and every process
/// name equal to its command or display name up to ASCII case), that port is
/// no longer ignored.
pub proof fn law_unignore_matching_reveals(
    procs: Set<Seq<char>>,
    ports: Set<u16>,
    port: u16,
    command: Seq<char>,
    display_name: Seq<char>,
)
    ensures
        !spec_ignored(
            procs.filter(|n: Seq<char>| !name_matches(n, command, display_name)),
            ports.remove(port),
            port,
            command,
            display_name,
        ),
{
}

/// Removing the rules that match one port keeps every process rule that
/// matches neither its command nor its display name, and every other port rule.
pub proof fn law_unignore_matching_keeps_others(
    procs: Set<Seq<char>>,
    ports: Set<u16>,
    port: u16,
    command: Seq<char>,
    display_name: Seq<char>,
    other_name: Seq<char>,
    other_port: u16,
)
    requires
        procs.contains(other_name),
        !name_matches(other_name, command, display_name),
        ports.contains(other_port),
        other_port != port,
    ensures
        procs.filter(|n: Seq<char>| !name_matches(n, command, display_name)).contains(other_name),
        ports.remove(port).contains(other_port),
{
}

/// Un-ignoring a process name that was just ignored, and was not a rule
/// before, gives back the rules as they were.
pub proof fn law_unignore_process_undoes(procs: Set<Seq<char>>, name: Seq<char>)
    requires
        !procs.contains(name),
    ensures
        procs.insert(name).remove(name) == procs,
{
    assert(procs.insert(name).remove(name) =~= procs);
}

/// Un-ignoring a port that was just ignored, and was not a rule before, gives
/// back the rules as they were.
pub proof fn law_unignore_port_undoes(ports: Set<u16>, port: u16)
    requires
        !ports.contains(port),
    ensures
        ports.insert(port).remove(port) == ports,
{
    assert(ports.insert(port).remove(port) =~= ports);
}

/// Ignoring a name or port twice is the same as ignoring it once.
pub proof fn law_ignore_idempotent(procs: Set<Seq<char>>, ports: Set<u16>, name: Seq<char>, port: u16)
    ensures
        procs.insert(name).insert(name) == procs.insert(name),
        ports.insert(port).insert(port) == ports.insert(port),
{
    assert(procs.insert(name).insert(name) =~= procs.insert(name));
    assert(ports.insert(port).insert(port) =~= ports.insert(port));
}

/// Saving the rules and reading the saved list back gives the same rules,
/// with nothing to save again.
pub proof fn law_saved_rules_load_back(r: IgnoreRules, p: Persisted, defaults: Set<Seq<char>>, seed_version: u32)
    requires
        texts(p.processes@) == r.names(),
        p.ports@ == r.port_list(),
        p.seed_version == seed_version,
    ensures
        seeded_processes(persisted_sets(Some(p)), defaults, seed_version) == r.process_set(),
        seeded_ports(persisted_sets(Some(p))) == r.port_set(),
        !seed_needs_save(persisted_sets(Some(p)), seed_version),
{
}

/// `name` matches `command` or `display_name`, ignoring ASCII case.
fn name_matches_exec(name: &str, command: &[char], display_name: &[char]) -> (r: bool)
    ensures
        r == name_matches(name@, command@, display_name@),
{
    let nv = chars_of(name);
    chars_eq_ignore_ascii_case(nv.as_slice(), command) || chars_eq_ignore_ascii_case(
        nv.as_slice(),
        display_name,
    )
}

proof fn false_if_absent<A>(s: Seq<A>, x: A)
    requires
        forall|j: int| 0 <= j < s.len() ==> s[j] != x,
    ensures
        !s.to_set().contains(x),
{
}

pub proof fn lemma_push_to_set<A>(s: Seq<A>, x: A)
    ensures
        s.push(x).to_set() == s.to_set().insert(x),
{
    assert forall|y: A| s.push(x).to_set().contains(y) <==> s.to_set().insert(x).contains(y) by {
        if s.push(x).to_set().contains(y) {
            let j = choose|j: int| 0 <= j < s.push(x).len() && s.push(x)[j] == y;
            if j < s.len() {
                assert(s[j] == y);
            }
        }
        if s.to_set().contains(y) {
            let j = choose|j: int| 0 <= j < s.len() && s[j] == y;
            assert(s.push(x)[j] == y);
        }
        if y == x {
            assert(s.push(x)[s.len() as int] == x);
        }
    }
    assert(s.push(x).to_set() =~= s.to_set().insert(x));
}

proof fn lemma_push_no_dup<A>(s: Seq<A>, x: A)
    requires
        s.no_duplicates(),
        !s.to_set().contains(x),
    ensures
        s.push(x).no_duplicates(),
{
    assert forall|i: int, j: int|
        0 <= i < s.push(x).len() && 0 <= j < s.push(x).len() && i != j implies s.push(x)[i]
        != s.push(x)[j] by {
        if i < s.len() && j == s.len() {
            assert(s.to_set().contains(s[i]));
        }
        if j < s.len() && i == s.len() {
            assert(s.to_set().contains(s[j]));
        }
    }
}

proof fn lemma_remove_no_dup<A>(s: Seq<A>, i: int)
    requires
        s.no_duplicates(),
        0 <= i < s.len(),
    ensures
        s.remove(i).no_duplicates(),
        s.remove(i).to_set() == s.to_set().remove(s[i]),
{
    let r = s.remove(i);
    assert forall|a: int, b: int| 0 <= a < r.len() && 0 <= b < r.len() && a != b implies r[a]
        != r[b] by {
        let a2 = if a < i {
            a
        } else {
            a + 1
        };
        let b2 = if b < i {
            b
        } else {
            b + 1
        };
        assert(r[a] == s[a2]);
        assert(r[b] == s[b2]);
    }
    assert forall|y: A| r.to_set().contains(y) <==> s.to_set().remove(s[i]).contains(y) by {
        if r.to_set().contains(y) {
            let a = choose|a: int| 0 <= a < r.len() && r[a] == y;
            let a2 = if a < i {
                a
            } else {
                a + 1
            };
            assert(s[a2] == y);
        }
        if s.to_set().remove(s[i]).contains(y) {
            let a = choose|a: int| 0 <= a < s.len() && s[a] == y;
            assert(a != i);
            if a < i {
                assert(r[a] == y);
            } else {
                assert(r[a - 1] == y);
            }
        }
    }
    assert(r.to_set() =~= s.to_set().remove(s[i]));
}

} // verus!
