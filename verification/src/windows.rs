//! Discovery on a Windows-like host: every shell of the catalog is looked for
//! in the directories of the search path, and a shell counts as found at the
//! first directory that holds its executable.
//!
//! Probing a file is the caller's work. `Probe` holds the decisions: it names
//! the next file to probe, takes the answer, and ends with the shells found.

use vstd::prelude::*;
use crate::catalog::{catalog, display_catalog, display_name, display_name_of, known_shell};
use crate::catalog::{lemma_display_names_differ, lemma_display_of_catalog, KNOWN_SHELL_COUNT};
use crate::search_path::{candidate, candidate_path, search_directories, search_directories_of};
use crate::text::texts;

verus! {

/// Whether the `d`-th directory of `dirs` holds the executable `exe`, where
/// `files` are the files that exist.
pub open spec fn hit(dirs: Seq<Seq<char>>, exe: Seq<char>, files: Set<Seq<char>>, d: int) -> bool {
    0 <= d < dirs.len() && files.contains(candidate(dirs[d], exe))
}

/// Whether some directory of `dirs` holds the executable `exe`.
pub open spec fn found_in(dirs: Seq<Seq<char>>, exe: Seq<char>, files: Set<Seq<char>>) -> bool {
    exists|d: int| hit(dirs, exe, files, d)
}

/// `found_in` as a predicate on executables.
pub open spec fn is_found(dirs: Seq<Seq<char>>, files: Set<Seq<char>>) -> spec_fn(Seq<char>) -> bool {
    |exe: Seq<char>| found_in(dirs, exe, files)
}

/// The display names of those executables of `entries` that some directory
/// holds, in the order of `entries`.
pub open spec fn found_among(
    entries: Seq<Seq<char>>,
    dirs: Seq<Seq<char>>,
    files: Set<Seq<char>>,
) -> Seq<Seq<char>> {
    entries.filter(is_found(dirs, files)).map_values(|exe: Seq<char>| display_name(exe))
}

/// What discovery reports for the search directories `dirs` on a host where
/// exactly `files` exist.
pub open spec fn found_shells(dirs: Seq<Seq<char>>, files: Set<Seq<char>>) -> Seq<Seq<char>> {
    found_among(catalog(), dirs, files)
}

/// One more entry adds its display name where it is found, and nothing
/// where it is not.
pub proof fn lemma_found_among_push(
    entries: Seq<Seq<char>>,
    exe: Seq<char>,
    dirs: Seq<Seq<char>>,
    files: Set<Seq<char>>,
)
    ensures
        found_among(entries.push(exe), dirs, files) == if found_in(dirs, exe, files) {
            found_among(entries, dirs, files).push(display_name(exe))
        } else {
            found_among(entries, dirs, files)
        },
{
    entries.lemma_filter_push(exe, is_found(dirs, files));
    if found_in(dirs, exe, files) {
        assert(found_among(entries.push(exe), dirs, files) =~= found_among(
            entries,
            dirs,
            files,
        ).push(display_name(exe)));
    }
}

/// The state of a discovery that is under way.
pub struct ProbeState {
    /// The search directories.
    pub dirs: Seq<Seq<char>>,
    /// The place in the catalog of the shell that is being looked for.
    pub shell: int,
    /// The place in `dirs` of the directory that is probed next.
    pub dir: int,
    /// The display names of the shells found so far.
    pub found: Seq<Seq<char>>,
}

impl ProbeState {
    /// The state before the first probe. Without a directory there is
    /// nothing to probe, and the discovery is over at once.
    pub open spec fn initial(dirs: Seq<Seq<char>>) -> ProbeState {
        ProbeState {
            dirs,
            shell: if dirs.len() == 0 {
                KNOWN_SHELL_COUNT as int
            } else {
                0
            },
            dir: 0,
            found: Seq::empty(),
        }
    }

    /// Whether every shell of the catalog has been dealt with.
    pub open spec fn done(self) -> bool {
        self.shell >= KNOWN_SHELL_COUNT
    }

    /// The state names a shell of the catalog and a search directory, or is done.
    pub open spec fn wf(self) -> bool {
        &&& 0 <= self.shell <= KNOWN_SHELL_COUNT
        &&& !self.done() ==> 0 <= self.dir < self.dirs.len()
        &&& self.done() ==> self.dir == 0
    }

    /// The file to probe next.
    pub open spec fn pending(self) -> Seq<char>
        recommends
            self.wf(),
            !self.done(),
    {
        candidate(self.dirs[self.dir], catalog()[self.shell])
    }

    /// The state after the answer to the pending probe. A file that exists
    /// settles the current shell: it is reported, and the next shell starts at
    /// the first directory. One that does not moves on to the next directory,
    /// or to the next shell after the last directory. A finished discovery
    /// stays as it is.
    pub open spec fn advance(self, exists: bool) -> ProbeState {
        if self.done() {
            self
        } else if exists {
            ProbeState {
                shell: self.shell + 1,
                dir: 0,
                found: self.found.push(display_name(catalog()[self.shell])),
                ..self
            }
        } else if self.dir + 1 < self.dirs.len() {
            ProbeState { dir: self.dir + 1, ..self }
        } else {
            ProbeState { shell: self.shell + 1, dir: 0, ..self }
        }
    }

    /// The probes that are left at most.
    pub open spec fn probes_left(self) -> int {
        (KNOWN_SHELL_COUNT - self.shell) * self.dirs.len() - self.dir
    }

    /// Whether the state is what discovery reaches on a host where exactly
    /// `files` exist: the shells before the current one are reported as far as
    /// they are found, and the current one is in none of the directories
    /// probed so far.
    pub open spec fn agrees(self, files: Set<Seq<char>>) -> bool {
        &&& self.found == found_among(catalog().take(self.shell), self.dirs, files)
        &&& !self.done() ==> forall|d: int|
            0 <= d < self.dir ==> !hit(self.dirs, catalog()[self.shell], files, d)
    }
}

/// Without a search directory no shell is found.
pub proof fn lemma_no_directory_no_shell(entries: Seq<Seq<char>>, files: Set<Seq<char>>)
    ensures
        found_among(entries, Seq::empty(), files) == Seq::<Seq<char>>::empty(),
{
    let dirs = Seq::<Seq<char>>::empty();
    assert forall|exe: Seq<char>| !found_in(dirs, exe, files) by {
        assert forall|d: int| !hit(dirs, exe, files, d) by {}
    }
    entries.lemma_all_neg_filter_empty(is_found(dirs, files));
    assert(found_among(entries, dirs, files) =~= Seq::<Seq<char>>::empty());
}

/// The initial state is well formed and agrees with every host.
pub proof fn lemma_initial_agrees(dirs: Seq<Seq<char>>, files: Set<Seq<char>>)
    ensures
        ProbeState::initial(dirs).wf(),
        ProbeState::initial(dirs).agrees(files),
{
    let s = ProbeState::initial(dirs);
    if dirs.len() == 0 {
        assert(dirs =~= Seq::empty());
        lemma_no_directory_no_shell(catalog().take(s.shell), files);
    } else {
        assert(catalog().take(0) =~= Seq::empty());
        reveal(Seq::filter);
        assert(found_among(Seq::empty(), dirs, files) =~= Seq::<Seq<char>>::empty());
    }
}

/// An answer that tells the truth about the pending file keeps the state well
/// formed and in agreement with the host, and leaves fewer probes.
pub proof fn lemma_advance_agrees(s: ProbeState, exists: bool, files: Set<Seq<char>>)
    requires
        s.wf(),
        !s.done(),
        s.agrees(files),
        exists == files.contains(s.pending()),
    ensures
        s.advance(exists).wf(),
        s.advance(exists).agrees(files),
        s.advance(exists).dirs == s.dirs,
        0 <= s.advance(exists).probes_left() < s.probes_left(),
{
    let t = s.advance(exists);
    let exe = catalog()[s.shell];
    let n = s.dirs.len() as int;
    let left = KNOWN_SHELL_COUNT - s.shell;
    assert(left * n - n == (left - 1) * n) by (nonlinear_arith);
    assert((left - 1) * n >= 0) by (nonlinear_arith)
        requires
            left >= 1,
            n >= 0,
    ;
    if t.shell == s.shell + 1 {
        assert(catalog().take(t.shell) =~= catalog().take(s.shell).push(exe));
        lemma_found_among_push(catalog().take(s.shell), exe, s.dirs, files);
        if exists {
            assert(hit(s.dirs, exe, files, s.dir));
        } else {
            assert forall|d: int| !hit(s.dirs, exe, files, d) by {}
        }
    }
}

/// A finished discovery that agrees with the host has found what
/// `found_shells` says.
pub proof fn lemma_done_found(s: ProbeState, files: Set<Seq<char>>)
    requires
        s.wf(),
        s.done(),
        s.agrees(files),
    ensures
        s.found == found_shells(s.dirs, files),
{
    lemma_display_of_catalog();
    assert(catalog().take(s.shell) =~= catalog());
}

/// What a search path holds: its text, or nothing where the host has none.
pub open spec fn path_text(search_path: Option<&str>) -> Seq<char> {
    match search_path {
        Some(path) => path@,
        None => Seq::empty(),
    }
}

/// A discovery that is under way: it names the file to probe, takes the
/// answer, and so works through the catalog.
pub struct Probe {
    dirs: Vec<String>,
    shell: usize,
    dir: usize,
    found: Vec<String>,
}

impl View for Probe {
    type V = ProbeState;

    closed spec fn view(&self) -> ProbeState {
        ProbeState {
            dirs: texts(self.dirs@),
            shell: self.shell as int,
            dir: self.dir as int,
            found: texts(self.found@),
        }
    }
}

impl Probe {
    /// Starts a discovery over the directories of `search_path`. A host
    /// without a search path has no directories.
    pub fn start(search_path: Option<&str>) -> (probe: Probe)
        ensures
            probe@ == ProbeState::initial(search_directories(path_text(search_path))),
            probe@.wf(),
    {
        let dirs = match search_path {
            Some(path) => search_directories_of(path),
            None => {
                let none: Vec<String> = Vec::new();
                assert(texts(none@) =~= search_directories(Seq::empty()));
                none
            },
        };
        let shell: usize = if dirs.len() == 0 {
            KNOWN_SHELL_COUNT
        } else {
            0
        };
        let found: Vec<String> = Vec::new();
        assert(texts(found@) =~= Seq::<Seq<char>>::empty());
        Probe { dirs, shell, dir: 0, found }
    }

    /// Whether nothing is left to probe.
    pub fn is_done(&self) -> (done: bool)
        ensures
            done == self@.done(),
    {
        self.shell >= KNOWN_SHELL_COUNT
    }

    /// The path of the file to probe next; `None` once the discovery is done.
    pub fn pending(&self) -> (path: Option<String>)
        requires
            self@.wf(),
        ensures
            self@.done() ==> path is None,
            !self@.done() ==> path is Some && path->0@ == self@.pending(),
    {
        match known_shell(self.shell) {
            Some(exe) => Some(candidate_path(self.dirs[self.dir].as_str(), exe)),
            None => None,
        }
    }

    /// Takes the answer to the pending probe: whether the file exists.
    pub fn answer(&mut self, exists: bool)
        requires
            old(self)@.wf(),
        ensures
            final(self)@ == old(self)@.advance(exists),
            final(self)@.wf(),
    {
        assert(texts(self.dirs@).len() == self.dirs.len());
        match known_shell(self.shell) {
            Some(exe) => {
                if exists {
                    let name = display_name_of(exe);
                    assert(texts(self.found@.push(name)) =~= texts(self.found@).push(name@));
                    self.found.push(name);
                    self.shell = self.shell + 1;
                    self.dir = 0;
                } else if self.dir + 1 < self.dirs.len() {
                    self.dir = self.dir + 1;
                } else {
                    self.shell = self.shell + 1;
                    self.dir = 0;
                }
            },
            None => {},
        }
    }

    /// The shells found so far, by display name and in catalog order.
    pub fn into_shells(self) -> (out: Vec<String>)
        ensures
            texts(out@) == self@.found,
    {
        self.found
    }
}

/// Whether `path` is one of `existing`.
pub fn is_listed(existing: &Vec<String>, path: &String) -> (listed: bool)
    ensures
        listed == texts(existing@).contains(path@),
{
    let mut i: usize = 0;
    while i < existing.len()
        invariant
            i <= existing.len(),
            forall|j: int| 0 <= j < i ==> texts(existing@)[j] != path@,
        decreases existing.len() - i,
    {
        if existing[i] == *path {
            assert(texts(existing@)[i as int] == path@);
            return true;
        }
        i += 1;
    }
    false
}

/// The shells of a Windows-like host whose search path is `search_path` and on
/// which, of all files that discovery probes, exactly those of `existing`
/// exist. The shells come by display name, in catalog order.
pub fn windows_shells(search_path: Option<&str>, existing: &Vec<String>) -> (out: Vec<String>)
    ensures
        texts(out@) == found_shells(
            search_directories(path_text(search_path)),
            texts(existing@).to_set(),
        ),
{
    let ghost dirs = search_directories(path_text(search_path));
    let ghost files = texts(existing@).to_set();
    let mut probe = Probe::start(search_path);
    proof {
        lemma_initial_agrees(dirs, files);
    }
    loop
        invariant
            probe@.wf(),
            probe@.agrees(files),
            probe@.dirs == dirs,
            files == texts(existing@).to_set(),
        ensures
            probe@.done(),
        decreases probe@.probes_left(),
    {
        match probe.pending() {
            Some(path) => {
                let exists = is_listed(existing, &path);
                proof {
                    lemma_advance_agrees(probe@, exists, files);
                }
                probe.answer(exists);
            },
            None => {
                break ;
            },
        }
    }
    proof {
        lemma_done_found(probe@, files);
    }
    probe.into_shells()
}

/// The place in the catalog of the shell that is shown as `name`.
pub open spec fn catalog_place(name: Seq<char>) -> int {
    choose|m: int| 0 <= m < KNOWN_SHELL_COUNT && display_catalog()[m] == name
}

/// The shell at place `m` of the catalog is shown under a name that belongs
/// to that place alone.
pub proof fn lemma_catalog_place(m: int)
    requires
        0 <= m < KNOWN_SHELL_COUNT,
    ensures
        display_name(catalog()[m]) == display_catalog()[m],
        catalog_place(display_catalog()[m]) == m,
{
    lemma_display_of_catalog();
    lemma_display_names_differ();
    let name = display_catalog()[m];
    let p = catalog_place(name);
    assert(0 <= p < KNOWN_SHELL_COUNT && display_catalog()[p] == name);
}

/// What is found among the first `k` shells of the catalog: names of found
/// shells from those places only, in rising places, and none left out.
proof fn lemma_found_prefix(dirs: Seq<Seq<char>>, files: Set<Seq<char>>, k: int)
    requires
        0 <= k <= KNOWN_SHELL_COUNT,
    ensures
        ({
            let r = found_among(catalog().take(k), dirs, files);
            &&& forall|j: int|
                0 <= j < r.len() ==> {
                    let m = catalog_place(#[trigger] r[j]);
                    &&& 0 <= m < k
                    &&& display_catalog()[m] == r[j]
                    &&& found_in(dirs, catalog()[m], files)
                }
            &&& forall|a: int, b: int|
                0 <= a < b < r.len() ==> catalog_place(#[trigger] r[a]) < catalog_place(
                    #[trigger] r[b],
                )
            &&& forall|m: int|
                0 <= m < k && found_in(dirs, catalog()[m], files) ==> r.contains(
                    #[trigger] display_catalog()[m],
                )
        }),
    decreases k,
{
    lemma_display_of_catalog();
    let r = found_among(catalog().take(k), dirs, files);
    if k == 0 {
        reveal(Seq::filter);
        assert(catalog().take(0) =~= Seq::empty());
        assert(r =~= Seq::empty());
    } else {
        let before = found_among(catalog().take(k - 1), dirs, files);
        let exe = catalog()[k - 1];
        lemma_found_prefix(dirs, files, k - 1);
        assert(catalog().take(k) =~= catalog().take(k - 1).push(exe));
        lemma_found_among_push(catalog().take(k - 1), exe, dirs, files);
        lemma_catalog_place(k - 1);
        assert forall|m: int|
            0 <= m < k && found_in(dirs, catalog()[m], files) implies r.contains(
            #[trigger] display_catalog()[m],
        ) by {
            if m < k - 1 {
                assert(before.contains(display_catalog()[m]));
                let j = choose|j: int| 0 <= j < before.len() && before[j] == display_catalog()[m];
                assert(r[j] == display_catalog()[m]);
            } else {
                assert(r[r.len() - 1] == display_catalog()[m]);
            }
        }
    }
}

/// Every shell of the catalog that some search directory holds is reported,
/// under its display name; nothing else is reported; and the reported names
/// stand in catalog order, so that none occurs twice.
pub proof fn lemma_found_once_in_catalog_order(dirs: Seq<Seq<char>>, files: Set<Seq<char>>)
    ensures
        forall|m: int|
            0 <= m < KNOWN_SHELL_COUNT ==> (found_in(dirs, #[trigger] catalog()[m], files)
                <==> found_shells(dirs, files).contains(display_name(catalog()[m]))),
        forall|j: int|
            0 <= j < found_shells(dirs, files).len() ==> {
                let m = catalog_place(#[trigger] found_shells(dirs, files)[j]);
                &&& 0 <= m < KNOWN_SHELL_COUNT
                &&& found_shells(dirs, files)[j] == display_name(catalog()[m])
                &&& found_in(dirs, catalog()[m], files)
            },
        forall|a: int, b: int|
            0 <= a < b < found_shells(dirs, files).len() ==> catalog_place(
                #[trigger] found_shells(dirs, files)[a],
            ) < catalog_place(#[trigger] found_shells(dirs, files)[b]),
        found_shells(dirs, files).no_duplicates(),
        found_shells(dirs, files).len() <= KNOWN_SHELL_COUNT,
{
    let r = found_shells(dirs, files);
    lemma_display_of_catalog();
    lemma_found_prefix(dirs, files, KNOWN_SHELL_COUNT as int);
    assert(catalog().take(KNOWN_SHELL_COUNT as int) =~= catalog());
    assert forall|m: int| 0 <= m < KNOWN_SHELL_COUNT implies (found_in(
        dirs,
        #[trigger] catalog()[m],
        files,
    ) <==> r.contains(display_name(catalog()[m]))) by {
        lemma_catalog_place(m);
        if found_in(dirs, catalog()[m], files) {
            assert(r.contains(display_catalog()[m]));
        }
        if r.contains(display_name(catalog()[m])) {
            let j = choose|j: int| 0 <= j < r.len() && r[j] == display_catalog()[m];
            assert(catalog_place(r[j]) == m);
        }
    }
    catalog().lemma_filter_len(is_found(dirs, files));
}

/// Without a search path, or with an empty one, no shell is found, whatever
/// files exist.
pub proof fn lemma_empty_search_path_finds_nothing(files: Set<Seq<char>>)
    ensures
        found_shells(search_directories(path_text(None)), files) == Seq::<Seq<char>>::empty(),
        found_shells(search_directories(Seq::empty()), files) == Seq::<Seq<char>>::empty(),
{
    lemma_no_directory_no_shell(catalog(), files);
}

/// Where no search directory holds a shell of the catalog, no shell is found:
/// a search path that names no usable directory gives the empty result.
pub proof fn lemma_no_hit_finds_nothing(dirs: Seq<Seq<char>>, files: Set<Seq<char>>)
    requires
        forall|m: int, d: int|
            0 <= m < KNOWN_SHELL_COUNT ==> !#[trigger] hit(dirs, catalog()[m], files, d),
    ensures
        found_shells(dirs, files) == Seq::<Seq<char>>::empty(),
{
    lemma_found_once_in_catalog_order(dirs, files);
    let r = found_shells(dirs, files);
    if r.len() > 0 {
        let m = catalog_place(r[0]);
        assert(found_in(dirs, catalog()[m], files));
        let d = choose|d: int| hit(dirs, catalog()[m], files, d);
        assert(hit(dirs, catalog()[m], files, d));
    }
    assert(r =~= Seq::<Seq<char>>::empty());
}

/// Discovery depends on the host only through the files that it probes: two
/// hosts that agree on every file probed for a shell of the catalog in a
/// directory of `dirs` have the same shells.
pub proof fn lemma_same_probes_same_shells(
    dirs: Seq<Seq<char>>,
    files: Set<Seq<char>>,
    other: Set<Seq<char>>,
)
    requires
        forall|m: int, d: int|
            0 <= m < KNOWN_SHELL_COUNT ==> (#[trigger] hit(dirs, catalog()[m], files, d) <==> hit(
                dirs,
                catalog()[m],
                other,
                d,
            )),
    ensures
        found_shells(dirs, files) == found_shells(dirs, other),
{
    lemma_same_probes_same_prefix(dirs, files, other, KNOWN_SHELL_COUNT as int);
    lemma_display_of_catalog();
    assert(catalog().take(KNOWN_SHELL_COUNT as int) =~= catalog());
}

proof fn lemma_same_probes_same_prefix(
    dirs: Seq<Seq<char>>,
    files: Set<Seq<char>>,
    other: Set<Seq<char>>,
    k: int,
)
    requires
        0 <= k <= KNOWN_SHELL_COUNT,
        forall|m: int, d: int|
            0 <= m < KNOWN_SHELL_COUNT ==> (#[trigger] hit(dirs, catalog()[m], files, d) <==> hit(
                dirs,
                catalog()[m],
                other,
                d,
            )),
    ensures
        found_among(catalog().take(k), dirs, files) == found_among(catalog().take(k), dirs, other),
    decreases k,
{
    lemma_display_of_catalog();
    if k == 0 {
        reveal(Seq::filter);
        assert(catalog().take(0) =~= Seq::empty());
        assert(found_among(Seq::empty(), dirs, files) =~= found_among(Seq::empty(), dirs, other));
    } else {
        let exe = catalog()[k - 1];
        lemma_same_probes_same_prefix(dirs, files, other, k - 1);
        assert(catalog().take(k) =~= catalog().take(k - 1).push(exe));
        lemma_found_among_push(catalog().take(k - 1), exe, dirs, files);
        lemma_found_among_push(catalog().take(k - 1), exe, dirs, other);
        if found_in(dirs, exe, files) {
            let d = choose|d: int| hit(dirs, exe, files, d);
            assert(hit(dirs, exe, other, d));
        }
        if found_in(dirs, exe, other) {
            let d = choose|d: int| hit(dirs, exe, other, d);
            assert(hit(dirs, exe, files, d));
        }
    }
}

} // verus!
