//! The rules of the full scan: which entries of the tree are passed over,
//! which files mark an environment, which of the marked directories are
//! looked into, and how what was found there becomes the list of
//! environments.

use crate::classifier::{classified, classify, config_of, names_uv, Probe, ProbeView};
use crate::environment::{EnvKind, Environment, EnvironmentView};
use crate::paths::{
    base_name_of, is_segment, lemma_base_name_of_joined, lemma_parent_of_joined, parent,
    parent_of, trimmed_len,
};
use crate::text::{contains_folded, eq_text, folded, occurs_in};
use vstd::prelude::*;

verus! {

/// A directory entry of this name is passed over by the scan, and nothing
/// below it is visited: its name holds `temp`, `cache` or `tmp` in any ASCII
/// case, or is one of three names known to hold no environment worth finding.
pub open spec fn pruned(name: Seq<char>) -> bool {
    ||| occurs_in(folded(name), "temp"@)
    ||| occurs_in(folded(name), "cache"@)
    ||| occurs_in(folded(name), "tmp"@)
    ||| name == "node_modules"@
    ||| name == "$RECYCLE.BIN"@
    ||| name == "System Volume Information"@
}

/// A file of this name marks the directory that holds it as a candidate.
pub open spec fn marks(name: Seq<char>) -> bool {
    name == "pyvenv.cfg"@
}

/// A directory at this path is not looked into, whatever the walk let
/// through: in any ASCII case the path holds a segment `temp`, `cache` or
/// `tmp` between two `\`, or holds `node_modules` anywhere.
pub open spec fn excluded(path: Seq<char>) -> bool {
    ||| occurs_in(folded(path), "\\temp\\"@)
    ||| occurs_in(folded(path), "\\cache\\"@)
    ||| occurs_in(folded(path), "\\tmp\\"@)
    ||| occurs_in(folded(path), "node_modules"@)
}

/// The directory to look into for a marker file at `marker`: the one that
/// holds the file, unless it is excluded.
pub open spec fn target_of(marker: Seq<char>) -> Option<Seq<char>> {
    match parent_of(marker) {
        None => None,
        Some(dir) => if excluded(dir) {
            None
        } else {
            Some(dir)
        },
    }
}

/// The directories to look into for a list of marker files, in the order of
/// the list.
pub open spec fn targets_of(markers: Seq<Seq<char>>) -> Seq<Seq<char>> {
    markers.filter_map(|m: Seq<char>| target_of(m))
}

/// One directory that was looked into, and what was found there.
pub struct Observation {
    pub location: Seq<char>,
    pub probe: ProbeView,
}

/// The directories `locations` with what was found in each: the probe at an
/// index belongs to the location at that index. A location without a probe,
/// or a probe without a location, is left out.
pub open spec fn observed(locations: Seq<Seq<char>>, probes: Seq<ProbeView>) -> Seq<
    Observation,
> {
    Seq::new(
        if locations.len() <= probes.len() {
            locations.len()
        } else {
            probes.len()
        },
        |i: int| Observation { location: locations[i], probe: probes[i] },
    )
}

/// The environments that a list of observations shows, in the order of the
/// list: each directory that classifies gives one, the others give none.
pub open spec fn environments_of(seen: Seq<Observation>) -> Seq<EnvironmentView> {
    seen.filter_map(|o: Observation| classified(o.location, o.probe))
}

/// What a full scan gives: for the marker files `markers` that the walk
/// found, and the probes `probes` of the directories to look into for them,
/// the environments that those directories hold.
pub open spec fn scanned(markers: Seq<Seq<char>>, probes: Seq<ProbeView>) -> Seq<EnvironmentView> {
    environments_of(observed(targets_of(markers), probes))
}

/// Whether the scan passes over a directory entry of this name.
pub fn is_pruned(name: &str) -> (r: bool)
    ensures
        r == pruned(name@),
{
    contains_folded(name, "temp") || contains_folded(name, "cache") || contains_folded(name, "tmp")
        || eq_text(name, "node_modules") || eq_text(name, "$RECYCLE.BIN") || eq_text(
        name,
        "System Volume Information",
    )
}

/// Whether a file of this name marks a candidate directory.
pub fn is_marker(name: &str) -> (r: bool)
    ensures
        r == marks(name@),
{
    eq_text(name, "pyvenv.cfg")
}

/// Whether a directory at this path is left out of the scan.
pub fn is_excluded(path: &str) -> (r: bool)
    ensures
        r == excluded(path@),
{
    contains_folded(path, "\\temp\\") || contains_folded(path, "\\cache\\") || contains_folded(
        path,
        "\\tmp\\",
    ) || contains_folded(path, "node_modules")
}

/// The directory to look into for the marker file at `marker`, if any.
pub fn scan_target(marker: &str) -> (r: Option<String>)
    ensures
        r.deep_view() == target_of(marker@),
{
    match parent(marker) {
        None => None,
        Some(dir) => {
            if is_excluded(dir.as_str()) {
                None
            } else {
                Some(dir)
            }
        },
    }
}

/// The directories to look into for the marker files that the walk found, in
/// the order in which it found them.
pub fn scan_targets(markers: &Vec<String>) -> (r: Vec<String>)
    ensures
        r.deep_view() == targets_of(markers.deep_view()),
{
    let mut out: Vec<String> = Vec::new();
    let ghost pick = |m: Seq<char>| target_of(m);
    let mut i: usize = 0;
    assert(markers.deep_view().take(0) =~= Seq::<Seq<char>>::empty());
    assert(out.deep_view() =~= Seq::<Seq<char>>::empty());
    while i < markers.len()
        invariant
            i <= markers.len(),
            pick == |m: Seq<char>| target_of(m),
            out.deep_view() == markers.deep_view().take(i as int).filter_map(pick),
        decreases markers.len() - i,
    {
        let ghost before = out.deep_view();
        let ghost seen = markers.deep_view().take(i as int);
        let ghost next = markers.deep_view().take(i + 1);
        assert(next.drop_last() =~= seen);
        assert(next.last() == markers@[i as int]@);
        match scan_target(markers[i].as_str()) {
            Some(dir) => {
                out.push(dir);
                assert(out.deep_view() =~= before + seq![dir@]);
            },
            None => {
                assert(out.deep_view() =~= before);
            },
        }
        i += 1;
    }
    assert(markers.deep_view().take(markers.len() as int) =~= markers.deep_view());
    out
}

/// The environments among the directories `locations`, of which `probes`
/// says what was found in each, in the order of the list. This is where the
/// results of a scan come together: the probes may have been made in any
/// order and by any number of workers.
pub fn collect(locations: &Vec<String>, probes: &Vec<Probe>) -> (r: Vec<Environment>)
    ensures
        r.deep_view() == environments_of(observed(locations.deep_view(), probes.deep_view())),
{
    let mut out: Vec<Environment> = Vec::new();
    let ghost all = observed(locations.deep_view(), probes.deep_view());
    let ghost pick = |o: Observation| classified(o.location, o.probe);
    let count: usize = if locations.len() <= probes.len() {
        locations.len()
    } else {
        probes.len()
    };
    let mut i: usize = 0;
    assert(all.take(0) =~= Seq::<Observation>::empty());
    assert(out.deep_view() =~= Seq::<EnvironmentView>::empty());
    while i < count
        invariant
            i <= count,
            count <= locations.len(),
            count <= probes.len(),
            count == all.len(),
            all == observed(locations.deep_view(), probes.deep_view()),
            pick == |o: Observation| classified(o.location, o.probe),
            out.deep_view() == all.take(i as int).filter_map(pick),
        decreases count - i,
    {
        let ghost before = out.deep_view();
        let ghost next = all.take(i + 1);
        assert(next.drop_last() =~= all.take(i as int));
        assert(next.last().location == locations@[i as int]@);
        assert(next.last().probe == probes@[i as int]@);
        match classify(locations[i].as_str(), &probes[i]) {
            Some(env) => {
                out.push(env);
                assert(out.deep_view() =~= before + seq![env@]);
            },
            None => {
                assert(out.deep_view() =~= before);
            },
        }
        i += 1;
    }
    assert(all.take(all.len() as int) =~= all);
    out
}

/// Every entry of a filtered and mapped list is what some entry of the list
/// was mapped to.
proof fn lemma_filter_map_source<A, B>(s: Seq<A>, f: spec_fn(A) -> Option<B>, k: int) -> (i: int)
    requires
        0 <= k < s.filter_map(f).len(),
    ensures
        0 <= i < s.len(),
        f(s[i]) == Some(s.filter_map(f)[k]),
    decreases s.len(),
{
    let rest = s.drop_last();
    if k < rest.filter_map(f).len() {
        let i = lemma_filter_map_source(rest, f, k);
        assert(rest[i] == s[i]);
        i
    } else {
        s.len() - 1
    }
}

/// What an entry of a list is mapped to is an entry of the filtered and
/// mapped list.
proof fn lemma_filter_map_image<A, B>(s: Seq<A>, f: spec_fn(A) -> Option<B>, i: int) -> (k: int)
    requires
        0 <= i < s.len(),
        f(s[i]) is Some,
    ensures
        0 <= k < s.filter_map(f).len(),
        f(s[i]) == Some(s.filter_map(f)[k]),
    decreases s.len(),
{
    let rest = s.drop_last();
    if i < s.len() - 1 {
        let k = lemma_filter_map_image(rest, f, i);
        assert(rest[i] == s[i]);
        k
    } else {
        rest.filter_map(f).len() as int
    }
}

/// Every directory that the scan looks into holds one of the marker files
/// and is not excluded.
pub proof fn lemma_target_holds_a_marker(markers: Seq<Seq<char>>, j: int) -> (i: int)
    requires
        0 <= j < targets_of(markers).len(),
    ensures
        0 <= i < markers.len(),
        parent_of(markers[i]) == Some(targets_of(markers)[j]),
        !excluded(targets_of(markers)[j]),
{
    lemma_filter_map_source(markers, |m: Seq<char>| target_of(m), j)
}

/// The directory that holds a marker file is looked into, unless it is
/// excluded.
pub proof fn lemma_marker_gives_a_target(markers: Seq<Seq<char>>, i: int) -> (j: int)
    requires
        0 <= i < markers.len(),
        parent_of(markers[i]) matches Some(dir) && !excluded(dir),
    ensures
        0 <= j < targets_of(markers).len(),
        parent_of(markers[i]) == Some(targets_of(markers)[j]),
{
    lemma_filter_map_image(markers, |m: Seq<char>| target_of(m), i)
}

/// The configuration file of a directory is a marker file that lies in that
/// directory, as long as the directory's path is not empty and ends in
/// neither a separator nor a `.` segment.
pub proof fn lemma_marker_lies_in_its_directory(dir: Seq<char>)
    requires
        dir.len() > 0,
        trimmed_len(dir) == dir.len(),
    ensures
        parent_of(config_of(dir)) == Some(dir),
        base_name_of(config_of(dir)) matches Some(name) && marks(name),
{
    reveal_strlit("pyvenv.cfg");
    let name = "pyvenv.cfg"@;
    assert(name.len() == 10);
    assert(is_segment(name)) by {
        assert(name != seq!['.']);
        assert(name != seq!['.', '.']);
    }
    lemma_parent_of_joined(dir, name);
    lemma_base_name_of_joined(dir, name);
}

/// No environment that a full scan gives lies at an excluded path, whatever
/// the walk found and whatever the probes say: its location holds a marker
/// file, and it holds neither `node_modules` anywhere nor a segment `temp`,
/// `cache` or `tmp` between two `\`, in any ASCII case.
pub proof fn lemma_scan_leaves_excluded_out(
    markers: Seq<Seq<char>>,
    probes: Seq<ProbeView>,
    k: int,
) -> (i: int)
    requires
        0 <= k < scanned(markers, probes).len(),
    ensures
        0 <= i < markers.len(),
        parent_of(markers[i]) == Some(scanned(markers, probes)[k].location),
        !excluded(scanned(markers, probes)[k].location),
        !occurs_in(folded(scanned(markers, probes)[k].location), "node_modules"@),
{
    let seen = observed(targets_of(markers), probes);
    let j = lemma_filter_map_source(
        seen,
        |o: Observation| classified(o.location, o.probe),
        k,
    );
    assert(seen[j].location == targets_of(markers)[j]);
    lemma_target_holds_a_marker(markers, j)
}

/// A full scan finds the plain environment: where the walk found the marker
/// file of a directory that is not excluded and ends in a name, and every
/// probe of that directory shows the entry point, no conda marker and no
/// configuration that names `uv`, the scan gives the environment of that
/// name and location, of kind `Venv`.
pub proof fn lemma_scan_finds_plain_environment(
    markers: Seq<Seq<char>>,
    probes: Seq<ProbeView>,
    m: int,
    dir: Seq<char>,
) -> (k: int)
    requires
        0 <= m < markers.len(),
        parent_of(markers[m]) == Some(dir),
        !excluded(dir),
        base_name_of(dir) is Some,
        targets_of(markers).len() <= probes.len(),
        forall|j: int|
            0 <= j < targets_of(markers).len() && targets_of(markers)[j] == dir ==> {
                &&& (#[trigger] probes[j]).entry_point
                &&& !probes[j].conda_marker
                &&& !names_uv(probes[j].config)
            },
    ensures
        0 <= k < scanned(markers, probes).len(),
        scanned(markers, probes)[k] == (EnvironmentView {
            name: base_name_of(dir)->0,
            kind: EnvKind::Venv,
            location: dir,
        }),
{
    let j = lemma_marker_gives_a_target(markers, m);
    let seen = observed(targets_of(markers), probes);
    assert(seen[j].location == dir);
    assert(seen[j].probe == probes[j]);
    lemma_filter_map_image(seen, |o: Observation| classified(o.location, o.probe), j)
}

} // verus!
