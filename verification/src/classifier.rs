//! Deciding whether a directory is an activatable environment, and of which
//! kind, from what was found in it.

use crate::environment::{EnvKind, Environment, EnvironmentView};
use crate::paths::{base_name, base_name_of, join, joined};
use crate::text::{contains, occurs_in};
use vstd::prelude::*;

verus! {

/// What was found in a candidate directory.
#[derive(Clone, Debug, PartialEq, Eq)]
pub struct Probe {
    /// The activation entry point is there.
    pub entry_point: bool,
    /// The conda marker directory is there.
    pub conda_marker: bool,
    /// The text of the environment's configuration file, where it is there
    /// and could be read.
    pub config: Option<String>,
}

/// The mathematical value of a [`Probe`].
pub struct ProbeView {
    pub entry_point: bool,
    pub conda_marker: bool,
    pub config: Option<Seq<char>>,
}

impl View for Probe {
    type V = ProbeView;

    open spec fn view(&self) -> ProbeView {
        ProbeView {
            entry_point: self.entry_point,
            conda_marker: self.conda_marker,
            config: self.config.deep_view(),
        }
    }
}

impl DeepView for Probe {
    type V = ProbeView;

    open spec fn deep_view(&self) -> ProbeView {
        self@
    }
}

/// The activation entry point of the environment held by `dir`.
pub open spec fn entry_point_of(dir: Seq<char>) -> Seq<char> {
    joined(joined(dir, "Scripts"@), "activate.bat"@)
}

/// The conda marker directory below `dir`.
pub open spec fn conda_marker_of(dir: Seq<char>) -> Seq<char> {
    joined(dir, "conda-meta"@)
}

/// The configuration file below `dir`.
pub open spec fn config_of(dir: Seq<char>) -> Seq<char> {
    joined(dir, "pyvenv.cfg"@)
}

/// The configuration text names the `uv` installer.
pub open spec fn names_uv(config: Option<Seq<char>>) -> bool {
    config matches Some(text) && occurs_in(text, "uv"@)
}

/// The kind that a probe speaks for: the conda marker decides first, then the
/// configuration text, then the entry point.
pub open spec fn kind_of(probe: ProbeView) -> EnvKind {
    if probe.conda_marker {
        EnvKind::Conda
    } else if names_uv(probe.config) {
        EnvKind::Uv
    } else if probe.entry_point {
        EnvKind::Venv
    } else {
        EnvKind::Unknown
    }
}

/// The environment at `path`, if the probe shows one: the entry point must be
/// there and the path must end in a segment, which becomes the name.
pub open spec fn classified(path: Seq<char>, probe: ProbeView) -> Option<EnvironmentView> {
    if !probe.entry_point {
        None
    } else {
        match base_name_of(path) {
            None => None,
            Some(name) => Some(EnvironmentView { name, kind: kind_of(probe), location: path }),
        }
    }
}

/// The path of the activation entry point of the environment held by `dir`.
pub fn entry_point_path(dir: &str) -> (r: String)
    ensures
        r@ == entry_point_of(dir@),
{
    let scripts = join(dir, "Scripts");
    join(scripts.as_str(), "activate.bat")
}

/// The path of the conda marker directory below `dir`.
pub fn conda_marker_path(dir: &str) -> (r: String)
    ensures
        r@ == conda_marker_of(dir@),
{
    join(dir, "conda-meta")
}

/// The path of the configuration file below `dir`.
pub fn config_path(dir: &str) -> (r: String)
    ensures
        r@ == config_of(dir@),
{
    join(dir, "pyvenv.cfg")
}

/// The kind that a probe speaks for.
pub fn detect_kind(probe: &Probe) -> (r: EnvKind)
    ensures
        r == kind_of(probe@),
{
    if probe.conda_marker {
        return EnvKind::Conda;
    }
    match &probe.config {
        Some(text) => {
            if contains(text.as_str(), "uv") {
                return EnvKind::Uv;
            }
        },
        None => {},
    }
    if probe.entry_point {
        EnvKind::Venv
    } else {
        EnvKind::Unknown
    }
}

/// Classifies the directory at `path` from what was found in it.
///
/// Without the entry point there is no environment, whatever else is there.
/// With it there is one, provided that the path ends in a segment to name it
/// by. A conda marker makes it `Conda` whatever the configuration says; with
/// neither a conda marker nor a configuration that names `uv` it is a `Venv`.
pub fn classify(path: &str, probe: &Probe) -> (r: Option<Environment>)
    ensures
        r.deep_view() == classified(path@, probe@),
        !probe.entry_point ==> r is None,
        probe.entry_point && base_name_of(path@) is Some ==> r is Some,
        r matches Some(e) ==> {
            &&& base_name_of(path@) == Some(e.name@)
            &&& e.location@ == path@
            &&& probe.conda_marker ==> e.kind == EnvKind::Conda
            &&& !probe.conda_marker && !names_uv(probe@.config) ==> e.kind == EnvKind::Venv
        },
{
    if !probe.entry_point {
        return None;
    }
    match base_name(path) {
        None => None,
        Some(name) => Some(Environment { name, kind: detect_kind(probe), location: path.to_owned() }),
    }
}

} // verus!
