//! The record of one discovered environment.

use crate::text::{eq_text, lowercase, lowercase_of};
use vstd::prelude::*;

verus! {

/// What made an environment, as far as its files tell.
#[derive(Clone, Copy, Debug, PartialEq, Eq, Structural)]
pub enum EnvKind {
    Venv,
    Conda,
    Uv,
    Unknown,
}

impl EnvKind {
    /// The word that stands for the kind wherever it is written out.
    pub open spec fn label(self) -> Seq<char> {
        match self {
            EnvKind::Venv => "venv"@,
            EnvKind::Conda => "conda"@,
            EnvKind::Uv => "uv"@,
            EnvKind::Unknown => "unknown"@,
        }
    }

    /// The kind that `text` is the label of, if it is one.
    pub open spec fn labelled(text: Seq<char>) -> Option<EnvKind> {
        if text == "venv"@ {
            Some(EnvKind::Venv)
        } else if text == "conda"@ {
            Some(EnvKind::Conda)
        } else if text == "uv"@ {
            Some(EnvKind::Uv)
        } else if text == "unknown"@ {
            Some(EnvKind::Unknown)
        } else {
            None
        }
    }

    /// The label of the kind.
    pub fn as_str(self) -> (r: &'static str)
        ensures
            r@ == self.label(),
    {
        match self {
            EnvKind::Venv => "venv",
            EnvKind::Conda => "conda",
            EnvKind::Uv => "uv",
            EnvKind::Unknown => "unknown",
        }
    }

    /// Reads a label back; `None` for any other text.
    pub fn from_label(text: &str) -> (r: Option<EnvKind>)
        ensures
            r == Self::labelled(text@),
    {
        if eq_text(text, "venv") {
            Some(EnvKind::Venv)
        } else if eq_text(text, "conda") {
            Some(EnvKind::Conda)
        } else if eq_text(text, "uv") {
            Some(EnvKind::Uv)
        } else if eq_text(text, "unknown") {
            Some(EnvKind::Unknown)
        } else {
            None
        }
    }

    /// Every label reads back as the kind it was written for.
    pub proof fn lemma_label_reads_back(self)
        ensures
            Self::labelled(self.label()) == Some(self),
    {
        reveal_strlit("venv");
        reveal_strlit("conda");
        reveal_strlit("uv");
        reveal_strlit("unknown");
        assert("venv"@.len() == 4);
        assert("conda"@.len() == 5);
        assert("uv"@.len() == 2);
        assert("unknown"@.len() == 7);
    }
}

/// One environment: the name it is asked for by, its kind, and the directory
/// that holds it.
#[derive(Clone, Debug, PartialEq, Eq)]
pub struct Environment {
    pub name: String,
    pub kind: EnvKind,
    pub location: String,
}

/// The mathematical value of an [`Environment`].
pub struct EnvironmentView {
    pub name: Seq<char>,
    pub kind: EnvKind,
    pub location: Seq<char>,
}

impl View for Environment {
    type V = EnvironmentView;

    open spec fn view(&self) -> EnvironmentView {
        EnvironmentView { name: self.name@, kind: self.kind, location: self.location@ }
    }
}

impl DeepView for Environment {
    type V = EnvironmentView;

    open spec fn deep_view(&self) -> EnvironmentView {
        self@
    }
}

impl Environment {
    /// A record of the three given fields.
    pub fn new(name: &str, kind: EnvKind, location: &str) -> (r: Environment)
        ensures
            r@ == (EnvironmentView { name: name@, kind, location: location@ }),
    {
        Environment { name: name.to_owned(), kind, location: location.to_owned() }
    }

    /// A second record with the same fields.
    pub fn duplicate(&self) -> (r: Environment)
        ensures
            r@ == self@,
    {
        Environment { name: self.name.clone(), kind: self.kind, location: self.location.clone() }
    }
}

/// The keys by which the names of a list of environments are matched: the
/// lower-case form of each name, in the order of the list.
pub open spec fn keys_of(envs: Seq<EnvironmentView>) -> Seq<Seq<char>> {
    Seq::new(envs.len(), |i: int| lowercase_of(envs[i].name))
}

/// The keys of the names of `envs`.
pub fn name_keys(envs: &Vec<Environment>) -> (r: Vec<String>)
    ensures
        r.deep_view() == keys_of(envs.deep_view()),
{
    let mut keys: Vec<String> = Vec::new();
    let mut i: usize = 0;
    while i < envs.len()
        invariant
            i <= envs.len(),
            keys.len() == i,
            forall|j: int| 0 <= j < i ==> keys@[j]@ == lowercase_of(envs@[j].name@),
        decreases envs.len() - i,
    {
        keys.push(lowercase(envs[i].name.as_str()));
        i += 1;
    }
    assert(keys.deep_view() =~= keys_of(envs.deep_view()));
    keys
}

} // verus!
