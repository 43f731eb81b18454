//! The ordered list of directories in which environments are looked for: the
//! user's own list where one is configured, a fixed list below the home
//! directory otherwise.

use crate::paths::{join, joined};
use crate::text::{replace, replaced};
use vstd::prelude::*;

verus! {

/// The token that stands for the home directory in a configured entry.
pub open spec fn home_token() -> Seq<char> {
    "%USERPROFILE%"@
}

/// An anchor directory followed by its four conventional environment
/// directories.
pub open spec fn variants_of(anchor: Seq<char>) -> Seq<Seq<char>> {
    seq![
        anchor,
        joined(anchor, ".venv"@),
        joined(anchor, "venv"@),
        joined(anchor, ".venvs"@),
        joined(anchor, "venvs"@),
    ]
}

/// The directory `code` below the home directory.
pub open spec fn code_of(home: Seq<char>) -> Seq<char> {
    joined(home, "code"@)
}

/// The directory `code\python` below the home directory.
pub open spec fn code_python_of(home: Seq<char>) -> Seq<char> {
    joined(code_of(home), "python"@)
}

/// The directory into which programs are installed for one user.
pub open spec fn programs_of(home: Seq<char>) -> Seq<char> {
    joined(joined(joined(home, "AppData"@), "Local"@), "Programs"@)
}

/// The directory into which Python is installed for one user.
pub open spec fn programs_python_of(home: Seq<char>) -> Seq<char> {
    joined(programs_of(home), "Python"@)
}

/// The fixed list: five anchors below `home`, each followed by its variants.
pub open spec fn predefined_of(home: Seq<char>) -> Seq<Seq<char>> {
    variants_of(home) + variants_of(code_of(home)) + variants_of(code_python_of(home))
        + variants_of(programs_of(home)) + variants_of(programs_python_of(home))
}

/// The configured entries with the home token replaced by `home` in each.
pub open spec fn expanded(entries: Seq<Seq<char>>, home: Seq<char>) -> Seq<Seq<char>> {
    Seq::new(entries.len(), |i: int| replaced(entries[i], home_token(), home))
}

/// The fixed list for a home directory that may be unknown: empty then.
pub open spec fn fallback_of(home: Option<Seq<char>>) -> Seq<Seq<char>> {
    match home {
        Some(h) => predefined_of(h),
        None => Seq::empty(),
    }
}

/// The search list. Where the home directory is not known it is empty,
/// whatever is configured. Otherwise it is the configured entries, expanded,
/// where there is at least one, and the fixed list where there is none.
pub open spec fn search_dirs_of(home: Option<Seq<char>>, configured: Option<Seq<Seq<char>>>) -> Seq<
    Seq<char>,
> {
    match home {
        None => Seq::empty(),
        Some(h) => match configured {
            Some(entries) => if entries.len() > 0 {
                expanded(entries, h)
            } else {
                predefined_of(h)
            },
            None => predefined_of(h),
        },
    }
}

/// The configuration file: `.config\python_venv_config.toml` below the home
/// directory.
pub open spec fn config_file_of(home: Seq<char>) -> Seq<char> {
    joined(joined(home, ".config"@), "python_venv_config.toml"@)
}

/// The cache file: `python_venv_cache.txt` below the temporary directory.
pub open spec fn cache_file_of(temp: Seq<char>) -> Seq<char> {
    joined(temp, "python_venv_cache.txt"@)
}

/// Appends an anchor and its four variants to `out`.
fn push_variants(out: &mut Vec<String>, anchor: &str)
    ensures
        final(out).deep_view() == old(out).deep_view() + variants_of(anchor@),
{
    let ghost before = out.deep_view();
    out.push(anchor.to_owned());
    out.push(join(anchor, ".venv"));
    out.push(join(anchor, "venv"));
    out.push(join(anchor, ".venvs"));
    out.push(join(anchor, "venvs"));
    assert(out.deep_view() =~= before + variants_of(anchor@));
}

/// The fixed list of directories below `home`; empty where the home directory
/// is not known.
pub fn predefined_dirs(home: Option<&str>) -> (r: Vec<String>)
    ensures
        r.deep_view() == fallback_of(home.deep_view()),
        home is Some ==> r.len() == 25,
        home is None ==> r.len() == 0,
{
    let mut out: Vec<String> = Vec::new();
    match home {
        None => {
            assert(out.deep_view() =~= Seq::<Seq<char>>::empty());
        },
        Some(h) => {
            assert(out.deep_view() =~= Seq::<Seq<char>>::empty());
            let code = join(h, "code");
            let code_python = join(code.as_str(), "python");
            let app_data = join(h, "AppData");
            let local = join(app_data.as_str(), "Local");
            let programs = join(local.as_str(), "Programs");
            let programs_python = join(programs.as_str(), "Python");
            push_variants(&mut out, h);
            push_variants(&mut out, code.as_str());
            push_variants(&mut out, code_python.as_str());
            push_variants(&mut out, programs.as_str());
            push_variants(&mut out, programs_python.as_str());
            assert(out.deep_view() =~= predefined_of(h@));
            assert(out.deep_view().len() == 25);
        },
    }
    out
}

/// One configured entry with the home token replaced by `home`.
pub fn expand_home(entry: &str, home: &str) -> (r: String)
    ensures
        r@ == replaced(entry@, home_token(), home@),
{
    replace(entry, "%USERPROFILE%", home)
}

/// The directories to search, in order.
///
/// `configured` is the list that the user's configuration declares, where
/// there is a configuration that could be read and that declares one. Its
/// entries are taken as they are, but for the home token; nothing is tested
/// for existence. Without a home directory nothing is searched.
pub fn search_dirs(home: Option<&str>, configured: Option<&Vec<String>>) -> (r: Vec<String>)
    ensures
        r.deep_view() == search_dirs_of(home.deep_view(), configured.deep_view()),
        home is None ==> r.len() == 0,
{
    let h: &str = match home {
        Some(h) => h,
        None => {
            let none: Vec<String> = Vec::new();
            assert(none.deep_view() =~= Seq::<Seq<char>>::empty());
            return none;
        },
    };
    match configured {
        Some(entries) => {
            if entries.len() > 0 {
                let mut out: Vec<String> = Vec::new();
                let mut i: usize = 0;
                while i < entries.len()
                    invariant
                        i <= entries.len(),
                        out.len() == i,
                        forall|j: int|
                            0 <= j < i ==> out@[j]@ == replaced(entries@[j]@, home_token(), h@),
                    decreases entries.len() - i,
                {
                    out.push(expand_home(entries[i].as_str(), h));
                    i += 1;
                }
                assert(out.deep_view() =~= expanded(entries.deep_view(), h@));
                return out;
            }
        },
        None => {},
    }
    predefined_dirs(home)
}

/// The path of the configuration file; none where the home directory is not
/// known, for then there is no place to look for one.
pub fn config_file(home: Option<&str>) -> (r: Option<String>)
    ensures
        r.deep_view() == (match home.deep_view() {
            Some(h) => Some(config_file_of(h)),
            None => None,
        }),
{
    match home {
        Some(h) => {
            let dir = join(h, ".config");
            Some(join(dir.as_str(), "python_venv_config.toml"))
        },
        None => None,
    }
}

/// The path of the cache file.
pub fn cache_file(temp: &str) -> (r: String)
    ensures
        r@ == cache_file_of(temp@),
{
    join(temp, "python_venv_cache.txt")
}

} // verus!
