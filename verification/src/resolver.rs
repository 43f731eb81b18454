//! Finding one environment by name: first among the cached records, then
//! below the search directories, first match first.
//!
//! The resolver never touches the file system. It says what it needs to know
//! next (a [`Request`]), is told (an [`Answer`]), and in the end says what it
//! found. The caller does the looking. What the resolver finds in a given
//! state of the file system (a [`World`]) is `outcome`, and the laws at the
//! end of this file are stated of it.
//!
//! Names are matched by their keys: the key of a name is its lower-case form,
//! and a cached record answers to the wanted name where the two keys are the
//! same text. `Resolver::start` makes the keys; `Resolver::start_with` takes
//! them as they are given.

use crate::classifier::{classified, classify, entry_point_of, entry_point_path, Probe, ProbeView};
use crate::environment::{Environment, EnvironmentView};
use crate::paths::{join, joined};
use crate::environment::{keys_of, name_keys};
use crate::text::{eq_text, lowercase, lowercase_of, same_ignoring_case};
use vstd::prelude::*;

verus! {

/// What the resolver needs to know next, or what it found.
#[derive(Clone, Debug, PartialEq, Eq)]
pub enum Request {
    /// Is there a file at `path`? It is the activation entry point of a
    /// cached record of the wanted name.
    EntryPoint { path: String },
    /// What is at `location`? It is where the wanted environment would be
    /// below a search directory.
    Inspect { location: String },
    /// Nothing more: the search is over, with this result.
    Finished { found: Option<Environment> },
}

/// The mathematical value of a [`Request`].
pub enum RequestView {
    EntryPoint { path: Seq<char> },
    Inspect { location: Seq<char> },
    Finished { found: Option<EnvironmentView> },
}

impl View for Request {
    type V = RequestView;

    open spec fn view(&self) -> RequestView {
        match self {
            Request::EntryPoint { path } => RequestView::EntryPoint { path: path@ },
            Request::Inspect { location } => RequestView::Inspect { location: location@ },
            Request::Finished { found } => RequestView::Finished { found: found.deep_view() },
        }
    }
}

/// What the caller found out.
#[derive(Clone, Debug, PartialEq, Eq)]
pub enum Answer {
    /// To `EntryPoint`: whether the file is there.
    Exists(bool),
    /// To `Inspect`: what was found in the directory, or `None` where there
    /// is no such directory.
    Inspected(Option<Probe>),
}

/// The mathematical value of an [`Answer`].
pub enum AnswerView {
    Exists(bool),
    Inspected(Option<ProbeView>),
}

impl View for Answer {
    type V = AnswerView;

    open spec fn view(&self) -> AnswerView {
        match self {
            Answer::Exists(there) => AnswerView::Exists(*there),
            Answer::Inspected(probe) => AnswerView::Inspected(probe.deep_view()),
        }
    }
}

/// A search in progress.
pub struct Resolver {
    name: String,
    key: String,
    cache: Vec<Environment>,
    keys: Vec<String>,
    dirs: Vec<String>,
    passed: usize,
    visited: usize,
    found: Option<Environment>,
}

/// The mathematical value of a [`Resolver`]: the wanted name and its key, the
/// cached records and their keys, the search directories, how many cached
/// records are done with, how many directories were visited in vain, and what
/// was found.
pub struct ResolverView {
    pub name: Seq<char>,
    pub key: Seq<char>,
    pub cache: Seq<EnvironmentView>,
    pub keys: Seq<Seq<char>>,
    pub dirs: Seq<Seq<char>>,
    pub passed: nat,
    pub visited: nat,
    pub found: Option<EnvironmentView>,
}

impl View for Resolver {
    type V = ResolverView;

    closed spec fn view(&self) -> ResolverView {
        ResolverView {
            name: self.name@,
            key: self.key@,
            cache: self.cache.deep_view(),
            keys: self.keys.deep_view(),
            dirs: self.dirs.deep_view(),
            passed: self.passed as nat,
            visited: self.visited as nat,
            found: self.found.deep_view(),
        }
    }
}

/// The cached record at index `i` answers to the wanted name: it has a key,
/// and its key is the key of the wanted name.
pub open spec fn answers(s: ResolverView, i: int) -> bool {
    0 <= i < s.cache.len() && i < s.keys.len() && s.keys[i] == s.key
}

/// How many records from index `from` on are passed over before one that
/// answers to the wanted name, or the end of the cache, is reached.
pub open spec fn skipped(s: ResolverView, from: nat) -> nat
    decreases s.cache.len() - from,
{
    if from >= s.cache.len() || answers(s, from as int) {
        0
    } else {
        1 + skipped(s, from + 1)
    }
}

/// The state before anything was asked, for a wanted name and cached records
/// with the keys that they are matched by.
pub open spec fn initial(
    name: Seq<char>,
    key: Seq<char>,
    cache: Seq<EnvironmentView>,
    keys: Seq<Seq<char>>,
    dirs: Seq<Seq<char>>,
) -> ResolverView {
    ResolverView { name, key, cache, keys, dirs, passed: 0, visited: 0, found: None }
}

/// The state before anything was asked, with every key the lower-case form
/// of its name.
pub open spec fn begun(
    name: Seq<char>,
    cache: Seq<EnvironmentView>,
    dirs: Seq<Seq<char>>,
) -> ResolverView {
    initial(name, lowercase_of(name), cache, keys_of(cache), dirs)
}

/// Nothing was asked yet.
pub open spec fn begins(s: ResolverView) -> bool {
    s.passed == 0 && s.visited == 0 && s.found is None
}

/// What a state asks for: the entry point of the next cached record that
/// answers to the wanted name; when the cache is done with, the place of the
/// wanted name below the next search directory; when those are done with
/// too, nothing.
pub open spec fn request_of(s: ResolverView) -> RequestView {
    let k = s.passed + skipped(s, s.passed);
    if s.found is Some {
        RequestView::Finished { found: s.found }
    } else if k < s.cache.len() {
        RequestView::EntryPoint { path: entry_point_of(s.cache[k as int].location) }
    } else if s.visited < s.dirs.len() {
        RequestView::Inspect { location: joined(s.dirs[s.visited as int], s.name) }
    } else {
        RequestView::Finished { found: None }
    }
}

/// The state after an answer. An entry point that is there ends the search
/// with its record; one that is not there has the record passed over. A
/// directory that classifies ends the search with its environment; any other
/// has the search go on. An answer of the wrong sort, or one given when the
/// search is over, changes nothing.
pub open spec fn next(s: ResolverView, answer: AnswerView) -> ResolverView {
    let k = s.passed + skipped(s, s.passed);
    match (request_of(s), answer) {
        (RequestView::EntryPoint { .. }, AnswerView::Exists(there)) => if there {
            ResolverView { found: Some(s.cache[k as int]), ..s }
        } else {
            ResolverView { passed: k + 1, ..s }
        },
        (RequestView::Inspect { location }, AnswerView::Inspected(Some(probe))) => match classified(
            location,
            probe,
        ) {
            Some(e) => ResolverView { found: Some(e), ..s },
            None => ResolverView { visited: s.visited + 1, ..s },
        },
        (RequestView::Inspect { .. }, AnswerView::Inspected(None)) => ResolverView {
            visited: s.visited + 1,
            ..s
        },
        _ => s,
    }
}

/// A state of the file system, as far as the resolver asks about it: the
/// paths at which a file is, and what is found in each directory that is.
pub struct World {
    pub files: Set<Seq<char>>,
    pub places: Map<Seq<char>, ProbeView>,
}

/// The true answer to a request in a given world.
pub open spec fn answer_in(world: World, request: RequestView) -> AnswerView {
    match request {
        RequestView::EntryPoint { path } => AnswerView::Exists(world.files.contains(path)),
        RequestView::Inspect { location } => AnswerView::Inspected(
            if world.places.dom().contains(location) {
                Some(world.places[location])
            } else {
                None
            },
        ),
        RequestView::Finished { .. } => AnswerView::Exists(false),
    }
}

/// A bound on the number of requests that a state can still make.
pub open spec fn unanswered(s: ResolverView) -> nat {
    if s.found is Some {
        0
    } else {
        let records: nat = if s.passed < s.cache.len() {
            (s.cache.len() - s.passed) as nat
        } else {
            0
        };
        let places: nat = if s.visited < s.dirs.len() {
            (s.dirs.len() - s.visited) as nat
        } else {
            0
        };
        1 + records + places
    }
}

/// What the search that stands at `s` ends with when every request is
/// answered truly in `world`.
pub open spec fn outcome(s: ResolverView, world: World) -> Option<EnvironmentView>
    decreases unanswered(s),
{
    match request_of(s) {
        RequestView::Finished { found } => found,
        request => outcome(next(s, answer_in(world, request)), world),
    }
}

/// Whether the search that stands at `s` ever asks about a directory when
/// every request is answered truly in `world`.
pub open spec fn inspects(s: ResolverView, world: World) -> bool
    decreases unanswered(s),
{
    match request_of(s) {
        RequestView::Finished { .. } => false,
        RequestView::Inspect { .. } => true,
        request => inspects(next(s, answer_in(world, request)), world),
    }
}

/// The cached record at index `i` answers to the wanted name and can still
/// be activated in `world`.
pub open spec fn usable(s: ResolverView, i: int, world: World) -> bool {
    answers(s, i) && world.files.contains(entry_point_of(s.cache[i].location))
}

/// The environment of the wanted name below `dir` in `world`, if there is one.
pub open spec fn found_below(dir: Seq<char>, name: Seq<char>, world: World) -> Option<
    EnvironmentView,
> {
    let location = joined(dir, name);
    if world.places.dom().contains(location) {
        classified(location, world.places[location])
    } else {
        None
    }
}

impl Resolver {
    /// Begins the search for `name` among the cached records `cache`, then
    /// below the directories `dirs`, and says what to find out first. A
    /// record answers to `name` where the two are the same up to the case of
    /// their letters.
    pub fn start(name: &str, cache: Vec<Environment>, dirs: Vec<String>) -> (r: (Resolver, Request))
        ensures
            r.0@ == begun(name@, cache.deep_view(), dirs.deep_view()),
            r.1@ == request_of(r.0@),
    {
        let key = lowercase(name);
        let keys = name_keys(&cache);
        Resolver::start_with(name, key, cache, keys, dirs)
    }

    /// Begins the search for `name` with the keys given: `key` for the wanted
    /// name, and `keys[i]` for the cached record `cache[i]`. A record answers
    /// to the name where its key is `key`; a record without a key does not.
    pub fn start_with(
        name: &str,
        key: String,
        cache: Vec<Environment>,
        keys: Vec<String>,
        dirs: Vec<String>,
    ) -> (r: (Resolver, Request))
        ensures
            r.0@ == initial(
                name@,
                key@,
                cache.deep_view(),
                keys.deep_view(),
                dirs.deep_view(),
            ),
            r.1@ == request_of(r.0@),
    {
        let resolver = Resolver {
            name: name.to_owned(),
            key,
            cache,
            keys,
            dirs,
            passed: 0,
            visited: 0,
            found: None,
        };
        let request = resolver.request();
        (resolver, request)
    }

    /// Whether the cached record at index `i` answers to the wanted name.
    fn answers_at(&self, i: usize) -> (r: bool)
        ensures
            r == answers(self@, i as int),
    {
        proof {
            if i < self.keys.len() {
                assert(self.keys.deep_view()[i as int] == self.keys@[i as int]@);
            }
        }
        i < self.cache.len() && i < self.keys.len() && eq_text(
            self.keys[i].as_str(),
            self.key.as_str(),
        )
    }

    /// The index of the next cached record that answers to the wanted name.
    fn next_match(&self) -> (k: usize)
        ensures
            k == self@.passed + skipped(self@, self@.passed),
    {
        let mut k: usize = self.passed;
        while k < self.cache.len() && !self.answers_at(k)
            invariant
                self@.passed + skipped(self@, self@.passed) == k + skipped(self@, k as nat),
            decreases self.cache.len() - k,
        {
            k += 1;
        }
        k
    }

    /// What the search needs to know now.
    pub fn request(&self) -> (r: Request)
        ensures
            r@ == request_of(self@),
    {
        match &self.found {
            Some(e) => {
                return Request::Finished { found: Some(e.duplicate()) };
            },
            None => {},
        }
        let k = self.next_match();
        if k < self.cache.len() {
            Request::EntryPoint { path: entry_point_path(self.cache[k].location.as_str()) }
        } else if self.visited < self.dirs.len() {
            Request::Inspect {
                location: join(self.dirs[self.visited].as_str(), self.name.as_str()),
            }
        } else {
            Request::Finished { found: None }
        }
    }

    /// Takes the answer to the request that stands, and says what the search
    /// needs to know next.
    pub fn step(&mut self, answer: &Answer) -> (r: Request)
        ensures
            final(self)@ == next(old(self)@, answer@),
            r@ == request_of(final(self)@),
    {
        if self.found.is_none() {
            let k = self.next_match();
            if k < self.cache.len() {
                match answer {
                    Answer::Exists(there) => {
                        if *there {
                            self.found = Some(self.cache[k].duplicate());
                        } else {
                            self.passed = k + 1;
                        }
                    },
                    Answer::Inspected(_) => {},
                }
            } else if self.visited < self.dirs.len() {
                match answer {
                    Answer::Inspected(Some(probe)) => {
                        let location = join(self.dirs[self.visited].as_str(), self.name.as_str());
                        match classify(location.as_str(), probe) {
                            Some(e) => {
                                self.found = Some(e);
                            },
                            None => {
                                self.visited = self.visited + 1;
                            },
                        }
                    },
                    Answer::Inspected(None) => {
                        self.visited = self.visited + 1;
                    },
                    Answer::Exists(_) => {},
                }
            }
        }
        self.request()
    }
}

/// The first cached record at or after index `from` that answers to the
/// wanted name and can still be activated.
pub open spec fn cache_hit(s: ResolverView, world: World, from: nat) -> Option<EnvironmentView>
    decreases s.cache.len() - from,
{
    if from >= s.cache.len() {
        None
    } else if usable(s, from as int, world) {
        Some(s.cache[from as int])
    } else {
        cache_hit(s, world, from + 1)
    }
}

/// The environment of the wanted name below the first directory at or after
/// index `from` that holds one.
pub open spec fn dir_hit(s: ResolverView, world: World, from: nat) -> Option<EnvironmentView>
    decreases s.dirs.len() - from,
{
    if from >= s.dirs.len() {
        None
    } else {
        match found_below(s.dirs[from as int], s.name, world) {
            Some(e) => Some(e),
            None => dir_hit(s, world, from + 1),
        }
    }
}

/// What a search is to find: the first usable cached record; where there is
/// none, the environment below the first search directory that holds one;
/// where there is none either, nothing.
pub open spec fn resolution(s: ResolverView, world: World) -> Option<EnvironmentView> {
    match cache_hit(s, world, 0) {
        Some(e) => Some(e),
        None => dir_hit(s, world, 0),
    }
}

/// Passing records and visiting directories changes neither the records nor
/// the directories, so what is to be found from an index on stays the same.
proof fn lemma_hits_go_by_the_lists(s: ResolverView, t: ResolverView, world: World, from: nat)
    requires
        s.name == t.name,
        s.key == t.key,
        s.cache == t.cache,
        s.keys == t.keys,
        s.dirs == t.dirs,
    ensures
        cache_hit(s, world, from) == cache_hit(t, world, from),
        dir_hit(s, world, from) == dir_hit(t, world, from),
{
    lemma_cache_hit_goes_by_the_lists(s, t, world, from);
    lemma_dir_hit_goes_by_the_lists(s, t, world, from);
}

/// The first usable record from an index on goes by the records and the keys
/// alone.
proof fn lemma_cache_hit_goes_by_the_lists(
    s: ResolverView,
    t: ResolverView,
    world: World,
    from: nat,
)
    requires
        s.key == t.key,
        s.cache == t.cache,
        s.keys == t.keys,
    ensures
        cache_hit(s, world, from) == cache_hit(t, world, from),
    decreases s.cache.len() - from,
{
    if from < s.cache.len() {
        lemma_cache_hit_goes_by_the_lists(s, t, world, from + 1);
    }
}

/// What the directories hold from an index on goes by the wanted name and
/// the directories alone.
proof fn lemma_dir_hit_goes_by_the_lists(s: ResolverView, t: ResolverView, world: World, from: nat)
    requires
        s.name == t.name,
        s.dirs == t.dirs,
    ensures
        dir_hit(s, world, from) == dir_hit(t, world, from),
    decreases s.dirs.len() - from,
{
    if from < s.dirs.len() {
        lemma_dir_hit_goes_by_the_lists(s, t, world, from + 1);
    }
}

/// The records that are passed over do not answer to the name; the record
/// that is reached, if one is, does.
proof fn lemma_skipped(s: ResolverView, world: World, from: nat)
    ensures
        cache_hit(s, world, from) == cache_hit(s, world, from + skipped(s, from)),
        from + skipped(s, from) < s.cache.len() ==> answers(s, (from + skipped(s, from)) as int),
    decreases s.cache.len() - from,
{
    if from >= s.cache.len() || answers(s, from as int) {
    } else {
        lemma_skipped(s, world, from + 1);
    }
}

/// From any state in which nothing is found yet, the search ends with the
/// first usable record that is not passed yet, else with the environment
/// below the first directory not visited yet that holds one; and it asks
/// about a directory exactly if no such record is left and a directory is.
proof fn lemma_outcome_from(s: ResolverView, world: World)
    requires
        s.found is None,
    ensures
        outcome(s, world) == (match cache_hit(s, world, s.passed) {
            Some(e) => Some(e),
            None => dir_hit(s, world, s.visited),
        }),
        inspects(s, world) == (cache_hit(s, world, s.passed) is None && s.visited < s.dirs.len()),
    decreases unanswered(s),
{
    let k = s.passed + skipped(s, s.passed);
    lemma_skipped(s, world, s.passed);
    let request = request_of(s);
    let after = next(s, answer_in(world, request));
    if k < s.cache.len() {
        if world.files.contains(entry_point_of(s.cache[k as int].location)) {
            assert(after.found == Some(s.cache[k as int]));
            assert(outcome(after, world) == after.found);
            assert(!inspects(after, world));
        } else {
            assert(after.passed == k + 1);
            lemma_outcome_from(after, world);
            lemma_hits_go_by_the_lists(s, after, world, k + 1);
            lemma_hits_go_by_the_lists(s, after, world, s.visited);
        }
    } else if s.visited < s.dirs.len() {
        assert(cache_hit(s, world, k) is None);
        match found_below(s.dirs[s.visited as int], s.name, world) {
            Some(e) => {
                assert(after.found == Some(e));
                assert(outcome(after, world) == after.found);
            },
            None => {
                assert(after.visited == s.visited + 1);
                lemma_outcome_from(after, world);
                lemma_hits_go_by_the_lists(s, after, world, s.passed);
                lemma_hits_go_by_the_lists(s, after, world, s.visited + 1);
            },
        }
    } else {
        assert(cache_hit(s, world, k) is None);
    }
}

/// Where a usable record stands at or after `from`, `cache_hit` is the first
/// such record.
proof fn lemma_cache_hit_first(s: ResolverView, world: World, from: nat, i: int) -> (k: int)
    requires
        from <= i < s.cache.len(),
        usable(s, i, world),
    ensures
        from <= k <= i,
        usable(s, k, world),
        forall|j: int| from <= j < k ==> !usable(s, j, world),
        cache_hit(s, world, from) == Some(s.cache[k]),
    decreases s.cache.len() - from,
{
    if usable(s, from as int, world) {
        from as int
    } else {
        lemma_cache_hit_first(s, world, from + 1, i)
    }
}

/// Where no usable record stands at or after `from`, `cache_hit` is nothing.
proof fn lemma_cache_hit_none(s: ResolverView, world: World, from: nat)
    requires
        forall|i: int| from <= i < s.cache.len() ==> !usable(s, i, world),
    ensures
        cache_hit(s, world, from) is None,
    decreases s.cache.len() - from,
{
    if from < s.cache.len() {
        lemma_cache_hit_none(s, world, from + 1);
    }
}

/// Where a directory at or after `from` holds the wanted environment,
/// `dir_hit` is what the first such directory holds.
proof fn lemma_dir_hit_first(s: ResolverView, world: World, from: nat, i: int) -> (k: int)
    requires
        from <= i < s.dirs.len(),
        found_below(s.dirs[i], s.name, world) is Some,
    ensures
        from <= k <= i,
        found_below(s.dirs[k], s.name, world) is Some,
        forall|j: int| from <= j < k ==> found_below(s.dirs[j], s.name, world) is None,
        dir_hit(s, world, from) == found_below(s.dirs[k], s.name, world),
    decreases s.dirs.len() - from,
{
    if found_below(s.dirs[from as int], s.name, world) is Some {
        from as int
    } else {
        lemma_dir_hit_first(s, world, from + 1, i)
    }
}

/// Where no directory at or after `from` holds the wanted environment,
/// `dir_hit` is nothing.
proof fn lemma_dir_hit_none(s: ResolverView, world: World, from: nat)
    requires
        forall|i: int| from <= i < s.dirs.len() ==> found_below(s.dirs[i], s.name, world) is None,
    ensures
        dir_hit(s, world, from) is None,
    decreases s.dirs.len() - from,
{
    if from < s.dirs.len() {
        lemma_dir_hit_none(s, world, from + 1);
    }
}

/// Where the keys are the lower-case forms of the names, a cached record
/// answers to the wanted name exactly if the two names are the same up to the
/// case of their letters.
pub proof fn lemma_answers_by_name(
    name: Seq<char>,
    cache: Seq<EnvironmentView>,
    dirs: Seq<Seq<char>>,
    i: int,
)
    requires
        0 <= i < cache.len(),
    ensures
        answers(begun(name, cache, dirs), i) == same_ignoring_case(cache[i].name, name),
{
}

/// The resolver finds what a search is to find: driven from its first state
/// by true answers, it ends with `resolution`.
pub proof fn lemma_outcome_is_resolution(s: ResolverView, world: World)
    requires
        begins(s),
    ensures
        outcome(s, world) == resolution(s, world),
{
    lemma_outcome_from(s, world);
}

/// A cached record that answers to the name and whose entry point is still
/// there is a hit: the search ends with the first such record of the cache,
/// and never asks about a directory.
pub proof fn lemma_cache_hit_wins(s: ResolverView, world: World, i: int) -> (k: int)
    requires
        begins(s),
        usable(s, i, world),
    ensures
        0 <= k <= i,
        usable(s, k, world),
        forall|j: int| 0 <= j < k ==> !usable(s, j, world),
        outcome(s, world) == Some(s.cache[k]),
        !inspects(s, world),
{
    lemma_outcome_from(s, world);
    lemma_cache_hit_first(s, world, 0, i)
}

/// Where every cached record that answers to the name is stale, the search
/// goes on to the directories: it ends with what `dir_hit` gives from the
/// first directory on.
pub proof fn lemma_stale_cache_falls_through(s: ResolverView, world: World)
    requires
        begins(s),
        forall|i: int| 0 <= i < s.cache.len() ==> !usable(s, i, world),
    ensures
        outcome(s, world) == dir_hit(s, world, 0),
        inspects(s, world) == (s.dirs.len() > 0),
{
    lemma_outcome_from(s, world);
    lemma_cache_hit_none(s, world, 0);
}

/// Where every cached record that answers to the name is stale and a search
/// directory holds the wanted environment, the search ends with what the
/// first such directory holds.
pub proof fn lemma_directory_match_found(s: ResolverView, world: World, i: int) -> (k: int)
    requires
        begins(s),
        forall|j: int| 0 <= j < s.cache.len() ==> !usable(s, j, world),
        0 <= i < s.dirs.len(),
        found_below(s.dirs[i], s.name, world) is Some,
    ensures
        0 <= k <= i,
        forall|j: int| 0 <= j < k ==> found_below(s.dirs[j], s.name, world) is None,
        outcome(s, world) is Some,
        outcome(s, world) == found_below(s.dirs[k], s.name, world),
{
    lemma_stale_cache_falls_through(s, world);
    lemma_dir_hit_first(s, world, 0, i)
}

/// Where no cached record is usable and no search directory holds the wanted
/// environment, the search ends with nothing.
pub proof fn lemma_nothing_found(s: ResolverView, world: World)
    requires
        begins(s),
        forall|i: int| 0 <= i < s.cache.len() ==> !usable(s, i, world),
        forall|j: int| 0 <= j < s.dirs.len() ==> found_below(s.dirs[j], s.name, world) is None,
    ensures
        outcome(s, world) is None,
{
    lemma_stale_cache_falls_through(s, world);
    lemma_dir_hit_none(s, world, 0);
}

} // verus!
