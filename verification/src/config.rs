//! Configuration files and the files they import.
//!
//! A file imports another with a line whose first word is `include` and whose
//! second word is the path. The files that belong to a configuration are the
//! root and everything that can be reached from it through imports. This
//! module never reads a file itself: the caller reads, and hands in what came
//! of it.
use crate::error::{Error, ErrorView};
use crate::text::{chars_of, equals_str, lines_of, split, split_lines, split_on, string_of, texts};
use vstd::prelude::*;

verus! {

/// The keyword that starts an import.
pub const IMPORT_STATEMENT: &'static str = "include";

/// A configuration file: its path, its text, and the paths it imports, in
/// the order of their lines.
#[derive(Debug)]
pub struct Config {
    pub path: String,
    pub contents: String,
    pub imports: Vec<String>,
}

/// The mathematical value of a `Config`.
pub struct ConfigView {
    pub path: Seq<char>,
    pub contents: Seq<char>,
    pub imports: Seq<Seq<char>>,
}

impl View for Config {
    type V = ConfigView;

    open spec fn view(&self) -> ConfigView {
        ConfigView {
            path: self.path@,
            contents: self.contents@,
            imports: self.imports.deep_view(),
        }
    }
}

/// The values of the files of a vector.
pub open spec fn config_views(configs: Seq<Config>) -> Seq<ConfigView> {
    Seq::new(configs.len(), |i: int| configs[i]@)
}

/// Whether a line is an import: split at single spaces, its first word is
/// the keyword, and a second word follows.
pub open spec fn is_import(line: Seq<char>) -> bool {
    let words = split(line, ' ');
    words[0] == IMPORT_STATEMENT@ && words.len() >= 2
}

/// The path that an import line names: its second word, as it stands.
pub open spec fn import_path(line: Seq<char>) -> Seq<char> {
    split(line, ' ')[1]
}

/// The paths that a text imports, in the order of their lines.
pub open spec fn imports_of(contents: Seq<char>) -> Seq<Seq<char>> {
    split_lines(contents).filter(|line: Seq<char>| is_import(line)).map_values(
        |line: Seq<char>| import_path(line),
    )
}

/// The file at `path` with the text `contents`.
pub open spec fn config_of(path: Seq<char>, contents: Seq<char>) -> ConfigView {
    ConfigView { path, contents, imports: imports_of(contents) }
}

/// What came of reading a file, as a mathematical value.
pub open spec fn outcome_view(loaded: Result<String, Error>) -> Result<Seq<char>, ErrorView> {
    match loaded {
        Ok(contents) => Ok(contents@),
        Err(error) => Err(error@),
    }
}

/// What came of reading each file of a vector.
pub open spec fn outcome_views(loaded: Seq<Result<String, Error>>) -> Seq<
    Result<Seq<char>, ErrorView>,
> {
    Seq::new(loaded.len(), |i: int| outcome_view(loaded[i]))
}

/// The files at the first `k` paths, given what came of reading each, or the
/// first error among those readings.
pub open spec fn load_first(
    paths: Seq<Seq<char>>,
    loaded: Seq<Result<Seq<char>, ErrorView>>,
    k: nat,
) -> Result<Seq<ConfigView>, ErrorView>
    decreases k,
{
    if k == 0 {
        Ok(seq![])
    } else {
        match load_first(paths, loaded, (k - 1) as nat) {
            Err(error) => Err(error),
            Ok(configs) => match loaded[k - 1] {
                Err(error) => Err(error),
                Ok(contents) => Ok(configs.push(config_of(paths[k - 1], contents))),
            },
        }
    }
}

/// Whether the readings are those of the imports at `paths`, in their order:
/// one for each import, or fewer where the last one failed, after which no
/// other file is read.
pub open spec fn readings_fit(paths: Seq<Seq<char>>, loaded: Seq<Result<Seq<char>, ErrorView>>)
    -> bool {
    ||| loaded.len() == paths.len()
    ||| 0 < loaded.len() < paths.len() && loaded.last() is Err
}

/// The files at the given paths, given what came of reading them, or the
/// first error among the readings.
pub open spec fn load_all(paths: Seq<Seq<char>>, loaded: Seq<Result<Seq<char>, ErrorView>>)
    -> Result<Seq<ConfigView>, ErrorView> {
    load_first(paths, loaded, loaded.len())
}

/// The files `configs` with those of `found` added that are not among them
/// yet, one after the other.
pub open spec fn merged(configs: Seq<ConfigView>, found: Seq<ConfigView>) -> Seq<ConfigView>
    decreases found.len(),
{
    if found.len() == 0 {
        configs
    } else {
        let before = merged(configs, found.drop_last());
        if before.contains(found.last()) {
            before
        } else {
            before.push(found.last())
        }
    }
}

/// Merging keeps the files that were there, in their places, and adds none
/// twice.
pub proof fn lemma_merged_grows(configs: Seq<ConfigView>, found: Seq<ConfigView>)
    ensures
        configs.len() <= merged(configs, found).len(),
        merged(configs, found).take(configs.len() as int) == configs,
        configs.no_duplicates() ==> merged(configs, found).no_duplicates(),
        forall|i: int| 0 <= i < found.len() ==> merged(configs, found).contains(#[trigger] found[i]),
    decreases found.len(),
{
    if found.len() == 0 {
    } else {
        let earlier = found.drop_last();
        let before = merged(configs, earlier);
        lemma_merged_grows(configs, earlier);
        let after = merged(configs, found);
        assert forall|i: int| 0 <= i < found.len() implies after.contains(#[trigger] found[i]) by {
            if i < earlier.len() {
                assert(earlier[i] == found[i]);
                let at = choose|at: int| 0 <= at < before.len() && before[at] == earlier[i];
                assert(after[at] == found[i]);
            } else if !before.contains(found.last()) {
                assert(after[before.len() as int] == found[i]);
            }
        }
    }
}

/// How far the search for imported files has come, as a mathematical value.
///
/// The search goes in passes. A pass takes the files known when it starts,
/// one after the other, reads the imports of each and adds the files that are
/// new. A pass that added something is followed by another; the first pass
/// that adds nothing ends the search.
pub struct ResolverView {
    /// The files known so far, in the order they were found.
    pub configs: Seq<ConfigView>,
    /// How many files were known when this pass started.
    pub pass_len: nat,
    /// The place, among those files, of the one whose imports are read next.
    pub next: nat,
}

impl ResolverView {
    /// The search before its first pass over the given files.
    pub open spec fn start(configs: Seq<ConfigView>) -> ResolverView {
        ResolverView { configs, pass_len: configs.len(), next: 0 }
    }

    /// Whether the places are within the files, and the search stands at the
    /// end of a pass only if that pass added nothing.
    pub open spec fn well_formed(self) -> bool {
        &&& self.next <= self.pass_len <= self.configs.len()
        &&& self.next == self.pass_len ==> self.pass_len == self.configs.len()
    }

    /// Whether the search has ended: the last pass is through.
    pub open spec fn finished(self) -> bool {
        self.next >= self.pass_len
    }

    /// The search after the files `found` were read as the imports of the
    /// file that was next: the new ones among them are added, and the search
    /// moves on to the next file of the pass, or, at the end of a pass that
    /// added a file, to the start of another pass.
    pub open spec fn step(self, found: Seq<ConfigView>) -> ResolverView {
        let configs = merged(self.configs, found);
        if self.next + 1 < self.pass_len {
            ResolverView { configs, pass_len: self.pass_len, next: self.next + 1 }
        } else if configs.len() != self.pass_len {
            ResolverView { configs, pass_len: configs.len(), next: 0 }
        } else {
            ResolverView { configs, pass_len: self.pass_len, next: self.pass_len }
        }
    }
}

/// A step of the search keeps it well formed, keeps every file that was
/// known in its place, and adds no file that is known already. The search
/// ends with a step exactly when that step ends a pass that added nothing.
pub proof fn lemma_step_grows(state: ResolverView, found: Seq<ConfigView>)
    requires
        state.well_formed(),
        !state.finished(),
    ensures
        state.step(found).well_formed(),
        state.configs.len() <= state.step(found).configs.len(),
        state.step(found).configs.take(state.configs.len() as int) == state.configs,
        state.configs.no_duplicates() ==> state.step(found).configs.no_duplicates(),
        state.step(found).finished() <==> state.next + 1 == state.pass_len && state.step(
            found,
        ).configs.len() == state.pass_len,
{
    lemma_merged_grows(state.configs, found);
}

/// What reading each of the paths gives, where `files` says what reading a
/// path gives.
pub open spec fn read_all(
    paths: Seq<Seq<char>>,
    files: spec_fn(Seq<char>) -> Result<Seq<char>, ErrorView>,
) -> Seq<Result<Seq<char>, ErrorView>> {
    Seq::new(paths.len(), |k: int| files(paths[k]))
}

/// The files at the given paths, where each of them can be read.
pub open spec fn files_at(
    paths: Seq<Seq<char>>,
    files: spec_fn(Seq<char>) -> Result<Seq<char>, ErrorView>,
) -> Seq<ConfigView> {
    Seq::new(paths.len(), |k: int| config_of(paths[k], files(paths[k])->Ok_0))
}

/// One step of a search over the files `files`: the imports of the file that
/// is next are read, and the search goes on with the files found, or ends
/// with the error of the first import that could not be read.
pub open spec fn search_step(
    state: ResolverView,
    files: spec_fn(Seq<char>) -> Result<Seq<char>, ErrorView>,
) -> Result<ResolverView, ErrorView> {
    let paths = state.configs[state.next as int].imports;
    match load_all(paths, read_all(paths, files)) {
        Ok(found) => Ok(state.step(found)),
        Err(error) => Err(error),
    }
}

/// A whole search over the files `files`, from `state` on and for at most
/// `fuel` steps: the files found when the search ends, the error that ends
/// it, or nothing if the steps do not suffice.
pub open spec fn search(
    state: ResolverView,
    files: spec_fn(Seq<char>) -> Result<Seq<char>, ErrorView>,
    fuel: nat,
) -> Option<Result<Seq<ConfigView>, ErrorView>>
    decreases fuel,
{
    if state.finished() {
        Some(Ok(state.configs))
    } else if fuel == 0 {
        None
    } else {
        match search_step(state, files) {
            Ok(next) => search(next, files, (fuel - 1) as nat),
            Err(error) => Some(Err(error)),
        }
    }
}

/// Whether every import of every one of the files can be read and is among
/// them.
pub open spec fn is_closed(
    configs: Seq<ConfigView>,
    files: spec_fn(Seq<char>) -> Result<Seq<char>, ErrorView>,
    upto: int,
) -> bool {
    forall|i: int, k: int|
        0 <= i < upto && 0 <= k < configs[i].imports.len() ==> {
            &&& files(#[trigger] configs[i].imports[k]) is Ok
            &&& configs.contains(
                config_of(configs[i].imports[k], files(configs[i].imports[k])->Ok_0),
            )
        }
}

/// Whether `chain` leads from one of the files `start` along imports: its
/// first file is one of them, and each file after it is what the file before
/// it imports at the place that `via` names, a file that can be read.
pub open spec fn is_chain(
    start: Seq<ConfigView>,
    files: spec_fn(Seq<char>) -> Result<Seq<char>, ErrorView>,
    chain: Seq<ConfigView>,
    via: Seq<int>,
) -> bool {
    &&& chain.len() > 0
    &&& via.len() == chain.len() - 1
    &&& start.contains(chain[0])
    &&& forall|i: int|
        0 <= i < chain.len() - 1 ==> {
            let path = chain[i].imports[via[i]];
            &&& 0 <= #[trigger] via[i] < chain[i].imports.len()
            &&& files(path) is Ok
            &&& chain[i + 1] == config_of(path, files(path)->Ok_0)
        }
}

/// What the first `k` readings give depends on those readings alone.
proof fn lemma_load_first_agrees(
    paths: Seq<Seq<char>>,
    a: Seq<Result<Seq<char>, ErrorView>>,
    b: Seq<Result<Seq<char>, ErrorView>>,
    k: nat,
)
    requires
        forall|j: int| 0 <= j < k ==> a[j] == b[j],
    ensures
        load_first(paths, a, k) == load_first(paths, b, k),
    decreases k,
{
    if k > 0 {
        lemma_load_first_agrees(paths, a, b, (k - 1) as nat);
    }
}

/// The first `k` imports give their files if all of them can be read, and
/// else the error of the first that cannot.
proof fn lemma_load_first_reads(
    paths: Seq<Seq<char>>,
    files: spec_fn(Seq<char>) -> Result<Seq<char>, ErrorView>,
    k: nat,
)
    requires
        k <= paths.len(),
    ensures
        load_first(paths, read_all(paths, files), k) is Ok <==> forall|j: int|
            0 <= j < k ==> files(#[trigger] paths[j]) is Ok,
        load_first(paths, read_all(paths, files), k) is Ok ==> load_first(
            paths,
            read_all(paths, files),
            k,
        )->Ok_0 == files_at(paths, files).take(k as int),
        load_first(paths, read_all(paths, files), k) is Err ==> exists|j: int|
            0 <= j < k && files(#[trigger] paths[j]) == Err::<Seq<char>, ErrorView>(
                load_first(paths, read_all(paths, files), k)->Err_0,
            ),
    decreases k,
{
    let all = files_at(paths, files);
    let loaded = read_all(paths, files);
    if k == 0 {
        assert(all.take(0) =~= Seq::<ConfigView>::empty());
    } else {
        lemma_load_first_reads(paths, files, (k - 1) as nat);
        let before = load_first(paths, loaded, (k - 1) as nat);
        assert(loaded[k - 1] == files(paths[k - 1]));
        if before is Ok {
            if files(paths[k - 1]) is Ok {
                assert(all.take(k as int) =~= all.take(k - 1).push(all[k - 1]));
                assert forall|j: int| 0 <= j < k implies files(#[trigger] paths[j]) is Ok by {
                    if j < k - 1 {
                    }
                }
            } else {
                assert(files(paths[k - 1]) == Err::<Seq<char>, ErrorView>(
                    load_first(paths, loaded, k)->Err_0,
                ));
            }
        } else {
            let j = choose|j: int|
                0 <= j < k - 1 && files(#[trigger] paths[j]) == Err::<Seq<char>, ErrorView>(
                    before->Err_0,
                );
            assert(files(paths[j]) == Err::<Seq<char>, ErrorView>(
                load_first(paths, loaded, k)->Err_0,
            ));
        }
    }
}

/// Reading the imports at `paths` gives their files if all of them can be
/// read, and else the error of one that cannot.
pub proof fn lemma_load_all_reads(
    paths: Seq<Seq<char>>,
    files: spec_fn(Seq<char>) -> Result<Seq<char>, ErrorView>,
)
    ensures
        load_all(paths, read_all(paths, files)) is Ok <==> forall|j: int|
            0 <= j < paths.len() ==> files(#[trigger] paths[j]) is Ok,
        load_all(paths, read_all(paths, files)) is Ok ==> load_all(
            paths,
            read_all(paths, files),
        )->Ok_0 == files_at(paths, files),
        load_all(paths, read_all(paths, files)) is Err ==> exists|j: int|
            0 <= j < paths.len() && files(#[trigger] paths[j]) == Err::<Seq<char>, ErrorView>(
                load_all(paths, read_all(paths, files))->Err_0,
            ),
{
    lemma_load_first_reads(paths, files, paths.len());
    assert(files_at(paths, files).take(paths.len() as int) =~= files_at(paths, files));
}

/// Readings that stop at the first failure give what reading every import
/// gives.
pub proof fn lemma_readings_up_to_failure(
    paths: Seq<Seq<char>>,
    loaded: Seq<Result<Seq<char>, ErrorView>>,
    files: spec_fn(Seq<char>) -> Result<Seq<char>, ErrorView>,
)
    requires
        readings_fit(paths, loaded),
        forall|k: int| 0 <= k < loaded.len() ==> #[trigger] loaded[k] == files(paths[k]),
    ensures
        load_all(paths, loaded) == load_all(paths, read_all(paths, files)),
{
    let all = read_all(paths, files);
    lemma_load_first_agrees(paths, loaded, all, loaded.len());
    if loaded.len() < paths.len() {
        assert(loaded[loaded.len() - 1] is Err);
        lemma_error_stays(paths, all, loaded.len(), paths.len());
    }
}

/// While the files do not change, a step of the search keeps it well formed
/// and keeps the imports of every file that the pass has gone through among
/// the files found.
pub proof fn lemma_step_keeps_pass_sound(
    state: ResolverView,
    files: spec_fn(Seq<char>) -> Result<Seq<char>, ErrorView>,
)
    requires
        state.well_formed(),
        !state.finished(),
        is_closed(state.configs, files, state.next as int),
        search_step(state, files) is Ok,
    ensures
        search_step(state, files)->Ok_0.well_formed(),
        is_closed(
            search_step(state, files)->Ok_0.configs,
            files,
            search_step(state, files)->Ok_0.next as int,
        ),
        forall|c: ConfigView|
            state.configs.contains(c) ==> search_step(state, files)->Ok_0.configs.contains(c),
{
    let paths = state.configs[state.next as int].imports;
    let found = files_at(paths, files);
    lemma_load_all_reads(paths, files);
    let after = state.step(found);
    lemma_merged_grows(state.configs, found);
    lemma_step_grows(state, found);
    assert forall|c: ConfigView| state.configs.contains(c) implies after.configs.contains(c) by {
        let at = choose|at: int| 0 <= at < state.configs.len() && state.configs[at] == c;
        assert(after.configs.take(state.configs.len() as int)[at] == c);
        assert(after.configs[at] == c);
    }
    assert forall|i: int, k: int|
        0 <= i < after.next && 0 <= k < after.configs[i].imports.len() implies {
        &&& files(#[trigger] after.configs[i].imports[k]) is Ok
        &&& after.configs.contains(
            config_of(after.configs[i].imports[k], files(after.configs[i].imports[k])->Ok_0),
        )
    } by {
        assert(after.configs.take(state.configs.len() as int)[i] == state.configs[i]);
        let p = state.configs[i].imports[k];
        if i < state.next {
            assert(state.configs.contains(config_of(p, files(p)->Ok_0)));
        } else {
            assert(files(paths[k]) is Ok);
            assert(found[k] == config_of(p, files(p)->Ok_0));
        }
    }
}

/// A search that ends with files, over files that did not change, ends with
/// files that are closed under imports: whatever one of them imports can be
/// read and is among them. The files it started from are among them too.
pub proof fn lemma_search_ends_closed(
    state: ResolverView,
    files: spec_fn(Seq<char>) -> Result<Seq<char>, ErrorView>,
    fuel: nat,
)
    requires
        state.well_formed(),
        is_closed(state.configs, files, state.next as int),
        search(state, files, fuel) is Some,
        search(state, files, fuel)->Some_0 is Ok,
    ensures
        ({
            let configs = search(state, files, fuel)->Some_0->Ok_0;
            &&& is_closed(configs, files, configs.len() as int)
            &&& forall|c: ConfigView| state.configs.contains(c) ==> configs.contains(c)
        }),
    decreases fuel,
{
    if !state.finished() {
        lemma_step_keeps_pass_sound(state, files);
        lemma_search_ends_closed(search_step(state, files)->Ok_0, files, (fuel - 1) as nat);
    }
}

/// The error that ends a search is what reading one of the files gave.
pub proof fn lemma_search_error_is_a_reading(
    state: ResolverView,
    files: spec_fn(Seq<char>) -> Result<Seq<char>, ErrorView>,
    fuel: nat,
)
    requires
        search(state, files, fuel) is Some,
        search(state, files, fuel)->Some_0 is Err,
    ensures
        exists|path: Seq<char>|
            #[trigger] files(path) == Err::<Seq<char>, ErrorView>(
                search(state, files, fuel)->Some_0->Err_0,
            ),
    decreases fuel,
{
    if !state.finished() {
        let paths = state.configs[state.next as int].imports;
        match search_step(state, files) {
            Ok(next) => {
                lemma_search_error_is_a_reading(next, files, (fuel - 1) as nat);
            },
            Err(error) => {
                lemma_load_all_reads(paths, files);
                let j = choose|j: int|
                    0 <= j < paths.len() && files(#[trigger] paths[j]) == Err::<
                        Seq<char>,
                        ErrorView,
                    >(load_all(paths, read_all(paths, files))->Err_0);
                assert(files(paths[j]) == Err::<Seq<char>, ErrorView>(error));
            },
        }
    }
}

/// Files that are closed under imports hold every file of a chain that
/// starts among them.
pub proof fn lemma_closed_holds_chain(
    configs: Seq<ConfigView>,
    start: Seq<ConfigView>,
    files: spec_fn(Seq<char>) -> Result<Seq<char>, ErrorView>,
    chain: Seq<ConfigView>,
    via: Seq<int>,
    n: int,
)
    requires
        is_closed(configs, files, configs.len() as int),
        forall|s: ConfigView| start.contains(s) ==> configs.contains(s),
        is_chain(start, files, chain, via),
        0 <= n < chain.len(),
    ensures
        configs.contains(chain[n]),
    decreases n,
{
    if n > 0 {
        lemma_closed_holds_chain(configs, start, files, chain, via, n - 1);
        let i = choose|i: int| 0 <= i < configs.len() && configs[i] == chain[n - 1];
        assert(0 <= via[n - 1] < chain[n - 1].imports.len());
        assert(files(configs[i].imports[via[n - 1]]) is Ok);
    }
}

/// Where a file that a chain of imports leads to from the files to start
/// from imports a file that is missing, and no reading fails for another
/// reason, a search that ends within its steps ends with `ConfigNotFound`,
/// and so with no files.
pub proof fn lemma_missing_import_ends_the_search(
    start: Seq<ConfigView>,
    files: spec_fn(Seq<char>) -> Result<Seq<char>, ErrorView>,
    chain: Seq<ConfigView>,
    via: Seq<int>,
    k: int,
    fuel: nat,
)
    requires
        is_chain(start, files, chain, via),
        0 <= k < chain.last().imports.len(),
        files(chain.last().imports[k]) is Err,
        forall|path: Seq<char>|
            (#[trigger] files(path)) is Err ==> files(path) == Err::<Seq<char>, ErrorView>(
                ErrorView::ConfigNotFound,
            ),
        search(ResolverView::start(start), files, fuel) is Some,
    ensures
        search(ResolverView::start(start), files, fuel) == Some(
            Err::<Seq<ConfigView>, ErrorView>(ErrorView::ConfigNotFound),
        ),
{
    let state = ResolverView::start(start);
    let outcome = search(state, files, fuel)->Some_0;
    match outcome {
        Ok(configs) => {
            lemma_search_ends_closed(state, files, fuel);
            lemma_closed_holds_chain(configs, start, files, chain, via, chain.len() - 1);
            let i = choose|i: int| 0 <= i < configs.len() && configs[i] == chain.last();
            assert(files(configs[i].imports[k]) is Ok);
        },
        Err(error) => {
            lemma_search_error_is_a_reading(state, files, fuel);
        },
    }
}

/// The search for the files that a configuration imports, directly or
/// through other files.
pub struct Resolver {
    configs: Vec<Config>,
    pass_len: usize,
    next: usize,
}

impl View for Resolver {
    type V = ResolverView;

    closed spec fn view(&self) -> ResolverView {
        ResolverView {
            configs: config_views(self.configs@),
            pass_len: self.pass_len as nat,
            next: self.next as nat,
        }
    }
}

impl Resolver {
    #[verifier::type_invariant]
    spec fn well_formed(self) -> bool {
        self@.well_formed()
    }

    /// The search before its first pass, with the files to start from:
    /// usually the root alone.
    pub fn new(configs: Vec<Config>) -> (state: Resolver)
        ensures
            state@ == ResolverView::start(config_views(configs@)),
            state@.well_formed(),
    {
        let pass_len = configs.len();
        Resolver { configs, pass_len, next: 0 }
    }

    /// The file whose imports are to be read next, or nothing once the
    /// search has ended.
    pub fn current(&self) -> (config: Option<&Config>)
        ensures
            self@.well_formed(),
            match config {
                Some(config) => !self@.finished() && config@ == self@.configs[self@.next as int],
                None => self@.finished(),
            },
    {
        proof {
            use_type_invariant(self);
        }
        if self.next < self.pass_len {
            Some(&self.configs[self.next])
        } else {
            None
        }
    }

    /// The files found, in the order they were found.
    pub fn into_configs(self) -> (configs: Vec<Config>)
        ensures
            config_views(configs@) == self@.configs,
    {
        self.configs
    }
}

impl PartialEq for Config {
    fn eq(&self, other: &Config) -> (equal: bool) {
        if self.path != other.path || self.contents != other.contents || self.imports.len()
            != other.imports.len() {
            assert(self@ != other@) by {
                if self@ == other@ {
                    assert(self.imports.deep_view().len() == other.imports.deep_view().len());
                }
            }
            return false;
        }
        let mut i: usize = 0;
        while i < self.imports.len()
            invariant
                i <= self.imports.len(),
                self.imports.len() == other.imports.len(),
                forall|j: int| 0 <= j < i ==> self.imports[j]@ == other.imports[j]@,
            decreases self.imports.len() - i,
        {
            if self.imports[i] != other.imports[i] {
                assert(self@ != other@) by {
                    if self@ == other@ {
                        assert(self.imports.deep_view()[i as int] == other.imports.deep_view()[i as int]);
                    }
                }
                return false;
            }
            i += 1;
        }
        assert(self.imports.deep_view() =~= other.imports.deep_view());
        true
    }
}

impl vstd::std_specs::cmp::PartialEqSpecImpl for Config {
    open spec fn obeys_eq_spec() -> bool {
        true
    }

    open spec fn eq_spec(&self, other: &Config) -> bool {
        self@ == other@
    }
}

impl Clone for Config {
    fn clone(&self) -> (copy: Config)
        ensures
            copy@ == self@,
    {
        let mut imports: Vec<String> = Vec::new();
        let mut i: usize = 0;
        while i < self.imports.len()
            invariant
                i <= self.imports.len(),
                imports.len() == i,
                forall|j: int| 0 <= j < i ==> imports[j]@ == self.imports[j]@,
            decreases self.imports.len() - i,
        {
            imports.push(self.imports[i].clone());
            i += 1;
        }
        assert(imports.deep_view() =~= self.imports.deep_view());
        Config { path: self.path.clone(), contents: self.contents.clone(), imports }
    }
}

/// Whether `config` is among `configs`.
fn is_among(configs: &Vec<Config>, config: &Config) -> (found: bool)
    ensures
        found == config_views(configs@).contains(config@),
{
    let mut i: usize = 0;
    while i < configs.len()
        invariant
            i <= configs.len(),
            forall|j: int| 0 <= j < i ==> configs[j]@ != config@,
        decreases configs.len() - i,
    {
        if configs[i] == *config {
            assert(config_views(configs@)[i as int] == config@);
            return true;
        }
        i += 1;
    }
    false
}

impl Config {
    /// The paths that a text imports. Each line is split at single spaces; a
    /// line whose first word is `include` imports the file that its second
    /// word names, if it has one. This never fails.
    pub fn get_imports(contents: &str) -> (result: Result<Vec<String>, Error>)
        ensures
            result is Ok,
            result->Ok_0.deep_view() == imports_of(contents@),
    {
        let lines = lines_of(&chars_of(contents));
        let ghost all = split_lines(contents@);
        let ghost importing = |line: Seq<char>| is_import(line);
        let ghost path = |line: Seq<char>| import_path(line);
        let mut imports: Vec<String> = Vec::new();
        let mut i: usize = 0;
        while i < lines.len()
            invariant
                i <= lines.len(),
                texts(lines@) == all,
                all == split_lines(contents@),
                importing == |line: Seq<char>| is_import(line),
                path == |line: Seq<char>| import_path(line),
                imports.deep_view() == all.take(i as int).filter(importing).map_values(path),
            decreases lines.len() - i,
        {
            let words = split_on(&lines[i], ' ');
            proof {
                reveal(Seq::filter);
                assert(all.take(i + 1).drop_last() =~= all.take(i as int));
            }
            if equals_str(&words[0], IMPORT_STATEMENT) && words.len() >= 2 {
                let ghost before = imports.deep_view();
                imports.push(string_of(&words[1]));
                proof {
                    assert(imports.deep_view() =~= before.push(words[1]@));
                }
            }
            i += 1;
        }
        assert(all.take(i as int) =~= all);
        Ok(imports)
    }

    /// The file at `path`, given what came of reading it: the file with its
    /// imports, or the error of the reading.
    pub fn new(path: &str, loaded: Result<String, Error>) -> (result: Result<Config, Error>)
        ensures
            match loaded {
                Ok(contents) => result is Ok && result->Ok_0@ == config_of(path@, contents@),
                Err(error) => result is Err && result->Err_0@ == error@,
            },
    {
        let contents = match loaded {
            Ok(contents) => contents,
            Err(error) => {
                return Err(error);
            },
        };
        let imports = match Config::get_imports(contents.as_str()) {
            Ok(imports) => imports,
            Err(error) => {
                return Err(error);
            },
        };
        Ok(Config { path: string_of(&chars_of(path)), contents, imports })
    }

    /// The files that this file imports, given what came of reading each of
    /// them in the order of the imports. The first reading that failed gives
    /// its error. There has to be one reading for each import, or fewer with
    /// the last one a failure.
    pub fn load_to_configs(&self, loaded: Vec<Result<String, Error>>) -> (result: Result<
        Vec<Config>,
        Error,
    >)
        requires
            readings_fit(self@.imports, outcome_views(loaded@)),
        ensures
            match load_all(self@.imports, outcome_views(loaded@)) {
                Ok(configs) => result is Ok && config_views(result->Ok_0@) == configs,
                Err(error) => result is Err && result->Err_0@ == error,
            },
    {
        let ghost paths = self@.imports;
        let ghost outcomes = outcome_views(loaded@);
        let mut configs: Vec<Config> = Vec::new();
        assert(config_views(configs@) =~= Seq::<ConfigView>::empty());
        for outcome in it: loaded
            invariant
                it.seq() == loaded@,
                paths == self@.imports,
                outcomes == outcome_views(loaded@),
                loaded.len() <= self.imports.len(),
                configs.len() == it.index(),
                load_first(paths, outcomes, configs.len() as nat) == Ok::<
                    Seq<ConfigView>,
                    ErrorView,
                >(config_views(configs@)),
        {
            let i = configs.len();
            let ghost before = config_views(configs@);
            proof {
                assert(outcomes[i as int] == outcome_view(outcome));
                assert(paths[i as int] == self.imports[i as int]@);
            }
            match Config::new(self.imports[i].as_str(), outcome) {
                Ok(config) => {
                    configs.push(config);
                    assert(config_views(configs@) =~= before.push(config@));
                },
                Err(error) => {
                    proof {
                        lemma_error_stays(paths, outcomes, (i + 1) as nat, outcomes.len());
                    }
                    return Err(error);
                },
            }
        }
        Ok(configs)
    }

    /// One step of the search for imported files: takes what came of reading
    /// the imports of the file that is next, in their order, and adds the
    /// files among them that are not known yet. A reading that failed ends
    /// the search with its error. There has to be one reading for each
    /// import, or fewer with the last one a failure. A search that has ended
    /// stays as it is, whatever is handed in.
    pub fn load_and_merge(state: Resolver, loaded: Vec<Result<String, Error>>) -> (result: Result<
        Resolver,
        Error,
    >)
        requires
            !state@.finished() ==> readings_fit(
                state@.configs[state@.next as int].imports,
                outcome_views(loaded@),
            ),
        ensures
            state@.finished() ==> result is Ok && result->Ok_0@ == state@,
            !state@.finished() ==> match load_all(
                state@.configs[state@.next as int].imports,
                outcome_views(loaded@),
            ) {
                Ok(found) => result is Ok && result->Ok_0@ == state@.step(found),
                Err(error) => result is Err && result->Err_0@ == error,
            },
            result is Ok ==> result->Ok_0@.well_formed(),
    {
        proof {
            use_type_invariant(&state);
        }
        if state.next >= state.pass_len {
            return Ok(state);
        }
        let ghost before = state@;
        let Resolver { configs, pass_len, next } = state;
        let mut configs = configs;
        assert(config_views(configs@)[next as int] == configs[next as int]@);
        let found = match configs[next].load_to_configs(loaded) {
            Ok(found) => found,
            Err(error) => {
                return Err(error);
            },
        };
        let ghost new = config_views(found@);
        for config in it: found
            invariant
                it.seq() == found@,
                new == config_views(found@),
                config_views(configs@) == merged(before.configs, new.take(it.index())),
        {
            proof {
                assert(new.take(it.index() + 1).drop_last() =~= new.take(it.index()));
            }
            if !is_among(&configs, &config) {
                configs.push(config);
            }
        }
        proof {
            assert(new.take(found@.len() as int) =~= new);
            lemma_step_grows(before, new);
        }
        let state = if next + 1 < pass_len {
            Resolver { configs, pass_len, next: next + 1 }
        } else if configs.len() != pass_len {
            let pass_len = configs.len();
            Resolver { configs, pass_len, next: 0 }
        } else {
            Resolver { configs, pass_len, next: pass_len }
        };
        Ok(state)
    }
}

/// Once the readings up to `k` hold an error, more readings do not change it.
pub proof fn lemma_error_stays(
    paths: Seq<Seq<char>>,
    loaded: Seq<Result<Seq<char>, ErrorView>>,
    k: nat,
    n: nat,
)
    requires
        k <= n,
        load_first(paths, loaded, k) is Err,
    ensures
        load_first(paths, loaded, n) == load_first(paths, loaded, k),
    decreases n - k,
{
    if k < n {
        lemma_error_stays(paths, loaded, k, (n - 1) as nat);
    }
}

} // verus!
