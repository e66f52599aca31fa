//! The resolved configuration record: one profile with its defaults, its
//! collections, and the exclusion queries the rest of the tool asks of it.
//! The current working directory is an explicit argument of every query that
//! depends on it, so the record itself stays pure.

use vstd::prelude::*;
use vstd::seq_lib::*;

use crate::glob::ExclusionMatcher;
use crate::glob::Matcher;
use crate::glob::spec_any_match;
use crate::path::FilePath;
use crate::path::Seg;
use crate::path::path_is_absolute;
use crate::path::path_relative_from;
use crate::path::render_path;
use crate::path::spec_join;
use crate::path::spec_relative_path;

verus! {

/// The kinds of test target coverage is collected on.
#[derive(Clone, Copy, PartialEq, Eq, Structural, Debug)]
pub enum RunType {
    Tests,
    Doctests,
    Benchmarks,
    Examples,
}

/// The report formats a run can produce.
#[derive(Clone, Copy, PartialEq, Eq, Structural, Debug)]
pub enum OutputFile {
    Json,
    Toml,
    Stdout,
    Xml,
    Html,
}

/// The continuous-integration services the coveralls report can name.
#[derive(PartialEq, Eq, Debug)]
pub enum CiService {
    Travis,
    TravisPro,
    Circle,
    Semaphore,
    Jenkins,
    Codeship,
    Other(String),
}

/// What `get_base_dir` resolved to: a directory ready to use, or a joined
/// path that still needs filesystem canonicalization (a step this crate
/// leaves to its caller, since it reads the disk).
pub enum BaseDir {
    Ready(FilePath),
    Canonicalize(FilePath),
}

/// One fully resolved configuration profile.
pub struct Config {
    /// Profile name: empty until the profile is loaded from a keyed table.
    pub name: String,
    /// Path to the project's cargo manifest.
    pub manifest: FilePath,
    /// Path of the configuration file this profile was loaded from.
    pub config: Option<FilePath>,
    /// Project root; when relative it is resolved against the working
    /// directory at query time.
    pub root: Option<FilePath>,
    /// Also run tests with the ignored attribute.
    pub run_ignored: bool,
    /// Ignore test functions in coverage statistics.
    pub ignore_tests: bool,
    /// Ignore panic macros in code.
    pub ignore_panics: bool,
    /// Add a clean step when preparing the target project.
    pub force_clean: bool,
    /// Print information to the user.
    pub verbose: bool,
    /// Print internal debugging information to the user.
    pub debug: bool,
    /// Count hits in coverage.
    pub count: bool,
    /// Run line coverage (default).
    pub line_coverage: bool,
    /// Run branch coverage.
    pub branch_coverage: bool,
    /// Directory to write output files to.
    pub output_directory: FilePath,
    /// Key relating to the coveralls service or repo.
    pub coveralls: Option<String>,
    /// The CI tool in use, if any.
    pub ci_tool: Option<CiService>,
    /// Endpoint the report is sent to instead, when coveralls is set.
    pub report_uri: Option<String>,
    /// Forward unexpected signals back to the tracee.
    pub forward_signals: bool,
    /// Include all available features in the target build.
    pub all_features: bool,
    /// Do not include default features in the target build.
    pub no_default_features: bool,
    /// Build all packages in the workspace.
    pub all: bool,
    /// Seconds to wait before a test times out.
    pub test_timeout_secs: u64,
    /// Build in release mode.
    pub release: bool,
    /// Build the tests only, don't run coverage.
    pub no_run: bool,
    /// Don't update `Cargo.lock`.
    pub locked: bool,
    /// Don't update `Cargo.lock` or any caches.
    pub frozen: bool,
    /// Directory for generated artifacts.
    pub target_dir: Option<FilePath>,
    /// Run without accessing the network.
    pub offline: bool,
    /// Types of tests to collect coverage on.
    pub run_types: Vec<RunType>,
    /// Packages to include when building the target project.
    pub packages: Vec<String>,
    /// Packages to exclude from testing.
    pub exclude: Vec<String>,
    /// Files to exclude from coverage: raw glob patterns with their lazily
    /// compiled matchers.
    pub exclusions: ExclusionMatcher,
    /// Varargs to be forwarded to the test executables.
    pub varargs: Vec<String>,
    /// Features to include in the target project build.
    pub features: Vec<String>,
    /// Unstable cargo features to use.
    pub unstable_features: Vec<String>,
    /// Output files to generate.
    pub generate: Vec<OutputFile>,
}

/// The path a candidate is matched under: relative to the base directory
/// when a relative path can be derived, the candidate unchanged otherwise.
pub open spec fn spec_strip(path: Seq<Seg>, base: Seq<Seg>) -> Seq<Seg> {
    match spec_relative_path(path, base) {
        Some(r) => r,
        None => path,
    }
}

impl Config {
    /// Well-formedness: the exclusion cache covers a prefix of the raw
    /// pattern list, entry by entry.
    pub open spec fn wf(&self) -> bool {
        self.exclusions.wf()
    }

    /// True exactly when a coveralls key is present.
    pub fn is_coveralls(&self) -> (r: bool)
        ensures
            r == (self.coveralls is Some),
    {
        self.coveralls.is_some()
    }

    /// True exactly when the output directory is the given working
    /// directory; evaluated against the directory handed in at each call.
    pub fn is_default_output_dir(&self, cwd: &FilePath) -> (r: bool)
        ensures
            r == (self.output_directory@ == cwd@),
    {
        self.output_directory.path_eq(cwd)
    }

    /// Applies the couplings among the run-shape flags as they come from the
    /// command line: asking for debug output also turns on verbose output,
    /// and the workspace flag is another way of asking to build every
    /// package. Nothing else changes.
    pub fn set_linked_flags(&mut self, verbose: bool, debug: bool, all: bool, workspace: bool)
        ensures
            *final(self) == (Config {
                verbose: verbose || debug,
                debug: debug,
                all: all || workspace,
                ..*old(self)
            }),
    {
        self.verbose = verbose || debug;
        self.debug = debug;
        self.all = all || workspace;
    }

    /// The base directory all candidate paths are normalized against: the
    /// root verbatim when absolute, the root joined onto the working
    /// directory (still to be canonicalized by the caller) when relative,
    /// and the working directory itself when no root is set.
    pub fn get_base_dir(&self, cwd: &FilePath) -> (r: BaseDir)
        ensures
            self.root is None ==> (r matches BaseDir::Ready(p) && p@ == cwd@),
            self.root matches Some(rt) ==> (if path_is_absolute(rt@) {
                r matches BaseDir::Ready(p) && p@ == rt@
            } else {
                r matches BaseDir::Canonicalize(p) && p@ == spec_join(cwd@, rt@)
            }),
    {
        match &self.root {
            Option::None => BaseDir::Ready(cwd.clone_path()),
            Option::Some(rt) => {
                if rt.is_absolute() {
                    BaseDir::Ready(rt.clone_path())
                } else {
                    BaseDir::Canonicalize(cwd.join(rt))
                }
            },
        }
    }

    /// The candidate path made relative to the base directory; when no
    /// relative path can be derived the candidate comes back unchanged, so
    /// that exclusion matching degrades gracefully instead of failing.
    pub fn strip_base_dir(&self, path: &FilePath, base_dir: &FilePath) -> (r: FilePath)
        ensures
            r@ == spec_strip(path@, base_dir@),
    {
        match path_relative_from(path, base_dir) {
            Option::Some(p) => p,
            Option::None => path.clone_path(),
        }
    }

    /// Whether the path is excluded from coverage: the candidate is
    /// normalized against the base directory, rendered, and held against
    /// every raw glob pattern. Matchers not compiled yet are compiled and
    /// appended to the cache first; nothing else of the profile changes, and
    /// the answer is a function of the raw patterns and the two paths alone.
    pub fn exclude_path(&mut self, path: &FilePath, base_dir: &FilePath) -> (r: bool)
        requires
            old(self).wf(),
        ensures
            final(self).wf(),
            r == spec_any_match(
                old(self).exclusions.patterns(),
                render_path(spec_strip(path@, base_dir@)),
            ),
            final(self).exclusions.patterns() == old(self).exclusions.patterns(),
            old(self).exclusions.compiled_matchers().is_prefix_of(
                final(self).exclusions.compiled_matchers(),
            ),
            final(self).exclusions.compiled_matchers().len()
                == final(self).exclusions.patterns().len(),
            *final(self) == (Config { exclusions: final(self).exclusions, ..*old(self) }),
    {
        let project = self.strip_base_dir(path, base_dir);
        let text = project.to_string();
        self.exclusions.matches_any(text.as_str())
    }
}

impl Default for Config {
    /// The documented defaults: line coverage on, a sixty-second timeout,
    /// the well-known manifest name, one run type, and everything else off
    /// or empty.
    fn default() -> (c: Config)
        ensures
            c.wf(),
            c.name@ == Seq::<char>::empty(),
            c.manifest@ =~= seq![Seg::Name("Cargo.toml"@)],
            c.config is None,
            c.root is None,
            !c.run_ignored,
            !c.ignore_tests,
            !c.ignore_panics,
            !c.force_clean,
            !c.verbose,
            !c.debug,
            !c.count,
            c.line_coverage,
            !c.branch_coverage,
            c.output_directory@ == Seq::<Seg>::empty(),
            c.coveralls is None,
            c.ci_tool is None,
            c.report_uri is None,
            !c.forward_signals,
            !c.all_features,
            !c.no_default_features,
            !c.all,
            c.test_timeout_secs == 60,
            !c.release,
            !c.no_run,
            !c.locked,
            !c.frozen,
            c.target_dir is None,
            !c.offline,
            c.run_types@ =~= seq![RunType::Tests],
            c.packages@ == Seq::<String>::empty(),
            c.exclude@ == Seq::<String>::empty(),
            c.exclusions.patterns() =~= Seq::<Seq<char>>::empty(),
            c.exclusions.compiled_matchers() =~= Seq::<Matcher>::empty(),
            c.varargs@ == Seq::<String>::empty(),
            c.features@ == Seq::<String>::empty(),
            c.unstable_features@ == Seq::<String>::empty(),
            c.generate@ == Seq::<OutputFile>::empty(),
    {
        let mut manifest = FilePath::new();
        manifest.push_normal(String::from_str("Cargo.toml"));
        let mut run_types: Vec<RunType> = Vec::new();
        run_types.push(RunType::Tests);
        Config {
            name: String::new(),
            manifest,
            config: Option::None,
            root: Option::None,
            run_ignored: false,
            ignore_tests: false,
            ignore_panics: false,
            force_clean: false,
            verbose: false,
            debug: false,
            count: false,
            line_coverage: true,
            branch_coverage: false,
            output_directory: FilePath::new(),
            coveralls: Option::None,
            ci_tool: Option::None,
            report_uri: Option::None,
            forward_signals: false,
            all_features: false,
            no_default_features: false,
            all: false,
            test_timeout_secs: 60,
            release: false,
            no_run: false,
            locked: false,
            frozen: false,
            target_dir: Option::None,
            offline: false,
            run_types,
            packages: Vec::new(),
            exclude: Vec::new(),
            exclusions: ExclusionMatcher::empty(),
            varargs: Vec::new(),
            features: Vec::new(),
            unstable_features: Vec::new(),
            generate: Vec::new(),
        }
    }
}

} // verus!
