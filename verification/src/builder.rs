//! The build orchestrator. A `BuildJob` is the state machine that drives
//! one package from `Requested` through source retrieval, dependency
//! extraction and satisfaction, the native build, artifact discovery and
//! caching, to `Done` — or to the terminal `Failed`. The outside work
//! (cloning, running the builder, copying files) is performed by the
//! caller, who feeds each outcome back as a `BuildEvent` and performs the
//! `BuildAction` the machine hands out next. `PackageBuilder` collects the
//! cache operations and the pure pieces of that flow.

use vstd::prelude::*;
use vstd::string::*;

use crate::cache::ArtifactCache;
use crate::cache::find_match;
use crate::cache::join_lines;
use crate::cache::matches_package;
use crate::cache::sidecar_lookup;
use crate::cache::spec_read_deps;
use crate::classify::DependencyBuckets;
use crate::error::BuildError;
use crate::srcinfo::extract_deps;
use crate::strutil::append_all;
use crate::strutil::clone_string_vec;
use crate::strutil::contains_seq;
use crate::strutil::str_contains;
use crate::strutil::vec_contains_str;
use crate::cache::artifact_matches;

verus! {

/// Whether a filename in the build directory is the produced artifact of
/// the package: artifact suffix, exact name prefix, and not a debug-info
/// package.
pub open spec fn built_candidate(f: Seq<char>, name: Seq<char>) -> bool {
    matches_package(f, name) && !contains_seq(f, "-debug-"@)
}

/// The first filename among `files` that is a built artifact of `name`.
pub open spec fn find_built(files: Seq<Seq<char>>, name: Seq<char>) -> Option<Seq<char>>
    decreases files.len(),
{
    if files.len() == 0 {
        None
    } else if built_candidate(files.first(), name) {
        Some(files.first())
    } else {
        find_built(files.drop_first(), name)
    }
}

/// An index with the first-match properties determines `find_built`.
pub proof fn lemma_find_built_at(files: Seq<Seq<char>>, name: Seq<char>, i: int)
    requires
        0 <= i <= files.len(),
        forall|k: int| 0 <= k < i ==> !built_candidate(files[k], name),
        i < files.len() ==> built_candidate(files[i], name),
    ensures
        find_built(files, name) == (if i < files.len() {
            Some(files[i])
        } else {
            None::<Seq<char>>
        }),
    decreases i,
{
    if i == 0 {
    } else {
        assert(!built_candidate(files[0], name));
        lemma_find_built_at(files.drop_first(), name, i - 1);
    }
}

/// The decimal digit `d` as a character.
pub open spec fn digit_char(d: int) -> char {
    if d == 0 {
        '0'
    } else if d == 1 {
        '1'
    } else if d == 2 {
        '2'
    } else if d == 3 {
        '3'
    } else if d == 4 {
        '4'
    } else if d == 5 {
        '5'
    } else if d == 6 {
        '6'
    } else if d == 7 {
        '7'
    } else if d == 8 {
        '8'
    } else {
        '9'
    }
}

/// The decimal rendering of `n`, most significant digit first.
pub open spec fn spec_decimal(n: nat) -> Seq<char>
    decreases n,
{
    if n < 10 {
        seq![digit_char(n as int)]
    } else {
        spec_decimal(n / 10).push(digit_char((n % 10) as int))
    }
}

fn append_digit(s: &mut String, d: u32)
    requires
        d < 10,
    ensures
        final(s)@ == old(s)@.push(digit_char(d as int)),
{
    if d == 0 {
        s.append("0");
        proof {
            reveal_strlit("0");
            assert(old(s)@ + "0"@ =~= old(s)@.push('0'));
        }
    } else if d == 1 {
        s.append("1");
        proof {
            reveal_strlit("1");
            assert(old(s)@ + "1"@ =~= old(s)@.push('1'));
        }
    } else if d == 2 {
        s.append("2");
        proof {
            reveal_strlit("2");
            assert(old(s)@ + "2"@ =~= old(s)@.push('2'));
        }
    } else if d == 3 {
        s.append("3");
        proof {
            reveal_strlit("3");
            assert(old(s)@ + "3"@ =~= old(s)@.push('3'));
        }
    } else if d == 4 {
        s.append("4");
        proof {
            reveal_strlit("4");
            assert(old(s)@ + "4"@ =~= old(s)@.push('4'));
        }
    } else if d == 5 {
        s.append("5");
        proof {
            reveal_strlit("5");
            assert(old(s)@ + "5"@ =~= old(s)@.push('5'));
        }
    } else if d == 6 {
        s.append("6");
        proof {
            reveal_strlit("6");
            assert(old(s)@ + "6"@ =~= old(s)@.push('6'));
        }
    } else if d == 7 {
        s.append("7");
        proof {
            reveal_strlit("7");
            assert(old(s)@ + "7"@ =~= old(s)@.push('7'));
        }
    } else if d == 8 {
        s.append("8");
        proof {
            reveal_strlit("8");
            assert(old(s)@ + "8"@ =~= old(s)@.push('8'));
        }
    } else {
        s.append("9");
        proof {
            reveal_strlit("9");
            assert(old(s)@ + "9"@ =~= old(s)@.push('9'));
        }
    }
}

/// The characters of the digit values in `ds`, read back to front.
pub open spec fn rev_digit_chars(ds: Seq<u32>) -> Seq<char> {
    Seq::new(ds.len(), |i: int| digit_char(ds[ds.len() - 1 - i] as int))
}

/// Renders an exit code in decimal.
pub fn u32_to_string(n: u32) -> (r: String)
    ensures
        r@ == spec_decimal(n as nat),
{
    let mut digits: Vec<u32> = Vec::new();
    let mut m = n;
    loop
        invariant_except_break
            forall|k: int| 0 <= k < digits@.len() ==> digits@[k] < 10,
            digits@.len() == 0 || m > 0,
            spec_decimal(n as nat) == (if digits@.len() == 0 {
                spec_decimal(m as nat)
            } else {
                spec_decimal(m as nat) + rev_digit_chars(digits@)
            }),
        ensures
            forall|k: int| 0 <= k < digits@.len() ==> digits@[k] < 10,
            spec_decimal(n as nat) == rev_digit_chars(digits@),
        decreases m, (if digits@.len() == 0 {
            1int
        } else {
            0int
        }),
    {
        let ghost pre = digits@;
        let d = m % 10;
        digits.push(d);
        proof {
            assert(rev_digit_chars(digits@) =~= seq![digit_char(d as int)] + rev_digit_chars(pre));
            if pre.len() == 0 {
                assert(rev_digit_chars(pre) =~= Seq::<char>::empty());
                assert(spec_decimal(m as nat) + rev_digit_chars(pre) =~= spec_decimal(m as nat));
            }
            if m >= 10 {
                assert(spec_decimal(m as nat) == spec_decimal((m / 10) as nat).push(
                    digit_char(d as int),
                ));
                assert(spec_decimal((m / 10) as nat) + rev_digit_chars(digits@)
                    =~= spec_decimal(m as nat) + rev_digit_chars(pre));
            } else {
                assert(spec_decimal(m as nat) =~= seq![digit_char(d as int)]);
                assert(rev_digit_chars(digits@) =~= spec_decimal(m as nat) + rev_digit_chars(pre));
            }
        }
        m = m / 10;
        if m == 0 {
            break ;
        }
    }
    let mut out = String::new();
    let mut j = digits.len();
    proof {
        assert(out@ =~= rev_digit_chars(digits@).take(0));
    }
    while j > 0
        invariant
            0 <= j <= digits@.len(),
            forall|k: int| 0 <= k < digits@.len() ==> digits@[k] < 10,
            out@ == rev_digit_chars(digits@).take(digits@.len() - j),
        decreases j,
    {
        j = j - 1;
        append_digit(&mut out, digits[j]);
        proof {
            let rc = rev_digit_chars(digits@);
            assert(rc[digits@.len() - 1 - j] == digit_char(digits@[j as int] as int));
            assert(rc.take(digits@.len() - j) =~= rc.take(digits@.len() - 1 - j).push(
                digit_char(digits@[j as int] as int),
            ));
        }
    }
    proof {
        assert(rev_digit_chars(digits@).take(digits@.len() as int) =~= rev_digit_chars(digits@));
    }
    out
}

/// The names in `more` appended to `base` in order, each skipped when
/// already present.
pub open spec fn dedup_append(base: Seq<Seq<char>>, more: Seq<Seq<char>>) -> Seq<Seq<char>>
    decreases more.len(),
{
    if more.len() == 0 {
        base
    } else {
        let prev = dedup_append(base, more.drop_last());
        if prev.contains(more.last()) {
            prev
        } else {
            prev.push(more.last())
        }
    }
}

proof fn lemma_dedup_push(base: Seq<Seq<char>>, more: Seq<Seq<char>>, x: Seq<char>)
    ensures
        dedup_append(base, more.push(x)) == (if dedup_append(base, more).contains(x) {
            dedup_append(base, more)
        } else {
            dedup_append(base, more).push(x)
        }),
{
    assert(more.push(x).drop_last() =~= more);
    assert(more.push(x).last() == x);
}

proof fn lemma_dedup_append_assoc(b: Seq<Seq<char>>, m1: Seq<Seq<char>>, m2: Seq<Seq<char>>)
    ensures
        dedup_append(dedup_append(b, m1), m2) == dedup_append(b, m1 + m2),
    decreases m2.len(),
{
    if m2.len() == 0 {
        assert(m1 + m2 =~= m1);
    } else {
        lemma_dedup_append_assoc(b, m1, m2.drop_last());
        assert((m1 + m2).drop_last() =~= m1 + m2.drop_last());
        assert((m1 + m2).last() == m2.last());
    }
}

/// Extends `dst` with the members of `src` not already present.
fn dedup_extend(dst: &mut Vec<String>, src: &Vec<String>)
    ensures
        final(dst).deep_view() == dedup_append(old(dst).deep_view(), src.deep_view()),
{
    let ghost base = dst.deep_view();
    let ghost sv = src.deep_view();
    let mut i: usize = 0;
    proof {
        assert(sv.take(0) =~= Seq::<Seq<char>>::empty());
        assert(dedup_append(base, sv.take(0)) == base);
    }
    while i < src.len()
        invariant
            0 <= i <= src@.len(),
            base == old(dst).deep_view(),
            sv == src.deep_view(),
            dst.deep_view() == dedup_append(base, sv.take(i as int)),
        decreases src@.len() - i,
    {
        proof {
            lemma_dedup_push(base, sv.take(i as int), sv[i as int]);
            assert(sv.take(i + 1) =~= sv.take(i as int).push(sv[i as int]));
        }
        if !vec_contains_str(dst, src[i].as_str()) {
            let ghost pre = dst.deep_view();
            dst.push(src[i].clone());
            proof {
                assert(dst.deep_view() =~= pre.push(sv[i as int]));
            }
        }
        i += 1;
    }
    proof {
        assert(sv.take(sv.len() as int) =~= sv);
    }
}

/// The states a build passes through.
#[derive(Clone, Copy, Debug, PartialEq, Eq, Structural)]
pub enum BuildState {
    Requested,
    SourceFetched,
    DepsExtracted,
    DepsSatisfied,
    Built,
    Cached,
    Done,
    Failed,
}

/// The native builder's result: its exit status with the output that was
/// fully captured before the status was inspected.
pub enum BuilderOutcome {
    Success,
    Failure { exit_code: u32, output: String },
}

/// What the outside world reports back to a build job.
pub enum BuildEvent {
    /// The source tree is in place: fetched now, or reused from a prior
    /// attempt.
    SourceReady,
    /// Source retrieval failed.
    SourceFailed { reason: String },
    /// The build-description file's text, or `None` when it is absent or
    /// unreadable.
    DescriptionRead { content: Option<String> },
    /// The declared dependencies are satisfied; the recorded names go into
    /// the sidecar.
    DependenciesInstalled { installed: Vec<String> },
    /// Satisfying the declared dependencies failed.
    DependenciesFailed { error: BuildError },
    /// The native builder exited.
    BuilderExited { outcome: BuilderOutcome },
    /// The filenames now present in the build directory.
    ArtifactListing { files: Vec<String> },
    /// The located artifact was copied into the cache and its sidecar
    /// written.
    ArtifactStored,
    /// Copying the artifact into the cache failed.
    StoreFailed { reason: String },
}

/// What the caller must do next.
pub enum BuildAction {
    /// Read the build-description file and report `DescriptionRead`.
    ReadDescription,
    /// Classify and satisfy these dependencies, then report
    /// `DependenciesInstalled` or `DependenciesFailed`.
    SatisfyDependencies { dependencies: Vec<String> },
    /// Run the native builder and report `BuilderExited` with its fully
    /// captured output.
    RunBuilder,
    /// List the build directory and report `ArtifactListing`.
    ListArtifacts,
    /// Copy this artifact into the cache, persist the sidecar dependency
    /// list, and report `ArtifactStored` or `StoreFailed`.
    StoreArtifact { file_name: String, dependencies: Vec<String> },
    /// The build is cached; `finish` concludes it.
    Finish,
    /// Nothing to do: the event did not advance the job.
    Hold,
}

/// One package's build, from request to terminal state.
pub struct BuildJob {
    pub package: String,
    pub state: BuildState,
    pub declared_deps: Vec<String>,
    pub installed_deps: Vec<String>,
    pub artifact: Option<String>,
    pub failure: Option<BuildError>,
}

/// The fields `step` never changes.
pub open spec fn same_but_state(pre: BuildJob, post: BuildJob) -> bool {
    post.package == pre.package && post.declared_deps == pre.declared_deps && post.installed_deps
        == pre.installed_deps && post.artifact == pre.artifact && post.failure == pre.failure
}

/// The fields a failing transition never changes.
pub open spec fn same_but_failure(pre: BuildJob, post: BuildJob) -> bool {
    post.package == pre.package && post.declared_deps == pre.declared_deps && post.installed_deps
        == pre.installed_deps && post.artifact == pre.artifact
}

/// Whether `f` is a builder-stage failure with exactly this source text and
/// stage name.
pub open spec fn is_stage_failure(f: Option<BuildError>, source: Seq<char>, stage: Seq<char>) -> bool {
    f matches Some(BuildError::MakePkgError { source: s, stage: t }) && s@ == source && t@ == stage
}

/// The transition relation of the build state machine: given the state
/// before and the event, what the state after and the action handed out
/// must be. Any pair outside the table leaves the job unchanged.
pub open spec fn step_spec(pre: BuildJob, ev: BuildEvent, post: BuildJob, action: BuildAction) -> bool {
    match (pre.state, ev) {
        (BuildState::Requested, BuildEvent::SourceReady) => post.state is SourceFetched
            && same_but_state(pre, post) && action is ReadDescription,
        (BuildState::Requested, BuildEvent::SourceFailed { reason }) => post.state is Failed && (
        post.failure matches Some(BuildError::GitError { source, package }) && source@
            == "Git clone failed: "@ + reason@ && package@ == pre.package@) && same_but_failure(
            pre,
            post,
        ) && action is Hold,
        (BuildState::SourceFetched, BuildEvent::DescriptionRead { content }) => match content {
            Some(text) => post.state is DepsExtracted && post.declared_deps.deep_view()
                == extract_deps(text@) && post.package == pre.package && post.installed_deps
                == pre.installed_deps && post.artifact == pre.artifact && post.failure
                == pre.failure && (action matches BuildAction::SatisfyDependencies { dependencies }
                && dependencies.deep_view() == extract_deps(text@)),
            None => post.state is Failed && is_stage_failure(
                post.failure,
                ".SRCINFO file not found"@,
                "dependency extraction"@,
            ) && same_but_failure(pre, post) && action is Hold,
        },
        (BuildState::DepsExtracted, BuildEvent::DependenciesInstalled { installed }) => post.state
            is DepsSatisfied && post.installed_deps == installed && post.package == pre.package
            && post.declared_deps == pre.declared_deps && post.artifact == pre.artifact
            && post.failure == pre.failure && action is RunBuilder,
        (BuildState::DepsExtracted, BuildEvent::DependenciesFailed { error }) => post.state
            is Failed && post.failure == Some(error) && same_but_failure(pre, post)
            && action is Hold,
        (BuildState::DepsSatisfied, BuildEvent::BuilderExited { outcome }) => match outcome {
            BuilderOutcome::Success => post.state is Built && same_but_state(pre, post)
                && action is ListArtifacts,
            BuilderOutcome::Failure { exit_code, output } => post.state is Failed
                && is_stage_failure(
                post.failure,
                "Exit code: "@ + spec_decimal(exit_code as nat),
                "build"@,
            ) && same_but_failure(pre, post) && action is Hold,
        },
        (BuildState::Built, BuildEvent::ArtifactListing { files }) => match find_built(
            files.deep_view(),
            pre.package@,
        ) {
            Some(f) => post.state is Built && post.artifact.deep_view() == Some(f) && post.package
                == pre.package && post.declared_deps == pre.declared_deps && post.installed_deps
                == pre.installed_deps && post.failure == pre.failure && (action matches
            BuildAction::StoreArtifact { file_name, dependencies } && file_name@ == f
                && dependencies.deep_view() == pre.installed_deps.deep_view()),
            None => post.state is Failed && is_stage_failure(
                post.failure,
                "No valid package file found for "@ + pre.package@,
                "package discovery"@,
            ) && same_but_failure(pre, post) && action is Hold,
        },
        (BuildState::Built, BuildEvent::ArtifactStored) => if pre.artifact is Some {
            post.state is Cached && same_but_state(pre, post) && action is Finish
        } else {
            post == pre && action is Hold
        },
        (BuildState::Built, BuildEvent::StoreFailed { reason }) => post.state is Failed
            && is_stage_failure(
            post.failure,
            "Failed to cache package: "@ + reason@,
            "caching"@,
        ) && same_but_failure(pre, post) && action is Hold,
        _ => post == pre && action is Hold,
    }
}

/// An extracted dependency list survives the sidecar exactly: the names a
/// build-description text yields are non-empty and newline-free, so
/// encoding them as a sidecar and splitting the sidecar back gives the
/// same list in the same order.
pub proof fn lemma_extracted_deps_survive_sidecar(text: Seq<char>)
    ensures
        crate::strutil::spec_lines(join_lines(extract_deps(text))) == extract_deps(text),
{
    crate::srcinfo::lemma_extracted_names_well_formed(text);
    let deps = extract_deps(text);
    assert forall|i: int| 0 <= i < deps.len() implies !(#[trigger] deps[i]).contains('\n') by {
        if deps[i].contains('\n') {
            let k = choose|k: int| 0 <= k < deps[i].len() && deps[i][k] == '\n';
            assert(!crate::strutil::newline_free(deps[i]));
        }
    }
    crate::cache::lemma_dep_list_round_trip(deps);
}

/// A terminal job is inert: once a build is done or has failed, no event
/// changes it and no further action is handed out, so a failed build can
/// never go on to a partial install.
pub proof fn lemma_terminal_states_absorb(
    pre: BuildJob,
    ev: BuildEvent,
    post: BuildJob,
    action: BuildAction,
)
    requires
        pre.state is Done || pre.state is Failed,
        step_spec(pre, ev, post, action),
    ensures
        post == pre,
        action is Hold,
{
}

impl BuildJob {
    /// A fresh job for the package, waiting for its source tree.
    pub fn new(package: String) -> (r: BuildJob)
        ensures
            r.state is Requested,
            r.package == package,
            r.declared_deps.deep_view() == Seq::<Seq<char>>::empty(),
            r.installed_deps.deep_view() == Seq::<Seq<char>>::empty(),
            r.artifact is None,
            r.failure is None,
    {
        let r = BuildJob {
            package,
            state: BuildState::Requested,
            declared_deps: Vec::new(),
            installed_deps: Vec::new(),
            artifact: None,
            failure: None,
        };
        proof {
            assert(r.declared_deps.deep_view() =~= Seq::<Seq<char>>::empty());
            assert(r.installed_deps.deep_view() =~= Seq::<Seq<char>>::empty());
        }
        r
    }

    /// Feeds one event into the job and hands back what to do next,
    /// exactly as the transition relation prescribes.
    pub fn step(&mut self, ev: BuildEvent) -> (action: BuildAction)
        ensures
            step_spec(*old(self), ev, *final(self), action),
    {
        match (self.state, ev) {
            (BuildState::Requested, BuildEvent::SourceReady) => {
                self.state = BuildState::SourceFetched;
                BuildAction::ReadDescription
            },
            (BuildState::Requested, BuildEvent::SourceFailed { reason }) => {
                let msg = String::from_str("Git clone failed: ").concat(reason.as_str());
                self.failure = Some(
                    BuildError::GitError { source: msg, package: self.package.clone() },
                );
                self.state = BuildState::Failed;
                BuildAction::Hold
            },
            (BuildState::SourceFetched, BuildEvent::DescriptionRead { content }) => match content {
                Some(text) => {
                    let deps = crate::srcinfo::extract_dependencies(text.as_str());
                    let handed = clone_string_vec(&deps);
                    self.declared_deps = deps;
                    self.state = BuildState::DepsExtracted;
                    BuildAction::SatisfyDependencies { dependencies: handed }
                },
                None => {
                    self.failure = Some(
                        BuildError::MakePkgError {
                            source: String::from_str(".SRCINFO file not found"),
                            stage: String::from_str("dependency extraction"),
                        },
                    );
                    self.state = BuildState::Failed;
                    BuildAction::Hold
                },
            },
            (BuildState::DepsExtracted, BuildEvent::DependenciesInstalled { installed }) => {
                self.installed_deps = installed;
                self.state = BuildState::DepsSatisfied;
                BuildAction::RunBuilder
            },
            (BuildState::DepsExtracted, BuildEvent::DependenciesFailed { error }) => {
                self.failure = Some(error);
                self.state = BuildState::Failed;
                BuildAction::Hold
            },
            (BuildState::DepsSatisfied, BuildEvent::BuilderExited { outcome }) => match outcome {
                BuilderOutcome::Success => {
                    self.state = BuildState::Built;
                    BuildAction::ListArtifacts
                },
                BuilderOutcome::Failure { exit_code, output: _ } => {
                    let msg = String::from_str("Exit code: ").concat(
                        u32_to_string(exit_code).as_str(),
                    );
                    self.failure = Some(
                        BuildError::MakePkgError { source: msg, stage: String::from_str("build") },
                    );
                    self.state = BuildState::Failed;
                    BuildAction::Hold
                },
            },
            (BuildState::Built, BuildEvent::ArtifactListing { files }) => {
                let pkg = self.package.clone();
                match PackageBuilder::find_built_package(&files, pkg.as_str()) {
                    Ok(f) => {
                        let handed = clone_string_vec(&self.installed_deps);
                        self.artifact = Some(f.clone());
                        BuildAction::StoreArtifact { file_name: f, dependencies: handed }
                    },
                    Err(e) => {
                        self.failure = Some(e);
                        self.state = BuildState::Failed;
                        BuildAction::Hold
                    },
                }
            },
            (BuildState::Built, BuildEvent::ArtifactStored) => {
                if self.artifact.is_some() {
                    self.state = BuildState::Cached;
                    BuildAction::Finish
                } else {
                    BuildAction::Hold
                }
            },
            (BuildState::Built, BuildEvent::StoreFailed { reason }) => {
                let msg = String::from_str("Failed to cache package: ").concat(reason.as_str());
                self.failure = Some(
                    BuildError::MakePkgError { source: msg, stage: String::from_str("caching") },
                );
                self.state = BuildState::Failed;
                BuildAction::Hold
            },
            (_, _) => BuildAction::Hold,
        }
    }

    /// Concludes a cached build: the job is done and the caller receives
    /// the artifact filename to install.
    pub fn finish(&mut self) -> (r: Option<String>)
        ensures
            old(self).state is Cached ==> final(self).state is Done && same_but_state(
                *old(self),
                *final(self),
            ) && r.deep_view() == old(self).artifact.deep_view(),
            !(old(self).state is Cached) ==> *final(self) == *old(self) && r is None,
    {
        if self.state == BuildState::Cached {
            self.state = BuildState::Done;
            match &self.artifact {
                Some(p) => Some(p.clone()),
                None => None,
            }
        } else {
            None
        }
    }
}

/// The cache operations and pure helpers of the build flow.
pub struct PackageBuilder;

impl PackageBuilder {
    /// Parses a build-description text into the ordered, deduplicated list
    /// of bare dependency names it declares.
    pub fn get_dependencies_from_srcinfo(content: &str) -> (deps: Vec<String>)
        ensures
            deps.deep_view() == extract_deps(content@),
    {
        crate::srcinfo::extract_dependencies(content)
    }

    /// The first cached artifact filename of the package, if any.
    pub fn find_cached_package(cache: &ArtifactCache, package_name: &str) -> (r: Option<String>)
        ensures
            r.deep_view() == find_match(cache.spec_files(), package_name@),
    {
        cache.find_artifact(package_name)
    }

    /// The dependency names recorded in the package's sidecar; an absent
    /// sidecar reads as no tracked dependencies, not as an error.
    pub fn read_dependency_list(package_name: &str, cache: &ArtifactCache) -> (r: Result<
        Vec<String>,
        BuildError,
    >)
        ensures
            (r matches Ok(d) && d.deep_view() == spec_read_deps(
                cache.spec_sidecars(),
                package_name@,
            )),
    {
        match cache.sidecar_content(package_name) {
            Some(content) => Ok(crate::cache::decode_dep_list(content.as_str())),
            None => {
                let r: Vec<String> = Vec::new();
                proof {
                    assert(r.deep_view() =~= Seq::<Seq<char>>::empty());
                }
                Ok(r)
            },
        }
    }

    /// Persists the dependency list used at build time as the package's
    /// sidecar, overwriting any prior one.
    pub fn save_dependency_list(
        package_name: &str,
        cache: &mut ArtifactCache,
        dependencies: &Vec<String>,
    )
        requires
            old(cache).wf(),
        ensures
            final(cache).wf(),
            final(cache).spec_files() == old(cache).spec_files(),
            sidecar_lookup(final(cache).spec_sidecars(), package_name@) == Some(
                join_lines(dependencies.deep_view()),
            ),
            forall|o: Seq<char>|
                o != package_name@ ==> sidecar_lookup(final(cache).spec_sidecars(), o)
                    == sidecar_lookup(old(cache).spec_sidecars(), o),
    {
        let content = crate::cache::encode_dep_list(dependencies);
        cache.save_sidecar(package_name, content);
    }

    /// Records a built artifact file in the cache.
    pub fn cache_package(cache: &mut ArtifactCache, file_name: &str)
        requires
            old(cache).wf(),
        ensures
            final(cache).wf(),
            final(cache).spec_sidecars() == old(cache).spec_sidecars(),
            final(cache).spec_files() == (if old(cache).spec_files().contains(file_name@) {
                old(cache).spec_files()
            } else {
                old(cache).spec_files().push(file_name@)
            }),
    {
        cache.record_artifact(String::from_str(file_name));
    }

    /// Removes the package's artifacts and sidecar from the cache.
    pub fn delete_cached_package(cache: &mut ArtifactCache, package_name: &str) -> (r: Result<
        (),
        BuildError,
    >)
        requires
            old(cache).wf(),
        ensures
            r is Ok,
            final(cache).wf(),
            final(cache).spec_files() == old(cache).spec_files().filter(
                |f: Seq<char>| !matches_package(f, package_name@),
            ),
            sidecar_lookup(final(cache).spec_sidecars(), package_name@) is None,
            forall|o: Seq<char>|
                o != package_name@ ==> sidecar_lookup(final(cache).spec_sidecars(), o)
                    == sidecar_lookup(old(cache).spec_sidecars(), o),
    {
        cache.evict(package_name);
        Ok(())
    }

    /// Locates the artifact the builder produced: the first file with an
    /// artifact suffix and the package-name prefix that is not a
    /// debug-info package. Zero matches is a build failure.
    pub fn find_built_package(files: &Vec<String>, package_name: &str) -> (r: Result<
        String,
        BuildError,
    >)
        ensures
            (find_built(files.deep_view(), package_name@) matches Some(f) && (r matches Ok(s)
                && s@ == f)) || (find_built(files.deep_view(), package_name@) is None && (
            r matches Err(e) && is_stage_failure(
                Some(e),
                "No valid package file found for "@ + package_name@,
                "package discovery"@,
            ))),
    {
        let mut i: usize = 0;
        while i < files.len()
            invariant
                0 <= i <= files@.len(),
                forall|k: int|
                    0 <= k < i ==> !built_candidate(files.deep_view()[k], package_name@),
            decreases files@.len() - i,
        {
            if artifact_matches(files[i].as_str(), package_name) && !str_contains(
                files[i].as_str(),
                "-debug-",
            ) {
                proof {
                    lemma_find_built_at(files.deep_view(), package_name@, i as int);
                }
                return Ok(files[i].clone());
            }
            i += 1;
        }
        proof {
            lemma_find_built_at(files.deep_view(), package_name@, files.deep_view().len() as int);
        }
        Err(
            BuildError::MakePkgError {
                source: String::from_str("No valid package file found for ").concat(package_name),
                stage: String::from_str("package discovery"),
            },
        )
    }

    /// The names recorded as installed for the sidecar after one
    /// dependency pass: the already-installed ones, then the trusted-repo
    /// batch, then the built and cached ones, without repetition.
    pub fn newly_installed_dependencies(buckets: &DependencyBuckets) -> (r: Vec<String>)
        ensures
            r.deep_view() == dedup_append(
                buckets.installed.deep_view() + buckets.trusted_repo.deep_view(),
                buckets.needs_build.deep_view() + buckets.cached.deep_view(),
            ),
    {
        let mut r = clone_string_vec(&buckets.installed);
        append_all(&mut r, &buckets.trusted_repo);
        dedup_extend(&mut r, &buckets.needs_build);
        dedup_extend(&mut r, &buckets.cached);
        proof {
            let base = buckets.installed.deep_view() + buckets.trusted_repo.deep_view();
            lemma_dedup_append_assoc(
                base,
                buckets.needs_build.deep_view(),
                buckets.cached.deep_view(),
            );
            assert(dedup_append(base, Seq::<Seq<char>>::empty()) == base);
        }
        r
    }

    /// The artifact files to install for the dependencies of one pass: the
    /// cached ones, then the newly built ones, in order.
    pub fn dependency_artifact_batch(buckets: &DependencyBuckets, built_paths: &Vec<String>) -> (r:
        Vec<String>)
        ensures
            r.deep_view() == buckets.cached_paths.deep_view() + built_paths.deep_view(),
    {
        let mut r = clone_string_vec(&buckets.cached_paths);
        append_all(&mut r, built_paths);
        r
    }
}

} // verus!
