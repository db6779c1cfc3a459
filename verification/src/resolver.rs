//! Resolver decisions: picking the build to pin, locating the `nixpkgs`
//! input, matching its GitHub source URI, and forming the URLs the
//! workflow needs.
//!
//! The surrounding process and HTTP work is unverified glue; every
//! decision between those calls is made here, on plain values.

use vstd::prelude::*;
use vstd::string::*;

use crate::pkg::Package;
use crate::text::find_char;
use crate::text::find_sub;
use crate::text::find_substring;
use crate::text::first_index;
use crate::text::lemma_find_sub;
use crate::text::lemma_first_index;
use crate::text::match_at;
use crate::text::spec_dec;
use crate::text::spec_trim;
use crate::text::trim_ws;
use crate::text::u64_to_string;

verus! {

/// Everything that can go wrong between asking for a package and writing
/// the overlay file.
#[derive(Clone, Copy, Debug, PartialEq, Eq, Structural)]
pub enum ResolveError {
    /// The build-status tool or the prefetch tool could not be run, or
    /// exited reporting failure.
    ExternalTool,
    /// Output of the tool or of the API was not the expected JSON shape.
    MalformedResponse,
    /// The build-status report named no package at all.
    NoPackagesFound,
    /// The build-status report had no successful build.
    NoSuccessfulBuild,
    /// The evaluation's inputs carry no `nixpkgs` entry.
    MissingNixpkgsInput,
    /// The `nixpkgs` input has no URI, or one that is not a GitHub
    /// `.git` URI.
    UnrecognizedSourceUri,
    /// The `nixpkgs` input has no revision.
    MissingRevision,
    /// The overlay file could not be read or written.
    FileIo,
}

impl ResolveError {
    /// A human-readable description, for the terminal error report.
    pub fn message(&self) -> (r: &'static str)
        ensures
            *self == ResolveError::ExternalTool ==> r@ == "an external tool could not be run"@,
            *self == ResolveError::MalformedResponse ==> r@
                == "a response could not be understood"@,
            *self == ResolveError::NoPackagesFound ==> r@
                == "the build report contained no packages"@,
            *self == ResolveError::NoSuccessfulBuild ==> r@
                == "there are no succeeding builds on hydra"@,
            *self == ResolveError::MissingNixpkgsInput ==> r@
                == "package does not use nixpkgs in input"@,
            *self == ResolveError::UnrecognizedSourceUri ==> r@
                == "package source uri did not match the github pattern"@,
            *self == ResolveError::MissingRevision ==> r@
                == "nixpkgs input does not have a revision"@,
            *self == ResolveError::FileIo ==> r@ == "the output file could not be accessed"@,
    {
        match self {
            ResolveError::ExternalTool => "an external tool could not be run",
            ResolveError::MalformedResponse => "a response could not be understood",
            ResolveError::NoPackagesFound => "the build report contained no packages",
            ResolveError::NoSuccessfulBuild => "there are no succeeding builds on hydra",
            ResolveError::MissingNixpkgsInput => "package does not use nixpkgs in input",
            ResolveError::UnrecognizedSourceUri => "package source uri did not match the github pattern",
            ResolveError::MissingRevision => "nixpkgs input does not have a revision",
            ResolveError::FileIo => "the output file could not be accessed",
        }
    }
}

/// Model of a [`Job`].
#[verifier::ext_equal]
pub ghost struct JobView {
    pub success: bool,
    pub build_id: Seq<char>,
}

/// One build attempt, as the build-status tool reports it.
#[derive(Debug)]
pub struct Job {
    pub success: bool,
    pub build_id: String,
}

impl View for Job {
    type V = JobView;

    open spec fn view(&self) -> JobView {
        JobView { success: self.success, build_id: self.build_id@ }
    }
}

impl DeepView for Job {
    type V = JobView;

    open spec fn deep_view(&self) -> JobView {
        self@
    }
}

impl Job {
    /// A field-for-field copy.
    pub fn duplicate(&self) -> (r: Job)
        ensures
            r@ == self@,
    {
        Job { success: self.success, build_id: self.build_id.clone() }
    }
}

/// Model of an [`Input`].
#[verifier::ext_equal]
pub ghost struct InputView {
    pub uri: Option<Seq<char>>,
    pub kind: Option<Seq<char>>,
    pub revision: Option<Seq<char>>,
}

/// One evaluation input descriptor: an optional URI, type tag, and
/// revision.
#[derive(Debug)]
pub struct Input {
    pub uri: Option<String>,
    pub kind: Option<String>,
    pub revision: Option<String>,
}

impl View for Input {
    type V = InputView;

    open spec fn view(&self) -> InputView {
        InputView {
            uri: self.uri.deep_view(),
            kind: self.kind.deep_view(),
            revision: self.revision.deep_view(),
        }
    }
}

impl DeepView for Input {
    type V = InputView;

    open spec fn deep_view(&self) -> InputView {
        self@
    }
}

fn clone_opt_string(s: &Option<String>) -> (r: Option<String>)
    ensures
        r.deep_view() == s.deep_view(),
{
    match s {
        Some(v) => Some(v.clone()),
        None => None,
    }
}

impl Input {
    /// A field-for-field copy.
    pub fn duplicate(&self) -> (r: Input)
        ensures
            r@ == self@,
    {
        Input {
            uri: clone_opt_string(&self.uri),
            kind: clone_opt_string(&self.kind),
            revision: clone_opt_string(&self.revision),
        }
    }
}

/// Model of a [`NamedInput`].
#[verifier::ext_equal]
pub ghost struct NamedInputView {
    pub name: Seq<char>,
    pub input: InputView,
}

/// An evaluation input together with the name it is registered under.
pub struct NamedInput {
    pub name: String,
    pub input: Input,
}

impl View for NamedInput {
    type V = NamedInputView;

    open spec fn view(&self) -> NamedInputView {
        NamedInputView { name: self.name@, input: self.input@ }
    }
}

impl DeepView for NamedInput {
    type V = NamedInputView;

    open spec fn deep_view(&self) -> NamedInputView {
        self@
    }
}

/// The index of the first successful job, or `jobs.len()` when none
/// succeeded.
pub open spec fn first_success_idx(jobs: Seq<JobView>) -> int
    decreases jobs.len(),
{
    if jobs.len() == 0 {
        0
    } else if jobs[0].success {
        0
    } else {
        1 + first_success_idx(jobs.drop_first())
    }
}

pub proof fn lemma_first_success_idx(jobs: Seq<JobView>)
    ensures
        0 <= first_success_idx(jobs) <= jobs.len(),
        forall|i: int| 0 <= i < first_success_idx(jobs) ==> !(#[trigger] jobs[i]).success,
        first_success_idx(jobs) < jobs.len() ==> jobs[first_success_idx(jobs)].success,
    decreases jobs.len(),
{
    if jobs.len() > 0 && !jobs[0].success {
        lemma_first_success_idx(jobs.drop_first());
        assert(forall|i: int| 1 <= i < jobs.len() ==> jobs[i] == jobs.drop_first()[i - 1]);
    }
}

/// Choose the build to pin from the build-status report, handed over as
/// the report's job lists in its own order: the first job list decides,
/// and within it the first successful job. An empty report, and one
/// whose first list has no success, are the two failures.
pub fn select_build(jobsets: &Vec<Vec<Job>>) -> (r: Result<Job, ResolveError>)
    ensures
        jobsets@.len() == 0 ==> r == Err::<Job, ResolveError>(ResolveError::NoPackagesFound),
        jobsets@.len() > 0 ==> {
            let jobs = jobsets.deep_view()[0];
            let k = first_success_idx(jobs);
            &&& (k < jobs.len() ==> (r matches Ok(j) && j@ == jobs[k]))
            &&& (k >= jobs.len() ==> r == Err::<Job, ResolveError>(ResolveError::NoSuccessfulBuild))
        },
{
    if jobsets.len() == 0 {
        return Err(ResolveError::NoPackagesFound);
    }
    let jobs = &jobsets[0];
    let ghost jv = jobsets.deep_view()[0];
    proof {
        assert(jv == jobs.deep_view());
        lemma_first_success_idx(jv);
    }
    let n = jobs.len();
    let mut i: usize = 0;
    while i < n
        invariant
            i <= n,
            n == jobs.len(),
            jobsets@.len() > 0,
            jv == jobsets.deep_view()[0],
            jv == jobs.deep_view(),
            forall|m: int| 0 <= m < i ==> !(#[trigger] jv[m]).success,
        decreases n - i,
    {
        if jobs[i].success {
            proof {
                lemma_first_success_idx(jv);
                assert(jv[i as int].success);
                assert(first_success_idx(jv) == i);
            }
            return Ok(jobs[i].duplicate());
        }
        i = i + 1;
    }
    proof {
        lemma_first_success_idx(jv);
        assert(first_success_idx(jv) == jv.len());
    }
    Err(ResolveError::NoSuccessfulBuild)
}

/// The index of the first input named `nixpkgs`, or `inputs.len()` when
/// there is none.
pub open spec fn nixpkgs_idx(inputs: Seq<NamedInputView>) -> int
    decreases inputs.len(),
{
    if inputs.len() == 0 {
        0
    } else if inputs[0].name == "nixpkgs"@ {
        0
    } else {
        1 + nixpkgs_idx(inputs.drop_first())
    }
}

pub proof fn lemma_nixpkgs_idx(inputs: Seq<NamedInputView>)
    ensures
        0 <= nixpkgs_idx(inputs) <= inputs.len(),
        forall|i: int| 0 <= i < nixpkgs_idx(inputs) ==> (#[trigger] inputs[i]).name != "nixpkgs"@,
        nixpkgs_idx(inputs) < inputs.len() ==> inputs[nixpkgs_idx(inputs)].name == "nixpkgs"@,
    decreases inputs.len(),
{
    if inputs.len() > 0 && inputs[0].name != "nixpkgs"@ {
        lemma_nixpkgs_idx(inputs.drop_first());
        assert(forall|i: int| 1 <= i < inputs.len() ==> inputs[i] == inputs.drop_first()[i - 1]);
    }
}

/// Extract the `nixpkgs` input from an evaluation's input list (the
/// first entry so named decides; a JSON object holds at most one).
pub fn find_nixpkgs(inputs: &Vec<NamedInput>) -> (r: Result<Input, ResolveError>)
    ensures
        ({
            let k = nixpkgs_idx(inputs.deep_view());
            &&& (k < inputs@.len() ==> (r matches Ok(inp) && inp@ == inputs.deep_view()[k].input))
            &&& (k >= inputs@.len() ==> r == Err::<Input, ResolveError>(
                ResolveError::MissingNixpkgsInput,
            ))
        }),
{
    let key = String::from_str("nixpkgs");
    let ghost iv = inputs.deep_view();
    let n = inputs.len();
    let mut i: usize = 0;
    while i < n
        invariant
            i <= n,
            n == inputs.len(),
            iv == inputs.deep_view(),
            key@ == "nixpkgs"@,
            forall|m: int| 0 <= m < i ==> (#[trigger] iv[m]).name != "nixpkgs"@,
        decreases n - i,
    {
        if inputs[i].name == key {
            proof {
                lemma_nixpkgs_idx(iv);
                assert(iv[i as int].name == "nixpkgs"@);
                assert(nixpkgs_idx(iv) == i);
            }
            return Ok(inputs[i].input.duplicate());
        }
        i = i + 1;
    }
    proof {
        lemma_nixpkgs_idx(iv);
        assert(nixpkgs_idx(iv) == iv.len());
    }
    Err(ResolveError::MissingNixpkgsInput)
}

/// What the GitHub source pattern finds in a URI, if anything: the
/// leftmost `https://github.com/` occurrence, then the owner up to the
/// next `/`, then the repository up to the next `.git`.
pub open spec fn spec_github_match(s: Seq<char>) -> Option<(Seq<char>, Seq<char>)> {
    if exists|i: int| match_at(s, "https://github.com/"@, i) {
        let rest = s.skip(find_sub(s, "https://github.com/"@) + "https://github.com/"@.len());
        if exists|j: int| 0 <= j < rest.len() && rest[j] == '/' {
            let owner = rest.take(first_index(rest, '/'));
            let tail = rest.skip(first_index(rest, '/') + 1);
            if exists|k: int| match_at(tail, ".git"@, k) {
                Some((owner, tail.take(find_sub(tail, ".git"@))))
            } else {
                None
            }
        } else {
            None
        }
    } else {
        None
    }
}

/// Match a source URI against the GitHub `.git` pattern and return the
/// owner and repository captures.
pub fn github_repo(uri: &str) -> (r: Option<(String, String)>)
    ensures
        r.deep_view() == spec_github_match(uri@),
{
    let prefix = "https://github.com/";
    let n = uri.unicode_len();
    match find_substring(uri, prefix) {
        None => {
            proof {
                assert(forall|i: int| !match_at(uri@, "https://github.com/"@, i));
            }
            None
        },
        Some(i) => {
            proof {
                lemma_find_sub(uri@, prefix@);
                assert(find_sub(uri@, prefix@) == i);
            }
            let plen = prefix.unicode_len();
            let rest = uri.substring_char(i + plen, n);
            proof {
                assert(rest@ =~= uri@.skip(i + plen as int));
            }
            match find_char(rest, '/') {
                None => {
                    proof {
                        assert(spec_github_match(uri@) is None);
                    }
                    None
                },
                Some(j) => {
                    proof {
                        lemma_first_index(rest@, '/');
                        assert(first_index(rest@, '/') == j);
                    }
                    let rlen = rest.unicode_len();
                    let owner = rest.substring_char(0, j);
                    let tail = rest.substring_char(j + 1, rlen);
                    proof {
                        assert(owner@ =~= rest@.take(j as int));
                        assert(tail@ =~= rest@.skip(j as int + 1));
                    }
                    match find_substring(tail, ".git") {
                        None => {
                            proof {
                                assert(forall|k: int| !match_at(tail@, ".git"@, k));
                                assert(spec_github_match(uri@) is None);
                            }
                            None
                        },
                        Some(k) => {
                            proof {
                                lemma_find_sub(tail@, ".git"@);
                                assert(find_sub(tail@, ".git"@) == k);
                            }
                            let repo = tail.substring_char(0, k);
                            proof {
                                assert(repo@ =~= tail@.take(k as int));
                            }
                            let r = Some((String::from_str(owner), String::from_str(repo)));
                            proof {
                                assert(r.deep_view() == spec_github_match(uri@));
                            }
                            r
                        },
                    }
                },
            }
        },
    }
}

/// The tarball URL GitHub serves for one revision of a repository.
pub open spec fn spec_tarball_url(owner: Seq<char>, repo: Seq<char>, rev: Seq<char>) -> Seq<char> {
    "https://github.com/"@ + owner + "/"@ + repo + "/archive/"@ + rev + ".tar.gz"@
}

/// Form the tarball URL for one revision of a GitHub repository.
pub fn tarball_url(owner: &str, repo: &str, revision: &str) -> (r: String)
    ensures
        r@ == spec_tarball_url(owner@, repo@, revision@),
{
    let mut out = String::from_str("https://github.com/");
    out.append(owner);
    out.append("/");
    out.append(repo);
    out.append("/archive/");
    out.append(revision);
    out.append(".tar.gz");
    proof {
        assert(out@ =~= spec_tarball_url(owner@, repo@, revision@));
    }
    out
}

/// The outcome of reading the `nixpkgs` input: the tarball URL of its
/// pinned revision, or the reason there is none.
pub open spec fn spec_resolve_input(inp: InputView) -> Result<Seq<char>, ResolveError> {
    match inp.uri {
        None => Err(ResolveError::UnrecognizedSourceUri),
        Some(u) => match spec_github_match(u) {
            None => Err(ResolveError::UnrecognizedSourceUri),
            Some(pair) => match inp.revision {
                None => Err(ResolveError::MissingRevision),
                Some(rev) => Ok(spec_tarball_url(pair.0, pair.1, rev)),
            },
        },
    }
}

/// Turn the `nixpkgs` input into the tarball URL to prefetch: the URI
/// must match the GitHub pattern and a revision must be present.
pub fn resolve_tarball(input: &Input) -> (r: Result<String, ResolveError>)
    ensures
        match (r, spec_resolve_input(input@)) {
            (Ok(s), Ok(t)) => s@ == t,
            (Err(a), Err(b)) => a == b,
            _ => false,
        },
{
    match &input.uri {
        None => Err(ResolveError::UnrecognizedSourceUri),
        Some(u) => match github_repo(u.as_str()) {
            None => Err(ResolveError::UnrecognizedSourceUri),
            Some((owner, repo)) => match &input.revision {
                None => Err(ResolveError::MissingRevision),
                Some(rev) => Ok(tarball_url(owner.as_str(), repo.as_str(), rev.as_str())),
            },
        },
    }
}

/// The URL of the build-farm API's build-metadata endpoint.
pub fn build_api_url(build_id: &str) -> (r: String)
    ensures
        r@ == "https://hydra.nixos.org/build/"@ + build_id@,
{
    let mut out = String::from_str("https://hydra.nixos.org/build/");
    out.append(build_id);
    out
}

/// The URL of the build-farm API's evaluation-metadata endpoint.
pub fn eval_api_url(eval_id: u64) -> (r: String)
    ensures
        r@ == "https://hydra.nixos.org/eval/"@ + spec_dec(eval_id as int),
{
    let mut out = String::from_str("https://hydra.nixos.org/eval/");
    let digits = u64_to_string(eval_id);
    out.append(digits.as_str());
    out
}

/// Take the first evaluation a build belongs to; a build carrying none
/// is a malformed API response.
pub fn first_eval(evals: &Vec<u64>) -> (r: Result<u64, ResolveError>)
    ensures
        evals@.len() == 0 ==> r == Err::<u64, ResolveError>(ResolveError::MalformedResponse),
        evals@.len() > 0 ==> r == Ok::<u64, ResolveError>(evals@[0]),
{
    if evals.len() == 0 {
        Err(ResolveError::MalformedResponse)
    } else {
        Ok(evals[0])
    }
}

/// Assemble the package record to pin: the requested name, the resolved
/// tarball URL, and the prefetch tool's output with surrounding
/// whitespace trimmed as the content hash.
pub fn make_package(name: &str, url: &str, prefetch_output: &str) -> (r: Package)
    ensures
        r@.name == name@,
        r@.url == url@,
        r@.sha256 == spec_trim(prefetch_output@),
{
    Package {
        name: String::from_str(name),
        url: String::from_str(url),
        sha256: trim_ws(prefetch_output),
    }
}

} // verus!
