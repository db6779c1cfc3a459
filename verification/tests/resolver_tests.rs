use hydra_pin::resolver::build_api_url;
use hydra_pin::resolver::eval_api_url;
use hydra_pin::resolver::find_nixpkgs;
use hydra_pin::resolver::first_eval;
use hydra_pin::resolver::github_repo;
use hydra_pin::resolver::make_package;
use hydra_pin::resolver::resolve_tarball;
use hydra_pin::resolver::select_build;
use hydra_pin::resolver::tarball_url;
use hydra_pin::resolver::Input;
use hydra_pin::resolver::Job;
use hydra_pin::resolver::NamedInput;
use hydra_pin::resolver::ResolveError;

fn job(success: bool, build_id: &str) -> Job {
    Job { success, build_id: build_id.to_string() }
}

fn input(uri: Option<&str>, revision: Option<&str>) -> Input {
    Input {
        uri: uri.map(|s| s.to_string()),
        kind: Some("git".to_string()),
        revision: revision.map(|s| s.to_string()),
    }
}

#[test]
fn select_build_takes_first_success() {
    // The report {"jobset": [{success: false, build_id: "1"},
    // {success: true, build_id: "2"}]}: the second job is selected.
    let jobsets = vec![vec![job(false, "1"), job(true, "2")]];
    let picked = select_build(&jobsets).unwrap();
    assert_eq!(picked.build_id, "2");
    assert!(picked.success);
}

#[test]
fn select_build_empty_report() {
    let jobsets: Vec<Vec<Job>> = vec![];
    assert_eq!(select_build(&jobsets).unwrap_err(), ResolveError::NoPackagesFound);
}

#[test]
fn select_build_no_success() {
    let jobsets = vec![vec![job(false, "1"), job(false, "2")]];
    assert_eq!(select_build(&jobsets).unwrap_err(), ResolveError::NoSuccessfulBuild);
}

#[test]
fn github_uri_matches() {
    let caps = github_repo("https://github.com/foo/bar.git").unwrap();
    assert_eq!(caps.0, "foo");
    assert_eq!(caps.1, "bar");
}

#[test]
fn github_uri_resolves_to_tarball_url() {
    assert_eq!(
        tarball_url("foo", "bar", "abc123"),
        "https://github.com/foo/bar/archive/abc123.tar.gz"
    );
    let ok = resolve_tarball(&input(Some("https://github.com/foo/bar.git"), Some("abc123")));
    assert_eq!(ok.unwrap(), "https://github.com/foo/bar/archive/abc123.tar.gz");
}

#[test]
fn github_uri_rejects_other_hosts() {
    assert!(github_repo("https://example.com/x.tar.gz").is_none());
    let err = resolve_tarball(&input(Some("https://example.com/x.tar.gz"), Some("abc123")));
    assert_eq!(err.unwrap_err(), ResolveError::UnrecognizedSourceUri);
}

#[test]
fn missing_uri_is_unrecognized() {
    let err = resolve_tarball(&input(None, Some("abc123")));
    assert_eq!(err.unwrap_err(), ResolveError::UnrecognizedSourceUri);
}

#[test]
fn missing_revision_is_its_own_error() {
    let err = resolve_tarball(&input(Some("https://github.com/foo/bar.git"), None));
    assert_eq!(err.unwrap_err(), ResolveError::MissingRevision);
}

#[test]
fn api_urls() {
    assert_eq!(build_api_url("4242"), "https://hydra.nixos.org/build/4242");
    assert_eq!(eval_api_url(12345), "https://hydra.nixos.org/eval/12345");
    assert_eq!(eval_api_url(0), "https://hydra.nixos.org/eval/0");
    assert_eq!(eval_api_url(u64::MAX), "https://hydra.nixos.org/eval/18446744073709551615");
}

#[test]
fn find_nixpkgs_present() {
    let inputs = vec![
        NamedInput { name: "other".to_string(), input: input(Some("x"), None) },
        NamedInput {
            name: "nixpkgs".to_string(),
            input: input(Some("https://github.com/foo/bar.git"), Some("r")),
        },
    ];
    let found = find_nixpkgs(&inputs).unwrap();
    assert_eq!(found.uri.as_deref(), Some("https://github.com/foo/bar.git"));
    assert_eq!(found.revision.as_deref(), Some("r"));
}

#[test]
fn find_nixpkgs_absent() {
    let inputs = vec![NamedInput { name: "other".to_string(), input: input(None, None) }];
    assert_eq!(find_nixpkgs(&inputs).unwrap_err(), ResolveError::MissingNixpkgsInput);
}

#[test]
fn first_eval_takes_the_first() {
    assert_eq!(first_eval(&vec![7, 8, 9]).unwrap(), 7);
    assert_eq!(first_eval(&vec![]).unwrap_err(), ResolveError::MalformedResponse);
}

#[test]
fn make_package_trims_the_hash() {
    let p = make_package("pkg", "https://github.com/a/b/archive/r.tar.gz", " deadbeef\n");
    assert_eq!(p.name, "pkg");
    assert_eq!(p.url, "https://github.com/a/b/archive/r.tar.gz");
    assert_eq!(p.sha256, "deadbeef");
    let q = make_package("pkg", "u", "\t\r\n abc123 \t\r\n");
    assert_eq!(q.sha256, "abc123");
    let empty = make_package("pkg", "u", " \n");
    assert_eq!(empty.sha256, "");
}

#[test]
fn error_messages() {
    assert_eq!(ResolveError::NoSuccessfulBuild.message(), "there are no succeeding builds on hydra");
    assert_eq!(ResolveError::MissingNixpkgsInput.message(), "package does not use nixpkgs in input");
}
