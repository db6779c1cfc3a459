use hydra_pin::ops::pin_text;
use hydra_pin::ops::unpin_text;
use hydra_pin::pkg::Overlay;
use hydra_pin::pkg::Package;
use hydra_pin::store::parse;
use hydra_pin::store::render;

fn pkg(name: &str, url: &str, sha256: &str) -> Package {
    Package { name: name.to_string(), url: url.to_string(), sha256: sha256.to_string() }
}

const EMPTY_RENDER: &str = "\n{pkgs}: {\n    overlay = (final: prev: {\n        \n    });\n}";

#[test]
fn render_empty_overlay() {
    let o = Overlay::new();
    assert_eq!(render(&o), EMPTY_RENDER);
}

#[test]
fn render_one_package_exact_text() {
    let o = Overlay { packages: vec![pkg("foo", "u", "s")] };
    let expected = "# foo u s\n\n{pkgs}: {\n    overlay = (final: prev: {\nfoo = (import (fetchTarball {\n            url = \"u\";\n            sha256 = \"s\";\n        }) { system = pkgs.system; }).foo;\n        \n        \n    });\n}";
    assert_eq!(render(&o), expected);
}

#[test]
fn roundtrip_two_packages() {
    let o = Overlay {
        packages: vec![
            pkg("alpha", "https://github.com/a/b/archive/r1.tar.gz", "hash1"),
            pkg("beta", "https://github.com/c/d/archive/r2.tar.gz", "hash2"),
        ],
    };
    let text = render(&o);
    let back = parse(&text);
    assert_eq!(back.packages.len(), 2);
    assert_eq!(back.packages[0].name, "alpha");
    assert_eq!(back.packages[0].url, "https://github.com/a/b/archive/r1.tar.gz");
    assert_eq!(back.packages[0].sha256, "hash1");
    assert_eq!(back.packages[1].name, "beta");
    assert_eq!(back.packages[1].url, "https://github.com/c/d/archive/r2.tar.gz");
    assert_eq!(back.packages[1].sha256, "hash2");
}

#[test]
fn roundtrip_empty_overlay() {
    let text = render(&Overlay::new());
    let back = parse(&text);
    assert_eq!(back.packages.len(), 0);
}

#[test]
fn pin_appends_at_the_end() {
    let t0 = pin_text("", pkg("a", "u1", "s1"));
    let t1 = pin_text(&t0, pkg("b", "u2", "s2"));
    let t2 = pin_text(&t1, pkg("c", "u3", "s3"));
    let names: Vec<String> = parse(&t2).packages.into_iter().map(|p| p.name).collect();
    assert_eq!(names, vec!["a", "b", "c"]);
}

#[test]
fn pin_does_not_deduplicate() {
    let t0 = pin_text("", pkg("a", "u1", "s1"));
    let t1 = pin_text(&t0, pkg("a", "u2", "s2"));
    let back = parse(&t1);
    assert_eq!(back.packages.len(), 2);
    assert_eq!(back.packages[0].url, "u1");
    assert_eq!(back.packages[1].url, "u2");
}

#[test]
fn unpin_removes_all_matches() {
    let t0 = pin_text("", pkg("x", "u1", "s1"));
    let t1 = pin_text(&t0, pkg("y", "u2", "s2"));
    let t2 = pin_text(&t1, pkg("x", "u3", "s3"));
    let t3 = unpin_text(&t2, "x");
    let back = parse(&t3);
    assert_eq!(back.packages.len(), 1);
    assert_eq!(back.packages[0].name, "y");
    assert_eq!(back.packages[0].url, "u2");
    assert_eq!(back.packages[0].sha256, "s2");
}

#[test]
fn unpin_absent_name_rewrites_identically() {
    let t0 = pin_text("", pkg("a", "u1", "s1"));
    let t1 = pin_text(&t0, pkg("b", "u2", "s2"));
    assert_eq!(unpin_text(&t1, "nope"), t1);
}

#[test]
fn unpin_on_missing_file_writes_empty_overlay() {
    // An absent output file reads as the empty string.
    assert_eq!(unpin_text("", "anything"), EMPTY_RENDER);
}

#[test]
fn malformed_prologue_lines_are_skipped() {
    let text = "# only two\n# a b c\n# one\nrest of file";
    let back = parse(text);
    assert_eq!(back.packages.len(), 1);
    assert_eq!(back.packages[0].name, "a");
    assert_eq!(back.packages[0].url, "b");
    assert_eq!(back.packages[0].sha256, "c");
}

#[test]
fn zero_valid_prologue_lines_load_as_empty() {
    let back = parse("# too few\n#nospace\nbody");
    assert_eq!(back.packages.len(), 0);
}

#[test]
fn scan_stops_at_first_non_comment_line() {
    let text = "# a b c\nnot a comment\n# d e f\n";
    let back = parse(text);
    assert_eq!(back.packages.len(), 1);
    assert_eq!(back.packages[0].name, "a");
}

#[test]
fn extra_tokens_beyond_three_are_ignored() {
    let back = parse("# a b c d e\n");
    assert_eq!(back.packages.len(), 1);
    assert_eq!(back.packages[0].name, "a");
    assert_eq!(back.packages[0].url, "b");
    assert_eq!(back.packages[0].sha256, "c");
}

#[test]
fn comment_line_without_space_continues_scan() {
    let back = parse("#marker\n# a b c\nbody");
    assert_eq!(back.packages.len(), 1);
    assert_eq!(back.packages[0].name, "a");
}
