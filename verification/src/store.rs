//! The overlay file codec.
//!
//! The file carries the pinned packages twice: once in a machine-readable
//! prologue of comment lines (`# <name> <url> <sha256>`, one per package),
//! and once in the generated overlay body that the downstream build system
//! consumes. Only the prologue is ever read back; the body is regenerated
//! from it on every write, so its template must be reproduced verbatim.

use vstd::prelude::*;
use vstd::string::*;

use crate::pkg::Overlay;
use crate::pkg::Package;
use crate::pkg::PackageView;
use crate::text::lemma_split_append;
use crate::text::lemma_split_len;
use crate::text::lemma_split_no_sep;
use crate::text::spec_split;
use crate::text::split_str;

verus! {

/// The content of one prologue comment line, without its trailing newline.
pub open spec fn prologue_entry(p: PackageView) -> Seq<char> {
    "# "@ + p.name + " "@ + p.url + " "@ + p.sha256
}

/// The whole prologue: one comment line per package, in list order.
pub open spec fn prologue(ps: Seq<PackageView>) -> Seq<char>
    decreases ps.len(),
{
    if ps.len() == 0 {
        Seq::<char>::empty()
    } else {
        prologue_entry(ps[0]) + seq!['\n'] + prologue(ps.drop_first())
    }
}

/// The fixed text between the prologue and the first package binding.
pub open spec fn header() -> Seq<char> {
    "\n{pkgs}: {\n    overlay = (final: prev: {\n"@
}

/// The fixed text that closes the overlay body.
pub open spec fn footer() -> Seq<char> {
    "        \n    });\n}"@
}

/// One package's binding in the overlay body: a derivation that fetches
/// the tarball, asserts its hash, and builds it for the current system.
pub open spec fn binding(p: PackageView) -> Seq<char> {
    p.name + " = (import (fetchTarball {\n            url = \""@ + p.url
        + "\";\n            sha256 = \""@ + p.sha256
        + "\";\n        }) { system = pkgs.system; })."@ + p.name + ";\n        "@ + "\n"@
}

/// All package bindings, in list order.
pub open spec fn bindings(ps: Seq<PackageView>) -> Seq<char>
    decreases ps.len(),
{
    if ps.len() == 0 {
        Seq::<char>::empty()
    } else {
        binding(ps[0]) + bindings(ps.drop_first())
    }
}

/// The full rendered overlay file.
pub open spec fn spec_render(ps: Seq<PackageView>) -> Seq<char> {
    prologue(ps) + header() + bindings(ps) + footer()
}

proof fn lemma_prologue_snoc(ps: Seq<PackageView>, p: PackageView)
    ensures
        prologue(ps.push(p)) =~= prologue(ps) + prologue_entry(p) + seq!['\n'],
    decreases ps.len(),
{
    if ps.len() == 0 {
        assert(ps.push(p)[0] == p);
        assert(ps.push(p).drop_first() =~= Seq::<PackageView>::empty());
        assert(prologue(Seq::<PackageView>::empty()) =~= Seq::<char>::empty());
        assert(prologue(ps.push(p)) =~= prologue_entry(p) + seq!['\n'] + prologue(
            Seq::<PackageView>::empty(),
        ));
        assert(prologue(ps) =~= Seq::<char>::empty());
    } else {
        assert(ps.push(p)[0] == ps[0]);
        assert(ps.push(p).drop_first() =~= ps.drop_first().push(p));
        lemma_prologue_snoc(ps.drop_first(), p);
        assert(prologue(ps.push(p)) =~= prologue_entry(ps[0]) + seq!['\n'] + prologue(
            ps.drop_first().push(p),
        ));
        assert(prologue(ps) =~= prologue_entry(ps[0]) + seq!['\n'] + prologue(ps.drop_first()));
    }
}

proof fn lemma_bindings_snoc(ps: Seq<PackageView>, p: PackageView)
    ensures
        bindings(ps.push(p)) =~= bindings(ps) + binding(p),
    decreases ps.len(),
{
    if ps.len() == 0 {
        assert(ps.push(p)[0] == p);
        assert(ps.push(p).drop_first() =~= Seq::<PackageView>::empty());
        assert(bindings(Seq::<PackageView>::empty()) =~= Seq::<char>::empty());
        assert(bindings(ps.push(p)) =~= binding(p) + bindings(Seq::<PackageView>::empty()));
        assert(bindings(ps) =~= Seq::<char>::empty());
    } else {
        assert(ps.push(p)[0] == ps[0]);
        assert(ps.push(p).drop_first() =~= ps.drop_first().push(p));
        lemma_bindings_snoc(ps.drop_first(), p);
        assert(bindings(ps.push(p)) =~= binding(ps[0]) + bindings(ps.drop_first().push(p)));
        assert(bindings(ps) =~= binding(ps[0]) + bindings(ps.drop_first()));
    }
}

/// Render an overlay to the exact file text: prologue, header, one
/// binding per package, footer.
pub fn render(o: &Overlay) -> (r: String)
    ensures
        r@ == spec_render(o@),
{
    let n = o.packages.len();
    let mut out = String::new();
    let mut i: usize = 0;
    proof {
        assert(o@.take(0) =~= Seq::<PackageView>::empty());
        assert(out@ =~= prologue(o@.take(0)));
    }
    while i < n
        invariant
            i <= n,
            n == o.packages.len(),
            out@ =~= prologue(o@.take(i as int)),
        decreases n - i,
    {
        let p = &o.packages[i];
        out.append("# ");
        out.append(p.name.as_str());
        out.append(" ");
        out.append(p.url.as_str());
        out.append(" ");
        out.append(p.sha256.as_str());
        out.append("\n");
        proof {
            lemma_prologue_snoc(o@.take(i as int), o@[i as int]);
            assert(o@.take(i as int + 1) =~= o@.take(i as int).push(o@[i as int]));
            assert("\n"@ =~= seq!['\n']) by {
                reveal_strlit("\n");
            }
            assert(out@ =~= prologue(o@.take(i as int + 1)));
        }
        i = i + 1;
    }
    proof {
        assert(o@.take(n as int) =~= o@);
    }
    out.append("\n{pkgs}: {\n    overlay = (final: prev: {\n");
    let mut j: usize = 0;
    proof {
        assert(o@.take(0) =~= Seq::<PackageView>::empty());
        assert(out@ =~= prologue(o@) + header() + bindings(o@.take(0)));
    }
    while j < n
        invariant
            j <= n,
            n == o.packages.len(),
            out@ =~= prologue(o@) + header() + bindings(o@.take(j as int)),
        decreases n - j,
    {
        let p = &o.packages[j];
        out.append(p.name.as_str());
        out.append(" = (import (fetchTarball {\n            url = \"");
        out.append(p.url.as_str());
        out.append("\";\n            sha256 = \"");
        out.append(p.sha256.as_str());
        out.append("\";\n        }) { system = pkgs.system; }).");
        out.append(p.name.as_str());
        out.append(";\n        ");
        out.append("\n");
        proof {
            lemma_bindings_snoc(o@.take(j as int), o@[j as int]);
            assert(o@.take(j as int + 1) =~= o@.take(j as int).push(o@[j as int]));
            assert(out@ =~= prologue(o@) + header() + bindings(o@.take(j as int + 1)));
        }
        j = j + 1;
    }
    proof {
        assert(o@.take(n as int) =~= o@);
    }
    out.append("        \n    });\n}");
    proof {
        assert(out@ =~= spec_render(o@));
    }
    out
}

/// Whether a line belongs to the prologue scan: it starts with `#`.
pub open spec fn is_comment(line: Seq<char>) -> bool {
    line.len() >= 1 && line[0] == '#'
}

/// What one prologue line contributes: a package if the line is `# `
/// followed by at least three space-separated tokens (the first three are
/// taken, empty tokens counted), and nothing otherwise.
pub open spec fn parse_line(line: Seq<char>) -> Option<PackageView> {
    if line.len() >= 2 && line.subrange(0, 2) == "# "@ {
        let toks = spec_split(line.skip(2), ' ');
        if toks.len() >= 3 {
            Some(PackageView { name: toks[0], url: toks[1], sha256: toks[2] })
        } else {
            None
        }
    } else {
        None
    }
}

/// The prologue scan over a line list: read packages off comment lines,
/// skipping malformed ones, and stop at the first non-comment line.
pub open spec fn parse_lines(lines: Seq<Seq<char>>) -> Seq<PackageView>
    decreases lines.len(),
{
    if lines.len() == 0 {
        Seq::<PackageView>::empty()
    } else if !is_comment(lines[0]) {
        Seq::<PackageView>::empty()
    } else {
        match parse_line(lines[0]) {
            Some(p) => seq![p] + parse_lines(lines.drop_first()),
            None => parse_lines(lines.drop_first()),
        }
    }
}

/// The packages an overlay file text holds.
pub open spec fn spec_parse(text: Seq<char>) -> Seq<PackageView> {
    parse_lines(spec_split(text, '\n'))
}

/// Read an overlay back from file text. An empty string (the reading of
/// an absent file) yields the empty overlay; malformed prologue lines are
/// skipped without error.
pub fn parse(text: &str) -> (o: Overlay)
    ensures
        o@ == spec_parse(text@),
{
    let lines = split_str(text, '\n');
    let ghost ldv = lines.deep_view();
    let n = lines.len();
    let mut packages: Vec<Package> = Vec::new();
    let mut done = false;
    let mut k: usize = 0;
    proof {
        assert(ldv.skip(0) =~= ldv);
        assert(packages.deep_view() =~= Seq::<PackageView>::empty());
        assert(parse_lines(ldv) =~= packages.deep_view() + parse_lines(ldv.skip(0)));
    }
    while k < n && !done
        invariant
            k <= n,
            n == lines.len(),
            ldv == lines.deep_view(),
            ldv.len() == n,
            parse_lines(ldv) =~= packages.deep_view() + (if done {
                Seq::<PackageView>::empty()
            } else {
                parse_lines(ldv.skip(k as int))
            }),
        decreases n - k, (if done { 0int } else { 1int }),
    {
        let line = &lines[k];
        let len = line.as_str().unicode_len();
        proof {
            assert(ldv[k as int] == lines@[k as int]@);
            assert(ldv.skip(k as int).len() > 0);
            assert(ldv.skip(k as int)[0] == ldv[k as int]);
            assert(ldv.skip(k as int).drop_first() =~= ldv.skip(k as int + 1));
            reveal_strlit("# ");
            assert("# "@ =~= seq!['#', ' ']);
        }
        if len == 0 || line.as_str().get_char(0) != '#' {
            proof {
                assert(!is_comment(ldv[k as int]));
                assert(parse_lines(ldv.skip(k as int)) =~= Seq::<PackageView>::empty());
            }
            done = true;
        } else if len >= 2 && line.as_str().get_char(1) == ' ' {
            proof {
                assert(ldv[k as int].subrange(0, 2) =~= "# "@);
            }
            let rest = line.as_str().substring_char(2, len);
            let toks = split_str(rest, ' ');
            proof {
                assert(rest@ =~= ldv[k as int].skip(2));
                assert(toks.deep_view() == spec_split(ldv[k as int].skip(2), ' '));
            }
            if toks.len() >= 3 {
                let p = Package {
                    name: toks[0].clone(),
                    url: toks[1].clone(),
                    sha256: toks[2].clone(),
                };
                let ghost before = packages.deep_view();
                packages.push(p);
                proof {
                    let pv = parse_line(ldv[k as int]).unwrap();
                    assert(packages.deep_view() =~= before.push(pv));
                    assert(before.push(pv) =~= before + seq![pv]);
                    assert(parse_lines(ldv.skip(k as int)) =~= seq![pv] + parse_lines(
                        ldv.skip(k as int + 1),
                    ));
                }
            } else {
                proof {
                    assert(parse_line(ldv[k as int]) is None);
                    assert(parse_lines(ldv.skip(k as int)) =~= parse_lines(
                        ldv.skip(k as int + 1),
                    ));
                }
            }
            k = k + 1;
        } else {
            proof {
                assert(is_comment(ldv[k as int]));
                if ldv[k as int].len() >= 2 {
                    assert(ldv[k as int].subrange(0, 2)[1] == ldv[k as int][1]);
                    assert(ldv[k as int].subrange(0, 2) != "# "@);
                }
                assert(parse_line(ldv[k as int]) is None);
                assert(parse_lines(ldv.skip(k as int)) =~= parse_lines(ldv.skip(k as int + 1)));
            }
            k = k + 1;
        }
    }
    proof {
        if !done {
            assert(ldv.skip(n as int) =~= Seq::<Seq<char>>::empty());
            assert(parse_lines(ldv.skip(n as int)) =~= Seq::<PackageView>::empty());
        }
        assert(packages.deep_view() =~= parse_lines(ldv));
    }
    Overlay { packages }
}

/// The prologue as a line list: the comment line of each package, in
/// order, without the newlines.
pub open spec fn entry_lines(ps: Seq<PackageView>) -> Seq<Seq<char>>
    decreases ps.len(),
{
    if ps.len() == 0 {
        Seq::<Seq<char>>::empty()
    } else {
        seq![prologue_entry(ps[0])] + entry_lines(ps.drop_first())
    }
}

/// A well-formed package's prologue line is a comment line free of
/// newlines, and parses back to exactly that package.
proof fn lemma_entry_line(p: PackageView)
    requires
        Package::wf(p),
    ensures
        forall|i: int|
            0 <= i < prologue_entry(p).len() ==> #[trigger] prologue_entry(p)[i] != '\n',
        is_comment(prologue_entry(p)),
        parse_line(prologue_entry(p)) == Some(p),
{
    reveal_strlit("# ");
    reveal_strlit(" ");
    let e = prologue_entry(p);
    assert("# "@ =~= seq!['#', ' ']);
    assert(" "@ =~= seq![' ']);
    assert(e[0] == '#');
    assert(e.len() >= 2);
    assert(e.subrange(0, 2) =~= "# "@);
    let tail2 = p.url + seq![' '] + p.sha256;
    assert(e.skip(2) =~= p.name + seq![' '] + tail2);
    lemma_split_append(p.name, tail2, ' ');
    lemma_split_append(p.url, p.sha256, ' ');
    lemma_split_no_sep(p.sha256, ' ');
    let toks = spec_split(e.skip(2), ' ');
    assert(toks =~= seq![p.name] + (seq![p.url] + seq![p.sha256]));
    assert(toks.len() == 3);
    assert(toks[0] == p.name);
    assert(toks[1] == p.url);
    assert(toks[2] == p.sha256);
    assert(parse_line(e).unwrap() =~= p);
}

/// Splitting `prologue(ps) ++ rest` on newlines yields the entry lines of
/// `ps` followed by the split of `rest`, provided every package is
/// well formed.
proof fn lemma_split_prologue(ps: Seq<PackageView>, rest: Seq<char>)
    requires
        forall|i: int| 0 <= i < ps.len() ==> Package::wf(#[trigger] ps[i]),
    ensures
        spec_split(prologue(ps) + rest, '\n') =~= entry_lines(ps) + spec_split(rest, '\n'),
    decreases ps.len(),
{
    if ps.len() == 0 {
        assert(prologue(ps) + rest =~= rest);
        assert(entry_lines(ps) + spec_split(rest, '\n') =~= spec_split(rest, '\n'));
    } else {
        let e = prologue_entry(ps[0]);
        lemma_entry_line(ps[0]);
        let inner = prologue(ps.drop_first()) + rest;
        assert(prologue(ps) + rest =~= e + seq!['\n'] + inner);
        lemma_split_append(e, inner, '\n');
        assert(forall|i: int|
            0 <= i < ps.drop_first().len() ==> Package::wf(#[trigger] ps.drop_first()[i]));
        lemma_split_prologue(ps.drop_first(), rest);
        assert(entry_lines(ps) =~= seq![e] + entry_lines(ps.drop_first()));
        assert(spec_split(prologue(ps) + rest, '\n') =~= seq![e] + (entry_lines(ps.drop_first())
            + spec_split(rest, '\n')));
    }
}

/// Scanning the entry lines of well-formed packages, followed by any tail
/// whose first line is not a comment, reads back exactly those packages.
proof fn lemma_parse_entry_lines(ps: Seq<PackageView>, tail: Seq<Seq<char>>)
    requires
        forall|i: int| 0 <= i < ps.len() ==> Package::wf(#[trigger] ps[i]),
        tail.len() >= 1,
        !is_comment(tail[0]),
    ensures
        parse_lines(entry_lines(ps) + tail) =~= ps,
    decreases ps.len(),
{
    if ps.len() == 0 {
        assert(entry_lines(ps) + tail =~= tail);
        assert(parse_lines(tail) =~= Seq::<PackageView>::empty());
        assert(ps =~= Seq::<PackageView>::empty());
    } else {
        let lines = entry_lines(ps) + tail;
        lemma_entry_line(ps[0]);
        assert(entry_lines(ps) =~= seq![prologue_entry(ps[0])] + entry_lines(ps.drop_first()));
        assert(lines[0] == prologue_entry(ps[0]));
        assert(lines.drop_first() =~= entry_lines(ps.drop_first()) + tail);
        assert(forall|i: int|
            0 <= i < ps.drop_first().len() ==> Package::wf(#[trigger] ps.drop_first()[i]));
        lemma_parse_entry_lines(ps.drop_first(), tail);
        assert(parse_lines(lines) =~= seq![ps[0]] + parse_lines(lines.drop_first()));
        assert(seq![ps[0]] + ps.drop_first() =~= ps);
    }
}

/// Round trip: rendering any overlay of well-formed packages and loading
/// the text back yields the same packages, in the same order.
pub proof fn lemma_parse_render_roundtrip(ps: Seq<PackageView>)
    requires
        forall|i: int| 0 <= i < ps.len() ==> Package::wf(#[trigger] ps[i]),
    ensures
        spec_parse(spec_render(ps)) =~= ps,
{
    let rest = header() + bindings(ps) + footer();
    assert(spec_render(ps) =~= prologue(ps) + rest);
    lemma_split_prologue(ps, rest);
    reveal_strlit("\n{pkgs}: {\n    overlay = (final: prev: {\n");
    assert(header()[0] == '\n');
    assert(rest[0] == '\n');
    let tail = spec_split(rest, '\n');
    lemma_split_len(rest, '\n');
    assert(tail =~= seq![Seq::<char>::empty()] + spec_split(rest.drop_first(), '\n'));
    assert(tail[0] =~= Seq::<char>::empty());
    assert(!is_comment(tail[0]));
    lemma_parse_entry_lines(ps, tail);
    assert(spec_split(spec_render(ps), '\n') =~= entry_lines(ps) + tail);
}

/// A line list in which no line parses to a package (in particular, a
/// file with zero valid prologue lines) loads as the empty overlay.
pub proof fn lemma_no_valid_lines(lines: Seq<Seq<char>>)
    requires
        forall|i: int| 0 <= i < lines.len() ==> parse_line(#[trigger] lines[i]) is None,
    ensures
        parse_lines(lines) =~= Seq::<PackageView>::empty(),
    decreases lines.len(),
{
    if lines.len() > 0 && is_comment(lines[0]) {
        assert(forall|i: int|
            0 <= i < lines.drop_first().len() ==> parse_line(
                #[trigger] lines.drop_first()[i],
            ) is None);
        lemma_no_valid_lines(lines.drop_first());
    }
}

} // verus!
