//! What cargo is given to resolve a graph offline: its configuration and the
//! selection of packages.
use crate::resolution::{ResolutionScope, ResolutionSpec, SpecView};
use crate::text::{
    before_first, clone_strings, cut_at, ends, owned, same, split, split_once, split_seq, starts,
    strip_prefix, strip_suffix, trim, trim_seq, until_char, views,
};
use crate::units::list_has;
use vstd::prelude::*;

verus! {

// ---------------------------------------------------------------------------
// Git sources
// ---------------------------------------------------------------------------

/// The git source that a line of a lockfile names, without the commit it was
/// resolved to.
pub open spec fn git_source(line: Seq<char>) -> Option<Seq<char>> {
    let t = trim_seq(line);
    if starts(t, "source = \"git+"@) {
        let rest = t.skip("source = \"git+"@.len() as int);
        if ends(rest, "\""@) {
            Some(before_first(rest.take(rest.len() - "\""@.len()), '#'))
        } else {
            None
        }
    } else {
        None
    }
}

fn find_git_source(line: &str) -> (r: Option<String>)
    ensures
        match r {
            Some(s) => git_source(line@) == Some(s@),
            None => git_source(line@) is None,
        },
{
    match strip_prefix(trim(line), "source = \"git+") {
        Some(rest) => match strip_suffix(rest, "\"") {
            Some(src) => Some(until_char(src, '#')),
            None => None,
        },
        None => None,
    }
}

/// A reference that a source is pinned by.
pub open spec fn is_ref_key(k: Seq<char>) -> bool {
    k == "rev"@ || k == "branch"@ || k == "tag"@
}

/// The lines for the references among the parts of a query.
pub open spec fn ref_lines(parts: Seq<Seq<char>>) -> Seq<char>
    decreases parts.len(),
{
    if parts.len() == 0 {
        Seq::empty()
    } else {
        let before = ref_lines(parts.drop_last());
        match cut_at(parts.last(), '=') {
            Some((k, v)) => if is_ref_key(k) {
                before + k + " = \""@ + v + "\"\n"@
            } else {
                before
            },
            None => before,
        }
    }
}

fn add_ref_lines(out: &mut String, query: &str)
    ensures
        final(out)@ == old(out)@ + ref_lines(split_seq(query@, '&')),
{
    let ghost start = out@;
    let parts = split(query, '&');
    let ghost ps = views(parts@);
    let mut i: usize = 0;
    assert(out@ =~= start + ref_lines(ps.take(0)));
    while i < parts.len()
        invariant
            i <= parts@.len(),
            ps == views(parts@),
            out@ == start + ref_lines(ps.take(i as int)),
        decreases parts@.len() - i,
    {
        assert(ps.take(i + 1).drop_last() =~= ps.take(i as int));
        if let Some((k, v)) = split_once(parts[i].as_str(), '=') {
            if same(k.as_str(), "rev") || same(k.as_str(), "branch") || same(k.as_str(), "tag") {
                out.append(k.as_str());
                out.append(" = \"");
                out.append(v.as_str());
                out.append("\"\n");
                assert(out@ =~= start + ref_lines(ps.take(i + 1)));
            }
        }
        i = i + 1;
    }
    assert(ps.take(ps.len() as int) =~= ps);
}

/// The entry that redirects a git source to the vendored copy.
pub open spec fn redirect(source: Seq<char>) -> Seq<char> {
    let (url, refs) = match cut_at(source, '?') {
        Some((u, q)) => (u, ref_lines(split_seq(q, '&'))),
        None => (source, Seq::empty()),
    };
    "\n[source.\""@ + "git+"@ + source + "\"]\ngit = \""@ + url + "\"\n"@ + refs
        + "replace-with = \"vendored-sources\"\n"@
}

fn redirect_text(source: &str) -> (r: String)
    ensures
        r@ == redirect(source@),
{
    let cut = split_once(source, '?');
    let mut r = owned("\n[source.\"");
    r.append("git+");
    r.append(source);
    r.append("\"]\ngit = \"");
    match cut {
        Some((url, query)) => {
            r.append(url.as_str());
            r.append("\"\n");
            add_ref_lines(&mut r, query.as_str());
        },
        None => {
            r.append(source);
            r.append("\"\n");
            assert(r@ + Seq::<char>::empty() =~= r@);
        },
    }
    r.append("replace-with = \"vendored-sources\"\n");
    r
}

/// The git sources that lines name, each once.
pub open spec fn git_sources(lines: Seq<Seq<char>>) -> Seq<Seq<char>>
    decreases lines.len(),
{
    if lines.len() == 0 {
        Seq::empty()
    } else {
        let before = git_sources(lines.drop_last());
        match git_source(lines.last()) {
            Some(s) if !before.contains(s) => before.push(s),
            _ => before,
        }
    }
}

/// The entries that redirect git sources.
pub open spec fn redirects(sources: Seq<Seq<char>>) -> Seq<char>
    decreases sources.len(),
{
    if sources.len() == 0 {
        Seq::empty()
    } else {
        redirects(sources.drop_last()) + redirect(sources.last())
    }
}

/// Lists the git sources of a lockfile, each once.
pub fn lockfile_git_sources(lock_text: &str) -> (r: Vec<String>)
    ensures
        views(r@) == git_sources(split_seq(lock_text@, '\n')),
{
    let lines = split(lock_text, '\n');
    let ghost ls = views(lines@);
    let mut r: Vec<String> = Vec::new();
    let mut i: usize = 0;
    assert(views(r@) =~= Seq::empty());
    while i < lines.len()
        invariant
            i <= lines@.len(),
            ls == views(lines@),
            views(r@) == git_sources(ls.take(i as int)),
        decreases lines@.len() - i,
    {
        assert(ls.take(i + 1).drop_last() =~= ls.take(i as int));
        if let Some(s) = find_git_source(lines[i].as_str()) {
            if !list_has(&r, s.as_str()) {
                let ghost before = views(r@);
                let ghost sv = s@;
                r.push(s);
                assert(views(r@) =~= before.push(sv));
            }
        }
        i = i + 1;
    }
    assert(ls.take(ls.len() as int) =~= ls);
    r
}

/// Writes the entries that redirect every git source of a lockfile to the vendored
/// copy, so that cargo does not go to the network for it.
pub fn git_source_overrides(lock_text: &str) -> (r: String)
    ensures
        r@ == redirects(git_sources(split_seq(lock_text@, '\n'))),
{
    let sources = lockfile_git_sources(lock_text);
    let ghost ss = views(sources@);
    let mut r = String::new();
    let mut i: usize = 0;
    assert(r@ =~= redirects(ss.take(0)));
    while i < sources.len()
        invariant
            i <= sources@.len(),
            ss == views(sources@),
            r@ == redirects(ss.take(i as int)),
        decreases sources@.len() - i,
    {
        assert(ss.take(i + 1).drop_last() =~= ss.take(i as int));
        let entry = redirect_text(sources[i].as_str());
        r.append(entry.as_str());
        i = i + 1;
    }
    assert(ss.take(ss.len() as int) =~= ss);
    r
}

/// The configuration of cargo: crates.io and every git source of the lockfile are
/// replaced by the vendored crates.
pub open spec fn config_text(vendor_dir: Seq<char>, lock: Option<Seq<char>>) -> Seq<char> {
    "[source.crates-io]\nreplace-with = \"vendored-sources\"\n\n[source.vendored-sources]\ndirectory = \""@
        + vendor_dir + "\"\n"@ + (match lock {
        Some(text) => redirects(git_sources(split_seq(text, '\n'))),
        None => Seq::empty(),
    })
}

/// Writes the configuration of cargo.
pub fn cargo_config(vendor_dir: &str, lock_text: Option<&str>) -> (r: String)
    ensures
        r@ == config_text(
            vendor_dir@,
            match lock_text {
                Some(t) => Some(t@),
                None => None,
            },
        ),
{
    let mut r = owned(
        "[source.crates-io]\nreplace-with = \"vendored-sources\"\n\n[source.vendored-sources]\ndirectory = \"",
    );
    r.append(vendor_dir);
    r.append("\"\n");
    match lock_text {
        Some(t) => {
            let more = git_source_overrides(t);
            r.append(more.as_str());
        },
        None => {
            assert(r@ + Seq::<char>::empty() =~= r@);
        },
    }
    r
}

// ---------------------------------------------------------------------------
// Package selection
// ---------------------------------------------------------------------------

/// Which packages cargo resolves.
pub enum Selection {
    /// What cargo takes by itself.
    Default,
    /// Every member.
    All,
    /// The listed packages.
    Packages(Vec<String>),
    /// Every member but the listed ones.
    OptOut(Vec<String>),
}

/// Which packages cargo resolves.
pub enum SelectionView {
    Default,
    All,
    Packages(Seq<Seq<char>>),
    OptOut(Seq<Seq<char>>),
}

impl View for Selection {
    type V = SelectionView;

    open spec fn view(&self) -> SelectionView {
        match self {
            Selection::Default => SelectionView::Default,
            Selection::All => SelectionView::All,
            Selection::Packages(p) => SelectionView::Packages(views(p@)),
            Selection::OptOut(e) => SelectionView::OptOut(views(e@)),
        }
    }
}

/// The packages that cargo resolves: those of a declared scope whatever is asked
/// for, else those asked for, else all but the excluded ones, else every member of
/// a workspace without a root package.
pub open spec fn selection(
    scope: Option<SpecView>,
    packages: Seq<Seq<char>>,
    exclude: Seq<Seq<char>>,
    is_virtual: bool,
) -> SelectionView {
    match scope {
        Some(SpecView::Workspace) => SelectionView::All,
        Some(SpecView::Packages(p)) => SelectionView::Packages(p),
        Some(SpecView::Exclude(e)) => SelectionView::OptOut(e),
        None => if packages.len() > 0 {
            SelectionView::Packages(packages)
        } else if exclude.len() > 0 {
            SelectionView::OptOut(exclude)
        } else if is_virtual {
            SelectionView::All
        } else {
            SelectionView::Default
        },
    }
}

/// Chooses the packages that cargo resolves.
pub fn select_packages(
    scope: Option<&ResolutionScope>,
    packages: &Vec<String>,
    exclude: &Vec<String>,
    is_virtual: bool,
) -> (r: Selection)
    ensures
        r@ == selection(
            match scope {
                Some(s) => Some(s.spec@),
                None => None,
            },
            views(packages@),
            views(exclude@),
            is_virtual,
        ),
{
    assert(views(packages@).len() == packages@.len() && views(exclude@).len() == exclude@.len());
    match scope {
        Some(s) => match &s.spec {
            ResolutionSpec::Workspace => Selection::All,
            ResolutionSpec::Packages(p) => Selection::Packages(clone_strings(p)),
            ResolutionSpec::Exclude(e) => Selection::OptOut(clone_strings(e)),
        },
        None => if packages.len() > 0 {
            Selection::Packages(clone_strings(packages))
        } else if exclude.len() > 0 {
            Selection::OptOut(clone_strings(exclude))
        } else if is_virtual {
            Selection::All
        } else {
            Selection::Default
        },
    }
}

// ---------------------------------------------------------------------------
// Laws
// ---------------------------------------------------------------------------

/// With a declared scope what is resolved does not depend on what is asked for.
pub proof fn law_scope_fixes_selection(
    scope: SpecView,
    packages1: Seq<Seq<char>>,
    exclude1: Seq<Seq<char>>,
    virtual1: bool,
    packages2: Seq<Seq<char>>,
    exclude2: Seq<Seq<char>>,
    virtual2: bool,
)
    ensures
        selection(Some(scope), packages1, exclude1, virtual1) == selection(
            Some(scope),
            packages2,
            exclude2,
            virtual2,
        ),
{
}

/// Every git source of a lockfile is redirected exactly once.
pub proof fn law_git_sources_once(lines: Seq<Seq<char>>, i: int)
    requires
        0 <= i < lines.len(),
    ensures
        git_source(lines[i]) matches Some(s) ==> git_sources(lines).contains(s),
        git_sources(lines).no_duplicates(),
    decreases lines.len(),
{
    let before = git_sources(lines.drop_last());
    let all = git_sources(lines);
    if lines.len() > 1 {
        let j = if i < lines.len() - 1 {
            i
        } else {
            0
        };
        law_git_sources_once(lines.drop_last(), j);
        if i < lines.len() - 1 {
            assert(lines.drop_last()[i] == lines[i]);
        }
    }
    match git_source(lines.last()) {
        Some(s) if !before.contains(s) => {
            assert(all == before.push(s));
            assert(all[before.len() as int] == s);
            if let Some(x) = git_source(lines[i]) {
                if before.contains(x) {
                    let k = choose|k: int| 0 <= k < before.len() && before[k] == x;
                    assert(all[k] == x);
                }
            }
        },
        _ => {},
    }
}

} // verus!
