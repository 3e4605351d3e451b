//! What a plan, a graph and a build's output show.
use crate::bootstrap::{
    config_text, git_source, git_sources, redirect, redirects, selection, SelectionView,
};
use crate::build_output::{
    after_announcement, after_output, failed_drv, failed_in, failure, has_ca_error, line_kind,
    log_hints, package_message, LineView, LogContext, LogView,
};
use crate::graph::index_of;
use crate::plan::{
    class_lines, dep_edges, dep_lines, edge_line, edge_lines, mermaid_seq, node_line, node_lines,
    opt_edge, plan_lines, plan_text, unit_edges, unit_head, unit_lines, InfoView,
};
use crate::shell::{building_drv, right_aligned, status_seq};
use crate::text::{
    decimal_seq, ends, has_substring, is_space, join_seq, split_seq, starts, trim_end_seq,
    trim_start_seq,
};
use crate::units::{opt_view, UnitView};
use crate::wording::{
    lemma_assoc, lemma_first_at, lemma_holds_before, lemma_holds_behind, lemma_holds_itself,
    lemma_holds_within, lemma_middle,
};
use vstd::prelude::*;

verus! {

// ---------------------------------------------------------------------------
// Plans
// ---------------------------------------------------------------------------

proof fn lemma_plan_lines(units: Seq<InfoView>, roots: Seq<Seq<char>>, n: int)
    requires
        0 <= n < units.len(),
    ensures
        has_substring(
            plan_lines(units, roots),
            unit_lines(units[n], roots.contains(units[n].id)),
        ),
    decreases units.len(),
{
    let before = plan_lines(units.drop_last(), roots);
    let last = unit_lines(units.last(), roots.contains(units.last().id));
    let p = unit_lines(units[n], roots.contains(units[n].id));
    if n == units.len() - 1 {
        lemma_holds_itself(p);
        lemma_holds_behind(before, p, p);
    } else {
        lemma_plan_lines(units.drop_last(), roots, n);
        lemma_holds_before(before, last, p);
    }
}

proof fn lemma_dep_lines(deps: Seq<(Seq<char>, Seq<char>)>, k: int)
    requires
        0 <= k < deps.len(),
    ensures
        has_substring(dep_lines(deps), "    -> "@ + deps[k].0 + " (as "@ + deps[k].1 + ")\n"@),
    decreases deps.len(),
{
    let before = dep_lines(deps.drop_last());
    let e = "    -> "@ + deps[k].0 + " (as "@ + deps[k].1 + ")\n"@;
    let l = "    -> "@ + deps.last().0 + " (as "@ + deps.last().1 + ")\n"@;
    assert(dep_lines(deps) =~= before + l);
    if k == deps.len() - 1 {
        lemma_holds_itself(e);
        lemma_holds_behind(before, e, e);
    } else {
        lemma_dep_lines(deps.drop_last(), k);
        lemma_holds_before(before, l, e);
    }
}

/// A plan that is shown tells how many units it has.
pub proof fn law_plan_counts_units(units: Seq<InfoView>, roots: Seq<Seq<char>>)
    ensures
        has_substring(plan_text(units, roots), ": "@ + decimal_seq(units.len()) + " units"@),
{
    let lines = plan_lines(units, roots);
    let first = "\n=== Build Plan: "@ + decimal_seq(units.len()) + " units ===\n\n"@;
    reveal_strlit("\n=== Build Plan: ");
    reveal_strlit(": ");
    reveal_strlit(" units ===\n\n");
    reveal_strlit(" units");
    let a = "\n=== Build Plan: "@;
    let b = " units ===\n\n"@;
    assert(a =~= a.take(15) + ": "@);
    assert(b =~= " units"@ + b.skip(6));
    let p = ": "@ + decimal_seq(units.len()) + " units"@;
    lemma_middle(a.take(15), p, b.skip(6));
    assert(first =~= a.take(15) + p + b.skip(6));
    lemma_holds_before(first, lines, p);
    lemma_holds_before(first + lines, "\n"@, p);
}

proof fn lemma_in_plan(units: Seq<InfoView>, roots: Seq<Seq<char>>, n: int, p: Seq<char>)
    requires
        0 <= n < units.len(),
        has_substring(unit_lines(units[n], roots.contains(units[n].id)), p),
    ensures
        has_substring(plan_text(units, roots), p),
{
    let lines = plan_lines(units, roots);
    let own = unit_lines(units[n], roots.contains(units[n].id));
    let first = "\n=== Build Plan: "@ + decimal_seq(units.len()) + " units ===\n\n"@;
    lemma_plan_lines(units, roots, n);
    lemma_holds_within(lines, own, p);
    lemma_holds_behind(first, lines, p);
    lemma_holds_before(first + lines, "\n"@, p);
}

/// The text in front of a unit's mode.
spec fn before_mode(u: InfoView) -> Seq<char> {
    "  "@ + u.package_name + " v"@ + u.package_version + " (target: "@ + u.target_name
        + ", kind: "@ + u.target_kind + ", mode: "@
}

/// A plan that is shown tells of each unit its package, version, target, kind and mode,
/// its features, and each dependency with the name it is used by.
pub proof fn law_plan_shows_units(units: Seq<InfoView>, roots: Seq<Seq<char>>, n: int, k: int)
    requires
        0 <= n < units.len(),
    ensures
        has_substring(
            plan_text(units, roots),
            "  "@ + units[n].package_name + " v"@ + units[n].package_version + " (target: "@
                + units[n].target_name + ", kind: "@ + units[n].target_kind + ", mode: "@
                + units[n].compile_mode + ")"@,
        ),
        units[n].features.len() > 0 ==> has_substring(
            plan_text(units, roots),
            "    features: "@ + join_seq(units[n].features, ", "@) + "\n"@,
        ),
        0 <= k < units[n].deps.len() ==> has_substring(
            plan_text(units, roots),
            "    -> "@ + units[n].deps[k].0 + " (as "@ + units[n].deps[k].1 + ")\n"@,
        ),
{
    let u = units[n];
    let root = roots.contains(u.id);
    let head = unit_head(u, root);
    let stem = before_mode(u) + u.compile_mode + ")"@;
    let local = if u.is_local {
        " (local)"@
    } else {
        ""@
    };
    let mark = if root {
        " [ROOT]"@
    } else {
        ""@
    };
    let feats = if u.features.len() > 0 {
        "    features: "@ + join_seq(u.features, ", "@) + "\n"@
    } else {
        ""@
    };
    let deps = dep_lines(u.deps);
    lemma_holds_itself(stem);
    lemma_holds_before(stem, local, stem);
    lemma_holds_before(stem + local, mark, stem);
    lemma_holds_before(stem + local + mark, "\n"@, stem);
    lemma_holds_before(head, feats, stem);
    lemma_holds_before(head + feats, deps, stem);
    lemma_in_plan(units, roots, n, stem);
    if u.features.len() > 0 {
        lemma_middle(head, feats, deps);
        lemma_in_plan(units, roots, n, feats);
    }
    if 0 <= k < u.deps.len() {
        let p = "    -> "@ + u.deps[k].0 + " (as "@ + u.deps[k].1 + ")\n"@;
        lemma_dep_lines(u.deps, k);
        lemma_holds_behind(head + feats, deps, p);
        lemma_in_plan(units, roots, n, p);
    }
}

/// A plan that is shown marks the roots, and the crates of the project.
pub proof fn law_plan_marks_roots(units: Seq<InfoView>, roots: Seq<Seq<char>>, n: int)
    requires
        0 <= n < units.len(),
    ensures
        units[n].is_local && roots.contains(units[n].id) ==> has_substring(
            plan_text(units, roots),
            units[n].compile_mode + ")"@ + " (local)"@ + " [ROOT]"@ + "\n"@,
        ),
        units[n].is_local && !roots.contains(units[n].id) ==> has_substring(
            plan_text(units, roots),
            units[n].compile_mode + ")"@ + " (local)"@ + "\n"@,
        ),
        !units[n].is_local && roots.contains(units[n].id) ==> has_substring(
            plan_text(units, roots),
            units[n].compile_mode + ")"@ + " [ROOT]"@ + "\n"@,
        ),
        !units[n].is_local && !roots.contains(units[n].id) ==> has_substring(
            plan_text(units, roots),
            units[n].compile_mode + ")"@ + "\n"@,
        ),
{
    let u = units[n];
    let root = roots.contains(u.id);
    let head = unit_head(u, root);
    reveal_strlit("");
    let local = if u.is_local {
        " (local)"@
    } else {
        ""@
    };
    let mark = if root {
        " [ROOT]"@
    } else {
        ""@
    };
    let feats = if u.features.len() > 0 {
        "    features: "@ + join_seq(u.features, ", "@) + "\n"@
    } else {
        ""@
    };
    let deps = dep_lines(u.deps);
    let p = u.compile_mode + ")"@ + local + mark + "\n"@;
    lemma_holds_itself(p);
    lemma_holds_behind(before_mode(u), p, p);
    lemma_assoc(before_mode(u), u.compile_mode, ")"@);
    lemma_assoc(before_mode(u), u.compile_mode + ")"@, local);
    lemma_assoc(before_mode(u), u.compile_mode + ")"@ + local, mark);
    lemma_assoc(before_mode(u), u.compile_mode + ")"@ + local + mark, "\n"@);
    assert(head == before_mode(u) + p);
    lemma_holds_before(head, feats, p);
    lemma_holds_before(head + feats, deps, p);
    lemma_in_plan(units, roots, n, p);
    let mode = u.compile_mode + ")"@;
    assert(mode + ""@ =~= mode);
    assert(mode + " (local)"@ + ""@ =~= mode + " (local)"@);
}

proof fn lemma_node_lines(us: Seq<UnitView>, n: nat, i: int)
    requires
        0 <= i < n <= us.len(),
    ensures
        has_substring(node_lines(us, n), node_line(i, us[i])),
    decreases n,
{
    let before = node_lines(us, (n - 1) as nat);
    let p = node_line(i, us[i]);
    if i == n - 1 {
        lemma_holds_itself(p);
        lemma_holds_behind(before, p, p);
    } else {
        lemma_node_lines(us, (n - 1) as nat, i);
        lemma_holds_before(before, node_line(n - 1, us[n - 1]), p);
    }
}

proof fn lemma_edge_lines(us: Seq<UnitView>, n: nat, i: int, p: Seq<char>)
    requires
        0 <= i < n <= us.len(),
        has_substring(unit_edges(us, i), p),
    ensures
        has_substring(edge_lines(us, n), p),
    decreases n,
{
    let before = edge_lines(us, (n - 1) as nat);
    if i == n - 1 {
        lemma_holds_behind(before, unit_edges(us, i), p);
    } else {
        lemma_edge_lines(us, (n - 1) as nat, i, p);
        lemma_holds_before(before, unit_edges(us, n - 1), p);
    }
}

proof fn lemma_dep_edges(us: Seq<UnitView>, i: int, deps: Seq<(Seq<char>, Seq<char>)>, k: int)
    requires
        0 <= k < deps.len(),
    ensures
        has_substring(dep_edges(us, i, deps), edge_line(us, i, " --> n"@, deps[k].1)),
    decreases deps.len(),
{
    let before = dep_edges(us, i, deps.drop_last());
    let p = edge_line(us, i, " --> n"@, deps[k].1);
    if k == deps.len() - 1 {
        lemma_holds_itself(p);
        lemma_holds_behind(before, p, p);
    } else {
        lemma_dep_edges(us, i, deps.drop_last(), k);
        lemma_holds_before(before, edge_line(us, i, " --> n"@, deps.last().1), p);
    }
}

/// A graph that is shown has a node for each unit, by its number and crate, and an arrow
/// from it to each unit that it depends on, a dotted one to the run of a build script.
#[verifier::spinoff_prover]
#[verifier::rlimit(60)]
pub proof fn law_graph_shows_units(us: Seq<UnitView>, i: int, k: int, j: int)
    requires
        0 <= i < us.len(),
    ensures
        has_substring(mermaid_seq(us), node_line(i, us[i])),
        0 <= k < us[i].dep_extern.len() && index_of(us, us[i].dep_extern[k].1) == Some(j)
            ==> has_substring(
            mermaid_seq(us),
            "    n"@ + decimal_seq(i as nat) + " --> n"@ + decimal_seq(j as nat) + "\n"@,
        ),
        us[i].build_script_dep matches Some(key) ==> index_of(us, key) == Some(j) ==> has_substring(
            mermaid_seq(us),
            "    n"@ + decimal_seq(i as nat) + " -.-> n"@ + decimal_seq(j as nat) + "\n"@,
        ),
        us[i].build_script_compile_key matches Some(key) ==> index_of(us, key) == Some(j)
            ==> has_substring(
            mermaid_seq(us),
            "    n"@ + decimal_seq(i as nat) + " --> n"@ + decimal_seq(j as nat) + "\n"@,
        ),
{
    let s = mermaid_seq(us);
    let nodes = node_lines(us, us.len());
    let edges = edge_lines(us, us.len());
    let rest = "\n"@ + class_lines();
    assert(s =~= ("graph LR\n"@ + nodes + "\n"@) + edges + rest);
    assert(s =~= "graph LR\n"@ + nodes + ("\n"@ + edges + rest));
    let p = node_line(i, us[i]);
    lemma_node_lines(us, us.len(), i);
    lemma_holds_behind("graph LR\n"@, nodes, p);
    lemma_holds_before("graph LR\n"@ + nodes, "\n"@ + edges + rest, p);
    let a = dep_edges(us, i, us[i].dep_extern);
    let b = opt_edge(us, i, " -.-> n"@, us[i].build_script_dep);
    let d = opt_edge(us, i, " --> n"@, us[i].build_script_compile_key);
    assert(unit_edges(us, i) == a + b + d);
    let front = "graph LR\n"@ + nodes + "\n"@;
    if 0 <= k < us[i].dep_extern.len() && index_of(us, us[i].dep_extern[k].1) == Some(j) {
        let e = edge_line(us, i, " --> n"@, us[i].dep_extern[k].1);
        lemma_dep_edges(us, i, us[i].dep_extern, k);
        lemma_holds_before(a, b, e);
        lemma_holds_before(a + b, d, e);
        lemma_edge_lines(us, us.len(), i, e);
        lemma_holds_behind(front, edges, e);
        lemma_holds_before(front + edges, rest, e);
    }
    if let Some(key) = us[i].build_script_dep {
        if index_of(us, key) == Some(j) {
            lemma_middle(a, b, d);
            lemma_edge_lines(us, us.len(), i, b);
            lemma_holds_behind(front, edges, b);
            lemma_holds_before(front + edges, rest, b);
        }
    }
    if let Some(key) = us[i].build_script_compile_key {
        if index_of(us, key) == Some(j) {
            lemma_holds_itself(d);
            lemma_holds_behind(a + b, d, d);
            lemma_edge_lines(us, us.len(), i, d);
            lemma_holds_behind(front, edges, d);
            lemma_holds_before(front + edges, rest, d);
        }
    }
}

// ---------------------------------------------------------------------------
// Output
// ---------------------------------------------------------------------------

/// A label stands right-aligned in front of its message: it ends in the twelfth column
/// where it has no more letters.
pub proof fn law_status_columns(label: Seq<char>, message: Seq<char>)
    ensures
        label.len() <= 12 ==> status_seq(label, message, false).len() == 13 + message.len(),
        label.len() <= 12 ==> status_seq(label, message, false).subrange(12 - label.len(), 12)
            == label,
        ends(status_seq(label, message, false), " "@ + message),
        has_substring(status_seq(label, message, true), label),
        ends(status_seq(label, message, true), " "@ + message),
{
    reveal_strlit(" ");
    reveal_strlit("\x1b[0m ");
    let r = right_aligned(label, 12);
    let s = status_seq(label, message, false);
    let t = status_seq(label, message, true);
    if label.len() <= 12 {
        assert(r.len() == 12);
        assert(s.subrange(12 - label.len(), 12) =~= label);
    }
    assert(s.skip(s.len() - (" "@ + message).len()) =~= " "@ + message);
    assert("\x1b[0m "@.last() == ' ');
    assert(t.skip(t.len() - (" "@ + message).len()) =~= " "@ + message);
    let pad = r.take(r.len() - label.len());
    assert(r =~= pad + label);
    assert(t =~= ("\x1b[1;32m"@ + pad) + label + ("\x1b[0m "@ + message));
    lemma_middle("\x1b[1;32m"@ + pad, label, "\x1b[0m "@ + message);
}

/// A package is shown with its version, and the project's own with its directory.
pub proof fn law_packages_are_shown(pkg: Seq<char>, version: Seq<char>, cx: LogContext)
    ensures
        version.len() == 0 ==> package_message(pkg, version, cx) == pkg,
        version.len() > 0 && opt_view(cx.project_pkg_name) != Some(pkg) ==> package_message(
            pkg,
            version,
            cx,
        ) == pkg + " v"@ + version,
        version.len() > 0 && opt_view(cx.project_pkg_name) == Some(pkg) ==> package_message(
            pkg,
            version,
            cx,
        ) == pkg + " v"@ + version + " ("@ + cx.project_dir@ + ")"@,
{
}

/// A line by which Nix tells that it builds a derivation is read as that, and the
/// derivation in it is found.
pub proof fn law_building_is_read(drv: Seq<char>)
    requires
        !drv.contains('\''),
        ends(drv, ".drv"@),
    ensures
        building_drv("building '"@ + drv + "'..."@) == Some(drv),
        line_kind("building '"@ + drv + "'..."@) == LineView::Building(drv),
{
    reveal_strlit("building '");
    reveal_strlit("'...");
    let line = "building '"@ + drv + "'..."@;
    assert(line[0] == 'b');
    assert(line.last() == '.');
    assert(!is_space('b') && !is_space('.'));
    assert(trim_start_seq(line) == line);
    assert(trim_end_seq(line) == line);
    assert(line.take("building '"@.len() as int) =~= "building '"@);
    let rest = line.skip("building '"@.len() as int);
    assert(rest =~= drv + "'..."@);
    assert forall|j: int| 0 <= j < drv.len() implies rest[j] != '\'' by {
        assert(rest[j] == drv[j]);
        assert(drv.contains(drv[j]));
    }
    assert(rest[drv.len() as int] == '\'');
    lemma_first_at(rest, '\'', drv.len() as int);
    assert(rest.take(drv.len() as int) =~= drv);
}

/// What a build says and is no diagnostic is kept for the report of a failure, in order;
/// a diagnostic is not, since it was shown.
pub proof fn law_output_is_kept(
    log: LogView,
    line: Seq<char>,
    text: Option<Seq<char>>,
)
    ensures
        after_output(log, line, (false, text)).0.errors == log.errors.push(line),
        after_output(log, line, (true, text)).0 == log,
        after_output(log, line, (true, text)).1.text == text,
{
}

/// The first announced number of derivations counts.
pub proof fn law_announced_total(log: LogView, n: u64, m: Option<u64>)
    ensures
        log.total is None ==> after_announcement(log, Some(n)).total == Some(n),
        log.total is Some ==> after_announcement(log, m).total == log.total,
        after_announcement(log, m).errors == log.errors,
        after_announcement(log, m).built == log.built,
{
}

proof fn lemma_failed_in(lines: Seq<Seq<char>>, i: int)
    requires
        0 <= i < lines.len(),
        failed_drv(lines[i]) is Some,
    ensures
        failed_in(lines).contains(failed_drv(lines[i])->0),
    decreases lines.len(),
{
    let before = failed_in(lines.drop_last());
    let all = failed_in(lines);
    let x = failed_drv(lines[i])->0;
    if i == lines.len() - 1 {
        assert(all.last() == x);
    } else {
        lemma_failed_in(lines.drop_last(), i);
        let k = choose|k: int| 0 <= k < before.len() && before[k] == x;
        assert(all[k] == x);
    }
}

/// A failed build reports everything that was kept, in order, and how to see the log of
/// each derivation that failed; where Nix lacks the feature that is needed, the report is
/// how to turn it on.
pub proof fn law_failure_is_reported(lines: Seq<Seq<char>>, i: int, drv: Seq<char>, after: Seq<char>)
    ensures
        has_ca_error(lines) ==> failure(lines) is Err,
        !has_ca_error(lines) ==> failure(lines) is Ok && failure(lines)->Ok_0.take(
            lines.len() as int,
        ) == lines,
        !has_ca_error(lines) && 0 <= i < lines.len() && lines[i] == "builder for '"@ + drv + "'"@
            + after && !drv.contains('\'') && ends(drv, ".drv"@) ==> failure(lines)->Ok_0.contains(
            "  nix log "@ + drv,
        ),
{
    if !has_ca_error(lines) {
        let r = failure(lines)->Ok_0;
        let hints = log_hints(failed_in(lines));
        assert(r == lines + hints);
        assert(r.take(lines.len() as int) =~= lines);
        if 0 <= i < lines.len() && lines[i] == "builder for '"@ + drv + "'"@ + after
            && !drv.contains('\'') && ends(drv, ".drv"@) {
            reveal_strlit("'");
            let line = lines[i];
            assert(line.take("builder for '"@.len() as int) =~= "builder for '"@);
            let rest = line.skip("builder for '"@.len() as int);
            assert(rest =~= drv + "'"@ + after);
            assert forall|j: int| 0 <= j < drv.len() implies rest[j] != '\'' by {
                assert(rest[j] == drv[j]);
                assert(drv.contains(drv[j]));
            }
            assert(rest[drv.len() as int] == '\'');
            lemma_first_at(rest, '\'', drv.len() as int);
            assert(rest.take(drv.len() as int) =~= drv);
            assert(failed_drv(line) == Some(drv));
            lemma_failed_in(lines, i);
            let drvs = failed_in(lines);
            let k = choose|k: int| 0 <= k < drvs.len() && drvs[k] == drv;
            assert(hints[k + 1] == "  nix log "@ + drv);
            assert(r[lines.len() + k + 1] == "  nix log "@ + drv);
        }
    }
}

// ---------------------------------------------------------------------------
// Cargo's configuration
// ---------------------------------------------------------------------------

/// A git source of a lock file is its address without the commit behind it.
pub proof fn law_git_source_is_read(url: Seq<char>, commit: Seq<char>)
    requires
        !url.contains('#'),
    ensures
        git_source("source = \"git+"@ + url + "#"@ + commit + "\""@) == Some(url),
{
    reveal_strlit("source = \"git+");
    reveal_strlit("\"");
    reveal_strlit("#");
    let front = "source = \"git+"@;
    let line = front + url + "#"@ + commit + "\""@;
    assert(line[0] == 's');
    assert(line.last() == '"');
    assert(!is_space('s') && !is_space('"'));
    assert(trim_start_seq(line) == line);
    assert(trim_end_seq(line) == line);
    assert(line.take(front.len() as int) =~= front);
    let rest = line.skip(front.len() as int);
    let inner = url + "#"@ + commit;
    assert(rest =~= inner + "\""@);
    assert(rest.skip(rest.len() - 1) =~= "\""@);
    assert(rest.take(rest.len() - 1) =~= inner);
    assert forall|j: int| 0 <= j < url.len() implies inner[j] != '#' by {
        assert(inner[j] == url[j]);
        assert(url.contains(url[j]));
    }
    assert(inner[url.len() as int] == '#');
    lemma_first_at(inner, '#', url.len() as int);
    assert(inner.take(url.len() as int) =~= url);
}

proof fn lemma_redirects(sources: Seq<Seq<char>>, i: int)
    requires
        0 <= i < sources.len(),
    ensures
        has_substring(redirects(sources), redirect(sources[i])),
    decreases sources.len(),
{
    let before = redirects(sources.drop_last());
    let p = redirect(sources[i]);
    if i == sources.len() - 1 {
        lemma_holds_itself(p);
        lemma_holds_behind(before, p, p);
    } else {
        lemma_redirects(sources.drop_last(), i);
        lemma_holds_before(before, redirect(sources.last()), p);
    }
}

/// Cargo is told to take every dependency from the vendored directory: those of the
/// registry, and those of each git source of the lock file.
pub proof fn law_dependencies_are_vendored(vendor: Seq<char>, lock: Seq<char>, i: int)
    ensures
        starts(
            config_text(vendor, Some(lock)),
            "[source.crates-io]\nreplace-with = \"vendored-sources\"\n"@,
        ),
        has_substring(config_text(vendor, Some(lock)), "directory = \""@ + vendor + "\"\n"@),
        has_substring(config_text(vendor, None), "directory = \""@ + vendor + "\"\n"@),
        0 <= i < git_sources(split_seq(lock, '\n')).len() ==> {
            let s = git_sources(split_seq(lock, '\n'))[i];
            &&& has_substring(
                config_text(vendor, Some(lock)),
                "[source.\""@ + "git+"@ + s + "\"]\ngit = \""@,
            )
            &&& ends(redirect(s), "replace-with = \"vendored-sources\"\n"@)
            &&& has_substring(config_text(vendor, Some(lock)), redirect(s))
        },
{
    let intro =
        "[source.crates-io]\nreplace-with = \"vendored-sources\"\n\n[source.vendored-sources]\ndirectory = \""@;
    reveal_strlit(
        "[source.crates-io]\nreplace-with = \"vendored-sources\"\n\n[source.vendored-sources]\ndirectory = \"",
    );
    reveal_strlit("[source.crates-io]\nreplace-with = \"vendored-sources\"\n");
    reveal_strlit("directory = \"");
    let begin = "[source.crates-io]\nreplace-with = \"vendored-sources\"\n"@;
    let dir = "directory = \""@;
    let c = config_text(vendor, Some(lock));
    let sources = git_sources(split_seq(lock, '\n'));
    let more = redirects(sources);
    let f = intro.take(intro.len() - dir.len());
    assert(intro =~= f + dir);
    let p = dir + vendor + "\"\n"@;
    assert(c =~= f + p + more);
    assert(config_text(vendor, None) =~= f + p + Seq::<char>::empty());
    lemma_middle(f, p, more);
    lemma_middle(f, p, Seq::empty());
    assert(intro.take(begin.len() as int) =~= begin);
    assert(c.take(begin.len() as int) =~= intro.take(begin.len() as int));
    if 0 <= i < sources.len() {
        let s = sources[i];
        let r = redirect(s);
        lemma_redirects(sources, i);
        lemma_holds_behind(f + p, more, r);
        let tail = "replace-with = \"vendored-sources\"\n"@;
        assert(r.skip(r.len() - tail.len()) =~= tail);
        reveal_strlit("\n[source.\"");
        reveal_strlit("[source.\"");
        reveal_strlit("\n");
        assert("\n[source.\""@ =~= "\n"@ + "[source.\""@);
        let q = "[source.\""@ + "git+"@ + s + "\"]\ngit = \""@;
        let behind = r.skip(("\n"@ + q).len() as int);
        assert(r =~= "\n"@ + q + behind);
        lemma_middle("\n"@, q, behind);
        lemma_holds_within(c, r, q);
    }
}

/// Without a scope the packages that were named are built; without those all but the
/// excluded ones; without either the whole workspace where there is no package at its
/// root, and else what cargo takes by itself.
pub proof fn law_selection_without_scope(
    packages: Seq<Seq<char>>,
    exclude: Seq<Seq<char>>,
    is_virtual: bool,
)
    ensures
        packages.len() > 0 ==> selection(None, packages, exclude, is_virtual)
            == SelectionView::Packages(packages),
        packages.len() == 0 && exclude.len() > 0 ==> selection(None, packages, exclude, is_virtual)
            == SelectionView::OptOut(exclude),
        packages.len() == 0 && exclude.len() == 0 && is_virtual ==> selection(
            None,
            packages,
            exclude,
            is_virtual,
        ) == SelectionView::All,
        packages.len() == 0 && exclude.len() == 0 && !is_virtual ==> selection(
            None,
            packages,
            exclude,
            is_virtual,
        ) == SelectionView::Default,
{
}

} // verus!
