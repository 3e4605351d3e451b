//! The build plan and its picture as a flowchart.
use crate::graph::{index_of, indexes, key_index};
use crate::strmap::StrMap;
use crate::text::{
    clone_strings, decimal, decimal_seq, digit, is_digit, join, join_seq, lemma_decimal_injective,
    owned, split, split_seq, to_chars, views,
};
use crate::units::{list_has, unit_views, NixUnit, UnitKind, UnitView};
use vstd::prelude::*;

verus! {

// ---------------------------------------------------------------------------
// The build plan
// ---------------------------------------------------------------------------

/// A dependency in a build plan.
#[derive(Debug, Clone)]
pub struct DepInfo {
    pub unit_id: String,
    pub extern_crate_name: String,
}

/// A compilation unit in a build plan.
#[derive(Debug, Clone)]
pub struct UnitInfo {
    pub id: String,
    pub package_name: String,
    pub package_version: String,
    pub target_name: String,
    pub target_kind: String,
    pub compile_mode: String,
    pub features: Vec<String>,
    pub is_local: bool,
    /// Dependencies, by unit id.
    pub deps: Vec<DepInfo>,
}

/// A build plan: the units and the ids of those that were asked for.
#[derive(Debug)]
pub struct BuildPlan {
    pub units: Vec<UnitInfo>,
    pub roots: Vec<String>,
}

/// A unit whose dependencies are given by their positions.
pub struct PlanUnit {
    pub package_name: String,
    pub package_version: String,
    pub target_name: String,
    pub target_kind: String,
    pub compile_mode: String,
    pub features: Vec<String>,
    pub is_local: bool,
    /// The position of each dependency and the name it is known by.
    pub deps: Vec<(usize, String)>,
}

/// What a unit of a plan holds.
#[verifier::ext_equal]
pub struct InfoView {
    pub id: Seq<char>,
    pub package_name: Seq<char>,
    pub package_version: Seq<char>,
    pub target_name: Seq<char>,
    pub target_kind: Seq<char>,
    pub compile_mode: Seq<char>,
    pub features: Seq<Seq<char>>,
    pub is_local: bool,
    pub deps: Seq<(Seq<char>, Seq<char>)>,
}

/// The ids and names of dependencies.
pub open spec fn dep_views(deps: Seq<DepInfo>) -> Seq<(Seq<char>, Seq<char>)> {
    Seq::new(deps.len(), |i: int| (deps[i].unit_id@, deps[i].extern_crate_name@))
}

impl View for UnitInfo {
    type V = InfoView;

    open spec fn view(&self) -> InfoView {
        InfoView {
            id: self.id@,
            package_name: self.package_name@,
            package_version: self.package_version@,
            target_name: self.target_name@,
            target_kind: self.target_kind@,
            compile_mode: self.compile_mode@,
            features: views(self.features@),
            is_local: self.is_local,
            deps: dep_views(self.deps@),
        }
    }
}

/// What the units of a plan hold.
pub open spec fn info_views(units: Seq<UnitInfo>) -> Seq<InfoView> {
    Seq::new(units.len(), |i: int| units[i]@)
}

/// The id of the unit at a position.
pub open spec fn plan_id(units: Seq<PlanUnit>, i: int) -> Seq<char> {
    units[i].package_name@ + "-"@ + units[i].package_version@ + "-"@ + units[i].target_name@ + "-"@
        + decimal_seq(i as nat)
}

/// The unit of the plan at a position.
pub open spec fn plan_info(units: Seq<PlanUnit>, i: int) -> InfoView {
    let u = units[i];
    InfoView {
        id: plan_id(units, i),
        package_name: u.package_name@,
        package_version: u.package_version@,
        target_name: u.target_name@,
        target_kind: u.target_kind@,
        compile_mode: u.compile_mode@,
        features: views(u.features@),
        is_local: u.is_local,
        deps: Seq::new(
            u.deps@.len(),
            |k: int| (plan_id(units, u.deps@[k].0 as int), u.deps@[k].1@),
        ),
    }
}

/// Every dependency and every root is one of the units.
pub open spec fn plan_closed(units: Seq<PlanUnit>, roots: Seq<usize>) -> bool {
    &&& forall|k: int| 0 <= k < roots.len() ==> #[trigger] roots[k] < units.len()
    &&& forall|i: int, k: int|
        0 <= i < units.len() && 0 <= k < units[i].deps@.len() ==> (
        #[trigger] units[i].deps@[k]).0 < units.len()
}

fn unit_id(units: &Vec<PlanUnit>, i: usize) -> (r: String)
    requires
        i < units@.len(),
    ensures
        r@ == plan_id(units@, i as int),
{
    let u = &units[i];
    let mut r = u.package_name.clone();
    r.append("-");
    r.append(u.package_version.as_str());
    r.append("-");
    r.append(u.target_name.as_str());
    r.append("-");
    let n = decimal(i as u64);
    r.append(n.as_str());
    r
}

fn unit_info(units: &Vec<PlanUnit>, i: usize) -> (r: UnitInfo)
    requires
        i < units@.len(),
        forall|k: int|
            0 <= k < units@[i as int].deps@.len() ==> (#[trigger] units@[i as int].deps@[k]).0
                < units@.len(),
    ensures
        r@ == plan_info(units@, i as int),
{
    let u = &units[i];
    let mut deps: Vec<DepInfo> = Vec::new();
    let mut k: usize = 0;
    while k < u.deps.len()
        invariant
            k <= u.deps@.len(),
            deps@.len() == k,
            i < units@.len(),
            u == units@[i as int],
            forall|j: int| 0 <= j < u.deps@.len() ==> (#[trigger] u.deps@[j]).0 < units@.len(),
            forall|j: int|
                0 <= j < k ==> (#[trigger] deps@[j]).unit_id@ == plan_id(
                    units@,
                    u.deps@[j].0 as int,
                ) && deps@[j].extern_crate_name@ == u.deps@[j].1@,
        decreases u.deps@.len() - k,
    {
        let id = unit_id(units, u.deps[k].0);
        deps.push(DepInfo { unit_id: id, extern_crate_name: u.deps[k].1.clone() });
        k = k + 1;
    }
    let r = UnitInfo {
        id: unit_id(units, i),
        package_name: u.package_name.clone(),
        package_version: u.package_version.clone(),
        target_name: u.target_name.clone(),
        target_kind: u.target_kind.clone(),
        compile_mode: u.compile_mode.clone(),
        features: clone_strings(&u.features),
        is_local: u.is_local,
        deps,
    };
    assert(r@ =~= plan_info(units@, i as int));
    r
}

/// Makes the plan of units whose dependencies are given by position: each unit gets
/// an id that ends in its position.
pub fn build_plan(units: &Vec<PlanUnit>, roots: &Vec<usize>) -> (r: BuildPlan)
    requires
        plan_closed(units@, roots@),
    ensures
        info_views(r.units@) == Seq::new(units@.len(), |i: int| plan_info(units@, i)),
        views(r.roots@) == Seq::new(roots@.len(), |k: int| plan_id(units@, roots@[k] as int)),
{
    let mut infos: Vec<UnitInfo> = Vec::new();
    let mut i: usize = 0;
    while i < units.len()
        invariant
            i <= units@.len(),
            infos@.len() == i,
            plan_closed(units@, roots@),
            forall|j: int| 0 <= j < i ==> (#[trigger] infos@[j])@ == plan_info(units@, j),
        decreases units@.len() - i,
    {
        infos.push(unit_info(units, i));
        i = i + 1;
    }
    let mut ids: Vec<String> = Vec::new();
    let mut k: usize = 0;
    while k < roots.len()
        invariant
            k <= roots@.len(),
            ids@.len() == k,
            plan_closed(units@, roots@),
            forall|j: int| 0 <= j < k ==> (#[trigger] ids@[j])@ == plan_id(units@, roots@[j] as int),
        decreases roots@.len() - k,
    {
        ids.push(unit_id(units, roots[k]));
        k = k + 1;
    }
    assert(info_views(infos@) =~= Seq::new(units@.len(), |i: int| plan_info(units@, i)));
    assert(views(ids@) =~= Seq::new(roots@.len(), |k: int| plan_id(units@, roots@[k] as int)));
    BuildPlan { units: infos, roots: ids }
}

/// A text tells what stands behind its last dash.
proof fn lemma_last_part(a: Seq<char>, x: Seq<char>, b: Seq<char>, y: Seq<char>)
    requires
        a.push('-') + x == b.push('-') + y,
        !x.contains('-'),
        !y.contains('-'),
    ensures
        x == y,
{
    let s = a.push('-') + x;
    let t = b.push('-') + y;
    assert(s[a.len() as int] == '-');
    assert(t[b.len() as int] == '-');
    assert(s.len() == a.len() + 1 + x.len() && t.len() == b.len() + 1 + y.len());
    if b.len() < a.len() {
        assert(t[a.len() as int] == y[a.len() - b.len() - 1]);
    } else if a.len() < b.len() {
        assert(s[b.len() as int] == x[b.len() - a.len() - 1]);
    }
    assert(x =~= s.skip(a.len() as int + 1));
    assert(y =~= t.skip(b.len() as int + 1));
}

/// No two units of a plan have the same id.
pub proof fn law_ids_differ(units: Seq<PlanUnit>, i: int, j: int)
    requires
        0 <= i < units.len(),
        0 <= j < units.len(),
        plan_id(units, i) == plan_id(units, j),
    ensures
        i == j,
{
    let a = units[i].package_name@ + "-"@ + units[i].package_version@ + "-"@
        + units[i].target_name@;
    let b = units[j].package_name@ + "-"@ + units[j].package_version@ + "-"@
        + units[j].target_name@;
    let x = decimal_seq(i as nat);
    let y = decimal_seq(j as nat);
    reveal_strlit("-");
    assert(plan_id(units, i) =~= a.push('-') + x);
    assert(plan_id(units, j) =~= b.push('-') + y);
    lemma_decimal_injective(i as nat, j as nat);
    lemma_decimal_injective(j as nat, i as nat);
    lemma_last_part(a, x, b, y);
}

// ---------------------------------------------------------------------------
// The plan as text
// ---------------------------------------------------------------------------

/// The lines of the dependencies of a unit.
pub open spec fn dep_lines(deps: Seq<(Seq<char>, Seq<char>)>) -> Seq<char>
    decreases deps.len(),
{
    if deps.len() == 0 {
        Seq::empty()
    } else {
        dep_lines(deps.drop_last()) + "    -> "@ + deps.last().0 + " (as "@ + deps.last().1 + ")\n"@
    }
}

/// The first line of a unit.
pub open spec fn unit_head(u: InfoView, root: bool) -> Seq<char> {
    "  "@ + u.package_name + " v"@ + u.package_version + " (target: "@ + u.target_name + ", kind: "@
        + u.target_kind + ", mode: "@ + u.compile_mode + ")"@ + (if u.is_local {
        " (local)"@
    } else {
        ""@
    }) + (if root {
        " [ROOT]"@
    } else {
        ""@
    }) + "\n"@
}

/// The lines of a unit.
pub open spec fn unit_lines(u: InfoView, root: bool) -> Seq<char> {
    unit_head(u, root) + (if u.features.len() > 0 {
        "    features: "@ + join_seq(u.features, ", "@) + "\n"@
    } else {
        ""@
    }) + dep_lines(u.deps)
}

/// The lines of the units.
pub open spec fn plan_lines(units: Seq<InfoView>, roots: Seq<Seq<char>>) -> Seq<char>
    decreases units.len(),
{
    if units.len() == 0 {
        Seq::empty()
    } else {
        plan_lines(units.drop_last(), roots) + unit_lines(
            units.last(),
            roots.contains(units.last().id),
        )
    }
}

/// The plan as text: a heading, the units and an empty line.
pub open spec fn plan_text(units: Seq<InfoView>, roots: Seq<Seq<char>>) -> Seq<char> {
    "\n=== Build Plan: "@ + decimal_seq(units.len()) + " units ===\n\n"@ + plan_lines(units, roots)
        + "\n"@
}

fn write_deps(r: &mut String, deps: &Vec<DepInfo>)
    ensures
        final(r)@ == old(r)@ + dep_lines(dep_views(deps@)),
{
    let ghost start = r@;
    let ghost all = dep_views(deps@);
    let mut i: usize = 0;
    assert(r@ =~= start + dep_lines(all.take(0)));
    while i < deps.len()
        invariant
            i <= deps@.len(),
            all == dep_views(deps@),
            r@ == start + dep_lines(all.take(i as int)),
        decreases deps@.len() - i,
    {
        let ghost before = dep_lines(all.take(i as int));
        assert(all.take(i + 1).drop_last() =~= all.take(i as int));
        assert(all.take(i + 1).last() == all[i as int]);
        r.append("    -> ");
        r.append(deps[i].unit_id.as_str());
        r.append(" (as ");
        r.append(deps[i].extern_crate_name.as_str());
        r.append(")\n");
        i = i + 1;
        assert(r@ =~= start + dep_lines(all.take(i as int)));
    }
    assert(all.take(all.len() as int) =~= all);
}

fn write_unit(r: &mut String, u: &UnitInfo, root: bool)
    ensures
        final(r)@ == old(r)@ + unit_lines(u@, root),
{
    let mut line = owned("  ");
    line.append(u.package_name.as_str());
    line.append(" v");
    line.append(u.package_version.as_str());
    line.append(" (target: ");
    line.append(u.target_name.as_str());
    line.append(", kind: ");
    line.append(u.target_kind.as_str());
    line.append(", mode: ");
    line.append(u.compile_mode.as_str());
    line.append(")");
    line.append(if u.is_local { " (local)" } else { "" });
    line.append(if root { " [ROOT]" } else { "" });
    line.append("\n");
    assert(line@ == unit_head(u@, root));
    if u.features.len() > 0 {
        let list = join(&u.features, ", ");
        let mut features = owned("    features: ");
        features.append(list.as_str());
        features.append("\n");
        line.append(features.as_str());
    } else {
        line.append("");
    }
    write_deps(&mut line, &u.deps);
    assert(line@ == unit_lines(u@, root));
    r.append(line.as_str());
}

/// Writes the plan as text.
pub fn format_build_plan(plan: &BuildPlan) -> (r: String)
    ensures
        r@ == plan_text(info_views(plan.units@), views(plan.roots@)),
{
    let ghost us = info_views(plan.units@);
    let ghost roots = views(plan.roots@);
    let mut r = owned("\n=== Build Plan: ");
    let n = decimal(plan.units.len() as u64);
    r.append(n.as_str());
    r.append(" units ===\n\n");
    let ghost start = r@;
    let mut i: usize = 0;
    assert(r@ =~= start + plan_lines(us.take(0), roots));
    while i < plan.units.len()
        invariant
            i <= plan.units@.len(),
            us == info_views(plan.units@),
            roots == views(plan.roots@),
            r@ == start + plan_lines(us.take(i as int), roots),
        decreases plan.units@.len() - i,
    {
        assert(us.take(i + 1).drop_last() =~= us.take(i as int));
        assert(us.take(i + 1).last() == plan.units@[i as int]@);
        let root = list_has(&plan.roots, plan.units[i].id.as_str());
        write_unit(&mut r, &plan.units[i], root);
        i = i + 1;
        assert(r@ =~= start + plan_lines(us.take(i as int), roots));
    }
    assert(us.take(us.len() as int) =~= us);
    r.append("\n");
    assert(r@ =~= plan_text(us, roots));
    r
}

// ---------------------------------------------------------------------------
// The flowchart
// ---------------------------------------------------------------------------

/// The parts before the first that starts with a digit.
pub open spec fn parts_before_version(parts: Seq<Seq<char>>, from: int) -> Seq<Seq<char>>
    decreases parts.len() - from,
{
    if from >= parts.len() || (parts[from].len() > 0 && is_digit(parts[from][0])) {
        parts.take(from)
    } else {
        parts_before_version(parts, from + 1)
    }
}

/// The package that a node is labelled with.
pub open spec fn package_label(u: UnitView) -> Seq<char> {
    let label = join_seq(parts_before_version(split_seq(u.drv_name, '-'), 0), "-"@);
    if label.len() == 0 {
        u.crate_name
    } else {
        label
    }
}

fn label_of_package(u: &NixUnit) -> (r: String)
    ensures
        r@ == package_label(u@),
{
    let parts = split(u.drv_name.as_str(), '-');
    let ghost all = views(parts@);
    let mut taken: Vec<String> = Vec::new();
    let mut i: usize = 0;
    assert(views(taken@) =~= all.take(0));
    while i < parts.len()
        invariant_except_break
            views(taken@) == all.take(i as int),
            parts_before_version(all, i as int) == parts_before_version(all, 0),
        invariant
            i <= parts@.len(),
            all == views(parts@),
        ensures
            views(taken@) == parts_before_version(all, 0),
        decreases parts@.len() - i,
    {
        let chars = to_chars(parts[i].as_str());
        assert(all[i as int] == parts@[i as int]@);
        if chars.len() > 0 && digit(chars[0]) {
            break;
        }
        let ghost before = views(taken@);
        taken.push(parts[i].clone());
        assert(views(taken@) =~= before.push(all[i as int]));
        assert(all.take(i + 1) =~= all.take(i as int).push(all[i as int]));
        i = i + 1;
    }
    let label = join(&taken, "-");
    if label.as_str().unicode_len() == 0 {
        u.crate_name.clone()
    } else {
        label
    }
}

/// A unit compiles or runs a build script.
pub open spec fn is_script_unit(kind: UnitKind) -> bool {
    kind == UnitKind::BuildScriptCompile || kind == UnitKind::BuildScriptRun
}

/// What kind of crate a node is labelled with.
pub open spec fn crate_label(types: Seq<Seq<char>>) -> Seq<char> {
    if types.contains("proc-macro"@) {
        "proc-macro"@
    } else if types.contains("bin"@) {
        "bin"@
    } else if types.contains("dylib"@) || types.contains("cdylib"@) {
        "dylib"@
    } else {
        "lib"@
    }
}

/// The label of a node.
pub open spec fn node_label(u: UnitView) -> Seq<char> {
    match u.kind {
        UnitKind::BuildScriptCompile => "build("@ + package_label(u) + ") [compile]"@,
        UnitKind::BuildScriptRun => "build("@ + package_label(u) + ") [run]"@,
        _ => u.crate_name + " ["@ + crate_label(u.crate_types) + "]"@,
    }
}

/// The brackets that give a node its shape: a hexagon for build scripts, a
/// subroutine for procedural macros, a stadium for roots, a rectangle otherwise.
pub open spec fn node_brackets(u: UnitView) -> (Seq<char>, Seq<char>) {
    if is_script_unit(u.kind) {
        ("{{\""@, "\"}}"@)
    } else if u.crate_types.contains("proc-macro"@) {
        ("[[\""@, "\"]]"@)
    } else if u.is_root {
        ("([\""@, "\"])"@)
    } else {
        ("[\""@, "\"]"@)
    }
}

/// The class of a node.
pub open spec fn node_class(u: UnitView) -> Seq<char> {
    if u.is_root {
        ":::root"@
    } else if is_script_unit(u.kind) {
        ":::build"@
    } else if u.crate_types.contains("proc-macro"@) {
        ":::pmacro"@
    } else if u.is_local {
        ":::local"@
    } else {
        ":::dep"@
    }
}

/// The line of a node.
pub open spec fn node_line(i: int, u: UnitView) -> Seq<char> {
    "    n"@ + decimal_seq(i as nat) + node_brackets(u).0 + node_label(u) + node_brackets(u).1
        + node_class(u) + "\n"@
}

/// The lines of the first `n` nodes.
pub open spec fn node_lines(us: Seq<UnitView>, n: nat) -> Seq<char>
    decreases n,
{
    if n == 0 {
        Seq::empty()
    } else {
        node_lines(us, (n - 1) as nat) + node_line(n - 1, us[n - 1])
    }
}

/// The line of an edge from one node to the unit with a key, if there is one.
pub open spec fn edge_line(us: Seq<UnitView>, i: int, arrow: Seq<char>, key: Seq<char>) -> Seq<
    char,
> {
    match index_of(us, key) {
        Some(j) => "    n"@ + decimal_seq(i as nat) + arrow + decimal_seq(j as nat) + "\n"@,
        None => Seq::empty(),
    }
}

/// The lines of the edges to the crates that a unit uses.
pub open spec fn dep_edges(
    us: Seq<UnitView>,
    i: int,
    deps: Seq<(Seq<char>, Seq<char>)>,
) -> Seq<char>
    decreases deps.len(),
{
    if deps.len() == 0 {
        Seq::empty()
    } else {
        dep_edges(us, i, deps.drop_last()) + edge_line(us, i, " --> n"@, deps.last().1)
    }
}

/// The line of an edge to an optional unit.
pub open spec fn opt_edge(
    us: Seq<UnitView>,
    i: int,
    arrow: Seq<char>,
    key: Option<Seq<char>>,
) -> Seq<char> {
    match key {
        Some(k) => edge_line(us, i, arrow, k),
        None => Seq::empty(),
    }
}

/// The lines of the edges from a unit.
pub open spec fn unit_edges(us: Seq<UnitView>, i: int) -> Seq<char> {
    dep_edges(us, i, us[i].dep_extern) + opt_edge(us, i, " -.-> n"@, us[i].build_script_dep)
        + opt_edge(us, i, " --> n"@, us[i].build_script_compile_key)
}

/// The lines of the edges from the first `n` units.
pub open spec fn edge_lines(us: Seq<UnitView>, n: nat) -> Seq<char>
    decreases n,
{
    if n == 0 {
        Seq::empty()
    } else {
        edge_lines(us, (n - 1) as nat) + unit_edges(us, n - 1)
    }
}

/// The lines that give the classes their colours.
pub open spec fn class_lines() -> Seq<char> {
    "    classDef root fill:#f6d365,stroke:#f39c12,color:#000\n"@
        + "    classDef local fill:#a8e6cf,stroke:#2ecc71,color:#000\n"@
        + "    classDef dep fill:#74b9ff,stroke:#0984e3,color:#000\n"@
        + "    classDef pmacro fill:#a29bfe,stroke:#6c5ce7,color:#000\n"@
        + "    classDef build fill:#dfe6e9,stroke:#636e72,color:#000\n"@
}

/// The flowchart of the units: the nodes, the edges and the classes.
pub open spec fn mermaid_seq(us: Seq<UnitView>) -> Seq<char> {
    "graph LR\n"@ + node_lines(us, us.len()) + "\n"@ + edge_lines(us, us.len()) + "\n"@
        + class_lines()
}

fn write_node(i: usize, u: &NixUnit) -> (r: String)
    ensures
        r@ == node_line(i as int, u@),
{
    let macros = list_has(&u.crate_types, "proc-macro");
    let script = matches!(u.kind, UnitKind::BuildScriptCompile | UnitKind::BuildScriptRun);
    let label = match u.kind {
        UnitKind::BuildScriptCompile => {
            let mut l = owned("build(");
            let pkg = label_of_package(u);
            l.append(pkg.as_str());
            l.append(") [compile]");
            l
        },
        UnitKind::BuildScriptRun => {
            let mut l = owned("build(");
            let pkg = label_of_package(u);
            l.append(pkg.as_str());
            l.append(") [run]");
            l
        },
        _ => {
            let mut l = u.crate_name.clone();
            l.append(" [");
            l.append(
                if macros {
                    "proc-macro"
                } else if list_has(&u.crate_types, "bin") {
                    "bin"
                } else if list_has(&u.crate_types, "dylib") || list_has(&u.crate_types, "cdylib") {
                    "dylib"
                } else {
                    "lib"
                },
            );
            l.append("]");
            l
        },
    };
    assert(label@ == node_label(u@));
    let (open, close) = if script {
        ("{{\"", "\"}}")
    } else if macros {
        ("[[\"", "\"]]")
    } else if u.is_root {
        ("([\"", "\"])")
    } else {
        ("[\"", "\"]")
    };
    let class = if u.is_root {
        ":::root"
    } else if script {
        ":::build"
    } else if macros {
        ":::pmacro"
    } else if u.is_local {
        ":::local"
    } else {
        ":::dep"
    };
    let mut r = owned("    n");
    let n = decimal(i as u64);
    r.append(n.as_str());
    r.append(open);
    r.append(label.as_str());
    r.append(close);
    r.append(class);
    r.append("\n");
    r
}

fn write_edge(r: &mut String, index: &StrMap<usize>, i: usize, arrow: &str, key: &str, units: &Vec<
    NixUnit,
>)
    requires
        indexes(index@, unit_views(units@)),
    ensures
        final(r)@ == old(r)@ + edge_line(unit_views(units@), i as int, arrow@, key@),
{
    let ghost start = r@;
    match index.get(key) {
        Some(j) => {
            let mut line = owned("    n");
            let from = decimal(i as u64);
            line.append(from.as_str());
            line.append(arrow);
            let to = decimal(*j as u64);
            line.append(to.as_str());
            line.append("\n");
            r.append(line.as_str());
            assert(index@.contains_key(key@));
            assert(index_of(unit_views(units@), key@) == Some(*j as int));
        },
        None => {
            assert(!index@.contains_key(key@));
            assert(index_of(unit_views(units@), key@) is None);
            assert(start + Seq::<char>::empty() =~= start);
        },
    }
}

fn write_edges(r: &mut String, index: &StrMap<usize>, i: usize, units: &Vec<NixUnit>)
    requires
        indexes(index@, unit_views(units@)),
        i < units@.len(),
    ensures
        final(r)@ == old(r)@ + unit_edges(unit_views(units@), i as int),
{
    let ghost us = unit_views(units@);
    let ghost start = r@;
    let u = &units[i];
    let ghost deps = us[i as int].dep_extern;
    let mut k: usize = 0;
    assert(r@ =~= start + dep_edges(us, i as int, deps.take(0)));
    while k < u.dep_extern.len()
        invariant
            k <= u.dep_extern@.len(),
            us == unit_views(units@),
            i < units@.len(),
            u == units@[i as int],
            deps == us[i as int].dep_extern,
            indexes(index@, us),
            r@ == start + dep_edges(us, i as int, deps.take(k as int)),
        decreases u.dep_extern@.len() - k,
    {
        assert(deps.take(k + 1).drop_last() =~= deps.take(k as int));
        assert(deps.take(k + 1).last() == deps[k as int]);
        write_edge(r, index, i, " --> n", u.dep_extern[k].1.as_str(), units);
        k = k + 1;
        assert(r@ =~= start + dep_edges(us, i as int, deps.take(k as int)));
    }
    assert(deps.take(deps.len() as int) =~= deps);
    if let Some(key) = &u.build_script_dep {
        write_edge(r, index, i, " -.-> n", key.as_str(), units);
    }
    if let Some(key) = &u.build_script_compile_key {
        write_edge(r, index, i, " --> n", key.as_str(), units);
    }
    assert(r@ =~= start + unit_edges(us, i as int));
}

/// Draws the units and their dependencies as a Mermaid flowchart.
pub fn format_mermaid_graph(units: &Vec<NixUnit>) -> (r: String)
    ensures
        r@ == mermaid_seq(unit_views(units@)),
{
    let ghost us = unit_views(units@);
    let index = key_index(units);
    let mut r = owned("graph LR\n");
    let ghost start = r@;
    let mut i: usize = 0;
    assert(r@ =~= start + node_lines(us, 0));
    while i < units.len()
        invariant
            i <= units@.len(),
            us == unit_views(units@),
            r@ == start + node_lines(us, i as nat),
        decreases units@.len() - i,
    {
        let line = write_node(i, &units[i]);
        r.append(line.as_str());
        i = i + 1;
        assert(r@ =~= start + node_lines(us, i as nat));
    }
    r.append("\n");
    let ghost middle = r@;
    let mut k: usize = 0;
    assert(r@ =~= middle + edge_lines(us, 0));
    while k < units.len()
        invariant
            k <= units@.len(),
            us == unit_views(units@),
            indexes(index@, us),
            r@ == middle + edge_lines(us, k as nat),
        decreases units@.len() - k,
    {
        write_edges(&mut r, &index, k, units);
        k = k + 1;
        assert(r@ =~= middle + edge_lines(us, k as nat));
    }
    r.append("\n");
    let mut classes = owned("    classDef root fill:#f6d365,stroke:#f39c12,color:#000\n");
    classes.append("    classDef local fill:#a8e6cf,stroke:#2ecc71,color:#000\n");
    classes.append("    classDef dep fill:#74b9ff,stroke:#0984e3,color:#000\n");
    classes.append("    classDef pmacro fill:#a29bfe,stroke:#6c5ce7,color:#000\n");
    classes.append("    classDef build fill:#dfe6e9,stroke:#636e72,color:#000\n");
    r.append(classes.as_str());
    r
}

} // verus!
