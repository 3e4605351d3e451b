//! Setup rules: scripts that the caller has sourced into the sandboxes of the
//! units they match.
use crate::cargo_unit::{underscore, underscored};
use crate::text::{debug_str, debug_string, owned, same, views};
use crate::units::{find_pair, pair_lookup, unit_views, NixUnit, UnitKind, UnitView};
use vstd::prelude::*;

verus! {

/// A rule that has a script sourced into the units it matches, right before the
/// compiler, rustdoc, the lint driver or the build script runs.
#[derive(Debug, Clone, PartialEq)]
pub struct UnitSetupRule {
    /// Name of a cargo package, or `*` for every package.
    pub package: String,
    /// Unit kinds that the rule applies to.
    pub kinds: Vec<UnitKind>,
    /// Names of the cargo targets that the rule applies to; all of them if absent.
    pub targets: Option<Vec<String>>,
    /// Store path of the script.
    pub script: String,
}

/// What a rule holds.
#[verifier::ext_equal]
pub struct RuleView {
    pub package: Seq<char>,
    pub kinds: Seq<UnitKind>,
    pub targets: Option<Seq<Seq<char>>>,
    pub script: Seq<char>,
}

/// The views of an optional list of strings.
pub open spec fn opt_views(v: Option<Vec<String>>) -> Option<Seq<Seq<char>>> {
    match v {
        Some(l) => Some(views(l@)),
        None => None,
    }
}

impl View for UnitSetupRule {
    type V = RuleView;

    open spec fn view(&self) -> RuleView {
        RuleView {
            package: self.package@,
            kinds: self.kinds@,
            targets: opt_views(self.targets),
            script: self.script@,
        }
    }
}

/// What each rule of a list holds.
pub open spec fn rule_views(rules: Seq<UnitSetupRule>) -> Seq<RuleView> {
    Seq::new(rules.len(), |i: int| rules[i]@)
}

/// The kinds of a rule that names none: those in which macros are expanded.
pub open spec fn default_kinds() -> Seq<UnitKind> {
    seq![UnitKind::Compile, UnitKind::Check, UnitKind::TestCompile, UnitKind::Doc]
}

/// The kinds of a rule that names none.
pub fn default_unit_setup_kinds() -> (r: Vec<UnitKind>)
    ensures
        r@ == default_kinds(),
{
    let mut r: Vec<UnitKind> = Vec::new();
    r.push(UnitKind::Compile);
    r.push(UnitKind::Check);
    r.push(UnitKind::TestCompile);
    r.push(UnitKind::Doc);
    assert(r@ =~= default_kinds());
    r
}

/// The kind that a rule's name for it means.
pub open spec fn named_kind(s: Seq<char>) -> Option<UnitKind> {
    if s == "compile"@ {
        Some(UnitKind::Compile)
    } else if s == "check"@ {
        Some(UnitKind::Check)
    } else if s == "doc"@ {
        Some(UnitKind::Doc)
    } else if s == "test-compile"@ {
        Some(UnitKind::TestCompile)
    } else if s == "build-script-compile"@ {
        Some(UnitKind::BuildScriptCompile)
    } else if s == "build-script-run"@ {
        Some(UnitKind::BuildScriptRun)
    } else {
        None
    }
}

fn find_kind(s: &str) -> (r: Option<UnitKind>)
    ensures
        r == named_kind(s@),
{
    if same(s, "compile") {
        Some(UnitKind::Compile)
    } else if same(s, "check") {
        Some(UnitKind::Check)
    } else if same(s, "doc") {
        Some(UnitKind::Doc)
    } else if same(s, "test-compile") {
        Some(UnitKind::TestCompile)
    } else if same(s, "build-script-compile") {
        Some(UnitKind::BuildScriptCompile)
    } else if same(s, "build-script-run") {
        Some(UnitKind::BuildScriptRun)
    } else {
        None
    }
}

/// What is said of a name that means no kind.
pub open spec fn unknown_kind(s: Seq<char>) -> Seq<char> {
    "unknown unit kind "@ + debug_string(s)
        + "; expected one of compile, check, test-compile, doc, build-script-compile, build-script-run"@
}

/// The kinds that names mean, or what is said of the first that means none.
pub open spec fn named_kinds(names: Seq<Seq<char>>) -> Result<Seq<UnitKind>, Seq<char>>
    decreases names.len(),
{
    if names.len() == 0 {
        Ok(Seq::empty())
    } else {
        match named_kinds(names.drop_last()) {
            Err(e) => Err(e),
            Ok(before) => match named_kind(names.last()) {
                Some(k) => Ok(before.push(k)),
                None => Err(unknown_kind(names.last())),
            },
        }
    }
}

proof fn lemma_named_kinds_err(names: Seq<Seq<char>>, n: int)
    requires
        0 <= n <= names.len(),
        named_kinds(names.take(n)) is Err,
    ensures
        named_kinds(names) == named_kinds(names.take(n)),
    decreases names.len() - n,
{
    if n == names.len() {
        assert(names.take(n) =~= names);
    } else {
        assert(names.take(n + 1).drop_last() =~= names.take(n));
        lemma_named_kinds_err(names, n + 1);
    }
}

/// Reads the kinds of a rule.
pub fn de_unit_setup_kinds(names: &Vec<String>) -> (r: Result<Vec<UnitKind>, String>)
    ensures
        match (r, named_kinds(views(names@))) {
            (Ok(v), Ok(k)) => v@ == k,
            (Err(e), Err(m)) => e@ == m,
            _ => false,
        },
{
    let ghost ns = views(names@);
    let mut r: Vec<UnitKind> = Vec::new();
    let mut i: usize = 0;
    assert(r@ =~= Seq::empty());
    while i < names.len()
        invariant
            i <= names@.len(),
            ns == views(names@),
            named_kinds(ns.take(i as int)) == Ok::<Seq<UnitKind>, Seq<char>>(r@),
        decreases names@.len() - i,
    {
        assert(ns.take(i + 1).drop_last() =~= ns.take(i as int));
        assert(ns.take(i + 1).last() == names@[i as int]@);
        match find_kind(names[i].as_str()) {
            Some(k) => {
                r.push(k);
            },
            None => {
                let mut e = owned("unknown unit kind ");
                let shown = debug_str(names[i].as_str());
                e.append(shown.as_str());
                e.append(
                    "; expected one of compile, check, test-compile, doc, build-script-compile, build-script-run",
                );
                proof {
                    lemma_named_kinds_err(ns, i + 1);
                }
                return Err(e);
            },
        }
        i = i + 1;
    }
    assert(ns.take(ns.len() as int) =~= ns);
    Ok(r)
}

/// A rule's target filter names the target of a crate. Dashes count as
/// underscores.
pub open spec fn names_target(targets: Seq<Seq<char>>, crate_name: Seq<char>) -> bool {
    exists|i: int| 0 <= i < targets.len() && underscored(#[trigger] targets[i]) == crate_name
}

/// A rule matches a unit: by package, by kind, and by target if it names any.
pub open spec fn rule_matches(rule: RuleView, u: UnitView) -> bool {
    &&& rule.package == "*"@ || pair_lookup(u.cargo_envs, "CARGO_PKG_NAME"@) == Some(rule.package)
    &&& rule.kinds.contains(u.kind)
    &&& match rule.targets {
        Some(targets) => names_target(targets, u.crate_name),
        None => true,
    }
}

fn has_kind(kinds: &Vec<UnitKind>, kind: UnitKind) -> (r: bool)
    ensures
        r == kinds@.contains(kind),
{
    let mut i: usize = 0;
    while i < kinds.len()
        invariant
            i <= kinds@.len(),
            forall|j: int| 0 <= j < i ==> kinds@[j] != kind,
        decreases kinds@.len() - i,
    {
        if kinds[i] == kind {
            return true;
        }
        i = i + 1;
    }
    false
}

fn has_target(targets: &Vec<String>, crate_name: &str) -> (r: bool)
    ensures
        r == names_target(views(targets@), crate_name@),
{
    let ghost ts = views(targets@);
    let mut i: usize = 0;
    while i < targets.len()
        invariant
            i <= targets@.len(),
            ts == views(targets@),
            forall|j: int| 0 <= j < i ==> underscored(#[trigger] ts[j]) != crate_name@,
        decreases targets@.len() - i,
    {
        let name = underscore(targets[i].as_str());
        assert(ts[i as int] == targets@[i as int]@);
        if same(name.as_str(), crate_name) {
            return true;
        }
        i = i + 1;
    }
    false
}

/// Whether a rule matches a unit.
pub fn unit_setup_rule_matches(rule: &UnitSetupRule, unit: &NixUnit) -> (r: bool)
    ensures
        r == rule_matches(rule@, unit@),
{
    let by_package = same(rule.package.as_str(), "*") || match find_pair(
        &unit.cargo_envs,
        "CARGO_PKG_NAME",
    ) {
        Some(name) => same(name.as_str(), rule.package.as_str()),
        None => false,
    };
    let by_target = match &rule.targets {
        Some(targets) => has_target(targets, unit.crate_name.as_str()),
        None => true,
    };
    by_package && has_kind(&rule.kinds, unit.kind) && by_target
}

/// The scripts of the rules that match a unit, in the order of the rules.
pub open spec fn setup_scripts(rules: Seq<RuleView>, u: UnitView) -> Seq<Seq<char>>
    decreases rules.len(),
{
    if rules.len() == 0 {
        Seq::empty()
    } else if rule_matches(rules.last(), u) {
        setup_scripts(rules.drop_last(), u).push(rules.last().script)
    } else {
        setup_scripts(rules.drop_last(), u)
    }
}

/// Collects the setup scripts of a unit, in the order of the rules.
pub fn unit_setup_scripts(unit: &NixUnit, rules: &Vec<UnitSetupRule>) -> (r: Vec<String>)
    ensures
        views(r@) == setup_scripts(rule_views(rules@), unit@),
{
    let ghost rs = rule_views(rules@);
    let mut r: Vec<String> = Vec::new();
    let mut i: usize = 0;
    assert(views(r@) =~= Seq::empty());
    while i < rules.len()
        invariant
            i <= rules@.len(),
            rs == rule_views(rules@),
            views(r@) == setup_scripts(rs.take(i as int), unit@),
        decreases rules@.len() - i,
    {
        assert(rs.take(i + 1).drop_last() =~= rs.take(i as int));
        if unit_setup_rule_matches(&rules[i], unit) {
            let ghost before = views(r@);
            r.push(rules[i].script.clone());
            assert(views(r@) =~= before.push(rs[i as int].script));
        }
        i = i + 1;
    }
    assert(rs.take(rs.len() as int) =~= rs);
    r
}

/// A rule matches one of the units.
pub open spec fn matches_some(rule: RuleView, us: Seq<UnitView>) -> bool {
    exists|i: int| 0 <= i < us.len() && rule_matches(rule, #[trigger] us[i])
}

/// The positions of the rules among the first `n` that match no unit.
pub open spec fn unmatched(rules: Seq<RuleView>, us: Seq<UnitView>, n: nat) -> Seq<int>
    decreases n,
{
    if n == 0 {
        Seq::empty()
    } else {
        let before = unmatched(rules, us, (n - 1) as nat);
        if matches_some(rules[n - 1], us) {
            before
        } else {
            before.push(n - 1)
        }
    }
}

fn matches_any(rule: &UnitSetupRule, units: &Vec<NixUnit>) -> (r: bool)
    ensures
        r == matches_some(rule@, unit_views(units@)),
{
    let ghost us = unit_views(units@);
    let mut i: usize = 0;
    while i < units.len()
        invariant
            i <= units@.len(),
            us == unit_views(units@),
            forall|j: int| 0 <= j < i ==> !rule_matches(rule@, #[trigger] us[j]),
        decreases units@.len() - i,
    {
        assert(us[i as int] == units@[i as int]@);
        if unit_setup_rule_matches(rule, &units[i]) {
            return true;
        }
        i = i + 1;
    }
    false
}

/// The positions of the rules that match no unit.
pub fn unmatched_unit_setup_rules(units: &Vec<NixUnit>, rules: &Vec<UnitSetupRule>) -> (r: Vec<
    usize,
>)
    ensures
        r@.map_values(|i: usize| i as int) == unmatched(
            rule_views(rules@),
            unit_views(units@),
            rules@.len(),
        ),
{
    let ghost rs = rule_views(rules@);
    let ghost us = unit_views(units@);
    let mut r: Vec<usize> = Vec::new();
    let mut i: usize = 0;
    assert(r@.map_values(|i: usize| i as int) =~= Seq::empty());
    while i < rules.len()
        invariant
            i <= rules@.len(),
            rs == rule_views(rules@),
            us == unit_views(units@),
            r@.map_values(|i: usize| i as int) == unmatched(rs, us, i as nat),
        decreases rules@.len() - i,
    {
        let ghost before = r@.map_values(|i: usize| i as int);
        if !matches_any(&rules[i], units) {
            r.push(i);
            assert(r@.map_values(|i: usize| i as int) =~= before.push(i as int));
        }
        i = i + 1;
    }
    r
}

/// The warning about a rule that matches no unit.
pub open spec fn unmatched_warning_seq(rule: RuleView) -> Seq<char> {
    "unitSetup rule for package "@ + debug_string(rule.package) + " (script "@ + rule.script
        + ") matched no units in this plan. Check the package and target names — targets compare with `-` collapsed to `_`. A rule list shared between build, test, and clippy packages can legitimately match nothing in one of them."@
}

/// Writes the warning about a rule that matches no unit.
pub fn unmatched_warning(rule: &UnitSetupRule) -> (r: String)
    ensures
        r@ == unmatched_warning_seq(rule@),
{
    let mut r = owned("unitSetup rule for package ");
    let shown = debug_str(rule.package.as_str());
    r.append(shown.as_str());
    r.append(" (script ");
    r.append(rule.script.as_str());
    r.append(
        ") matched no units in this plan. Check the package and target names — targets compare with `-` collapsed to `_`. A rule list shared between build, test, and clippy packages can legitimately match nothing in one of them.",
    );
    r
}

// ---------------------------------------------------------------------------
// Laws
// ---------------------------------------------------------------------------

/// Without rules no unit has a setup script.
pub proof fn law_no_rules_no_scripts(u: UnitView)
    ensures
        setup_scripts(Seq::empty(), u).len() == 0,
{
}

/// Rules contribute independently: the scripts of two rule lists one behind the
/// other are those of the first and then those of the second.
pub proof fn law_rules_in_order(a: Seq<RuleView>, b: Seq<RuleView>, u: UnitView)
    ensures
        setup_scripts(a + b, u) == setup_scripts(a, u) + setup_scripts(b, u),
    decreases b.len(),
{
    if b.len() == 0 {
        assert(a + b =~= a);
        assert(setup_scripts(a, u) + setup_scripts(b, u) =~= setup_scripts(a, u));
    } else {
        law_rules_in_order(a, b.drop_last(), u);
        assert((a + b).drop_last() =~= a + b.drop_last());
        assert((a + b).last() == b.last());
        let s = setup_scripts(b.drop_last(), u);
        assert(setup_scripts(a, u) + s.push(b.last().script) =~= (setup_scripts(a, u) + s).push(
            b.last().script,
        ));
    }
}

/// A rule that matches no unit changes the scripts of none.
pub proof fn law_unmatched_is_inert(rules: Seq<RuleView>, us: Seq<UnitView>, i: int, k: int)
    requires
        0 <= k < rules.len(),
        !matches_some(rules[k], us),
        0 <= i < us.len(),
    ensures
        setup_scripts(rules.remove(k), us[i]) == setup_scripts(rules, us[i]),
{
    let u = us[i];
    let a = rules.take(k);
    let b = rules.skip(k + 1);
    assert(!rule_matches(rules[k], u));
    assert(rules.remove(k) =~= a + b);
    assert(rules =~= (a + seq![rules[k]]) + b);
    law_rules_in_order(a, b, u);
    law_rules_in_order(a + seq![rules[k]], b, u);
    law_rules_in_order(a, seq![rules[k]], u);
    assert(seq![rules[k]].drop_last() =~= Seq::empty());
    law_no_rules_no_scripts(u);
    assert(setup_scripts(Seq::empty(), u) =~= Seq::<Seq<char>>::empty());
    assert(setup_scripts(seq![rules[k]], u) =~= Seq::empty());
    assert(setup_scripts(a, u) + Seq::<Seq<char>>::empty() =~= setup_scripts(a, u));
}

} // verus!
