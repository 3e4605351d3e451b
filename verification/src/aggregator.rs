//! The derivation that links the outputs of all roots together.
use crate::derivation::{input_drvs_json, make_input_drvs, make_outputs, outputs_json};
use crate::json::{lemma_view_object, member_views, text, text_array, texts, Json, JsonView};
use crate::placeholder::{
    downstream_placeholder, drv_sliceable, output_placeholder, own_placeholder, self_placeholder,
};
use crate::registration::{root_views, RootDrv};
use crate::text::{join, join_seq, owned, views};
use crate::toolchain::{add_new, push_new};
use crate::units::UnitKind;
use vstd::prelude::*;

verus! {

/// A root: the path of its derivation, the name of its target and its kind.
pub type RootView = (Seq<char>, Seq<char>, UnitKind);

/// The script that links each root's output and writes the name of its target
/// beside it.
pub open spec fn link_script(coreutils: Seq<char>) -> Seq<char> {
    "set -e\n"@ + coreutils
        + "/bin/mkdir -p $out\nread -r -a __outs <<< \"$rootOuts\"\nmapfile -t __names <<< \"$rootNames\"\ni=0\nwhile [ \"$i\" -lt \"${#__outs[@]}\" ]; do\n"@
        + coreutils
        + "/bin/ln -s \"${__outs[$i]}\" \"$out/root-$i\"\nprintf '%s' \"${__names[$i]}\" > \"$out/root-$i.target_name\"\ni=$((i+1))\ndone\n"@
}

fn link_script_text(coreutils: &str) -> (r: String)
    ensures
        r@ == link_script(coreutils@),
{
    let mut r = owned("set -e\n");
    r.append(coreutils);
    r.append(
        "/bin/mkdir -p $out\nread -r -a __outs <<< \"$rootOuts\"\nmapfile -t __names <<< \"$rootNames\"\ni=0\nwhile [ \"$i\" -lt \"${#__outs[@]}\" ]; do\n",
    );
    r.append(coreutils);
    r.append(
        "/bin/ln -s \"${__outs[$i]}\" \"$out/root-$i\"\nprintf '%s' \"${__names[$i]}\" > \"$out/root-$i.target_name\"\ni=$((i+1))\ndone\n",
    );
    r
}

/// The placeholders of the roots' outputs, or why there are none.
pub open spec fn root_placeholders(roots: Seq<RootView>) -> Result<Seq<Seq<char>>, Seq<char>>
    decreases roots.len(),
{
    if roots.len() == 0 {
        Ok(Seq::empty())
    } else {
        match root_placeholders(roots.drop_last()) {
            Err(e) => Err(e),
            Ok(before) => match output_placeholder(roots.last().0, "out"@) {
                Ok(p) => Ok(before.push(p)),
                Err(e) => Err(e),
            },
        }
    }
}

proof fn lemma_placeholders_err(roots: Seq<RootView>, n: int)
    requires
        0 <= n <= roots.len(),
        root_placeholders(roots.take(n)) is Err,
    ensures
        root_placeholders(roots) == root_placeholders(roots.take(n)),
    decreases roots.len() - n,
{
    if n == roots.len() {
        assert(roots.take(n) =~= roots);
    } else {
        assert(roots.take(n + 1).drop_last() =~= roots.take(n));
        lemma_placeholders_err(roots, n + 1);
    }
}

/// The paths of the roots' derivations, each once.
pub open spec fn root_paths(roots: Seq<RootView>) -> Seq<Seq<char>>
    decreases roots.len(),
{
    if roots.len() == 0 {
        Seq::empty()
    } else {
        push_new(root_paths(roots.drop_last()), roots.last().0)
    }
}

/// The names of the roots' targets.
pub open spec fn root_targets(roots: Seq<RootView>) -> Seq<Seq<char>> {
    Seq::new(roots.len(), |i: int| roots[i].1)
}

/// The environment of the derivation: where the roots' outputs are and what their
/// targets are called.
pub open spec fn aggregator_env(outs: Seq<Seq<char>>, names: Seq<Seq<char>>) -> JsonView {
    JsonView::Object(
        seq![
            ("out"@, JsonView::Text(own_placeholder("out"@))),
            ("rootOuts"@, JsonView::Text(join_seq(outs, " "@))),
            ("rootNames"@, JsonView::Text(join_seq(names, "\n"@))),
        ],
    )
}

/// The derivation that links the outputs of all roots.
pub open spec fn aggregator_json(
    pname: Seq<char>,
    intent: Seq<char>,
    roots: Seq<RootView>,
    outs: Seq<Seq<char>>,
    system: Seq<char>,
    bash_path: Seq<char>,
    bash_store: Seq<char>,
    coreutils_store: Seq<char>,
) -> JsonView {
    JsonView::Object(
        seq![
            ("name"@, JsonView::Text(pname + "-"@ + intent + "-aggregator"@)),
            ("system"@, JsonView::Text(system)),
            ("builder"@, JsonView::Text(bash_path)),
            ("args"@, text_array(seq!["-c"@, link_script(coreutils_store)])),
            ("outputs"@, outputs_json()),
            ("inputDrvs"@, input_drvs_json(root_paths(roots))),
            ("inputSrcs"@, text_array(seq![coreutils_store, bash_store])),
            ("env"@, aggregator_env(outs, root_targets(roots))),
        ],
    )
}

fn make_aggregator_env(outs: &Vec<String>, names: &Vec<String>) -> (r: Json)
    ensures
        r@ == aggregator_env(views(outs@), views(names@)),
{
    let mut m: Vec<(String, Json)> = Vec::new();
    let own = self_placeholder("out");
    let joined_outs = join(outs, " ");
    let joined_names = join(names, "\n");
    m.push((owned("out"), text(own.as_str())));
    m.push((owned("rootOuts"), text(joined_outs.as_str())));
    m.push((owned("rootNames"), text(joined_names.as_str())));
    proof {
        lemma_view_object(m);
        assert(member_views(m@) =~= aggregator_env(views(outs@), views(names@))->Object_0);
    }
    Json::Object(m)
}

/// Builds the derivation that links the outputs of all roots, so that one
/// derivation stands for all of them.
pub fn construct_aggregator_drv(
    pname: &str,
    intent: &str,
    root_drvs: &Vec<RootDrv>,
    system: &str,
    bash_path: &str,
    bash_store: &str,
    coreutils_store: &str,
) -> (r: Result<Json, String>)
    requires
        forall|i: int| 0 <= i < root_drvs@.len() ==> drv_sliceable((#[trigger] root_drvs@[i]).0@),
    ensures
        match (r, root_placeholders(root_views(root_drvs@))) {
            (Ok(j), Ok(outs)) => j@ == aggregator_json(
                pname@,
                intent@,
                root_views(root_drvs@),
                outs,
                system@,
                bash_path@,
                bash_store@,
                coreutils_store@,
            ),
            (Err(e), Err(m)) => e@ == m,
            _ => false,
        },
{
    let ghost roots = root_views(root_drvs@);
    let mut outs: Vec<String> = Vec::new();
    let mut drvs: Vec<String> = Vec::new();
    let mut names: Vec<String> = Vec::new();
    let mut i: usize = 0;
    assert(views(outs@) =~= Seq::empty());
    assert(views(drvs@) =~= Seq::empty());
    assert(views(names@) =~= root_targets(roots.take(0)));
    while i < root_drvs.len()
        invariant
            i <= root_drvs@.len(),
            roots == root_views(root_drvs@),
            forall|k: int|
                0 <= k < root_drvs@.len() ==> drv_sliceable((#[trigger] root_drvs@[k]).0@),
            root_placeholders(roots.take(i as int)) == Ok::<Seq<Seq<char>>, Seq<char>>(
                views(outs@),
            ),
            views(drvs@) == root_paths(roots.take(i as int)),
            views(names@) == root_targets(roots.take(i as int)),
        decreases root_drvs@.len() - i,
    {
        assert(roots.take(i + 1).drop_last() =~= roots.take(i as int));
        assert(roots.take(i + 1).last().0 == root_drvs@[i as int].0@);
        let ghost before_outs = views(outs@);
        let ghost before_names = views(names@);
        match downstream_placeholder(root_drvs[i].0.as_str(), "out") {
            Ok(p) => {
                let ghost pv = p@;
                outs.push(p);
                assert(views(outs@) =~= before_outs.push(pv));
            },
            Err(e) => {
                proof {
                    lemma_placeholders_err(roots, i + 1);
                }
                return Err(e);
            },
        }
        add_new(&mut drvs, root_drvs[i].0.clone());
        names.push(root_drvs[i].1.clone());
        assert(views(names@) =~= before_names.push(roots[i as int].1));
        assert(views(names@) =~= root_targets(roots.take(i + 1)));
        i = i + 1;
    }
    assert(roots.take(roots.len() as int) =~= roots);
    let script = link_script_text(coreutils_store);
    let mut args: Vec<String> = Vec::new();
    args.push(owned("-c"));
    args.push(script);
    assert(views(args@) =~= seq!["-c"@, link_script(coreutils_store@)]);
    let mut srcs: Vec<String> = Vec::new();
    srcs.push(owned(coreutils_store));
    srcs.push(owned(bash_store));
    assert(views(srcs@) =~= seq![coreutils_store@, bash_store@]);
    let mut name = owned(pname);
    name.append("-");
    name.append(intent);
    name.append("-aggregator");
    let mut m: Vec<(String, Json)> = Vec::new();
    m.push((owned("name"), text(name.as_str())));
    m.push((owned("system"), text(system)));
    m.push((owned("builder"), text(bash_path)));
    m.push((owned("args"), texts(&args)));
    m.push((owned("outputs"), make_outputs()));
    m.push((owned("inputDrvs"), make_input_drvs(&drvs)));
    m.push((owned("inputSrcs"), texts(&srcs)));
    m.push((owned("env"), make_aggregator_env(&outs, &names)));
    proof {
        lemma_view_object(m);
        assert(member_views(m@) =~= aggregator_json(
            pname@,
            intent@,
            roots,
            views(outs@),
            system@,
            bash_path@,
            bash_store@,
            coreutils_store@,
        )->Object_0);
    }
    Ok(Json::Object(m))
}

} // verus!
