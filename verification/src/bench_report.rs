//! The tables of the comparative benchmark, and their place in the README.
use crate::text::{
    find_from, from_chars, join, join_seq, occurs, owned, same, split, split_seq, to_chars, views,
};
use vstd::prelude::*;

verus! {

/// What the report starts with.
pub const HEADER: &'static str = "# Comparative benchmark

## Just

Build of [Just](https://github.com/casey/just) version 1.40.0. The incremental change is an appended newline to `lib.rs` and `src/main.rs`.

### Clean build

| Build system | Time | vs. cargo build |
|---|---|---|
";

/// What stands between the tables.
pub const BETWEEN: &'static str = "
### Incremental build

| Build system | Time | vs. cargo build | vs. clean |
|---|---|---|---|
";

/// What the report ends with.
pub const FOOTER: &'static str = "
## Build system descriptions

| System | Strategy | Incremental behavior |
|---|---|---|
| cargo build | Invokes the cargo crate to compute a build graph directly. | Invokes the cargo crate to compute which artefacts are dirty. Uses timestamps internally. |
| cargo-schnee | Invokes the cargo crate to compute a build graph directly. | Uses composite keys for build configuration updates and compilation identities for translation units. Uses content-addressed derivations everywhere. Uses Nix's dirty detection for source files. Enables granularity down to translation unit level. |
| buildRustPackage | Invokes cargo to perform a full build. | Does not have an incremental strategy, rebuilds on any source change. |
| crane | Builds are split into two phases. The first derivation builds the dependencies, which can be shared in a workspace. The second derivation builds a discrete artefact. | The dependency phase is cached when Cargo.lock is unchanged; the source phase rebuilds entirely. |
| cargo2nix | Generates Nix expressions from Cargo.lock using cargo crate for dependency resolution, then builds using Nix derivations. | Rebuilds only dirty crates from the pregenerated Nix expression. Enables granularity down to crate level. |

<details>
<summary>Methodology</summary>

- All benchmarks run in a NixOS QEMU VM with 16 GiB of RAM, 4 cores, and 30 GiB of disk. A Fresh VM disk image is created per run.
- The benchmarks are designed to not count potential overhead of building prerequisites of the build system itself. As such, toolchains, sources and `.drv` files are pre-populated via 9p host store sharing.
- Disk caches are dropped via `echo 3 > /proc/sys/vm/drop_caches` before every timed operation.
- The VM has no network access. All source tarballs and tools are pre-populated.
- For `cargo build`, the target directory is deleted before the clean build but preserved between clean and incremental to test native incrementality.
- For Nix-based systems, `nix-store --realise <drv>` is timed. The incremental build benefits from cached outputs of the clean build, since no garbage collection runs between the clean and incremental builds within the same system.
- cargo2nix requires running `cargo2nix generate` to produce a `Cargo.nix` file before builds can start. The \"cargo2nix\" row in the clean build table includes this generation cost; \"cargo2nix (w/pregeneration)\" shows the build-only time. The incremental table omits generation since it only runs once per `Cargo.lock` change.
- crane's default `cargo check` pre-pass in `buildDepsOnly` is disabled via `cargoCheckCommand = \"true\"`. This pre-pass adds overhead on clean builds by running two cargo passes, and only benefits subsequent pipeline steps like clippy or nextest, not the build itself. Disabling it makes crane faster, not slower. Since crane's optimisation strategy revolves caching the build dependencies, realistic usage of crane would rarely invoke the first phase or its check pre-pass.

</details>
";

// ---------------------------------------------------------------------------
// Results
// ---------------------------------------------------------------------------

/// A result of the benchmark. Of its duration only the rank among all durations is
/// held: equal durations have equal ranks, and a shorter one has a lower rank.
pub struct BenchResult {
    pub system: String,
    pub scenario: String,
    pub status: String,
    pub duration: Option<usize>,
}

/// A result of the benchmark.
pub struct ResultView {
    pub system: Seq<char>,
    pub scenario: Seq<char>,
    pub status: Seq<char>,
    pub duration: Option<usize>,
}

impl View for BenchResult {
    type V = ResultView;

    open spec fn view(&self) -> ResultView {
        ResultView {
            system: self.system@,
            scenario: self.scenario@,
            status: self.status@,
            duration: self.duration,
        }
    }
}

/// The results of the benchmark.
pub open spec fn result_views(v: Seq<BenchResult>) -> Seq<ResultView> {
    Seq::new(v.len(), |i: int| v[i]@)
}

/// The first result of a system in a scenario.
pub open spec fn result_of(rs: Seq<ResultView>, system: Seq<char>, scenario: Seq<char>) -> Option<
    ResultView,
>
    decreases rs.len(),
{
    if rs.len() == 0 {
        None
    } else if rs[0].system == system && rs[0].scenario == scenario {
        Some(rs[0])
    } else {
        result_of(rs.drop_first(), system, scenario)
    }
}

/// Finds the first result of a system in a scenario.
pub fn get<'a>(results: &'a Vec<BenchResult>, system: &str, scenario: &str) -> (r: Option<
    &'a BenchResult,
>)
    ensures
        match r {
            Some(b) => result_of(result_views(results@), system@, scenario@) == Some(b@),
            None => result_of(result_views(results@), system@, scenario@) is None,
        },
{
    let ghost rs = result_views(results@);
    let mut i: usize = 0;
    assert(rs.skip(0) =~= rs);
    while i < results.len()
        invariant
            i <= results@.len(),
            rs == result_views(results@),
            result_of(rs.skip(i as int), system@, scenario@) == result_of(rs, system@, scenario@),
        decreases results@.len() - i,
    {
        assert(rs[i as int] == results@[i as int]@);
        if same(results[i].system.as_str(), system) && same(results[i].scenario.as_str(), scenario) {
            return Some(&results[i]);
        }
        assert(rs.skip(i as int).drop_first() =~= rs.skip(i + 1));
        i = i + 1;
    }
    None
}

/// The duration of a system in a scenario in which it succeeded.
pub open spec fn duration_of(rs: Seq<ResultView>, system: Seq<char>, scenario: Seq<char>) -> Option<
    usize,
> {
    match result_of(rs, system, scenario) {
        Some(r) => if r.status == "OK"@ {
            r.duration
        } else {
            None
        },
        None => None,
    }
}

/// Finds the duration of a system in a scenario in which it succeeded.
pub fn get_duration(results: &Vec<BenchResult>, system: &str, scenario: &str) -> (r: Option<usize>)
    ensures
        r == duration_of(result_views(results@), system@, scenario@),
{
    match get(results, system, scenario) {
        Some(b) => if same(b.status.as_str(), "OK") {
            b.duration
        } else {
            None
        },
        None => None,
    }
}

/// The systems that are compared.
pub open spec fn systems() -> Seq<(Seq<char>, Seq<char>)> {
    seq![
        ("cargo-build"@, "cargo build"@),
        ("cargo-schnee"@, "cargo-schnee"@),
        ("buildRustPackage"@, "buildRustPackage"@),
        ("crane"@, "crane"@),
        ("cargo2nix"@, "cargo2nix"@),
    ]
}

fn list_systems() -> (r: Vec<(&'static str, &'static str)>)
    ensures
        r@.len() == systems().len(),
        forall|i: int| 0 <= i < r@.len() ==> (#[trigger] r@[i]).0@ == systems()[i].0 && r@[i].1@
            == systems()[i].1,
{
    let mut r: Vec<(&'static str, &'static str)> = Vec::new();
    r.push(("cargo-build", "cargo build"));
    r.push(("cargo-schnee", "cargo-schnee"));
    r.push(("buildRustPackage", "buildRustPackage"));
    r.push(("crane", "crane"));
    r.push(("cargo2nix", "cargo2nix"));
    r
}

/// The lower of two ranks.
pub open spec fn lower(a: Option<usize>, b: Option<usize>) -> Option<usize> {
    match (a, b) {
        (None, _) => b,
        (_, None) => a,
        (Some(x), Some(y)) => if y < x {
            b
        } else {
            a
        },
    }
}

/// The shortest duration in a scenario among the first `n` systems but the baseline.
pub open spec fn best_of(rs: Seq<ResultView>, scenario: Seq<char>, n: nat) -> Option<usize>
    decreases n,
{
    if n == 0 {
        None
    } else if systems()[n - 1].0 == "cargo-build"@ {
        best_of(rs, scenario, (n - 1) as nat)
    } else {
        lower(
            best_of(rs, scenario, (n - 1) as nat),
            duration_of(rs, systems()[n - 1].0, scenario),
        )
    }
}

/// The shortest duration in a scenario among the systems but the baseline.
pub fn best_duration(results: &Vec<BenchResult>, scenario: &str) -> (r: Option<usize>)
    ensures
        r == best_of(result_views(results@), scenario@, systems().len()),
{
    let ghost rs = result_views(results@);
    let list = list_systems();
    let mut best: Option<usize> = None;
    let mut i: usize = 0;
    while i < list.len()
        invariant
            i <= list@.len(),
            list@.len() == systems().len(),
            forall|k: int| 0 <= k < list@.len() ==> (#[trigger] list@[k]).0@ == systems()[k].0,
            rs == result_views(results@),
            best == best_of(rs, scenario@, i as nat),
        decreases list@.len() - i,
    {
        let name = list[i].0;
        assert(list@[i as int].0@ == systems()[i as int].0);
        if !same(name, "cargo-build") {
            let d = get_duration(results, name, scenario);
            best = match (best, d) {
                (None, _) => d,
                (_, None) => best,
                (Some(x), Some(y)) => if y < x {
                    d
                } else {
                    best
                },
            };
        }
        i = i + 1;
    }
    best
}

proof fn lemma_best_of(rs: Seq<ResultView>, scenario: Seq<char>, n: nat, i: int)
    requires
        n <= systems().len(),
        0 <= i < n,
        systems()[i].0 != "cargo-build"@,
        duration_of(rs, systems()[i].0, scenario) is Some,
    ensures
        best_of(rs, scenario, n) is Some,
        best_of(rs, scenario, n)->0 <= duration_of(rs, systems()[i].0, scenario)->0,
    decreases n,
{
    if i < n - 1 {
        lemma_best_of(rs, scenario, (n - 1) as nat, i);
    }
}

/// No system but the baseline was faster than the best one.
pub proof fn law_best_is_fastest(rs: Seq<ResultView>, scenario: Seq<char>, i: int)
    requires
        0 <= i < systems().len(),
        systems()[i].0 != "cargo-build"@,
        duration_of(rs, systems()[i].0, scenario) is Some,
    ensures
        best_of(rs, scenario, systems().len()) is Some,
        best_of(rs, scenario, systems().len())->0 <= duration_of(
            rs,
            systems()[i].0,
            scenario,
        )->0,
{
    lemma_best_of(rs, scenario, systems().len(), i);
}

// ---------------------------------------------------------------------------
// Tables
// ---------------------------------------------------------------------------

/// A cell of a table. Times are given by the ranks of the durations that they are
/// the sum of.
pub enum Cell {
    Text(String),
    Time(Vec<usize>),
    /// The first time, divided by the second.
    Ratio(Vec<usize>, Vec<usize>),
}

/// A cell of a table.
pub enum CellView {
    Text(Seq<char>),
    Time(Seq<usize>),
    Ratio(Seq<usize>, Seq<usize>),
}

impl View for Cell {
    type V = CellView;

    open spec fn view(&self) -> CellView {
        match self {
            Cell::Text(s) => CellView::Text(s@),
            Cell::Time(t) => CellView::Time(t@),
            Cell::Ratio(a, b) => CellView::Ratio(a@, b@),
        }
    }
}

/// A row of a table.
pub struct Row {
    pub cells: Vec<Cell>,
    pub bold: bool,
}

/// A row of a table.
pub struct RowView {
    pub cells: Seq<CellView>,
    pub bold: bool,
}

/// The cells of a row.
pub open spec fn cell_views(v: Seq<Cell>) -> Seq<CellView> {
    Seq::new(v.len(), |i: int| v[i]@)
}

impl View for Row {
    type V = RowView;

    open spec fn view(&self) -> RowView {
        RowView { cells: cell_views(self.cells@), bold: self.bold }
    }
}

/// The rows of a table.
pub open spec fn row_views(v: Seq<Row>) -> Seq<RowView> {
    Seq::new(v.len(), |i: int| v[i]@)
}

/// The durations that a time is the sum of: none for a time that was not measured.
pub open spec fn parts_of(d: Option<usize>) -> Seq<usize> {
    match d {
        Some(x) => seq![x],
        None => Seq::empty(),
    }
}

fn time_of(d: Option<usize>) -> (r: Vec<usize>)
    ensures
        r@ == parts_of(d),
{
    let mut r: Vec<usize> = Vec::new();
    if let Some(x) = d {
        r.push(x);
    }
    assert(r@ =~= parts_of(d));
    r
}

/// A row of the table of clean builds.
pub open spec fn clean_row(
    label: Seq<char>,
    time: Seq<usize>,
    baseline: Seq<usize>,
    bold: bool,
) -> RowView {
    RowView {
        cells: seq![
            CellView::Text(label),
            CellView::Time(time),
            CellView::Ratio(time, baseline),
        ],
        bold,
    }
}

/// The generation step of cargo2nix has succeeded.
pub open spec fn generated(rs: Seq<ResultView>) -> bool {
    match result_of(rs, "cargo2nix"@, "generate"@) {
        Some(r) => r.status == "OK"@,
        None => false,
    }
}

/// The time of the generation step of cargo2nix.
pub open spec fn generation(rs: Seq<ResultView>) -> Seq<usize> {
    match result_of(rs, "cargo2nix"@, "generate"@) {
        Some(r) => parts_of(r.duration),
        None => Seq::empty(),
    }
}

/// The rows of a system in the table of clean builds. The best time is bold; that of
/// cargo2nix is shown with and without its generation step.
pub open spec fn clean_rows_of(rs: Seq<ResultView>, system: Seq<char>, label: Seq<char>) -> Seq<
    RowView,
> {
    let baseline = parts_of(duration_of(rs, "cargo-build"@, "clean"@));
    let best = best_of(rs, "clean"@, systems().len());
    match duration_of(rs, system, "clean"@) {
        None => seq![
            RowView {
                cells: seq![
                    CellView::Text(label),
                    CellView::Text("---"@),
                    CellView::Text("---"@),
                ],
                bold: false,
            },
        ],
        Some(d) => if system == "cargo-build"@ {
            seq![
                RowView {
                    cells: seq![
                        CellView::Text(label),
                        CellView::Time(seq![d]),
                        CellView::Text("baseline"@),
                    ],
                    bold: false,
                },
            ]
        } else if system == "cargo2nix"@ && generated(rs) {
            seq![
                clean_row(label, generation(rs) + seq![d], baseline, false),
                clean_row(label + " (w/pregeneration)"@, seq![d], baseline, best == Some(d)),
            ]
        } else {
            seq![clean_row(label, seq![d], baseline, best == Some(d))]
        },
    }
}

/// The rows of the first `n` systems in the table of clean builds.
pub open spec fn clean_rows_seq(rs: Seq<ResultView>, n: nat) -> Seq<RowView>
    decreases n,
{
    if n == 0 {
        Seq::empty()
    } else {
        clean_rows_seq(rs, (n - 1) as nat) + clean_rows_of(
            rs,
            systems()[n - 1].0,
            systems()[n - 1].1,
        )
    }
}

/// The row of a system in the table of incremental builds.
pub open spec fn incremental_row(rs: Seq<ResultView>, system: Seq<char>, label: Seq<char>) -> RowView {
    let clean = parts_of(duration_of(rs, system, "clean"@));
    let baseline = parts_of(duration_of(rs, "cargo-build"@, "incremental"@));
    match duration_of(rs, system, "incremental"@) {
        None => RowView {
            cells: seq![
                CellView::Text(label),
                CellView::Text("---"@),
                CellView::Text("---"@),
                CellView::Text("---"@),
            ],
            bold: false,
        },
        Some(d) => if system == "cargo-build"@ {
            RowView {
                cells: seq![
                    CellView::Text(label),
                    CellView::Time(seq![d]),
                    CellView::Text("baseline"@),
                    CellView::Ratio(seq![d], clean),
                ],
                bold: false,
            }
        } else {
            RowView {
                cells: seq![
                    CellView::Text(label),
                    CellView::Time(seq![d]),
                    CellView::Ratio(seq![d], baseline),
                    CellView::Ratio(seq![d], clean),
                ],
                bold: best_of(rs, "incremental"@, systems().len()) == Some(d),
            }
        },
    }
}

fn row_of_three(a: Cell, b: Cell, c: Cell, bold: bool) -> (r: Row)
    ensures
        r@ == (RowView { cells: seq![a@, b@, c@], bold }),
{
    let ghost all = seq![a@, b@, c@];
    let mut cells: Vec<Cell> = Vec::new();
    cells.push(a);
    cells.push(b);
    cells.push(c);
    let r = Row { cells, bold };
    assert(cell_views(r.cells@) =~= all);
    r
}

fn row_of_four(a: Cell, b: Cell, c: Cell, d: Cell, bold: bool) -> (r: Row)
    ensures
        r@ == (RowView { cells: seq![a@, b@, c@, d@], bold }),
{
    let ghost all = seq![a@, b@, c@, d@];
    let mut cells: Vec<Cell> = Vec::new();
    cells.push(a);
    cells.push(b);
    cells.push(c);
    cells.push(d);
    let r = Row { cells, bold };
    assert(cell_views(r.cells@) =~= all);
    r
}

fn total_time(results: &Vec<BenchResult>, d: usize) -> (r: Vec<usize>)
    ensures
        r@ == generation(result_views(results@)) + seq![d],
{
    let mut r = match get(results, "cargo2nix", "generate") {
        Some(b) => time_of(b.duration),
        None => Vec::new(),
    };
    let ghost before = r@;
    assert(before =~= generation(result_views(results@)));
    r.push(d);
    assert(r@ =~= before + seq![d]);
    r
}

fn push_clean_rows(r: &mut Vec<Row>, results: &Vec<BenchResult>, system: &str, label: &str)
    ensures
        row_views(final(r)@) == row_views(old(r)@) + clean_rows_of(
            result_views(results@),
            system@,
            label@,
        ),
{
    let ghost rs = result_views(results@);
    let ghost start = row_views(r@);
    let base = get_duration(results, "cargo-build", "clean");
    let best = best_duration(results, "clean");
    let d = match get_duration(results, system, "clean") {
        Some(d) => d,
        None => {
            r.push(
                row_of_three(
                    Cell::Text(owned(label)),
                    Cell::Text(owned("---")),
                    Cell::Text(owned("---")),
                    false,
                ),
            );
            assert(row_views(r@) =~= start + clean_rows_of(rs, system@, label@));
            return ;
        },
    };
    assert(parts_of(Some(d)) == seq![d]);
    let is_best = match best {
        Some(b) => b == d,
        None => false,
    };
    if same(system, "cargo-build") {
        r.push(
            row_of_three(
                Cell::Text(owned(label)),
                Cell::Time(time_of(Some(d))),
                Cell::Text(owned("baseline")),
                false,
            ),
        );
        assert(row_views(r@) =~= start + clean_rows_of(rs, system@, label@));
        return ;
    }
    let gen_ok = match get(results, "cargo2nix", "generate") {
        Some(b) => same(b.status.as_str(), "OK"),
        None => false,
    };
    if same(system, "cargo2nix") && gen_ok {
        r.push(
            row_of_three(
                Cell::Text(owned(label)),
                Cell::Time(total_time(results, d)),
                Cell::Ratio(total_time(results, d), time_of(base)),
                false,
            ),
        );
        let ghost first = row_views(r@);
        let mut pregenerated = owned(label);
        pregenerated.append(" (w/pregeneration)");
        assert(first =~= start.push(first.last()));
        r.push(
            row_of_three(
                Cell::Text(pregenerated),
                Cell::Time(time_of(Some(d))),
                Cell::Ratio(time_of(Some(d)), time_of(base)),
                is_best,
            ),
        );
        assert(row_views(r@) =~= start + clean_rows_of(rs, system@, label@));
    } else {
        r.push(
            row_of_three(
                Cell::Text(owned(label)),
                Cell::Time(time_of(Some(d))),
                Cell::Ratio(time_of(Some(d)), time_of(base)),
                is_best,
            ),
        );
        assert(row_views(r@) =~= start + clean_rows_of(rs, system@, label@));
    }
}

/// Lays out the table of clean builds.
pub fn clean_rows(results: &Vec<BenchResult>) -> (r: Vec<Row>)
    ensures
        row_views(r@) == clean_rows_seq(result_views(results@), systems().len()),
{
    let ghost rs = result_views(results@);
    let list = list_systems();
    let mut r: Vec<Row> = Vec::new();
    let mut i: usize = 0;
    assert(row_views(r@) =~= clean_rows_seq(rs, 0));
    while i < list.len()
        invariant
            i <= list@.len(),
            list@.len() == systems().len(),
            forall|k: int|
                0 <= k < list@.len() ==> (#[trigger] list@[k]).0@ == systems()[k].0 && list@[k].1@
                    == systems()[k].1,
            rs == result_views(results@),
            row_views(r@) == clean_rows_seq(rs, i as nat),
        decreases list@.len() - i,
    {
        push_clean_rows(&mut r, results, list[i].0, list[i].1);
        i = i + 1;
    }
    r
}

fn make_incremental_row(results: &Vec<BenchResult>, system: &str, label: &str) -> (r: Row)
    ensures
        r@ == incremental_row(result_views(results@), system@, label@),
{
    let clean = get_duration(results, system, "clean");
    let base = get_duration(results, "cargo-build", "incremental");
    let best = best_duration(results, "incremental");
    match get_duration(results, system, "incremental") {
        None => row_of_four(
            Cell::Text(owned(label)),
            Cell::Text(owned("---")),
            Cell::Text(owned("---")),
            Cell::Text(owned("---")),
            false,
        ),
        Some(d) => {
            assert(parts_of(Some(d)) == seq![d]);
            if same(system, "cargo-build") {
                row_of_four(
                    Cell::Text(owned(label)),
                    Cell::Time(time_of(Some(d))),
                    Cell::Text(owned("baseline")),
                    Cell::Ratio(time_of(Some(d)), time_of(clean)),
                    false,
                )
            } else {
                let is_best = match best {
                    Some(b) => b == d,
                    None => false,
                };
                row_of_four(
                    Cell::Text(owned(label)),
                    Cell::Time(time_of(Some(d))),
                    Cell::Ratio(time_of(Some(d)), time_of(base)),
                    Cell::Ratio(time_of(Some(d)), time_of(clean)),
                    is_best,
                )
            }
        },
    }
}

/// Lays out the table of incremental builds.
pub fn incremental_rows(results: &Vec<BenchResult>) -> (r: Vec<Row>)
    ensures
        row_views(r@) == Seq::new(
            systems().len(),
            |i: int|
                incremental_row(result_views(results@), systems()[i].0, systems()[i].1),
        ),
{
    let ghost rs = result_views(results@);
    let list = list_systems();
    let mut r: Vec<Row> = Vec::new();
    let mut i: usize = 0;
    while i < list.len()
        invariant
            i <= list@.len(),
            list@.len() == systems().len(),
            forall|k: int|
                0 <= k < list@.len() ==> (#[trigger] list@[k]).0@ == systems()[k].0 && list@[k].1@
                    == systems()[k].1,
            rs == result_views(results@),
            r@.len() == i,
            forall|k: int|
                0 <= k < i ==> (#[trigger] r@[k])@ == incremental_row(
                    rs,
                    systems()[k].0,
                    systems()[k].1,
                ),
        decreases list@.len() - i,
    {
        r.push(make_incremental_row(results, list[i].0, list[i].1));
        i = i + 1;
    }
    assert(row_views(r@) =~= Seq::new(
        systems().len(),
        |i: int| incremental_row(rs, systems()[i].0, systems()[i].1),
    ));
    r
}

/// A row of a table in Markdown.
pub open spec fn row_seq(cols: Seq<Seq<char>>, bold: bool) -> Seq<char> {
    "| "@ + join_seq(
        if bold {
            Seq::new(cols.len(), |i: int| "**"@ + cols[i] + "**"@)
        } else {
            cols
        },
        " | "@,
    ) + " |"@
}

/// Writes a row of a table in Markdown.
pub fn row(cols: &Vec<String>, bold: bool) -> (r: String)
    ensures
        r@ == row_seq(views(cols@), bold),
{
    let mut r = owned("| ");
    if bold {
        let ghost all = Seq::new(cols@.len(), |i: int| "**"@ + views(cols@)[i] + "**"@);
        let mut bolded: Vec<String> = Vec::new();
        let mut i: usize = 0;
        while i < cols.len()
            invariant
                i <= cols@.len(),
                bolded@.len() == i,
                all == Seq::new(cols@.len(), |i: int| "**"@ + views(cols@)[i] + "**"@),
                forall|k: int| 0 <= k < i ==> (#[trigger] bolded@[k])@ == all[k],
            decreases cols@.len() - i,
        {
            let mut c = owned("**");
            c.append(cols[i].as_str());
            c.append("**");
            bolded.push(c);
            i = i + 1;
        }
        assert(views(bolded@) =~= all);
        let line = join(&bolded, " | ");
        r.append(line.as_str());
    } else {
        let line = join(cols, " | ");
        r.append(line.as_str());
    }
    r.append(" |");
    r
}

/// The rows of a table, each on a line.
pub open spec fn table_seq(rows: Seq<(Seq<Seq<char>>, bool)>) -> Seq<char>
    decreases rows.len(),
{
    if rows.len() == 0 {
        Seq::empty()
    } else {
        table_seq(rows.drop_last()) + row_seq(rows.last().0, rows.last().1) + "\n"@
    }
}

/// The texts of rows.
pub open spec fn shown_rows(rows: Seq<(Vec<String>, bool)>) -> Seq<(Seq<Seq<char>>, bool)> {
    Seq::new(rows.len(), |i: int| (views(rows[i].0@), rows[i].1))
}

fn write_table(r: &mut String, rows: &Vec<(Vec<String>, bool)>)
    ensures
        final(r)@ == old(r)@ + table_seq(shown_rows(rows@)),
{
    let ghost start = r@;
    let ghost all = shown_rows(rows@);
    let mut i: usize = 0;
    assert(r@ =~= start + table_seq(all.take(0)));
    while i < rows.len()
        invariant
            i <= rows@.len(),
            all == shown_rows(rows@),
            r@ == start + table_seq(all.take(i as int)),
        decreases rows@.len() - i,
    {
        assert(all.take(i + 1).drop_last() =~= all.take(i as int));
        assert(all.take(i + 1).last() == all[i as int]);
        let line = row(&rows[i].0, rows[i].1);
        r.append(line.as_str());
        r.append("\n");
        i = i + 1;
        assert(r@ =~= start + table_seq(all.take(i as int)));
    }
    assert(all.take(all.len() as int) =~= all);
}

/// Writes the report of the benchmark around the two tables.
pub fn write_report(clean: &Vec<(Vec<String>, bool)>, incremental: &Vec<(Vec<String>, bool)>) -> (r:
    String)
    ensures
        r@ == HEADER@ + table_seq(shown_rows(clean@)) + BETWEEN@ + table_seq(
            shown_rows(incremental@),
        ) + FOOTER@,
{
    let mut r = owned(HEADER);
    write_table(&mut r, clean);
    r.append(BETWEEN);
    write_table(&mut r, incremental);
    r.append(FOOTER);
    r
}

// ---------------------------------------------------------------------------
// The README
// ---------------------------------------------------------------------------

/// The piece of a text before a line feed, without a carriage return.
pub open spec fn ended_line(s: Seq<char>) -> Seq<char> {
    if s.len() > 0 && s.last() == '\r' {
        s.drop_last()
    } else {
        s
    }
}

/// The lines of a text: what stands before each line feed, without a carriage
/// return, and what stands behind the last one if it is not empty.
pub open spec fn lines_seq(s: Seq<char>) -> Seq<Seq<char>> {
    let pieces = split_seq(s, '\n');
    let ended = Seq::new((pieces.len() - 1) as nat, |i: int| ended_line(pieces[i]));
    if pieces.last().len() == 0 {
        ended
    } else {
        ended.push(pieces.last())
    }
}

/// A line with one more `#` if it is a heading.
pub open spec fn demoted_line(line: Seq<char>) -> Seq<char> {
    if line.len() > 0 && line[0] == '#' {
        seq!['#'] + line
    } else {
        line
    }
}

/// The lines of a text, with headings one level lower.
pub open spec fn demoted(lines: Seq<Seq<char>>) -> Seq<char>
    decreases lines.len(),
{
    if lines.len() == 0 {
        Seq::empty()
    } else {
        demoted(lines.drop_last()) + demoted_line(lines.last()).push('\n')
    }
}

/// Splits a text into its lines.
pub fn lines(s: &str) -> (r: Vec<String>)
    ensures
        views(r@) == lines_seq(s@),
{
    let pieces = split(s, '\n');
    let ghost ps = views(pieces@);
    let ghost ended = Seq::new((ps.len() - 1) as nat, |i: int| ended_line(ps[i]));
    let n: usize = pieces.len() - 1;
    let mut r: Vec<String> = Vec::new();
    let mut i: usize = 0;
    while i < n
        invariant
            i <= n,
            n == pieces@.len() - 1,
            ps == views(pieces@),
            ended == Seq::new((ps.len() - 1) as nat, |i: int| ended_line(ps[i])),
            r@.len() == i,
            forall|k: int| 0 <= k < i ==> (#[trigger] r@[k])@ == ended[k],
        decreases n - i,
    {
        let chars = to_chars(pieces[i].as_str());
        let len: usize = chars.len();
        let line = if len > 0 && chars[len - 1] == '\r' {
            let l = from_chars(&chars, 0, len - 1);
            assert(l@ =~= pieces@[i as int]@.drop_last());
            l
        } else {
            pieces[i].clone()
        };
        assert(ps[i as int] == pieces@[i as int]@);
        r.push(line);
        i = i + 1;
    }
    assert(views(r@) =~= ended);
    assert(ps.last() == pieces@[n as int]@);
    if pieces[n].as_str().unicode_len() > 0 {
        r.push(pieces[n].clone());
        assert(views(r@) =~= ended.push(ps.last()));
    }
    r
}

/// Moves the headings of a text one level down.
pub fn demote_headings(md: &str) -> (r: String)
    ensures
        r@ == demoted(lines_seq(md@)),
{
    let ls = lines(md);
    let ghost all = views(ls@);
    let mut r = owned("");
    let mut i: usize = 0;
    proof {
        reveal_strlit("");
        assert(r@ =~= demoted(all.take(0)));
    }
    while i < ls.len()
        invariant
            i <= ls@.len(),
            all == views(ls@),
            r@ == demoted(all.take(i as int)),
        decreases ls@.len() - i,
    {
        assert(all.take(i + 1).drop_last() =~= all.take(i as int));
        assert(all.take(i + 1).last() == ls@[i as int]@);
        let ghost before = r@;
        let chars = to_chars(ls[i].as_str());
        if chars.len() > 0 && chars[0] == '#' {
            r.push('#');
        }
        r.append(ls[i].as_str());
        r.push('\n');
        i = i + 1;
        assert(r@ =~= before + demoted_line(ls@[i - 1]@).push('\n'));
    }
    assert(all.take(all.len() as int) =~= all);
    r
}

/// The first place at which a text stands in another.
pub open spec fn first_place(s: Seq<char>, p: Seq<char>, i: int) -> bool {
    0 <= i && occurs(s, p, i) && forall|j: int| 0 <= j < i ==> !occurs(s, p, j)
}

/// A text stands nowhere in another.
pub open spec fn absent(s: Seq<char>, p: Seq<char>) -> bool {
    forall|j: int| 0 <= j ==> !occurs(s, p, j)
}

/// What marks the start of the benchmark in the README.
pub const BEGIN_MARKER: &'static str = "<!-- BEGIN BENCHMARK -->";

/// What marks the end of the benchmark in the README.
pub const END_MARKER: &'static str = "<!-- END BENCHMARK -->";

/// Puts the benchmark between the markers of the README, with its headings one level
/// lower, or names the marker that is missing.
pub fn inline_readme(readme: &str, md: &str) -> (r: Result<String, String>)
    ensures
        match r {
            Ok(out) => exists|b: int, e: int| #[trigger]
                first_place(readme@, BEGIN_MARKER@, b) && #[trigger] first_place(
                    readme@,
                    END_MARKER@,
                    e,
                ) && out@ == readme@.take(b + BEGIN_MARKER@.len()).push('\n') + demoted(
                    lines_seq(md@),
                ) + readme@.skip(e),
            Err(m) => if absent(readme@, BEGIN_MARKER@) {
                m@ == BEGIN_MARKER@
            } else {
                absent(readme@, END_MARKER@) && m@ == END_MARKER@
            },
        },
{
    let chars = to_chars(readme);
    let begin_chars = to_chars(BEGIN_MARKER);
    let begin = match find_from(&chars, &begin_chars, 0) {
        Some(i) => i,
        None => return Err(owned(BEGIN_MARKER)),
    };
    assert(occurs(readme@, BEGIN_MARKER@, begin as int));
    let end = match find_from(&chars, &to_chars(END_MARKER), 0) {
        Some(i) => i,
        None => return Err(owned(END_MARKER)),
    };
    assert(begin + begin_chars@.len() <= chars@.len());
    let limit: usize = chars.len();
    assert(begin + begin_chars@.len() <= limit);
    let mut out = from_chars(&chars, 0, begin + begin_chars.len());
    assert(out@ =~= readme@.take(begin + BEGIN_MARKER@.len()));
    out.push('\n');
    let inlined = demote_headings(md);
    out.append(inlined.as_str());
    let tail = from_chars(&chars, end, chars.len());
    assert(tail@ =~= readme@.skip(end as int));
    out.append(tail.as_str());
    proof {
        assert(first_place(readme@, BEGIN_MARKER@, begin as int));
        assert(first_place(readme@, END_MARKER@, end as int));
    }
    Ok(out)
}

} // verus!
