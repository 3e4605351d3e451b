//! The report on where a build has spent its time.
use crate::shell::{
    package_and_version, parse_drv_display, shown_kind, shown_name, shown_stem, spaces, DrvKind,
};
use crate::text::{decimal, decimal_seq, owned};
use vstd::prelude::*;
use vstd::utf8::*;

verus! {

// ---------------------------------------------------------------------------
// Durations
// ---------------------------------------------------------------------------

/// How long a derivation took: until the next one was started, or until the end.
pub open spec fn duration_at(starts: Seq<u64>, end: u64, i: int) -> u64 {
    let next = if i + 1 < starts.len() {
        starts[i + 1]
    } else {
        end
    };
    if next > starts[i] {
        (next - starts[i]) as u64
    } else {
        0
    }
}

/// Estimates how long each derivation took from the times at which they were
/// started and the time at which the build ended.
pub fn durations(starts: &Vec<u64>, end: u64) -> (r: Vec<u64>)
    ensures
        r@ == Seq::new(starts@.len(), |i: int| duration_at(starts@, end, i)),
{
    let mut r: Vec<u64> = Vec::new();
    let mut i: usize = 0;
    while i < starts.len()
        invariant
            i <= starts@.len(),
            r@.len() == i,
            forall|j: int| 0 <= j < i ==> (#[trigger] r@[j]) == duration_at(starts@, end, j),
        decreases starts@.len() - i,
    {
        let next: u64 = if i + 1 < starts.len() {
            starts[i + 1]
        } else {
            end
        };
        r.push(
            if next > starts[i] {
                next - starts[i]
            } else {
                0
            },
        );
        i = i + 1;
    }
    assert(r@ =~= Seq::new(starts@.len(), |i: int| duration_at(starts@, end, i)));
    r
}

/// A derivation that was built, how long it took, and that time as text.
pub struct BuiltDrv {
    pub drv: String,
    pub nanos: u64,
    pub shown: String,
}

/// A derivation that was built.
#[verifier::ext_equal]
pub struct BuiltView {
    pub drv: Seq<char>,
    pub nanos: u64,
    pub shown: Seq<char>,
}

impl View for BuiltDrv {
    type V = BuiltView;

    open spec fn view(&self) -> BuiltView {
        BuiltView { drv: self.drv@, nanos: self.nanos, shown: self.shown@ }
    }
}

/// The derivations that were built.
pub open spec fn built_views(v: Seq<BuiltDrv>) -> Seq<BuiltView> {
    Seq::new(v.len(), |i: int| v[i]@)
}

/// A list with one more in its place: behind all that took at least as long.
pub open spec fn insert_longest(v: Seq<BuiltView>, x: BuiltView) -> Seq<BuiltView>
    decreases v.len(),
{
    if v.len() == 0 || v.last().nanos >= x.nanos {
        v.push(x)
    } else {
        insert_longest(v.drop_last(), x).push(v.last())
    }
}

/// The list in order, the longest first; those that took equally long keep their
/// order.
pub open spec fn longest_first(v: Seq<BuiltView>) -> Seq<BuiltView>
    decreases v.len(),
{
    if v.len() == 0 {
        Seq::empty()
    } else {
        insert_longest(longest_first(v.drop_last()), v.last())
    }
}

/// Each took at least as long as those behind it.
pub open spec fn is_longest_first(v: Seq<BuiltView>) -> bool {
    forall|i: int, j: int| 0 <= i <= j < v.len() ==> (#[trigger] v[i]).nanos >= (#[trigger] v[j]).nanos
}

proof fn lemma_insert_longest(v: Seq<BuiltView>, x: BuiltView)
    requires
        is_longest_first(v),
    ensures
        is_longest_first(insert_longest(v, x)),
        insert_longest(v, x).to_multiset() == v.to_multiset().insert(x),
        insert_longest(v, x).len() == v.len() + 1,
        insert_longest(v, x).last() == x || (v.len() > 0 && insert_longest(v, x).last() == v.last()),
    decreases v.len(),
{
    broadcast use vstd::seq_lib::group_to_multiset_ensures;

    if v.len() > 0 && v.last().nanos < x.nanos {
        let rest = v.drop_last();
        lemma_insert_longest(rest, x);
        let r = insert_longest(rest, x);
        assert(v =~= rest.push(v.last()));
        assert forall|i: int| 0 <= i < r.len() implies (#[trigger] r[i]).nanos >= v.last().nanos by {
            assert(r.last().nanos >= v.last().nanos) by {
                if rest.len() > 0 {
                    assert(rest.last() == v[v.len() - 2]);
                    assert(v.last() == v[v.len() - 1]);
                }
            }
            assert(r[i].nanos >= r[r.len() - 1].nanos);
        }
        assert(is_longest_first(r.push(v.last())));
        assert(v.to_multiset().insert(x) =~= rest.to_multiset().insert(x).insert(v.last()));
    } else {
        assert forall|i: int| 0 <= i < v.len() implies (#[trigger] v[i]).nanos >= x.nanos by {
            assert(v[i].nanos >= v[v.len() - 1].nanos);
        }
    }
}

/// The report lists the derivations that were built, each as often as it was built,
/// and the longest first.
pub proof fn law_longest_first(v: Seq<BuiltView>)
    ensures
        is_longest_first(longest_first(v)),
        longest_first(v).to_multiset() == v.to_multiset(),
    decreases v.len(),
{
    broadcast use vstd::seq_lib::group_to_multiset_ensures;

    if v.len() > 0 {
        law_longest_first(v.drop_last());
        lemma_insert_longest(longest_first(v.drop_last()), v.last());
        assert(v =~= v.drop_last().push(v.last()));
    } else {
        assert(v =~= Seq::<BuiltView>::empty());
        assert(longest_first(v) =~= v);
    }
}

proof fn lemma_insert_at(v: Seq<BuiltView>, x: BuiltView, at: int)
    requires
        0 <= at <= v.len(),
        forall|j: int| at <= j < v.len() ==> (#[trigger] v[j]).nanos < x.nanos,
        at == 0 || v[at - 1].nanos >= x.nanos,
    ensures
        insert_longest(v, x) == v.insert(at, x),
    decreases v.len() - at,
{
    if at == v.len() {
        assert(v.insert(at, x) =~= v.push(x));
    } else {
        assert(v.last() == v[v.len() - 1]);
        let rest = v.drop_last();
        assert forall|j: int| at <= j < rest.len() implies (#[trigger] rest[j]).nanos < x.nanos by {
            assert(rest[j] == v[j]);
        }
        if at > 0 {
            assert(rest[at - 1] == v[at - 1]);
        }
        lemma_insert_at(rest, x, at);
        assert(v.insert(at, x) =~= rest.insert(at, x).push(v.last()));
    }
}

fn sort_longest(rows: Vec<BuiltDrv>) -> (r: Vec<BuiltDrv>)
    ensures
        built_views(r@) == longest_first(built_views(rows@)),
{
    let ghost all = built_views(rows@);
    let mut back = crate::lists::reversed(rows);
    let mut r: Vec<BuiltDrv> = Vec::new();
    let ghost mut done: int = 0;
    assert(built_views(r@) =~= longest_first(all.take(0)));
    while back.len() > 0
        invariant
            0 <= done <= all.len(),
            done + back@.len() == all.len(),
            forall|k: int| 0 <= k < back@.len() ==> (#[trigger] back@[k])@ == all[all.len() - 1 - k],
            built_views(r@) == longest_first(all.take(done)),
        decreases back@.len(),
    {
        let ghost sorted = built_views(r@);
        assert(back@[back@.len() - 1]@ == all[done]);
        if let Some(x) = back.pop() {
            let ghost xv = x@;
            assert(xv == all[done]);
            let mut at: usize = r.len();
            while at > 0 && r[at - 1].nanos < x.nanos
                invariant
                    at <= r@.len(),
                    sorted == built_views(r@),
                    xv == x@,
                    forall|j: int| at <= j < sorted.len() ==> (#[trigger] sorted[j]).nanos < xv.nanos,
                decreases at,
            {
                assert(sorted[at - 1] == r@[at - 1]@);
                at = at - 1;
            }
            proof {
                if at > 0 {
                    assert(sorted[at - 1] == r@[at - 1]@);
                }
                lemma_insert_at(sorted, xv, at as int);
            }
            r.insert(at, x);
            proof {
                assert(built_views(r@) =~= sorted.insert(at as int, xv));
                assert(all.take(done + 1).drop_last() =~= all.take(done));
                assert(all.take(done + 1).last() == xv);
                done = done + 1;
            }
        }
    }
    assert(all.take(all.len() as int) =~= all);
    r
}

// ---------------------------------------------------------------------------
// Text
// ---------------------------------------------------------------------------

/// What a derivation did, where it is more than compiling a crate.
pub open spec fn kind_suffix(kind: DrvKind) -> Seq<char> {
    match kind {
        DrvKind::BuildScriptRun => " (build script run)"@,
        DrvKind::BuildScriptCompile => " (build script)"@,
        DrvKind::TestCompile => " (test)"@,
        DrvKind::Check => " (check)"@,
        DrvKind::Compile => ""@,
    }
}

/// The label of a derivation in the report.
pub open spec fn report_label(drv: Seq<char>) -> Seq<char> {
    let name = shown_name(drv);
    let (pkg, version) = package_and_version(shown_stem(name));
    if version.len() == 0 {
        pkg + kind_suffix(shown_kind(name))
    } else {
        pkg + " v"@ + version + kind_suffix(shown_kind(name))
    }
}

/// Writes the label of a derivation in the report.
pub fn label_of_drv(drv: &str) -> (r: String)
    ensures
        r@ == report_label(drv@),
{
    let (pkg, version, kind) = parse_drv_display(drv);
    let mut r = pkg;
    if version.as_str().unicode_len() > 0 {
        r.append(" v");
        r.append(version.as_str());
    }
    r.append(
        match kind {
            DrvKind::BuildScriptRun => " (build script run)",
            DrvKind::BuildScriptCompile => " (build script)",
            DrvKind::TestCompile => " (test)",
            DrvKind::Check => " (check)",
            DrvKind::Compile => "",
        },
    );
    r
}

/// The text, filled up with spaces to the given width.
pub open spec fn left_aligned(s: Seq<char>, width: nat) -> Seq<char> {
    if s.len() < width {
        s + spaces((width - s.len()) as nat)
    } else {
        s
    }
}

fn align_left(s: &str, width: usize) -> (r: String)
    ensures
        r@ == left_aligned(s@, width as nat),
{
    let n: usize = s.unicode_len();
    let mut r = owned(s);
    if n < width {
        let mut i: usize = 0;
        assert(r@ =~= s@ + spaces(0));
        while i < width - n
            invariant
                n < width,
                i <= width - n,
                r@ == s@ + spaces(i as nat),
            decreases width - n - i,
        {
            r.push(' ');
            i = i + 1;
            assert(r@ =~= s@ + spaces(i as nat));
        }
    }
    r
}

/// The bytes of the longest label.
pub open spec fn label_width(rows: Seq<BuiltView>) -> nat
    decreases rows.len(),
{
    if rows.len() == 0 {
        0
    } else {
        let before = label_width(rows.drop_last());
        let n = encode_utf8(report_label(rows.last().drv)).len();
        if n > before {
            n
        } else {
            before
        }
    }
}

/// The lines of the derivations.
pub open spec fn row_lines(rows: Seq<BuiltView>, width: nat) -> Seq<char>
    decreases rows.len(),
{
    if rows.len() == 0 {
        Seq::empty()
    } else {
        row_lines(rows.drop_last(), width) + "  "@ + left_aligned(
            report_label(rows.last().drv),
            width,
        ) + "  "@ + rows.last().shown + "s\n"@
    }
}

/// The table of the derivations.
pub open spec fn row_table(rows: Seq<BuiltView>) -> Seq<char> {
    if rows.len() == 0 {
        Seq::empty()
    } else {
        "\n"@ + "  "@ + left_aligned("Derivation"@, label_width(rows)) + "  Duration\n"@ + row_lines(
            longest_first(rows),
            label_width(rows),
        )
    }
}

/// What the report starts with, and the times of the phases as text: seconds, and
/// percentage of the whole.
pub struct ReportHead {
    pub package: String,
    pub version: String,
    pub path: String,
    pub date: String,
    pub total: String,
    pub vendoring: (String, String),
    pub planning: (String, String),
    pub building: (String, String),
    pub copying: (String, String),
}

/// The line of a phase.
pub open spec fn phase_line(name: Seq<char>, phase: (String, String)) -> Seq<char> {
    "  "@ + left_aligned(name, 12) + " "@ + phase.0@ + "s "@ + phase.1@ + "%\n"@
}

/// What the report starts with.
pub open spec fn head_text(h: ReportHead) -> Seq<char> {
    "cargo-schnee build profile\n==========================\n\nProject: "@ + h.package@ + " v"@
        + h.version@ + "\nPath:    "@ + h.path@ + "\nDate:    "@ + h.date@ + "\nTotal:   "@ + h.total@
        + "s\n\nPhase Breakdown\n---------------\n"@ + phase_line("Vendoring"@, h.vendoring)
        + phase_line("Planning"@, h.planning) + phase_line("Building"@, h.building) + phase_line(
        "Copying"@,
        h.copying,
    )
}

/// How many derivations were not built anew.
pub open spec fn cached_count(total: Option<u64>, built: nat) -> nat {
    match total {
        Some(n) => if n > built {
            (n - built) as nat
        } else {
            0
        },
        None => 0,
    }
}

/// The report.
pub open spec fn report_text(h: ReportHead, total: Option<u64>, rows: Seq<BuiltView>) -> Seq<char> {
    head_text(h) + "\nBuild Phase Details\n-------------------\n  "@ + decimal_seq(rows.len())
        + " derivations built, "@ + decimal_seq(cached_count(total, rows.len())) + " cached\n"@
        + row_table(rows)
}

fn write_phase(name: &str, phase: &(String, String)) -> (r: String)
    ensures
        r@ == phase_line(name@, *phase),
{
    let field = align_left(name, 12);
    let mut r = owned("  ");
    r.append(field.as_str());
    r.append(" ");
    r.append(phase.0.as_str());
    r.append("s ");
    r.append(phase.1.as_str());
    r.append("%\n");
    r
}

fn write_head(h: &ReportHead) -> (r: String)
    ensures
        r@ == head_text(*h),
{
    let vendoring = write_phase("Vendoring", &h.vendoring);
    let planning = write_phase("Planning", &h.planning);
    let building = write_phase("Building", &h.building);
    let copying = write_phase("Copying", &h.copying);
    let mut r = owned("cargo-schnee build profile\n==========================\n\nProject: ");
    r.append(h.package.as_str());
    r.append(" v");
    r.append(h.version.as_str());
    r.append("\nPath:    ");
    r.append(h.path.as_str());
    r.append("\nDate:    ");
    r.append(h.date.as_str());
    r.append("\nTotal:   ");
    r.append(h.total.as_str());
    r.append("s\n\nPhase Breakdown\n---------------\n");
    r.append(vendoring.as_str());
    r.append(planning.as_str());
    r.append(building.as_str());
    r.append(copying.as_str());
    r
}

fn widest_label(rows: &Vec<BuiltDrv>) -> (r: usize)
    ensures
        r == label_width(built_views(rows@)),
{
    let ghost all = built_views(rows@);
    let mut width: usize = 0;
    let mut i: usize = 0;
    while i < rows.len()
        invariant
            i <= rows@.len(),
            all == built_views(rows@),
            width == label_width(all.take(i as int)),
        decreases rows@.len() - i,
    {
        assert(all.take(i + 1).drop_last() =~= all.take(i as int));
        assert(all.take(i + 1).last() == rows@[i as int]@);
        let label = label_of_drv(rows[i].drv.as_str());
        let n: usize = label.as_str().as_bytes().len();
        if n > width {
            width = n;
        }
        i = i + 1;
    }
    assert(all.take(all.len() as int) =~= all);
    width
}

/// Writes the report: where the time went by phase, and by derivation with the
/// longest first.
pub fn format_report(head: &ReportHead, total: Option<u64>, rows: Vec<BuiltDrv>) -> (r: String)
    ensures
        r@ == report_text(*head, total, built_views(rows@)),
{
    let ghost all = built_views(rows@);
    let built: usize = rows.len();
    let cached: u64 = match total {
        Some(n) => if n > built as u64 {
            n - built as u64
        } else {
            0
        },
        None => 0,
    };
    let mut r = write_head(head);
    r.append("\nBuild Phase Details\n-------------------\n  ");
    let b = decimal(built as u64);
    r.append(b.as_str());
    r.append(" derivations built, ");
    let c = decimal(cached);
    r.append(c.as_str());
    r.append(" cached\n");
    let ghost start = r@;
    if built == 0 {
        assert(all.len() == 0);
        assert(start + row_table(all) =~= start);
        return r;
    }
    let width: usize = widest_label(&rows);
    let mut table = owned("\n");
    table.append("  ");
    let heading = align_left("Derivation", width);
    table.append(heading.as_str());
    table.append("  Duration\n");
    let sorted = sort_longest(rows);
    let ghost ss = built_views(sorted@);
    let ghost front = table@;
    let mut i: usize = 0;
    assert(table@ =~= front + row_lines(ss.take(0), width as nat));
    while i < sorted.len()
        invariant
            i <= sorted@.len(),
            ss == built_views(sorted@),
            table@ == front + row_lines(ss.take(i as int), width as nat),
        decreases sorted@.len() - i,
    {
        assert(ss.take(i + 1).drop_last() =~= ss.take(i as int));
        assert(ss.take(i + 1).last() == sorted@[i as int]@);
        let label = label_of_drv(sorted[i].drv.as_str());
        let field = align_left(label.as_str(), width);
        table.append("  ");
        table.append(field.as_str());
        table.append("  ");
        table.append(sorted[i].shown.as_str());
        table.append("s\n");
        i = i + 1;
        assert(table@ =~= front + row_lines(ss.take(i as int), width as nat));
    }
    assert(ss.take(ss.len() as int) =~= ss);
    assert(table@ =~= row_table(all));
    r.append(table.as_str());
    r
}

} // verus!
