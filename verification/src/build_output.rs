//! Following the output of a running build, line by line.
use crate::diagnostics::{emission, emit_line, message_view, Emitted};
use crate::shell::{
    building_drv, package_and_version, parse_building_line, parse_drv_display, shown_kind,
    shown_name, shown_stem, DrvKind,
};
use crate::text::{
    before_first, clone_strings, contains, ends, ends_with, has_substring, owned, parse_number,
    parsed_number, same, split, split_seq, starts, starts_with, strip_prefix, trim, trim_seq,
    until_char, views, words, words_seq,
};
use crate::units::{list_has, opt_view};
use vstd::prelude::*;

verus! {

// ---------------------------------------------------------------------------
// Lines
// ---------------------------------------------------------------------------

/// What a line of a build's output is.
pub enum LineKind {
    /// A derivation is being built.
    Building(String),
    /// So many derivations will be built or fetched, where the number can be read.
    Announcement(Option<u64>),
    /// Nothing that matters.
    Ignored,
    /// Output of a builder, or a message of Nix.
    Output(String),
}

/// What a line of a build's output is.
pub enum LineView {
    Building(Seq<char>),
    Announcement(Option<u64>),
    Ignored,
    Output(Seq<char>),
}

impl View for LineKind {
    type V = LineView;

    open spec fn view(&self) -> LineView {
        match self {
            LineKind::Building(s) => LineView::Building(s@),
            LineKind::Announcement(n) => LineView::Announcement(*n),
            LineKind::Ignored => LineView::Ignored,
            LineKind::Output(s) => LineView::Output(s@),
        }
    }
}

/// The number that a word writes.
pub open spec fn word_number(s: Seq<char>) -> Option<u64> {
    match parsed_number(s, u64::MAX as nat) {
        Some(n) => Some(n as u64),
        None => None,
    }
}

/// A line announces what will be built or fetched.
pub open spec fn is_announcement(line: Seq<char>) -> bool {
    (starts(line, "these "@) || starts(line, "this "@)) && (ends(line, "will be built:"@) || ends(
        line,
        "will be fetched:"@,
    ) || ends(line, "will be fetched (0.00 MiB download, 0.00 MiB unpacked):"@))
}

/// The number in an announcement: the word behind `these`, or one.
pub open spec fn announced(line: Seq<char>) -> Option<u64> {
    if starts(line, "these "@) {
        let ws = words_seq(line.skip("these "@.len() as int));
        if ws.len() > 0 {
            word_number(ws[0])
        } else {
            None
        }
    } else {
        Some(1)
    }
}

/// A line of Nix that is not worth showing.
pub open spec fn is_chatter(line: Seq<char>) -> bool {
    starts(line, "resolved derivation:"@) || starts(line, "warning: you did not specify"@) || starts(
        line,
        "copying path '"@,
    ) || (starts(line, "/nix/store/"@) && !has_substring(line, "failed"@))
}

/// What a trimmed line is.
pub open spec fn line_kind(line: Seq<char>) -> LineView {
    match building_drv(line) {
        Some(drv) => LineView::Building(drv),
        None => if is_announcement(line) {
            LineView::Announcement(announced(line))
        } else if is_chatter(line) || line.len() == 0 {
            LineView::Ignored
        } else {
            LineView::Output(line)
        },
    }
}

fn count_announced(line: &str) -> (r: Option<u64>)
    ensures
        r == announced(line@),
{
    match strip_prefix(line, "these ") {
        Some(rest) => {
            let ws = words(rest);
            if ws.len() > 0 {
                assert(views(ws@)[0] == ws@[0]@);
                parse_number(ws[0].as_str(), u64::MAX)
            } else {
                assert(views(ws@).len() == 0);
                None
            }
        },
        None => Some(1),
    }
}

/// Tells what a line is.
pub fn classify_line(line: &str) -> (r: LineKind)
    ensures
        r@ == line_kind(trim_seq(line@)),
{
    let trimmed = trim(line);
    match parse_building_line(trimmed) {
        Some(drv) => LineKind::Building(owned(drv)),
        None => if (starts_with(trimmed, "these ") || starts_with(trimmed, "this ")) && (ends_with(
            trimmed,
            "will be built:",
        ) || ends_with(trimmed, "will be fetched:") || ends_with(
            trimmed,
            "will be fetched (0.00 MiB download, 0.00 MiB unpacked):",
        )) {
            LineKind::Announcement(count_announced(trimmed))
        } else if starts_with(trimmed, "resolved derivation:") || starts_with(
            trimmed,
            "warning: you did not specify",
        ) || starts_with(trimmed, "copying path '") || (starts_with(trimmed, "/nix/store/")
            && !contains(trimmed, "failed")) || trimmed.unicode_len() == 0 {
            LineKind::Ignored
        } else {
            LineKind::Output(owned(trimmed))
        },
    }
}

// ---------------------------------------------------------------------------
// The log of a build
// ---------------------------------------------------------------------------

/// What is known of a build from the output so far.
pub struct BuildLog {
    /// The packages and versions that a status line was shown for.
    pub seen: Vec<String>,
    /// The derivations that were built, in order.
    pub built: Vec<String>,
    /// The number of derivations to build, once it was announced.
    pub total: Option<u64>,
    /// The lines that are no compiler messages.
    pub errors: Vec<String>,
}

/// What is known of a build.
#[verifier::ext_equal]
pub struct LogView {
    pub seen: Seq<Seq<char>>,
    pub built: Seq<Seq<char>>,
    pub total: Option<u64>,
    pub errors: Seq<Seq<char>>,
}

impl View for BuildLog {
    type V = LogView;

    open spec fn view(&self) -> LogView {
        LogView {
            seen: views(self.seen@),
            built: views(self.built@),
            total: self.total,
            errors: views(self.errors@),
        }
    }
}

/// The project whose build is followed.
pub struct LogContext {
    /// The name of the project's package, if it is known.
    pub project_pkg_name: Option<String>,
    pub project_dir: String,
    /// Build scripts that run are shown too.
    pub verbose: bool,
    /// The store's copy of the sources, with a slash behind it.
    pub src_store_prefix: String,
    /// The project's directory, with a slash behind it.
    pub project_dir_prefix: String,
}

/// A status line: a label and a message.
pub type Status = Option<(Seq<char>, Seq<char>)>;

/// Progress: how many are built, of how many, and what is said of the last.
pub type Tick = Option<(int, u64, Seq<char>)>;

/// What a line has shown: a status line, progress, and text.
pub struct Shown {
    pub status: Option<(String, String)>,
    pub tick: Option<(usize, u64, String)>,
    pub text: Option<String>,
}

/// What a line has shown.
#[verifier::ext_equal]
pub struct ShownView {
    pub status: Status,
    pub tick: Tick,
    pub text: Option<Seq<char>>,
}

impl View for Shown {
    type V = ShownView;

    open spec fn view(&self) -> ShownView {
        ShownView {
            status: match self.status {
                Some((a, b)) => Some((a@, b@)),
                None => None,
            },
            tick: match self.tick {
                Some((n, total, s)) => Some((n as int, total, s@)),
                None => None,
            },
            text: opt_view(self.text),
        }
    }
}

/// Nothing is shown.
pub open spec fn nothing() -> ShownView {
    ShownView { status: None, tick: None, text: None }
}

/// The message of a status line for a package.
pub open spec fn package_message(pkg: Seq<char>, version: Seq<char>, cx: LogContext) -> Seq<char> {
    if version.len() == 0 {
        pkg
    } else if opt_view(cx.project_pkg_name) == Some(pkg) {
        pkg + " v"@ + version + " ("@ + cx.project_dir@ + ")"@
    } else {
        pkg + " v"@ + version
    }
}

/// The message of a status line for a build script.
pub open spec fn script_message(pkg: Seq<char>, version: Seq<char>) -> Seq<char> {
    if version.len() == 0 {
        "build script for "@ + pkg
    } else {
        "build script for "@ + pkg + " v"@ + version
    }
}

/// The package in a derivation's path.
pub open spec fn drv_package(drv: Seq<char>) -> Seq<char> {
    package_and_version(shown_stem(shown_name(drv))).0
}

/// The version in a derivation's path.
pub open spec fn drv_version(drv: Seq<char>) -> Seq<char> {
    package_and_version(shown_stem(shown_name(drv))).1
}

/// The package and version by which it is known whether a derivation was shown.
pub open spec fn display_key(drv: Seq<char>) -> Seq<char> {
    drv_package(drv) + "-"@ + drv_version(drv)
}

/// A derivation checks a crate.
pub open spec fn checks(drv: Seq<char>) -> bool {
    shown_kind(shown_name(drv)) == DrvKind::Check
}

/// A derivation compiles a crate or a test, or checks a crate.
pub open spec fn compiles(drv: Seq<char>) -> bool {
    checks(drv) || shown_kind(shown_name(drv)) == DrvKind::Compile || shown_kind(
        shown_name(drv),
    ) == DrvKind::TestCompile
}

/// The label of the status line for a derivation that compiles or checks.
pub open spec fn compiling_label(drv: Seq<char>) -> Seq<char> {
    if checks(drv) {
        "Checking"@
    } else {
        "Compiling"@
    }
}

/// The status line for a derivation that is being built: each package and version
/// is shown once.
pub open spec fn building_status(seen: Seq<Seq<char>>, drv: Seq<char>, cx: LogContext) -> Status {
    if compiles(drv) {
        if seen.contains(display_key(drv)) {
            None
        } else {
            Some(
                (
                    compiling_label(drv),
                    package_message(drv_package(drv), drv_version(drv), cx),
                ),
            )
        }
    } else if shown_kind(shown_name(drv)) == DrvKind::BuildScriptRun && cx.verbose {
        Some(("Running"@, script_message(drv_package(drv), drv_version(drv))))
    } else {
        None
    }
}

/// The packages shown after a derivation is being built.
pub open spec fn seen_after(seen: Seq<Seq<char>>, drv: Seq<char>) -> Seq<Seq<char>> {
    if compiles(drv) && !seen.contains(display_key(drv)) {
        seen.push(display_key(drv))
    } else {
        seen
    }
}

/// What is said of a derivation in the progress.
pub open spec fn tick_suffix(drv: Seq<char>) -> Seq<char> {
    if drv_package(drv).len() == 0 {
        Seq::empty()
    } else {
        ": "@ + drv_package(drv)
    }
}

/// A derivation is being built: what is known then, and what is shown.
pub open spec fn after_building(log: LogView, drv: Seq<char>, cx: LogContext) -> (
    LogView,
    ShownView,
) {
    let built = log.built.push(drv);
    (
        LogView { seen: seen_after(log.seen, drv), built, ..log },
        ShownView {
            status: building_status(log.seen, drv, cx),
            tick: match log.total {
                Some(total) => Some((built.len() as int, total, tick_suffix(drv))),
                None => None,
            },
            text: None,
        },
    )
}

/// Derivations were announced: the first announcement that can be read counts.
pub open spec fn after_announcement(log: LogView, count: Option<u64>) -> LogView {
    LogView {
        total: match log.total {
            Some(n) => Some(n),
            None => count,
        },
        ..log
    }
}

/// A line of output came: it is kept unless it is a compiler message.
pub open spec fn after_output(
    log: LogView,
    line: Seq<char>,
    emitted: (bool, Option<Seq<char>>),
) -> (LogView, ShownView) {
    (
        if emitted.0 {
            log
        } else {
            LogView { errors: log.errors.push(line), ..log }
        },
        ShownView { status: None, tick: None, text: emitted.1 },
    )
}

/// What a builder wrote: Nix puts a mark before the last lines of a log.
pub open spec fn without_mark(line: Seq<char>) -> Seq<char> {
    if starts(line, "> "@) {
        line.skip("> "@.len() as int)
    } else {
        line
    }
}

/// The text in a line that may be a compiler message: what a builder wrote, if the line
/// is its output.
pub open spec fn output_text(line: Seq<char>) -> Option<Seq<char>> {
    match line_kind(trim_seq(line)) {
        LineView::Output(text) => Some(without_mark(text)),
        _ => None,
    }
}

/// Finds the text in a line that may be a compiler message.
pub fn message_text(line: &str) -> (r: Option<String>)
    ensures
        match r {
            Some(text) => output_text(line@) == Some(text@),
            None => output_text(line@) is None,
        },
{
    match classify_line(line) {
        LineKind::Output(text) => match strip_prefix(text.as_str(), "> ") {
            Some(rest) => Some(owned(rest)),
            None => Some(text),
        },
        _ => None,
    }
}

/// What is known and shown after a line. `message` is what its text reads as.
pub open spec fn line_step(
    log: LogView,
    line: Seq<char>,
    message: Option<Option<Seq<char>>>,
    cx: LogContext,
) -> (LogView, ShownView) {
    match line_kind(trim_seq(line)) {
        LineView::Building(drv) => after_building(log, drv, cx),
        LineView::Announcement(count) => (after_announcement(log, count), nothing()),
        LineView::Ignored => (log, nothing()),
        LineView::Output(text) => after_output(
            log,
            text,
            emission(message, cx.src_store_prefix@, cx.project_dir_prefix@),
        ),
    }
}

fn tell_package(pkg: &str, version: &str, cx: &LogContext) -> (r: String)
    ensures
        r@ == package_message(pkg@, version@, *cx),
{
    let mut r = owned(pkg);
    if version.unicode_len() > 0 {
        r.append(" v");
        r.append(version);
        let project = match &cx.project_pkg_name {
            Some(name) => same(name.as_str(), pkg),
            None => false,
        };
        if project {
            r.append(" (");
            r.append(cx.project_dir.as_str());
            r.append(")");
        }
    }
    r
}

fn tell_script(pkg: &str, version: &str) -> (r: String)
    ensures
        r@ == script_message(pkg@, version@),
{
    let mut r = owned("build script for ");
    r.append(pkg);
    if version.unicode_len() > 0 {
        r.append(" v");
        r.append(version);
    }
    r
}

impl BuildLog {
    /// The log of a build that has said nothing yet.
    pub fn new() -> (r: Self)
        ensures
            r@ == (LogView {
                seen: Seq::empty(),
                built: Seq::empty(),
                total: None,
                errors: Seq::empty(),
            }),
    {
        let r = BuildLog { seen: Vec::new(), built: Vec::new(), total: None, errors: Vec::new() };
        assert(r@ =~= (LogView {
            seen: Seq::empty(),
            built: Seq::empty(),
            total: None,
            errors: Seq::empty(),
        }));
        r
    }

    /// Notes that a derivation is being built.
    pub fn note_building(&mut self, drv: &str, cx: &LogContext) -> (r: Shown)
        ensures
            (final(self)@, r@) == after_building(old(self)@, drv@, *cx),
    {
        let ghost log = self@;
        let (pkg, version, kind) = parse_drv_display(drv);
        assert(pkg@ == drv_package(drv@));
        assert(version@ == drv_version(drv@));
        self.built.push(owned(drv));
        assert(views(self.built@) =~= log.built.push(drv@));
        let status = match kind {
            DrvKind::Compile | DrvKind::TestCompile | DrvKind::Check => {
                let mut key = pkg.clone();
                key.append("-");
                key.append(version.as_str());
                if list_has(&self.seen, key.as_str()) {
                    None
                } else {
                    self.seen.push(key);
                    assert(views(self.seen@) =~= log.seen.push(display_key(drv@)));
                    let label = if kind == DrvKind::Check {
                        owned("Checking")
                    } else {
                        owned("Compiling")
                    };
                    Some((label, tell_package(pkg.as_str(), version.as_str(), cx)))
                }
            },
            DrvKind::BuildScriptRun => if cx.verbose {
                Some((owned("Running"), tell_script(pkg.as_str(), version.as_str())))
            } else {
                None
            },
            DrvKind::BuildScriptCompile => None,
        };
        let tick = match self.total {
            Some(total) => {
                let suffix = if pkg.as_str().unicode_len() == 0 {
                    proof {
                        reveal_strlit("");
                        assert(""@ =~= Seq::<char>::empty());
                    }
                    owned("")
                } else {
                    let mut s = owned(": ");
                    s.append(pkg.as_str());
                    s
                };
                Some((self.built.len(), total, suffix))
            },
            None => None,
        };
        assert(self@ =~= after_building(log, drv@, *cx).0);
        Shown { status, tick, text: None }
    }

    /// Notes that derivations were announced.
    pub fn note_announcement(&mut self, count: Option<u64>)
        ensures
            final(self)@ == after_announcement(old(self)@, count),
    {
        if self.total.is_none() {
            self.total = count;
        }
    }

    /// Notes a line of output, of which it is known what becomes of it.
    pub fn note_output(&mut self, line: String, emitted: Emitted) -> (r: Shown)
        ensures
            (final(self)@, r@) == after_output(old(self)@, line@, emitted@),
    {
        let ghost log = self@;
        if !emitted.diagnostic {
            let ghost text = line@;
            self.errors.push(line);
            assert(views(self.errors@) =~= log.errors.push(text));
        }
        Shown { status: None, tick: None, text: emitted.text }
    }

    /// Takes a line of the output, and tells what is shown of it. `message` is what the
    /// line's text reads as, which counts where the line is the output of a builder.
    pub fn note_line(
        &mut self,
        line: &str,
        message: Option<Option<String>>,
        cx: &LogContext,
    ) -> (r: Shown)
        ensures
            (final(self)@, r@) == line_step(old(self)@, line@, message_view(message), *cx),
    {
        match classify_line(line) {
            LineKind::Building(drv) => self.note_building(drv.as_str(), cx),
            LineKind::Announcement(count) => {
                self.note_announcement(count);
                Shown { status: None, tick: None, text: None }
            },
            LineKind::Ignored => Shown { status: None, tick: None, text: None },
            LineKind::Output(text) => {
                let emitted = emit_line(
                    message,
                    cx.src_store_prefix.as_str(),
                    cx.project_dir_prefix.as_str(),
                );
                self.note_output(text, emitted)
            },
        }
    }
}

// ---------------------------------------------------------------------------
// Whole builds
// ---------------------------------------------------------------------------

/// A line of the output, and what its text reads as.
pub struct ReadLine {
    pub line: Seq<char>,
    pub message: Option<Option<Seq<char>>>,
}

/// What is known after lines.
pub open spec fn log_after(log: LogView, lines: Seq<ReadLine>, cx: LogContext) -> LogView
    decreases lines.len(),
{
    if lines.len() == 0 {
        log
    } else {
        line_step(
            log_after(log, lines.drop_last(), cx),
            lines.last().line,
            lines.last().message,
            cx,
        ).0
    }
}

/// What was seen stays seen.
pub proof fn law_seen_stays(log: LogView, lines: Seq<ReadLine>, cx: LogContext, key: Seq<char>)
    requires
        log.seen.contains(key),
    ensures
        log_after(log, lines, cx).seen.contains(key),
    decreases lines.len(),
{
    if lines.len() > 0 {
        law_seen_stays(log, lines.drop_last(), cx, key);
        let before = log_after(log, lines.drop_last(), cx).seen;
        let i = choose|i: int| 0 <= i < before.len() && before[i] == key;
        let after = log_after(log, lines, cx).seen;
        assert(after[i] == key);
    }
}

/// A package and version is shown as compiled or checked at most once in a build: once
/// a derivation of it was being built, no later line shows it again.
pub proof fn law_compiled_once(
    log: LogView,
    first: Seq<char>,
    between: Seq<ReadLine>,
    again: Seq<char>,
    cx: LogContext,
)
    requires
        compiles(first),
        compiles(again),
        display_key(first) == display_key(again),
    ensures
        building_status(
            log_after(after_building(log, first, cx).0, between, cx).seen,
            again,
            cx,
        ) is None,
{
    let after = after_building(log, first, cx).0;
    let key = display_key(first);
    if !log.seen.contains(key) {
        assert(after.seen[log.seen.len() as int] == key);
    }
    law_seen_stays(after, between, cx, key);
}

/// The number of derivations to build does not change once it is known.
pub proof fn law_total_stays(log: LogView, lines: Seq<ReadLine>, cx: LogContext)
    requires
        log.total is Some,
    ensures
        log_after(log, lines, cx).total == log.total,
    decreases lines.len(),
{
    if lines.len() > 0 {
        law_total_stays(log, lines.drop_last(), cx);
    }
}

// ---------------------------------------------------------------------------
// Failures
// ---------------------------------------------------------------------------

/// The derivation that a line says has failed.
pub open spec fn failed_drv(line: Seq<char>) -> Option<Seq<char>> {
    if starts(line, "builder for '"@) {
        let drv = before_first(line.skip("builder for '"@.len() as int), '\'');
        if ends(drv, ".drv"@) {
            Some(drv)
        } else {
            None
        }
    } else {
        None
    }
}

/// The derivations that lines say have failed.
pub open spec fn failed_in(lines: Seq<Seq<char>>) -> Seq<Seq<char>>
    decreases lines.len(),
{
    if lines.len() == 0 {
        Seq::empty()
    } else {
        match failed_drv(lines.last()) {
            Some(drv) => failed_in(lines.drop_last()).push(drv),
            None => failed_in(lines.drop_last()),
        }
    }
}

/// Finds the derivations that failed.
pub fn failed_derivations(lines: &Vec<String>) -> (r: Vec<String>)
    ensures
        views(r@) == failed_in(views(lines@)),
{
    let ghost ls = views(lines@);
    let mut r: Vec<String> = Vec::new();
    let mut i: usize = 0;
    assert(views(r@) =~= failed_in(ls.take(0)));
    while i < lines.len()
        invariant
            i <= lines@.len(),
            ls == views(lines@),
            views(r@) == failed_in(ls.take(i as int)),
        decreases lines@.len() - i,
    {
        assert(ls.take(i + 1).drop_last() =~= ls.take(i as int));
        assert(ls.take(i + 1).last() == lines@[i as int]@);
        if let Some(rest) = strip_prefix(lines[i].as_str(), "builder for '") {
            let drv = until_char(rest, '\'');
            if ends_with(drv.as_str(), ".drv") {
                let ghost before = views(r@);
                let ghost d = drv@;
                r.push(drv);
                assert(views(r@) =~= before.push(d));
            }
        }
        i = i + 1;
    }
    assert(ls.take(ls.len() as int) =~= ls);
    r
}

/// A line speaks of content-addressed derivations.
pub open spec fn has_ca_error(lines: Seq<Seq<char>>) -> bool {
    exists|i: int| 0 <= i < lines.len() && has_substring(#[trigger] lines[i], "ca-derivations"@)
}

fn find_ca_error(lines: &Vec<String>) -> (r: bool)
    ensures
        r == has_ca_error(views(lines@)),
{
    let ghost ls = views(lines@);
    let mut i: usize = 0;
    while i < lines.len()
        invariant
            i <= lines@.len(),
            ls == views(lines@),
            forall|j: int| 0 <= j < i ==> !has_substring(#[trigger] ls[j], "ca-derivations"@),
        decreases lines@.len() - i,
    {
        assert(ls[i as int] == lines@[i as int]@);
        if contains(lines[i].as_str(), "ca-derivations") {
            return true;
        }
        i = i + 1;
    }
    false
}

/// What is said of a Nix that does not build content-addressed derivations.
pub open spec fn ca_message() -> Seq<char> {
    "Ensure your nix.conf includes:\n  experimental-features = nix-command flakes ca-derivations\nOr set NIX_CONFIG=\"extra-experimental-features = ca-derivations\"."@
}

/// The lines that tell how to see the logs of failed derivations.
pub open spec fn log_hints(drvs: Seq<Seq<char>>) -> Seq<Seq<char>> {
    if drvs.len() == 0 {
        Seq::empty()
    } else {
        seq!["For derivation logs, run:"@] + Seq::new(drvs.len(), |i: int| "  nix log "@ + drvs[i])
    }
}

/// What is shown of a failed build, or the error it ends in.
pub open spec fn failure(lines: Seq<Seq<char>>) -> Result<Seq<Seq<char>>, Seq<char>> {
    if has_ca_error(lines) {
        Err(ca_message())
    } else {
        Ok(lines + log_hints(failed_in(lines)))
    }
}

/// Tells what is shown of a failed build: the lines that were kept and how to see
/// the logs, unless Nix lacks content-addressed derivations.
pub fn failure_report(lines: &Vec<String>) -> (r: Result<Vec<String>, String>)
    ensures
        match (r, failure(views(lines@))) {
            (Ok(v), Ok(s)) => views(v@) == s,
            (Err(e), Err(m)) => e@ == m,
            _ => false,
        },
{
    if find_ca_error(lines) {
        return Err(
            owned(
                "Ensure your nix.conf includes:\n  experimental-features = nix-command flakes ca-derivations\nOr set NIX_CONFIG=\"extra-experimental-features = ca-derivations\".",
            ),
        );
    }
    let ghost ls = views(lines@);
    let mut r = clone_strings(lines);
    let failed = failed_derivations(lines);
    let ghost ds = views(failed@);
    if failed.len() > 0 {
        r.push(owned("For derivation logs, run:"));
        assert(views(r@) =~= ls.push("For derivation logs, run:"@));
        let mut i: usize = 0;
        let ghost hints = Seq::new(ds.len(), |k: int| "  nix log "@ + ds[k]);
        assert(hints.take(0) =~= Seq::<Seq<char>>::empty());
        assert(views(r@) =~= ls.push("For derivation logs, run:"@) + hints.take(0));
        while i < failed.len()
            invariant
                i <= failed@.len(),
                ds == views(failed@),
                hints == Seq::new(ds.len(), |k: int| "  nix log "@ + ds[k]),
                views(r@) == ls.push("For derivation logs, run:"@) + hints.take(i as int),
            decreases failed@.len() - i,
        {
            let ghost before = views(r@);
            let mut line = owned("  nix log ");
            line.append(failed[i].as_str());
            let ghost l = line@;
            r.push(line);
            assert(l == hints[i as int]);
            assert(views(r@) =~= before.push(l));
            assert(hints.take(i + 1) =~= hints.take(i as int).push(l));
            i = i + 1;
            assert(views(r@) =~= ls.push("For derivation logs, run:"@) + hints.take(i as int));
        }
        assert(hints.take(hints.len() as int) =~= hints);
        assert(views(r@) =~= ls + log_hints(ds));
    } else {
        assert(ds.len() == 0);
        assert(views(r@) =~= ls + log_hints(ds));
    }
    Ok(r)
}

// ---------------------------------------------------------------------------
// Output paths
// ---------------------------------------------------------------------------

/// The lines that hold more than white space, trimmed.
pub open spec fn nonempty_lines(lines: Seq<Seq<char>>) -> Seq<Seq<char>>
    decreases lines.len(),
{
    if lines.len() == 0 {
        Seq::empty()
    } else if trim_seq(lines.last()).len() == 0 {
        nonempty_lines(lines.drop_last())
    } else {
        nonempty_lines(lines.drop_last()).push(trim_seq(lines.last()))
    }
}

/// Reads the output paths that a build has printed, one to a line.
pub fn output_paths(stdout: &str) -> (r: Vec<String>)
    ensures
        views(r@) == nonempty_lines(split_seq(stdout@, '\n')),
{
    let lines = split(stdout, '\n');
    let ghost ls = views(lines@);
    let mut r: Vec<String> = Vec::new();
    let mut i: usize = 0;
    assert(views(r@) =~= nonempty_lines(ls.take(0)));
    while i < lines.len()
        invariant
            i <= lines@.len(),
            ls == views(lines@),
            views(r@) == nonempty_lines(ls.take(i as int)),
        decreases lines@.len() - i,
    {
        assert(ls.take(i + 1).drop_last() =~= ls.take(i as int));
        assert(ls.take(i + 1).last() == lines@[i as int]@);
        let line = trim(lines[i].as_str());
        if line.unicode_len() > 0 {
            let ghost before = views(r@);
            r.push(owned(line));
            assert(views(r@) =~= before.push(line@));
        }
        i = i + 1;
    }
    assert(ls.take(ls.len() as int) =~= ls);
    r
}

} // verus!
