//! What is planned, registered and asked of the daemon.
use crate::daemon::{
    add_text_request_bytes, all_short, client_settings, framed_list, law_list_reads_back,
    law_string_reads_back, law_word_reads_back, list_at, negotiated, query_request, socket_of,
    string_at, word, word_at, zero_if, MAX_STRING_LEN, MAX_STRING_LIST_LEN, Parse,
};
use crate::nar::framed_str;
use crate::registration::{
    build_roots, cc_closure, cc_dir, drvs_with, jobs_of, planned_roots, registers, with_drv_path,
    with_level_paths, LevelView, PlanContext, RegisterAction, RegisterEvent,
};
use crate::text::{starts, views};
use crate::units::{UnitKind, UnitView};
use vstd::bytes::*;
use vstd::prelude::*;
use vstd::utf8::*;

verus! {

// ---------------------------------------------------------------------------
// Plans
// ---------------------------------------------------------------------------

/// What compiles for the host, and the run of a build script, links with the host's C
/// compiler; everything else with the target's.
pub proof fn law_links_for_its_machine(cx: PlanContext, u: UnitView)
    ensures
        u.for_host ==> cc_dir(cx, u) == cx.host_cc_bin_dir@ && cc_closure(cx, u) == views(
            cx.host_cc_closure@,
        ),
        u.kind == UnitKind::BuildScriptRun ==> cc_dir(cx, u) == cx.host_cc_bin_dir@ && cc_closure(
            cx,
            u,
        ) == views(cx.host_cc_closure@),
        !u.for_host && u.kind != UnitKind::BuildScriptRun ==> cc_dir(cx, u)
            == cx.target_cc_bin_dir@ && cc_closure(cx, u) == views(cx.target_cc_closure@),
{
}

/// The roots of a build are the roots of the plan that have a derivation, in order, each
/// with its target's name and kind.
pub proof fn law_roots_are_planned(us: Seq<UnitView>)
    ensures
        planned_roots(us) == us.filter(|u: UnitView| u.is_root && u.drv_path is Some).map_values(
            |u: UnitView| (u.drv_path->Some_0, u.target_name, u.kind),
        ),
        planned_roots(us).len() > 0 ==> build_roots(us) == Ok::<
            Seq<(Seq<char>, Seq<char>, UnitKind)>,
            Seq<char>,
        >(planned_roots(us)),
        us.len() == 0 ==> build_roots(us) is Err,
    decreases us.len(),
{
    reveal(Seq::filter);
    let p = |u: UnitView| u.is_root && u.drv_path is Some;
    let f = |u: UnitView| (u.drv_path->Some_0, u.target_name, u.kind);
    if us.len() > 0 {
        law_roots_are_planned(us.drop_last());
        let rest = us.drop_last().filter(p);
        if p(us.last()) {
            assert(us.filter(p) == rest.push(us.last()));
            assert(rest.push(us.last()).map_values(f) =~= rest.map_values(f).push(f(us.last())));
        } else {
            assert(us.filter(p) == rest);
        }
    } else {
        assert(us.filter(p).map_values(f) =~= Seq::empty());
    }
}

/// After a level was planned, each of its units has the path that was computed for it,
/// and every other unit is as it was.
pub proof fn law_planned_paths(us: Seq<UnitView>, level: Seq<LevelView>, k: int)
    requires
        0 <= k < us.len(),
        forall|m: int| 0 <= m < level.len() ==> 0 <= (#[trigger] level[m]).i < us.len(),
        forall|m: int, n: int|
            0 <= m < n < level.len() ==> (#[trigger] level[m]).i != (#[trigger] level[n]).i,
    ensures
        with_level_paths(us, level).len() == us.len(),
        forall|m: int|
            0 <= m < level.len() && (#[trigger] level[m]).i == k ==> with_level_paths(us, level)[k]
                == with_drv_path(us[k], level[m].drv_path),
        (forall|m: int| 0 <= m < level.len() ==> (#[trigger] level[m]).i != k)
            ==> with_level_paths(us, level)[k] == us[k],
    decreases level.len(),
{
    if level.len() > 0 {
        let t = level.drop_last();
        assert forall|m: int| 0 <= m < t.len() implies 0 <= (#[trigger] t[m]).i < us.len() by {
            assert(t[m] == level[m]);
        }
        assert forall|m: int, n: int| 0 <= m < n < t.len() implies (#[trigger] t[m]).i != (
        #[trigger] t[n]).i by {
            assert(t[m] == level[m] && t[n] == level[n]);
        }
        law_planned_paths(us, t, k);
        let last = level[level.len() - 1];
        assert(0 <= last.i < us.len());
        if forall|m: int| 0 <= m < t.len() ==> (#[trigger] t[m]).i != k {
        } else {
            let m = choose|m: int| 0 <= m < t.len() && (#[trigger] t[m]).i == k;
            assert(t[m] == level[m]);
            assert(last.i != k);
        }
        assert forall|m: int|
            0 <= m < level.len() && (#[trigger] level[m]).i == k implies with_level_paths(
            us,
            level,
        )[k] == with_drv_path(us[k], level[m].drv_path) by {
            if m < t.len() {
                assert(t[m] == level[m]);
                assert(last.i != k);
            } else {
                assert forall|n: int| 0 <= n < t.len() implies (#[trigger] t[n]).i != k by {
                    assert(t[n] == level[n]);
                }
            }
        }
        if forall|m: int| 0 <= m < level.len() ==> (#[trigger] level[m]).i != k {
            assert forall|m: int| 0 <= m < t.len() implies (#[trigger] t[m]).i != k by {
                assert(t[m] == level[m]);
            }
            assert(last.i != k);
        }
    }
}

/// Once a level is planned, its units are known under their keys by the paths that were
/// computed, and those of lower levels stay known.
pub proof fn law_planned_are_known(
    drvs: Map<Seq<char>, Seq<char>>,
    level: Seq<LevelView>,
    n: int,
    key: Seq<char>,
)
    ensures
        0 <= n < level.len() && (forall|m: int|
            n < m < level.len() ==> (#[trigger] level[m]).unit_key != level[n].unit_key)
            ==> drvs_with(drvs, level).contains_key(level[n].unit_key) && drvs_with(
            drvs,
            level,
        )[level[n].unit_key] == level[n].drv_path,
        drvs.contains_key(key) ==> drvs_with(drvs, level).contains_key(key),
        drvs_with(drvs, level).contains_key(key) ==> drvs.contains_key(key) || exists|m: int|
            0 <= m < level.len() && (#[trigger] level[m]).unit_key == key,
    decreases level.len(),
{
    if level.len() > 0 {
        let t = level.drop_last();
        law_planned_are_known(drvs, t, n, key);
        assert(level[level.len() - 1] == level.last());
        if 0 <= n < t.len() && (forall|m: int|
            n < m < level.len() ==> (#[trigger] level[m]).unit_key != level[n].unit_key) {
            assert(t[n] == level[n]);
            assert forall|m: int| n < m < t.len() implies (#[trigger] t[m]).unit_key
                != t[n].unit_key by {
                assert(t[m] == level[m]);
            }
            assert(level.last().unit_key != level[n].unit_key);
        }
        if drvs_with(drvs, t).contains_key(key) && !drvs.contains_key(key) {
            let m = choose|m: int| 0 <= m < t.len() && (#[trigger] t[m]).unit_key == key;
            assert(level[m] == t[m]);
        }
    }
}

/// At least one registration runs at a time, and only one where paths are verified; else
/// as many as were asked for, or as there are processors.
pub proof fn law_jobs(cpus: usize, wanted: usize)
    ensures
        jobs_of(true, cpus, Some(wanted)) == 1,
        jobs_of(true, cpus, None) == 1,
        wanted >= 1 ==> jobs_of(false, cpus, Some(wanted)) == wanted,
        jobs_of(false, cpus, Some(0)) == 1,
        cpus >= 1 ==> jobs_of(false, cpus, None) == cpus,
        jobs_of(false, 0, None) == 1,
{
}

/// A registration ends at the path that was computed, or it is given up. The command
/// line is used where no connection works, and only its failure is final.
pub proof fn law_registration_ends(
    unit: LevelView,
    action: RegisterAction,
    event: RegisterEvent,
    next: RegisterAction,
)
    requires
        registers(unit, action, event, next),
    ensures
        next matches RegisterAction::Finish(p, _) ==> p@ == unit.drv_path && event is Added,
        next matches RegisterAction::Finish(_, keep) ==> (keep <==> action is UseNewConnection),
        next is Abort && event is Failed ==> action is UseCli,
        action is UseConnection && event is Failed ==> next is Reconnect,
        action is Reconnect && event is Failed ==> next is UseCli,
        action is Reconnect && event is Connected ==> next is UseNewConnection,
        action is UseNewConnection && event is Failed ==> next is UseCli,
        event matches RegisterEvent::Added(path) ==> path@ == unit.drv_path ==> next is Finish,
{
}

// ---------------------------------------------------------------------------
// The daemon
// ---------------------------------------------------------------------------

proof fn lemma_word_len(n: u64)
    ensures
        word(n).len() == 8,
{
    lemma_auto_spec_u64_to_from_le_bytes();
}

/// A validity query is the operation's number, the list of paths, and from protocol 1.27
/// on a zero, by which nothing is substituted.
pub proof fn law_query_reads_back(paths: Seq<Seq<char>>, version: u64)
    requires
        paths.len() <= MAX_STRING_LIST_LEN,
        all_short(paths),
    ensures
        word_at(query_request(paths, version), 0) == Parse::<u64>::Done(31, 8),
        list_at(query_request(paths, version), 8) == Parse::<Seq<Seq<char>>>::Done(
            paths,
            (8 + framed_list(paths).len()) as int,
        ),
        version >= 0x11b ==> word_at(
            query_request(paths, version),
            (8 + framed_list(paths).len()) as int,
        ) == Parse::<u64>::Done(0, query_request(paths, version).len() as int),
        version < 0x11b ==> query_request(paths, version).len() == 8 + framed_list(paths).len(),
{
    let b = query_request(paths, version);
    let e = Seq::<u8>::empty();
    let flag = zero_if(version >= 0x11b);
    lemma_word_len(31);
    lemma_word_len(0);
    assert(b =~= e + word(31) + (framed_list(paths) + flag));
    law_word_reads_back(e, 31, framed_list(paths) + flag);
    assert(b =~= word(31) + framed_list(paths) + flag);
    law_list_reads_back(word(31), paths, flag);
    if version >= 0x11b {
        let front = word(31) + framed_list(paths);
        assert(b =~= front + word(0) + e);
        law_word_reads_back(front, 0, e);
    }
}

/// A text that is added is sent as the operation's number, its name, its bytes and its
/// references.
pub proof fn law_added_text_reads_back(name: Seq<char>, content: Seq<char>, refs: Seq<Seq<char>>)
    requires
        encode_utf8(name).len() <= MAX_STRING_LEN,
        encode_utf8(content).len() <= MAX_STRING_LEN,
        refs.len() <= MAX_STRING_LIST_LEN,
        all_short(refs),
    ensures
        ({
            let b = add_text_request_bytes(name, encode_utf8(content), refs);
            let i = 8 + framed_str(name).len();
            let j = i + framed_str(content).len();
            &&& word_at(b, 0) == Parse::<u64>::Done(8, 8)
            &&& string_at(b, 8) == Parse::<Seq<char>>::Done(name, i as int)
            &&& string_at(b, i as int) == Parse::<Seq<char>>::Done(content, j as int)
            &&& list_at(b, j as int) == Parse::<Seq<Seq<char>>>::Done(refs, b.len() as int)
        }),
{
    let b = add_text_request_bytes(name, encode_utf8(content), refs);
    let e = Seq::<u8>::empty();
    let n = framed_str(name);
    let c = framed_str(content);
    let l = framed_list(refs);
    lemma_word_len(8);
    assert(b =~= e + word(8) + (n + c + l));
    law_word_reads_back(e, 8, n + c + l);
    assert(b =~= word(8) + n + (c + l));
    law_string_reads_back(word(8), name, c + l);
    assert(b =~= (word(8) + n) + c + l);
    law_string_reads_back(word(8) + n, content, l);
    assert(b =~= (word(8) + n + c) + l + e);
    law_list_reads_back(word(8) + n + c, refs, e);
}

/// The client first tells its version, then, by the version that both speak, a zero for
/// the processor from 1.14 on and a zero for the space from 1.11 on.
pub proof fn law_settings_read_back(proto: u64)
    ensures
        word_at(client_settings(proto), 0) == Parse::<u64>::Done(0x125, 8),
        negotiated(proto) >= 0x10e ==> client_settings(proto) == word(0x125) + word(0) + word(0),
        0x10b <= negotiated(proto) < 0x10e ==> client_settings(proto) == word(0x125) + word(0),
        negotiated(proto) < 0x10b ==> client_settings(proto) == word(0x125),
{
    let b = client_settings(proto);
    let e = Seq::<u8>::empty();
    lemma_word_len(0x125);
    let rest = b.skip(8);
    assert(b.take(8) =~= word(0x125));
    assert(b =~= e + word(0x125) + rest);
    law_word_reads_back(e, 0x125, rest);
    assert(word(0x125) + e =~= word(0x125));
    assert(word(0x125) + e + word(0) =~= word(0x125) + word(0));
    assert(word(0x125) + e + e =~= word(0x125));
}

/// The daemon is found at the socket that the remote names, else at the one that was
/// given, else at its usual place.
pub proof fn law_socket_is_found(path: Seq<char>, remote: Seq<char>, given: Option<Seq<char>>)
    ensures
        socket_of(Some("unix://"@ + path), given) == path,
        !starts(remote, "unix://"@) ==> socket_of(Some(remote), Some(path)) == path,
        socket_of(None, Some(path)) == path,
        socket_of(None, None) == "/nix/var/nix/daemon-socket/socket"@,
{
    let r = "unix://"@ + path;
    assert(r.take("unix://"@.len() as int) =~= "unix://"@);
    assert(r.skip("unix://"@.len() as int) =~= path);
}

} // verus!
