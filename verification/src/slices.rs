//! Per-crate sources: each unit reads a store path that holds its own crate
//! alone, so that it does not change when another crate does.
use crate::text::{owned, same, starts, strip_prefix, trim_start_char, trim_start_of, views};
use crate::units::{unit_views, NixUnit, UnitKind, UnitView};
use vstd::prelude::*;

verus! {

/// A crate that gets a source of its own.
pub struct CrateSlice {
    /// The directory that the crate lies below: the project's source or the
    /// vendored crates.
    pub root: String,
    /// Where the crate lies below it.
    pub crate_rel: String,
    /// Whether the crate belongs to the project.
    pub local: bool,
}

/// A crate that gets a source of its own.
pub struct SliceView {
    pub root: Seq<char>,
    pub crate_rel: Seq<char>,
    pub local: bool,
}

impl View for CrateSlice {
    type V = SliceView;

    open spec fn view(&self) -> SliceView {
        SliceView { root: self.root@, crate_rel: self.crate_rel@, local: self.local }
    }
}

/// What each crate of a list holds.
pub open spec fn slice_views(v: Seq<CrateSlice>) -> Seq<SliceView> {
    Seq::new(v.len(), |i: int| v[i]@)
}

/// Where a crate lies.
pub open spec fn slice_path(root: Seq<char>, rel: Seq<char>) -> Seq<char> {
    root + "/"@ + rel
}

impl CrateSlice {
    /// Where the crate lies.
    pub fn path(&self) -> (r: String)
        ensures
            r@ == slice_path(self@.root, self@.crate_rel),
    {
        join_path(self.root.as_str(), self.crate_rel.as_str())
    }
}

fn join_path(root: &str, rel: &str) -> (r: String)
    ensures
        r@ == slice_path(root@, rel@),
{
    let mut r = owned(root);
    r.append("/");
    r.append(rel);
    r
}

/// The directory that a unit is sliced off. The run of a build script of the
/// project keeps the whole source, since it may read its siblings, unless the
/// crate declares that it does not. Vendored crates are always sliced.
pub open spec fn slice_root(u: UnitView, src: Seq<char>, vendor: Seq<char>) -> Option<Seq<char>> {
    if u.is_local {
        if u.kind != UnitKind::BuildScriptRun || u.self_contained_build_script {
            Some(src)
        } else {
            None
        }
    } else if vendor.len() > 0 {
        Some(vendor)
    } else {
        None
    }
}

/// Where a unit's crate lies below a directory.
pub open spec fn rel_below(dir: Seq<char>, root: Seq<char>) -> Option<Seq<char>> {
    if starts(dir, root) {
        let rel = trim_start_char(dir.skip(root.len() as int), '/');
        if rel.len() > 0 {
            Some(rel)
        } else {
            None
        }
    } else {
        None
    }
}

/// The crate that a unit is sliced to.
pub open spec fn slice_of(u: UnitView, src: Seq<char>, vendor: Seq<char>) -> Option<SliceView> {
    match slice_root(u, src, vendor) {
        Some(root) => match rel_below(u.manifest_dir, root) {
            Some(rel) => Some(SliceView { root, crate_rel: rel, local: u.is_local }),
            None => None,
        },
        None => None,
    }
}

/// Two slices are of the same crate.
pub open spec fn same_crate(a: SliceView, b: SliceView) -> bool {
    a.root == b.root && a.crate_rel == b.crate_rel
}

/// The position of a crate in a list.
pub open spec fn slice_position(v: Seq<SliceView>, s: SliceView) -> Option<int>
    decreases v.len(),
{
    if v.len() == 0 {
        None
    } else {
        match slice_position(v.drop_last(), s) {
            Some(i) => Some(i),
            None => if same_crate(v.last(), s) {
                Some(v.len() - 1)
            } else {
                None
            },
        }
    }
}

/// The crates that units are sliced to, each once.
pub open spec fn needed_slices(us: Seq<UnitView>, src: Seq<char>, vendor: Seq<char>) -> Seq<
    SliceView,
>
    decreases us.len(),
{
    if us.len() == 0 {
        Seq::empty()
    } else {
        let before = needed_slices(us.drop_last(), src, vendor);
        match slice_of(us.last(), src, vendor) {
            Some(s) if slice_position(before, s) is None => before.push(s),
            _ => before,
        }
    }
}

proof fn lemma_position_push(v: Seq<SliceView>, x: SliceView, s: SliceView)
    ensures
        slice_position(v, s) is Some ==> slice_position(v.push(x), s) == slice_position(v, s),
        slice_position(v, s) is None && same_crate(x, s) ==> slice_position(v.push(x), s) == Some(
            v.len() as int,
        ),
{
    assert(v.push(x).drop_last() =~= v);
}

proof fn lemma_needed_has(us: Seq<UnitView>, src: Seq<char>, vendor: Seq<char>, i: int)
    requires
        0 <= i < us.len(),
        slice_of(us[i], src, vendor) is Some,
    ensures
        slice_position(needed_slices(us, src, vendor), slice_of(us[i], src, vendor)->0) is Some,
    decreases us.len(),
{
    let s = slice_of(us[i], src, vendor)->0;
    let before = needed_slices(us.drop_last(), src, vendor);
    if i < us.len() - 1 {
        assert(us.drop_last()[i] == us[i]);
        lemma_needed_has(us.drop_last(), src, vendor, i);
        if let Some(x) = slice_of(us.last(), src, vendor) {
            lemma_position_push(before, x, s);
        }
    } else {
        lemma_position_push(before, s, s);
    }
}

fn find_slice(v: &Vec<CrateSlice>, root: &str, rel: &str, s: Ghost<SliceView>) -> (r: Option<usize>)
    requires
        s@.root == root@,
        s@.crate_rel == rel@,
    ensures
        match r {
            Some(i) => i < v@.len() && slice_position(slice_views(v@), s@) == Some(i as int),
            None => slice_position(slice_views(v@), s@) is None,
        },
{
    let ghost all = slice_views(v@);
    let mut i: usize = 0;
    while i < v.len()
        invariant
            i <= v@.len(),
            all == slice_views(v@),
            s@.root == root@,
            s@.crate_rel == rel@,
            slice_position(all.take(i as int), s@) is None,
        decreases v@.len() - i,
    {
        assert(all.take(i + 1).drop_last() =~= all.take(i as int));
        assert(all.take(i + 1).last() == v@[i as int]@);
        if same(v[i].root.as_str(), root) && same(v[i].crate_rel.as_str(), rel) {
            proof {
                lemma_position_stays(all, s@, i + 1);
            }
            return Some(i);
        }
        i = i + 1;
    }
    assert(all.take(all.len() as int) =~= all);
    None
}

proof fn lemma_position_stays(v: Seq<SliceView>, s: SliceView, n: int)
    requires
        0 <= n <= v.len(),
        slice_position(v.take(n), s) is Some,
    ensures
        slice_position(v, s) == slice_position(v.take(n), s),
    decreases v.len() - n,
{
    if n == v.len() {
        assert(v.take(n) =~= v);
    } else {
        assert(v.take(n + 1).drop_last() =~= v.take(n));
        lemma_position_stays(v, s, n + 1);
    }
}

fn unit_slice(u: &NixUnit, src: &str, vendor: &str) -> (r: Option<CrateSlice>)
    ensures
        match r {
            Some(s) => slice_of(u@, src@, vendor@) == Some(s@),
            None => slice_of(u@, src@, vendor@) is None,
        },
{
    let root = if u.is_local {
        if u.kind == UnitKind::BuildScriptRun && !u.self_contained_build_script {
            return None;
        }
        src
    } else {
        if vendor.is_empty() {
            return None;
        }
        vendor
    };
    match strip_prefix(u.manifest_dir.as_str(), root) {
        Some(rest) => {
            let rel = trim_start_of(rest, '/');
            if rel.is_empty() {
                None
            } else {
                Some(CrateSlice { root: owned(root), crate_rel: owned(rel), local: u.is_local })
            }
        },
        None => None,
    }
}

/// Lists the crates that units are sliced to, in the order in which units need
/// them.
pub fn crates_to_slice(units: &Vec<NixUnit>, src: &str, vendor: &str) -> (r: Vec<CrateSlice>)
    ensures
        slice_views(r@) == needed_slices(unit_views(units@), src@, vendor@),
{
    let ghost us = unit_views(units@);
    let mut r: Vec<CrateSlice> = Vec::new();
    let mut i: usize = 0;
    assert(slice_views(r@) =~= Seq::empty());
    while i < units.len()
        invariant
            i <= units@.len(),
            us == unit_views(units@),
            slice_views(r@) == needed_slices(us.take(i as int), src@, vendor@),
        decreases units@.len() - i,
    {
        assert(us.take(i + 1).drop_last() =~= us.take(i as int));
        assert(us.take(i + 1).last() == units@[i as int]@);
        if let Some(s) = unit_slice(&units[i], src, vendor) {
            let ghost sv = s@;
            if find_slice(&r, s.root.as_str(), s.crate_rel.as_str(), Ghost(sv)).is_none() {
                let ghost before = slice_views(r@);
                r.push(s);
                assert(slice_views(r@) =~= before.push(sv));
            }
        }
        i = i + 1;
    }
    assert(us.take(us.len() as int) =~= us);
    r
}

/// A path with another start, if it has the given one.
pub open spec fn moved(path: Seq<char>, from: Seq<char>, to: Seq<char>) -> Seq<char> {
    if starts(path, from) {
        to + path.skip(from.len() as int)
    } else {
        path
    }
}

/// Gives a path another start, if it has the given one.
pub fn move_path(path: &str, from: &str, to: &str) -> (r: String)
    ensures
        r@ == moved(path@, from@, to@),
{
    match strip_prefix(path, from) {
        Some(rest) => {
            let mut r = owned(to);
            r.append(rest);
            r
        },
        None => owned(path),
    }
}

/// A unit whose crate lies at `store`.
pub open spec fn sliced_unit(u: UnitView, s: SliceView, store: Seq<char>) -> UnitView {
    let from = slice_path(s.root, s.crate_rel);
    UnitView {
        source_file: moved(u.source_file, from, store),
        manifest_dir: moved(u.manifest_dir, from, store),
        sliced_crate_rel: if u.is_local {
            Some(s.crate_rel)
        } else {
            u.sliced_crate_rel
        },
        ..u
    }
}

/// The store path of a unit's crate.
pub open spec fn store_of(
    slices: Seq<SliceView>,
    stores: Seq<Seq<char>>,
    s: SliceView,
) -> Seq<char> {
    stores[slice_position(slices, s)->0]
}

/// A unit with its own source, if it gets one.
pub open spec fn assigned_unit(
    u: UnitView,
    src: Seq<char>,
    vendor: Seq<char>,
    slices: Seq<SliceView>,
    stores: Seq<Seq<char>>,
) -> UnitView {
    match slice_of(u, src, vendor) {
        Some(s) => sliced_unit(u, s, store_of(slices, stores, s)),
        None => u,
    }
}

/// The source of a unit: its own, or the whole project.
pub open spec fn assigned_store(
    u: UnitView,
    src: Seq<char>,
    vendor: Seq<char>,
    slices: Seq<SliceView>,
    stores: Seq<Seq<char>>,
) -> Seq<char> {
    match slice_of(u, src, vendor) {
        Some(s) => store_of(slices, stores, s),
        None => src,
    }
}

/// Gives each unit its source. `stores` holds, for each crate that
/// [`crates_to_slice`] lists, the store path it lies at. The paths of sliced units
/// are rewritten onto it. Returns the source of each unit.
pub fn assign_per_crate_src_stores(
    units: &mut Vec<NixUnit>,
    src_str: &str,
    vendor_str: &str,
    stores: &Vec<String>,
) -> (r: Vec<String>)
    requires
        stores@.len() == needed_slices(unit_views(old(units)@), src_str@, vendor_str@).len(),
    ensures
        final(units)@.len() == old(units)@.len(),
        r@.len() == old(units)@.len(),
        forall|i: int|
            0 <= i < old(units)@.len() ==> (#[trigger] final(units)@[i])@ == assigned_unit(
                old(units)@[i]@,
                src_str@,
                vendor_str@,
                needed_slices(unit_views(old(units)@), src_str@, vendor_str@),
                views(stores@),
            ),
        forall|i: int|
            0 <= i < old(units)@.len() ==> (#[trigger] r@[i])@ == assigned_store(
                old(units)@[i]@,
                src_str@,
                vendor_str@,
                needed_slices(unit_views(old(units)@), src_str@, vendor_str@),
                views(stores@),
            ),
{
    let ghost before = units@;
    let ghost us = unit_views(units@);
    let slices = crates_to_slice(units, src_str, vendor_str);
    let ghost sv = slice_views(slices@);
    let ghost st = views(stores@);
    let n: usize = units.len();
    let mut r: Vec<String> = Vec::new();
    let mut i: usize = 0;
    while i < n
        invariant
            i <= n,
            n == before.len(),
            units@.len() == n,
            r@.len() == i,
            us == unit_views(before),
            sv == slice_views(slices@),
            sv == needed_slices(us, src_str@, vendor_str@),
            st == views(stores@),
            st.len() == sv.len(),
            forall|k: int|
                0 <= k < i ==> (#[trigger] units@[k])@ == assigned_unit(
                    before[k]@,
                    src_str@,
                    vendor_str@,
                    sv,
                    st,
                ),
            forall|k: int| i <= k < n ==> #[trigger] units@[k] == before[k],
            forall|k: int|
                0 <= k < i ==> (#[trigger] r@[k])@ == assigned_store(
                    before[k]@,
                    src_str@,
                    vendor_str@,
                    sv,
                    st,
                ),
        decreases n - i,
    {
        assert(units@[i as int] == before[i as int]);
        assert(us[i as int] == before[i as int]@);
        match unit_slice(&units[i], src_str, vendor_str) {
            Some(s) => {
                let ghost s0 = s@;
                proof {
                    lemma_needed_has(us, src_str@, vendor_str@, i as int);
                }
                if let Some(p) = find_slice(
                    &slices,
                    s.root.as_str(),
                    s.crate_rel.as_str(),
                    Ghost(s0),
                ) {
                    let from = s.path();
                    let store = stores[p].clone();
                    assert(store@ == store_of(sv, st, s0));
                    let mut u = units[i].clone();
                    u.source_file = move_path(
                        u.source_file.as_str(),
                        from.as_str(),
                        store.as_str(),
                    );
                    u.manifest_dir = move_path(
                        u.manifest_dir.as_str(),
                        from.as_str(),
                        store.as_str(),
                    );
                    if u.is_local {
                        u.sliced_crate_rel = Some(s.crate_rel.clone());
                    }
                    assert(u@ =~= sliced_unit(before[i as int]@, s0, store@));
                    units.set(i, u);
                    r.push(store);
                }
            },
            None => {
                r.push(owned(src_str));
            },
        }
        i = i + 1;
    }
    r
}

// ---------------------------------------------------------------------------
// Laws
// ---------------------------------------------------------------------------

/// The source of a unit, and the unit itself, depend on the store path of its own
/// crate alone: a change to another crate leaves both as they are.
pub proof fn law_slices_decouple(
    us: Seq<UnitView>,
    i: int,
    src: Seq<char>,
    vendor: Seq<char>,
    stores1: Seq<Seq<char>>,
    stores2: Seq<Seq<char>>,
)
    requires
        0 <= i < us.len(),
        slice_of(us[i], src, vendor) matches Some(s) ==> store_of(
            needed_slices(us, src, vendor),
            stores1,
            s,
        ) == store_of(needed_slices(us, src, vendor), stores2, s),
    ensures
        assigned_store(us[i], src, vendor, needed_slices(us, src, vendor), stores1)
            == assigned_store(us[i], src, vendor, needed_slices(us, src, vendor), stores2),
        assigned_unit(us[i], src, vendor, needed_slices(us, src, vendor), stores1)
            == assigned_unit(us[i], src, vendor, needed_slices(us, src, vendor), stores2),
{
}

/// The same unit below another directory.
pub open spec fn unit_below(
    u: UnitView,
    root: Seq<char>,
    rel: Seq<char>,
    file: Seq<char>,
) -> UnitView {
    UnitView {
        manifest_dir: slice_path(root, rel),
        source_file: slice_path(root, rel) + file,
        ..u
    }
}

/// A sliced unit does not know the directory that it was sliced off. Whatever changes
/// around its crate gives that directory another path; with its own crate at the same
/// store path, the unit comes out the same.
pub proof fn law_slices_forget_the_rest(
    u: UnitView,
    rel: Seq<char>,
    file: Seq<char>,
    src1: Seq<char>,
    vendor1: Seq<char>,
    slices1: Seq<SliceView>,
    stores1: Seq<Seq<char>>,
    src2: Seq<char>,
    vendor2: Seq<char>,
    slices2: Seq<SliceView>,
    stores2: Seq<Seq<char>>,
)
    requires
        rel.len() > 0,
        rel[0] != '/',
        slice_root(u, src1, vendor1) is Some,
        slice_root(u, src2, vendor2) is Some,
        ({
            let root1 = slice_root(u, src1, vendor1)->0;
            let root2 = slice_root(u, src2, vendor2)->0;
            let a = SliceView { root: root1, crate_rel: rel, local: u.is_local };
            let b = SliceView { root: root2, crate_rel: rel, local: u.is_local };
            store_of(slices1, stores1, a) == store_of(slices2, stores2, b)
        }),
    ensures
        ({
            let a = unit_below(u, slice_root(u, src1, vendor1)->0, rel, file);
            let b = unit_below(u, slice_root(u, src2, vendor2)->0, rel, file);
            &&& assigned_unit(a, src1, vendor1, slices1, stores1) == assigned_unit(
                b,
                src2,
                vendor2,
                slices2,
                stores2,
            )
            &&& assigned_store(a, src1, vendor1, slices1, stores1) == assigned_store(
                b,
                src2,
                vendor2,
                slices2,
                stores2,
            )
        }),
{
    lemma_sliced_below(u, rel, file, src1, vendor1, slices1, stores1);
    lemma_sliced_below(u, rel, file, src2, vendor2, slices2, stores2);
}

proof fn lemma_sliced_below(
    u: UnitView,
    rel: Seq<char>,
    file: Seq<char>,
    src: Seq<char>,
    vendor: Seq<char>,
    slices: Seq<SliceView>,
    stores: Seq<Seq<char>>,
)
    requires
        rel.len() > 0,
        rel[0] != '/',
        slice_root(u, src, vendor) is Some,
    ensures
        ({
            let root = slice_root(u, src, vendor)->0;
            let w = unit_below(u, root, rel, file);
            let store = store_of(
                slices,
                stores,
                SliceView { root, crate_rel: rel, local: u.is_local },
            );
            &&& assigned_store(w, src, vendor, slices, stores) == store
            &&& assigned_unit(w, src, vendor, slices, stores) == UnitView {
                manifest_dir: store,
                source_file: store + file,
                sliced_crate_rel: if u.is_local {
                    Some(rel)
                } else {
                    u.sliced_crate_rel
                },
                ..u
            }
        }),
{
    let root = slice_root(u, src, vendor)->0;
    let w = unit_below(u, root, rel, file);
    let path = slice_path(root, rel);
    reveal_strlit("/");
    let rest = path.skip(root.len() as int);
    assert(rest =~= seq!['/'] + rel);
    assert(rest.drop_first() =~= rel);
    assert(starts(w.manifest_dir, root)) by {
        assert(path.take(root.len() as int) =~= root);
    }
    reveal_with_fuel(trim_start_char, 3);
    assert(rel_below(w.manifest_dir, root) == Some(rel));
    assert(w.source_file.take(path.len() as int) =~= path);
    assert(w.source_file.skip(path.len() as int) =~= file);
    assert(path.take(path.len() as int) =~= path);
    assert(path.skip(path.len() as int) =~= Seq::<char>::empty());
    let store = store_of(slices, stores, SliceView { root, crate_rel: rel, local: u.is_local });
    assert(store + Seq::<char>::empty() =~= store);
}

/// A unit of the project that runs a build script keeps the whole source and its
/// paths, unless its crate declares that it needs no more than itself.
pub proof fn law_build_scripts_keep_source(
    u: UnitView,
    src: Seq<char>,
    vendor: Seq<char>,
    slices: Seq<SliceView>,
    stores: Seq<Seq<char>>,
)
    requires
        u.is_local,
        u.kind == UnitKind::BuildScriptRun,
        !u.self_contained_build_script,
    ensures
        assigned_store(u, src, vendor, slices, stores) == src,
        assigned_unit(u, src, vendor, slices, stores) == u,
{
}

/// Units of the same crate share a source.
pub proof fn law_same_crate_same_source(
    a: UnitView,
    b: UnitView,
    src: Seq<char>,
    vendor: Seq<char>,
    slices: Seq<SliceView>,
    stores: Seq<Seq<char>>,
)
    requires
        slice_of(a, src, vendor) is Some,
        slice_of(b, src, vendor) is Some,
        same_crate(slice_of(a, src, vendor)->0, slice_of(b, src, vendor)->0),
    ensures
        assigned_store(a, src, vendor, slices, stores) == assigned_store(
            b,
            src,
            vendor,
            slices,
            stores,
        ),
{
    lemma_same_position(slices, slice_of(a, src, vendor)->0, slice_of(b, src, vendor)->0);
}

proof fn lemma_same_position(v: Seq<SliceView>, a: SliceView, b: SliceView)
    requires
        same_crate(a, b),
    ensures
        slice_position(v, a) == slice_position(v, b),
    decreases v.len(),
{
    if v.len() > 0 {
        lemma_same_position(v.drop_last(), a, b);
    }
}

} // verus!
