//! The application index: an in-memory, precedence-aware cache of parsed
//! application entries.
//!
//! Directories are ordered by priority (lower index wins). For every
//! identifier at most one entry is *active*; entries for the same identifier
//! from worse-priority files are kept *shadowed* so that removing the active
//! source file promotes the best remaining sibling without a rescan.

use vstd::prelude::*;
use vstd::string::*;
use crate::text::{spec_starts_with, spec_stem, str_eq};

verus! {

/// Where an entry's source directory comes from.
#[derive(Clone, Copy, Debug, PartialEq, Eq, Structural)]
pub enum Origin {
    /// A native package's application directory.
    Native,
    /// A sandboxed-app-format export directory.
    Sandboxed,
    /// An alternate-package-format directory.
    AlternatePackage,
}

/// One directory of the precedence list, with the origin tag its entries
/// inherit.
#[derive(Debug)]
pub struct SourceDir {
    pub path: String,
    pub origin: Origin,
}

pub ghost struct DirV {
    pub path: Seq<char>,
    pub origin: Origin,
}

impl View for SourceDir {
    type V = DirV;

    open spec fn view(&self) -> DirV {
        DirV { path: self.path@, origin: self.origin }
    }
}

/// What the desktop-entry parser reports for one source file.
#[derive(Debug)]
pub struct RawEntry {
    /// The file asks not to be shown.
    pub no_display: bool,
    pub name: Option<String>,
    pub generic_name: Option<String>,
    pub comment: Option<String>,
    pub exec_cmd: Option<String>,
    pub icon: Option<String>,
    pub keywords: Vec<String>,
    pub terminal: bool,
}

pub ghost struct RawV {
    pub no_display: bool,
    pub name: Option<Seq<char>>,
    pub generic_name: Option<Seq<char>>,
    pub comment: Option<Seq<char>>,
    pub exec_cmd: Option<Seq<char>>,
    pub icon: Option<Seq<char>>,
    pub keywords: Seq<Seq<char>>,
    pub terminal: bool,
}

impl View for RawEntry {
    type V = RawV;

    open spec fn view(&self) -> RawV {
        RawV {
            no_display: self.no_display,
            name: self.name.deep_view(),
            generic_name: self.generic_name.deep_view(),
            comment: self.comment.deep_view(),
            exec_cmd: self.exec_cmd.deep_view(),
            icon: self.icon.deep_view(),
            keywords: self.keywords.deep_view(),
            terminal: self.terminal,
        }
    }
}

/// One indexed application.
#[derive(Debug)]
pub struct AppEntry {
    /// Identifier: the source file's stem, shared by shadowing entries.
    pub id: String,
    /// The source file this entry was parsed from.
    pub path: String,
    pub name: String,
    pub generic_name: Option<String>,
    pub comment: Option<String>,
    pub exec_cmd: String,
    pub icon: String,
    pub keywords: Vec<String>,
    pub terminal: bool,
    /// Usage counter for the popularity browse mode.
    pub launch_count: u32,
    /// Position of the containing directory in the precedence list; the
    /// list's length when the directory is unknown.
    pub priority: usize,
    pub origin: Origin,
}

pub ghost struct EntryV {
    pub id: Seq<char>,
    pub path: Seq<char>,
    pub name: Seq<char>,
    pub generic_name: Option<Seq<char>>,
    pub comment: Option<Seq<char>>,
    pub exec_cmd: Seq<char>,
    pub icon: Seq<char>,
    pub keywords: Seq<Seq<char>>,
    pub terminal: bool,
    pub launch_count: u32,
    pub priority: int,
    pub origin: Origin,
}

impl View for AppEntry {
    type V = EntryV;

    open spec fn view(&self) -> EntryV {
        EntryV {
            id: self.id@,
            path: self.path@,
            name: self.name@,
            generic_name: self.generic_name.deep_view(),
            comment: self.comment.deep_view(),
            exec_cmd: self.exec_cmd@,
            icon: self.icon@,
            keywords: self.keywords.deep_view(),
            terminal: self.terminal,
            launch_count: self.launch_count,
            priority: self.priority as int,
            origin: self.origin,
        }
    }
}

pub open spec fn entries_view(s: Seq<AppEntry>) -> Seq<EntryV> {
    s.map_values(|e: AppEntry| e@)
}

pub open spec fn dirs_view(s: Seq<SourceDir>) -> Seq<DirV> {
    s.map_values(|d: SourceDir| d@)
}

/// The index's mathematical model.
pub ghost struct IndexV {
    pub dirs: Seq<DirV>,
    pub active: Seq<EntryV>,
    pub shadowed: Seq<EntryV>,
}

/// Index of the first entry with identifier `id`, or -1.
pub open spec fn find_by_id(s: Seq<EntryV>, id: Seq<char>) -> int
    decreases s.len(),
{
    if s.len() == 0 {
        -1
    } else if s[0].id == id {
        0
    } else {
        let r = find_by_id(s.drop_first(), id);
        if r < 0 {
            -1
        } else {
            r + 1
        }
    }
}

pub proof fn lemma_find_by_id_props(s: Seq<EntryV>, id: Seq<char>)
    ensures
        -1 <= find_by_id(s, id) < s.len(),
        find_by_id(s, id) >= 0 ==> s[find_by_id(s, id)].id == id,
        forall|k: int| 0 <= k < find_by_id(s, id) ==> s[k].id != id,
        find_by_id(s, id) == -1 ==> forall|k: int| 0 <= k < s.len() ==> s[k].id != id,
    decreases s.len(),
{
    if s.len() > 0 && s[0].id != id {
        let rest = s.drop_first();
        lemma_find_by_id_props(rest, id);
        assert forall|k: int| 0 <= k < find_by_id(s, id) implies s[k].id != id by {
            if k > 0 {
                assert(rest[k - 1] == s[k]);
            }
        }
        if find_by_id(s, id) == -1 {
            assert forall|k: int| 0 <= k < s.len() implies s[k].id != id by {
                if k > 0 {
                    assert(rest[k - 1] == s[k]);
                }
            }
        }
    }
}

/// Index of the first entry with path `path`, or -1.
pub open spec fn find_by_path(s: Seq<EntryV>, path: Seq<char>) -> int
    decreases s.len(),
{
    if s.len() == 0 {
        -1
    } else if s[0].path == path {
        0
    } else {
        let r = find_by_path(s.drop_first(), path);
        if r < 0 {
            -1
        } else {
            r + 1
        }
    }
}

pub proof fn lemma_find_by_path_props(s: Seq<EntryV>, path: Seq<char>)
    ensures
        -1 <= find_by_path(s, path) < s.len(),
        find_by_path(s, path) >= 0 ==> s[find_by_path(s, path)].path == path,
        forall|k: int| 0 <= k < find_by_path(s, path) ==> s[k].path != path,
        find_by_path(s, path) == -1 ==> forall|k: int| 0 <= k < s.len() ==> s[k].path != path,
    decreases s.len(),
{
    if s.len() > 0 && s[0].path != path {
        let rest = s.drop_first();
        lemma_find_by_path_props(rest, path);
        assert forall|k: int| 0 <= k < find_by_path(s, path) implies s[k].path != path by {
            if k > 0 {
                assert(rest[k - 1] == s[k]);
            }
        }
        if find_by_path(s, path) == -1 {
            assert forall|k: int| 0 <= k < s.len() implies s[k].path != path by {
                if k > 0 {
                    assert(rest[k - 1] == s[k]);
                }
            }
        }
    }
}

/// Index of the first entry with identifier `id` whose priority is minimal
/// among all entries with that identifier, or -1.
pub open spec fn best_shadowed(s: Seq<EntryV>, id: Seq<char>) -> int
    decreases s.len(),
{
    if s.len() == 0 {
        -1
    } else {
        let r = best_shadowed(s.drop_first(), id);
        if s[0].id != id {
            if r < 0 {
                -1
            } else {
                r + 1
            }
        } else if r < 0 {
            0
        } else if s.drop_first()[r].priority < s[0].priority {
            r + 1
        } else {
            0
        }
    }
}

pub proof fn lemma_best_shadowed_props(s: Seq<EntryV>, id: Seq<char>)
    ensures
        -1 <= best_shadowed(s, id) < s.len(),
        best_shadowed(s, id) >= 0 ==> s[best_shadowed(s, id)].id == id,
        best_shadowed(s, id) == -1 ==> forall|k: int| 0 <= k < s.len() ==> s[k].id != id,
        forall|k: int|
            0 <= k < s.len() && s[k].id == id ==> best_shadowed(s, id) >= 0 && s[best_shadowed(
                s,
                id,
            )].priority <= s[k].priority,
        forall|k: int|
            0 <= k < best_shadowed(s, id) && s[k].id == id ==> s[best_shadowed(s, id)].priority < s[
                k
            ].priority,
    decreases s.len(),
{
    if s.len() > 0 {
        let rest = s.drop_first();
        lemma_best_shadowed_props(rest, id);
        let b = best_shadowed(s, id);
        assert(forall|k: int| 0 <= k < s.len() - 1 ==> rest[k] == s[k + 1]);
        if b == -1 {
            assert forall|k: int| 0 <= k < s.len() implies s[k].id != id by {
                if k > 0 {
                    assert(rest[k - 1] == s[k]);
                }
            }
        } else {
            assert forall|k: int|
                0 <= k < s.len() && s[k].id == id implies b >= 0 && s[b].priority <= s[
                k
            ].priority by {
                if k > 0 {
                    assert(rest[k - 1] == s[k]);
                }
                if b > 0 {
                    assert(rest[b - 1] == s[b]);
                }
            }
            assert forall|k: int|
                0 <= k < b && s[k].id == id implies s[b].priority < s[k].priority by {
                if k > 0 {
                    assert(rest[k - 1] == s[k]);
                }
                assert(rest[b - 1] == s[b]);
            }
        }
    }
}

/// An entry's derived fields agree with its path and the precedence list.
pub open spec fn entry_consistent(dirs: Seq<DirV>, e: EntryV) -> bool {
    &&& e.priority == spec_priority(dirs, e.path)
    &&& e.origin == spec_origin(dirs, e.path)
    &&& e.id == spec_stem(e.path)
}

/// True when `path` names a file directly or transitively under `dir`.
pub open spec fn dir_contains(dir: Seq<char>, path: Seq<char>) -> bool {
    spec_starts_with(path, dir) && path.len() > dir.len() && path[dir.len() as int] == '/'
}

/// Position of the first directory of the precedence list that contains
/// `path`; the list's length (worst priority) when none does.
pub open spec fn spec_priority(dirs: Seq<DirV>, path: Seq<char>) -> int
    decreases dirs.len(),
{
    if dirs.len() == 0 {
        0
    } else if dir_contains(dirs[0].path, path) {
        0
    } else {
        1 + spec_priority(dirs.drop_first(), path)
    }
}

/// Origin tag of the first directory of the precedence list that contains
/// `path`; `Origin::Native` when none does.
pub open spec fn spec_origin(dirs: Seq<DirV>, path: Seq<char>) -> Origin
    decreases dirs.len(),
{
    if dirs.len() == 0 {
        Origin::Native
    } else if dir_contains(dirs[0].path, path) {
        dirs[0].origin
    } else {
        spec_origin(dirs.drop_first(), path)
    }
}

pub proof fn lemma_priority_props(dirs: Seq<DirV>, path: Seq<char>)
    ensures
        0 <= spec_priority(dirs, path) <= dirs.len(),
        spec_priority(dirs, path) < dirs.len() ==> dir_contains(
            dirs[spec_priority(dirs, path)].path,
            path,
        ) && spec_origin(dirs, path) == dirs[spec_priority(dirs, path)].origin,
        forall|k: int| 0 <= k < spec_priority(dirs, path) ==> !dir_contains(dirs[k].path, path),
        spec_priority(dirs, path) == dirs.len() ==> spec_origin(dirs, path) == Origin::Native,
    decreases dirs.len(),
{
    if dirs.len() > 0 && !dir_contains(dirs[0].path, path) {
        let rest = dirs.drop_first();
        lemma_priority_props(rest, path);
        assert forall|k: int|
            0 <= k < spec_priority(dirs, path) implies !dir_contains(dirs[k].path, path) by {
            if k > 0 {
                assert(rest[k - 1] == dirs[k]);
            }
        }
        if spec_priority(dirs, path) < dirs.len() {
            assert(rest[spec_priority(rest, path)] == dirs[spec_priority(dirs, path)]);
        }
    }
}

/// The index invariant.
pub open spec fn index_wf(v: IndexV) -> bool {
    // No two active entries share an identifier.
    &&& (forall|i: int, j: int|
        0 <= i < j < v.active.len() ==> v.active[i].id != v.active[j].id)
    // Every shadowed entry is covered by an active entry for the same
    // identifier with the same or better priority.
    &&& (forall|i: int|
        0 <= i < v.shadowed.len() ==> exists|j: int|
            0 <= j < v.active.len() && v.active[j].id == #[trigger] v.shadowed[i].id && v.active[
                j
            ].priority <= v.shadowed[i].priority)
    // Each source file appears at most once.
    &&& (forall|i: int, j: int|
        0 <= i < j < v.active.len() ==> v.active[i].path != v.active[j].path)
    &&& (forall|i: int, j: int|
        0 <= i < j < v.shadowed.len() ==> v.shadowed[i].path != v.shadowed[j].path)
    &&& (forall|i: int, j: int|
        0 <= i < v.active.len() && 0 <= j < v.shadowed.len() ==> v.active[i].path != v.shadowed[
            j
        ].path)
    // Derived fields agree with the precedence list.
    &&& (forall|i: int|
        0 <= i < v.active.len() ==> entry_consistent(v.dirs, #[trigger] v.active[i]))
    &&& (forall|i: int|
        0 <= i < v.shadowed.len() ==> entry_consistent(v.dirs, #[trigger] v.shadowed[i]))
}

/// True when some record (active or shadowed) stems from `path`.
pub open spec fn has_path(v: IndexV, path: Seq<char>) -> bool {
    find_by_path(v.active, path) >= 0 || find_by_path(v.shadowed, path) >= 0
}

/// True when `id` has an active entry.
pub open spec fn has_active(v: IndexV, id: Seq<char>) -> bool {
    find_by_id(v.active, id) >= 0
}

/// The active entry for `id`.
pub open spec fn active_of(v: IndexV, id: Seq<char>) -> EntryV {
    v.active[find_by_id(v.active, id)]
}

/// Installs an entry whose source file was not recorded before: it becomes
/// active unless a strictly better-priority active entry for the same
/// identifier exists, in which case it is only shadowed; an unseated active
/// entry moves to the shadowed records.
pub open spec fn spec_install(v: IndexV, e: EntryV) -> IndexV {
    let i = find_by_id(v.active, e.id);
    if i < 0 {
        IndexV { dirs: v.dirs, active: v.active.push(e), shadowed: v.shadowed }
    } else if v.active[i].priority >= e.priority {
        IndexV {
            dirs: v.dirs,
            active: v.active.update(i, e),
            shadowed: v.shadowed.push(v.active[i]),
        }
    } else {
        IndexV { dirs: v.dirs, active: v.active, shadowed: v.shadowed.push(e) }
    }
}

/// Drops the record stemming from `path`. When that record was active, the
/// best-priority shadowed sibling, if any, is promoted to active.
pub open spec fn spec_remove(v: IndexV, path: Seq<char>) -> IndexV {
    let i = find_by_path(v.active, path);
    if i >= 0 {
        let id = v.active[i].id;
        let act = v.active.remove(i);
        let j = best_shadowed(v.shadowed, id);
        if j >= 0 {
            IndexV { dirs: v.dirs, active: act.push(v.shadowed[j]), shadowed: v.shadowed.remove(j) }
        } else {
            IndexV { dirs: v.dirs, active: act, shadowed: v.shadowed }
        }
    } else {
        let k = find_by_path(v.shadowed, path);
        if k >= 0 {
            IndexV { dirs: v.dirs, active: v.active, shadowed: v.shadowed.remove(k) }
        } else {
            v
        }
    }
}

/// Replaces in place the record stemming from `path` (same file, same
/// priority): an active record stays active, a shadowed one stays shadowed.
pub open spec fn spec_replace(v: IndexV, path: Seq<char>, e: EntryV) -> IndexV {
    let i = find_by_path(v.active, path);
    if i >= 0 {
        IndexV { dirs: v.dirs, active: v.active.update(i, e), shadowed: v.shadowed }
    } else {
        let k = find_by_path(v.shadowed, path);
        if k >= 0 {
            IndexV { dirs: v.dirs, active: v.active, shadowed: v.shadowed.update(k, e) }
        } else {
            v
        }
    }
}

/// One file's new parse outcome folded into the index: an unusable file is
/// removed, a known file is replaced in place, a fresh file is installed.
pub open spec fn spec_upsert(v: IndexV, path: Seq<char>, parsed: Option<EntryV>) -> IndexV {
    match parsed {
        Option::None => spec_remove(v, path),
        Option::Some(e) => if has_path(v, path) {
            spec_replace(v, path, e)
        } else {
            spec_install(v, e)
        },
    }
}

pub proof fn lemma_install_wf(v: IndexV, e: EntryV)
    requires
        index_wf(v),
        entry_consistent(v.dirs, e),
        !has_path(v, e.path),
    ensures
        index_wf(spec_install(v, e)),
{
    lemma_find_by_id_props(v.active, e.id);
    lemma_find_by_path_props(v.active, e.path);
    lemma_find_by_path_props(v.shadowed, e.path);
    let i = find_by_id(v.active, e.id);
    let v2 = spec_install(v, e);
    if i < 0 {
        assert forall|k: int| 0 <= k < v2.shadowed.len() implies exists|j: int|
            0 <= j < v2.active.len() && v2.active[j].id == #[trigger] v2.shadowed[k].id
                && v2.active[j].priority <= v2.shadowed[k].priority by {
            let j = choose|j: int|
                0 <= j < v.active.len() && v.active[j].id == v.shadowed[k].id && v.active[
                    j
                ].priority <= v.shadowed[k].priority;
            assert(v2.active[j].id == v2.shadowed[k].id && v2.active[j].priority <= v2.shadowed[
                k
            ].priority);
        }
    } else if v.active[i].priority >= e.priority {
        assert forall|k: int| 0 <= k < v2.shadowed.len() implies exists|j: int|
            0 <= j < v2.active.len() && v2.active[j].id == #[trigger] v2.shadowed[k].id
                && v2.active[j].priority <= v2.shadowed[k].priority by {
            if k < v.shadowed.len() {
                let j = choose|j: int|
                    0 <= j < v.active.len() && v.active[j].id == v.shadowed[k].id && v.active[
                        j
                    ].priority <= v.shadowed[k].priority;
                if j == i {
                    assert(v2.active[i].id == v2.shadowed[k].id && v2.active[i].priority
                        <= v2.shadowed[k].priority);
                } else {
                    assert(v2.active[j].id == v2.shadowed[k].id && v2.active[j].priority
                        <= v2.shadowed[k].priority);
                }
            } else {
                assert(v2.shadowed[k] == v.active[i]);
                assert(v2.active[i].id == v2.shadowed[k].id && v2.active[i].priority
                    <= v2.shadowed[k].priority);
            }
        }
    } else {
        assert forall|k: int| 0 <= k < v2.shadowed.len() implies exists|j: int|
            0 <= j < v2.active.len() && v2.active[j].id == #[trigger] v2.shadowed[k].id
                && v2.active[j].priority <= v2.shadowed[k].priority by {
            if k < v.shadowed.len() {
                let j = choose|j: int|
                    0 <= j < v.active.len() && v.active[j].id == v.shadowed[k].id && v.active[
                        j
                    ].priority <= v.shadowed[k].priority;
                assert(v2.active[j].id == v2.shadowed[k].id && v2.active[j].priority <= v2.shadowed[
                    k
                ].priority);
            } else {
                assert(v2.shadowed[k] == e);
                assert(v2.active[i].id == v2.shadowed[k].id && v2.active[i].priority <= v2.shadowed[
                    k
                ].priority);
            }
        }
    }
}

pub proof fn lemma_replace_wf(v: IndexV, path: Seq<char>, e: EntryV)
    requires
        index_wf(v),
        entry_consistent(v.dirs, e),
        e.path == path,
    ensures
        index_wf(spec_replace(v, path, e)),
{
    lemma_find_by_path_props(v.active, path);
    lemma_find_by_path_props(v.shadowed, path);
    let i = find_by_path(v.active, path);
    let k0 = find_by_path(v.shadowed, path);
    let v2 = spec_replace(v, path, e);
    if i >= 0 {
        assert(v.active[i].path == path);
        assert(entry_consistent(v.dirs, v.active[i]));
        assert(e.id == v.active[i].id && e.priority == v.active[i].priority);
        assert forall|k: int| 0 <= k < v2.shadowed.len() implies exists|j: int|
            0 <= j < v2.active.len() && v2.active[j].id == #[trigger] v2.shadowed[k].id
                && v2.active[j].priority <= v2.shadowed[k].priority by {
            let j = choose|j: int|
                0 <= j < v.active.len() && v.active[j].id == v.shadowed[k].id && v.active[
                    j
                ].priority <= v.shadowed[k].priority;
            assert(v2.active[j].id == v2.shadowed[k].id && v2.active[j].priority <= v2.shadowed[
                k
            ].priority);
        }
    } else if k0 >= 0 {
        assert(v.shadowed[k0].path == path);
        assert(entry_consistent(v.dirs, v.shadowed[k0]));
        assert(e.id == v.shadowed[k0].id && e.priority == v.shadowed[k0].priority);
        assert forall|k: int| 0 <= k < v2.shadowed.len() implies exists|j: int|
            0 <= j < v2.active.len() && v2.active[j].id == #[trigger] v2.shadowed[k].id
                && v2.active[j].priority <= v2.shadowed[k].priority by {
            let j = choose|j: int|
                0 <= j < v.active.len() && v.active[j].id == v.shadowed[k].id && v.active[
                    j
                ].priority <= v.shadowed[k].priority;
            assert(v2.shadowed[k].id == v.shadowed[k].id && v2.shadowed[k].priority == v.shadowed[
                k
            ].priority);
            assert(v2.active[j].id == v2.shadowed[k].id && v2.active[j].priority <= v2.shadowed[
                k
            ].priority);
        }
    }
}

pub proof fn lemma_remove_wf(v: IndexV, path: Seq<char>)
    requires
        index_wf(v),
    ensures
        index_wf(spec_remove(v, path)),
{
    lemma_find_by_path_props(v.active, path);
    lemma_find_by_path_props(v.shadowed, path);
    let i = find_by_path(v.active, path);
    let k0 = find_by_path(v.shadowed, path);
    let v2 = spec_remove(v, path);
    if i >= 0 {
        let id = v.active[i].id;
        let act = v.active.remove(i);
        let j = best_shadowed(v.shadowed, id);
        lemma_best_shadowed_props(v.shadowed, id);
        assert(forall|k: int| 0 <= k < i ==> act[k] == v.active[k]);
        assert(forall|k: int| i <= k < act.len() ==> act[k] == v.active[k + 1]);
        // Only position i of the old active list held `id`.
        assert forall|k: int| 0 <= k < act.len() implies act[k].id != id by {
            if k < i {
                assert(act[k] == v.active[k]);
            } else {
                assert(act[k] == v.active[k + 1]);
            }
        }
        if j >= 0 {
            let promoted = v.shadowed[j];
            let sh2 = v.shadowed.remove(j);
            assert(forall|k: int| 0 <= k < j ==> sh2[k] == v.shadowed[k]);
            assert(forall|k: int| j <= k < sh2.len() ==> sh2[k] == v.shadowed[k + 1]);
            assert(v2.active =~= act.push(promoted));
            assert forall|k: int| 0 <= k < v2.shadowed.len() implies exists|m: int|
                0 <= m < v2.active.len() && v2.active[m].id == #[trigger] v2.shadowed[k].id
                    && v2.active[m].priority <= v2.shadowed[k].priority by {
                let kk = if k < j { k } else { k + 1 };
                assert(v2.shadowed[k] == v.shadowed[kk]);
                if v.shadowed[kk].id == id {
                    assert(v2.active[act.len() as int] == promoted);
                    assert(promoted.priority <= v.shadowed[kk].priority);
                    assert(v2.active[act.len() as int].id == v2.shadowed[k].id && v2.active[
                        act.len() as int
                    ].priority <= v2.shadowed[k].priority);
                } else {
                    let m = choose|m: int|
                        0 <= m < v.active.len() && v.active[m].id == v.shadowed[kk].id && v.active[
                            m
                        ].priority <= v.shadowed[kk].priority;
                    assert(v.active[m].id != id);
                    assert(m != i);
                    let m2 = if m < i { m } else { m - 1 };
                    assert(v2.active[m2] == v.active[m]);
                    assert(v2.active[m2].id == v2.shadowed[k].id && v2.active[m2].priority
                        <= v2.shadowed[k].priority);
                }
            }
        } else {
            assert forall|k: int| 0 <= k < v2.shadowed.len() implies exists|m: int|
                0 <= m < v2.active.len() && v2.active[m].id == #[trigger] v2.shadowed[k].id
                    && v2.active[m].priority <= v2.shadowed[k].priority by {
                assert(v.shadowed[k].id != id);
                let m = choose|m: int|
                    0 <= m < v.active.len() && v.active[m].id == v.shadowed[k].id && v.active[
                        m
                    ].priority <= v.shadowed[k].priority;
                assert(m != i);
                let m2 = if m < i { m } else { m - 1 };
                assert(v2.active[m2] == v.active[m]);
                assert(v2.active[m2].id == v2.shadowed[k].id && v2.active[m2].priority
                    <= v2.shadowed[k].priority);
            }
        }
    } else if k0 >= 0 {
        let sh2 = v.shadowed.remove(k0);
        assert(forall|k: int| 0 <= k < k0 ==> sh2[k] == v.shadowed[k]);
        assert(forall|k: int| k0 <= k < sh2.len() ==> sh2[k] == v.shadowed[k + 1]);
        assert forall|k: int| 0 <= k < v2.shadowed.len() implies exists|m: int|
            0 <= m < v2.active.len() && v2.active[m].id == #[trigger] v2.shadowed[k].id
                && v2.active[m].priority <= v2.shadowed[k].priority by {
            let kk = if k < k0 { k } else { k + 1 };
            assert(v2.shadowed[k] == v.shadowed[kk]);
            let m = choose|m: int|
                0 <= m < v.active.len() && v.active[m].id == v.shadowed[kk].id && v.active[
                    m
                ].priority <= v.shadowed[kk].priority;
            assert(v2.active[m].id == v2.shadowed[k].id && v2.active[m].priority <= v2.shadowed[
                k
            ].priority);
        }
    }
}

pub proof fn lemma_upsert_wf(v: IndexV, path: Seq<char>, parsed: Option<EntryV>)
    requires
        index_wf(v),
        parsed is Some ==> entry_consistent(v.dirs, parsed->0) && parsed->0.path == path,
    ensures
        index_wf(spec_upsert(v, path, parsed)),
{
    match parsed {
        Option::None => lemma_remove_wf(v, path),
        Option::Some(e) => {
            if has_path(v, path) {
                lemma_replace_wf(v, path, e);
            } else {
                lemma_install_wf(v, e);
            }
        },
    }
}

/// The icon name an entry falls back to when its file names none.
pub open spec fn spec_default_icon() -> Seq<char> {
    "application-x-executable"@
}

/// Builds the indexed entry for one parsed source file, or nothing when the
/// file is unusable: hidden, nameless, or without a launch command.
pub open spec fn spec_make_entry(dirs: Seq<DirV>, path: Seq<char>, raw: RawV) -> Option<EntryV> {
    if raw.no_display || raw.name is None || raw.exec_cmd is None {
        Option::None
    } else {
        Option::Some(
            EntryV {
                id: spec_stem(path),
                path: path,
                name: raw.name->0,
                generic_name: raw.generic_name,
                comment: raw.comment,
                exec_cmd: raw.exec_cmd->0,
                icon: match raw.icon {
                    Option::Some(i) => i,
                    Option::None => spec_default_icon(),
                },
                keywords: raw.keywords,
                terminal: raw.terminal,
                launch_count: 0,
                priority: spec_priority(dirs, path),
                origin: spec_origin(dirs, path),
            },
        )
    }
}

/// One filesystem change event, with the paths it concerns.
#[derive(Debug)]
pub enum FsEvent {
    Created { path: String },
    Removed { path: String },
    Modified { path: String },
    RenamedFrom { path: String },
    RenamedTo { path: String },
    RenamedBoth { from: String, to: String },
}

pub ghost enum EventV {
    Created { path: Seq<char> },
    Removed { path: Seq<char> },
    Modified { path: Seq<char> },
    RenamedFrom { path: Seq<char> },
    RenamedTo { path: Seq<char> },
    RenamedBoth { from: Seq<char>, to: Seq<char> },
}

impl View for FsEvent {
    type V = EventV;

    open spec fn view(&self) -> EventV {
        match self {
            FsEvent::Created { path } => EventV::Created { path: path@ },
            FsEvent::Removed { path } => EventV::Removed { path: path@ },
            FsEvent::Modified { path } => EventV::Modified { path: path@ },
            FsEvent::RenamedFrom { path } => EventV::RenamedFrom { path: path@ },
            FsEvent::RenamedTo { path } => EventV::RenamedTo { path: path@ },
            FsEvent::RenamedBoth { from, to } => EventV::RenamedBoth { from: from@, to: to@ },
        }
    }
}

pub open spec fn opt_entry(dirs: Seq<DirV>, path: Seq<char>, raw: Option<RawV>) -> Option<EntryV> {
    match raw {
        Option::None => Option::None,
        Option::Some(r) => spec_make_entry(dirs, path, r),
    }
}

/// The index after one filesystem change event. A creation, modification or
/// rename target carries the new parse outcome of the file it names;
/// removals and rename sources only drop the old record.
pub open spec fn spec_apply(v: IndexV, ev: EventV, raw: Option<RawV>) -> IndexV {
    match ev {
        EventV::Created { path } => spec_upsert(v, path, opt_entry(v.dirs, path, raw)),
        EventV::Modified { path } => spec_upsert(v, path, opt_entry(v.dirs, path, raw)),
        EventV::RenamedTo { path } => spec_upsert(v, path, opt_entry(v.dirs, path, raw)),
        EventV::Removed { path } => spec_remove(v, path),
        EventV::RenamedFrom { path } => spec_remove(v, path),
        EventV::RenamedBoth { from, to } => spec_upsert(
            spec_remove(v, from),
            to,
            opt_entry(v.dirs, to, raw),
        ),
    }
}

pub proof fn lemma_apply_wf(v: IndexV, ev: EventV, raw: Option<RawV>)
    requires
        index_wf(v),
    ensures
        index_wf(spec_apply(v, ev, raw)),
{
    match ev {
        EventV::Created { path } => lemma_upsert_wf(v, path, opt_entry(v.dirs, path, raw)),
        EventV::Modified { path } => lemma_upsert_wf(v, path, opt_entry(v.dirs, path, raw)),
        EventV::RenamedTo { path } => lemma_upsert_wf(v, path, opt_entry(v.dirs, path, raw)),
        EventV::Removed { path } => lemma_remove_wf(v, path),
        EventV::RenamedFrom { path } => lemma_remove_wf(v, path),
        EventV::RenamedBoth { from, to } => {
            lemma_remove_wf(v, from);
            lemma_upsert_wf(spec_remove(v, from), to, opt_entry(v.dirs, to, raw));
        },
    }
}

/// One source file offered to a full rebuild.
#[derive(Debug)]
pub struct Candidate {
    pub path: String,
    pub raw: RawEntry,
}

pub ghost struct CandV {
    pub path: Seq<char>,
    pub raw: RawV,
}

impl View for Candidate {
    type V = CandV;

    open spec fn view(&self) -> CandV {
        CandV { path: self.path@, raw: self.raw@ }
    }
}

pub open spec fn cands_view(s: Seq<Candidate>) -> Seq<CandV> {
    s.map_values(|c: Candidate| c@)
}

/// The index a full rebuild produces: every offered file folded, in order,
/// into an index that starts empty.
pub open spec fn spec_load(dirs: Seq<DirV>, files: Seq<CandV>) -> IndexV
    decreases files.len(),
{
    if files.len() == 0 {
        IndexV { dirs: dirs, active: Seq::empty(), shadowed: Seq::empty() }
    } else {
        let prev = spec_load(dirs, files.drop_last());
        let f = files.last();
        spec_upsert(prev, f.path, opt_entry(dirs, f.path, Option::Some(f.raw)))
    }
}

pub proof fn lemma_load_dirs(dirs: Seq<DirV>, files: Seq<CandV>)
    ensures
        spec_load(dirs, files).dirs == dirs,
    decreases files.len(),
{
    if files.len() > 0 {
        lemma_load_dirs(dirs, files.drop_last());
    }
}

pub proof fn lemma_load_wf(dirs: Seq<DirV>, files: Seq<CandV>)
    ensures
        index_wf(spec_load(dirs, files)),
    decreases files.len(),
{
    if files.len() > 0 {
        let prev = spec_load(dirs, files.drop_last());
        lemma_load_wf(dirs, files.drop_last());
        lemma_load_dirs(dirs, files.drop_last());
        let f = files.last();
        lemma_upsert_wf(prev, f.path, opt_entry(dirs, f.path, Option::Some(f.raw)));
    }
}

fn find_id_index(s: &Vec<AppEntry>, id: &str) -> (r: Option<usize>)
    ensures
        find_by_id(entries_view(s@), id@) == match r {
            Option::None => -1,
            Option::Some(i) => i as int,
        },
        r is Some ==> r->0 < s@.len(),
{
    proof {
        lemma_find_by_id_props(entries_view(s@), id@);
    }
    let n = s.len();
    let mut i: usize = 0;
    while i < n
        invariant
            0 <= i <= n,
            n == s@.len(),
            forall|k: int| 0 <= k < i ==> entries_view(s@)[k].id != id@,
            -1 <= find_by_id(entries_view(s@), id@) < s@.len(),
            find_by_id(entries_view(s@), id@) >= 0 ==> entries_view(s@)[find_by_id(
                entries_view(s@),
                id@,
            )].id == id@,
            forall|k: int|
                0 <= k < find_by_id(entries_view(s@), id@) ==> entries_view(s@)[k].id != id@,
            find_by_id(entries_view(s@), id@) == -1 ==> forall|k: int|
                0 <= k < s@.len() ==> entries_view(s@)[k].id != id@,
        decreases n - i,
    {
        if str_eq(s[i].id.as_str(), id) {
            proof {
                assert(entries_view(s@)[i as int].id == id@);
            }
            return Some(i);
        }
        i = i + 1;
    }
    None
}

fn find_path_index(s: &Vec<AppEntry>, path: &str) -> (r: Option<usize>)
    ensures
        find_by_path(entries_view(s@), path@) == match r {
            Option::None => -1,
            Option::Some(i) => i as int,
        },
        r is Some ==> r->0 < s@.len(),
{
    proof {
        lemma_find_by_path_props(entries_view(s@), path@);
    }
    let n = s.len();
    let mut i: usize = 0;
    while i < n
        invariant
            0 <= i <= n,
            n == s@.len(),
            forall|k: int| 0 <= k < i ==> entries_view(s@)[k].path != path@,
            -1 <= find_by_path(entries_view(s@), path@) < s@.len(),
            find_by_path(entries_view(s@), path@) >= 0 ==> entries_view(s@)[find_by_path(
                entries_view(s@),
                path@,
            )].path == path@,
            forall|k: int|
                0 <= k < find_by_path(entries_view(s@), path@) ==> entries_view(s@)[k].path
                    != path@,
            find_by_path(entries_view(s@), path@) == -1 ==> forall|k: int|
                0 <= k < s@.len() ==> entries_view(s@)[k].path != path@,
        decreases n - i,
    {
        if str_eq(s[i].path.as_str(), path) {
            proof {
                assert(entries_view(s@)[i as int].path == path@);
            }
            return Some(i);
        }
        i = i + 1;
    }
    None
}

fn best_shadowed_index(s: &Vec<AppEntry>, id: &str) -> (r: Option<usize>)
    ensures
        best_shadowed(entries_view(s@), id@) == match r {
            Option::None => -1,
            Option::Some(i) => i as int,
        },
        r is Some ==> r->0 < s@.len(),
{
    let ghost sv = entries_view(s@);
    proof {
        lemma_best_shadowed_props(sv, id@);
    }
    let n = s.len();
    let mut i: usize = 0;
    let mut best: Option<usize> = None;
    while i < n
        invariant
            0 <= i <= n,
            n == s@.len(),
            sv == entries_view(s@),
            match best {
                Option::None => forall|k: int| 0 <= k < i ==> sv[k].id != id@,
                Option::Some(m) => {
                    &&& m < i
                    &&& sv[m as int].id == id@
                    &&& forall|k: int|
                        0 <= k < i && sv[k].id == id@ ==> sv[m as int].priority <= sv[k].priority
                    &&& forall|k: int|
                        0 <= k < m && sv[k].id == id@ ==> sv[m as int].priority < sv[k].priority
                },
            },
        decreases n - i,
    {
        let better = match best {
            None => str_eq(s[i].id.as_str(), id),
            Some(m) => str_eq(s[i].id.as_str(), id) && s[i].priority < s[m].priority,
        };
        if better {
            best = Some(i);
        }
        i = i + 1;
    }
    proof {
        let b = best_shadowed(sv, id@);
        match best {
            Option::None => {
                assert(b == -1) by {
                    if b >= 0 {
                        assert(sv[b].id != id@);
                    }
                }
            },
            Option::Some(m) => {
                assert(b >= 0);
                if m < b {
                    assert(sv[b].priority < sv[m as int].priority);
                    assert(sv[m as int].priority <= sv[b].priority);
                    assert(false);
                } else if b < m {
                    assert(sv[m as int].priority < sv[b].priority);
                    assert(sv[b].priority <= sv[m as int].priority);
                    assert(false);
                }
            },
        }
    }
    best
}

fn dir_contains_exec(dir: &str, path: &str) -> (r: bool)
    ensures
        r == dir_contains(dir@, path@),
{
    if !crate::text::str_starts_with(path, dir) {
        return false;
    }
    let dl = dir.unicode_len();
    let pl = path.unicode_len();
    if pl <= dl {
        return false;
    }
    path.get_char(dl) == '/'
}

/// Finds the position and origin tag of the first precedence-list directory
/// containing `path`; a path under no watched directory gets the worst
/// priority and the native origin.
fn locate_dir(dirs: &Vec<SourceDir>, path: &str) -> (r: (usize, Origin))
    ensures
        r.0 as int == spec_priority(dirs_view(dirs@), path@),
        r.1 == spec_origin(dirs_view(dirs@), path@),
{
    let ghost dv = dirs_view(dirs@);
    proof {
        lemma_priority_props(dv, path@);
    }
    let n = dirs.len();
    let mut i: usize = 0;
    while i < n
        invariant
            0 <= i <= n,
            n == dirs@.len(),
            dv == dirs_view(dirs@),
            forall|k: int| 0 <= k < i ==> !dir_contains(dv[k].path, path@),
            0 <= spec_priority(dv, path@) <= dv.len(),
            spec_priority(dv, path@) < dv.len() ==> dir_contains(
                dv[spec_priority(dv, path@)].path,
                path@,
            ) && spec_origin(dv, path@) == dv[spec_priority(dv, path@)].origin,
            forall|k: int| 0 <= k < spec_priority(dv, path@) ==> !dir_contains(dv[k].path, path@),
            spec_priority(dv, path@) == dv.len() ==> spec_origin(dv, path@) == Origin::Native,
        decreases n - i,
    {
        if dir_contains_exec(dirs[i].path.as_str(), path) {
            proof {
                assert(dir_contains(dv[i as int].path, path@));
            }
            return (i, dirs[i].origin);
        }
        i = i + 1;
    }
    (n, Origin::Native)
}

/// Builds an indexed entry from one parsed source file, deriving the
/// identifier from the file name and the priority and origin from the
/// precedence list; an unusable file yields nothing.
pub fn make_entry(dirs: &Vec<SourceDir>, path: String, raw: RawEntry) -> (r: Option<AppEntry>)
    ensures
        match r {
            Option::None => spec_make_entry(dirs_view(dirs@), path@, raw@) is None,
            Option::Some(e) => spec_make_entry(dirs_view(dirs@), path@, raw@) == Option::Some(e@),
        },
{
    let RawEntry { no_display, name, generic_name, comment, exec_cmd, icon, keywords, terminal } =
        raw;
    if no_display {
        return None;
    }
    let name = match name {
        Some(n) => n,
        None => {
            return None;
        },
    };
    let exec_cmd = match exec_cmd {
        Some(x) => x,
        None => {
            return None;
        },
    };
    let id = crate::text::stem_of(path.as_str());
    let (priority, origin) = locate_dir(dirs, path.as_str());
    let icon = match icon {
        Some(i) => i,
        None => String::from_str("application-x-executable"),
    };
    Some(
        AppEntry {
            id,
            path,
            name,
            generic_name,
            comment,
            exec_cmd,
            icon,
            keywords,
            terminal,
            launch_count: 0,
            priority,
            origin,
        },
    )
}

proof fn lemma_entries_view_push(s: Seq<AppEntry>, e: AppEntry)
    ensures
        entries_view(s.push(e)) =~= entries_view(s).push(e@),
{
}

proof fn lemma_entries_view_remove(s: Seq<AppEntry>, i: int)
    requires
        0 <= i < s.len(),
    ensures
        entries_view(s.remove(i)) =~= entries_view(s).remove(i),
{
    assert forall|k: int| 0 <= k < s.len() - 1 implies entries_view(s.remove(i))[k] == entries_view(
        s,
    ).remove(i)[k] by {
        if k < i {
            assert(s.remove(i)[k] == s[k]);
        } else {
            assert(s.remove(i)[k] == s[k + 1]);
        }
    }
}

fn clone_string_opt(o: &Option<String>) -> (r: Option<String>)
    ensures
        r.deep_view() == o.deep_view(),
{
    match o {
        Some(s) => Some(s.clone()),
        None => None,
    }
}

fn clone_strings(v: &Vec<String>) -> (r: Vec<String>)
    ensures
        r.deep_view() == v.deep_view(),
{
    let mut r: Vec<String> = Vec::new();
    let n = v.len();
    let mut i: usize = 0;
    while i < n
        invariant
            0 <= i <= n,
            n == v@.len(),
            r@.len() == i,
            forall|k: int| 0 <= k < i ==> r@[k]@ == v@[k]@,
        decreases n - i,
    {
        let x = v[i].clone();
        assert(x@ == v@[i as int]@);
        r.push(x);
        i = i + 1;
    }
    assert forall|k: int| 0 <= k < n implies r.deep_view()[k] == v.deep_view()[k] by {
        assert(r.deep_view()[k] == r@[k]@);
        assert(v.deep_view()[k] == v@[k]@);
    }
    assert(r.deep_view() =~= v.deep_view());
    r
}

/// Copies one entry; the copy has the same view.
pub fn clone_entry(e: &AppEntry) -> (r: AppEntry)
    ensures
        r@ == e@,
{
    AppEntry {
        id: e.id.clone(),
        path: e.path.clone(),
        name: e.name.clone(),
        generic_name: clone_string_opt(&e.generic_name),
        comment: clone_string_opt(&e.comment),
        exec_cmd: e.exec_cmd.clone(),
        icon: e.icon.clone(),
        keywords: clone_strings(&e.keywords),
        terminal: e.terminal,
        launch_count: e.launch_count,
        priority: e.priority,
        origin: e.origin,
    }
}

/// The precedence-aware application cache.
pub struct ApplicationIndex {
    dirs: Vec<SourceDir>,
    active: Vec<AppEntry>,
    shadowed: Vec<AppEntry>,
}

impl View for ApplicationIndex {
    type V = IndexV;

    closed spec fn view(&self) -> IndexV {
        IndexV {
            dirs: dirs_view(self.dirs@),
            active: entries_view(self.active@),
            shadowed: entries_view(self.shadowed@),
        }
    }
}

impl ApplicationIndex {
    pub open spec fn wf(&self) -> bool {
        index_wf(self@)
    }

    /// An empty index watching no directories.
    pub fn new() -> (r: Self)
        ensures
            r@.dirs =~= Seq::<DirV>::empty(),
            r@.active =~= Seq::<EntryV>::empty(),
            r@.shadowed =~= Seq::<EntryV>::empty(),
            r.wf(),
    {
        let r = ApplicationIndex { dirs: Vec::new(), active: Vec::new(), shadowed: Vec::new() };
        r
    }

    /// Installs an entry whose source file is not yet recorded.
    fn install(&mut self, e: AppEntry)
        requires
            old(self).wf(),
            entry_consistent(old(self)@.dirs, e@),
            !has_path(old(self)@, e@.path),
        ensures
            final(self)@ == spec_install(old(self)@, e@),
            final(self).wf(),
    {
        proof {
            lemma_install_wf(old(self)@, e@);
        }
        let ghost v0 = self@;
        match find_id_index(&self.active, e.id.as_str()) {
            None => {
                proof {
                    lemma_entries_view_push(self.active@, e);
                }
                self.active.push(e);
                assert(self@.active =~= spec_install(v0, e@).active);
                assert(self@.shadowed =~= spec_install(v0, e@).shadowed);
            },
            Some(i) => {
                if self.active[i].priority >= e.priority {
                    let prev = self.active.remove(i);
                    self.active.insert(i, e);
                    self.shadowed.push(prev);
                    assert(self@.active =~= v0.active.update(i as int, e@)) by {
                        assert(forall|k: int|
                            0 <= k < self.active@.len() ==> self@.active[k] == self.active@[k]@);
                    }
                    assert(self@.shadowed =~= v0.shadowed.push(v0.active[i as int]));
                } else {
                    proof {
                        lemma_entries_view_push(self.shadowed@, e);
                    }
                    self.shadowed.push(e);
                    assert(self@.active =~= spec_install(v0, e@).active);
                    assert(self@.shadowed =~= spec_install(v0, e@).shadowed);
                }
            },
        }
        assert(self@.dirs =~= spec_install(v0, e@).dirs);
        assert(self@.active =~= spec_install(v0, e@).active);
        assert(self@.shadowed =~= spec_install(v0, e@).shadowed);
    }

    /// Drops the record for `path`, promoting the best shadowed sibling when
    /// the active entry goes away.
    fn remove_path(&mut self, path: &str)
        requires
            old(self).wf(),
        ensures
            final(self)@ == spec_remove(old(self)@, path@),
            final(self).wf(),
    {
        proof {
            lemma_remove_wf(old(self)@, path@);
        }
        let ghost v0 = self@;
        match find_path_index(&self.active, path) {
            Some(i) => {
                proof {
                    lemma_entries_view_remove(self.active@, i as int);
                }
                let removed = self.active.remove(i);
                match best_shadowed_index(&self.shadowed, removed.id.as_str()) {
                    Some(j) => {
                        proof {
                            lemma_entries_view_remove(self.shadowed@, j as int);
                        }
                        let promoted = self.shadowed.remove(j);
                        proof {
                            lemma_entries_view_push(self.active@, promoted);
                        }
                        self.active.push(promoted);
                        assert(self@.active =~= spec_remove(v0, path@).active);
                        assert(self@.shadowed =~= spec_remove(v0, path@).shadowed);
                    },
                    None => {
                        assert(self@.active =~= spec_remove(v0, path@).active);
                        assert(self@.shadowed =~= spec_remove(v0, path@).shadowed);
                    },
                }
            },
            None => {
                match find_path_index(&self.shadowed, path) {
                    Some(k) => {
                        proof {
                            lemma_entries_view_remove(self.shadowed@, k as int);
                        }
                        self.shadowed.remove(k);
                        assert(self@.active =~= spec_remove(v0, path@).active);
                        assert(self@.shadowed =~= spec_remove(v0, path@).shadowed);
                    },
                    None => {
                        assert(self@.active =~= spec_remove(v0, path@).active);
                        assert(self@.shadowed =~= spec_remove(v0, path@).shadowed);
                    },
                }
            },
        }
        assert(self@.dirs =~= spec_remove(v0, path@).dirs);
    }

    /// Replaces in place the record parsed from `path`.
    fn replace_entry(&mut self, path: &str, e: AppEntry)
        requires
            old(self).wf(),
            entry_consistent(old(self)@.dirs, e@),
            e@.path == path@,
        ensures
            final(self)@ == spec_replace(old(self)@, path@, e@),
            final(self).wf(),
    {
        proof {
            lemma_replace_wf(old(self)@, path@, e@);
        }
        let ghost v0 = self@;
        match find_path_index(&self.active, path) {
            Some(i) => {
                self.active.remove(i);
                self.active.insert(i, e);
                assert(self@.active =~= v0.active.update(i as int, e@)) by {
                    assert(forall|k: int|
                        0 <= k < self.active@.len() ==> self@.active[k] == self.active@[k]@);
                }
                assert(self@.shadowed =~= spec_replace(v0, path@, e@).shadowed);
            },
            None => {
                match find_path_index(&self.shadowed, path) {
                    Some(k) => {
                        self.shadowed.remove(k);
                        self.shadowed.insert(k, e);
                        assert(self@.shadowed =~= v0.shadowed.update(k as int, e@)) by {
                            assert(forall|m: int|
                                0 <= m < self.shadowed@.len() ==> self@.shadowed[m]
                                    == self.shadowed@[m]@);
                        }
                        assert(self@.active =~= spec_replace(v0, path@, e@).active);
                    },
                    None => {
                        assert(self@.active =~= spec_replace(v0, path@, e@).active);
                        assert(self@.shadowed =~= spec_replace(v0, path@, e@).shadowed);
                    },
                }
            },
        }
        assert(self@.dirs =~= spec_replace(v0, path@, e@).dirs);
    }

    /// Folds one file's parse outcome into the index.
    fn upsert(&mut self, path: String, raw: Option<RawEntry>)
        requires
            old(self).wf(),
        ensures
            final(self)@ == spec_upsert(
                old(self)@,
                path@,
                opt_entry(old(self)@.dirs, path@, opt_raw_view(raw)),
            ),
            final(self).wf(),
    {
        let ghost v0 = self@;
        let ghost parsed_spec = opt_entry(v0.dirs, path@, opt_raw_view(raw));
        let parsed = match raw {
            None => None,
            Some(r) => make_entry(&self.dirs, path.clone(), r),
        };
        match parsed {
            None => {
                self.remove_path(path.as_str());
            },
            Some(e) => {
                assert(parsed_spec == Option::Some(e@));
                assert(entry_consistent(v0.dirs, e@) && e@.path == path@);
                let in_active = find_path_index(&self.active, path.as_str());
                let in_shadowed = find_path_index(&self.shadowed, path.as_str());
                if in_active.is_some() || in_shadowed.is_some() {
                    assert(has_path(v0, path@));
                    self.replace_entry(path.as_str(), e);
                } else {
                    assert(!has_path(v0, path@));
                    self.install(e);
                }
            },
        }
    }

    /// Full rebuild: replaces the precedence list and folds every offered
    /// file, in order, into an index that starts empty.
    pub fn load(&mut self, dirs: Vec<SourceDir>, files: Vec<Candidate>)
        ensures
            final(self)@ == spec_load(dirs_view(dirs@), cands_view(files@)),
            final(self).wf(),
    {
        let ghost dv = dirs_view(dirs@);
        let ghost fv = cands_view(files@);
        proof {
            lemma_load_wf(dv, fv);
        }
        self.dirs = dirs;
        self.active = Vec::new();
        self.shadowed = Vec::new();
        assert(self@.active =~= Seq::<EntryV>::empty());
        assert(self@.shadowed =~= Seq::<EntryV>::empty());
        assert(self@ == spec_load(dv, fv.subrange(0, 0))) by {
            assert(fv.subrange(0, 0) =~= Seq::<CandV>::empty());
        }
        let mut files = files;
        let n = files.len();
        let mut i: usize = 0;
        while i < n
            invariant
                0 <= i <= n,
                n == fv.len(),
                files@.len() == n - i,
                cands_view(files@) =~= fv.subrange(i as int, n as int),
                self@ == spec_load(dv, fv.subrange(0, i as int)),
                self@.dirs == dv,
                self.wf(),
            decreases n - i,
        {
            let ghost pf = cands_view(files@);
            let c = files.remove(0);
            proof {
                assert(pf[0] == fv.subrange(i as int, n as int)[0]);
                assert(c@ == pf[0]);
                assert(cands_view(files@) =~= pf.drop_first());
                assert(pf.drop_first() =~= fv.subrange(i + 1, n as int));
            }
            let Candidate { path, raw } = c;
            self.upsert(path, Some(raw));
            proof {
                lemma_load_dirs(dv, fv.subrange(0, i as int));
                assert(fv.subrange(0, i + 1).drop_last() =~= fv.subrange(0, i as int));
                assert(fv.subrange(0, i + 1).last() == fv[i as int]);
            }
            i = i + 1;
        }
        proof {
            assert(fv.subrange(0, n as int) =~= fv);
        }
    }

    /// Folds one filesystem change event into the index. `raw` is the parse
    /// outcome of the file the event creates, modifies or renames to;
    /// removals ignore it.
    pub fn apply_event(&mut self, event: FsEvent, raw: Option<RawEntry>)
        requires
            old(self).wf(),
        ensures
            final(self)@ == spec_apply(old(self)@, event@, opt_raw_view(raw)),
            final(self).wf(),
    {
        let ghost v0 = self@;
        let ghost rv = opt_raw_view(raw);
        match event {
            FsEvent::Created { path } => {
                self.upsert(path, raw);
            },
            FsEvent::Modified { path } => {
                self.upsert(path, raw);
            },
            FsEvent::RenamedTo { path } => {
                self.upsert(path, raw);
            },
            FsEvent::Removed { path } => {
                self.remove_path(path.as_str());
            },
            FsEvent::RenamedFrom { path } => {
                self.remove_path(path.as_str());
            },
            FsEvent::RenamedBoth { from, to } => {
                self.remove_path(from.as_str());
                assert(self@.dirs == v0.dirs);
                self.upsert(to, raw);
            },
        }
    }

    /// Point-in-time copy of the active entries.
    pub fn snapshot(&self) -> (r: Vec<AppEntry>)
        ensures
            entries_view(r@) == self@.active,
    {
        let mut r: Vec<AppEntry> = Vec::new();
        let n = self.active.len();
        let mut i: usize = 0;
        while i < n
            invariant
                0 <= i <= n,
                n == self.active@.len(),
                entries_view(r@) =~= entries_view(self.active@).subrange(0, i as int),
            decreases n - i,
        {
            let e = clone_entry(&self.active[i]);
            proof {
                lemma_entries_view_push(r@, e);
            }
            r.push(e);
            assert(entries_view(r@) =~= entries_view(self.active@).subrange(0, i + 1));
            i = i + 1;
        }
        assert(entries_view(self.active@).subrange(0, n as int) =~= entries_view(self.active@));
        r
    }

    /// Point lookup of the active entry for an identifier.
    pub fn get(&self, id: &str) -> (r: Option<&AppEntry>)
        ensures
            match r {
                Option::None => !has_active(self@, id@),
                Option::Some(e) => has_active(self@, id@) && e@ == active_of(self@, id@),
            },
    {
        match find_id_index(&self.active, id) {
            Some(i) => Some(&self.active[i]),
            None => None,
        }
    }

    /// Whether a directory-creation event concerns one of the watched
    /// application directories, so that a late-appearing directory (a
    /// sandboxed-app-format location, say) gets a full rescan.
    pub fn is_watched_dir(&self, path: &str) -> (r: bool)
        ensures
            r == exists|i: int| 0 <= i < self@.dirs.len() && (#[trigger] self@.dirs[i]).path
                == path@,
    {
        let n = self.dirs.len();
        let mut i: usize = 0;
        while i < n
            invariant
                0 <= i <= n,
                n == self.dirs@.len(),
                forall|k: int| 0 <= k < i ==> (#[trigger] self@.dirs[k]).path != path@,
            decreases n - i,
        {
            if str_eq(self.dirs[i].path.as_str(), path) {
                assert(self@.dirs[i as int].path == path@);
                return true;
            }
            i = i + 1;
        }
        false
    }

    /// How many identifiers are currently active.
    pub fn len(&self) -> (r: usize)
        ensures
            r == self@.active.len(),
    {
        self.active.len()
    }
}

/// Precedence law: in a well-formed index every shadowed record is
/// outranked (or tied) by the active entry for its identifier, so the
/// active entry always comes from the best-priority file present.
pub proof fn lemma_active_entry_is_best(v: IndexV, i: int)
    requires
        index_wf(v),
        0 <= i < v.shadowed.len(),
    ensures
        has_active(v, v.shadowed[i].id),
        active_of(v, v.shadowed[i].id).id == v.shadowed[i].id,
        active_of(v, v.shadowed[i].id).priority <= v.shadowed[i].priority,
{
    let id = v.shadowed[i].id;
    let j = choose|j: int|
        0 <= j < v.active.len() && v.active[j].id == id && v.active[j].priority <= v.shadowed[
            i
        ].priority;
    lemma_find_by_id_props(v.active, id);
    let f = find_by_id(v.active, id);
    assert(f >= 0);
    if f != j {
        assert(v.active[f].id == v.active[j].id);
        assert(false);
    }
}

/// No-duplicate law: a well-formed index never holds two active entries for
/// one identifier, so a snapshot lists every identifier at most once.
pub proof fn lemma_active_ids_unique(v: IndexV, i: int, j: int)
    requires
        index_wf(v),
        0 <= i < j < v.active.len(),
    ensures
        v.active[i].id != v.active[j].id,
{
}

/// Promotion law: removing the active source file of an identifier that
/// still has a shadowed sibling leaves the identifier active, served by the
/// best-priority shadowed record, without any rescan.
pub proof fn lemma_removal_promotes_shadowed(v: IndexV, path: Seq<char>, i: int, k: int)
    requires
        index_wf(v),
        0 <= i < v.active.len(),
        v.active[i].path == path,
        0 <= k < v.shadowed.len(),
        v.shadowed[k].id == v.active[i].id,
    ensures
        has_active(spec_remove(v, path), v.active[i].id),
        exists|j: int|
            0 <= j < v.shadowed.len() && v.shadowed[j].id == v.active[i].id && active_of(
                spec_remove(v, path),
                v.active[i].id,
            ) == v.shadowed[j],
        forall|m: int|
            0 <= m < v.shadowed.len() && v.shadowed[m].id == v.active[i].id ==> active_of(
                spec_remove(v, path),
                v.active[i].id,
            ).priority <= v.shadowed[m].priority,
{
    let id = v.active[i].id;
    lemma_find_by_path_props(v.active, path);
    let f = find_by_path(v.active, path);
    assert(f >= 0);
    if f != i {
        assert(v.active[f].path == v.active[i].path);
        assert(false);
    }
    lemma_best_shadowed_props(v.shadowed, id);
    let b = best_shadowed(v.shadowed, id);
    assert(b >= 0);
    let v2 = spec_remove(v, path);
    lemma_remove_wf(v, path);
    let act = v.active.remove(i);
    assert(v2.active == act.push(v.shadowed[b]));
    assert(v2.active[act.len() as int] == v.shadowed[b]);
    lemma_find_by_id_props(v2.active, id);
    let f2 = find_by_id(v2.active, id);
    assert(f2 >= 0);
    if f2 != act.len() as int {
        assert(v2.active[f2].id == v2.active[act.len() as int].id);
        assert(false);
    }
    assert(active_of(v2, id) == v.shadowed[b]);
}

/// Determinism law behind rebuild idempotence: a rebuild's outcome is a
/// function of the directory list and the offered files alone, so repeating
/// it with unchanged inputs reproduces an identical active-entry set.
pub proof fn lemma_load_deterministic(d: Seq<DirV>, f: Seq<CandV>, v1: IndexV, v2: IndexV)
    requires
        v1 == spec_load(d, f),
        v2 == spec_load(d, f),
    ensures
        v1.active == v2.active,
        v1.shadowed == v2.shadowed,
{
}

/// The view of an optional parse outcome.
pub open spec fn opt_raw_view(raw: Option<RawEntry>) -> Option<RawV> {
    match raw {
        Option::None => Option::None,
        Option::Some(r) => Option::Some(r@),
    }
}

} // verus!
