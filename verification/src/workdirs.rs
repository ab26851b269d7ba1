//! The list of working directories: which one is selected, which were
//! used before, and what became of each. Paths are compared by a key: the
//! normalized path, lowercased on systems whose paths ignore case. What the
//! file system says of a path (its normalized form, whether it is a
//! directory) is handed in by the caller.

use vstd::prelude::*;
use crate::i18n::Text;
use crate::config::Language;
use crate::textutil::{ascii_lower_seq, chars_eq, chars_of, lower_chars, push_str, string_of};

verus! {

/// The name of the file that holds the list, in the control directory.
pub const STATE_FILE_NAME: &'static str = "workdirs.json";

/// What became of a directory that the user deleted from the list's window.
#[derive(Clone, Copy, Debug, PartialEq, Eq, Structural)]
pub enum DeletionMarker {
    Trashed,
    Deleted,
}

/// One directory of the list.
#[derive(Debug)]
pub struct WorkdirEntry {
    pub root: String,
    pub deletion: Option<DeletionMarker>,
}

/// The list: the selected directory and every directory used before.
#[derive(Debug)]
pub struct WorkdirState {
    pub selected_root: Option<String>,
    pub entries: Vec<WorkdirEntry>,
}

/// What the file system says of a stored path: its normalized form and
/// whether that is a directory.
#[derive(Debug)]
pub struct RootFacts {
    pub normalized: String,
    pub is_dir: bool,
}

/// How a directory of the list stands.
#[derive(Clone, Copy, Debug, PartialEq, Eq, Structural)]
pub enum WorkdirAvailability {
    Available,
    Trashed,
    Deleted,
    Missing,
}

/// Whether adding a directory added it or found it already listed.
#[derive(Clone, Copy, Debug, PartialEq, Eq, Structural)]
pub enum AddWorkdirResult {
    Added,
    AlreadyExists,
}

/// The key by which normalized paths are compared.
pub open spec fn key_of(path: Seq<char>, case_insensitive: bool) -> Seq<char> {
    if case_insensitive {
        ascii_lower_seq(path)
    } else {
        path
    }
}

/// The key of a normalized path: itself, lowercased when paths ignore case.
pub fn path_key(normalized: &str, case_insensitive: bool) -> (r: String)
    ensures
        r@ == key_of(normalized@, case_insensitive),
{
    let v = chars_of(normalized);
    if case_insensitive {
        let l = lower_chars(&v);
        string_of(&l)
    } else {
        string_of(&v)
    }
}

/// Whether two normalized paths name the same directory.
pub fn same_path(left: &str, right: &str, case_insensitive: bool) -> (r: bool)
    ensures
        r == (key_of(left@, case_insensitive) == key_of(right@, case_insensitive)),
{
    let a = chars_of(path_key(left, case_insensitive).as_str());
    let b = chars_of(path_key(right, case_insensitive).as_str());
    chars_eq(&a, &b)
}

/// The file that holds the list.
pub open spec fn state_path_text(control: Seq<char>) -> Seq<char> {
    crate::pathutil::join_path(control, STATE_FILE_NAME@)
}

/// The file that holds the list, in the control directory.
pub fn state_path(control: &str) -> (r: String)
    ensures
        r@ == state_path_text(control@),
{
    let c = chars_of(control);
    let n = chars_of(STATE_FILE_NAME);
    let j = crate::pathutil::join_chars(&c, &n);
    string_of(&j)
}

/// How a directory stands: available when it is a directory, else by what
/// the user did to it, else missing.
pub open spec fn availability_of(entry: WorkdirEntry, is_dir: bool) -> WorkdirAvailability {
    if is_dir {
        WorkdirAvailability::Available
    } else {
        match entry.deletion {
            Some(DeletionMarker::Trashed) => WorkdirAvailability::Trashed,
            Some(DeletionMarker::Deleted) => WorkdirAvailability::Deleted,
            None => WorkdirAvailability::Missing,
        }
    }
}

/// How a directory stands (see `availability_of`); `is_dir` says whether
/// its root is a directory.
pub fn availability(entry: &WorkdirEntry, is_dir: bool) -> (r: WorkdirAvailability)
    ensures
        r == availability_of(*entry, is_dir),
{
    if is_dir {
        return WorkdirAvailability::Available;
    }
    match entry.deletion {
        Some(DeletionMarker::Trashed) => WorkdirAvailability::Trashed,
        Some(DeletionMarker::Deleted) => WorkdirAvailability::Deleted,
        None => WorkdirAvailability::Missing,
    }
}

/// An entry as plain values.
pub open spec fn entry_view(e: WorkdirEntry) -> (Seq<char>, Option<DeletionMarker>) {
    (e.root@, e.deletion)
}

/// The entries as plain values.
pub open spec fn entries_view(es: Seq<WorkdirEntry>) -> Seq<(Seq<char>, Option<DeletionMarker>)> {
    es.map_values(|e: WorkdirEntry| entry_view(e))
}

/// Whether `k` is the first entry whose key is that of `root`.
pub open spec fn first_with_key(
    entries: Seq<(Seq<char>, Option<DeletionMarker>)>,
    root: Seq<char>,
    ci: bool,
    k: int,
) -> bool {
    &&& 0 <= k < entries.len()
    &&& key_of(entries[k].0, ci) == key_of(root, ci)
    &&& forall|j: int| 0 <= j < k ==> key_of((#[trigger] entries[j]).0, ci) != key_of(root, ci)
}

/// The first entry whose key is that of `root`.
pub open spec fn entry_position(
    entries: Seq<(Seq<char>, Option<DeletionMarker>)>,
    root: Seq<char>,
    ci: bool,
) -> Option<int> {
    if exists|k: int| first_with_key(entries, root, ci, k) {
        Some(choose|k: int| first_with_key(entries, root, ci, k))
    } else {
        None
    }
}

proof fn lemma_first_with_key_unique(
    entries: Seq<(Seq<char>, Option<DeletionMarker>)>,
    root: Seq<char>,
    ci: bool,
    k: int,
)
    requires
        first_with_key(entries, root, ci, k),
    ensures
        entry_position(entries, root, ci) == Some(k),
{
    let j = choose|j: int| first_with_key(entries, root, ci, j);
    if j < k {
        assert(key_of(entries[j].0, ci) != key_of(root, ci));
    } else if j > k {
        assert(key_of(entries[k].0, ci) != key_of(root, ci));
    }
}

/// Finds the first entry whose key is that of `root`.
fn find_entry(entries: &Vec<WorkdirEntry>, root: &str, ci: bool) -> (r: Option<usize>)
    ensures
        match r {
            Some(k) => entry_position(entries_view(entries@), root@, ci) == Some(k as int),
            None => entry_position(entries_view(entries@), root@, ci) is None,
        },
{
    let ghost ev = entries_view(entries@);
    let mut i: usize = 0;
    while i < entries.len()
        invariant
            i <= entries@.len(),
            ev == entries_view(entries@),
            forall|j: int| 0 <= j < i ==> key_of((#[trigger] ev[j]).0, ci) != key_of(root@, ci),
        decreases entries@.len() - i,
    {
        assert(ev[i as int].0 == entries@[i as int].root@);
        if same_path(entries[i].root.as_str(), root, ci) {
            proof {
                lemma_first_with_key_unique(ev, root@, ci, i as int);
            }
            return Some(i);
        }
        i = i + 1;
    }
    proof {
        if exists|k: int| first_with_key(ev, root@, ci, k) {
            let k = choose|k: int| first_with_key(ev, root@, ci, k);
            assert(key_of(ev[k].0, ci) == key_of(root@, ci));
        }
    }
    None
}

/// The entries after making sure the normalized `root` is listed: the first
/// entry with its key takes `root` as its path and, when `root` is a
/// directory, loses its deletion mark; with no such entry, `root` is
/// appended unmarked.
pub open spec fn ensured_entries(
    entries: Seq<(Seq<char>, Option<DeletionMarker>)>,
    root: Seq<char>,
    root_is_dir: bool,
    ci: bool,
) -> Seq<(Seq<char>, Option<DeletionMarker>)> {
    match entry_position(entries, root, ci) {
        Some(k) => entries.update(
            k,
            (
                root,
                if root_is_dir {
                    None
                } else {
                    entries[k].1
                },
            ),
        ),
        None => entries.push((root, None)),
    }
}

/// Whether making sure of `root` changes the list.
pub open spec fn ensure_changes(
    entries: Seq<(Seq<char>, Option<DeletionMarker>)>,
    root: Seq<char>,
    root_is_dir: bool,
    ci: bool,
) -> bool {
    match entry_position(entries, root, ci) {
        Some(k) => entries[k].0 != root || (root_is_dir && entries[k].1 is Some),
        None => true,
    }
}

/// Makes sure the normalized `root` is listed (see `ensured_entries`), and
/// says whether the list changed; `root_is_dir` says whether it is a
/// directory.
pub fn ensure_entry(state: &mut WorkdirState, root: &str, root_is_dir: bool, case_insensitive: bool) -> (changed: bool)
    ensures
        entries_view(final(state).entries@) == ensured_entries(
            entries_view(old(state).entries@),
            root@,
            root_is_dir,
            case_insensitive,
        ),
        changed == ensure_changes(entries_view(old(state).entries@), root@, root_is_dir, case_insensitive),
        final(state).selected_root == old(state).selected_root,
{
    match find_entry(&state.entries, root, case_insensitive) {
        Some(k) => {
            let ghost before = entries_view(state.entries@);
            let e = state.entries.remove(k);
            let same_root = chars_eq(&chars_of(e.root.as_str()), &chars_of(root));
            let marked = e.deletion.is_some();
            let deletion = if root_is_dir {
                None
            } else {
                e.deletion
            };
            state.entries.insert(k, WorkdirEntry { root: string_of(&chars_of(root)), deletion });
            assert(entries_view(state.entries@) =~= ensured_entries(
                before,
                root@,
                root_is_dir,
                case_insensitive,
            ));
            !same_root || (root_is_dir && marked)
        },
        None => {
            state.entries.push(WorkdirEntry { root: string_of(&chars_of(root)), deletion: None });
            assert(entries_view(state.entries@) =~= ensured_entries(
                entries_view(old(state).entries@),
                root@,
                root_is_dir,
                case_insensitive,
            ));
            true
        },
    }
}

/// What the file system says of each path, as plain values.
pub open spec fn facts_view(facts: Seq<RootFacts>) -> Seq<(Seq<char>, bool)> {
    facts.map_values(|f: RootFacts| (f.normalized@, f.is_dir))
}

/// An entry after normalization: its path's normalized form, unmarked when
/// that is a directory.
pub open spec fn normalized_view(
    e: (Seq<char>, Option<DeletionMarker>),
    f: (Seq<char>, bool),
) -> (Seq<char>, Option<DeletionMarker>) {
    (
        f.0,
        if f.1 {
            None
        } else {
            e.1
        },
    )
}

/// Whether an earlier entry already has the key of `v`.
pub open spec fn key_taken(es: Seq<(Seq<char>, Option<DeletionMarker>)>, v: Seq<char>, ci: bool) -> bool {
    exists|j: int| 0 <= j < es.len() && key_of((#[trigger] es[j]).0, ci) == key_of(v, ci)
}

/// The entries without those whose key an earlier entry has.
pub open spec fn dedup_by_key(es: Seq<(Seq<char>, Option<DeletionMarker>)>, ci: bool) -> Seq<
    (Seq<char>, Option<DeletionMarker>),
>
    decreases es.len(),
{
    if es.len() == 0 {
        Seq::empty()
    } else {
        let r = dedup_by_key(es.drop_last(), ci);
        if key_taken(r, es.last().0, ci) {
            r
        } else {
            r.push(es.last())
        }
    }
}

/// The entries after normalization, duplicates dropped.
pub open spec fn normalized_entries(
    es: Seq<(Seq<char>, Option<DeletionMarker>)>,
    facts: Seq<(Seq<char>, bool)>,
    ci: bool,
) -> Seq<(Seq<char>, Option<DeletionMarker>)> {
    dedup_by_key(normalized_views(es, facts), ci)
}

/// Each entry after normalization, duplicates kept.
pub open spec fn normalized_views(
    es: Seq<(Seq<char>, Option<DeletionMarker>)>,
    facts: Seq<(Seq<char>, bool)>,
) -> Seq<(Seq<char>, Option<DeletionMarker>)> {
    Seq::new(es.len(), |k: int| normalized_view(es[k], facts[k]))
}

/// Whether normalization changes entry `k`: its path, its mark, or whether
/// it stays.
pub open spec fn entry_changes(
    es: Seq<(Seq<char>, Option<DeletionMarker>)>,
    facts: Seq<(Seq<char>, bool)>,
    ci: bool,
    k: int,
) -> bool {
    ||| facts[k].0 != es[k].0
    ||| (facts[k].1 && es[k].1 is Some)
    ||| exists|j: int| 0 <= j < k && key_of((#[trigger] facts[j]).0, ci) == key_of(facts[k].0, ci)
}

/// Whether normalization changes any entry.
pub open spec fn entries_change(
    es: Seq<(Seq<char>, Option<DeletionMarker>)>,
    facts: Seq<(Seq<char>, bool)>,
    ci: bool,
) -> bool {
    exists|k: int| 0 <= k < es.len() && #[trigger] entry_changes(es, facts, ci, k)
}

/// The list after `normalize_state`: its entries, its selected path, and
/// whether anything changed.
pub open spec fn normalize_result(
    es: Seq<(Seq<char>, Option<DeletionMarker>)>,
    facts: Seq<(Seq<char>, bool)>,
    selected: Option<Seq<char>>,
    selected_facts: Option<(Seq<char>, bool)>,
    ci: bool,
) -> (Seq<(Seq<char>, Option<DeletionMarker>)>, Option<Seq<char>>, bool) {
    let mid = normalized_entries(es, facts, ci);
    let mid_changed = entries_change(es, facts, ci);
    match (selected, selected_facts) {
        (Some(s), Some(f)) => (
            ensured_entries(mid, f.0, f.1, ci),
            Some(f.0),
            mid_changed || f.0 != s || ensure_changes(mid, f.0, f.1, ci),
        ),
        _ => (mid, None, mid_changed),
    }
}

/// A selected path as plain values.
pub open spec fn selected_view(selected: Option<String>) -> Option<Seq<char>> {
    match selected {
        Some(s) => Some(s@),
        None => None,
    }
}

/// What the file system says of the selected path, as plain values.
pub open spec fn selected_facts_view(f: Option<RootFacts>) -> Option<(Seq<char>, bool)> {
    match f {
        Some(f) => Some((f.normalized@, f.is_dir)),
        None => None,
    }
}

/// Tidies the list with what the file system says of each entry
/// (`facts[k]` of entry `k`) and of the selected path (`selected_facts`):
/// each entry takes its normalized path and loses its deletion mark when it
/// is a directory; an entry whose key an earlier one has is dropped; the
/// selected path is normalized and made sure of (see `ensure_entry`).
/// Says whether anything changed: `false` only when nothing did, and, when
/// the facts read for the selected path agree with those of the entries
/// (`facts_agree`), `true` only when something did. Afterwards no two
/// entries share a key and the selected path is listed; the order kept is
/// stated by `lemma_normalized_list_is_tidy`.
pub fn normalize_state(
    state: &mut WorkdirState,
    facts: &Vec<RootFacts>,
    selected_facts: &Option<RootFacts>,
    case_insensitive: bool,
) -> (changed: bool)
    requires
        facts@.len() == old(state).entries@.len(),
        old(state).selected_root is Some <==> selected_facts is Some,
    ensures
        ({
            let r = normalize_result(
                entries_view(old(state).entries@),
                facts_view(facts@),
                selected_view(old(state).selected_root),
                selected_facts_view(*selected_facts),
                case_insensitive,
            );
            &&& entries_view(final(state).entries@) == r.0
            &&& selected_view(final(state).selected_root) == r.1
            &&& changed == r.2
        }),
        distinct_keys(entries_view(final(state).entries@), case_insensitive),
        selected_view(final(state).selected_root) matches Some(s) ==> key_taken(
            entries_view(final(state).entries@),
            s,
            case_insensitive,
        ),
        !changed ==> entries_view(final(state).entries@) == entries_view(old(state).entries@)
            && selected_view(final(state).selected_root) == selected_view(old(state).selected_root),
        facts_agree(
            entries_view(old(state).entries@),
            facts_view(facts@),
            selected_view(old(state).selected_root),
            selected_facts_view(*selected_facts),
        ) ==> (changed <==> (entries_view(final(state).entries@) != entries_view(old(state).entries@)
            || selected_view(final(state).selected_root) != selected_view(old(state).selected_root))),
{
    let ghost es = entries_view(state.entries@);
    let ghost fv = facts_view(facts@);
    let ghost all = Seq::new(es.len(), |k: int| normalized_view(es[k], fv[k]));
    let mut kept: Vec<WorkdirEntry> = Vec::new();
    let mut changed = false;
    let mut i: usize = 0;
    while i < state.entries.len()
        invariant
            i <= es.len(),
            es == entries_view(state.entries@),
            state.entries@ == old(state).entries@,
            facts@.len() == es.len(),
            fv == facts_view(facts@),
            all == Seq::new(es.len(), |k: int| normalized_view(es[k], fv[k])),
            entries_view(kept@) == dedup_by_key(all.subrange(0, i as int), case_insensitive),
            changed == exists|k: int| 0 <= k < i && #[trigger] entry_changes(es, fv, case_insensitive, k),
            forall|k: int| 0 <= k < i ==> key_taken(entries_view(kept@), #[trigger] all[k].0, case_insensitive),
            forall|v: Seq<char>| key_taken(entries_view(kept@), v, case_insensitive) ==> key_taken(all.subrange(0, i as int), v, case_insensitive),
            state.selected_root == old(state).selected_root,
        decreases es.len() - i,
    {
        let f = &facts[i];
        let e = &state.entries[i];
        let root_changed = !chars_eq(&chars_of(f.normalized.as_str()), &chars_of(e.root.as_str()));
        let mark_cleared = f.is_dir && e.deletion.is_some();
        let deletion = if f.is_dir {
            None
        } else {
            e.deletion
        };
        let ghost prefix = all.subrange(0, i as int);
        let ghost next = all.subrange(0, i + 1);
        let ghost v = all[i as int].0;
        assert(v == f.normalized@);
        let ghost kept_before = entries_view(kept@);
        let taken = find_entry(&kept, f.normalized.as_str(), case_insensitive).is_some();
        proof {
            lemma_taken_has_position(kept_before, v, case_insensitive);
            assert(next.drop_last() =~= prefix);
            assert(next.last() == all[i as int]);
            // An earlier entry has the key exactly when a kept entry does.
            assert(key_taken(kept_before, v, case_insensitive) <==> key_taken(prefix, v, case_insensitive)) by {
                if key_taken(prefix, v, case_insensitive) {
                    let j = choose|j: int| 0 <= j < prefix.len() && key_of((#[trigger] prefix[j]).0, case_insensitive) == key_of(v, case_insensitive);
                    assert(prefix[j] == all[j]);
                    assert(key_taken(kept_before, all[j].0, case_insensitive));
                    let m = choose|m: int| 0 <= m < kept_before.len() && key_of((#[trigger] kept_before[m]).0, case_insensitive) == key_of(all[j].0, case_insensitive);
                    assert(key_of(kept_before[m].0, case_insensitive) == key_of(v, case_insensitive));
                }
            }
            assert((exists|j: int| 0 <= j < i && key_of((#[trigger] fv[j]).0, case_insensitive) == key_of(fv[i as int].0, case_insensitive)) <==> key_taken(prefix, v, case_insensitive)) by {
                if exists|j: int| 0 <= j < i && key_of((#[trigger] fv[j]).0, case_insensitive) == key_of(fv[i as int].0, case_insensitive) {
                    let j = choose|j: int| 0 <= j < i && key_of((#[trigger] fv[j]).0, case_insensitive) == key_of(fv[i as int].0, case_insensitive);
                    assert(prefix[j].0 == fv[j].0);
                }
                if key_taken(prefix, v, case_insensitive) {
                    let j = choose|j: int| 0 <= j < prefix.len() && key_of((#[trigger] prefix[j]).0, case_insensitive) == key_of(v, case_insensitive);
                    assert(prefix[j].0 == fv[j].0);
                }
            }
        }
        if !taken {
            kept.push(WorkdirEntry { root: string_of(&chars_of(f.normalized.as_str())), deletion });
        }
        proof {
            assert(entries_view(kept@) =~= dedup_by_key(next, case_insensitive));
            assert forall|k: int| 0 <= k < i + 1 implies key_taken(entries_view(kept@), #[trigger] all[k].0, case_insensitive) by {
                if k < i {
                    let m = choose|m: int| 0 <= m < kept_before.len() && key_of((#[trigger] kept_before[m]).0, case_insensitive) == key_of(all[k].0, case_insensitive);
                    assert(entries_view(kept@)[m] == kept_before[m]);
                } else if !taken {
                    assert(entries_view(kept@)[kept_before.len() as int].0 == v);
                }
            }
            assert forall|w: Seq<char>| key_taken(entries_view(kept@), w, case_insensitive) implies key_taken(next, w, case_insensitive) by {
                let m = choose|m: int| 0 <= m < entries_view(kept@).len() && key_of((#[trigger] entries_view(kept@)[m]).0, case_insensitive) == key_of(w, case_insensitive);
                if m < kept_before.len() {
                    assert(entries_view(kept@)[m] == kept_before[m]);
                    assert(key_taken(kept_before, w, case_insensitive));
                    let j = choose|j: int| 0 <= j < prefix.len() && key_of((#[trigger] prefix[j]).0, case_insensitive) == key_of(w, case_insensitive);
                    assert(next[j] == prefix[j]);
                } else {
                    assert(next[i as int].0 == v);
                }
            }
            assert(entry_changes(es, fv, case_insensitive, i as int) == (root_changed || mark_cleared || taken));
        }
        changed = changed || root_changed || mark_cleared || taken;
        i = i + 1;
    }
    proof {
        assert(all.subrange(0, es.len() as int) =~= all);
    }
    state.entries = kept;
    let ghost sel = selected_view(state.selected_root);
    let ghost sfv = selected_facts_view(*selected_facts);
    let r = match (&state.selected_root, selected_facts) {
        (Some(selected), Some(sf)) => {
            let sel_changed = !chars_eq(&chars_of(sf.normalized.as_str()), &chars_of(selected.as_str()));
            state.selected_root = Some(string_of(&chars_of(sf.normalized.as_str())));
            let ensured = ensure_entry(state, sf.normalized.as_str(), sf.is_dir, case_insensitive);
            changed || sel_changed || ensured
        },
        _ => changed,
    };
    proof {
        lemma_normalized_list_is_tidy(es, fv, sel, sfv, case_insensitive);
        lemma_normalize_reports_change(es, fv, sel, sfv, case_insensitive);
    }
    r
}

/// Some entry has the key of `v` exactly when a first such entry exists.
proof fn lemma_taken_has_position(es: Seq<(Seq<char>, Option<DeletionMarker>)>, v: Seq<char>, ci: bool)
    ensures
        key_taken(es, v, ci) <==> entry_position(es, v, ci) is Some,
{
    if key_taken(es, v, ci) {
        let j = choose|j: int| 0 <= j < es.len() && key_of((#[trigger] es[j]).0, ci) == key_of(v, ci);
        lemma_first_exists(es, v, ci, j);
    }
    if entry_position(es, v, ci) is Some {
        let k = choose|k: int| first_with_key(es, v, ci, k);
        assert(key_of(es[k].0, ci) == key_of(v, ci));
    }
}

proof fn lemma_first_exists(es: Seq<(Seq<char>, Option<DeletionMarker>)>, v: Seq<char>, ci: bool, j: int)
    requires
        0 <= j < es.len(),
        key_of(es[j].0, ci) == key_of(v, ci),
    ensures
        exists|k: int| first_with_key(es, v, ci, k),
    decreases j,
{
    if exists|i: int| 0 <= i < j && key_of((#[trigger] es[i]).0, ci) == key_of(v, ci) {
        let i = choose|i: int| 0 <= i < j && key_of((#[trigger] es[i]).0, ci) == key_of(v, ci);
        lemma_first_exists(es, v, ci, i);
    } else {
        assert(first_with_key(es, v, ci, j));
    }
}

/// Adds the existing, normalized directory `root` to the list (see
/// `ensure_entry`); says whether it was already listed under its key.
pub fn add_workdir_to_state(state: &mut WorkdirState, root: &str, case_insensitive: bool) -> (r:
    AddWorkdirResult)
    ensures
        entries_view(final(state).entries@) == ensured_entries(
            entries_view(old(state).entries@),
            root@,
            true,
            case_insensitive,
        ),
        final(state).selected_root == old(state).selected_root,
        r == if key_taken(entries_view(old(state).entries@), root@, case_insensitive) {
            AddWorkdirResult::AlreadyExists
        } else {
            AddWorkdirResult::Added
        },
{
    let existed = find_entry(&state.entries, root, case_insensitive).is_some();
    proof {
        lemma_taken_has_position(entries_view(state.entries@), root@, case_insensitive);
    }
    ensure_entry(state, root, true, case_insensitive);
    if existed {
        AddWorkdirResult::AlreadyExists
    } else {
        AddWorkdirResult::Added
    }
}

/// Selects the existing, normalized directory `root`, listing it (see
/// `ensure_entry`).
pub fn select_workdir(state: &mut WorkdirState, root: &str, case_insensitive: bool)
    ensures
        entries_view(final(state).entries@) == ensured_entries(
            entries_view(old(state).entries@),
            root@,
            true,
            case_insensitive,
        ),
        selected_view(final(state).selected_root) == Some(root@),
{
    ensure_entry(state, root, true, case_insensitive);
    state.selected_root = Some(string_of(&chars_of(root)));
}

/// The list after `root` was deleted by the user: it is listed (see
/// `ensured_entries`) and its entry carries `marker`.
pub open spec fn marked_entries(
    es: Seq<(Seq<char>, Option<DeletionMarker>)>,
    root: Seq<char>,
    root_is_dir: bool,
    marker: DeletionMarker,
    ci: bool,
) -> Seq<(Seq<char>, Option<DeletionMarker>)> {
    let ensured = ensured_entries(es, root, root_is_dir, ci);
    match entry_position(ensured, root, ci) {
        Some(k) => ensured.update(k, (ensured[k].0, Some(marker))),
        None => ensured,
    }
}

/// Records that the user deleted the normalized `root` (`root_is_dir`
/// says whether it is still a directory): see `marked_entries`.
pub fn mark_deleted(
    state: &mut WorkdirState,
    root: &str,
    root_is_dir: bool,
    marker: DeletionMarker,
    case_insensitive: bool,
)
    ensures
        entries_view(final(state).entries@) == marked_entries(
            entries_view(old(state).entries@),
            root@,
            root_is_dir,
            marker,
            case_insensitive,
        ),
        final(state).selected_root == old(state).selected_root,
{
    ensure_entry(state, root, root_is_dir, case_insensitive);
    match find_entry(&state.entries, root, case_insensitive) {
        Some(k) => {
            let ghost before = entries_view(state.entries@);
            let e = state.entries.remove(k);
            state.entries.insert(k, WorkdirEntry { root: e.root, deletion: Some(marker) });
            assert(entries_view(state.entries@) =~= before.update(k as int, (before[k as int].0, Some(marker))));
        },
        None => {},
    }
}

/// The entries without those whose key is that of `root`.
pub open spec fn without_key(es: Seq<(Seq<char>, Option<DeletionMarker>)>, root: Seq<char>, ci: bool) -> Seq<
    (Seq<char>, Option<DeletionMarker>),
>
    decreases es.len(),
{
    if es.len() == 0 {
        Seq::empty()
    } else {
        let r = without_key(es.drop_last(), root, ci);
        if key_of(es.last().0, ci) == key_of(root, ci) {
            r
        } else {
            r.push(es.last())
        }
    }
}

/// Forgets the normalized `root`: every entry with its key leaves the list.
pub fn remove_from_history(state: &mut WorkdirState, root: &str, case_insensitive: bool)
    ensures
        entries_view(final(state).entries@) == without_key(
            entries_view(old(state).entries@),
            root@,
            case_insensitive,
        ),
        final(state).selected_root == old(state).selected_root,
{
    let ghost es = entries_view(state.entries@);
    let mut kept: Vec<WorkdirEntry> = Vec::new();
    let mut i: usize = 0;
    while i < state.entries.len()
        invariant
            i <= es.len(),
            es == entries_view(state.entries@),
            state.entries@ == old(state).entries@,
            state.selected_root == old(state).selected_root,
            entries_view(kept@) == without_key(es.subrange(0, i as int), root@, case_insensitive),
        decreases es.len() - i,
    {
        let ghost next = es.subrange(0, i + 1);
        assert(next.drop_last() =~= es.subrange(0, i as int));
        assert(next.last() == es[i as int]);
        if !same_path(state.entries[i].root.as_str(), root, case_insensitive) {
            let e = &state.entries[i];
            kept.push(WorkdirEntry { root: string_of(&chars_of(e.root.as_str())), deletion: e.deletion });
            assert(entries_view(kept@) =~= without_key(next, root@, case_insensitive));
        }
        i = i + 1;
    }
    assert(es.subrange(0, es.len() as int) =~= es);
    state.entries = kept;
}

/// Whether `c` separates path components: `/` everywhere, and a backslash too
/// for Windows paths.
pub open spec fn is_separator(c: char, windows_paths: bool) -> bool {
    c == '/' || (windows_paths && c == '\\')
}

/// Whether path `p` lies within `base`, component by component (for
/// normalized paths: equal, or continuing `base` after a separator).
pub open spec fn within(p: Seq<char>, base: Seq<char>, windows_paths: bool) -> bool {
    p == base || (base.len() < p.len() && p.subrange(0, base.len() as int) == base && (
    (base.len() > 0 && is_separator(base.last(), windows_paths)) || is_separator(
        p[base.len() as int],
        windows_paths,
    )))
}

/// Whether the directory `root` may be deleted while `current_root` is
/// the working directory: both must resolve (their canonical forms given,
/// `None` when a path does not resolve or `root` is no directory), and the
/// current directory must not lie within `root`. `windows_paths` says
/// whether the paths are Windows paths, where a backslash separates components
/// as well as `/`.
pub fn can_delete_files(
    root: Option<String>,
    current_root: Option<String>,
    windows_paths: bool,
) -> (r: bool)
    ensures
        r == match (root, current_root) {
            (Some(root), Some(current)) => !within(current@, root@, windows_paths),
            _ => false,
        },
{
    match (root, current_root) {
        (Some(root), Some(current)) => !lies_within(
            &chars_of(current.as_str()),
            &chars_of(root.as_str()),
            windows_paths,
        ),
        _ => false,
    }
}

/// Decides `is_separator`.
fn separator_char(c: char, windows_paths: bool) -> (r: bool)
    ensures
        r == is_separator(c, windows_paths),
{
    c == '/' || (windows_paths && c == '\\')
}

/// Decides `within`.
fn lies_within(p: &Vec<char>, b: &Vec<char>, windows_paths: bool) -> (r: bool)
    ensures
        r == within(p@, b@, windows_paths),
{
    if chars_eq(b, p) {
        return true;
    }
    if b.len() >= p.len() {
        return false;
    }
    let mut i: usize = 0;
    while i < b.len()
        invariant
            i <= b@.len(),
            b@.len() < p@.len(),
            forall|k: int| 0 <= k < i ==> b@[k] == p@[k],
        decreases b@.len() - i,
    {
        if b[i] != p[i] {
            assert(p@.subrange(0, b@.len() as int)[i as int] != b@[i as int]);
            return false;
        }
        i = i + 1;
    }
    assert(p@.subrange(0, b@.len() as int) =~= b@);
    let ends_with_separator = b.len() > 0 && separator_char(b[b.len() - 1], windows_paths);
    ends_with_separator || separator_char(p[b.len()], windows_paths)
}

/// Why a directory could not be used.
#[derive(Clone, Copy, Debug, PartialEq, Eq, Structural)]
pub enum DirError {
    /// Nothing is at the path.
    NotFound,
    /// Something that is no directory is at the path.
    NotADirectory,
    /// The path could not be resolved.
    Unresolved,
}

/// The directory a path names, from what the file system says: an error
/// when nothing is there or it is no directory, else its canonical form
/// (`canonical`, `None` when it could not be resolved).
pub fn normalize_existing_dir(exists: bool, is_dir: bool, canonical: Option<String>) -> (r: Result<
    String,
    DirError,
>)
    ensures
        match r {
            Ok(p) => exists && is_dir && canonical == Some(p),
            Err(e) => e == if !exists {
                DirError::NotFound
            } else if !is_dir {
                DirError::NotADirectory
            } else {
                DirError::Unresolved
            } && (exists && is_dir ==> canonical is None),
        },
{
    if !exists {
        return Err(DirError::NotFound);
    }
    if !is_dir {
        return Err(DirError::NotADirectory);
    }
    match canonical {
        Some(p) => Ok(p),
        None => Err(DirError::Unresolved),
    }
}

/// What the file system says of each entry once `root` was made sure of:
/// the entry that took `root` (or the one appended) is `root` itself.
pub open spec fn facts_after_ensure(
    es: Seq<(Seq<char>, Option<DeletionMarker>)>,
    facts: Seq<(Seq<char>, bool)>,
    root: Seq<char>,
    root_is_dir: bool,
    ci: bool,
) -> Seq<(Seq<char>, bool)> {
    match entry_position(es, root, ci) {
        Some(k) => facts.update(k, (root, root_is_dir)),
        None => facts.push((root, root_is_dir)),
    }
}

/// A copy of some file-system facts.
fn copy_facts(f: &RootFacts) -> (r: RootFacts)
    ensures
        r.normalized@ == f.normalized@,
        r.is_dir == f.is_dir,
{
    RootFacts { normalized: string_of(&chars_of(f.normalized.as_str())), is_dir: f.is_dir }
}

/// The facts of each entry once the normalized `root` was made sure of,
/// `pos` being the position of its entry beforehand (see
/// `facts_after_ensure`).
fn facts_after(facts: &Vec<RootFacts>, pos: Option<usize>, root: &str, root_is_dir: bool) -> (r: Vec<
    RootFacts,
>)
    requires
        pos matches Some(k) ==> k < facts@.len(),
    ensures
        facts_view(r@) == match pos {
            Some(k) => facts_view(facts@).update(k as int, (root@, root_is_dir)),
            None => facts_view(facts@).push((root@, root_is_dir)),
        },
{
    let mut r: Vec<RootFacts> = Vec::new();
    let mut i: usize = 0;
    while i < facts.len()
        invariant
            i <= facts@.len(),
            pos matches Some(k) ==> k < facts@.len(),
            r@.len() == i,
            forall|j: int| 0 <= j < i ==> (#[trigger] r@[j]).normalized@ == (if pos == Some(j as usize) {
                root@
            } else {
                facts@[j].normalized@
            }) && r@[j].is_dir == (if pos == Some(j as usize) {
                root_is_dir
            } else {
                facts@[j].is_dir
            }),
        decreases facts@.len() - i,
    {
        if pos == Some(i) {
            r.push(RootFacts { normalized: string_of(&chars_of(root)), is_dir: root_is_dir });
        } else {
            r.push(copy_facts(&facts[i]));
        }
        i = i + 1;
    }
    if pos.is_none() {
        r.push(RootFacts { normalized: string_of(&chars_of(root)), is_dir: root_is_dir });
    }
    proof {
        match pos {
            Some(k) => {
                assert(facts_view(r@) =~= facts_view(facts@).update(k as int, (root@, root_is_dir)));
            },
            None => {
                assert(facts_view(r@) =~= facts_view(facts@).push((root@, root_is_dir)));
            },
        }
    }
    r
}

/// The directory the application starts in: the selected one when it is
/// still a directory, else `default_root`.
pub open spec fn startup_root_of(selected_facts: Option<(Seq<char>, bool)>, default_root: Seq<char>) -> Seq<
    char,
> {
    match selected_facts {
        Some(f) => if f.1 {
            f.0
        } else {
            default_root
        },
        None => default_root,
    }
}

/// Picks the directory the application starts in (see `startup_root_of`;
/// `default_root` is normalized and exists) and updates the list: the
/// root is listed as a directory, becomes the selection unless the
/// selection already names it, and the list is tidied (see
/// `normalize_state`, with `facts` of each entry and `selected_facts` of
/// the selected path). Returns the root and whether the list changed.
pub fn startup_root(
    state: &mut WorkdirState,
    facts: &Vec<RootFacts>,
    selected_facts: &Option<RootFacts>,
    default_root: &str,
    case_insensitive: bool,
) -> (r: (String, bool))
    requires
        facts@.len() == old(state).entries@.len(),
        old(state).selected_root is Some <==> selected_facts is Some,
    ensures
        ({
            let ci = case_insensitive;
            let es = entries_view(old(state).entries@);
            let sf = selected_facts_view(*selected_facts);
            let root = startup_root_of(sf, default_root@);
            let es1 = ensured_entries(es, root, true, ci);
            let fv1 = facts_after_ensure(es, facts_view(facts@), root, true, ci);
            let same = match sf {
                Some(f) => key_of(f.0, ci) == key_of(root, ci),
                None => false,
            };
            let sel1 = if same {
                selected_view(old(state).selected_root)
            } else {
                Some(root)
            };
            let sf1 = if same {
                sf
            } else {
                Some((root, true))
            };
            let n = normalize_result(es1, fv1, sel1, sf1, ci);
            &&& r.0@ == root
            &&& entries_view(final(state).entries@) == n.0
            &&& selected_view(final(state).selected_root) == n.1
            &&& r.1 == (ensure_changes(es, root, true, ci) || !same || n.2)
        }),
{
    let root = match selected_facts {
        Some(f) => if f.is_dir {
            string_of(&chars_of(f.normalized.as_str()))
        } else {
            string_of(&chars_of(default_root))
        },
        None => string_of(&chars_of(default_root)),
    };
    let pos = find_entry(&state.entries, root.as_str(), case_insensitive);
    let facts1 = facts_after(facts, pos, root.as_str(), true);
    let ensured = ensure_entry(state, root.as_str(), true, case_insensitive);
    let same = match selected_facts {
        Some(f) => same_path(f.normalized.as_str(), root.as_str(), case_insensitive),
        None => false,
    };
    let sf1 = if same {
        match selected_facts {
            Some(f) => Some(copy_facts(f)),
            None => None,
        }
    } else {
        state.selected_root = Some(string_of(&chars_of(root.as_str())));
        Some(RootFacts { normalized: string_of(&chars_of(root.as_str())), is_dir: true })
    };
    assert(selected_facts_view(sf1) == if same {
        selected_facts_view(*selected_facts)
    } else {
        Some((root@, true))
    });
    assert(entries_view(state.entries@).len() == state.entries@.len());
    assert(facts_view(facts1@).len() == facts1@.len());
    assert(facts_view(facts@).len() == facts@.len());
    assert(entries_view(old(state).entries@).len() == old(state).entries@.len());
    let tidied = normalize_state(state, &facts1, &sf1, case_insensitive);
    (root, ensured || !same || tidied)
}

/// Records the directory the application runs in (`root_facts`: its
/// normalized path and whether it is a directory) in the list: it is
/// listed, becomes the selection when nothing is selected (its canonical
/// form `root_dir`, or the error that `normalize_existing_dir` gave for it),
/// and the list is tidied (see `normalize_state`). Returns whether the list
/// changed.
pub fn record_startup_root(
    state: &mut WorkdirState,
    facts: &Vec<RootFacts>,
    selected_facts: &Option<RootFacts>,
    root_facts: &RootFacts,
    root_dir: Result<String, DirError>,
    case_insensitive: bool,
) -> (r: Result<bool, DirError>)
    requires
        facts@.len() == old(state).entries@.len(),
        old(state).selected_root is Some <==> selected_facts is Some,
    ensures
        ({
            let ci = case_insensitive;
            let es = entries_view(old(state).entries@);
            let root = root_facts.normalized@;
            let es1 = ensured_entries(es, root, root_facts.is_dir, ci);
            let fv1 = facts_after_ensure(es, facts_view(facts@), root, root_facts.is_dir, ci);
            match (old(state).selected_root, root_dir) {
                (None, Err(e)) => r == Err::<bool, DirError>(e),
                (None, Ok(dir)) => {
                    let n = normalize_result(es1, fv1, Some(dir@), Some((dir@, true)), ci);
                    &&& entries_view(final(state).entries@) == n.0
                    &&& selected_view(final(state).selected_root) == n.1
                    &&& r == Ok::<bool, DirError>(true)
                },
                (Some(selected), _) => {
                    let n = normalize_result(
                        es1,
                        fv1,
                        Some(selected@),
                        selected_facts_view(*selected_facts),
                        ci,
                    );
                    &&& entries_view(final(state).entries@) == n.0
                    &&& selected_view(final(state).selected_root) == n.1
                    &&& r == Ok::<bool, DirError>(ensure_changes(es, root, root_facts.is_dir, ci) || n.2)
                },
            }
        }),
{
    let root = root_facts.normalized.as_str();
    let pos = find_entry(&state.entries, root, case_insensitive);
    let facts1 = facts_after(facts, pos, root, root_facts.is_dir);
    let ensured = ensure_entry(state, root, root_facts.is_dir, case_insensitive);
    let mut changed = ensured;
    let sf1 = match &state.selected_root {
        Some(_) => match selected_facts {
            Some(f) => Some(copy_facts(f)),
            None => None,
        },
        None => match root_dir {
            Ok(dir) => {
                let f = RootFacts { normalized: string_of(&chars_of(dir.as_str())), is_dir: true };
                state.selected_root = Some(dir);
                changed = true;
                Some(f)
            },
            Err(e) => {
                return Err(e);
            },
        },
    };
    assert(entries_view(state.entries@).len() == state.entries@.len());
    assert(facts_view(facts1@).len() == facts1@.len());
    assert(facts_view(facts@).len() == facts@.len());
    assert(entries_view(old(state).entries@).len() == old(state).entries@.len());
    let tidied = normalize_state(state, &facts1, &sf1, case_insensitive);
    Ok(changed || tidied)
}


/// Whether no two entries share a key.
pub open spec fn distinct_keys(es: Seq<(Seq<char>, Option<DeletionMarker>)>, ci: bool) -> bool {
    forall|i: int, j: int|
        0 <= i < j < es.len() ==> key_of((#[trigger] es[i]).0, ci) != key_of((#[trigger] es[j]).0, ci)
}

/// Dropping later duplicates leaves distinct keys.
proof fn lemma_dedup_distinct(es: Seq<(Seq<char>, Option<DeletionMarker>)>, ci: bool)
    ensures
        distinct_keys(dedup_by_key(es, ci), ci),
    decreases es.len(),
{
    if es.len() > 0 {
        let r = dedup_by_key(es.drop_last(), ci);
        lemma_dedup_distinct(es.drop_last(), ci);
        if !key_taken(r, es.last().0, ci) {
            let t = r.push(es.last());
            assert forall|i: int, j: int| 0 <= i < j < t.len() implies key_of((#[trigger] t[i]).0, ci)
                != key_of((#[trigger] t[j]).0, ci) by {
                if j == r.len() {
                    assert(t[i] == r[i]);
                } else {
                    assert(t[i] == r[i] && t[j] == r[j]);
                }
            }
        }
    }
}

/// A key that some entry has is had by a first entry.
proof fn lemma_first_key_exists(
    es: Seq<(Seq<char>, Option<DeletionMarker>)>,
    root: Seq<char>,
    ci: bool,
    j: int,
)
    requires
        0 <= j < es.len(),
        key_of(es[j].0, ci) == key_of(root, ci),
    ensures
        exists|k: int| first_with_key(es, root, ci, k),
    decreases j,
{
    if exists|i: int| 0 <= i < j && key_of((#[trigger] es[i]).0, ci) == key_of(root, ci) {
        let i = choose|i: int| 0 <= i < j && key_of((#[trigger] es[i]).0, ci) == key_of(root, ci);
        lemma_first_key_exists(es, root, ci, i);
    } else {
        assert(first_with_key(es, root, ci, j));
    }
}

/// Making sure of a root keeps keys distinct and lists the root.
proof fn lemma_ensured_distinct(
    es: Seq<(Seq<char>, Option<DeletionMarker>)>,
    root: Seq<char>,
    root_is_dir: bool,
    ci: bool,
)
    requires
        distinct_keys(es, ci),
    ensures
        distinct_keys(ensured_entries(es, root, root_is_dir, ci), ci),
        key_taken(ensured_entries(es, root, root_is_dir, ci), root, ci),
{
    let e1 = ensured_entries(es, root, root_is_dir, ci);
    match entry_position(es, root, ci) {
        Some(k) => {
            assert(first_with_key(es, root, ci, k));
            assert(e1[k].0 == root);
            assert forall|i: int, j: int| 0 <= i < j < e1.len() implies key_of((#[trigger] e1[i]).0, ci)
                != key_of((#[trigger] e1[j]).0, ci) by {
                assert(key_of(e1[i].0, ci) == key_of(es[i].0, ci));
                assert(key_of(e1[j].0, ci) == key_of(es[j].0, ci));
            }
        },
        None => {
            assert forall|i: int| 0 <= i < es.len() implies key_of((#[trigger] es[i]).0, ci) != key_of(
                root,
                ci,
            ) by {
                if key_of(es[i].0, ci) == key_of(root, ci) {
                    lemma_first_key_exists(es, root, ci, i);
                }
            }
            assert(e1[es.len() as int].0 == root);
            assert forall|i: int, j: int| 0 <= i < j < e1.len() implies key_of((#[trigger] e1[i]).0, ci)
                != key_of((#[trigger] e1[j]).0, ci) by {
                assert(e1[i] == es[i]);
                if j < es.len() {
                    assert(e1[j] == es[j]);
                }
            }
        },
    }
}

/// `r` is `es` with later duplicates dropped, in order: entry `i` of `r` is
/// entry `pos[i]` of `es`, the positions rise, and every entry of `es` that
/// was dropped has an earlier entry with its key.
pub open spec fn firsts_in_order(
    r: Seq<(Seq<char>, Option<DeletionMarker>)>,
    es: Seq<(Seq<char>, Option<DeletionMarker>)>,
    ci: bool,
    pos: Seq<int>,
) -> bool {
    &&& pos.len() == r.len()
    &&& forall|i: int| 0 <= i < r.len() ==> 0 <= #[trigger] pos[i] < es.len() && r[i] == es[pos[i]]
    &&& forall|i: int, j: int| 0 <= i < j < r.len() ==> #[trigger] pos[i] < #[trigger] pos[j]
    &&& forall|k: int|
        #![trigger is_listed(pos, k)]
        #![trigger has_earlier_key(es, ci, k)]
        0 <= k < es.len() ==> is_listed(pos, k) || has_earlier_key(es, ci, k)
}

/// Whether some position in `pos` is `k`.
pub open spec fn is_listed(pos: Seq<int>, k: int) -> bool {
    exists|i: int| 0 <= i < pos.len() && #[trigger] pos[i] == k
}

/// Whether an entry before entry `k` has its key.
pub open spec fn has_earlier_key(es: Seq<(Seq<char>, Option<DeletionMarker>)>, ci: bool, k: int) -> bool {
    exists|j: int| 0 <= j < k && key_of((#[trigger] es[j]).0, ci) == key_of(es[k].0, ci)
}

/// Dropping later duplicates keeps the first entry of each key, in order.
proof fn lemma_dedup_in_order(es: Seq<(Seq<char>, Option<DeletionMarker>)>, ci: bool)
    ensures
        exists|pos: Seq<int>| #[trigger] firsts_in_order(dedup_by_key(es, ci), es, ci, pos),
    decreases es.len(),
{
    if es.len() == 0 {
        assert(firsts_in_order(dedup_by_key(es, ci), es, ci, Seq::<int>::empty()));
    } else {
        let d = es.drop_last();
        let n = es.len() - 1;
        let r0 = dedup_by_key(d, ci);
        lemma_dedup_in_order(d, ci);
        let p0 = choose|pos: Seq<int>| #[trigger] firsts_in_order(r0, d, ci, pos);
        if key_taken(r0, es.last().0, ci) {
            let j = choose|j: int| 0 <= j < r0.len() && key_of((#[trigger] r0[j]).0, ci) == key_of(es.last().0, ci);
            assert(r0[j] == d[p0[j]]);
            assert forall|k: int| 0 <= k < es.len() implies #[trigger] is_listed(p0, k) || has_earlier_key(
                es,
                ci,
                k,
            ) by {
                if k == n {
                    assert(es[p0[j]] == d[p0[j]]);
                    assert(has_earlier_key(es, ci, k));
                } else {
                    assert(d[k] == es[k]);
                    if !is_listed(p0, k) {
                        assert(has_earlier_key(d, ci, k));
                        let j2 = choose|j2: int| 0 <= j2 < k && key_of((#[trigger] d[j2]).0, ci) == key_of(d[k].0, ci);
                        assert(es[j2] == d[j2]);
                    }
                }
            }
            assert(dedup_by_key(es, ci) == r0);
            assert(firsts_in_order(dedup_by_key(es, ci), es, ci, p0));
        } else {
            let r = r0.push(es.last());
            let p = p0.push(n);
            assert forall|i: int| 0 <= i < r.len() implies 0 <= #[trigger] p[i] < es.len() && r[i] == es[p[i]] by {
                if i < r0.len() {
                    assert(p[i] == p0[i]);
                    assert(r[i] == r0[i]);
                    assert(d[p0[i]] == es[p0[i]]);
                }
            }
            assert forall|i: int, j: int| 0 <= i < j < r.len() implies #[trigger] p[i] < #[trigger] p[j] by {
                assert(p[i] == p0[i]);
                if j < r0.len() {
                    assert(p[j] == p0[j]);
                }
            }
            assert forall|k: int| 0 <= k < es.len() implies #[trigger] is_listed(p, k) || has_earlier_key(
                es,
                ci,
                k,
            ) by {
                if k == n {
                    assert(p[r0.len() as int] == k);
                } else {
                    assert(d[k] == es[k]);
                    if is_listed(p0, k) {
                        let i = choose|i: int| 0 <= i < p0.len() && #[trigger] p0[i] == k;
                        assert(p[i] == p0[i]);
                    } else {
                        assert(has_earlier_key(d, ci, k));
                        let j2 = choose|j2: int| 0 <= j2 < k && key_of((#[trigger] d[j2]).0, ci) == key_of(d[k].0, ci);
                        assert(es[j2] == d[j2]);
                    }
                }
            }
            assert(dedup_by_key(es, ci) == r);
            assert(firsts_in_order(dedup_by_key(es, ci), es, ci, p));
        }
    }
}

/// The tidied list (see `normalize_result`): before the selected path is
/// made sure of, it holds, in their order, the first entry of each key, each
/// with its normalized path and unmarked when it is a directory; no two of
/// its entries share a key; and the selected path, when there is one, is
/// listed.
pub proof fn lemma_normalized_list_is_tidy(
    es: Seq<(Seq<char>, Option<DeletionMarker>)>,
    facts: Seq<(Seq<char>, bool)>,
    selected: Option<Seq<char>>,
    selected_facts: Option<(Seq<char>, bool)>,
    ci: bool,
)
    ensures
        exists|pos: Seq<int>| #[trigger] firsts_in_order(
            normalized_entries(es, facts, ci),
            normalized_views(es, facts),
            ci,
            pos,
        ),
        forall|k: int| 0 <= k < es.len() ==> (#[trigger] normalized_view(es[k], facts[k])).0 == facts[k].0 && (
        facts[k].1 ==> normalized_view(es[k], facts[k]).1 is None),
        distinct_keys(normalize_result(es, facts, selected, selected_facts, ci).0, ci),
        normalize_result(es, facts, selected, selected_facts, ci).1 matches Some(s) ==> key_taken(
            normalize_result(es, facts, selected, selected_facts, ci).0,
            s,
            ci,
        ),
{
    let mid = normalized_entries(es, facts, ci);
    let nv = normalized_views(es, facts);
    lemma_dedup_distinct(nv, ci);
    lemma_dedup_in_order(nv, ci);
    match (selected, selected_facts) {
        (Some(s), Some(f)) => {
            lemma_ensured_distinct(mid, f.0, f.1, ci);
        },
        _ => {},
    }
}

/// A list whose keys are distinct loses nothing to dropping duplicates.
proof fn lemma_dedup_identity(es: Seq<(Seq<char>, Option<DeletionMarker>)>, ci: bool)
    requires
        distinct_keys(es, ci),
    ensures
        dedup_by_key(es, ci) == es,
    decreases es.len(),
{
    if es.len() > 0 {
        let d = es.drop_last();
        assert(distinct_keys(d, ci)) by {
            assert forall|i: int, j: int| 0 <= i < j < d.len() implies key_of((#[trigger] d[i]).0, ci)
                != key_of((#[trigger] d[j]).0, ci) by {
                assert(d[i] == es[i] && d[j] == es[j]);
            }
        }
        lemma_dedup_identity(d, ci);
        assert(!key_taken(d, es.last().0, ci)) by {
            if key_taken(d, es.last().0, ci) {
                let j = choose|j: int| 0 <= j < d.len() && key_of((#[trigger] d[j]).0, ci) == key_of(es.last().0, ci);
                assert(d[j] == es[j]);
                assert(es.last() == es[es.len() - 1]);
            }
        }
        assert(d.push(es.last()) =~= es);
    }
}

/// Rising positions below `n`, as many as `n`, start at or above their index.
proof fn lemma_rising_from_below(pos: Seq<int>, n: int, i: int)
    requires
        pos.len() == n,
        0 <= i < n,
        forall|a: int| 0 <= a < n ==> 0 <= #[trigger] pos[a] < n,
        forall|a: int, b: int| 0 <= a < b < n ==> #[trigger] pos[a] < #[trigger] pos[b],
    ensures
        pos[i] >= i,
    decreases i,
{
    if i > 0 {
        lemma_rising_from_below(pos, n, i - 1);
        assert(pos[i - 1] < pos[i]);
    }
}

/// Rising positions below `n`, as many as `n`, stay at or below their index.
proof fn lemma_rising_from_above(pos: Seq<int>, n: int, i: int)
    requires
        pos.len() == n,
        0 <= i < n,
        forall|a: int| 0 <= a < n ==> 0 <= #[trigger] pos[a] < n,
        forall|a: int, b: int| 0 <= a < b < n ==> #[trigger] pos[a] < #[trigger] pos[b],
    ensures
        pos[i] <= i,
    decreases n - i,
{
    if i < n - 1 {
        lemma_rising_from_above(pos, n, i + 1);
        assert(pos[i] < pos[i + 1]);
    }
}

/// Dropping later duplicates never lengthens a list.
proof fn lemma_dedup_len(es: Seq<(Seq<char>, Option<DeletionMarker>)>, ci: bool)
    ensures
        dedup_by_key(es, ci).len() <= es.len(),
    decreases es.len(),
{
    if es.len() > 0 {
        lemma_dedup_len(es.drop_last(), ci);
    }
}

/// Every key of a list is the key of some entry left after dropping later
/// duplicates.
proof fn lemma_dedup_keeps_keys(es: Seq<(Seq<char>, Option<DeletionMarker>)>, ci: bool, k: int)
    requires
        0 <= k < es.len(),
    ensures
        key_taken(dedup_by_key(es, ci), es[k].0, ci),
    decreases es.len(),
{
    let d = es.drop_last();
    let r = dedup_by_key(d, ci);
    if k == es.len() - 1 {
        if !key_taken(r, es.last().0, ci) {
            let t = r.push(es.last());
            assert(t[r.len() as int] == es[k]);
        }
    } else {
        lemma_dedup_keeps_keys(d, ci, k);
        let j = choose|j: int| 0 <= j < r.len() && key_of((#[trigger] r[j]).0, ci) == key_of(d[k].0, ci);
        if !key_taken(r, es.last().0, ci) {
            assert(r.push(es.last())[j] == r[j]);
        }
    }
}

/// A list that loses nothing to dropping duplicates is left as it was.
proof fn lemma_dedup_full(es: Seq<(Seq<char>, Option<DeletionMarker>)>, ci: bool)
    requires
        dedup_by_key(es, ci).len() == es.len(),
    ensures
        dedup_by_key(es, ci) == es,
        distinct_keys(es, ci),
{
    let r = dedup_by_key(es, ci);
    lemma_dedup_in_order(es, ci);
    lemma_dedup_distinct(es, ci);
    let pos = choose|pos: Seq<int>| #[trigger] firsts_in_order(r, es, ci, pos);
    let n = es.len() as int;
    assert forall|i: int| 0 <= i < n implies #[trigger] pos[i] == i by {
        lemma_rising_from_below(pos, n, i);
        lemma_rising_from_above(pos, n, i);
    }
    assert forall|k: int| 0 <= k < n implies #[trigger] r[k] == es[k] by {
        assert(pos[k] == k);
    }
    assert(r =~= es);
}

/// Normalizing the entries alone changes them exactly when it reports so.
proof fn lemma_entries_change_iff(
    es: Seq<(Seq<char>, Option<DeletionMarker>)>,
    facts: Seq<(Seq<char>, bool)>,
    ci: bool,
)
    requires
        facts.len() == es.len(),
    ensures
        entries_change(es, facts, ci) <==> normalized_entries(es, facts, ci) != es,
{
    let nv = normalized_views(es, facts);
    let mid = normalized_entries(es, facts, ci);
    if !entries_change(es, facts, ci) {
        assert forall|k: int| 0 <= k < es.len() implies #[trigger] nv[k] == es[k] by {
            assert(!entry_changes(es, facts, ci, k));
        }
        assert(nv =~= es);
        assert(distinct_keys(nv, ci)) by {
            assert forall|i: int, j: int| 0 <= i < j < nv.len() implies key_of((#[trigger] nv[i]).0, ci)
                != key_of((#[trigger] nv[j]).0, ci) by {
                assert(!entry_changes(es, facts, ci, j));
                assert(nv[i].0 == facts[i].0);
            }
        }
        lemma_dedup_identity(nv, ci);
    } else if mid == es {
        lemma_dedup_full(nv, ci);
        let k = choose|k: int| 0 <= k < es.len() && #[trigger] entry_changes(es, facts, ci, k);
        assert(nv[k] == es[k]);
        if exists|j: int| 0 <= j < k && key_of((#[trigger] facts[j]).0, ci) == key_of(facts[k].0, ci) {
            let j = choose|j: int| 0 <= j < k && key_of((#[trigger] facts[j]).0, ci) == key_of(facts[k].0, ci);
            assert(nv[j].0 == facts[j].0 && nv[k].0 == facts[k].0);
        }
    }
}

/// Whether the facts read for the selected path are those read for every
/// entry with that very path, as they are when one function normalizes
/// every path.
pub open spec fn facts_agree(
    es: Seq<(Seq<char>, Option<DeletionMarker>)>,
    facts: Seq<(Seq<char>, bool)>,
    selected: Option<Seq<char>>,
    selected_facts: Option<(Seq<char>, bool)>,
) -> bool {
    selected matches Some(s) && selected_facts matches Some(f) ==> forall|k: int|
        0 <= k < es.len() && (#[trigger] es[k]).0 == s ==> facts[k] == f
}

/// `normalize_state` answers `false` only when it changed nothing; and,
/// when the facts read for the selected path agree with those read for the
/// entries (see `facts_agree`), it answers `true` exactly when the list or
/// the selected path changed.
pub proof fn lemma_normalize_reports_change(
    es: Seq<(Seq<char>, Option<DeletionMarker>)>,
    facts: Seq<(Seq<char>, bool)>,
    selected: Option<Seq<char>>,
    selected_facts: Option<(Seq<char>, bool)>,
    ci: bool,
)
    requires
        facts.len() == es.len(),
        selected is Some <==> selected_facts is Some,
    ensures
        !normalize_result(es, facts, selected, selected_facts, ci).2 ==> normalize_result(
            es,
            facts,
            selected,
            selected_facts,
            ci,
        ).0 == es && normalize_result(es, facts, selected, selected_facts, ci).1 == selected,
        facts_agree(es, facts, selected, selected_facts) ==> (normalize_result(
            es,
            facts,
            selected,
            selected_facts,
            ci,
        ).2 <==> (normalize_result(es, facts, selected, selected_facts, ci).0 != es
            || normalize_result(es, facts, selected, selected_facts, ci).1 != selected)),
{
    lemma_entries_change_iff(es, facts, ci);
    let nv = normalized_views(es, facts);
    let mid = normalized_entries(es, facts, ci);
    match (selected, selected_facts) {
        (Some(s), Some(f)) => {
            let e1 = ensured_entries(mid, f.0, f.1, ci);
            let root = f.0;
            if !entries_change(es, facts, ci) {
                assert(mid == es);
                match entry_position(mid, root, ci) {
                    Some(k) => {
                        assert(first_with_key(mid, root, ci, k)) by {
                            let j = choose|j: int| first_with_key(mid, root, ci, j);
                            assert(j == k);
                        }
                        assert(e1[k] == (root, if f.1 { None } else { mid[k].1 }));
                        if !ensure_changes(mid, root, f.1, ci) {
                            assert(e1 =~= mid);
                        } else {
                            assert(e1[k] != mid[k]);
                        }
                    },
                    None => {
                        assert(e1.len() != mid.len());
                    },
                }
            } else if facts_agree(es, facts, selected, selected_facts) && root == s && e1 == es {
                lemma_dedup_len(nv, ci);
                match entry_position(mid, root, ci) {
                    Some(k) => {
                        assert(first_with_key(mid, root, ci, k)) by {
                            let j = choose|j: int| first_with_key(mid, root, ci, j);
                            assert(j == k);
                        }
                        assert(mid.len() == nv.len());
                        lemma_dedup_full(nv, ci);
                        assert(es[k] == e1[k]);
                        assert(es[k].0 == s);
                        assert(facts[k] == f);
                        assert forall|i: int| 0 <= i < es.len() implies #[trigger] es[i] == mid[i] by {
                            if i != k {
                                assert(e1[i] == mid[i]);
                            }
                        }
                        assert(es =~= mid);
                    },
                    None => {
                        let n = es.len() - 1;
                        assert(es[n] == e1[n]);
                        assert(e1[n] == (root, None::<DeletionMarker>));
                        assert(facts[n] == f);
                        assert(nv[n].0 == root);
                        lemma_dedup_keeps_keys(nv, ci, n);
                        lemma_taken_has_position(mid, root, ci);
                    },
                }
            }
        },
        _ => {},
    }
}

/// Adding the same directory twice: after the first addition the directory
/// is listed (so `add_workdir_to_state` answers `AlreadyExists` the second
/// time) and the second addition changes nothing; added to an empty list,
/// it leaves one entry.
pub proof fn lemma_adding_twice_lists_once(
    es: Seq<(Seq<char>, Option<DeletionMarker>)>,
    root: Seq<char>,
    ci: bool,
)
    ensures
        key_taken(ensured_entries(es, root, true, ci), root, ci),
        ensured_entries(ensured_entries(es, root, true, ci), root, true, ci) == ensured_entries(
            es,
            root,
            true,
            ci,
        ),
        es.len() == 0 ==> ensured_entries(es, root, true, ci) == seq![(root, None::<DeletionMarker>)],
{
    lemma_ensure_entry_idempotent(es, root, true, ci);
    let e1 = ensured_entries(es, root, true, ci);
    match entry_position(es, root, ci) {
        Some(k) => {
            assert(first_with_key(es, root, ci, k));
            assert(e1[k].0 == root);
        },
        None => {
            assert(e1[es.len() as int].0 == root);
            if es.len() == 0 {
                assert(e1 =~= seq![(root, None::<DeletionMarker>)]);
            }
        },
    }
}

/// Listing a directory twice is listing it once: making sure of the same
/// normalized root again changes nothing.
pub proof fn lemma_ensure_entry_idempotent(
    es: Seq<(Seq<char>, Option<DeletionMarker>)>,
    root: Seq<char>,
    root_is_dir: bool,
    ci: bool,
)
    ensures
        ensured_entries(ensured_entries(es, root, root_is_dir, ci), root, root_is_dir, ci)
            == ensured_entries(es, root, root_is_dir, ci),
        !ensure_changes(ensured_entries(es, root, root_is_dir, ci), root, root_is_dir, ci),
{
    let e1 = ensured_entries(es, root, root_is_dir, ci);
    match entry_position(es, root, ci) {
        Some(k) => {
            assert(first_with_key(es, root, ci, k)) by {
                let j = choose|j: int| first_with_key(es, root, ci, j);
                assert(j == k);
            }
            assert(first_with_key(e1, root, ci, k)) by {
                assert forall|j: int| 0 <= j < k implies key_of((#[trigger] e1[j]).0, ci) != key_of(root, ci) by {
                    assert(e1[j] == es[j]);
                }
            }
            lemma_first_with_key_unique(e1, root, ci, k);
            assert(e1.update(k, (root, if root_is_dir { None } else { e1[k].1 })) =~= e1);
        },
        None => {
            let n = es.len() as int;
            assert(first_with_key(e1, root, ci, n)) by {
                assert forall|j: int| 0 <= j < n implies key_of((#[trigger] e1[j]).0, ci) != key_of(root, ci) by {
                    assert(e1[j] == es[j]);
                    if key_of(es[j].0, ci) == key_of(root, ci) {
                        lemma_first_exists(es, root, ci, j);
                    }
                }
            }
            lemma_first_with_key_unique(e1, root, ci, n);
            assert(e1.update(n, (root, if root_is_dir { None } else { e1[n].1 })) =~= e1);
        },
    }
}


/// How each standing of a directory is shown in each language.
pub open spec fn availability_text(language: Language, availability: WorkdirAvailability) -> Seq<char> {
    match (language, availability) {
        (Language::ZhCn, WorkdirAvailability::Available) => "可用"@,
        (Language::ZhCn, WorkdirAvailability::Trashed) => "已移到废纸篓"@,
        (Language::ZhCn, WorkdirAvailability::Deleted) => "已删除"@,
        (Language::ZhCn, WorkdirAvailability::Missing) => "不存在"@,
        (Language::En, WorkdirAvailability::Available) => "Available"@,
        (Language::En, WorkdirAvailability::Trashed) => "In trash"@,
        (Language::En, WorkdirAvailability::Deleted) => "Deleted"@,
        (Language::En, WorkdirAvailability::Missing) => "Missing"@,
    }
}

/// Whether the selection names `root` (by key).
pub open spec fn selects(selected: Option<String>, root: Seq<char>, ci: bool) -> bool {
    match selected {
        Some(s) => key_of(s@, ci) == key_of(root, ci),
        None => false,
    }
}

/// After the directory `root` was deleted: when the selection named it, the
/// working directory `current_root` (`current_is_dir` telling whether it
/// is a directory) becomes the selection and is listed (see
/// `ensured_entries`); otherwise nothing changes.
pub fn fallback_selected_if_deleted(
    state: &mut WorkdirState,
    root: &str,
    current_root: &str,
    current_is_dir: bool,
    case_insensitive: bool,
)
    ensures
        if selects(old(state).selected_root, root@, case_insensitive) {
            &&& selected_view(final(state).selected_root) == Some(current_root@)
            &&& entries_view(final(state).entries@) == ensured_entries(
                entries_view(old(state).entries@),
                current_root@,
                current_is_dir,
                case_insensitive,
            )
        } else {
            &&& final(state).selected_root == old(state).selected_root
            &&& final(state).entries@ == old(state).entries@
        },
{
    let named = match &state.selected_root {
        Some(s) => same_path(s.as_str(), root, case_insensitive),
        None => false,
    };
    if named {
        state.selected_root = Some(string_of(&chars_of(current_root)));
        ensure_entry(state, current_root, current_is_dir, case_insensitive);
    }
}

/// What one row of the working-directory window shows and allows.
#[derive(Clone, Copy, Debug, PartialEq, Eq, Structural)]
pub struct WorkdirRow {
    pub availability: WorkdirAvailability,
    /// The row is the directory the application runs in.
    pub is_current: bool,
    /// The row is the directory selected for the next start.
    pub is_next: bool,
    pub can_open: bool,
    pub can_switch: bool,
    pub can_delete: bool,
    pub can_remove: bool,
}

/// The row of `entry`: its standing (see `availability_of`); whether it is
/// the current and the selected directory (by key); it opens when
/// available, becomes the selection when available and not already
/// selected, can be deleted when `deletable` (see `can_delete_files`), and
/// leaves the list when it is neither current nor selected.
pub open spec fn workdir_row_of(
    entry: WorkdirEntry,
    entry_is_dir: bool,
    current_root: Seq<char>,
    selected_root: Option<String>,
    deletable: bool,
    ci: bool,
) -> WorkdirRow {
    let availability = availability_of(entry, entry_is_dir);
    let is_current = key_of(entry.root@, ci) == key_of(current_root, ci);
    let is_next = selects(selected_root, entry.root@, ci);
    let can_open = availability == WorkdirAvailability::Available;
    WorkdirRow {
        availability,
        is_current,
        is_next,
        can_open,
        can_switch: can_open && !is_next,
        can_delete: deletable,
        can_remove: !is_current && !is_next,
    }
}

/// Decides `workdir_row_of`.
pub fn workdir_row(
    entry: &WorkdirEntry,
    entry_is_dir: bool,
    current_root: &str,
    selected_root: &Option<String>,
    deletable: bool,
    case_insensitive: bool,
) -> (r: WorkdirRow)
    ensures
        r == workdir_row_of(*entry, entry_is_dir, current_root@, *selected_root, deletable, case_insensitive),
{
    let availability = availability(entry, entry_is_dir);
    let is_current = same_path(entry.root.as_str(), current_root, case_insensitive);
    let is_next = match selected_root {
        Some(s) => same_path(s.as_str(), entry.root.as_str(), case_insensitive),
        None => false,
    };
    let can_open = availability == WorkdirAvailability::Available;
    WorkdirRow {
        availability,
        is_current,
        is_next,
        can_open,
        can_switch: can_open && !is_next,
        can_delete: deletable,
        can_remove: !is_current && !is_next,
    }
}

/// The selected directory can never leave the list from its row, nor can
/// the directory the application runs in.
pub proof fn lemma_selected_and_current_rows_stay(
    entry: WorkdirEntry,
    entry_is_dir: bool,
    current_root: Seq<char>,
    selected_root: Option<String>,
    deletable: bool,
    ci: bool,
)
    requires
        selects(selected_root, entry.root@, ci) || key_of(entry.root@, ci) == key_of(current_root, ci),
    ensures
        !workdir_row_of(entry, entry_is_dir, current_root, selected_root, deletable, ci).can_remove,
{
}

/// How a directory's standing is shown (see `availability_text`).
pub fn workdir_availability_label(text: &Text, availability: WorkdirAvailability) -> (r: &'static str)
    ensures
        r@ == availability_text(text.language, availability),
{
    match (text.language, availability) {
        (Language::ZhCn, WorkdirAvailability::Available) => "可用",
        (Language::ZhCn, WorkdirAvailability::Trashed) => "已移到废纸篓",
        (Language::ZhCn, WorkdirAvailability::Deleted) => "已删除",
        (Language::ZhCn, WorkdirAvailability::Missing) => "不存在",
        (Language::En, WorkdirAvailability::Available) => "Available",
        (Language::En, WorkdirAvailability::Trashed) => "In trash",
        (Language::En, WorkdirAvailability::Deleted) => "Deleted",
        (Language::En, WorkdirAvailability::Missing) => "Missing",
    }
}

} // verus!
