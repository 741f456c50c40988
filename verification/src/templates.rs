//! Template-tree synchronization planning.
//!
//! A named template set maps a source directory tree onto a per-user
//! destination tree. One synchronization run is a single linear pass:
//! compute the full action plan from the source tree's shape alone, report
//! every source path visited (so the host can register rebuild triggers),
//! delete any stale destination tree, then execute the plan — directories
//! first, then files. The planning is done here; the host performs the
//! filesystem traversal that lists the source tree and the mutations the
//! plan calls for.

use vstd::prelude::*;

verus! {

/// One entry of a source tree listing: a path relative to the source root,
/// and whether it is a directory.
#[derive(Debug, PartialEq, Eq)]
pub struct TreeEntry {
    pub rel_path: String,
    pub is_dir: bool,
}

/// One unit of synchronization work, computed before any mutation happens.
#[derive(Debug, PartialEq, Eq)]
pub enum TemplateAction {
    CreateDirectory { dest: String },
    CopyFile { src: String, dest: String },
}

/// A `TemplateAction`, with its paths as sequences of characters.
pub enum ActionView {
    CreateDirectory { dest: Seq<char> },
    CopyFile { src: Seq<char>, dest: Seq<char> },
}

impl View for TemplateAction {
    type V = ActionView;

    open spec fn view(&self) -> ActionView {
        match self {
            TemplateAction::CreateDirectory { dest } => (ActionView::CreateDirectory {
                dest: dest@,
            }),
            TemplateAction::CopyFile { src, dest } => (ActionView::CopyFile {
                src: src@,
                dest: dest@,
            }),
        }
    }
}

/// One named template category: where its source tree lives and where its
/// destination tree is materialized.
#[derive(Debug, PartialEq, Eq)]
pub struct TemplateSet {
    pub name: String,
    pub source_root: String,
    pub destination_root: String,
}

/// The computed plan of one synchronization run, and every source path
/// visited while computing it.
#[derive(Debug, PartialEq, Eq)]
pub struct SyncPlan {
    pub actions: Vec<TemplateAction>,
    pub visited: Vec<String>,
}

/// `base` and `rel`, joined with a path separator.
pub open spec fn join_path(base: Seq<char>, rel: Seq<char>) -> Seq<char> {
    base + "/"@ + rel
}

/// The full source path of an entry.
pub open spec fn src_path(set: TemplateSet, e: TreeEntry) -> Seq<char> {
    join_path(set.source_root@, e.rel_path@)
}

/// The full destination path of an entry.
pub open spec fn dest_path(set: TemplateSet, e: TreeEntry) -> Seq<char> {
    join_path(set.destination_root@, e.rel_path@)
}

/// The one action an entry maps to: directories are created at, files are
/// copied to, the corresponding destination path.
pub open spec fn entry_action(set: TemplateSet, e: TreeEntry) -> ActionView {
    if e.is_dir {
        ActionView::CreateDirectory { dest: dest_path(set, e) }
    } else {
        ActionView::CopyFile { src: src_path(set, e), dest: dest_path(set, e) }
    }
}

/// The actions for the directory entries, in source order.
pub open spec fn dir_actions(set: TemplateSet, entries: Seq<TreeEntry>) -> Seq<ActionView>
    decreases entries.len(),
{
    if entries.len() == 0 {
        Seq::empty()
    } else if entries.last().is_dir {
        dir_actions(set, entries.drop_last()).push(entry_action(set, entries.last()))
    } else {
        dir_actions(set, entries.drop_last())
    }
}

/// The actions for the file entries, in source order.
pub open spec fn file_actions(set: TemplateSet, entries: Seq<TreeEntry>) -> Seq<ActionView>
    decreases entries.len(),
{
    if entries.len() == 0 {
        Seq::empty()
    } else if !entries.last().is_dir {
        file_actions(set, entries.drop_last()).push(entry_action(set, entries.last()))
    } else {
        file_actions(set, entries.drop_last())
    }
}

/// The full plan of a run: every directory creation, in source order, then
/// every file copy, in source order — directories strictly before files.
pub open spec fn planned_actions(set: TemplateSet, entries: Seq<TreeEntry>) -> Seq<ActionView> {
    dir_actions(set, entries) + file_actions(set, entries)
}

/// Every source path visited while planning: one per entry, in source order.
pub open spec fn visited_paths(set: TemplateSet, entries: Seq<TreeEntry>) -> Seq<Seq<char>>
    decreases entries.len(),
{
    if entries.len() == 0 {
        Seq::empty()
    } else {
        visited_paths(set, entries.drop_last()).push(src_path(set, entries.last()))
    }
}

/// The actions of a vector, as views.
pub open spec fn actions_view(v: Seq<TemplateAction>) -> Seq<ActionView> {
    Seq::new(v.len(), |i: int| v[i]@)
}

/// The strings of a vector, as sequences of characters.
pub open spec fn strings_view(v: Seq<String>) -> Seq<Seq<char>> {
    Seq::new(v.len(), |i: int| v[i]@)
}

/// Join a base path and a relative path with a separator.
fn join(base: &String, rel: &String) -> (r: String)
    ensures
        r@ == join_path(base@, rel@),
{
    let mut r = base.clone();
    r.append("/");
    r.append(rel.as_str());
    proof {
        assert(r@ =~= join_path(base@, rel@));
    }
    r
}

impl TemplateSet {
    /// Lay out one named template set: the source tree lives under
    /// `source_base`, and the destination tree under the user-scoped
    /// configuration location, as
    /// `<config_root>/.<product>/<name>-templates`.
    pub fn new(product: &str, config_root: &str, source_base: &str, name: &str) -> (r:
        TemplateSet)
        ensures
            r.name@ == name@,
            r.source_root@ == source_base@ + "/"@ + name@ + "-templates"@,
            r.destination_root@ == config_root@ + "/."@ + product@ + "/"@ + name@
                + "-templates"@,
    {
        let mut dir_name = String::from_str(name);
        dir_name.append("-templates");
        let mut source_root = String::from_str(source_base);
        source_root.append("/");
        source_root.append(dir_name.as_str());
        let mut destination_root = String::from_str(config_root);
        destination_root.append("/.");
        destination_root.append(product);
        destination_root.append("/");
        destination_root.append(dir_name.as_str());
        proof {
            assert(source_root@ =~= source_base@ + "/"@ + name@ + "-templates"@);
            assert(destination_root@ =~= config_root@ + "/."@ + product@ + "/"@ + name@
                + "-templates"@);
        }
        TemplateSet { name: String::from_str(name), source_root, destination_root }
    }
}

/// Compute the full plan of one synchronization run from the source tree's
/// listing alone: a `CreateDirectory` per source directory, then a
/// `CopyFile` per source file, and the list of every source path visited.
/// No destination state is consulted — the plan depends on the source
/// tree's shape only.
pub fn plan(set: &TemplateSet, entries: &Vec<TreeEntry>) -> (p: SyncPlan)
    ensures
        actions_view(p.actions@) == planned_actions(*set, entries@),
        strings_view(p.visited@) == visited_paths(*set, entries@),
{
    let n = entries.len();
    let mut actions: Vec<TemplateAction> = Vec::new();
    let mut i: usize = 0;
    while i < n
        invariant
            n == entries@.len(),
            0 <= i <= n,
            actions_view(actions@) == dir_actions(*set, entries@.take(i as int)),
        decreases n - i,
    {
        let ghost prefix = entries@.take(i as int);
        let e = &entries[i];
        if e.is_dir {
            let a = TemplateAction::CreateDirectory { dest: join(&set.destination_root, &e.rel_path) };
            proof {
                assert(actions_view(actions@.push(a)) =~= actions_view(actions@).push(a@));
                assert(a@ == entry_action(*set, entries@[i as int]));
            }
            actions.push(a);
        }
        proof {
            assert(entries@.take(i as int + 1).drop_last() =~= prefix);
            assert(entries@.take(i as int + 1).last() == entries@[i as int]);
        }
        i += 1;
    }
    proof {
        assert(entries@.take(n as int) =~= entries@);
    }
    let mut j: usize = 0;
    while j < n
        invariant
            n == entries@.len(),
            0 <= j <= n,
            actions_view(actions@) == dir_actions(*set, entries@) + file_actions(
                *set,
                entries@.take(j as int),
            ),
        decreases n - j,
    {
        let ghost prefix = entries@.take(j as int);
        let e = &entries[j];
        if !e.is_dir {
            let a = TemplateAction::CopyFile {
                src: join(&set.source_root, &e.rel_path),
                dest: join(&set.destination_root, &e.rel_path),
            };
            proof {
                assert(actions_view(actions@.push(a)) =~= actions_view(actions@).push(a@));
                assert(a@ == entry_action(*set, entries@[j as int]));
                assert((dir_actions(*set, entries@) + file_actions(*set, prefix)).push(a@)
                    =~= dir_actions(*set, entries@) + file_actions(*set, prefix).push(a@));
            }
            actions.push(a);
        }
        proof {
            assert(entries@.take(j as int + 1).drop_last() =~= prefix);
            assert(entries@.take(j as int + 1).last() == entries@[j as int]);
        }
        j += 1;
    }
    let mut visited: Vec<String> = Vec::new();
    let mut k: usize = 0;
    while k < n
        invariant
            n == entries@.len(),
            0 <= k <= n,
            strings_view(visited@) == visited_paths(*set, entries@.take(k as int)),
        decreases n - k,
    {
        let ghost prefix = entries@.take(k as int);
        let e = &entries[k];
        let s = join(&set.source_root, &e.rel_path);
        proof {
            assert(strings_view(visited@.push(s)) =~= strings_view(visited@).push(s@));
            assert(entries@.take(k as int + 1).drop_last() =~= prefix);
            assert(entries@.take(k as int + 1).last() == entries@[k as int]);
        }
        visited.push(s);
        k += 1;
    }
    proof {
        assert(entries@.take(n as int) =~= entries@);
    }
    SyncPlan { actions, visited }
}

/// One entry of the destination tree, as the plan leaves it: a created
/// directory, or a file copied byte-for-byte from a source path.
pub enum DestEntry {
    Directory,
    FileCopiedFrom(Seq<char>),
}

/// The destination path an action touches.
pub open spec fn action_dest(a: ActionView) -> Seq<char> {
    match a {
        ActionView::CreateDirectory { dest } => dest,
        ActionView::CopyFile { dest, .. } => dest,
    }
}

/// The destination entry an action leaves at its path.
pub open spec fn action_entry(a: ActionView) -> DestEntry {
    match a {
        ActionView::CreateDirectory { .. } => DestEntry::Directory,
        ActionView::CopyFile { src, .. } => DestEntry::FileCopiedFrom(src),
    }
}

/// One action, applied to a destination tree.
pub open spec fn apply_action(tree: Map<Seq<char>, DestEntry>, a: ActionView) -> Map<
    Seq<char>,
    DestEntry,
> {
    tree.insert(action_dest(a), action_entry(a))
}

/// A whole plan, applied first action to last.
pub open spec fn apply_actions(tree: Map<Seq<char>, DestEntry>, actions: Seq<ActionView>) -> Map<
    Seq<char>,
    DestEntry,
>
    decreases actions.len(),
{
    if actions.len() == 0 {
        tree
    } else {
        apply_action(apply_actions(tree, actions.drop_last()), actions.last())
    }
}

/// What one synchronization run leaves at the destination: whatever stood
/// there before is deleted in its entirety, then the plan is executed
/// against an empty tree.
pub open spec fn sync_outcome(
    set: TemplateSet,
    entries: Seq<TreeEntry>,
    dest_before: Map<Seq<char>, DestEntry>,
) -> Map<Seq<char>, DestEntry> {
    apply_actions(Map::empty(), planned_actions(set, entries))
}

/// Law: synchronizing is idempotent modulo the delete-then-recreate side
/// effect — a second run against whatever destination the first run left
/// yields the same destination tree as a single run against an empty one.
pub proof fn lemma_sync_idempotent(
    set: TemplateSet,
    entries: Seq<TreeEntry>,
    dest_before: Map<Seq<char>, DestEntry>,
)
    ensures
        sync_outcome(set, entries, sync_outcome(set, entries, dest_before)) == sync_outcome(
            set,
            entries,
            Map::<Seq<char>, DestEntry>::empty(),
        ),
{
}

/// Law: an empty source tree produces a plan of size zero, and a run on it
/// leaves the destination empty — any stale destination is removed and
/// nothing is recreated.
pub proof fn lemma_empty_source(
    set: TemplateSet,
    dest_before: Map<Seq<char>, DestEntry>,
)
    ensures
        planned_actions(set, Seq::<TreeEntry>::empty()).len() == 0,
        sync_outcome(set, Seq::<TreeEntry>::empty(), dest_before) == Map::<
            Seq<char>,
            DestEntry,
        >::empty(),
{
    assert(planned_actions(set, Seq::<TreeEntry>::empty()) =~= Seq::<ActionView>::empty());
}

proof fn lemma_visited_pointwise(set: TemplateSet, entries: Seq<TreeEntry>)
    ensures
        visited_paths(set, entries).len() == entries.len(),
        forall|k: int|
            0 <= k < entries.len() ==> visited_paths(set, entries)[k] == src_path(
                set,
                #[trigger] entries[k],
            ),
    decreases entries.len(),
{
    if entries.len() > 0 {
        lemma_visited_pointwise(set, entries.drop_last());
        assert forall|k: int| 0 <= k < entries.len() implies visited_paths(set, entries)[k]
            == src_path(set, #[trigger] entries[k]) by {
            if k < entries.len() - 1 {
                assert(entries.drop_last()[k] == entries[k]);
                assert(visited_paths(set, entries)[k] == visited_paths(
                    set,
                    entries.drop_last(),
                )[k]);
            }
        }
    }
}

/// No two entries of a source tree listing share a relative path.
pub open spec fn entries_unique(entries: Seq<TreeEntry>) -> bool {
    forall|i: int, j: int|
        0 <= i < j < entries.len() ==> (#[trigger] entries[i]).rel_path@ != (
        #[trigger] entries[j]).rel_path@
}

proof fn lemma_join_path_injective(base: Seq<char>, r1: Seq<char>, r2: Seq<char>)
    requires
        join_path(base, r1) == join_path(base, r2),
    ensures
        r1 == r2,
{
    reveal_strlit("/");
    let a = base + "/"@;
    assert(join_path(base, r1).len() == a.len() + r1.len());
    assert(join_path(base, r2).len() == a.len() + r2.len());
    assert(r1 =~= r2) by {
        assert forall|i: int| 0 <= i < r1.len() implies r1[i] == r2[i] by {
            assert(join_path(base, r1)[a.len() + i] == r1[i]);
            assert(join_path(base, r2)[a.len() + i] == r2[i]);
        }
    }
}

/// An action stands among the actions of some directory entry.
pub open spec fn from_dir_entry(set: TemplateSet, entries: Seq<TreeEntry>, a: ActionView) -> bool {
    exists|i: int|
        0 <= i < entries.len() && (#[trigger] entries[i]).is_dir && a == entry_action(
            set,
            entries[i],
        )
}

/// An action stands among the actions of some file entry.
pub open spec fn from_file_entry(set: TemplateSet, entries: Seq<TreeEntry>, a: ActionView) -> bool {
    exists|i: int|
        0 <= i < entries.len() && !(#[trigger] entries[i]).is_dir && a == entry_action(
            set,
            entries[i],
        )
}

proof fn lemma_dir_actions_from(set: TemplateSet, entries: Seq<TreeEntry>)
    ensures
        forall|k: int|
            0 <= k < dir_actions(set, entries).len() ==> from_dir_entry(
                set,
                entries,
                #[trigger] dir_actions(set, entries)[k],
            ),
    decreases entries.len(),
{
    if entries.len() > 0 {
        let dl = entries.drop_last();
        lemma_dir_actions_from(set, dl);
        assert forall|k: int| 0 <= k < dir_actions(set, entries).len() implies from_dir_entry(
            set,
            entries,
            #[trigger] dir_actions(set, entries)[k],
        ) by {
            if k < dir_actions(set, dl).len() {
                assert(dir_actions(set, entries)[k] == dir_actions(set, dl)[k]);
                let i = choose|i: int|
                    0 <= i < dl.len() && (#[trigger] dl[i]).is_dir && dir_actions(set, dl)[k]
                        == entry_action(set, dl[i]);
                assert(dl[i] == entries[i]);
                assert(entries[i].is_dir && dir_actions(set, entries)[k] == entry_action(
                    set,
                    entries[i],
                ));
            } else {
                assert(entries.last().is_dir);
                assert(entries[entries.len() - 1].is_dir && dir_actions(set, entries)[k]
                    == entry_action(set, entries[entries.len() - 1]));
            }
        }
    }
}

proof fn lemma_file_actions_from(set: TemplateSet, entries: Seq<TreeEntry>)
    ensures
        forall|k: int|
            0 <= k < file_actions(set, entries).len() ==> from_file_entry(
                set,
                entries,
                #[trigger] file_actions(set, entries)[k],
            ),
    decreases entries.len(),
{
    if entries.len() > 0 {
        let dl = entries.drop_last();
        lemma_file_actions_from(set, dl);
        assert forall|k: int| 0 <= k < file_actions(set, entries).len() implies from_file_entry(
            set,
            entries,
            #[trigger] file_actions(set, entries)[k],
        ) by {
            if k < file_actions(set, dl).len() {
                assert(file_actions(set, entries)[k] == file_actions(set, dl)[k]);
                let i = choose|i: int|
                    0 <= i < dl.len() && !(#[trigger] dl[i]).is_dir && file_actions(set, dl)[k]
                        == entry_action(set, dl[i]);
                assert(dl[i] == entries[i]);
                assert(!entries[i].is_dir && file_actions(set, entries)[k] == entry_action(
                    set,
                    entries[i],
                ));
            } else {
                assert(!entries.last().is_dir);
                assert(!entries[entries.len() - 1].is_dir && file_actions(set, entries)[k]
                    == entry_action(set, entries[entries.len() - 1]));
            }
        }
    }
}

/// Position `k` holds the action of directory entry `i`, and no later
/// directory action touches the same destination path.
pub open spec fn dir_position_ok(
    set: TemplateSet,
    entries: Seq<TreeEntry>,
    i: int,
    k: int,
) -> bool {
    &&& 0 <= k < dir_actions(set, entries).len()
    &&& dir_actions(set, entries)[k] == entry_action(set, entries[i])
    &&& forall|j: int|
        k < j < dir_actions(set, entries).len() ==> action_dest(
            #[trigger] dir_actions(set, entries)[j],
        ) != dest_path(set, entries[i])
}

/// Position `k` holds the action of file entry `i`, and no later file
/// action touches the same destination path.
pub open spec fn file_position_ok(
    set: TemplateSet,
    entries: Seq<TreeEntry>,
    i: int,
    k: int,
) -> bool {
    &&& 0 <= k < file_actions(set, entries).len()
    &&& file_actions(set, entries)[k] == entry_action(set, entries[i])
    &&& forall|j: int|
        k < j < file_actions(set, entries).len() ==> action_dest(
            #[trigger] file_actions(set, entries)[j],
        ) != dest_path(set, entries[i])
}

proof fn lemma_dir_action_position(set: TemplateSet, entries: Seq<TreeEntry>, i: int)
    requires
        0 <= i < entries.len(),
        entries[i].is_dir,
        entries_unique(entries),
    ensures
        exists|k: int| dir_position_ok(set, entries, i, k),
    decreases entries.len(),
{
    let d = dir_actions(set, entries);
    let dl = entries.drop_last();
    if i == entries.len() - 1 {
        assert(entries.last() == entries[i]);
        assert(dir_position_ok(set, entries, i, dir_actions(set, dl).len() as int));
    } else {
        assert(entries_unique(dl)) by {
            assert forall|x: int, y: int|
                0 <= x < y < dl.len() implies (#[trigger] dl[x]).rel_path@ != (
            #[trigger] dl[y]).rel_path@ by {
                assert(dl[x] == entries[x] && dl[y] == entries[y]);
            }
        }
        assert(dl[i] == entries[i]);
        lemma_dir_action_position(set, dl, i);
        let k = choose|k: int| dir_position_ok(set, dl, i, k);
        if entries.last().is_dir {
            assert(d[k] == dir_actions(set, dl)[k]);
            assert forall|j: int| k < j < d.len() implies action_dest(#[trigger] d[j])
                != dest_path(set, entries[i]) by {
                if j < d.len() - 1 {
                    assert(d[j] == dir_actions(set, dl)[j]);
                    assert(dest_path(set, dl[i]) == dest_path(set, entries[i]));
                } else {
                    assert(d[j] == entry_action(set, entries.last()));
                    if action_dest(d[j]) == dest_path(set, entries[i]) {
                        lemma_join_path_injective(
                            set.destination_root@,
                            entries[entries.len() - 1].rel_path@,
                            entries[i].rel_path@,
                        );
                        assert(false);
                    }
                }
            }
            assert(dir_position_ok(set, entries, i, k));
        } else {
            assert(d =~= dir_actions(set, dl));
            assert(dir_position_ok(set, entries, i, k));
        }
    }
}

proof fn lemma_file_action_position(set: TemplateSet, entries: Seq<TreeEntry>, i: int)
    requires
        0 <= i < entries.len(),
        !entries[i].is_dir,
        entries_unique(entries),
    ensures
        exists|k: int| file_position_ok(set, entries, i, k),
    decreases entries.len(),
{
    let d = file_actions(set, entries);
    let dl = entries.drop_last();
    if i == entries.len() - 1 {
        assert(entries.last() == entries[i]);
        assert(file_position_ok(set, entries, i, file_actions(set, dl).len() as int));
    } else {
        assert(entries_unique(dl)) by {
            assert forall|x: int, y: int|
                0 <= x < y < dl.len() implies (#[trigger] dl[x]).rel_path@ != (
            #[trigger] dl[y]).rel_path@ by {
                assert(dl[x] == entries[x] && dl[y] == entries[y]);
            }
        }
        assert(dl[i] == entries[i]);
        lemma_file_action_position(set, dl, i);
        let k = choose|k: int| file_position_ok(set, dl, i, k);
        if !entries.last().is_dir {
            assert(d[k] == file_actions(set, dl)[k]);
            assert forall|j: int| k < j < d.len() implies action_dest(#[trigger] d[j])
                != dest_path(set, entries[i]) by {
                if j < d.len() - 1 {
                    assert(d[j] == file_actions(set, dl)[j]);
                    assert(dest_path(set, dl[i]) == dest_path(set, entries[i]));
                } else {
                    assert(d[j] == entry_action(set, entries.last()));
                    if action_dest(d[j]) == dest_path(set, entries[i]) {
                        lemma_join_path_injective(
                            set.destination_root@,
                            entries[entries.len() - 1].rel_path@,
                            entries[i].rel_path@,
                        );
                        assert(false);
                    }
                }
            }
            assert(file_position_ok(set, entries, i, k));
        } else {
            assert(d =~= file_actions(set, dl));
            assert(file_position_ok(set, entries, i, k));
        }
    }
}

proof fn lemma_apply_keeps(tree: Map<Seq<char>, DestEntry>, actions: Seq<ActionView>, k: int)
    requires
        0 <= k < actions.len(),
        forall|j: int|
            k < j < actions.len() ==> action_dest(#[trigger] actions[j]) != action_dest(
                actions[k],
            ),
    ensures
        apply_actions(tree, actions).contains_pair(
            action_dest(actions[k]),
            action_entry(actions[k]),
        ),
    decreases actions.len(),
{
    if k == actions.len() - 1 {
        assert(actions.last() == actions[k]);
    } else {
        let dl = actions.drop_last();
        assert forall|j: int| k < j < dl.len() implies action_dest(#[trigger] dl[j])
            != action_dest(dl[k]) by {
            assert(dl[j] == actions[j] && dl[k] == actions[k]);
        }
        assert(dl[k] == actions[k]);
        lemma_apply_keeps(tree, dl, k);
        assert(action_dest(actions.last()) != action_dest(actions[k]));
    }
}

proof fn lemma_apply_dom(tree: Map<Seq<char>, DestEntry>, actions: Seq<ActionView>, p: Seq<char>)
    requires
        apply_actions(tree, actions).dom().contains(p),
    ensures
        tree.dom().contains(p) || exists|k: int|
            0 <= k < actions.len() && action_dest(#[trigger] actions[k]) == p,
    decreases actions.len(),
{
    if actions.len() > 0 {
        if p == action_dest(actions.last()) {
            assert(0 <= actions.len() - 1 < actions.len() && action_dest(
                actions[actions.len() - 1],
            ) == p);
        } else {
            let dl = actions.drop_last();
            lemma_apply_dom(tree, dl, p);
            if !tree.dom().contains(p) {
                let k = choose|k: int|
                    0 <= k < dl.len() && action_dest(#[trigger] dl[k]) == p;
                assert(dl[k] == actions[k]);
                assert(0 <= k < actions.len() && action_dest(actions[k]) == p);
            }
        }
    }
}

/// Law: after one run on a listing without duplicate relative paths, every
/// source entry stands in the destination tree at its destination path —
/// a directory as a created directory, a file as a copy from its source
/// path — whatever the destination held before.
pub proof fn lemma_sync_materializes_entry(
    set: TemplateSet,
    entries: Seq<TreeEntry>,
    dest_before: Map<Seq<char>, DestEntry>,
    i: int,
)
    requires
        entries_unique(entries),
        0 <= i < entries.len(),
    ensures
        entries[i].is_dir ==> sync_outcome(set, entries, dest_before).contains_pair(
            dest_path(set, entries[i]),
            DestEntry::Directory,
        ),
        !entries[i].is_dir ==> sync_outcome(set, entries, dest_before).contains_pair(
            dest_path(set, entries[i]),
            DestEntry::FileCopiedFrom(src_path(set, entries[i])),
        ),
{
    let da = dir_actions(set, entries);
    let fa = file_actions(set, entries);
    let pa = planned_actions(set, entries);
    if entries[i].is_dir {
        lemma_dir_action_position(set, entries, i);
        let k = choose|k: int| dir_position_ok(set, entries, i, k);
        assert(pa[k] == da[k]);
        lemma_file_actions_from(set, entries);
        assert forall|j: int| k < j < pa.len() implies action_dest(#[trigger] pa[j])
            != action_dest(pa[k]) by {
            if j < da.len() {
                assert(pa[j] == da[j]);
            } else {
                assert(pa[j] == fa[j - da.len()]);
                assert(from_file_entry(set, entries, pa[j]));
                let e = choose|e: int|
                    0 <= e < entries.len() && !(#[trigger] entries[e]).is_dir && pa[j]
                        == entry_action(set, entries[e]);
                if action_dest(pa[j]) == action_dest(pa[k]) {
                    lemma_join_path_injective(
                        set.destination_root@,
                        entries[e].rel_path@,
                        entries[i].rel_path@,
                    );
                    assert(false);
                }
            }
        }
        lemma_apply_keeps(Map::<Seq<char>, DestEntry>::empty(), pa, k);
    } else {
        lemma_file_action_position(set, entries, i);
        let k = choose|k: int| file_position_ok(set, entries, i, k);
        let kp = da.len() + k;
        assert(pa[kp] == fa[k]);
        assert forall|j: int| kp < j < pa.len() implies action_dest(#[trigger] pa[j])
            != action_dest(pa[kp]) by {
            assert(pa[j] == fa[j - da.len()]);
        }
        lemma_apply_keeps(Map::<Seq<char>, DestEntry>::empty(), pa, kp as int);
    }
}

/// Law: a run fabricates nothing at the destination — every path in the
/// destination tree after a run is the destination path of an entry that
/// actually stands in the source tree listing.
pub proof fn lemma_sync_no_fabrication(
    set: TemplateSet,
    entries: Seq<TreeEntry>,
    dest_before: Map<Seq<char>, DestEntry>,
    p: Seq<char>,
)
    requires
        sync_outcome(set, entries, dest_before).dom().contains(p),
    ensures
        exists|i: int| 0 <= i < entries.len() && dest_path(set, #[trigger] entries[i]) == p,
{
    let da = dir_actions(set, entries);
    let fa = file_actions(set, entries);
    let pa = planned_actions(set, entries);
    lemma_apply_dom(Map::<Seq<char>, DestEntry>::empty(), pa, p);
    let k = choose|k: int| 0 <= k < pa.len() && action_dest(#[trigger] pa[k]) == p;
    lemma_dir_actions_from(set, entries);
    lemma_file_actions_from(set, entries);
    if k < da.len() {
        assert(pa[k] == da[k]);
        let e = choose|e: int|
            0 <= e < entries.len() && (#[trigger] entries[e]).is_dir && pa[k] == entry_action(
                set,
                entries[e],
            );
        assert(dest_path(set, entries[e]) == p);
    } else {
        assert(pa[k] == fa[k - da.len()]);
        let e = choose|e: int|
            0 <= e < entries.len() && !(#[trigger] entries[e]).is_dir && pa[k] == entry_action(
                set,
                entries[e],
            );
        assert(dest_path(set, entries[e]) == p);
    }
}

/// Law: in every plan the directory creations stand strictly before the
/// file copies — an action is a `CreateDirectory` exactly when its position
/// lies below the count of directory actions.
pub proof fn lemma_directories_before_files(set: TemplateSet, entries: Seq<TreeEntry>)
    ensures
        forall|k: int|
            0 <= k < planned_actions(set, entries).len() ==> ((#[trigger] planned_actions(
                set,
                entries,
            )[k]) is CreateDirectory <==> k < dir_actions(set, entries).len()),
{
    lemma_dir_actions_from(set, entries);
    lemma_file_actions_from(set, entries);
    let pa = planned_actions(set, entries);
    let da = dir_actions(set, entries);
    let fa = file_actions(set, entries);
    assert forall|k: int| 0 <= k < pa.len() implies ((#[trigger] pa[k]) is CreateDirectory <==> k
        < da.len()) by {
        if k < da.len() {
            assert(pa[k] == da[k]);
            assert(from_dir_entry(set, entries, da[k]));
            let e = choose|e: int|
                0 <= e < entries.len() && (#[trigger] entries[e]).is_dir && da[k] == entry_action(
                    set,
                    entries[e],
                );
            assert(pa[k] is CreateDirectory);
        } else {
            assert(pa[k] == fa[k - da.len()]);
            assert(from_file_entry(set, entries, fa[k - da.len()]));
            let e = choose|e: int|
                0 <= e < entries.len() && !(#[trigger] entries[e]).is_dir && fa[k - da.len()]
                    == entry_action(set, entries[e]);
            assert(!(pa[k] is CreateDirectory));
        }
    }
}

/// Law: no visited path is fabricated — every source path reported as
/// visited during planning is the source path of an entry that actually
/// stands in the source tree listing.
pub proof fn lemma_visited_from_source(set: TemplateSet, entries: Seq<TreeEntry>, k: int)
    requires
        0 <= k < visited_paths(set, entries).len(),
    ensures
        exists|i: int|
            0 <= i < entries.len() && visited_paths(set, entries)[k] == src_path(
                set,
                #[trigger] entries[i],
            ),
{
    lemma_visited_pointwise(set, entries);
    assert(0 <= k < entries.len() && visited_paths(set, entries)[k] == src_path(set, entries[k]));
}

} // verus!
