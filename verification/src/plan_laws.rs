//! What holds of every deployment plan.

use vstd::prelude::*;
use crate::deploy::{
    actions_for, flat_actions, merge_join, plan, raw_plan, redundant_after, suppress,
    ActionView, Paired,
};
use crate::order::{
    inside, lemma_path_lt_transitive, lemma_path_order_total, path_lt,
};
use crate::extensions::{extension_allowed, unix_extension};
use crate::trees::{
    kept_entries, law_local_tree_passes_the_gate, sort_by_path, strictly_sorted,
    EntryView, Walked,
};

verus! {

/// Some entry of the tree has the path.
pub open spec fn has_path(tree: Seq<EntryView>, path: Seq<char>) -> bool {
    exists|i: int| 0 <= i < tree.len() && (#[trigger] tree[i]).path == path
}

/// A step is sound for two trees: what it pairs comes from the trees, a
/// one-sided step has no partner in the other tree, and a two-sided step
/// pairs entries of one path.
pub open spec fn step_sound(local: Seq<EntryView>, remote: Seq<EntryView>, pair: Paired) -> bool {
    match pair {
        Paired::Left(l) => local.contains(l) && !has_path(remote, l.path),
        Paired::Right(r) => remote.contains(r) && !has_path(local, r.path),
        Paired::Both(l, r) => local.contains(l) && remote.contains(r) && l.path == r.path,
    }
}

/// The step holds the local entry.
pub open spec fn holds_local(pair: Paired, entry: EntryView) -> bool {
    match pair {
        Paired::Left(l) => l == entry,
        Paired::Right(_) => false,
        Paired::Both(l, _) => l == entry,
    }
}

/// The step holds the remote entry.
pub open spec fn holds_remote(pair: Paired, entry: EntryView) -> bool {
    match pair {
        Paired::Left(_) => false,
        Paired::Right(r) => r == entry,
        Paired::Both(_, r) => r == entry,
    }
}

/// Some step of the merge holds the local entry.
pub open spec fn local_met(pairs: Seq<Paired>, entry: EntryView) -> bool {
    exists|k: int| 0 <= k < pairs.len() && holds_local(#[trigger] pairs[k], entry)
}

/// Some step of the merge holds the remote entry.
pub open spec fn remote_met(pairs: Seq<Paired>, entry: EntryView) -> bool {
    exists|k: int| 0 <= k < pairs.len() && holds_remote(#[trigger] pairs[k], entry)
}

proof fn lemma_strictly_sorted_rest(tree: Seq<EntryView>)
    requires
        strictly_sorted(tree),
        tree.len() > 0,
    ensures
        strictly_sorted(tree.drop_first()),
        forall|i: int| 1 <= i < tree.len() ==> path_lt(tree[0].path, (#[trigger] tree[i]).path),
{
    let rest = tree.drop_first();
    assert forall|i: int, j: int| 0 <= i < j < rest.len() implies path_lt(
        rest[i].path,
        rest[j].path,
    ) by {
        assert(rest[i] == tree[i + 1]);
        assert(rest[j] == tree[j + 1]);
    }
}

/// Nothing in a strictly sorted tree whose first path is above `path` has `path`.
proof fn lemma_below_first_is_absent(tree: Seq<EntryView>, path: Seq<char>)
    requires
        strictly_sorted(tree),
        tree.len() > 0 ==> path_lt(path, tree[0].path),
    ensures
        !has_path(tree, path),
{
    assert forall|i: int| 0 <= i < tree.len() implies (#[trigger] tree[i]).path != path by {
        if i > 0 {
            lemma_path_lt_transitive(path, tree[0].path, tree[i].path);
        }
        lemma_path_order_total(path, tree[i].path);
    }
}

proof fn lemma_has_path_rest(tree: Seq<EntryView>, path: Seq<char>)
    requires
        tree.len() > 0,
        tree[0].path != path,
    ensures
        has_path(tree, path) <==> has_path(tree.drop_first(), path),
{
    let rest = tree.drop_first();
    if has_path(tree, path) {
        let i = choose|i: int| 0 <= i < tree.len() && (#[trigger] tree[i]).path == path;
        assert(rest[i - 1] == tree[i]);
    }
    if has_path(rest, path) {
        let i = choose|i: int| 0 <= i < rest.len() && (#[trigger] rest[i]).path == path;
        assert(tree[i + 1] == rest[i]);
    }
}

proof fn lemma_contains_rest(tree: Seq<EntryView>, entry: EntryView)
    requires
        tree.len() > 0,
        tree.drop_first().contains(entry),
    ensures
        tree.contains(entry),
{
    let rest = tree.drop_first();
    let i = choose|i: int| 0 <= i < rest.len() && rest[i] == entry;
    assert(tree[i + 1] == entry);
}

/// The merge of two strictly sorted trees pairs them path by path: each step
/// is sound, and each entry of either tree is held by some step.
pub proof fn lemma_merge_join_pairs(local: Seq<EntryView>, remote: Seq<EntryView>)
    requires
        strictly_sorted(local),
        strictly_sorted(remote),
    ensures
        forall|k: int|
            0 <= k < merge_join(local, remote).len() ==> step_sound(
                local,
                remote,
                #[trigger] merge_join(local, remote)[k],
            ),
        forall|i: int|
            0 <= i < local.len() ==> local_met(merge_join(local, remote), #[trigger] local[i]),
        forall|j: int|
            0 <= j < remote.len() ==> remote_met(merge_join(local, remote), #[trigger] remote[j]),
    decreases local.len() + remote.len(),
{
    let pairs = merge_join(local, remote);
    if local.len() == 0 && remote.len() == 0 {
    } else {
        let take_left = remote.len() == 0 || (local.len() > 0 && path_lt(
            local[0].path,
            remote[0].path,
        ));
        let take_right = !take_left && (local.len() == 0 || path_lt(
            remote[0].path,
            local[0].path,
        ));
        let l2 = if take_right {
            local
        } else {
            local.drop_first()
        };
        let r2 = if take_left {
            remote
        } else {
            remote.drop_first()
        };
        let rest = merge_join(l2, r2);
        let head = pairs[0];
        assert(pairs =~= seq![head] + rest);
        if local.len() > 0 {
            lemma_strictly_sorted_rest(local);
        }
        if remote.len() > 0 {
            lemma_strictly_sorted_rest(remote);
        }
        lemma_merge_join_pairs(l2, r2);
        if local.len() > 0 && remote.len() > 0 {
            lemma_path_order_total(local[0].path, remote[0].path);
        }
        // the first step is sound
        if take_left {
            lemma_below_first_is_absent(remote, local[0].path);
        } else if take_right {
            lemma_below_first_is_absent(local, remote[0].path);
        }
        assert(step_sound(local, remote, head));
        // the other steps stay sound
        assert forall|k: int| 1 <= k < pairs.len() implies step_sound(
            local,
            remote,
            #[trigger] pairs[k],
        ) by {
            let p = rest[k - 1];
            assert(pairs[k] == p);
            assert(step_sound(l2, r2, p));
            match p {
                Paired::Left(l) => {
                    if !take_right {
                        lemma_contains_rest(local, l);
                    }
                    if !take_left {
                        // the remote entry that left is below every local path still there
                        let i = choose|i: int| 0 <= i < l2.len() && l2[i] == l;
                        if take_right {
                            lemma_path_lt_transitive_or_first(remote[0].path, local, i);
                        } else {
                            assert(local[i + 1] == l);
                        }
                        lemma_path_order_total(remote[0].path, l.path);
                        lemma_has_path_rest(remote, l.path);
                    }
                },
                Paired::Right(r) => {
                    if !take_left {
                        lemma_contains_rest(remote, r);
                    }
                    if !take_right {
                        let j = choose|j: int| 0 <= j < r2.len() && r2[j] == r;
                        if take_left {
                            lemma_path_lt_transitive_or_first(local[0].path, remote, j);
                        } else {
                            assert(remote[j + 1] == r);
                        }
                        lemma_path_order_total(local[0].path, r.path);
                        lemma_has_path_rest(local, r.path);
                    }
                },
                Paired::Both(l, r) => {
                    if !take_right {
                        lemma_contains_rest(local, l);
                    }
                    if !take_left {
                        lemma_contains_rest(remote, r);
                    }
                },
            }
        }
        // each entry is held by some step
        assert forall|i: int| 0 <= i < local.len() implies local_met(
            pairs,
            #[trigger] local[i],
        ) by {
            if i == 0 && !take_right {
                assert(holds_local(pairs[0], local[0]));
            } else {
                let i2 = if take_right {
                    i
                } else {
                    i - 1
                };
                assert(l2[i2] == local[i]);
                assert(local_met(rest, l2[i2]));
                let k = choose|k: int| 0 <= k < rest.len() && holds_local(
                    #[trigger] rest[k],
                    local[i],
                );
                assert(holds_local(pairs[k + 1], local[i]));
            }
        }
        assert forall|j: int| 0 <= j < remote.len() implies remote_met(
            pairs,
            #[trigger] remote[j],
        ) by {
            if j == 0 && !take_left {
                assert(holds_remote(pairs[0], remote[0]));
            } else {
                let j2 = if take_left {
                    j
                } else {
                    j - 1
                };
                assert(r2[j2] == remote[j]);
                assert(remote_met(rest, r2[j2]));
                let k = choose|k: int| 0 <= k < rest.len() && holds_remote(
                    #[trigger] rest[k],
                    remote[j],
                );
                assert(holds_remote(pairs[k + 1], remote[j]));
            }
        }
    }
}

/// A path below the first path of a strictly sorted tree is below all its paths.
proof fn lemma_path_lt_transitive_or_first(path: Seq<char>, tree: Seq<EntryView>, i: int)
    requires
        strictly_sorted(tree),
        0 <= i < tree.len(),
        path_lt(path, tree[0].path),
    ensures
        path_lt(path, tree[i].path),
{
    if i > 0 {
        lemma_path_lt_transitive(path, tree[0].path, tree[i].path);
    }
}

/// In a strictly sorted tree a path occurs once.
pub proof fn lemma_path_occurs_once(tree: Seq<EntryView>, a: int, b: int)
    requires
        strictly_sorted(tree),
        0 <= a < tree.len(),
        0 <= b < tree.len(),
        tree[a].path == tree[b].path,
    ensures
        a == b,
{
    lemma_path_order_total(tree[a].path, tree[b].path);
}

/// Some step of the merge asks for the action.
pub open spec fn asked(pairs: Seq<Paired>, action: ActionView) -> bool {
    exists|k: int| 0 <= k < pairs.len() && actions_for(#[trigger] pairs[k]).contains(action)
}

/// An action is among the actions of a merge exactly when some step asks for it.
pub proof fn lemma_flat_actions_contains(pairs: Seq<Paired>, action: ActionView)
    ensures
        flat_actions(pairs).contains(action) <==> asked(pairs, action),
    decreases pairs.len(),
{
    if pairs.len() > 0 {
        let init = pairs.drop_last();
        let a = flat_actions(init);
        let b = actions_for(pairs.last());
        lemma_flat_actions_contains(init, action);
        if (a + b).contains(action) {
            let n = choose|n: int| 0 <= n < (a + b).len() && (a + b)[n] == action;
            if n < a.len() {
                assert(a[n] == action);
                let k = choose|k: int|
                    0 <= k < init.len() && actions_for(#[trigger] init[k]).contains(action);
                assert(pairs[k] == init[k]);
            } else {
                assert(b[n - a.len()] == action);
                assert(actions_for(pairs[pairs.len() - 1]).contains(action));
            }
        }
        if asked(pairs, action) {
            let k = choose|k: int|
                0 <= k < pairs.len() && actions_for(#[trigger] pairs[k]).contains(action);
            if k < init.len() {
                assert(init[k] == pairs[k]);
                assert(asked(init, action));
                let n = choose|n: int| 0 <= n < a.len() && a[n] == action;
                assert((a + b)[n] == action);
            } else {
                let n = choose|n: int| 0 <= n < b.len() && b[n] == action;
                assert((a + b)[a.len() + n] == action);
            }
        }
    }
}

/// What is kept of a raw plan is part of it.
pub proof fn lemma_suppress_keeps_only_raw(raw: Seq<ActionView>)
    ensures
        forall|a: ActionView| #[trigger] suppress(raw).contains(a) ==> raw.contains(a),
    decreases raw.len(),
{
    if raw.len() > 0 {
        let init = raw.drop_last();
        let kept = suppress(init);
        lemma_suppress_keeps_only_raw(init);
        assert forall|a: ActionView| #[trigger] suppress(raw).contains(a) implies raw.contains(
            a,
        ) by {
            let n = choose|n: int| 0 <= n < suppress(raw).len() && suppress(raw)[n] == a;
            if n < kept.len() {
                assert(kept[n] == a);
                assert(kept.contains(a));
                let m = choose|m: int| 0 <= m < init.len() && init[m] == a;
                assert(raw[m] == a);
            } else {
                assert(raw[raw.len() - 1] == a);
            }
        }
    }
}

/// An action of the raw plan is kept, or it deletes something inside a
/// directory whose deletion is kept. Uploads are always kept.
pub proof fn lemma_suppress_drops_only_covered(raw: Seq<ActionView>)
    ensures
        forall|a: ActionView| #[trigger]
            raw.contains(a) ==> suppress(raw).contains(a) || covered(suppress(raw), a),
        forall|a: ActionView| #[trigger]
            raw.contains(a) && a is Upload ==> suppress(raw).contains(a),
    decreases raw.len(),
{
    if raw.len() > 0 {
        let init = raw.drop_last();
        let kept = suppress(init);
        let last = raw.last();
        let now = suppress(raw);
        lemma_suppress_drops_only_covered(init);
        assert forall|a: ActionView| #[trigger] kept.contains(a) implies now.contains(a) by {
            let n = choose|n: int| 0 <= n < kept.len() && kept[n] == a;
            assert(now[n] == a);
        }
        assert forall|a: ActionView| covered(kept, a) implies covered(now, a) by {
            let m = choose|m: int|
                0 <= m < kept.len() && (#[trigger] kept[m]) is DeleteRemote && inside(
                    kept[m].entry().path,
                    a.entry().path,
                );
            assert(now[m] == kept[m]);
        }
        assert forall|a: ActionView| #[trigger] raw.contains(a) implies now.contains(a)
            || covered(now, a) by {
            let n = choose|n: int| 0 <= n < raw.len() && raw[n] == a;
            if n < init.len() {
                assert(init[n] == a);
                assert(init.contains(a));
            } else if redundant_after(kept, last) {
                assert(now[kept.len() - 1] == kept.last());
            } else {
                assert(now[kept.len() as int] == a);
            }
        }
        assert forall|a: ActionView| #[trigger] raw.contains(a) && a is Upload implies now.contains(
            a,
        ) by {
            let n = choose|n: int| 0 <= n < raw.len() && raw[n] == a;
            if n < init.len() {
                assert(init[n] == a);
                assert(init.contains(a));
            } else {
                assert(now[kept.len() as int] == a);
            }
        }
    }
}

/// The action deletes something inside a directory that one of the kept
/// actions deletes.
pub open spec fn covered(kept: Seq<ActionView>, action: ActionView) -> bool {
    &&& action is DeleteRemote
    &&& exists|m: int|
        0 <= m < kept.len() && (#[trigger] kept[m]) is DeleteRemote && inside(
            kept[m].entry().path,
            action.entry().path,
        )
}

/// The remote tree has nothing to say against the local file: it lacks the
/// path, or holds a directory there, or a file of other content.
pub open spec fn wants_upload(entry: EntryView, remote: Seq<EntryView>) -> bool {
    &&& entry.is_file()
    &&& forall|j: int|
        0 <= j < remote.len() && (#[trigger] remote[j]).path == entry.path ==> !(remote[j].is_file()
            && entry.is_same(remote[j]))
}

/// The local tree lacks the path of the remote entry, or holds an entry of
/// the other kind there.
pub open spec fn wants_delete(entry: EntryView, local: Seq<EntryView>) -> bool {
    forall|i: int|
        0 <= i < local.len() && (#[trigger] local[i]).path == entry.path ==> local[i].is_file()
            != entry.is_file()
}

/// A local entry is uploaded exactly when it is a file and the remote tree
/// lacks its path, holds a directory there, or holds a file whose size or
/// digest differs. Equal size alone does not spare the upload, and a file of
/// equal size and digest is never uploaded.
pub proof fn law_upload(local: Seq<EntryView>, remote: Seq<EntryView>, i: int)
    requires
        strictly_sorted(local),
        strictly_sorted(remote),
        0 <= i < local.len(),
    ensures
        plan(local, remote).contains(ActionView::Upload(local[i])) <==> wants_upload(
            local[i],
            remote,
        ),
{
    let pairs = merge_join(local, remote);
    let raw = raw_plan(local, remote);
    let entry = local[i];
    let action = ActionView::Upload(entry);
    lemma_merge_join_pairs(local, remote);
    lemma_flat_actions_contains(pairs, action);
    lemma_suppress_keeps_only_raw(raw);
    lemma_suppress_drops_only_covered(raw);
    if asked(pairs, action) {
        let k = choose|k: int|
            0 <= k < pairs.len() && actions_for(#[trigger] pairs[k]).contains(action);
        lemma_asks_upload(pairs[k], entry);
        assert(step_sound(local, remote, pairs[k]));
        match pairs[k] {
            Paired::Both(l, r) => {
                let j0 = choose|j: int| 0 <= j < remote.len() && remote[j] == r;
                assert forall|j: int|
                    0 <= j < remote.len() && (#[trigger] remote[j]).path == entry.path implies !(
                remote[j].is_file() && entry.is_same(remote[j])) by {
                    lemma_path_occurs_once(remote, j, j0);
                }
            },
            _ => {},
        }
    }
    if wants_upload(entry, remote) {
        assert(local_met(pairs, local[i]));
        let k = choose|k: int| 0 <= k < pairs.len() && holds_local(#[trigger] pairs[k], entry);
        assert(step_sound(local, remote, pairs[k]));
        match pairs[k] {
            Paired::Both(l, r) => {
                let j0 = choose|j: int| 0 <= j < remote.len() && remote[j] == r;
                assert(remote[j0].path == entry.path);
            },
            _ => {},
        }
        lemma_asks_upload(pairs[k], entry);
    }
}

/// A step asks for the upload of an entry exactly when it holds the entry as
/// a local file with no remote file of the same content beside it.
proof fn lemma_asks_upload(pair: Paired, entry: EntryView)
    ensures
        actions_for(pair).contains(ActionView::Upload(entry)) <==> holds_local(pair, entry)
            && entry.is_file() && !(pair matches Paired::Both(_, r) && r.is_file()
            && entry.is_same(r)),
{
    let acts = actions_for(pair);
    let action = ActionView::Upload(entry);
    if acts.contains(action) {
        let n = choose|n: int| 0 <= n < acts.len() && acts[n] == action;
    }
    if holds_local(pair, entry) && entry.is_file() && !(pair matches Paired::Both(_, r)
        && r.is_file() && entry.is_same(r)) {
        match pair {
            Paired::Left(l) => {
                assert(acts[0] == action);
            },
            Paired::Right(_) => {},
            Paired::Both(l, r) => {
                if r.is_file() {
                    assert(acts[0] == action);
                } else {
                    assert(acts[1] == action);
                }
            },
        }
    }
}

/// A step asks for the deletion of an entry exactly when it holds the entry
/// as a remote one with no local entry of the same kind beside it.
proof fn lemma_asks_delete(pair: Paired, entry: EntryView)
    ensures
        actions_for(pair).contains(ActionView::DeleteRemote(entry)) <==> holds_remote(pair, entry)
            && !(pair matches Paired::Both(l, _) && l.is_file() == entry.is_file()),
{
    let acts = actions_for(pair);
    let action = ActionView::DeleteRemote(entry);
    if acts.contains(action) {
        let n = choose|n: int| 0 <= n < acts.len() && acts[n] == action;
    }
    if holds_remote(pair, entry) && !(pair matches Paired::Both(l, _) && l.is_file()
        == entry.is_file()) {
        assert(acts[0] == action);
    }
}

/// Before redundant deletions are taken out, a remote entry is deleted
/// exactly when the local tree lacks its path or holds an entry of the other
/// kind there. In the plan itself such a deletion stands, or it is inside a
/// directory whose deletion stands; no other deletion is planned.
pub proof fn law_delete(local: Seq<EntryView>, remote: Seq<EntryView>, j: int)
    requires
        strictly_sorted(local),
        strictly_sorted(remote),
        0 <= j < remote.len(),
    ensures
        raw_plan(local, remote).contains(ActionView::DeleteRemote(remote[j])) <==> wants_delete(
            remote[j],
            local,
        ),
        plan(local, remote).contains(ActionView::DeleteRemote(remote[j])) ==> wants_delete(
            remote[j],
            local,
        ),
        wants_delete(remote[j], local) ==> plan(local, remote).contains(
            ActionView::DeleteRemote(remote[j]),
        ) || covered(plan(local, remote), ActionView::DeleteRemote(remote[j])),
{
    let pairs = merge_join(local, remote);
    let raw = raw_plan(local, remote);
    let entry = remote[j];
    let action = ActionView::DeleteRemote(entry);
    lemma_merge_join_pairs(local, remote);
    lemma_flat_actions_contains(pairs, action);
    lemma_suppress_keeps_only_raw(raw);
    lemma_suppress_drops_only_covered(raw);
    if asked(pairs, action) {
        let k = choose|k: int|
            0 <= k < pairs.len() && actions_for(#[trigger] pairs[k]).contains(action);
        lemma_asks_delete(pairs[k], entry);
        assert(step_sound(local, remote, pairs[k]));
        match pairs[k] {
            Paired::Both(l, r) => {
                let i0 = choose|i: int| 0 <= i < local.len() && local[i] == l;
                assert forall|i: int|
                    0 <= i < local.len() && (#[trigger] local[i]).path
                        == entry.path implies local[i].is_file() != entry.is_file() by {
                    lemma_path_occurs_once(local, i, i0);
                }
            },
            _ => {},
        }
    }
    if wants_delete(entry, local) {
        assert(remote_met(pairs, remote[j]));
        let k = choose|k: int| 0 <= k < pairs.len() && holds_remote(#[trigger] pairs[k], entry);
        assert(step_sound(local, remote, pairs[k]));
        match pairs[k] {
            Paired::Both(l, r) => {
                let i0 = choose|i: int| 0 <= i < local.len() && local[i] == l;
                assert(local[i0].path == entry.path);
            },
            _ => {},
        }
        lemma_asks_delete(pairs[k], entry);
    }
}

/// Every action of a plan uploads a file of the local tree or deletes an
/// entry of the remote tree.
pub proof fn law_plan_acts_on_trees(local: Seq<EntryView>, remote: Seq<EntryView>, n: int)
    requires
        strictly_sorted(local),
        strictly_sorted(remote),
        0 <= n < plan(local, remote).len(),
    ensures
        match plan(local, remote)[n] {
            ActionView::Upload(e) => local.contains(e) && e.is_file(),
            ActionView::DeleteRemote(e) => remote.contains(e),
        },
{
    let pairs = merge_join(local, remote);
    let raw = raw_plan(local, remote);
    let action = plan(local, remote)[n];
    assert(plan(local, remote).contains(action));
    lemma_suppress_keeps_only_raw(raw);
    lemma_merge_join_pairs(local, remote);
    lemma_flat_actions_contains(pairs, action);
    let k = choose|k: int|
        0 <= k < pairs.len() && actions_for(#[trigger] pairs[k]).contains(action);
    assert(step_sound(local, remote, pairs[k]));
    lemma_asks_upload(pairs[k], action.entry());
    lemma_asks_delete(pairs[k], action.entry());
}

/// The remote tree holds what a deployment of the local tree leaves: every
/// remote entry has the path, kind, size and digest of a local entry, and
/// every local file is there.
pub open spec fn deployed(local: Seq<EntryView>, remote: Seq<EntryView>) -> bool {
    &&& forall|j: int|
        0 <= j < remote.len() ==> exists|i: int|
            0 <= i < local.len() && (#[trigger] local[i]).path == (#[trigger] remote[j]).path
                && local[i].info == remote[j].info
    &&& forall|i: int|
        0 <= i < local.len() && (#[trigger] local[i]).is_file() ==> has_path(remote, local[i].path)
}

/// Planning again after a deployment finds nothing to do: when the remote
/// tree holds what the local tree deploys, the plan is empty.
pub proof fn law_deployed_plan_is_empty(local: Seq<EntryView>, remote: Seq<EntryView>)
    requires
        strictly_sorted(local),
        strictly_sorted(remote),
        deployed(local, remote),
    ensures
        plan(local, remote) == Seq::<ActionView>::empty(),
{
    let pairs = merge_join(local, remote);
    let raw = raw_plan(local, remote);
    lemma_merge_join_pairs(local, remote);
    if raw.len() > 0 {
        let action = raw[0];
        assert(raw.contains(action));
        lemma_flat_actions_contains(pairs, action);
        let k = choose|k: int|
            0 <= k < pairs.len() && actions_for(#[trigger] pairs[k]).contains(action);
        assert(step_sound(local, remote, pairs[k]));
        lemma_asks_upload(pairs[k], action.entry());
        lemma_asks_delete(pairs[k], action.entry());
        match pairs[k] {
            Paired::Left(l) => {
                let i = choose|i: int| 0 <= i < local.len() && local[i] == l;
                assert(local[i].is_file());
            },
            Paired::Right(r) => {
                let j = choose|j: int| 0 <= j < remote.len() && remote[j] == r;
                let i = choose|i: int|
                    0 <= i < local.len() && (#[trigger] local[i]).path == remote[j].path
                        && local[i].info == remote[j].info;
                assert(local[i].path == r.path);
            },
            Paired::Both(l, r) => {
                let i0 = choose|i: int| 0 <= i < local.len() && local[i] == l;
                let j = choose|j: int| 0 <= j < remote.len() && remote[j] == r;
                let i = choose|i: int|
                    0 <= i < local.len() && (#[trigger] local[i]).path == remote[j].path
                        && local[i].info == remote[j].info;
                lemma_path_occurs_once(local, i, i0);
            },
        }
    }
    assert(raw =~= Seq::empty());
}

/// A remote file of a type that a free account may not hold is deleted even
/// if the local directory holds a file of its path: the local tree leaves
/// such a file out, so the site is cleared of it.
pub proof fn law_gated_file_is_deleted(
    steps: Seq<Walked>,
    separator: char,
    remote: Seq<EntryView>,
    j: int,
)
    requires
        strictly_sorted(sort_by_path(kept_entries(steps, separator, true))),
        strictly_sorted(remote),
        0 <= j < remote.len(),
        remote[j].is_file(),
        !extension_allowed(true, unix_extension(remote[j].path)),
    ensures
        raw_plan(sort_by_path(kept_entries(steps, separator, true)), remote).contains(
            ActionView::DeleteRemote(remote[j]),
        ),
        forall|n: int|
            0 <= n < plan(sort_by_path(kept_entries(steps, separator, true)), remote).len()
                && #[trigger] plan(sort_by_path(kept_entries(steps, separator, true)), remote)[n]
                is Upload ==> plan(
                sort_by_path(kept_entries(steps, separator, true)),
                remote,
            )[n].entry().path != remote[j].path,
{
    let local = sort_by_path(kept_entries(steps, separator, true));
    assert forall|i: int|
        0 <= i < local.len() && (#[trigger] local[i]).path
            == remote[j].path implies local[i].is_file() != remote[j].is_file() by {
        law_local_tree_passes_the_gate(steps, separator, true, i);
    }
    law_delete(local, remote, j);
    assert forall|n: int|
        0 <= n < plan(local, remote).len() && #[trigger] plan(local, remote)[n]
            is Upload implies plan(local, remote)[n].entry().path != remote[j].path by {
        law_plan_acts_on_trees(local, remote, n);
        let e = plan(local, remote)[n].entry();
        let i = choose|i: int| 0 <= i < local.len() && local[i] == e;
        law_local_tree_passes_the_gate(steps, separator, true, i);
    }
}

/// The path that a step of the merge is about.
pub open spec fn pair_path(pair: Paired) -> Seq<char> {
    match pair {
        Paired::Left(l) => l.path,
        Paired::Right(r) => r.path,
        Paired::Both(l, _) => l.path,
    }
}

/// Every path of the tree is above the given one.
pub open spec fn all_above(tree: Seq<EntryView>, path: Seq<char>) -> bool {
    forall|i: int| 0 <= i < tree.len() ==> path_lt(path, (#[trigger] tree[i]).path)
}

proof fn lemma_all_above_from_first(tree: Seq<EntryView>, path: Seq<char>)
    requires
        strictly_sorted(tree),
        tree.len() > 0 ==> path_lt(path, tree[0].path),
    ensures
        all_above(tree, path),
{
    assert forall|i: int| 0 <= i < tree.len() implies path_lt(path, (#[trigger] tree[i]).path) by {
        lemma_path_lt_transitive_or_first(path, tree, i);
    }
}

/// The merge of two strictly sorted trees walks the paths in strictly
/// ascending order: each path has one step.
pub proof fn lemma_merge_join_ascends(local: Seq<EntryView>, remote: Seq<EntryView>)
    requires
        strictly_sorted(local),
        strictly_sorted(remote),
    ensures
        forall|a: int, b: int|
            0 <= a < b < merge_join(local, remote).len() ==> path_lt(
                pair_path(#[trigger] merge_join(local, remote)[a]),
                pair_path(#[trigger] merge_join(local, remote)[b]),
            ),
    decreases local.len() + remote.len(),
{
    let pairs = merge_join(local, remote);
    if local.len() == 0 && remote.len() == 0 {
    } else {
        let take_left = remote.len() == 0 || (local.len() > 0 && path_lt(
            local[0].path,
            remote[0].path,
        ));
        let take_right = !take_left && (local.len() == 0 || path_lt(
            remote[0].path,
            local[0].path,
        ));
        let l2 = if take_right {
            local
        } else {
            local.drop_first()
        };
        let r2 = if take_left {
            remote
        } else {
            remote.drop_first()
        };
        let rest = merge_join(l2, r2);
        let head = pairs[0];
        let at = pair_path(head);
        assert(pairs =~= seq![head] + rest);
        if local.len() > 0 {
            lemma_strictly_sorted_rest(local);
        }
        if remote.len() > 0 {
            lemma_strictly_sorted_rest(remote);
        }
        if local.len() > 0 && remote.len() > 0 {
            lemma_path_order_total(local[0].path, remote[0].path);
        }
        lemma_merge_join_ascends(l2, r2);
        lemma_merge_join_pairs(l2, r2);
        // what is left of both trees is above the path of the first step
        assert(all_above(l2, at)) by {
            if take_right {
                lemma_all_above_from_first(local, at);
            } else {
                assert forall|i: int| 0 <= i < l2.len() implies path_lt(
                    at,
                    (#[trigger] l2[i]).path,
                ) by {
                    assert(l2[i] == local[i + 1]);
                }
            }
        }
        assert(all_above(r2, at)) by {
            if take_left {
                lemma_all_above_from_first(remote, at);
            } else {
                assert forall|j: int| 0 <= j < r2.len() implies path_lt(
                    at,
                    (#[trigger] r2[j]).path,
                ) by {
                    assert(r2[j] == remote[j + 1]);
                }
            }
        }
        assert forall|a: int, b: int| 0 <= a < b < pairs.len() implies path_lt(
            pair_path(#[trigger] pairs[a]),
            pair_path(#[trigger] pairs[b]),
        ) by {
            assert(pairs[b] == rest[b - 1]);
            if a == 0 {
                let p = rest[b - 1];
                assert(step_sound(l2, r2, p));
                match p {
                    Paired::Left(l) => {
                        let i = choose|i: int| 0 <= i < l2.len() && l2[i] == l;
                        assert(path_lt(at, l2[i].path));
                    },
                    Paired::Right(r) => {
                        let j = choose|j: int| 0 <= j < r2.len() && r2[j] == r;
                        assert(path_lt(at, r2[j].path));
                    },
                    Paired::Both(l, r) => {
                        let i = choose|i: int| 0 <= i < l2.len() && l2[i] == l;
                        assert(path_lt(at, l2[i].path));
                    },
                }
            } else {
                assert(pairs[a] == rest[a - 1]);
            }
        }
    }
}

/// One action may stand before another in a plan: its path is below the
/// other's, or both have one path, the first deletes and the second uploads.
pub open spec fn may_precede(first: ActionView, second: ActionView) -> bool {
    ||| path_lt(first.entry().path, second.entry().path)
    ||| (first.entry().path == second.entry().path && first is DeleteRemote && second is Upload)
}

/// The actions stand in the order of their paths, a deletion before the
/// upload of the same path.
pub open spec fn in_plan_order(actions: Seq<ActionView>) -> bool {
    forall|a: int, b: int|
        0 <= a < b < actions.len() ==> may_precede(#[trigger] actions[a], #[trigger] actions[b])
}

proof fn lemma_flat_actions_in_order(pairs: Seq<Paired>)
    requires
        forall|a: int, b: int|
            0 <= a < b < pairs.len() ==> path_lt(
                pair_path(#[trigger] pairs[a]),
                pair_path(#[trigger] pairs[b]),
            ),
        forall|k: int|
            0 <= k < pairs.len() ==> (#[trigger] pairs[k] matches Paired::Both(l, r) ==> l.path
                == r.path),
    ensures
        in_plan_order(flat_actions(pairs)),
        forall|n: int|
            0 <= n < flat_actions(pairs).len() ==> exists|k: int|
                0 <= k < pairs.len() && pair_path(#[trigger] pairs[k]) == (
                #[trigger] flat_actions(pairs)[n]).entry().path,
    decreases pairs.len(),
{
    if pairs.len() > 0 {
        let init = pairs.drop_last();
        let last = pairs.last();
        let head = flat_actions(init);
        let tail = actions_for(last);
        let raw = flat_actions(pairs);
        assert forall|a: int, b: int| 0 <= a < b < init.len() implies path_lt(
            pair_path(#[trigger] init[a]),
            pair_path(#[trigger] init[b]),
        ) by {
            assert(init[a] == pairs[a] && init[b] == pairs[b]);
        }
        assert forall|k: int| 0 <= k < init.len() implies (#[trigger] init[k] matches Paired::Both(
            l,
            r,
        ) ==> l.path == r.path) by {
            assert(init[k] == pairs[k]);
        }
        lemma_flat_actions_in_order(init);
        assert(pairs[pairs.len() - 1] == last);
        assert forall|n: int| 0 <= n < raw.len() implies exists|k: int|
            0 <= k < pairs.len() && pair_path(#[trigger] pairs[k]) == (
            #[trigger] raw[n]).entry().path by {
            if n < head.len() {
                assert(raw[n] == head[n]);
                let k = choose|k: int|
                    0 <= k < init.len() && pair_path(#[trigger] init[k]) == head[n].entry().path;
                assert(pairs[k] == init[k]);
            } else {
                assert(raw[n] == tail[n - head.len()]);
                assert(pair_path(pairs[pairs.len() - 1]) == raw[n].entry().path);
            }
        }
        assert forall|a: int, b: int| 0 <= a < b < raw.len() implies may_precede(
            #[trigger] raw[a],
            #[trigger] raw[b],
        ) by {
            if b < head.len() {
                assert(raw[a] == head[a] && raw[b] == head[b]);
            } else if a < head.len() {
                assert(raw[a] == head[a]);
                assert(raw[b] == tail[b - head.len()]);
                let k = choose|k: int|
                    0 <= k < init.len() && pair_path(#[trigger] init[k]) == head[a].entry().path;
                assert(pairs[k] == init[k]);
                assert(path_lt(pair_path(pairs[k]), pair_path(pairs[pairs.len() - 1])));
            } else {
                assert(raw[a] == tail[a - head.len()]);
                assert(raw[b] == tail[b - head.len()]);
            }
        }
    }
}

proof fn lemma_suppress_keeps_order(raw: Seq<ActionView>)
    requires
        in_plan_order(raw),
    ensures
        in_plan_order(suppress(raw)),
    decreases raw.len(),
{
    if raw.len() > 0 {
        let init = raw.drop_last();
        let kept = suppress(init);
        let now = suppress(raw);
        assert forall|a: int, b: int| 0 <= a < b < init.len() implies may_precede(
            #[trigger] init[a],
            #[trigger] init[b],
        ) by {
            assert(init[a] == raw[a] && init[b] == raw[b]);
        }
        lemma_suppress_keeps_order(init);
        lemma_suppress_keeps_only_raw(init);
        assert forall|a: int, b: int| 0 <= a < b < now.len() implies may_precede(
            #[trigger] now[a],
            #[trigger] now[b],
        ) by {
            if b < kept.len() {
                assert(now[a] == kept[a] && now[b] == kept[b]);
            } else {
                assert(now[a] == kept[a]);
                assert(kept.contains(kept[a]));
                let m = choose|m: int| 0 <= m < init.len() && init[m] == kept[a];
                assert(raw[m] == kept[a]);
                assert(now[b] == raw[raw.len() - 1]);
            }
        }
    }
}

/// The actions of a plan stand in the order of their paths, and where a
/// path is both deleted and uploaded the deletion comes first: of any two
/// actions the earlier one has the lower path, or both have one path, the
/// earlier one deletes it and the later one uploads it.
pub proof fn law_plan_order(local: Seq<EntryView>, remote: Seq<EntryView>, a: int, b: int)
    requires
        strictly_sorted(local),
        strictly_sorted(remote),
        0 <= a < b < plan(local, remote).len(),
    ensures
        may_precede(plan(local, remote)[a], plan(local, remote)[b]),
{
    let pairs = merge_join(local, remote);
    lemma_merge_join_ascends(local, remote);
    lemma_merge_join_pairs(local, remote);
    assert forall|k: int| 0 <= k < pairs.len() implies (#[trigger] pairs[k] matches Paired::Both(
        l,
        r,
    ) ==> l.path == r.path) by {
        assert(step_sound(local, remote, pairs[k]));
    }
    lemma_flat_actions_in_order(pairs);
    lemma_suppress_keeps_order(raw_plan(local, remote));
}

/// No kept action is redundant after the one kept just before it: a plan
/// never deletes something right after the directory that holds it.
pub proof fn law_no_redundant_neighbours(raw: Seq<ActionView>, n: int)
    requires
        0 < n < suppress(raw).len(),
    ensures
        !(suppress(raw)[n - 1] is DeleteRemote && suppress(raw)[n] is DeleteRemote && inside(
            suppress(raw)[n - 1].entry().path,
            suppress(raw)[n].entry().path,
        )),
    decreases raw.len(),
{
    let init = raw.drop_last();
    let kept = suppress(init);
    if n < kept.len() {
        law_no_redundant_neighbours(init, n);
    } else {
        assert(!redundant_after(kept, raw.last()));
        assert(kept.last() == kept[n - 1]);
    }
}

} // verus!
