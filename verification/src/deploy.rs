//! The deployment plan: the ordered list of remote changes that makes the
//! site hold what the local tree holds.

use vstd::prelude::*;
use vstd::string::StringExecFns;
use crate::client::{delete_paths, upload_files, Client, Request};
use crate::error::Error;
use crate::order::{compare_paths, inside, is_inside, path_lt, PathOrder};
use crate::trees::{sorted_by_path, Entry, EntryView};

verus! {

/// Actions to deploy the local tree to the site.
#[derive(Debug, PartialEq)]
pub enum Action {
    /// Upload a file to the remote entry.
    Upload(Entry),
    /// Delete a remote entry.
    DeleteRemote(Entry),
}

/// What an `Action` stands for.
pub enum ActionView {
    Upload(EntryView),
    DeleteRemote(EntryView),
}

impl View for Action {
    type V = ActionView;

    open spec fn view(&self) -> ActionView {
        match self {
            Action::Upload(e) => ActionView::Upload(e@),
            Action::DeleteRemote(e) => ActionView::DeleteRemote(e@),
        }
    }
}

impl DeepView for Action {
    type V = ActionView;

    open spec fn deep_view(&self) -> ActionView {
        self@
    }
}

impl ActionView {
    /// The entry that the action is about.
    pub open spec fn entry(self) -> EntryView {
        match self {
            ActionView::Upload(e) => e,
            ActionView::DeleteRemote(e) => e,
        }
    }
}

impl Clone for Action {
    fn clone(&self) -> (r: Self)
        ensures
            r == *self,
    {
        match self {
            Action::Upload(e) => Action::Upload(e.clone()),
            Action::DeleteRemote(e) => Action::DeleteRemote(e.clone()),
        }
    }
}

/// One step of the merge of two trees: a path that only the local tree has,
/// one that only the remote tree has, or one that both have.
pub enum Paired {
    Left(EntryView),
    Right(EntryView),
    Both(EntryView, EntryView),
}

/// The merge of two path-sorted trees into one ascending walk over the paths
/// of both. At each step the tree whose first path is lower gives its entry;
/// when both begin with the same path, both give theirs.
pub open spec fn merge_join(local: Seq<EntryView>, remote: Seq<EntryView>) -> Seq<Paired>
    decreases local.len() + remote.len(),
{
    if local.len() == 0 && remote.len() == 0 {
        Seq::empty()
    } else if local.len() == 0 {
        seq![Paired::Right(remote[0])] + merge_join(local, remote.drop_first())
    } else if remote.len() == 0 {
        seq![Paired::Left(local[0])] + merge_join(local.drop_first(), remote)
    } else if path_lt(local[0].path, remote[0].path) {
        seq![Paired::Left(local[0])] + merge_join(local.drop_first(), remote)
    } else if path_lt(remote[0].path, local[0].path) {
        seq![Paired::Right(remote[0])] + merge_join(local, remote.drop_first())
    } else {
        seq![Paired::Both(local[0], remote[0])] + merge_join(
            local.drop_first(),
            remote.drop_first(),
        )
    }
}

/// The actions that one path asks for.
///
/// - only local, a file: upload it; a directory: nothing;
/// - only remote: delete it;
/// - both, remote a file and local a directory: delete the remote file;
/// - both, remote a directory and local a file: delete the remote directory,
///   then upload the file;
/// - both files: upload if size or digest differ, else nothing;
/// - both directories: nothing.
pub open spec fn actions_for(pair: Paired) -> Seq<ActionView> {
    match pair {
        Paired::Left(l) => if l.is_file() {
            seq![ActionView::Upload(l)]
        } else {
            Seq::empty()
        },
        Paired::Right(r) => seq![ActionView::DeleteRemote(r)],
        Paired::Both(l, r) => if !l.is_file() && r.is_file() {
            seq![ActionView::DeleteRemote(r)]
        } else if l.is_file() && !r.is_file() {
            seq![ActionView::DeleteRemote(r), ActionView::Upload(l)]
        } else if l.is_file() && r.is_file() && !l.is_same(r) {
            seq![ActionView::Upload(l)]
        } else {
            Seq::empty()
        },
    }
}

/// The actions of all steps of a merge, in the order of the steps.
pub open spec fn flat_actions(pairs: Seq<Paired>) -> Seq<ActionView>
    decreases pairs.len(),
{
    if pairs.len() == 0 {
        Seq::empty()
    } else {
        flat_actions(pairs.drop_last()) + actions_for(pairs.last())
    }
}

/// The plan before redundant deletions are taken out.
pub open spec fn raw_plan(local: Seq<EntryView>, remote: Seq<EntryView>) -> Seq<ActionView> {
    flat_actions(merge_join(local, remote))
}

/// An action is redundant after `kept` when the last action of `kept` deletes
/// a directory and the action deletes something inside that directory.
pub open spec fn redundant_after(kept: Seq<ActionView>, action: ActionView) -> bool {
    &&& kept.len() > 0
    &&& kept.last() is DeleteRemote
    &&& action is DeleteRemote
    &&& inside(kept.last().entry().path, action.entry().path)
}

/// One step of the pass that takes redundant deletions out.
pub open spec fn retain(kept: Seq<ActionView>, action: ActionView) -> Seq<ActionView> {
    if redundant_after(kept, action) {
        kept
    } else {
        kept.push(action)
    }
}

/// The plan without its redundant deletions: one pass from left to right that
/// drops each deletion inside the directory that the last kept action deletes.
pub open spec fn suppress(raw: Seq<ActionView>) -> Seq<ActionView>
    decreases raw.len(),
{
    if raw.len() == 0 {
        Seq::empty()
    } else {
        retain(suppress(raw.drop_last()), raw.last())
    }
}

/// The deployment plan for a local and a remote tree.
pub open spec fn plan(local: Seq<EntryView>, remote: Seq<EntryView>) -> Seq<ActionView> {
    suppress(raw_plan(local, remote))
}

/// Adds an action to the kept ones unless it is redundant after them.
fn keep(kept: &mut Vec<Action>, action: Action)
    ensures
        final(kept).deep_view() == retain(old(kept).deep_view(), action@),
{
    let n = kept.len();
    let redundant = if n == 0 {
        false
    } else {
        match (&kept[n - 1], &action) {
            (Action::DeleteRemote(last), Action::DeleteRemote(cur)) => is_inside(
                last.path.as_str(),
                cur.path.as_str(),
            ),
            _ => false,
        }
    };
    proof {
        if n > 0 {
            assert(old(kept).deep_view().last() == old(kept)@[n - 1]@);
        }
        assert(redundant == redundant_after(old(kept).deep_view(), action@));
    }
    if !redundant {
        kept.push(action);
        assert(kept.deep_view() =~= old(kept).deep_view().push(action@));
    }
}

impl Action {
    /// Compare two file trees and create a strategy to deploy them.
    ///
    /// Both trees have to be sorted by path, as `local_tree` and
    /// `remote_tree` return them.
    pub fn make_strategy(local: Vec<Entry>, remote: Vec<Entry>) -> (actions: Vec<Action>)
        requires
            sorted_by_path(local.deep_view()),
            sorted_by_path(remote.deep_view()),
        ensures
            actions.deep_view() == plan(local.deep_view(), remote.deep_view()),
    {
        let ghost l = local.deep_view();
        let ghost r = remote.deep_view();
        let ghost mut pairs: Seq<Paired> = Seq::empty();
        let mut kept: Vec<Action> = Vec::new();
        let mut i: usize = 0;
        let mut j: usize = 0;
        assert(l.skip(0) =~= l && r.skip(0) =~= r);
        assert(kept.deep_view() =~= Seq::empty());
        while i < local.len() || j < remote.len()
            invariant
                i <= local.len(),
                j <= remote.len(),
                l == local.deep_view(),
                r == remote.deep_view(),
                merge_join(l, r) == pairs + merge_join(l.skip(i as int), r.skip(j as int)),
                kept.deep_view() == suppress(flat_actions(pairs)),
            decreases local.len() - i + remote.len() - j,
        {
            let ghost before = pairs;
            let ghost rest_l = l.skip(i as int);
            let ghost rest_r = r.skip(j as int);
            let ghost raw = flat_actions(pairs);
            proof {
                if i < local.len() {
                    assert(rest_l[0] == local[i as int]@);
                    assert(rest_l.drop_first() =~= l.skip(i + 1));
                }
                if j < remote.len() {
                    assert(rest_r[0] == remote[j as int]@);
                    assert(rest_r.drop_first() =~= r.skip(j + 1));
                }
            }
            let side = if i == local.len() {
                PathOrder::After
            } else if j == remote.len() {
                PathOrder::Before
            } else {
                compare_paths(local[i].path.as_str(), remote[j].path.as_str())
            };
            match side {
                PathOrder::Before => {
                    let ghost pair = Paired::Left(local[i as int]@);
                    if local[i].is_file() {
                        keep(&mut kept, Action::Upload(local[i].clone()));
                    }
                    i += 1;
                    proof {
                        pairs = before.push(pair);
                        lemma_flat_actions_push(before, pair);
                        lemma_suppress_append(raw, actions_for(pair));
                    }
                },
                PathOrder::After => {
                    let ghost pair = Paired::Right(remote[j as int]@);
                    keep(&mut kept, Action::DeleteRemote(remote[j].clone()));
                    j += 1;
                    proof {
                        pairs = before.push(pair);
                        lemma_flat_actions_push(before, pair);
                        lemma_suppress_append(raw, actions_for(pair));
                    }
                },
                PathOrder::Same => {
                    let ghost pair = Paired::Both(local[i as int]@, remote[j as int]@);
                    let local_file = local[i].is_file();
                    let remote_file = remote[j].is_file();
                    if !local_file && remote_file {
                        keep(&mut kept, Action::DeleteRemote(remote[j].clone()));
                    } else if local_file && !remote_file {
                        keep(&mut kept, Action::DeleteRemote(remote[j].clone()));
                        keep(&mut kept, Action::Upload(local[i].clone()));
                    } else if local_file && remote_file && !local[i].is_same(&remote[j]) {
                        keep(&mut kept, Action::Upload(local[i].clone()));
                    }
                    i += 1;
                    j += 1;
                    proof {
                        pairs = before.push(pair);
                        lemma_flat_actions_push(before, pair);
                        lemma_suppress_append(raw, actions_for(pair));
                    }
                },
            }
            assert(merge_join(l, r) =~= pairs + merge_join(l.skip(i as int), r.skip(j as int)));
        }
        assert(merge_join(l.skip(i as int), r.skip(j as int)) =~= Seq::empty());
        assert(pairs + Seq::<Paired>::empty() =~= pairs);
        kept
    }
}

/// The actions of a merge with one more step are those of the merge, then
/// those of the step.
pub proof fn lemma_flat_actions_push(pairs: Seq<Paired>, pair: Paired)
    ensures
        flat_actions(pairs.push(pair)) == flat_actions(pairs) + actions_for(pair),
{
    assert(pairs.push(pair).drop_last() =~= pairs);
}

/// Taking redundant deletions out of `raw + more` goes on, action by action,
/// from what is kept of `raw`.
pub proof fn lemma_suppress_append(raw: Seq<ActionView>, more: Seq<ActionView>)
    ensures
        more.len() == 0 ==> suppress(raw + more) == suppress(raw),
        more.len() == 1 ==> suppress(raw + more) == retain(suppress(raw), more[0]),
        more.len() == 2 ==> suppress(raw + more) == retain(
            retain(suppress(raw), more[0]),
            more[1],
        ),
{
    if more.len() == 0 {
        assert(raw + more =~= raw);
    } else if more.len() == 1 {
        assert((raw + more).drop_last() =~= raw);
    } else if more.len() == 2 {
        let first = raw.push(more[0]);
        assert(first.drop_last() =~= raw);
        assert(suppress(first) == retain(suppress(raw), more[0]));
        assert((raw + more).drop_last() =~= first);
    }
}

impl ActionView {
    /// The action in words: `upload` or `delete remote`, and the path.
    pub open spec fn text(self) -> Seq<char> {
        match self {
            ActionView::Upload(e) => "upload "@ + e.path,
            ActionView::DeleteRemote(e) => "delete remote "@ + e.path,
        }
    }
}

impl Action {
    /// The action in words.
    pub fn to_text(&self) -> (r: String)
        ensures
            r@ == self@.text(),
    {
        match self {
            Action::Upload(e) => {
                let mut text = String::from_str("upload ");
                text.append(e.path.as_str());
                text
            },
            Action::DeleteRemote(e) => {
                let mut text = String::from_str("delete remote ");
                text.append(e.path.as_str());
                text
            },
        }
    }

    /// The local file whose content an upload sends; `None` for a deletion,
    /// and for an upload of an entry that has no local path.
    pub fn source(&self) -> (r: Option<&str>)
        ensures
            match self@ {
                ActionView::Upload(e) => match e.local_path {
                    Some(p) => r is Some && r->0@ == p,
                    None => r is None,
                },
                ActionView::DeleteRemote(_) => r is None,
            },
    {
        match self {
            Action::Upload(e) => match &e.local_path {
                Some(p) => Some(p.as_str()),
                None => None,
            },
            Action::DeleteRemote(_) => None,
        }
    }

    /// The request that applies the action: an upload of the given content
    /// under the path of the entry, or the deletion of that path. A deletion
    /// makes no use of the content.
    pub fn apply(&self, client: &Client, content: &[u8]) -> (r: Request)
        ensures
            match self@ {
                ActionView::Upload(e) => exists|boundary: Seq<char>|
                    r@ == #[trigger] client@.upload(boundary, seq![(e.path, content@)]),
                ActionView::DeleteRemote(e) => r@ == client@.delete(seq![e.path]),
            },
    {
        match self {
            Action::Upload(e) => {
                let mut files: Vec<(&str, &[u8])> = Vec::new();
                files.push((e.path.as_str(), content));
                let request = client.upload(files.as_slice());
                assert(upload_files(files@) =~= seq![(e@.path, content@)]);
                request
            },
            Action::DeleteRemote(e) => {
                let mut paths: Vec<&str> = Vec::new();
                paths.push(e.path.as_str());
                let request = client.delete(paths.as_slice());
                assert(delete_paths(paths@) =~= seq![e@.path]);
                request
            },
        }
    }
}

/// The application of a plan, action by action, under a policy for failures.
///
/// The caller asks for the current action, carries it out and reports how
/// it went. A failure ends the run, unless failures are to be ignored: then
/// the run goes on with the next action.
pub struct Run {
    actions: Vec<Action>,
    next: usize,
    ignore_errors: bool,
    stopped: bool,
}

/// What a `Run` stands for.
pub struct RunView {
    /// The plan.
    pub actions: Seq<ActionView>,
    /// How many actions of the plan have been carried out or given up.
    pub next: int,
    /// Whether a failure is ignored.
    pub ignore_errors: bool,
    /// Whether a failure has ended the run.
    pub stopped: bool,
}

/// Why an action failed.
#[derive(Debug, PartialEq)]
pub enum Failure {
    /// The local file of an upload could not be read. Holds the system's message.
    Io(String),
    /// The request failed.
    Request(Error),
}

impl Failure {
    /// The failure in words.
    pub fn to_text(&self) -> (r: String)
        ensures
            r@ == match self {
                Failure::Io(message) => message@,
                Failure::Request(e) => e@.text(),
            },
    {
        match self {
            Failure::Io(message) => message.clone(),
            Failure::Request(e) => e.to_text(),
        }
    }
}

/// What became of an action that was carried out.
#[derive(Debug, PartialEq)]
pub enum Recorded {
    /// It succeeded; the run goes on.
    Done,
    /// It failed and the failure is ignored; the run goes on.
    Ignored(Failure),
    /// It failed and the run has ended.
    Aborted(Failure),
}

impl RunView {
    /// The action that is to be carried out now, if any: the next one of the
    /// plan, in the order of the plan, as long as no failure has ended the run.
    pub open spec fn current(self) -> Option<ActionView> {
        if !self.stopped && self.next < self.actions.len() {
            Some(self.actions[self.next])
        } else {
            None
        }
    }

    /// The run after the current action went as reported.
    pub open spec fn after(self, failed: bool) -> RunView {
        if failed && !self.ignore_errors {
            RunView { stopped: true, ..self }
        } else {
            RunView { next: self.next + 1, ..self }
        }
    }
}

impl View for Run {
    type V = RunView;

    closed spec fn view(&self) -> RunView {
        RunView {
            actions: self.actions.deep_view(),
            next: self.next as int,
            ignore_errors: self.ignore_errors,
            stopped: self.stopped,
        }
    }
}

impl Run {
    #[verifier::type_invariant]
    spec fn well_formed(self) -> bool {
        self.next <= self.actions.len()
    }

    /// Starts the application of a plan at its first action.
    pub fn new(actions: Vec<Action>, ignore_errors: bool) -> (run: Run)
        ensures
            run@ == (RunView {
                actions: actions.deep_view(),
                next: 0,
                ignore_errors,
                stopped: false,
            }),
    {
        Run { actions, next: 0, ignore_errors, stopped: false }
    }

    /// The action that is to be carried out now, if any.
    pub fn current(&self) -> (r: Option<&Action>)
        ensures
            match self@.current() {
                Some(action) => r is Some && r->0@ == action,
                None => r is None,
            },
            0 <= self@.next <= self@.actions.len(),
    {
        proof {
            use_type_invariant(self);
        }
        if !self.stopped && self.next < self.actions.len() {
            Some(&self.actions[self.next])
        } else {
            None
        }
    }

    /// Takes note of how the current action went. A success, or a failure
    /// that is ignored, moves the run to the next action; any other failure
    /// ends the run. The failure is handed back, to be reported.
    pub fn record(&mut self, outcome: Result<(), Failure>) -> (r: Recorded)
        requires
            old(self)@.current() is Some,
        ensures
            final(self)@ == old(self)@.after(outcome is Err),
            match outcome {
                Ok(_) => r == Recorded::Done,
                Err(e) => if old(self)@.ignore_errors {
                    r == Recorded::Ignored(e)
                } else {
                    r == Recorded::Aborted(e)
                },
            },
    {
        proof {
            use_type_invariant(&*self);
        }
        let next = self.next;
        let ignore_errors = self.ignore_errors;
        match outcome {
            Ok(_) => {
                self.next = next + 1;
                Recorded::Done
            },
            Err(e) => {
                if ignore_errors {
                    self.next = next + 1;
                    Recorded::Ignored(e)
                } else {
                    self.stopped = true;
                    Recorded::Aborted(e)
                }
            },
        }
    }
}

/// The run as it stands after the first `n` of the reported outcomes, each
/// given as whether the action failed. Outcomes that come when no action is
/// current change nothing.
pub open spec fn run_after(start: RunView, failures: Seq<bool>, n: int) -> RunView
    decreases n,
{
    if n <= 0 {
        start
    } else {
        let before = run_after(start, failures, n - 1);
        if before.current() is Some {
            before.after(failures[n - 1])
        } else {
            before
        }
    }
}

/// A run carries out the actions of its plan in the order of the plan: under
/// whatever outcomes, the action that is current after `n` outcomes is the
/// one at place `n` of the plan, as long as there is one and no failure has
/// ended the run; and a run that ignores failures never ends before the plan does.
pub proof fn law_run_follows_plan(actions: Seq<ActionView>, ignore_errors: bool, failures: Seq<bool>, n: int)
    requires
        0 <= n <= failures.len(),
    ensures
        ({
            let start = RunView { actions, next: 0, ignore_errors, stopped: false };
            let run = run_after(start, failures, n);
            &&& run.actions == actions
            &&& run.ignore_errors == ignore_errors
            &&& 0 <= run.next <= n
            &&& run.next <= actions.len()
            &&& run.current() is Some ==> run.next == n && run.current() == Some(actions[n])
            &&& ignore_errors ==> !run.stopped
            &&& ignore_errors && n <= actions.len() ==> run.next == n
            &&& run.stopped ==> exists|k: int| 0 <= k < n && #[trigger] failures[k]
        }),
    decreases n,
{
    if n > 0 {
        law_run_follows_plan(actions, ignore_errors, failures, n - 1);
        let start = RunView { actions, next: 0, ignore_errors, stopped: false };
        let before = run_after(start, failures, n - 1);
        if before.stopped {
            let k = choose|k: int| 0 <= k < n - 1 && #[trigger] failures[k];
            assert(failures[k]);
        } else if before.current() is Some && failures[n - 1] {
            assert(failures[n - 1]);
        }
    }
}

} // verus!
