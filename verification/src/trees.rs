//! Snapshots of the local and the remote tree: path-sorted lists of entries.

use vstd::prelude::*;
use crate::order::{
    compare_paths, lemma_path_le_transitive, lemma_path_lt_transitive, lemma_path_not_lt, path_le,
    path_lt, PathOrder,
};
use crate::extensions::{extension_allowed, has_allowed_extension, unix_extension};
use crate::fingerprint::{fingerprint, fingerprint_of, is_digest};
use crate::response::ListEntry;
use crate::text::{push_char, replace_char, replaced};

verus! {

/// Size and content digest of a file.
#[derive(Debug, PartialEq)]
pub struct FileInfo {
    /// Size of the file in bytes.
    pub size: u64,
    /// SHA-1 hash of the file, in lower-case hexadecimal.
    pub sha1_sum: String,
}

/// One node of a tree: a file or a directory.
#[derive(Debug, PartialEq)]
pub struct Entry {
    /// Path of the entry, relative to the root of the tree, with `/` between its segments.
    pub path: String,
    /// Information about the file, if it is a file.
    pub info: Option<FileInfo>,
    /// Full path to the file on the local file system, if it is local.
    pub local_path: Option<String>,
}

/// What a `FileInfo` stands for.
pub struct FileInfoView {
    pub size: u64,
    pub sha1_sum: Seq<char>,
}

/// What an `Entry` stands for.
pub struct EntryView {
    pub path: Seq<char>,
    pub info: Option<FileInfoView>,
    pub local_path: Option<Seq<char>>,
}

impl View for FileInfo {
    type V = FileInfoView;

    open spec fn view(&self) -> FileInfoView {
        FileInfoView { size: self.size, sha1_sum: self.sha1_sum@ }
    }
}

impl DeepView for FileInfo {
    type V = FileInfoView;

    open spec fn deep_view(&self) -> FileInfoView {
        self@
    }
}

impl View for Entry {
    type V = EntryView;

    open spec fn view(&self) -> EntryView {
        EntryView {
            path: self.path@,
            info: match self.info {
                Some(info) => Some(info@),
                None => None,
            },
            local_path: match self.local_path {
                Some(p) => Some(p@),
                None => None,
            },
        }
    }
}

impl DeepView for Entry {
    type V = EntryView;

    open spec fn deep_view(&self) -> EntryView {
        self@
    }
}

impl EntryView {
    /// An entry is a file exactly when it carries file information.
    pub open spec fn is_file(self) -> bool {
        self.info is Some
    }

    /// Two entries have the same content when their file information is the
    /// same: both directories, or files of equal size and equal digest.
    pub open spec fn is_same(self, other: EntryView) -> bool {
        self.info == other.info
    }
}

impl Clone for FileInfo {
    fn clone(&self) -> (r: Self)
        ensures
            r == *self,
    {
        FileInfo { size: self.size, sha1_sum: self.sha1_sum.clone() }
    }
}

impl Clone for Entry {
    fn clone(&self) -> (r: Self)
        ensures
            r == *self,
    {
        Entry {
            path: self.path.clone(),
            info: match &self.info {
                Some(info) => Some(info.clone()),
                None => None,
            },
            local_path: match &self.local_path {
                Some(p) => Some(p.clone()),
                None => None,
            },
        }
    }
}

impl Entry {
    /// Test whether the entry is a file.
    pub fn is_file(&self) -> (r: bool)
        ensures
            r == self@.is_file(),
    {
        self.info.is_some()
    }

    /// Check whether two entries have the same content.
    pub fn is_same(&self, other: &Self) -> (r: bool)
        ensures
            r == self@.is_same(other@),
    {
        match (&self.info, &other.info) {
            (Some(a), Some(b)) => a.size == b.size && a.sha1_sum == b.sha1_sum,
            (None, None) => true,
            _ => false,
        }
    }

    /// The entry that a record of the remote listing stands for.
    pub open spec fn of_remote(entry: ListEntry) -> EntryView {
        EntryView {
            path: entry.path@,
            info: if entry.is_directory {
                None
            } else {
                Some(FileInfoView { size: entry.size->0, sha1_sum: entry.sha1_hash->0@ })
            },
            local_path: None,
        }
    }

    /// Turns a record of the remote listing into an entry. A file record has
    /// to carry its size and hash.
    pub fn from_remote(entry: &ListEntry) -> (r: Entry)
        requires
            entry.complete(),
        ensures
            r@ == Self::of_remote(*entry),
    {
        Entry {
            path: entry.path.clone(),
            info: if entry.is_directory {
                None
            } else {
                match (&entry.size, &entry.sha1_hash) {
                    (Some(size), Some(hash)) => Some(FileInfo { size: *size, sha1_sum: hash.clone() }),
                    _ => None,
                }
            },
            local_path: None,
        }
    }
}

/// A tree is sorted when its paths ascend.
pub open spec fn sorted_by_path(tree: Seq<EntryView>) -> bool {
    forall|i: int, j: int| 0 <= i < j < tree.len() ==> path_le(tree[i].path, tree[j].path)
}

/// A tree is strictly sorted when its paths ascend and none occurs twice.
pub open spec fn strictly_sorted(tree: Seq<EntryView>) -> bool {
    forall|i: int, j: int| 0 <= i < j < tree.len() ==> path_lt(tree[i].path, tree[j].path)
}

/// Where an entry with the given path goes into a tree: behind the last
/// entry whose path is not above it.
pub open spec fn insertion_point(tree: Seq<EntryView>, path: Seq<char>) -> int
    decreases tree.len(),
{
    if tree.len() == 0 {
        0
    } else if path_lt(path, tree.last().path) {
        insertion_point(tree.drop_last(), path)
    } else {
        tree.len() as int
    }
}

/// The tree with one more entry, put at its insertion point.
pub open spec fn insert_by_path(tree: Seq<EntryView>, entry: EntryView) -> Seq<EntryView> {
    tree.insert(insertion_point(tree, entry.path), entry)
}

/// The entries in ascending order of their paths; entries of one path keep
/// the order in which they came.
pub open spec fn sort_by_path(entries: Seq<EntryView>) -> Seq<EntryView>
    decreases entries.len(),
{
    if entries.len() == 0 {
        Seq::empty()
    } else {
        insert_by_path(sort_by_path(entries.drop_last()), entries.last())
    }
}

/// The insertion point splits the tree: from it on every path is above the
/// given one, and the path just before it, if any, is not.
pub proof fn lemma_insertion_point_splits(tree: Seq<EntryView>, path: Seq<char>)
    ensures
        0 <= insertion_point(tree, path) <= tree.len(),
        forall|i: int|
            insertion_point(tree, path) <= i < tree.len() ==> path_lt(
                path,
                (#[trigger] tree[i]).path,
            ),
        insertion_point(tree, path) > 0 ==> !path_lt(
            path,
            tree[insertion_point(tree, path) - 1].path,
        ),
    decreases tree.len(),
{
    if tree.len() > 0 && path_lt(path, tree.last().path) {
        let init = tree.drop_last();
        lemma_insertion_point_splits(init, path);
        let k = insertion_point(init, path);
        assert forall|i: int| k <= i < tree.len() implies path_lt(
            path,
            (#[trigger] tree[i]).path,
        ) by {
            if i < init.len() {
                assert(init[i] == tree[i]);
            }
        }
        if k > 0 {
            assert(init[k - 1] == tree[k - 1]);
        }
    }
}

/// An index that splits the tree in that way is the insertion point.
pub proof fn lemma_insertion_point_is(tree: Seq<EntryView>, path: Seq<char>, k: int)
    requires
        0 <= k <= tree.len(),
        forall|i: int| 0 <= i < k ==> !path_lt(path, (#[trigger] tree[i]).path),
        forall|i: int| k <= i < tree.len() ==> path_lt(path, (#[trigger] tree[i]).path),
    ensures
        insertion_point(tree, path) == k,
    decreases tree.len(),
{
    if tree.len() > k {
        let init = tree.drop_last();
        assert(path_lt(path, tree[tree.len() - 1].path));
        assert forall|i: int| 0 <= i < k implies !path_lt(path, (#[trigger] init[i]).path) by {
            assert(init[i] == tree[i]);
        }
        assert forall|i: int| k <= i < init.len() implies path_lt(
            path,
            (#[trigger] init[i]).path,
        ) by {
            assert(init[i] == tree[i]);
        }
        lemma_insertion_point_is(init, path, k);
    } else if tree.len() > 0 {
        assert(!path_lt(path, tree[k - 1].path));
    }
}

/// Putting an entry into a sorted tree leaves the tree sorted.
pub proof fn lemma_insert_keeps_sorted(tree: Seq<EntryView>, entry: EntryView)
    requires
        sorted_by_path(tree),
    ensures
        sorted_by_path(insert_by_path(tree, entry)),
{
    let k = insertion_point(tree, entry.path);
    let out = insert_by_path(tree, entry);
    lemma_insertion_point_splits(tree, entry.path);
    assert forall|i: int, j: int| 0 <= i < j < out.len() implies path_le(
        out[i].path,
        out[j].path,
    ) by {
        if j < k {
            assert(out[i] == tree[i] && out[j] == tree[j]);
        } else if j == k {
            assert(out[i] == tree[i]);
            lemma_path_not_lt(entry.path, tree[k - 1].path);
            if i < k - 1 {
                lemma_path_le_transitive(tree[i].path, tree[k - 1].path, entry.path);
            }
        } else if i < k {
            assert(out[i] == tree[i] && out[j] == tree[j - 1]);
        } else if i == k {
            assert(out[j] == tree[j - 1]);
        } else {
            assert(out[i] == tree[i - 1] && out[j] == tree[j - 1]);
        }
    }
}

/// Sorting gives a sorted tree that holds the same entries, each as often
/// as before.
pub proof fn lemma_sort_by_path(entries: Seq<EntryView>)
    ensures
        sorted_by_path(sort_by_path(entries)),
        sort_by_path(entries).len() == entries.len(),
        sort_by_path(entries).to_multiset() == entries.to_multiset(),
    decreases entries.len(),
{
    broadcast use vstd::seq_lib::group_to_multiset_ensures;

    if entries.len() > 0 {
        let init = entries.drop_last();
        let last = entries.last();
        let sorted = sort_by_path(init);
        lemma_sort_by_path(init);
        lemma_insert_keeps_sorted(sorted, last);
        let k = insertion_point(sorted, last.path);
        lemma_insertion_point_splits(sorted, last.path);
        assert(entries =~= init.push(last));
        assert(sorted.insert(k, last).to_multiset() =~= sorted.to_multiset().insert(last));
    } else {
        assert(sort_by_path(entries).to_multiset() =~= entries.to_multiset());
    }
}

/// A sorted tree is its own sorting.
pub proof fn law_sort_of_sorted(tree: Seq<EntryView>)
    requires
        sorted_by_path(tree),
    ensures
        sort_by_path(tree) == tree,
    decreases tree.len(),
{
    if tree.len() > 0 {
        let init = tree.drop_last();
        assert forall|i: int, j: int| 0 <= i < j < init.len() implies path_le(
            init[i].path,
            init[j].path,
        ) by {
            assert(init[i] == tree[i] && init[j] == tree[j]);
        }
        law_sort_of_sorted(init);
        assert forall|i: int| 0 <= i < init.len() implies !path_lt(
            tree.last().path,
            (#[trigger] init[i]).path,
        ) by {
            assert(init[i] == tree[i]);
            assert(path_le(tree[i].path, tree[tree.len() - 1].path));
            lemma_path_not_lt(tree.last().path, init[i].path);
        }
        lemma_insertion_point_is(init, tree.last().path, init.len() as int);
        assert(init.insert(init.len() as int, tree.last()) =~= tree);
    }
}

/// Puts an entry into a sorted tree, behind the entries whose paths are not
/// above its own.
pub fn insert_sorted(tree: &mut Vec<Entry>, entry: Entry)
    requires
        sorted_by_path(old(tree).deep_view()),
    ensures
        final(tree).deep_view() == insert_by_path(old(tree).deep_view(), entry@),
        sorted_by_path(final(tree).deep_view()),
{
    let ghost before = tree.deep_view();
    let mut lo: usize = 0;
    let mut hi: usize = tree.len();
    while lo < hi
        invariant
            lo <= hi <= tree.len(),
            tree.deep_view() == before,
            sorted_by_path(before),
            forall|i: int| 0 <= i < lo ==> !path_lt(entry@.path, (#[trigger] before[i]).path),
            forall|i: int| hi <= i < before.len() ==> path_lt(entry@.path, (#[trigger] before[i]).path),
        decreases hi - lo,
    {
        let mid = lo + (hi - lo) / 2;
        assert(before[mid as int] == tree[mid as int]@);
        match compare_paths(entry.path.as_str(), tree[mid].path.as_str()) {
            PathOrder::Before => {
                proof {
                    assert forall|i: int| mid <= i < before.len() implies path_lt(
                        entry@.path,
                        (#[trigger] before[i]).path,
                    ) by {
                        if i > mid {
                            assert(path_le(before[mid as int].path, before[i].path));
                            if before[mid as int].path != before[i].path {
                                lemma_path_lt_transitive(
                                    entry@.path,
                                    before[mid as int].path,
                                    before[i].path,
                                );
                            }
                        }
                    }
                }
                hi = mid;
            },
            _ => {
                proof {
                    assert forall|i: int| 0 <= i <= mid implies !path_lt(
                        entry@.path,
                        (#[trigger] before[i]).path,
                    ) by {
                        if i < mid && path_lt(entry@.path, before[i].path) {
                            assert(path_le(before[i].path, before[mid as int].path));
                            if before[i].path != before[mid as int].path {
                                lemma_path_lt_transitive(
                                    entry@.path,
                                    before[i].path,
                                    before[mid as int].path,
                                );
                            }
                        }
                    }
                }
                lo = mid + 1;
            },
        }
    }
    proof {
        lemma_insertion_point_is(before, entry@.path, lo as int);
        lemma_insert_keeps_sorted(before, entry@);
    }
    tree.insert(lo, entry);
    assert(tree.deep_view() =~= before.insert(lo as int, entry@));
}

/// The entries that the records of a remote listing stand for, in the order
/// of the listing.
pub open spec fn remote_entries(list: Seq<ListEntry>) -> Seq<EntryView> {
    Seq::new(list.len(), |i: int| Entry::of_remote(list[i]))
}

/// Every record of the listing is complete.
pub open spec fn listing_complete(list: Seq<ListEntry>) -> bool {
    forall|i: int| 0 <= i < list.len() ==> (#[trigger] list[i]).complete()
}

/// Tells whether every record of the listing is complete, which
/// `remote_tree` asks for.
pub fn is_listing_complete(list: &[ListEntry]) -> (r: bool)
    ensures
        r == listing_complete(list@),
{
    let mut i: usize = 0;
    while i < list.len()
        invariant
            i <= list.len(),
            forall|k: int| 0 <= k < i ==> (#[trigger] list@[k]).complete(),
        decreases list.len() - i,
    {
        if !list[i].is_complete() {
            return false;
        }
        i += 1;
    }
    true
}

/// Create a tree from the listing that the API returns: one entry for each
/// record, sorted by path.
pub fn remote_tree(list: &[ListEntry]) -> (tree: Vec<Entry>)
    requires
        listing_complete(list@),
    ensures
        tree.deep_view() == sort_by_path(remote_entries(list@)),
        sorted_by_path(tree.deep_view()),
        distinct_paths(remote_entries(list@)) ==> strictly_sorted(tree.deep_view()),
{
    let ghost all = remote_entries(list@);
    let mut tree: Vec<Entry> = Vec::new();
    let mut i: usize = 0;
    assert(tree.deep_view() =~= sort_by_path(all.take(0)));
    while i < list.len()
        invariant
            i <= list.len(),
            listing_complete(list@),
            all == remote_entries(list@),
            tree.deep_view() == sort_by_path(all.take(i as int)),
            sorted_by_path(tree.deep_view()),
        decreases list.len() - i,
    {
        let entry = Entry::from_remote(&list[i]);
        insert_sorted(&mut tree, entry);
        proof {
            let next = all.take(i + 1);
            assert(next.drop_last() =~= all.take(i as int));
            assert(next.last() == Entry::of_remote(list@[i as int]));
        }
        i += 1;
    }
    assert(all.take(i as int) =~= all);
    proof {
        if distinct_paths(all) {
            lemma_sort_of_distinct_paths(all);
        }
    }
    tree
}

/// Name of the file that lists, for its directory, what a deployment leaves out.
pub const NEOCITIES_IGNORE: &'static str = ".neocitiesignore";

/// Why a local tree could not be built.
#[derive(Debug, PartialEq)]
pub enum TreeError {
    /// The root or a path under it could not be read. Holds the system's message.
    Io(String),
    /// A path is not valid UTF-8. Holds the path in printable form.
    NonUtf8Path(String),
}

/// A file or directory that a walk of the local root found.
#[derive(Debug, PartialEq)]
pub struct Found {
    /// Path relative to the root, as the system writes it; `None` if it is
    /// not valid UTF-8.
    pub relative: Option<String>,
    /// The path in printable form.
    pub shown: String,
    /// Canonical absolute path.
    pub local_path: String,
    /// Whether it is a directory.
    pub is_dir: bool,
    /// The bytes of the file; empty for a directory.
    pub content: Vec<u8>,
}

/// One step of a walk of the local root.
#[derive(Debug, PartialEq)]
pub enum Walked {
    /// The walk failed at this step, or what it found could not be read.
    /// Holds the system's message.
    Failed(String),
    /// The walk found a file or a directory.
    Found(Found),
}

/// The part of a path behind its last separator; the whole path if it has none.
pub open spec fn last_segment(path: Seq<char>, separator: char) -> Seq<char>
    decreases path.len(),
{
    if path.len() == 0 {
        Seq::empty()
    } else if path.last() == separator {
        Seq::empty()
    } else {
        last_segment(path.drop_last(), separator).push(path.last())
    }
}

/// Tells whether the last segment of a path is the given name.
pub fn ends_with_segment(path: &str, separator: char, name: &str) -> (r: bool)
    ensures
        r == (last_segment(path@, separator) == name@),
{
    broadcast use vstd::string::group_string_axioms;

    let mut segment = String::new();
    for c in it: path.chars()
        invariant
            it.seq() == path@,
            segment@ == last_segment(path@.take(it.index() as int), separator),
    {
        proof {
            let next = path@.take(it.index() + 1);
            assert(next.drop_last() =~= path@.take(it.index() as int));
            assert(next.last() == c);
        }
        if c == separator {
            segment = String::new();
        } else {
            push_char(&mut segment, c);
        }
    }
    assert(path@.take(path@.len() as int) =~= path@);
    match compare_paths(segment.as_str(), name) {
        PathOrder::Same => true,
        _ => false,
    }
}

/// The path of an entry as a tree holds it: the system's separator replaced
/// by `/`.
pub open spec fn normalized(relative: Seq<char>, separator: char) -> Seq<char> {
    replaced(relative, separator, '/')
}

impl Found {
    /// The failure that keeps it out of a tree, if any.
    pub open spec fn error(self) -> Option<TreeError> {
        if self.relative is None {
            Some(TreeError::NonUtf8Path(self.shown))
        } else {
            None
        }
    }

    /// The entry that it becomes: its normalized path, its canonical local
    /// path, and for a file the fingerprint of its content.
    pub open spec fn entry(self, separator: char) -> EntryView {
        EntryView {
            path: normalized(self.relative->0@, separator),
            info: if self.is_dir {
                None
            } else {
                Some(fingerprint_of(self.content@))
            },
            local_path: Some(self.local_path@),
        }
    }

    /// Whether a tree keeps its entry: not the root itself, not the ignore
    /// file, and, if a file, of a type that the account may hold.
    pub open spec fn kept(self, separator: char, free_account: bool) -> bool {
        let entry = self.entry(separator);
        &&& entry.path.len() > 0
        &&& last_segment(self.local_path@, separator) != NEOCITIES_IGNORE@
        &&& (!entry.is_file() || extension_allowed(free_account, unix_extension(entry.path)))
    }
}

impl Walked {
    /// The failure that this step stands for, if any.
    pub open spec fn error(self) -> Option<TreeError> {
        match self {
            Walked::Failed(message) => Some(TreeError::Io(message)),
            Walked::Found(found) => found.error(),
        }
    }
}

/// The digest of the entry, if it is a file, is forty lower-case
/// hexadecimal digits.
pub open spec fn has_full_digest(entry: EntryView) -> bool {
    entry.info is Some ==> is_digest(entry.info->0.sha1_sum)
}

/// Every file of the tree has a digest of forty lower-case hexadecimal digits.
pub open spec fn has_full_digests(tree: Seq<EntryView>) -> bool {
    forall|i: int| 0 <= i < tree.len() ==> has_full_digest(#[trigger] tree[i])
}

impl Entry {
    /// Create a new `Entry` from what a walk of the local root found.
    ///
    /// `separator` is the character that the system puts between the
    /// segments of a path.
    pub fn local(found: &Found, separator: char) -> (r: Result<Entry, TreeError>)
        ensures
            match found.error() {
                Some(e) => r == Err::<Entry, TreeError>(e),
                None => r is Ok && r->Ok_0@ == found.entry(separator) && has_full_digest(
                    r->Ok_0@,
                ),
            },
    {
        let relative = match &found.relative {
            Some(p) => p,
            None => {
                return Err(TreeError::NonUtf8Path(found.shown.clone()));
            },
        };
        let path = if separator != '/' {
            replace_char(relative.as_str(), separator, '/')
        } else {
            let same = relative.clone();
            assert(same@ =~= replaced(relative@, separator, '/'));
            same
        };
        let info = if !found.is_dir {
            Some(fingerprint(found.content.as_slice()))
        } else {
            None
        };
        Ok(Entry { path, info, local_path: Some(found.local_path.clone()) })
    }
}

/// The first failure among the steps of a walk, if any.
pub open spec fn first_error(steps: Seq<Walked>) -> Option<TreeError>
    decreases steps.len(),
{
    if steps.len() == 0 {
        None
    } else {
        match first_error(steps.drop_last()) {
            Some(e) => Some(e),
            None => steps.last().error(),
        }
    }
}

/// The entries that a tree keeps of the steps of a walk, in the order of the walk.
pub open spec fn kept_entries(steps: Seq<Walked>, separator: char, free_account: bool) -> Seq<
    EntryView,
>
    decreases steps.len(),
{
    if steps.len() == 0 {
        Seq::empty()
    } else {
        let before = kept_entries(steps.drop_last(), separator, free_account);
        match steps.last() {
            Walked::Found(found) => if found.error() is None && found.kept(
                separator,
                free_account,
            ) {
                before.push(found.entry(separator))
            } else {
                before
            },
            Walked::Failed(_) => before,
        }
    }
}

/// Takes one step of a walk into a tree under construction: the entry that
/// the step found goes to its place in the order, unless the tree does not
/// keep it. A failed step leaves the tree as it is and gives its failure.
pub fn add_walked(tree: &mut Vec<Entry>, step: &Walked, separator: char, free_account: bool) -> (r:
    Result<(), TreeError>)
    requires
        sorted_by_path(old(tree).deep_view()),
    ensures
        sorted_by_path(final(tree).deep_view()),
        has_full_digests(old(tree).deep_view()) ==> has_full_digests(final(tree).deep_view()),
        match step.error() {
            Some(e) => r == Err::<(), TreeError>(e) && final(tree).deep_view() == old(
                tree,
            ).deep_view(),
            None => r is Ok && final(tree).deep_view() == (if step->Found_0.kept(
                separator,
                free_account,
            ) {
                insert_by_path(old(tree).deep_view(), step->Found_0.entry(separator))
            } else {
                old(tree).deep_view()
            }),
        },
{
    let found = match step {
        Walked::Failed(message) => {
            return Err(TreeError::Io(message.clone()));
        },
        Walked::Found(found) => found,
    };
    let entry = match Entry::local(found, separator) {
        Ok(entry) => entry,
        Err(e) => {
            return Err(e);
        },
    };
    if entry.path.as_str().is_empty() {
        return Ok(());
    }
    if ends_with_segment(found.local_path.as_str(), separator, NEOCITIES_IGNORE) {
        return Ok(());
    }
    if entry.is_file() && !has_allowed_extension(free_account, entry.path.as_str()) {
        return Ok(());
    }
    proof {
        lemma_insert_keeps_digests(tree.deep_view(), entry@);
    }
    insert_sorted(tree, entry);
    Ok(())
}

/// A tree whose files have full digests keeps them when an entry with a
/// full digest is put in.
pub proof fn lemma_insert_keeps_digests(tree: Seq<EntryView>, entry: EntryView)
    requires
        has_full_digest(entry),
    ensures
        has_full_digests(tree) ==> has_full_digests(insert_by_path(tree, entry)),
{
    let k = insertion_point(tree, entry.path);
    let out = insert_by_path(tree, entry);
    lemma_insertion_point_splits(tree, entry.path);
    if has_full_digests(tree) {
        assert forall|i: int| 0 <= i < out.len() implies has_full_digest(#[trigger] out[i]) by {
            if i < k {
                assert(out[i] == tree[i]);
            } else if i > k {
                assert(out[i] == tree[i - 1]);
            }
        }
    }
}

/// Create a local file tree from the steps of a walk of the local root.
///
/// The first failure among the steps ends the construction. Otherwise the
/// tree holds the entries that it keeps of the walk, sorted by path.
pub fn local_tree(steps: &[Walked], separator: char, free_account: bool) -> (r: Result<
    Vec<Entry>,
    TreeError,
>)
    ensures
        match first_error(steps@) {
            Some(e) => r == Err::<Vec<Entry>, TreeError>(e),
            None => r is Ok && r->Ok_0.deep_view() == sort_by_path(
                kept_entries(steps@, separator, free_account),
            ) && sorted_by_path(r->Ok_0.deep_view()) && (distinct_paths(
                kept_entries(steps@, separator, free_account),
            ) ==> strictly_sorted(r->Ok_0.deep_view())) && has_full_digests(
                r->Ok_0.deep_view(),
            ),
        },
{
    let mut tree: Vec<Entry> = Vec::new();
    let mut i: usize = 0;
    assert(steps@.take(0) =~= Seq::empty());
    assert(tree.deep_view() =~= Seq::empty());
    while i < steps.len()
        invariant
            i <= steps.len(),
            first_error(steps@.take(i as int)) is None,
            tree.deep_view() == sort_by_path(
                kept_entries(steps@.take(i as int), separator, free_account),
            ),
            sorted_by_path(tree.deep_view()),
            has_full_digests(tree.deep_view()),
        decreases steps.len() - i,
    {
        proof {
            let next = steps@.take(i + 1);
            assert(next.drop_last() =~= steps@.take(i as int));
            assert(next.last() == steps@[i as int]);
            let kept = kept_entries(steps@.take(i as int), separator, free_account);
            let entry = steps@[i as int]->Found_0.entry(separator);
            assert(kept.push(entry).drop_last() =~= kept);
        }
        match add_walked(&mut tree, &steps[i], separator, free_account) {
            Ok(()) => {},
            Err(e) => {
                proof {
                    lemma_first_error_found(steps@, i as int);
                }
                return Err(e);
            },
        }
        i += 1;
    }
    assert(steps@.take(i as int) =~= steps@);
    proof {
        let kept = kept_entries(steps@, separator, free_account);
        if distinct_paths(kept) {
            lemma_sort_of_distinct_paths(kept);
        }
    }
    Ok(tree)
}

/// The failure of the first failing step is the first failure of the walk.
pub proof fn lemma_first_error_found(steps: Seq<Walked>, k: int)
    requires
        0 <= k < steps.len(),
        first_error(steps.take(k)) is None,
        steps[k].error() is Some,
    ensures
        first_error(steps) == steps[k].error(),
    decreases steps.len(),
{
    if steps.len() == k + 1 {
        assert(steps.drop_last() =~= steps.take(k));
    } else {
        let init = steps.drop_last();
        assert(init.take(k) =~= steps.take(k));
        lemma_first_error_found(init, k);
    }
}

/// Paths that ascend from each entry to the next ascend throughout.
pub proof fn lemma_sorted_by_neighbours(tree: Seq<EntryView>)
    requires
        forall|i: int| 0 <= i < tree.len() - 1 ==> path_le(#[trigger] tree[i].path, tree[i + 1].path),
    ensures
        sorted_by_path(tree),
    decreases tree.len(),
{
    if tree.len() > 1 {
        let init = tree.drop_last();
        assert forall|i: int| 0 <= i < init.len() - 1 implies path_le(
            #[trigger] init[i].path,
            init[i + 1].path,
        ) by {
            assert(init[i] == tree[i] && init[i + 1] == tree[i + 1]);
        }
        lemma_sorted_by_neighbours(init);
        let n = tree.len() - 1;
        assert forall|i: int, j: int| 0 <= i < j < tree.len() implies path_le(
            tree[i].path,
            tree[j].path,
        ) by {
            if j < n {
                assert(init[i] == tree[i] && init[j] == tree[j]);
            } else if i < n - 1 {
                assert(init[i] == tree[i] && init[n - 1] == tree[n - 1]);
                assert(path_le(tree[n - 1].path, tree[n - 1 + 1].path));
                lemma_path_le_transitive(tree[i].path, tree[n - 1].path, tree[n].path);
            } else {
                assert(path_le(tree[n - 1].path, tree[n - 1 + 1].path));
            }
        }
    }
}

/// Tells whether a tree is sorted by path, which the planner asks for.
pub fn is_sorted_by_path(tree: &[Entry]) -> (r: bool)
    ensures
        r == sorted_by_path(tree.deep_view()),
{
    let mut i: usize = 1;
    while i < tree.len()
        invariant
            1 <= i,
            forall|k: int|
                0 <= k < i - 1 && k < tree.len() - 1 ==> path_le(
                    #[trigger] tree.deep_view()[k].path,
                    tree.deep_view()[k + 1].path,
                ),
        decreases tree.len() - i,
    {
        match compare_paths(tree[i - 1].path.as_str(), tree[i].path.as_str()) {
            PathOrder::After => {
                proof {
                    let a = tree.deep_view()[i - 1];
                    let b = tree.deep_view()[i as int];
                    lemma_path_not_lt(a.path, b.path);
                    lemma_path_not_lt(b.path, a.path);
                }
                return false;
            },
            _ => {},
        }
        i += 1;
    }
    proof {
        lemma_sorted_by_neighbours(tree.deep_view());
    }
    true
}

/// A path is the same on every system once it is normalized: written with
/// the separator of a system in the place of `/`, it normalizes to itself.
/// The normalized path holds no separator but `/`.
pub proof fn law_normalized_path_is_portable(path: Seq<char>, separator: char)
    requires
        separator != '/' ==> !path.contains(separator),
    ensures
        normalized(replaced(path, '/', separator), separator) == path,
        separator != '/' ==> !normalized(replaced(path, '/', separator), separator).contains(
            separator,
        ),
{
    let host = replaced(path, '/', separator);
    assert forall|i: int| 0 <= i < path.len() implies #[trigger] normalized(host, separator)[i]
        == path[i] by {
        if path[i] == separator && separator != '/' {
            assert(path.contains(separator));
        }
    }
    assert(normalized(host, separator) =~= path);
}

/// Normalizing puts `/` in the place of every separator and leaves the other
/// characters where they are.
pub proof fn law_normalized_has_no_separator(relative: Seq<char>, separator: char)
    ensures
        normalized(relative, separator).len() == relative.len(),
        separator != '/' ==> !normalized(relative, separator).contains(separator),
        forall|i: int|
            0 <= i < relative.len() ==> #[trigger] normalized(relative, separator)[i] == (
            if relative[i] == separator {
                '/'
            } else {
                relative[i]
            }),
{
}

/// Every entry that a tree keeps of a walk has a path, and every file among
/// them is of a type that the account may hold.
pub proof fn lemma_kept_entries_pass_the_gate(
    steps: Seq<Walked>,
    separator: char,
    free_account: bool,
)
    ensures
        forall|i: int|
            0 <= i < kept_entries(steps, separator, free_account).len() ==> passes_gate(
                #[trigger] kept_entries(steps, separator, free_account)[i],
                free_account,
            ),
    decreases steps.len(),
{
    if steps.len() > 0 {
        let before = kept_entries(steps.drop_last(), separator, free_account);
        let kept = kept_entries(steps, separator, free_account);
        lemma_kept_entries_pass_the_gate(steps.drop_last(), separator, free_account);
        assert forall|i: int| 0 <= i < kept.len() implies passes_gate(
            #[trigger] kept[i],
            free_account,
        ) by {
            if i < before.len() {
                assert(kept[i] == before[i]);
            }
        }
    }
}

/// The entry has a path and, if it is a file, a type that the account may hold.
pub open spec fn passes_gate(entry: EntryView, free_account: bool) -> bool {
    &&& entry.path.len() > 0
    &&& (entry.is_file() ==> extension_allowed(free_account, unix_extension(entry.path)))
}

/// The local tree holds no file of a type that the account may not hold:
/// such a file is as if it were not there.
pub proof fn law_local_tree_passes_the_gate(
    steps: Seq<Walked>,
    separator: char,
    free_account: bool,
    i: int,
)
    requires
        0 <= i < sort_by_path(kept_entries(steps, separator, free_account)).len(),
    ensures
        passes_gate(sort_by_path(kept_entries(steps, separator, free_account))[i], free_account),
{
    broadcast use vstd::seq_lib::group_to_multiset_ensures;

    let kept = kept_entries(steps, separator, free_account);
    let tree = sort_by_path(kept);
    lemma_sort_by_path(kept);
    lemma_kept_entries_pass_the_gate(steps, separator, free_account);
    assert(tree.contains(tree[i]));
    assert(tree.to_multiset().count(tree[i]) > 0);
    assert(kept.to_multiset().count(tree[i]) > 0);
    assert(kept.contains(tree[i]));
    let k = choose|k: int| 0 <= k < kept.len() && kept[k] == tree[i];
    assert(passes_gate(kept[k], free_account));
}

/// No path occurs twice among the entries.
pub open spec fn distinct_paths(entries: Seq<EntryView>) -> bool {
    forall|i: int, j: int|
        0 <= i < j < entries.len() ==> (#[trigger] entries[i]).path != (#[trigger] entries[j]).path
}

/// Entries of which no two have one path sort into a strictly sorted tree.
pub proof fn lemma_sort_of_distinct_paths(entries: Seq<EntryView>)
    requires
        distinct_paths(entries),
    ensures
        strictly_sorted(sort_by_path(entries)),
{
    broadcast use vstd::seq_lib::group_to_multiset_ensures;

    let sorted = sort_by_path(entries);
    lemma_sort_by_path(entries);
    assert(entries.no_duplicates());
    entries.lemma_multiset_has_no_duplicates();
    sorted.lemma_multiset_has_no_duplicates_conv();
    assert forall|i: int, j: int| 0 <= i < j < sorted.len() implies path_lt(
        sorted[i].path,
        sorted[j].path,
    ) by {
        assert(path_le(sorted[i].path, sorted[j].path));
        if sorted[i].path == sorted[j].path {
            assert(sorted.contains(sorted[i]) && sorted.contains(sorted[j]));
            assert(entries.to_multiset().count(sorted[i]) > 0);
            assert(entries.to_multiset().count(sorted[j]) > 0);
            assert(entries.contains(sorted[i]) && entries.contains(sorted[j]));
            let a = choose|a: int| 0 <= a < entries.len() && entries[a] == sorted[i];
            let b = choose|b: int| 0 <= b < entries.len() && entries[b] == sorted[j];
            assert(sorted[i] != sorted[j]);
            if a < b {
                assert(entries[a].path != entries[b].path);
            } else {
                assert(entries[b].path != entries[a].path);
            }
        }
    }
}

} // verus!
