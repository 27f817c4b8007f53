//! The file tree: a flat list of entries, each with its depth, in which a
//! directory is followed by its children when it is expanded.

use vstd::prelude::*;
use crate::order::{chars_less, chars_lt, lemma_chars_le_transitive, lemma_chars_lt_asymmetric};
use crate::path::{file_name_of, path_file_name, paths_equal, same_path};
use crate::text::chars_of;

verus! {

/// What a directory listing yields for one of its items.
#[derive(Clone, Debug)]
pub struct DirItem {
    pub path: String,
    pub name: String,
    pub is_dir: bool,
}

/// A single entry in the flattened file tree.
#[derive(Clone, Debug)]
pub struct TreeEntry {
    pub path: String,
    pub name: String,
    pub depth: usize,
    pub is_dir: bool,
    pub is_expanded: bool,
}

/// std's `str::to_lowercase`: the text with each character replaced by its
/// lowercase mapping. The mapping depends on the text alone.
pub uninterp spec fn lowercase(s: Seq<char>) -> Seq<char>;

/// Calls std's `str::to_lowercase`; the contract names its result.
#[verifier::external_body]
fn to_lowercase(s: &str) -> (r: String)
    ensures
        r@ == lowercase(s@),
{
    s.to_lowercase()
}

/// The key by which entries are ordered: the name in lowercase.
pub open spec fn sort_key(e: TreeEntry) -> Seq<char> {
    lowercase(e.name@)
}

/// No entry's key comes before the key of an entry ahead of it.
pub open spec fn sorted_by_key(b: Seq<TreeEntry>) -> bool {
    forall|i: int, j: int| 0 <= i < j < b.len() ==> !chars_lt(#[trigger] sort_key(b[j]), #[trigger] sort_key(b[i]))
}

/// `b` is `a` rearranged by the index map `p` (`b[i]` is `a[p[i]]`), sorted by
/// key, with entries of equal key left in the order they had in `a`.
pub open spec fn stable_arrangement(b: Seq<TreeEntry>, a: Seq<TreeEntry>, p: Seq<int>) -> bool {
    &&& b.len() == a.len()
    &&& p.len() == a.len()
    &&& forall|i: int| 0 <= i < b.len() ==> 0 <= #[trigger] p[i] < a.len() && b[i] == a[p[i]]
    &&& forall|i: int, j: int| 0 <= i < j < b.len() ==> #[trigger] p[i] != #[trigger] p[j]
    &&& sorted_by_key(b)
    &&& forall|i: int, j: int|
        0 <= i < j < b.len() && sort_key(b[i]) == sort_key(b[j]) ==> #[trigger] p[i] < #[trigger] p[j]
}

/// `b` is what a stable sort of `a` by lowercase name gives.
pub open spec fn stably_sorted(b: Seq<TreeEntry>, a: Seq<TreeEntry>) -> bool {
    exists|p: Seq<int>| stable_arrangement(b, a, p)
}

fn key_of(e: &TreeEntry) -> (r: Vec<char>)
    ensures
        r@ == sort_key(*e),
{
    let low = to_lowercase(e.name.as_str());
    chars_of(low.as_str())
}

/// Sorts entries by lowercase name, keeping entries of equal key in their
/// given order.
pub fn sort_by_name(items: Vec<TreeEntry>) -> (r: Vec<TreeEntry>)
    ensures
        stably_sorted(r@, items@),
{
    let ghost a = items@;
    let n = items.len();
    let mut src = items;
    let mut b: Vec<TreeEntry> = Vec::new();
    let mut keys: Vec<Vec<char>> = Vec::new();
    let ghost mut p: Seq<int> = Seq::empty();
    let mut k: usize = 0;
    while k < n
        invariant
            n == a.len(),
            k <= n,
            src@ == a.skip(k as int),
            keys@.len() == b@.len(),
            forall|i: int| 0 <= i < b@.len() ==> (#[trigger] keys@[i])@ == sort_key(b@[i]),
            stable_arrangement(b@, a.take(k as int), p),
        decreases n - k,
    {
        proof {
            assert(src@.len() == n - k);
        }
        let x = src.remove(0);
        assert(x == a[k as int]);
        let kx = key_of(&x);
        let mut pos = b.len();
        while pos > 0 && chars_less(&kx, &keys[pos - 1])
            invariant
                pos <= b@.len(),
                keys@.len() == b@.len(),
                forall|i: int| 0 <= i < b@.len() ==> (#[trigger] keys@[i])@ == sort_key(b@[i]),
                forall|j: int| pos <= j < b@.len() ==> chars_lt(kx@, #[trigger] sort_key(b@[j])),
            decreases pos,
        {
            pos -= 1;
        }
        let ghost b0 = b@;
        let ghost p0 = p;
        let ghost keys0 = keys@;
        proof {
            if pos > 0 {
                assert(!chars_lt(kx@, sort_key(b0[pos - 1])));
            }
        }
        b.insert(pos, x);
        keys.insert(pos, kx);
        proof {
            p = p0.insert(pos as int, k as int);
            let a1 = a.take(k + 1);
            assert(a.take(k as int) =~= a1.take(k as int));
            assert forall|i: int| 0 <= i < b@.len() implies 0 <= #[trigger] p[i] < a1.len() && b@[i] == a1[p[i]] by {
                if i < pos {
                    assert(b@[i] == b0[i]);
                } else if i == pos {
                } else {
                    assert(b@[i] == b0[i - 1]);
                }
            }
            assert forall|i: int| 0 <= i < b@.len() implies (#[trigger] keys@[i])@ == sort_key(b@[i]) by {
                if i < pos {
                    assert(keys@[i] == keys0[i]);
                } else if i > pos {
                    assert(keys@[i] == keys0[i - 1]);
                }
            }
            assert forall|i: int, j: int| 0 <= i < j < b@.len() implies #[trigger] p[i] != #[trigger] p[j] by {
                if i != pos && j != pos {
                    let i0 = if i < pos { i } else { i - 1 };
                    let j0 = if j < pos { j } else { j - 1 };
                    assert(p[i] == p0[i0] && p[j] == p0[j0]);
                } else if i == pos {
                    assert(p[j] == p0[j - 1]);
                } else {
                    assert(p[i] == p0[i]);
                }
            }
            assert forall|i: int, j: int| 0 <= i < j < b@.len() implies !chars_lt(
                #[trigger] sort_key(b@[j]),
                #[trigger] sort_key(b@[i]),
            ) by {
                if i != pos && j != pos {
                    let i0 = if i < pos { i } else { i - 1 };
                    let j0 = if j < pos { j } else { j - 1 };
                    assert(b@[i] == b0[i0] && b@[j] == b0[j0]);
                    assert(!chars_lt(sort_key(b0[j0]), sort_key(b0[i0])));
                } else if i == pos {
                    assert(b@[j] == b0[j - 1]);
                    assert(chars_lt(kx@, sort_key(b0[j - 1])));
                    lemma_chars_lt_asymmetric(kx@, sort_key(b0[j - 1]));
                } else {
                    assert(b@[i] == b0[i]);
                    if i < pos - 1 {
                        assert(!chars_lt(sort_key(b0[pos - 1]), sort_key(b0[i])));
                    } else {
                        lemma_chars_lt_asymmetric(sort_key(b0[i]), sort_key(b0[i]));
                    }
                    lemma_chars_le_transitive(sort_key(b0[i]), sort_key(b0[pos - 1]), kx@);
                }
            }
            assert forall|i: int, j: int|
                0 <= i < j < b@.len() && sort_key(b@[i]) == sort_key(b@[j]) implies #[trigger] p[i]
                < #[trigger] p[j] by {
                if i != pos && j != pos {
                    let i0 = if i < pos { i } else { i - 1 };
                    let j0 = if j < pos { j } else { j - 1 };
                    assert(b@[i] == b0[i0] && b@[j] == b0[j0]);
                    assert(p[i] == p0[i0] && p[j] == p0[j0]);
                } else if i == pos {
                    assert(b@[j] == b0[j - 1]);
                    assert(chars_lt(kx@, sort_key(b0[j - 1])));
                    lemma_chars_lt_asymmetric(kx@, kx@);
                } else {
                    assert(p[i] == p0[i]);
                }
            }
            assert(src@ =~= a.skip(k + 1));
        }
        k += 1;
    }
    proof {
        assert(a.take(n as int) =~= a);
    }
    b
}

/// Names that begin with a dot are hidden from the tree.
pub open spec fn is_hidden(name: Seq<char>) -> bool {
    name.len() > 0 && name[0] == '.'
}

/// The tree entry for a listed item at the given depth, collapsed.
pub open spec fn entry_of(it: DirItem, depth: usize) -> TreeEntry {
    TreeEntry { path: it.path, name: it.name, depth, is_dir: it.is_dir, is_expanded: false }
}

/// The visible items that are directories (`dirs`) or files (`!dirs`), as
/// entries at `depth`, in the order the listing gave them.
pub open spec fn listed(items: Seq<DirItem>, depth: usize, dirs: bool) -> Seq<TreeEntry>
    decreases items.len(),
{
    if items.len() == 0 {
        Seq::empty()
    } else {
        let rest = listed(items.drop_last(), depth, dirs);
        let it = items.last();
        if !is_hidden(it.name@) && it.is_dir == dirs {
            rest.push(entry_of(it, depth))
        } else {
            rest
        }
    }
}

/// `c` is how the tree shows the items of a directory listing at `depth`:
/// hidden items left out, directories first, then files, each group sorted
/// by lowercase name, equal names in listing order.
pub open spec fn is_listing(c: Seq<TreeEntry>, items: Seq<DirItem>, depth: usize) -> bool {
    let d = listed(items, depth, true);
    let f = listed(items, depth, false);
    &&& c.len() == d.len() + f.len()
    &&& stably_sorted(c.take(d.len() as int), d)
    &&& stably_sorted(c.skip(d.len() as int), f)
}

/// Whether a name is hidden.
pub fn is_hidden_name(name: &String) -> (r: bool)
    ensures
        r == is_hidden(name@),
{
    let cs = chars_of(name.as_str());
    cs.len() > 0 && cs[0] == '.'
}

/// The children of a directory as the tree shows them, from the items its
/// listing gave.
pub fn list_children(items: &Vec<DirItem>, depth: usize) -> (r: Vec<TreeEntry>)
    ensures
        is_listing(r@, items@, depth),
{
    let mut dirs: Vec<TreeEntry> = Vec::new();
    let mut files: Vec<TreeEntry> = Vec::new();
    let mut i: usize = 0;
    while i < items.len()
        invariant
            i <= items@.len(),
            dirs@ == listed(items@.take(i as int), depth, true),
            files@ == listed(items@.take(i as int), depth, false),
        decreases items.len() - i,
    {
        let it = &items[i];
        proof {
            assert(items@.take(i + 1).drop_last() =~= items@.take(i as int));
        }
        if !is_hidden_name(&it.name) {
            let e = TreeEntry {
                path: it.path.clone(),
                name: it.name.clone(),
                depth,
                is_dir: it.is_dir,
                is_expanded: false,
            };
            if it.is_dir {
                dirs.push(e);
            } else {
                files.push(e);
            }
        }
        i += 1;
    }
    proof {
        assert(items@.take(items@.len() as int) =~= items@);
    }
    let mut sorted_dirs = sort_by_name(dirs);
    let mut sorted_files = sort_by_name(files);
    let ghost sd = sorted_dirs@;
    let ghost sf = sorted_files@;
    sorted_dirs.append(&mut sorted_files);
    proof {
        assert(sorted_dirs@.take(sd.len() as int) =~= sd);
        assert(sorted_dirs@.skip(sd.len() as int) =~= sf);
    }
    sorted_dirs
}

/// A listing gives entries at its depth, none of them expanded.
pub proof fn lemma_listing_entries(c: Seq<TreeEntry>, items: Seq<DirItem>, depth: usize)
    requires
        is_listing(c, items, depth),
    ensures
        forall|i: int| 0 <= i < c.len() ==> (#[trigger] c[i]).depth == depth && !c[i].is_expanded,
{
    let d = listed(items, depth, true);
    let f = listed(items, depth, false);
    lemma_listed_entries(items, depth, true);
    lemma_listed_entries(items, depth, false);
    let pd = choose|p: Seq<int>| stable_arrangement(c.take(d.len() as int), d, p);
    let pf = choose|p: Seq<int>| stable_arrangement(c.skip(d.len() as int), f, p);
    assert forall|i: int| 0 <= i < c.len() implies (#[trigger] c[i]).depth == depth && !c[i].is_expanded by {
        if i < d.len() {
            assert(c[i] == c.take(d.len() as int)[i]);
            assert(c.take(d.len() as int)[i] == d[pd[i]]);
        } else {
            let k = i - d.len();
            assert(c[i] == c.skip(d.len() as int)[k]);
            assert(c.skip(d.len() as int)[k] == f[pf[k]]);
        }
    }
}

proof fn lemma_listed_entries(items: Seq<DirItem>, depth: usize, dirs: bool)
    ensures
        forall|i: int| 0 <= i < listed(items, depth, dirs).len() ==>
            (#[trigger] listed(items, depth, dirs)[i]).depth == depth
            && !listed(items, depth, dirs)[i].is_expanded,
    decreases items.len(),
{
    if items.len() > 0 {
        let rest = listed(items.drop_last(), depth, dirs);
        lemma_listed_entries(items.drop_last(), depth, dirs);
        let l = listed(items, depth, dirs);
        assert forall|i: int| 0 <= i < l.len() implies (#[trigger] l[i]).depth == depth && !l[i].is_expanded by {
            if i < rest.len() {
                assert(l[i] == rest[i]);
            }
        }
    }
}

/// The step from entry `i` to entry `i + 1` is one the tree can show: one
/// level deeper at most, and one level deeper only below an expanded
/// directory.
pub open spec fn step_ok(s: Seq<TreeEntry>, i: int) -> bool {
    &&& s[i + 1].depth <= s[i].depth + 1
    &&& s[i + 1].depth == s[i].depth + 1 ==> s[i].is_dir && s[i].is_expanded
}

/// The shape of a flattened tree: the first entry at depth 0, every later
/// one at depth 1 or more, only directories expanded, and every step as
/// `step_ok` says.
pub open spec fn tree_shape(s: Seq<TreeEntry>) -> bool {
    &&& s.len() > 0 ==> s[0].depth == 0
    &&& forall|i: int| 0 < i < s.len() ==> (#[trigger] s[i]).depth >= 1
    &&& forall|i: int| 0 <= i < s.len() ==> (#[trigger] s[i]).is_expanded ==> s[i].is_dir
    &&& forall|i: int| 0 <= i < s.len() - 1 ==> #[trigger] step_ok(s, i)
}

/// The entry with its expanded flag set to `flag`.
pub open spec fn with_flag(e: TreeEntry, flag: bool) -> TreeEntry {
    TreeEntry { path: e.path, name: e.name, depth: e.depth, is_dir: e.is_dir, is_expanded: flag }
}

/// The first index at or after `j` that is not inside the subtree of entry
/// `idx` (deeper than it), or the length.
pub open spec fn subtree_end(s: Seq<TreeEntry>, idx: int, j: int) -> int
    decreases s.len() - j,
{
    if j >= s.len() || s[j].depth <= s[idx].depth {
        j
    } else {
        subtree_end(s, idx, j + 1)
    }
}

/// The entries with entry `idx` collapsed: its flag cleared and the deeper
/// entries that follow it removed.
pub open spec fn collapsed(s: Seq<TreeEntry>, idx: int) -> Seq<TreeEntry> {
    s.take(idx).push(with_flag(s[idx], false)) + s.skip(subtree_end(s, idx, idx + 1))
}

/// The entries with entry `idx` expanded: its flag set and `children`
/// inserted right after it.
pub open spec fn expanded(s: Seq<TreeEntry>, idx: int, children: Seq<TreeEntry>) -> Seq<TreeEntry> {
    s.take(idx).push(with_flag(s[idx], true)) + children + s.skip(idx + 1)
}

proof fn lemma_subtree_end(s: Seq<TreeEntry>, idx: int, j: int)
    requires
        0 <= idx < s.len(),
        idx < j <= s.len(),
    ensures
        j <= subtree_end(s, idx, j) <= s.len(),
        subtree_end(s, idx, j) == s.len() || s[subtree_end(s, idx, j)].depth <= s[idx].depth,
        forall|k: int| j <= k < subtree_end(s, idx, j) ==> #[trigger] s[k].depth > s[idx].depth,
    decreases s.len() - j,
{
    if j < s.len() && s[j].depth > s[idx].depth {
        lemma_subtree_end(s, idx, j + 1);
    }
}

/// What selecting an entry calls for.
pub enum TreeAction {
    /// The entry is a file: open it.
    OpenFile(String),
    /// The entry is a collapsed directory: list it and expand it.
    Expand { index: usize, path: String },
    /// The entry was an expanded directory, and is now collapsed.
    Collapsed,
}

/// Flat file tree model with expand/collapse support.
pub struct FileTree {
    pub entries: Vec<TreeEntry>,
    pub selected: usize,
}

/// The name the tree shows for its root: the final component of its path,
/// or the whole path where there is none.
pub open spec fn root_name(root: Seq<char>) -> Seq<char> {
    match path_file_name(root) {
        Some(n) => n,
        None => root,
    }
}

/// The index of the first entry at or after `i` whose path is the same path
/// as `target`, or the length.
pub open spec fn first_with_path(s: Seq<TreeEntry>, target: Seq<char>, i: int) -> int
    decreases s.len() - i,
{
    if i >= s.len() {
        s.len() as int
    } else if same_path(s[i].path@, target) {
        i
    } else {
        first_with_path(s, target, i + 1)
    }
}

proof fn lemma_first_with_path(s: Seq<TreeEntry>, target: Seq<char>, i: int)
    requires
        0 <= i <= s.len(),
    ensures
        i <= first_with_path(s, target, i) <= s.len(),
        first_with_path(s, target, i) < s.len() ==> same_path(s[first_with_path(s, target, i)].path@, target),
        forall|k: int| i <= k < first_with_path(s, target, i) ==> !same_path((#[trigger] s[k]).path@, target),
    decreases s.len() - i,
{
    if i < s.len() && !same_path(s[i].path@, target) {
        lemma_first_with_path(s, target, i + 1);
    }
}

impl FileTree {
    /// `self` is what toggling the selected entry of `old` leaves, and `r`
    /// what it calls for: a file is to be opened; a collapsed directory is to
    /// be listed and expanded; an expanded one is collapsed. The selection
    /// stays.
    pub open spec fn toggled_from(&self, old: FileTree, r: TreeAction) -> bool {
        let e = old.entries@[old.selected as int];
        &&& self.selected == old.selected
        &&& !e.is_dir ==> r == TreeAction::OpenFile(e.path) && self.entries == old.entries
        &&& e.is_dir && !e.is_expanded ==> r == (TreeAction::Expand { index: old.selected, path: e.path })
            && self.entries == old.entries
        &&& e.is_dir && e.is_expanded ==> r == TreeAction::Collapsed && self.entries@ == collapsed(
            old.entries@,
            old.selected as int,
        )
    }

    /// `self` is `old` with the selection one entry down, unless it was on
    /// the last one.
    pub open spec fn moved_down_from(&self, old: FileTree) -> bool {
        &&& self.entries == old.entries
        &&& self.selected == if old.selected + 1 < old.entries@.len() {
            old.selected + 1
        } else {
            old.selected as int
        }
    }

    /// `self` is `old` with the selection one entry up, unless it was on the
    /// first one.
    pub open spec fn moved_up_from(&self, old: FileTree) -> bool {
        &&& self.entries == old.entries
        &&& self.selected == if old.selected > 0 {
            old.selected - 1
        } else {
            0
        }
    }

    /// `self` is the tree built for `root` from its listing `items`: the
    /// root, expanded, then its children as `is_listing` says; the root
    /// selected.
    pub open spec fn built_from(&self, root: Seq<char>, items: Seq<DirItem>) -> bool {
        &&& self.wf()
        &&& self.selected == 0
        &&& self.entries@.len() >= 1
        &&& self.entries@[0].path@ == root
        &&& self.entries@[0].name@ == root_name(root)
        &&& self.entries@[0].depth == 0
        &&& self.entries@[0].is_dir
        &&& self.entries@[0].is_expanded
        &&& is_listing(self.entries@.skip(1), items, 1)
    }

    /// The tree is non-empty, its selection is one of its entries, and it has
    /// the shape of a flattened tree.
    pub open spec fn wf(&self) -> bool {
        &&& self.entries@.len() > 0
        &&& self.selected < self.entries@.len()
        &&& tree_shape(self.entries@)
    }

    /// Builds a tree rooted at `root`, expanded, its children shown from the
    /// items that the root's listing gave.
    pub fn new(root: &String, items: &Vec<DirItem>) -> (r: Self)
        ensures
            r.built_from(root@, items@),
    {
        let name = match file_name_of(root.as_str()) {
            Some(n) => n,
            None => root.clone(),
        };
        let mut entries: Vec<TreeEntry> = Vec::new();
        entries.push(TreeEntry { path: root.clone(), name, depth: 0, is_dir: true, is_expanded: true });
        let mut children = list_children(items, 1);
        let ghost c = children@;
        entries.append(&mut children);
        proof {
            let s = entries@;
            assert(s.skip(1) =~= c);
            lemma_listing_entries(c, items@, 1);
            assert forall|i: int| 0 <= i < s.len() - 1 implies #[trigger] step_ok(s, i) by {
                assert(s[i + 1] == c[i]);
                if i > 0 {
                    assert(s[i] == c[i - 1]);
                }
            }
        }
        FileTree { entries, selected: 0 }
    }

    /// Moves the selection one entry down, unless it is on the last one.
    pub fn move_down(&mut self)
        ensures
            final(self).moved_down_from(*old(self)),
            old(self).wf() ==> final(self).wf(),
    {
        if self.entries.len() > 0 && self.selected < self.entries.len() - 1 {
            self.selected += 1;
        }
    }

    /// Moves the selection one entry up, unless it is on the first one.
    pub fn move_up(&mut self)
        ensures
            final(self).moved_up_from(*old(self)),
            old(self).wf() ==> final(self).wf(),
    {
        if self.selected > 0 {
            self.selected -= 1;
        }
    }

    /// Acts on the selected entry: a file is to be opened; a collapsed
    /// directory is to be listed and expanded; an expanded one is collapsed.
    pub fn toggle_selected(&mut self) -> (r: TreeAction)
        requires
            old(self).selected < old(self).entries@.len(),
        ensures
            final(self).toggled_from(*old(self), r),
            old(self).wf() ==> final(self).wf(),
    {
        let idx = self.selected;
        if !self.entries[idx].is_dir {
            return TreeAction::OpenFile(self.entries[idx].path.clone());
        }
        if self.entries[idx].is_expanded {
            self.collapse(idx);
            TreeAction::Collapsed
        } else {
            TreeAction::Expand { index: idx, path: self.entries[idx].path.clone() }
        }
    }

    /// Expands the directory at `idx` with the items its listing gave, shown
    /// one level deeper. Only directories expand: the tree keeps files
    /// collapsed.
    pub fn expand(&mut self, idx: usize, items: &Vec<DirItem>)
        requires
            idx < old(self).entries@.len(),
            old(self).entries@[idx as int].is_dir,
            old(self).entries@[idx as int].depth < usize::MAX,
        ensures
            final(self).selected == old(self).selected,
            final(self).entries@.len() >= old(self).entries@.len(),
            ({
                let n = final(self).entries@.len() - old(self).entries@.len();
                let c = final(self).entries@.subrange(idx + 1, idx + 1 + n);
                &&& is_listing(c, items@, (old(self).entries@[idx as int].depth + 1) as usize)
                &&& final(self).entries@ == expanded(old(self).entries@, idx as int, c)
            }),
            old(self).wf() ==> final(self).wf(),
    {
        let ghost s = self.entries@;
        let len = self.entries.len();
        let depth = self.entries[idx].depth + 1;
        self.entries[idx].is_expanded = true;
        let mut children = list_children(items, depth);
        let ghost c = children@;
        let mut tail = self.entries.split_off(idx + 1);
        self.entries.append(&mut children);
        self.entries.append(&mut tail);
        proof {
            let t = self.entries@;
            let n = t.len() - s.len();
            assert(n == c.len());
            assert(t.subrange(idx + 1, idx + 1 + n) =~= c);
            assert(t =~= expanded(s, idx as int, c));
            if tree_shape(s) {
                lemma_listing_entries(c, items@, depth);
                let d = s[idx as int].depth;
                assert forall|i: int| 0 <= i < t.len() - 1 implies #[trigger] step_ok(t, i) by {
                    let ci = idx + 1;
                    let ce = idx + 1 + c.len();
                    if i < idx {
                        assert(step_ok(s, i));
                        assert(t[i] == s[i]);
                        if i + 1 < idx {
                            assert(t[i + 1] == s[i + 1]);
                        }
                    } else if i == idx {
                        if c.len() == 0 && idx + 1 < s.len() {
                            assert(step_ok(s, idx as int));
                            assert(t[i + 1] == s[idx + 1]);
                        }
                    } else if i < ce - 1 {
                        assert(t[i] == c[i - ci]);
                        assert(t[i + 1] == c[i + 1 - ci]);
                    } else if i == ce - 1 {
                        assert(t[i] == c[i - ci]);
                        assert(step_ok(s, idx as int));
                        assert(t[i + 1] == s[idx + 1]);
                    } else {
                        let k = i - c.len();
                        assert(t[i] == s[k]);
                        assert(t[i + 1] == s[k + 1]);
                        assert(step_ok(s, k));
                    }
                }
                assert forall|i: int| 0 < i < t.len() implies (#[trigger] t[i]).depth >= 1 by {
                    let ce = idx + 1 + c.len();
                    if i < idx {
                        assert(t[i] == s[i]);
                    } else if i == idx {
                    } else if i < ce {
                        assert(t[i] == c[i - idx - 1]);
                    } else {
                        assert(t[i] == s[i - c.len()]);
                    }
                }
                assert forall|i: int| 0 <= i < t.len() implies (#[trigger] t[i]).is_expanded ==> t[i].is_dir by {
                    let ce = idx + 1 + c.len();
                    if i < idx {
                        assert(t[i] == s[i]);
                    } else if i == idx {
                    } else if i < ce {
                        assert(t[i] == c[i - idx - 1]);
                    } else {
                        assert(t[i] == s[i - c.len()]);
                    }
                }
            }
        }
    }

    /// Collapses the directory at `idx`: clears its flag and removes the
    /// deeper entries that follow it.
    fn collapse(&mut self, idx: usize)
        requires
            idx < old(self).entries@.len(),
        ensures
            final(self).selected == old(self).selected,
            final(self).entries@ == collapsed(old(self).entries@, idx as int),
            tree_shape(old(self).entries@) ==> tree_shape(final(self).entries@),
    {
        let ghost s = self.entries@;
        let len = self.entries.len();
        let parent_depth = self.entries[idx].depth;
        self.entries[idx].is_expanded = false;
        let mut end = idx + 1;
        proof {
            lemma_subtree_end(s, idx as int, idx + 1);
        }
        while end < self.entries.len() && self.entries[end].depth > parent_depth
            invariant
                idx < end <= self.entries@.len(),
                self.entries@.len() == s.len(),
                self.entries@ == s.update(idx as int, with_flag(s[idx as int], false)),
                parent_depth == s[idx as int].depth,
                subtree_end(s, idx as int, end as int) == subtree_end(s, idx as int, idx + 1),
            decreases self.entries@.len() - end,
        {
            end += 1;
        }
        proof {
            assert(subtree_end(s, idx as int, end as int) == end);
        }
        let mut tail = self.entries.split_off(end);
        self.entries.truncate(idx + 1);
        self.entries.append(&mut tail);
        proof {
            let t = self.entries@;
            assert(t =~= collapsed(s, idx as int));
            if tree_shape(s) {
                let e = end as int;
                assert forall|i: int| 0 <= i < t.len() - 1 implies #[trigger] step_ok(t, i) by {
                    if i < idx {
                        assert(step_ok(s, i));
                        assert(t[i] == s[i]);
                        if i + 1 < idx {
                            assert(t[i + 1] == s[i + 1]);
                        }
                    } else if i == idx {
                        assert(t[i + 1] == s[e]);
                    } else {
                        let k = i - idx - 1 + e;
                        assert(t[i] == s[k]);
                        assert(t[i + 1] == s[k + 1]);
                        assert(step_ok(s, k));
                    }
                }
                assert forall|i: int| 0 < i < t.len() implies (#[trigger] t[i]).depth >= 1 by {
                    if i < idx {
                        assert(t[i] == s[i]);
                    } else if i > idx {
                        assert(t[i] == s[i - idx - 1 + e]);
                    }
                }
                assert forall|i: int| 0 <= i < t.len() implies (#[trigger] t[i]).is_expanded ==> t[i].is_dir by {
                    if i < idx {
                        assert(t[i] == s[i]);
                    } else if i > idx {
                        assert(t[i] == s[i - idx - 1 + e]);
                    }
                }
            }
        }
    }

    /// Selects the first entry whose path is the same path as `target`;
    /// where none is, the selection stays.
    pub fn select_path(&mut self, target: &str)
        ensures
            final(self).entries == old(self).entries,
            final(self).selected == if first_with_path(old(self).entries@, target@, 0) < old(
                self,
            ).entries@.len() {
                first_with_path(old(self).entries@, target@, 0)
            } else {
                old(self).selected as int
            },
            old(self).wf() ==> final(self).wf(),
    {
        proof {
            lemma_first_with_path(self.entries@, target@, 0);
        }
        let mut i: usize = 0;
        while i < self.entries.len()
            invariant
                i <= self.entries@.len(),
                self.entries == old(self).entries,
                self.selected == old(self).selected,
                first_with_path(self.entries@, target@, i as int) == first_with_path(
                    self.entries@,
                    target@,
                    0,
                ),
            decreases self.entries@.len() - i,
        {
            if paths_equal(self.entries[i].path.as_str(), target) {
                self.selected = i;
                return;
            }
            i += 1;
        }
    }
}

/// Toggling a collapsed directory open and then toggling it again gives back
/// the entries the tree had before, whatever the directory's listing held.
pub proof fn lemma_collapse_undoes_expand(s: Seq<TreeEntry>, idx: int, items: Seq<DirItem>)
    requires
        tree_shape(s),
        0 <= idx < s.len(),
        !s[idx].is_expanded,
        s[idx].depth < usize::MAX,
    ensures
        forall|c: Seq<TreeEntry>|
            is_listing(c, items, (s[idx].depth + 1) as usize) ==> #[trigger] collapsed(
                expanded(s, idx, c),
                idx,
            ) == s,
{
    assert forall|c: Seq<TreeEntry>| is_listing(c, items, (s[idx].depth + 1) as usize) implies #[trigger] collapsed(
        expanded(s, idx, c),
        idx,
    ) == s by {
        lemma_listing_entries(c, items, (s[idx].depth + 1) as usize);
        let t = expanded(s, idx, c);
        let e = idx + 1 + c.len();
        lemma_subtree_end(t, idx, idx + 1);
        assert forall|k: int| idx + 1 <= k < e implies #[trigger] t[k].depth > t[idx].depth by {
            assert(t[k] == c[k - idx - 1]);
        }
        if idx + 1 < s.len() {
            assert(step_ok(s, idx));
            assert(t[e] == s[idx + 1]);
        }
        lemma_subtree_end_at(t, idx, idx + 1, e);
        assert(collapsed(t, idx) =~= s);
    }
}

proof fn lemma_subtree_end_at(s: Seq<TreeEntry>, idx: int, j: int, e: int)
    requires
        0 <= idx < s.len(),
        idx < j <= e <= s.len(),
        forall|k: int| j <= k < e ==> #[trigger] s[k].depth > s[idx].depth,
        e == s.len() || s[e].depth <= s[idx].depth,
    ensures
        subtree_end(s, idx, j) == e,
    decreases e - j,
{
    if j < e {
        lemma_subtree_end_at(s, idx, j + 1, e);
    }
}

/// Moving the selection down and then up, where it could move down, gives
/// back the tree.
pub proof fn lemma_down_then_up(t0: FileTree, t1: FileTree, t2: FileTree)
    requires
        t1.moved_down_from(t0),
        t2.moved_up_from(t1),
        t0.selected + 1 < t0.entries@.len(),
    ensures
        t2 == t0,
{
}

/// Moving the selection up and then down, where it could move up, gives
/// back the tree.
pub proof fn lemma_up_then_down(t0: FileTree, t1: FileTree, t2: FileTree)
    requires
        t1.moved_up_from(t0),
        t2.moved_down_from(t1),
        t0.selected > 0,
        t0.selected < t0.entries@.len(),
    ensures
        t2 == t0,
{
}

/// A directory's children as the tree shows them: none hidden, all one level
/// below, none expanded, directories before files, and within each group
/// no name after the next in lowercase order.
pub proof fn lemma_listing_order(c: Seq<TreeEntry>, items: Seq<DirItem>, depth: usize)
    requires
        is_listing(c, items, depth),
    ensures
        forall|i: int| 0 <= i < c.len() ==> !is_hidden((#[trigger] c[i]).name@),
        forall|i: int| 0 <= i < c.len() ==> (#[trigger] c[i]).depth == depth && !c[i].is_expanded,
        forall|i: int, j: int| 0 <= i < j < c.len() && (#[trigger] c[j]).is_dir ==> (#[trigger] c[i]).is_dir,
        forall|i: int, j: int|
            0 <= i < j < c.len() && c[i].is_dir == c[j].is_dir ==> !chars_lt(
                #[trigger] sort_key(c[j]),
                #[trigger] sort_key(c[i]),
            ),
{
    lemma_listing_entries(c, items, depth);
    let d = listed(items, depth, true);
    let f = listed(items, depth, false);
    lemma_listed_kind(items, depth, true);
    lemma_listed_kind(items, depth, false);
    let cd = c.take(d.len() as int);
    let cf = c.skip(d.len() as int);
    let pd = choose|p: Seq<int>| stable_arrangement(cd, d, p);
    let pf = choose|p: Seq<int>| stable_arrangement(cf, f, p);
    assert forall|i: int| 0 <= i < c.len() implies (#[trigger] c[i]).is_dir == (i < d.len()) && !is_hidden(
        c[i].name@,
    ) by {
        if i < d.len() {
            assert(c[i] == cd[i]);
            assert(cd[i] == d[pd[i]]);
        } else {
            assert(c[i] == cf[i - d.len()]);
            assert(cf[i - d.len()] == f[pf[i - d.len()]]);
        }
    }
    assert forall|i: int, j: int|
        0 <= i < j < c.len() && c[i].is_dir == c[j].is_dir implies !chars_lt(
        #[trigger] sort_key(c[j]),
        #[trigger] sort_key(c[i]),
    ) by {
        assert(c[i].is_dir == (i < d.len()));
        assert(c[j].is_dir == (j < d.len()));
        if j < d.len() {
            assert(c[i] == cd[i] && c[j] == cd[j]);
            assert(!chars_lt(sort_key(cd[j]), sort_key(cd[i])));
        } else {
            let i0 = i - d.len();
            let j0 = j - d.len();
            assert(c[i] == cf[i0] && c[j] == cf[j0]);
            assert(!chars_lt(sort_key(cf[j0]), sort_key(cf[i0])));
        }
    }
    assert forall|i: int, j: int| 0 <= i < j < c.len() && (#[trigger] c[j]).is_dir implies (#[trigger] c[i]).is_dir by {
        assert(c[i].is_dir == (i < d.len()));
        assert(c[j].is_dir == (j < d.len()));
    }
}

proof fn lemma_listed_kind(items: Seq<DirItem>, depth: usize, dirs: bool)
    ensures
        forall|i: int| 0 <= i < listed(items, depth, dirs).len() ==>
            (#[trigger] listed(items, depth, dirs)[i]).is_dir == dirs
            && !is_hidden(listed(items, depth, dirs)[i].name@),
    decreases items.len(),
{
    if items.len() > 0 {
        let rest = listed(items.drop_last(), depth, dirs);
        lemma_listed_kind(items.drop_last(), depth, dirs);
        let l = listed(items, depth, dirs);
        assert forall|i: int| 0 <= i < l.len() implies (#[trigger] l[i]).is_dir == dirs && !is_hidden(l[i].name@) by {
            if i < rest.len() {
                assert(l[i] == rest[i]);
            }
        }
    }
}

/// A directory's children are exactly as many as the items of its listing
/// whose name does not begin with a dot: only dot names are left out.
pub proof fn lemma_listing_keeps_undotted(c: Seq<TreeEntry>, items: Seq<DirItem>, depth: usize)
    requires
        is_listing(c, items, depth),
    ensures
        c.len() == items.filter(|it: DirItem| !(it.name@.len() > 0 && it.name@[0] == '.')).len(),
{
    lemma_listed_count(items, depth);
}

proof fn lemma_listed_count(items: Seq<DirItem>, depth: usize)
    ensures
        listed(items, depth, true).len() + listed(items, depth, false).len() == items.filter(
            |it: DirItem| !(it.name@.len() > 0 && it.name@[0] == '.'),
        ).len(),
    decreases items.len(),
{
    let pred = |it: DirItem| !(it.name@.len() > 0 && it.name@[0] == '.');
    if items.len() == 0 {
        reveal(Seq::filter);
    } else {
        lemma_listed_count(items.drop_last(), depth);
        assert(items.drop_last().push(items.last()) =~= items);
        items.drop_last().lemma_filter_len_push(pred, items.last());
    }
}

} // verus!
