//! The results model behind the results view: scanned artifacts, their
//! selection, the orphan filter, and what a finished or partial deletion does
//! to them.

use vstd::prelude::*;
use crate::directory_item::DirectoryItem;
use crate::paths::{path_eq, same_path};

verus! {

/// Sum of the sizes of `ds`.
pub open spec fn size_sum(ds: Seq<DirectoryItem>) -> int
    decreases ds.len(),
{
    if ds.len() == 0 { 0 } else { size_sum(ds.drop_last()) + ds.last().size_bytes }
}

/// Sum of the sizes of the selected items of `ds`.
pub open spec fn selected_sum(ds: Seq<DirectoryItem>) -> int
    decreases ds.len(),
{
    if ds.len() == 0 {
        0
    } else {
        selected_sum(ds.drop_last()) + if ds.last().selected { ds.last().size_bytes as int } else { 0 }
    }
}

/// Whether an item is shown under the orphan filter.
pub open spec fn is_visible(show_orphaned_only: bool, d: DirectoryItem) -> bool {
    !show_orphaned_only || d.is_orphaned
}

/// `d` with its selection set to `s`.
pub open spec fn with_selection(d: DirectoryItem, s: bool) -> DirectoryItem {
    DirectoryItem { selected: s, ..d }
}

/// Index of the first item whose path is `path` (compared by components).
pub open spec fn first_with_path(ds: Seq<DirectoryItem>, path: Seq<char>, i: int) -> bool {
    &&& 0 <= i < ds.len()
    &&& same_path(ds[i].path@, path)
    &&& forall|j: int| 0 <= j < i ==> !same_path(#[trigger] ds[j].path@, path)
}

/// The abstract state of the results model.
pub struct ResultsView {
    pub directories: Seq<DirectoryItem>,
    pub total_size: u64,
    pub selected_size: u64,
    pub show_orphaned_only: bool,
    pub deleted_count: usize,
}

/// Scanned artifacts with their selection and the totals shown beside them.
pub struct Results {
    directories: Vec<DirectoryItem>,
    total_size: u64,
    selected_size: u64,
    show_orphaned_only: bool,
    deleted_count: usize,
}

impl View for Results {
    type V = ResultsView;

    closed spec fn view(&self) -> ResultsView {
        ResultsView {
            directories: self.directories@,
            total_size: self.total_size,
            selected_size: self.selected_size,
            show_orphaned_only: self.show_orphaned_only,
            deleted_count: self.deleted_count,
        }
    }
}

proof fn lemma_sums_bounded(ds: Seq<DirectoryItem>)
    ensures
        0 <= selected_sum(ds) <= size_sum(ds),
        0 <= size_sum(ds),
    decreases ds.len(),
{
    if ds.len() > 0 {
        lemma_sums_bounded(ds.drop_last());
    }
}

proof fn lemma_sums_update(ds: Seq<DirectoryItem>, i: int, s: bool)
    requires
        0 <= i < ds.len(),
    ensures
        size_sum(ds.update(i, with_selection(ds[i], s))) == size_sum(ds),
        selected_sum(ds.update(i, with_selection(ds[i], s))) == selected_sum(ds)
            - (if ds[i].selected { ds[i].size_bytes as int } else { 0 })
            + (if s { ds[i].size_bytes as int } else { 0 }),
    decreases ds.len(),
{
    let u = ds.update(i, with_selection(ds[i], s));
    if i < ds.len() - 1 {
        lemma_sums_update(ds.drop_last(), i, s);
        assert(u.drop_last() =~= ds.drop_last().update(i, with_selection(ds[i], s)));
    } else {
        assert(u.drop_last() =~= ds.drop_last());
    }
}

/// Sum the sizes of all items (when `selected_only`, of the selected ones).
fn sum_sizes(ds: &Vec<DirectoryItem>, selected_only: bool) -> (total: u64)
    requires
        size_sum(ds@) <= u64::MAX,
    ensures
        total == if selected_only { selected_sum(ds@) } else { size_sum(ds@) },
{
    let mut total: u64 = 0;
    let mut i: usize = 0;
    assert(ds@.take(0) =~= Seq::<DirectoryItem>::empty());
    while i < ds.len()
        invariant
            i <= ds@.len(),
            size_sum(ds@) <= u64::MAX,
            total == if selected_only { selected_sum(ds@.take(i as int)) } else { size_sum(ds@.take(i as int)) },
        decreases ds@.len() - i,
    {
        let ghost t = ds@.take(i as int);
        let ghost n = ds@.take(i + 1);
        assert(n.drop_last() =~= t);
        proof {
            lemma_sums_bounded(n);
            lemma_prefix_sum_bounded(ds@, i + 1);
        }
        if !selected_only || ds[i].selected {
            total = total + ds[i].size_bytes;
        }
        i = i + 1;
    }
    assert(ds@.take(ds@.len() as int) =~= ds@);
    total
}

proof fn lemma_prefix_sum_bounded(ds: Seq<DirectoryItem>, k: int)
    requires
        0 <= k <= ds.len(),
    ensures
        size_sum(ds.take(k)) <= size_sum(ds),
    decreases ds.len(),
{
    if k < ds.len() {
        assert(ds.drop_last().take(k) =~= ds.take(k));
        lemma_prefix_sum_bounded(ds.drop_last(), k);
        lemma_sums_bounded(ds);
        lemma_sums_bounded(ds.drop_last());
    } else {
        assert(ds.take(k) =~= ds);
    }
}

impl Results {
    /// The model is consistent: the sizes of all items fit in a `u64`.
    pub closed spec fn well_formed(&self) -> bool {
        size_sum(self.directories@) <= u64::MAX
    }

    /// An empty model with the given orphan filter.
    pub fn new(show_orphaned_only: bool) -> (r: Self)
        ensures
            r.well_formed(),
            r@.directories.len() == 0,
            r@.total_size == 0,
            r@.selected_size == 0,
            r@.show_orphaned_only == show_orphaned_only,
            r@.deleted_count == 0,
    {
        Results {
            directories: Vec::new(),
            total_size: 0,
            selected_size: 0,
            show_orphaned_only,
            deleted_count: 0,
        }
    }

    /// The scanned items.
    pub fn directories(&self) -> (d: &Vec<DirectoryItem>)
        ensures
            d@ == self@.directories,
    {
        &self.directories
    }

    /// Total size of the scanned items.
    pub fn total_size(&self) -> (t: u64)
        ensures
            t == self@.total_size,
    {
        self.total_size
    }

    /// Total size of the selected items.
    pub fn selected_size(&self) -> (t: u64)
        ensures
            t == self@.selected_size,
    {
        self.selected_size
    }

    /// Whether only orphaned items are shown.
    pub fn show_orphaned_only(&self) -> (b: bool)
        ensures
            b == self@.show_orphaned_only,
    {
        self.show_orphaned_only
    }

    /// How many items have been deleted since the model was created.
    pub fn deleted_count(&self) -> (n: usize)
        ensures
            n == self@.deleted_count,
    {
        self.deleted_count
    }

    /// Forget the scanned items and both totals (a new or reset scan).
    pub fn clear(&mut self)
        ensures
            final(self).well_formed(),
            final(self)@.directories.len() == 0,
            final(self)@.total_size == 0,
            final(self)@.selected_size == 0,
            final(self)@.show_orphaned_only == old(self)@.show_orphaned_only,
            final(self)@.deleted_count == old(self)@.deleted_count,
    {
        self.directories = Vec::new();
        self.total_size = 0;
        self.selected_size = 0;
    }

    /// Take the items of a completed scan; the total is their summed size.
    pub fn load(&mut self, dirs: Vec<DirectoryItem>)
        requires
            size_sum(dirs@) <= u64::MAX,
        ensures
            final(self).well_formed(),
            final(self)@.directories == dirs@,
            final(self)@.total_size == size_sum(dirs@),
            final(self)@.selected_size == old(self)@.selected_size,
            final(self)@.show_orphaned_only == old(self)@.show_orphaned_only,
            final(self)@.deleted_count == old(self)@.deleted_count,
    {
        let total = sum_sizes(&dirs, false);
        self.directories = dirs;
        self.total_size = total;
    }

    /// Flip the orphan filter.
    pub fn toggle_orphaned_only(&mut self)
        ensures
            final(self)@ == (ResultsView { show_orphaned_only: !old(self)@.show_orphaned_only, ..old(self)@ }),
            final(self).well_formed() == old(self).well_formed(),
    {
        self.show_orphaned_only = !self.show_orphaned_only;
    }

    /// Positions of the items shown under the orphan filter, in order.
    pub fn visible_indices(&self) -> (v: Vec<usize>)
        ensures
            forall|k: int| 0 <= k < v@.len() ==> 0 <= #[trigger] v@[k] < self@.directories.len(),
            forall|k: int| 0 <= k < v@.len() ==> is_visible(self@.show_orphaned_only, self@.directories[#[trigger] v@[k] as int]),
            forall|a: int, b: int| 0 <= a < b < v@.len() ==> #[trigger] v@[a] < #[trigger] v@[b],
            forall|i: int| 0 <= i < self@.directories.len() && is_visible(self@.show_orphaned_only, #[trigger] self@.directories[i])
                ==> exists|k: int| 0 <= k < v@.len() && v@[k] == i,
    {
        let mut v: Vec<usize> = Vec::new();
        let mut i: usize = 0;
        while i < self.directories.len()
            invariant
                i <= self@.directories.len(),
                forall|k: int| 0 <= k < v@.len() ==> 0 <= #[trigger] v@[k] < i,
                forall|k: int| 0 <= k < v@.len() ==> is_visible(self@.show_orphaned_only, self@.directories[#[trigger] v@[k] as int]),
                forall|a: int, b: int| 0 <= a < b < v@.len() ==> #[trigger] v@[a] < #[trigger] v@[b],
                forall|j: int| 0 <= j < i && is_visible(self@.show_orphaned_only, #[trigger] self@.directories[j])
                    ==> exists|k: int| 0 <= k < v@.len() && v@[k] == j,
            decreases self@.directories.len() - i,
        {
            let ghost old_v = v@;
            if !self.show_orphaned_only || self.directories[i].is_orphaned {
                v.push(i);
                assert(v@[v@.len() - 1] == i);
            }
            assert forall|j: int| 0 <= j < i + 1 && is_visible(self@.show_orphaned_only, #[trigger] self@.directories[j])
                implies exists|k: int| 0 <= k < v@.len() && v@[k] == j by {
                if j < i {
                    let k = choose|k: int| 0 <= k < old_v.len() && old_v[k] == j;
                    assert(v@[k] == j);
                } else {
                    assert(v@[v@.len() - 1] == j);
                }
            }
            i = i + 1;
        }
        v
    }

    /// Set the selection of item `i`, keeping the selected size in step.
    fn set_selection_at(&mut self, i: usize, s: bool)
        requires
            old(self).well_formed(),
            i < old(self)@.directories.len(),
            old(self)@.selected_size == selected_sum(old(self)@.directories),
        ensures
            final(self).well_formed(),
            final(self)@.directories == old(self)@.directories.update(i as int, with_selection(old(self)@.directories[i as int], s)),
            final(self)@.selected_size == selected_sum(final(self)@.directories),
            final(self)@.total_size == old(self)@.total_size,
            final(self)@.show_orphaned_only == old(self)@.show_orphaned_only,
            final(self)@.deleted_count == old(self)@.deleted_count,
    {
        let mut item = self.directories[i].duplicate();
        let was = item.selected;
        let size = item.size_bytes;
        item.selected = s;
        let ghost ds = self.directories@;
        proof {
            lemma_sums_update(ds, i as int, s);
            lemma_sums_bounded(ds);
            lemma_sums_bounded(ds.update(i as int, with_selection(ds[i as int], s)));
        }
        assert(item == with_selection(ds[i as int], s));
        self.directories.set(i, item);
        if was && !s {
            self.selected_size = self.selected_size - size;
        } else if !was && s {
            self.selected_size = self.selected_size + size;
        }
    }

    /// Recompute the selected size from the items.
    fn update_selected_size(&mut self)
        requires
            old(self).well_formed(),
        ensures
            final(self)@ == (ResultsView { selected_size: selected_sum(old(self)@.directories) as u64, ..old(self)@ }),
            final(self)@.selected_size == selected_sum(final(self)@.directories),
            final(self).well_formed(),
    {
        proof { lemma_sums_bounded(self.directories@); }
        self.selected_size = sum_sizes(&self.directories, true);
    }

    /// Select every item shown under the orphan filter.
    pub fn select_all_visible(&mut self)
        requires
            old(self).well_formed(),
        ensures
            final(self).well_formed(),
            final(self)@.directories.len() == old(self)@.directories.len(),
            forall|i: int| 0 <= i < old(self)@.directories.len() ==> #[trigger] final(self)@.directories[i]
                == with_selection(old(self)@.directories[i],
                    old(self)@.directories[i].selected || is_visible(old(self)@.show_orphaned_only, old(self)@.directories[i])),
            final(self)@.selected_size == selected_sum(final(self)@.directories),
            final(self)@.total_size == old(self)@.total_size,
            final(self)@.show_orphaned_only == old(self)@.show_orphaned_only,
            final(self)@.deleted_count == old(self)@.deleted_count,
    {
        self.update_selected_size();
        let mut i: usize = 0;
        let ghost start = self.directories@;
        while i < self.directories.len()
            invariant
                self.well_formed(),
                i <= self@.directories.len(),
                self@.directories.len() == start.len(),
                self@.selected_size == selected_sum(self@.directories),
                self@.total_size == old(self)@.total_size,
                self@.show_orphaned_only == old(self)@.show_orphaned_only,
                self@.deleted_count == old(self)@.deleted_count,
                start == old(self)@.directories,
                forall|j: int| 0 <= j < i ==> #[trigger] self@.directories[j]
                    == with_selection(start[j], start[j].selected || is_visible(self@.show_orphaned_only, start[j])),
                forall|j: int| i <= j < start.len() ==> #[trigger] self@.directories[j] == start[j],
            decreases start.len() - i,
        {
            if !self.show_orphaned_only || self.directories[i].is_orphaned {
                let ghost before = self@.directories;
                self.set_selection_at(i, true);
                assert(start[i as int].selected || is_visible(self@.show_orphaned_only, start[i as int]));
            } else {
                assert(self@.directories[i as int] == with_selection(start[i as int], start[i as int].selected));
            }
            i = i + 1;
        }
    }

    /// Clear every selection.
    pub fn deselect_all(&mut self)
        requires
            old(self).well_formed(),
        ensures
            final(self).well_formed(),
            final(self)@.directories.len() == old(self)@.directories.len(),
            forall|i: int| 0 <= i < old(self)@.directories.len() ==> #[trigger] final(self)@.directories[i]
                == with_selection(old(self)@.directories[i], false),
            final(self)@.selected_size == 0,
            final(self)@.total_size == old(self)@.total_size,
            final(self)@.show_orphaned_only == old(self)@.show_orphaned_only,
            final(self)@.deleted_count == old(self)@.deleted_count,
    {
        self.update_selected_size();
        let mut i: usize = 0;
        let ghost start = self.directories@;
        while i < self.directories.len()
            invariant
                self.well_formed(),
                i <= self@.directories.len(),
                self@.directories.len() == start.len(),
                self@.selected_size == selected_sum(self@.directories),
                self@.total_size == old(self)@.total_size,
                self@.show_orphaned_only == old(self)@.show_orphaned_only,
                self@.deleted_count == old(self)@.deleted_count,
                start == old(self)@.directories,
                forall|j: int| 0 <= j < i ==> #[trigger] self@.directories[j] == with_selection(start[j], false),
                forall|j: int| i <= j < start.len() ==> #[trigger] self@.directories[j] == start[j],
            decreases start.len() - i,
        {
            self.set_selection_at(i, false);
            i = i + 1;
        }
        proof { lemma_none_selected(self@.directories); }
    }
}

proof fn lemma_none_selected(ds: Seq<DirectoryItem>)
    requires
        forall|j: int| 0 <= j < ds.len() ==> !(#[trigger] ds[j]).selected,
    ensures
        selected_sum(ds) == 0,
    decreases ds.len(),
{
    if ds.len() > 0 {
        lemma_none_selected(ds.drop_last());
    }
}

/// The items after toggling the first one whose path is `path` (unchanged
/// when none has it).
pub open spec fn toggled(ds: Seq<DirectoryItem>, path: Seq<char>) -> Seq<DirectoryItem> {
    if exists|i: int| first_with_path(ds, path, i) {
        let i = choose|i: int| first_with_path(ds, path, i);
        ds.update(i, with_selection(ds[i], !ds[i].selected))
    } else {
        ds
    }
}

/// The items after setting the selection of the first one whose path is
/// `path` (unchanged when none has it).
pub open spec fn selection_set(ds: Seq<DirectoryItem>, path: Seq<char>, s: bool) -> Seq<DirectoryItem> {
    if exists|i: int| first_with_path(ds, path, i) {
        let i = choose|i: int| first_with_path(ds, path, i);
        ds.update(i, with_selection(ds[i], s))
    } else {
        ds
    }
}

proof fn lemma_first_exists(ds: Seq<DirectoryItem>, path: Seq<char>, k: int)
    requires
        0 <= k < ds.len(),
        same_path(ds[k].path@, path),
    ensures
        exists|f: int| first_with_path(ds, path, f),
    decreases k,
{
    if exists|j: int| 0 <= j < k && same_path(#[trigger] ds[j].path@, path) {
        let j = choose|j: int| 0 <= j < k && same_path(#[trigger] ds[j].path@, path);
        lemma_first_exists(ds, path, j);
    } else {
        assert(first_with_path(ds, path, k));
    }
}

proof fn lemma_first_with_path_unique(ds: Seq<DirectoryItem>, path: Seq<char>, i: int, j: int)
    requires
        first_with_path(ds, path, i),
        first_with_path(ds, path, j),
    ensures
        i == j,
{
}

/// Toggling the selection of the same path twice restores the items.
pub proof fn lemma_toggle_twice(ds: Seq<DirectoryItem>, path: Seq<char>)
    ensures
        toggled(toggled(ds, path), path) == ds,
{
    if exists|i: int| first_with_path(ds, path, i) {
        let i = choose|i: int| first_with_path(ds, path, i);
        let t = toggled(ds, path);
        assert(first_with_path(t, path, i));
        let i2 = choose|i2: int| first_with_path(t, path, i2);
        lemma_first_with_path_unique(t, path, i, i2);
        assert(t.update(i, with_selection(t[i], !t[i].selected)) =~= ds);
    }
}

/// Whether the first item with path `path` already has selection `s`.
pub open spec fn selection_is(ds: Seq<DirectoryItem>, path: Seq<char>, s: bool) -> bool {
    exists|i: int| first_with_path(ds, path, i) && ds[i].selected == s
}

impl Results {
    /// Position of the first item whose path is `path`.
    fn position_of(&self, path: &str) -> (r: Option<usize>)
        ensures
            match r {
                Some(i) => first_with_path(self@.directories, path@, i as int),
                None => !exists|i: int| first_with_path(self@.directories, path@, i),
            },
    {
        let mut i: usize = 0;
        while i < self.directories.len()
            invariant
                i <= self@.directories.len(),
                forall|j: int| 0 <= j < i ==> !same_path(#[trigger] self@.directories[j].path@, path@),
            decreases self@.directories.len() - i,
        {
            if path_eq(self.directories[i].path.as_str(), path) {
                return Some(i);
            }
            i = i + 1;
        }
        None
    }

    /// Toggle the selection of the item at `path` (the first one with that
    /// path), keeping the selected size in step. Returns whether an item
    /// matched.
    pub fn toggle_selection_by_path(&mut self, path: &str) -> (found: bool)
        requires
            old(self).well_formed(),
        ensures
            final(self).well_formed(),
            found == exists|i: int| first_with_path(old(self)@.directories, path@, i),
            final(self)@.directories == toggled(old(self)@.directories, path@),
            found ==> final(self)@.selected_size == selected_sum(final(self)@.directories),
            !found ==> final(self)@.selected_size == old(self)@.selected_size,
            final(self)@.total_size == old(self)@.total_size,
            final(self)@.show_orphaned_only == old(self)@.show_orphaned_only,
            final(self)@.deleted_count == old(self)@.deleted_count,
    {
        match self.position_of(path) {
            None => false,
            Some(i) => {
                let ghost ds = self.directories@;
                let s = !self.directories[i].selected;
                self.update_selected_size();
                self.set_selection_at(i, s);
                proof {
                    let c = choose|c: int| first_with_path(ds, path@, c);
                    lemma_first_with_path_unique(ds, path@, i as int, c);
                }
                true
            },
        }
    }

    /// Set the selection of the item at `path` (the first one with that
    /// path). Nothing changes when no item matches or it already has that
    /// selection. Returns whether something changed.
    pub fn set_selected(&mut self, path: &str, selected: bool) -> (changed: bool)
        requires
            old(self).well_formed(),
        ensures
            final(self).well_formed(),
            changed == ((exists|i: int| first_with_path(old(self)@.directories, path@, i))
                && !selection_is(old(self)@.directories, path@, selected)),
            changed ==> final(self)@.directories == selection_set(old(self)@.directories, path@, selected),
            changed ==> final(self)@.selected_size == selected_sum(final(self)@.directories),
            !changed ==> final(self)@ == old(self)@,
            final(self)@.total_size == old(self)@.total_size,
            final(self)@.show_orphaned_only == old(self)@.show_orphaned_only,
            final(self)@.deleted_count == old(self)@.deleted_count,
    {
        match self.position_of(path) {
            None => false,
            Some(i) => {
                let ghost ds = self.directories@;
                proof {
                    assert forall|c: int| first_with_path(ds, path@, c) implies c == i by {
                        lemma_first_with_path_unique(ds, path@, i as int, c);
                    }
                }
                if self.directories[i].selected == selected {
                    assert(first_with_path(ds, path@, i as int) && ds[i as int].selected == selected);
                    assert(selection_is(ds, path@, selected));
                    return false;
                }
                self.update_selected_size();
                self.set_selection_at(i, selected);
                true
            },
        }
    }

    /// Toggle the selection of the item at position `index`, by its path (so
    /// the first item with that path is the one toggled). Nothing changes for
    /// an index past the end. Returns whether an item was toggled.
    pub fn toggle_selection(&mut self, index: usize) -> (found: bool)
        requires
            old(self).well_formed(),
        ensures
            final(self).well_formed(),
            found == (index < old(self)@.directories.len()),
            found ==> final(self)@.directories == toggled(old(self)@.directories, old(self)@.directories[index as int].path@),
            found ==> final(self)@.selected_size == selected_sum(final(self)@.directories),
            !found ==> final(self)@ == old(self)@,
            final(self)@.total_size == old(self)@.total_size,
            final(self)@.show_orphaned_only == old(self)@.show_orphaned_only,
            final(self)@.deleted_count == old(self)@.deleted_count,
    {
        if index >= self.directories.len() {
            return false;
        }
        let path = self.directories[index].path.clone();
        proof {
            lemma_first_exists(self@.directories, path@, index as int);
        }
        let r = self.toggle_selection_by_path(path.as_str());
        r
    }

    /// Items currently selected, in order (copies).
    pub fn selected_items(&self) -> (v: Vec<DirectoryItem>)
        ensures
            v@ == self@.directories.filter(|d: DirectoryItem| d.selected),
    {
        broadcast use vstd::seq_lib::group_filter_ensures;
        let ghost pred = |d: DirectoryItem| d.selected;
        let mut v: Vec<DirectoryItem> = Vec::new();
        let mut i: usize = 0;
        assert(self@.directories.take(0) =~= Seq::<DirectoryItem>::empty());
        while i < self.directories.len()
            invariant
                i <= self@.directories.len(),
                pred == (|d: DirectoryItem| d.selected),
                v@ == self@.directories.take(i as int).filter(pred),
            decreases self@.directories.len() - i,
        {
            let ghost t = self@.directories.take(i as int);
            assert(self@.directories.take(i + 1) =~= t.push(self@.directories[i as int]));
            proof { t.lemma_filter_push(self@.directories[i as int], pred); }
            if self.directories[i].selected {
                v.push(self.directories[i].duplicate());
            }
            i = i + 1;
        }
        assert(self@.directories.take(self@.directories.len() as int) =~= self@.directories);
        v
    }

    /// An item was deleted: drop every item with its path (compared by
    /// components) and count it.
    pub fn item_deleted(&mut self, path: &str)
        requires
            old(self).well_formed(),
            old(self)@.deleted_count < usize::MAX,
        ensures
            final(self).well_formed(),
            final(self)@.directories == old(self)@.directories.filter(|d: DirectoryItem| !same_path(d.path@, path@)),
            final(self)@.deleted_count == old(self)@.deleted_count + 1,
            final(self)@.total_size == old(self)@.total_size,
            final(self)@.selected_size == old(self)@.selected_size,
            final(self)@.show_orphaned_only == old(self)@.show_orphaned_only,
    {
        broadcast use vstd::seq_lib::group_filter_ensures;
        let ghost pred = |d: DirectoryItem| !same_path(d.path@, path@);
        let ghost ds = self.directories@;
        let mut kept: Vec<DirectoryItem> = Vec::new();
        let mut i: usize = 0;
        assert(ds.take(0) =~= Seq::<DirectoryItem>::empty());
        while i < self.directories.len()
            invariant
                i <= ds.len(),
                ds == self@.directories,
                pred == (|d: DirectoryItem| !same_path(d.path@, path@)),
                kept@ == ds.take(i as int).filter(pred),
            decreases ds.len() - i,
        {
            let ghost t = ds.take(i as int);
            assert(ds.take(i + 1) =~= t.push(ds[i as int]));
            proof { t.lemma_filter_push(ds[i as int], pred); }
            if !path_eq(self.directories[i].path.as_str(), path) {
                kept.push(self.directories[i].duplicate());
            }
            i = i + 1;
        }
        assert(ds.take(ds.len() as int) =~= ds);
        proof { lemma_filter_sum_bounded(ds, pred); }
        self.directories = kept;
        self.deleted_count = self.deleted_count + 1;
    }

    /// A deletion run finished: the total is recomputed from the remaining
    /// items and the selected size is reset to zero.
    pub fn delete_finished(&mut self)
        requires
            old(self).well_formed(),
        ensures
            final(self).well_formed(),
            final(self)@.directories == old(self)@.directories,
            final(self)@.total_size == size_sum(old(self)@.directories),
            final(self)@.selected_size == 0,
            final(self)@.show_orphaned_only == old(self)@.show_orphaned_only,
            final(self)@.deleted_count == old(self)@.deleted_count,
    {
        self.total_size = sum_sizes(&self.directories, false);
        self.selected_size = 0;
    }
}

proof fn lemma_filter_sum_bounded(ds: Seq<DirectoryItem>, pred: spec_fn(DirectoryItem) -> bool)
    ensures
        size_sum(ds.filter(pred)) <= size_sum(ds),
    decreases ds.len(),
{
    broadcast use vstd::seq_lib::group_filter_ensures;
    if ds.len() > 0 {
        lemma_filter_sum_bounded(ds.drop_last(), pred);
        ds.drop_last().lemma_filter_push(ds.last(), pred);
        assert(ds.drop_last().push(ds.last()) =~= ds);
        if pred(ds.last()) {
            assert(ds.filter(pred).drop_last() =~= ds.drop_last().filter(pred));
        }
    }
}

} // verus!
