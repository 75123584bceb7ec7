//! Cleanup runs: the manifest written before anything is removed, and the
//! decisions of the worker that removes the selected artifacts one by one.

use vstd::prelude::*;
use crate::clock::clock_since_epoch;
use crate::config::DeleteMode;
use crate::database::decimal_u64;
use crate::directory_item::DirectoryItem;
use crate::error::join2;
use crate::history::digit_char;
use crate::session::{size_sum, Results};
use crate::text::string_of;

verus! {

/// One artifact as recorded in a deletion manifest.
#[derive(Debug)]
pub struct DeletionManifestItem {
    pub path: String,
    pub rule_name: String,
    pub size_bytes: u64,
    pub project_root: Option<String>,
    pub is_orphaned: bool,
}

/// The record of a cleanup written before anything is removed.
#[derive(Debug)]
pub struct DeletionManifest {
    pub operation_id: String,
    pub created_at: i64,
    pub scan_root: String,
    pub delete_mode: DeleteMode,
    pub total_items: usize,
    pub total_bytes: u64,
    pub items: Vec<DeletionManifestItem>,
}

/// The manifest entry describing `item`.
pub open spec fn describes_item(m: DeletionManifestItem, item: DirectoryItem) -> bool {
    &&& m.path@ == item.path@
    &&& m.rule_name@ == item.dir_type.rule.name@
    &&& m.size_bytes == item.size_bytes
    &&& m.project_root == item.project_root
    &&& m.is_orphaned == item.is_orphaned
}

fn copy_option(o: &Option<String>) -> (r: Option<String>)
    ensures
        r == *o,
{
    match o {
        Some(s) => Some(s.clone()),
        None => None,
    }
}

impl DeletionManifest {
    /// A manifest for removing `items` from under `scan_root` in `delete_mode`,
    /// created at `created_at` (seconds since the Unix epoch).
    pub fn created(
        operation_id: String,
        created_at: i64,
        scan_root: String,
        delete_mode: DeleteMode,
        items: &Vec<DirectoryItem>,
    ) -> (m: Self)
        requires
            size_sum(items@) <= u64::MAX,
        ensures
            m.operation_id == operation_id,
            m.created_at == created_at,
            m.scan_root == scan_root,
            m.delete_mode == delete_mode,
            m.total_items == items@.len(),
            m.total_bytes == size_sum(items@),
            m.items@.len() == items@.len(),
            forall|i: int| 0 <= i < items@.len() ==> describes_item(#[trigger] m.items@[i], items@[i]),
    {
        let mut entries: Vec<DeletionManifestItem> = Vec::new();
        let mut total: u64 = 0;
        let mut i: usize = 0;
        while i < items.len()
            invariant
                i <= items@.len(),
                size_sum(items@) <= u64::MAX,
                total == size_sum(items@.take(i as int)),
                entries@.len() == i,
                forall|k: int| 0 <= k < i ==> describes_item(#[trigger] entries@[k], items@[k]),
            decreases items@.len() - i,
        {
            let item = &items[i];
            proof {
                lemma_size_sum_prefix(items@, i as int + 1);
                assert(items@.take(i as int + 1).drop_last() =~= items@.take(i as int));
            }
            total = total + item.size_bytes;
            entries.push(DeletionManifestItem {
                path: item.path.clone(),
                rule_name: string_of(&crate::text::chars_of(item.dir_type.rule.name)),
                size_bytes: item.size_bytes,
                project_root: copy_option(&item.project_root),
                is_orphaned: item.is_orphaned,
            });
            i = i + 1;
        }
        assert(items@.take(items@.len() as int) =~= items@);
        DeletionManifest {
            operation_id,
            created_at,
            scan_root,
            delete_mode,
            total_items: items.len(),
            total_bytes: total,
            items: entries,
        }
    }

    /// A manifest for removing `items`, stamped with the whole seconds of the
    /// current time (zero when the clock reads before the Unix epoch).
    pub fn new(
        operation_id: String,
        scan_root: String,
        delete_mode: DeleteMode,
        items: &Vec<DirectoryItem>,
    ) -> (m: Self)
        requires
            size_sum(items@) <= u64::MAX,
        ensures
            exists|reading: Result<u128, u128>| m.created_at == crate::clock::stamp_of_reading(reading),
            m.operation_id == operation_id,
            m.scan_root == scan_root,
            m.delete_mode == delete_mode,
            m.total_items == items@.len(),
            m.total_bytes == size_sum(items@),
            m.items@.len() == items@.len(),
            forall|i: int| 0 <= i < items@.len() ==> describes_item(#[trigger] m.items@[i], items@[i]),
    {
        let secs = crate::clock::unix_time_secs();
        let created_at: i64 = match secs {
            Some(t) => t as i64,
            None => 0,
        };
        proof {
            let reading = choose|rd: Result<u128, u128>| secs == crate::clock::secs_of_reading(rd);
            assert(created_at == crate::clock::stamp_of_reading(reading));
        }
        DeletionManifest::created(operation_id, created_at, scan_root, delete_mode, items)
    }
}

proof fn lemma_size_sum_prefix(ds: Seq<DirectoryItem>, k: int)
    requires
        0 <= k <= ds.len(),
    ensures
        0 <= size_sum(ds.take(k)) <= size_sum(ds),
    decreases ds.len(),
{
    if k < ds.len() {
        assert(ds.drop_last().take(k) =~= ds.take(k));
        lemma_size_sum_prefix(ds.drop_last(), k);
    } else {
        assert(ds.take(k) =~= ds);
        lemma_size_sum_nonneg(ds);
    }
}

proof fn lemma_size_sum_nonneg(ds: Seq<DirectoryItem>)
    ensures
        size_sum(ds) >= 0,
    decreases ds.len(),
{
    if ds.len() > 0 {
        lemma_size_sum_nonneg(ds.drop_last());
    }
}

/// `delete-<nanos>`, the identifier of a cleanup started `nanos`
/// nanoseconds after the Unix epoch.
pub open spec fn operation_id_text(nanos: nat) -> Seq<char> {
    "delete-"@ + decimal_u64(nanos)
}

fn digit128(d: u128) -> (c: char)
    requires
        d < 10,
    ensures
        c == digit_char(d as int),
{
    if d == 0 { '0' } else if d == 1 { '1' } else if d == 2 { '2' } else if d == 3 { '3' }
    else if d == 4 { '4' } else if d == 5 { '5' } else if d == 6 { '6' } else if d == 7 { '7' }
    else if d == 8 { '8' } else { '9' }
}

fn push_decimal_u128(out: &mut Vec<char>, n: u128)
    ensures
        final(out)@ == old(out)@ + decimal_u64(n as nat),
    decreases n,
{
    if n < 10 {
        out.push(digit128(n));
    } else {
        push_decimal_u128(out, n / 10);
        out.push(digit128(n % 10));
    }
    assert(out@ =~= old(out)@ + decimal_u64(n as nat));
}

/// The identifier of a cleanup started `nanos` nanoseconds after the epoch.
pub fn operation_id_for(nanos: u128) -> (s: String)
    ensures
        s@ == operation_id_text(nanos as nat),
{
    let mut cs: Vec<char> = Vec::new();
    push_decimal_u128(&mut cs, nanos);
    assert(cs@ =~= decimal_u64(nanos as nat));
    join2("delete-", string_of(&cs).as_str())
}

/// The identifier of a cleanup started now (`delete-0` when the clock reads
/// before the Unix epoch).
pub fn operation_id() -> (s: String)
    ensures
        exists|nanos: u128| s@ == operation_id_text(nanos as nat),
{
    let nanos: u128 = match clock_since_epoch() {
        Ok(n) => n,
        Err(_) => 0,
    };
    operation_id_for(nanos)
}

/// What to remove when a cleanup is requested: nothing while another cleanup
/// is running or when nothing is selected, else the selected items in order.
pub fn plan_cleanup(results: &Results, is_deleting: bool) -> (r: Option<Vec<DirectoryItem>>)
    ensures
        match r {
            Some(v) => !is_deleting && v@.len() > 0
                && v@ == results@.directories.filter(|d: DirectoryItem| d.selected),
            None => is_deleting || results@.directories.filter(|d: DirectoryItem| d.selected).len() == 0,
        },
{
    if is_deleting {
        return None;
    }
    let v = results.selected_items();
    if v.len() == 0 {
        None
    } else {
        Some(v)
    }
}

/// The abstract state of a cleanup run.
pub struct CleanupRunView {
    pub items: Seq<DirectoryItem>,
    pub next: nat,
    pub removed: nat,
    pub cancelled: bool,
}

/// The worker's side of a cleanup: it hands out the items one at a time,
/// stops for good when cancellation is requested, and counts what was
/// removed.
pub struct CleanupRun {
    items: Vec<DirectoryItem>,
    next: usize,
    removed: usize,
    cancelled: bool,
}

impl View for CleanupRun {
    type V = CleanupRunView;

    closed spec fn view(&self) -> CleanupRunView {
        CleanupRunView {
            items: self.items@,
            next: self.next as nat,
            removed: self.removed as nat,
            cancelled: self.cancelled,
        }
    }
}

impl CleanupRun {
    /// Whether the counters are consistent: never more removed than handed
    /// out, never more handed out than queued.
    pub closed spec fn well_formed(&self) -> bool {
        self.removed <= self.next <= self.items@.len()
    }

    /// Whether no more items will be handed out.
    pub open spec fn spec_done(&self) -> bool {
        self@.cancelled || self@.next == self@.items.len()
    }

    /// A run over `items`, in order, once `manifest` records every one of
    /// them: nothing is handed out for removal that the manifest does not
    /// describe.
    pub fn start(manifest: &DeletionManifest, items: Vec<DirectoryItem>) -> (r: Self)
        requires
            manifest.items@.len() == items@.len(),
            forall|i: int| 0 <= i < items@.len() ==> describes_item(#[trigger] manifest.items@[i], items@[i]),
        ensures
            r.well_formed(),
            r@.items == items@,
            forall|i: int| 0 <= i < r@.items.len() ==> describes_item(#[trigger] manifest.items@[i], r@.items[i]),
            r@.next == 0,
            r@.removed == 0,
            !r@.cancelled,
    {
        CleanupRun { items, next: 0, removed: 0, cancelled: false }
    }

    /// The next item to remove, or `None` when the run is over. A request to
    /// cancel ends the run before the next item; items already removed stay
    /// removed.
    pub fn next_item(&mut self, cancel_requested: bool) -> (r: Option<DirectoryItem>)
        requires
            old(self).well_formed(),
        ensures
            final(self).well_formed(),
            final(self)@.items == old(self)@.items,
            final(self)@.removed == old(self)@.removed,
            old(self).spec_done() ==> r is None && final(self)@ == old(self)@,
            !old(self).spec_done() && cancel_requested ==> {
                &&& r is None
                &&& final(self)@.cancelled
                &&& final(self)@.next == old(self)@.next
            },
            !old(self).spec_done() && !cancel_requested ==> {
                &&& r == Some(old(self)@.items[old(self)@.next as int])
                &&& final(self)@.next == old(self)@.next + 1
                &&& !final(self)@.cancelled
            },
    {
        if self.cancelled || self.next == self.items.len() {
            return None;
        }
        if cancel_requested {
            self.cancelled = true;
            return None;
        }
        let item = self.items[self.next].duplicate();
        self.next = self.next + 1;
        Some(item)
    }

    /// The item last handed out was removed.
    pub fn item_removed(&mut self)
        requires
            old(self).well_formed(),
            old(self)@.removed < old(self)@.next,
        ensures
            final(self).well_formed(),
            final(self)@ == (CleanupRunView { removed: old(self)@.removed + 1, ..old(self)@ }),
    {
        self.removed = self.removed + 1;
    }

    /// How many items were removed, and whether the run was cancelled.
    pub fn outcome(&self) -> (r: (usize, bool))
        ensures
            r.0 == self@.removed,
            r.1 == self@.cancelled,
    {
        (self.removed, self.cancelled)
    }
}

} // verus!
