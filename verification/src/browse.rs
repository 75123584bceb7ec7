//! Back/forward navigation of the directory browser and the capped log of
//! recently scanned paths.

use vstd::prelude::*;
use std::collections::VecDeque;
use crate::text::{chars_of, lex_lt, lex_less, lemma_lex_transitive, lemma_lex_total};

verus! {

/// The abstract state of the browser history.
pub struct BrowseView {
    pub path: Seq<char>,
    pub back: Seq<Seq<char>>,
    pub forward: Seq<Seq<char>>,
}

/// Current directory of the browser, with back and forward stacks (the top
/// of each stack is its last element).
pub struct BrowseHistory {
    path: String,
    back: Vec<String>,
    forward: Vec<String>,
}

impl View for BrowseHistory {
    type V = BrowseView;

    closed spec fn view(&self) -> BrowseView {
        BrowseView {
            path: self.path@,
            back: self.back@.map_values(|s: String| s@),
            forward: self.forward@.map_values(|s: String| s@),
        }
    }
}

impl BrowseHistory {
    /// Open the browser at `path`, with the back stack seeded from its
    /// ancestors (`ancestors[0]` is the parent, the last one the filesystem
    /// root): the parent is on top, the root at the bottom; forward is empty.
    pub fn open(path: String, ancestors: Vec<String>) -> (h: Self)
        ensures
            h@.path == path@,
            h@.back == ancestors@.map_values(|s: String| s@).reverse(),
            h@.forward.len() == 0,
    {
        let mut back: Vec<String> = Vec::new();
        let n = ancestors.len();
        let mut k: usize = n;
        while k > 0
            invariant
                k <= n,
                n == ancestors@.len(),
                back@.len() == n - k,
                forall|j: int| 0 <= j < n - k ==> #[trigger] back@[j] == ancestors@[n - 1 - j],
            decreases k,
        {
            k = k - 1;
            back.push(ancestors[k].clone());
        }
        let h = BrowseHistory { path, back, forward: Vec::new() };
        assert(h@.back =~= ancestors@.map_values(|s: String| s@).reverse());
        assert(h@.forward =~= Seq::<Seq<char>>::empty());
        h
    }

    /// The current directory.
    pub fn path(&self) -> (p: &String)
        ensures
            p@ == self@.path,
    {
        &self.path
    }

    /// Whether there is somewhere to go back to.
    pub fn can_go_back(&self) -> (b: bool)
        ensures
            b == (self@.back.len() > 0),
    {
        self.back.len() > 0
    }

    /// Whether there is somewhere to go forward to.
    pub fn can_go_forward(&self) -> (b: bool)
        ensures
            b == (self@.forward.len() > 0),
    {
        self.forward.len() > 0
    }

    /// Go to `path`: the current directory is pushed on the back stack and
    /// the forward stack is cleared.
    pub fn navigate(&mut self, path: String)
        ensures
            final(self)@.path == path@,
            final(self)@.back == old(self)@.back.push(old(self)@.path),
            final(self)@.forward.len() == 0,
    {
        let ghost old_back = self.back@;
        let mut cur = path;
        std::mem::swap(&mut self.path, &mut cur);
        self.back.push(cur);
        self.forward = Vec::new();
        assert(self@.back =~= old(self)@.back.push(old(self)@.path));
        assert(self@.forward =~= Seq::<Seq<char>>::empty());
    }

    /// Go back one step, if possible: the current directory moves onto the
    /// forward stack. Returns whether it moved.
    pub fn go_back(&mut self) -> (moved: bool)
        ensures
            moved == (old(self)@.back.len() > 0),
            moved ==> final(self)@ == (BrowseView {
                path: old(self)@.back.last(),
                back: old(self)@.back.drop_last(),
                forward: old(self)@.forward.push(old(self)@.path),
            }),
            !moved ==> final(self)@ == old(self)@,
    {
        match self.back.pop() {
            Some(prev) => {
                let mut cur = prev;
                std::mem::swap(&mut self.path, &mut cur);
                self.forward.push(cur);
                assert(self@.back =~= old(self)@.back.drop_last());
                assert(self@.forward =~= old(self)@.forward.push(old(self)@.path));
                true
            },
            None => false,
        }
    }

    /// Go forward one step, if possible: the current directory moves onto
    /// the back stack. Returns whether it moved.
    pub fn go_forward(&mut self) -> (moved: bool)
        ensures
            moved == (old(self)@.forward.len() > 0),
            moved ==> final(self)@ == (BrowseView {
                path: old(self)@.forward.last(),
                back: old(self)@.back.push(old(self)@.path),
                forward: old(self)@.forward.drop_last(),
            }),
            !moved ==> final(self)@ == old(self)@,
    {
        match self.forward.pop() {
            Some(next) => {
                let mut cur = next;
                std::mem::swap(&mut self.path, &mut cur);
                self.back.push(cur);
                assert(self@.forward =~= old(self)@.forward.drop_last());
                assert(self@.back =~= old(self)@.back.push(old(self)@.path));
                true
            },
            None => false,
        }
    }
}

/// What going back from `h` gives (when its back stack is not empty).
pub open spec fn back_of(h: BrowseView) -> BrowseView {
    BrowseView { path: h.back.last(), back: h.back.drop_last(), forward: h.forward.push(h.path) }
}

/// What going forward from `h` gives (when its forward stack is not empty).
pub open spec fn forward_of(h: BrowseView) -> BrowseView {
    BrowseView { path: h.forward.last(), back: h.back.push(h.path), forward: h.forward.drop_last() }
}

/// Going back and then forward returns to the same place with the same
/// history; so does going forward and then back.
pub proof fn lemma_back_forward_round_trip(h: BrowseView)
    ensures
        h.back.len() > 0 ==> forward_of(back_of(h)) == h,
        h.forward.len() > 0 ==> back_of(forward_of(h)) == h,
{
    if h.back.len() > 0 {
        assert(forward_of(back_of(h)).back =~= h.back);
        assert(forward_of(back_of(h)).forward =~= h.forward);
    }
    if h.forward.len() > 0 {
        assert(back_of(forward_of(h)).back =~= h.back);
        assert(back_of(forward_of(h)).forward =~= h.forward);
    }
}

/// Most entries kept in the scan log.
pub const SCAN_LOG_CAPACITY: usize = 60;

/// The log after recording `p`: empty paths are ignored; when full, the
/// oldest entry is dropped first.
pub open spec fn log_after(log: Seq<Seq<char>>, p: Seq<char>) -> Seq<Seq<char>> {
    if p.len() == 0 {
        log
    } else if log.len() >= SCAN_LOG_CAPACITY {
        log.drop_first().push(p)
    } else {
        log.push(p)
    }
}

/// Record a scanned path in the capped log.
pub fn record_scan_path(log: &mut VecDeque<String>, path: String)
    ensures
        final(log)@.map_values(|s: String| s@) == log_after(old(log)@.map_values(|s: String| s@), path@),
        old(log)@.len() <= SCAN_LOG_CAPACITY ==> final(log)@.len() <= SCAN_LOG_CAPACITY,
{
    if path.as_str().is_empty() {
        return;
    }
    let ghost before = log@;
    if log.len() >= SCAN_LOG_CAPACITY {
        log.pop_front();
        assert(log@ =~= before.drop_first());
    }
    log.push_back(path);
    assert(log@.map_values(|s: String| s@) =~= log_after(before.map_values(|s: String| s@), path@));
}

/// One line of the directory browser: a name and the directory it opens.
#[derive(Debug)]
pub struct BrowseEntry {
    pub name: String,
    pub path: String,
}

/// Text that `str::to_lowercase` gives for `s`.
pub uninterp spec fn lowercase_text(s: Seq<char>) -> Seq<char>;

/// `str::to_lowercase`.
///
/// Trusted: the result is `lowercase_text(s)`, a function of the text alone
/// (the standard library maps each character by the Unicode tables, with no
/// locale).
#[verifier::external_body]
fn to_lowercase(s: &str) -> (r: String)
    ensures
        r@ == lowercase_text(s@),
{
    s.to_lowercase()
}

/// Whether a directory name is hidden (starts with `.`).
pub open spec fn is_hidden(name: Seq<char>) -> bool {
    name.len() > 0 && name[0] == '.'
}

/// The subdirectories worth listing: the visible ones, in input order.
pub open spec fn visible_dirs(dirs: Seq<BrowseEntry>) -> Seq<BrowseEntry> {
    dirs.filter(|e: BrowseEntry| !is_hidden(e.name@))
}

/// `perm` lists positions of `v` in browser order: a permutation of them,
/// sorted by case-folded name, equal names in their original order.
pub open spec fn listed_as(v: Seq<BrowseEntry>, perm: Seq<int>) -> bool {
    &&& perm.len() == v.len()
    &&& perm.no_duplicates()
    &&& forall|k: int| 0 <= k < perm.len() ==> 0 <= #[trigger] perm[k] < v.len()
    &&& forall|a: int, b: int| 0 <= a < b < perm.len() ==> {
        let x = lowercase_text(v[#[trigger] perm[a]].name@);
        let y = lowercase_text(v[#[trigger] perm[b]].name@);
        lex_lt(x, y) || (x == y && perm[a] < perm[b])
    }
}

fn copy_entry(e: &BrowseEntry) -> (r: BrowseEntry)
    ensures
        r == *e,
{
    BrowseEntry { name: e.name.clone(), path: e.path.clone() }
}

fn keep_visible(dirs: &Vec<BrowseEntry>) -> (v: Vec<BrowseEntry>)
    ensures
        v@ == visible_dirs(dirs@),
{
    broadcast use vstd::seq_lib::group_filter_ensures;
    let ghost pred = |e: BrowseEntry| !is_hidden(e.name@);
    let mut v: Vec<BrowseEntry> = Vec::new();
    let mut i: usize = 0;
    assert(dirs@.take(0) =~= Seq::<BrowseEntry>::empty());
    while i < dirs.len()
        invariant
            i <= dirs@.len(),
            pred == (|e: BrowseEntry| !is_hidden(e.name@)),
            v@ == dirs@.take(i as int).filter(pred),
        decreases dirs@.len() - i,
    {
        let ghost t = dirs@.take(i as int);
        assert(dirs@.take(i + 1) =~= t.push(dirs@[i as int]));
        proof { t.lemma_filter_push(dirs@[i as int], pred); }
        let cs = chars_of(dirs[i].name.as_str());
        if !(cs.len() > 0 && cs[0] == '.') {
            v.push(copy_entry(&dirs[i]));
        }
        i = i + 1;
    }
    assert(dirs@.take(dirs@.len() as int) =~= dirs@);
    v
}

/// The directories of a listing as the browser shows them: hidden ones
/// (names starting with `.`) dropped, the rest sorted by case-folded name,
/// equal names keeping their order.
pub fn browser_order(dirs: Vec<BrowseEntry>) -> (out: Vec<BrowseEntry>)
    ensures
        exists|perm: Seq<int>| {
            &&& listed_as(visible_dirs(dirs@), perm)
            &&& out@.len() == visible_dirs(dirs@).len()
            &&& forall|k: int| 0 <= k < out@.len() ==> #[trigger] out@[k] == visible_dirs(dirs@)[perm[k]]
        },
{
    let items = keep_visible(&dirs);
    let ghost v = items@;
    let mut out: Vec<BrowseEntry> = Vec::new();
    let mut keys: Vec<Vec<char>> = Vec::new();
    let ghost mut perm: Seq<int> = Seq::empty();
    let mut i: usize = 0;
    while i < items.len()
        invariant
            v == items@,
            i <= items@.len(),
            out@.len() == i,
            keys@.len() == i,
            perm.len() == i,
            perm.no_duplicates(),
            forall|k: int| 0 <= k < perm.len() ==> 0 <= #[trigger] perm[k] < i,
            forall|k: int| 0 <= k < out@.len() ==> #[trigger] out@[k] == v[perm[k]],
            forall|k: int| 0 <= k < keys@.len() ==> #[trigger] keys@[k]@ == lowercase_text(v[perm[k]].name@),
            forall|a: int, b: int| 0 <= a < b < perm.len() ==> {
                let x = lowercase_text(v[#[trigger] perm[a]].name@);
                let y = lowercase_text(v[#[trigger] perm[b]].name@);
                lex_lt(x, y) || (x == y && perm[a] < perm[b])
            },
        decreases items@.len() - i,
    {
        let e = copy_entry(&items[i]);
        let folded = to_lowercase(items[i].name.as_str());
        let key = chars_of(folded.as_str());
        let ghost kx = lowercase_text(v[i as int].name@);
        let mut p: usize = 0;
        let mut stop = false;
        while p < out.len() && !stop
            invariant
                p <= out@.len(),
                keys@.len() == out@.len(),
                key@ == kx,
                forall|q: int| 0 <= q < p ==> !lex_lt(kx, #[trigger] keys@[q]@),
                stop ==> p < out@.len() && lex_lt(kx, keys@[p as int]@),
            decreases out@.len() - p + if stop { 0int } else { 1int },
        {
            if lex_less(&key, &keys[p]) {
                stop = true;
            } else {
                p = p + 1;
            }
        }
        let ghost old_out = out@;
        let ghost old_perm = perm;
        let ghost old_keys = keys@;
        proof {
            assert forall|q: int| p <= q < old_out.len() implies lex_lt(kx, #[trigger] old_keys[q]@) by {
                if q > p {
                    let y = old_keys[p as int]@;
                    let z = old_keys[q]@;
                    assert(lex_lt(y, z) || y == z);
                    if lex_lt(y, z) {
                        lemma_lex_transitive(kx, y, z);
                    }
                }
            }
        }
        out.insert(p, e);
        keys.insert(p, key);
        proof {
            perm = old_perm.insert(p as int, i as int);
            assert forall|k: int| 0 <= k < out@.len() implies #[trigger] out@[k] == v[perm[k]] by {
                if k < p {
                    assert(out@[k] == old_out[k]);
                } else if k > p {
                    assert(out@[k] == old_out[k - 1]);
                }
            }
            assert forall|k: int| 0 <= k < keys@.len() implies #[trigger] keys@[k]@ == lowercase_text(v[perm[k]].name@) by {
                if k < p {
                    assert(keys@[k] == old_keys[k]);
                } else if k > p {
                    assert(keys@[k] == old_keys[k - 1]);
                }
            }
            assert forall|a: int, b: int| 0 <= a < b < perm.len() implies {
                let x = lowercase_text(v[#[trigger] perm[a]].name@);
                let y = lowercase_text(v[#[trigger] perm[b]].name@);
                lex_lt(x, y) || (x == y && perm[a] < perm[b])
            } by {
                if b < p {
                    assert(perm[a] == old_perm[a] && perm[b] == old_perm[b]);
                } else if a < p && b == p {
                    assert(perm[a] == old_perm[a]);
                    assert(old_keys[a]@ == lowercase_text(v[old_perm[a]].name@));
                    let y = old_keys[a]@;
                    assert(!lex_lt(kx, y));
                    if y != kx {
                        lemma_lex_total(y, kx);
                    }
                } else if a < p && b > p {
                    assert(perm[a] == old_perm[a] && perm[b] == old_perm[b - 1]);
                } else if a == p {
                    assert(perm[b] == old_perm[b - 1]);
                    assert(old_keys[b - 1]@ == lowercase_text(v[old_perm[b - 1]].name@));
                } else {
                    assert(perm[a] == old_perm[a - 1] && perm[b] == old_perm[b - 1]);
                }
            }
            assert forall|a: int, b: int| 0 <= a < b < perm.len() implies perm[a] != perm[b] by {
                if a < p && b < p {
                    assert(perm[a] == old_perm[a] && perm[b] == old_perm[b]);
                } else if a < p && b == p {
                    assert(perm[a] == old_perm[a]);
                } else if a < p && b > p {
                    assert(perm[a] == old_perm[a] && perm[b] == old_perm[b - 1]);
                } else if a == p {
                    assert(perm[b] == old_perm[b - 1]);
                } else {
                    assert(perm[a] == old_perm[a - 1] && perm[b] == old_perm[b - 1]);
                }
            }
            assert forall|k: int| 0 <= k < perm.len() implies 0 <= #[trigger] perm[k] < i + 1 by {
                if k < p {
                    assert(perm[k] == old_perm[k]);
                } else if k > p {
                    assert(perm[k] == old_perm[k - 1]);
                }
            }
        }
        i = i + 1;
    }
    assert(listed_as(v, perm));
    out
}

/// The browser's lines for a directory: `..` leading to the parent (when
/// there is one), then the listed subdirectories.
pub fn browse_entries(parent: Option<String>, listed: Vec<BrowseEntry>) -> (out: Vec<BrowseEntry>)
    ensures
        match parent {
            Some(p) => out@.len() == listed@.len() + 1 && out@[0].name@ == seq!['.', '.'] && out@[0].path == p
                && out@.subrange(1, out@.len() as int) == listed@,
            None => out@ == listed@,
        },
{
    match parent {
        Some(p) => {
            let mut out: Vec<BrowseEntry> = Vec::new();
            let mut dots = String::new();
            crate::text::push_char(&mut dots, '.');
            crate::text::push_char(&mut dots, '.');
            out.push(BrowseEntry { name: dots, path: p });
            let mut rest = listed;
            out.append(&mut rest);
            assert(out@.subrange(1, out@.len() as int) =~= listed@);
            out
        },
        None => listed,
    }
}

} // verus!
