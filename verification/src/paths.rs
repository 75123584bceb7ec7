//! Path text compared the way a path is compared: by its components, so that
//! `/a//b/`, `/a/./b` and `/a/b` name the same place.

use vstd::prelude::*;
use crate::text::{chars_eq, chars_of};

verus! {

/// The text of `s` cut at each `/`: the finished pieces and the piece still
/// being read.
pub open spec fn cut_at_slashes(s: Seq<char>) -> (Seq<Seq<char>>, Seq<char>)
    decreases s.len(),
{
    if s.len() == 0 {
        (Seq::empty(), Seq::empty())
    } else {
        let (done, cur) = cut_at_slashes(s.drop_last());
        if s.last() == '/' {
            (done.push(cur), Seq::empty())
        } else {
            (done, cur.push(s.last()))
        }
    }
}

/// The pieces of `s` between slashes, empty ones included.
pub open spec fn pieces(s: Seq<char>) -> Seq<Seq<char>> {
    cut_at_slashes(s).0.push(cut_at_slashes(s).1)
}

/// Whether a piece names a component: not empty and not `.`.
pub open spec fn is_named(p: Seq<char>) -> bool {
    p.len() > 0 && !(p.len() == 1 && p[0] == '.')
}

/// The leading component: the root for an absolute path, the current
/// directory for a relative path that starts with `.` alone, else none.
pub open spec fn lead(s: Seq<char>) -> Seq<Seq<char>> {
    if s.len() > 0 && s[0] == '/' {
        seq![seq!['/']]
    } else if s.len() > 0 && s[0] == '.' && (s.len() == 1 || s[1] == '/') {
        seq![seq!['.']]
    } else {
        Seq::empty()
    }
}

/// The components of path text `s`: the leading one, then each named piece.
/// Repeated and trailing slashes and inner `.` pieces add none.
pub open spec fn path_components(s: Seq<char>) -> Seq<Seq<char>> {
    lead(s) + pieces(s).filter(|p: Seq<char>| is_named(p))
}

/// Whether two path texts have the same components.
pub open spec fn same_path(a: Seq<char>, b: Seq<char>) -> bool {
    path_components(a) == path_components(b)
}

fn leading_parts(cs: &Vec<char>) -> (r: Vec<Vec<char>>)
    ensures
        r@.len() == lead(cs@).len(),
        forall|j: int| 0 <= j < r@.len() ==> #[trigger] r@[j]@ == lead(cs@)[j],
{
    let mut r: Vec<Vec<char>> = Vec::new();
    if cs.len() > 0 && cs[0] == '/' {
        let mut root: Vec<char> = Vec::new();
        root.push('/');
        r.push(root);
        assert(r@[0]@ =~= seq!['/']);
    } else if cs.len() > 0 && cs[0] == '.' && (cs.len() == 1 || cs[1] == '/') {
        let mut here: Vec<char> = Vec::new();
        here.push('.');
        r.push(here);
        assert(r@[0]@ =~= seq!['.']);
    }
    r
}

fn piece_is_named(p: &Vec<char>) -> (b: bool)
    ensures
        b == is_named(p@),
{
    p.len() > 0 && !(p.len() == 1 && p[0] == '.')
}

/// The components of path text `s`, each as its characters.
pub fn path_parts(s: &str) -> (r: Vec<Vec<char>>)
    ensures
        r@.len() == path_components(s@).len(),
        forall|j: int| 0 <= j < r@.len() ==> #[trigger] r@[j]@ == path_components(s@)[j],
{
    broadcast use vstd::seq_lib::group_filter_ensures;
    let cs = chars_of(s);
    let ghost named = |p: Seq<char>| is_named(p);
    let ghost l = lead(s@);
    let mut done: Vec<Vec<char>> = leading_parts(&cs);
    let mut cur: Vec<char> = Vec::new();
    let mut i: usize = 0;
    assert(s@.take(0) =~= Seq::<char>::empty());
    while i < cs.len()
        invariant
            cs@ == s@,
            i <= cs@.len(),
            named == (|p: Seq<char>| is_named(p)),
            l == lead(s@),
            done@.len() == l.len() + cut_at_slashes(s@.take(i as int)).0.filter(named).len(),
            forall|j: int| 0 <= j < done@.len() ==>
                #[trigger] done@[j]@ == (l + cut_at_slashes(s@.take(i as int)).0.filter(named))[j],
            cur@ == cut_at_slashes(s@.take(i as int)).1,
        decreases cs@.len() - i,
    {
        let ghost t = s@.take(i as int);
        let ghost before = cut_at_slashes(t);
        let c = cs[i];
        assert(s@.take(i + 1).drop_last() =~= t);
        assert(s@.take(i + 1).last() == c);
        if c == '/' {
            proof { before.0.lemma_filter_push(before.1, named); }
            if piece_is_named(&cur) {
                let ghost old_done = done@;
                let piece = cur;
                done.push(piece);
                proof {
                    let now = cut_at_slashes(s@.take(i + 1));
                    assert(now.0 == before.0.push(before.1));
                    assert((l + now.0.filter(named)) =~= (l + before.0.filter(named)).push(before.1));
                    assert forall|j: int| 0 <= j < done@.len() implies
                        #[trigger] done@[j]@ == (l + now.0.filter(named))[j] by {
                        if j < old_done.len() {
                            assert(done@[j] == old_done[j]);
                        }
                    }
                }
            } else {
                proof {
                    let now = cut_at_slashes(s@.take(i + 1));
                    assert(now.0.filter(named) =~= before.0.filter(named));
                }
            }
            cur = Vec::new();
            assert(cur@ =~= Seq::<char>::empty());
        } else {
            cur.push(c);
        }
        i = i + 1;
    }
    assert(s@.take(cs@.len() as int) =~= s@);
    let ghost fin = cut_at_slashes(s@);
    proof { fin.0.lemma_filter_push(fin.1, named); }
    assert(pieces(s@) == fin.0.push(fin.1));
    if piece_is_named(&cur) {
        let ghost old_done = done@;
        done.push(cur);
        proof {
            assert((l + pieces(s@).filter(named)) =~= (l + fin.0.filter(named)).push(fin.1));
            assert forall|j: int| 0 <= j < done@.len() implies
                #[trigger] done@[j]@ == path_components(s@)[j] by {
                if j < old_done.len() {
                    assert(done@[j] == old_done[j]);
                }
            }
        }
    } else {
        assert(pieces(s@).filter(named) =~= fin.0.filter(named));
    }
    done
}

/// Whether path texts `a` and `b` name the same path, component by component.
pub fn path_eq(a: &str, b: &str) -> (r: bool)
    ensures
        r == same_path(a@, b@),
{
    let x = path_parts(a);
    let y = path_parts(b);
    if x.len() != y.len() {
        return false;
    }
    let mut j: usize = 0;
    while j < x.len()
        invariant
            x@.len() == y@.len(),
            x@.len() == path_components(a@).len(),
            y@.len() == path_components(b@).len(),
            forall|k: int| 0 <= k < x@.len() ==> #[trigger] x@[k]@ == path_components(a@)[k],
            forall|k: int| 0 <= k < y@.len() ==> #[trigger] y@[k]@ == path_components(b@)[k],
            j <= x@.len(),
            forall|k: int| 0 <= k < j ==> path_components(a@)[k] == path_components(b@)[k],
        decreases x@.len() - j,
    {
        if !chars_eq(&x[j], &y[j]) {
            assert(x@[j as int]@ != y@[j as int]@);
            return false;
        }
        j = j + 1;
    }
    assert(path_components(a@) =~= path_components(b@));
    true
}

} // verus!
