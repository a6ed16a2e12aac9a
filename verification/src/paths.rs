//! Slash-separated paths: joining, components, prefix and equality by
//! components, and the final name of a path.
use vstd::prelude::*;
use crate::text::{chars_of, push_chars};

verus! {

/// A path is absolute when it starts at the root `/`.
pub open spec fn is_absolute(p: Seq<char>) -> bool {
    p.len() > 0 && p[0] == '/'
}

/// `rel` joined onto `base`: an absolute `rel` replaces `base`; otherwise a
/// separator is put between them unless `base` is empty or already ends
/// with one.
pub open spec fn joined(base: Seq<char>, rel: Seq<char>) -> Seq<char> {
    if is_absolute(rel) {
        rel
    } else if base.len() == 0 || base.last() == '/' {
        base + rel
    } else {
        base + seq!['/'] + rel
    }
}

/// The component that stands for the root directory.
pub open spec fn root_component() -> Seq<char> {
    seq!['/']
}

/// Whether a segment found between separators is kept as a component:
/// empty segments are dropped, and so is `.` unless it starts a relative
/// path.
pub open spec fn keeps_segment(seg: Seq<char>, first: bool) -> bool {
    seg.len() > 0 && (seg != seq!['.'] || first)
}

/// The components of `p` from position `i` on, given the segment `cur`
/// read so far (which started the path when `first` holds) and the
/// components `acc` already found.
pub open spec fn components_from(
    p: Seq<char>,
    i: int,
    cur: Seq<char>,
    first: bool,
    acc: Seq<Seq<char>>,
) -> Seq<Seq<char>>
    decreases p.len() - i,
{
    if i >= p.len() {
        if keeps_segment(cur, first) {
            acc.push(cur)
        } else {
            acc
        }
    } else if p[i] == '/' {
        components_from(
            p,
            i + 1,
            seq![],
            false,
            if keeps_segment(cur, first) {
                acc.push(cur)
            } else {
                acc
            },
        )
    } else {
        components_from(p, i + 1, cur.push(p[i]), first, acc)
    }
}

/// The components of a path: the root (for an absolute path) followed by
/// its non-empty segments, without `.` segments except a leading one.
pub open spec fn components(p: Seq<char>) -> Seq<Seq<char>> {
    if is_absolute(p) {
        components_from(p, 1, seq![], false, seq![root_component()])
    } else {
        components_from(p, 0, seq![], true, seq![])
    }
}

/// `p` lies at or below `base`: the components of `base` begin those of
/// `p`.
pub open spec fn within(p: Seq<char>, base: Seq<char>) -> bool {
    let cp = components(p);
    let cb = components(base);
    cb.len() <= cp.len() && cp.subrange(0, cb.len() as int) == cb
}

/// `a` and `b` name the same path component by component.
pub open spec fn same_path(a: Seq<char>, b: Seq<char>) -> bool {
    components(a) == components(b)
}

/// The final component of `p` when it is a name (not the root, `.` or
/// `..`).
pub open spec fn final_name(p: Seq<char>) -> Option<Seq<char>> {
    let c = components(p);
    if c.len() == 0 {
        None
    } else {
        let last = c.last();
        if (last == root_component() && is_absolute(p) && c.len() == 1) || last == seq!['.']
            || last == seq!['.', '.'] {
            None
        } else {
            Some(last)
        }
    }
}

/// `rel` joined onto `base`.
pub fn join(base: &str, rel: &str) -> (r: String)
    ensures
        r@ == joined(base@, rel@),
{
    let b = chars_of(base);
    let x = chars_of(rel);
    let mut r = String::new();
    if x.len() > 0 && x[0] == '/' {
        push_chars(&mut r, &x, 0);
        assert(x@.subrange(0, x@.len() as int) =~= x@);
        assert(r@ =~= joined(base@, rel@));
        return r;
    }
    push_chars(&mut r, &b, 0);
    if b.len() > 0 && b[b.len() - 1] != '/' {
        r.push('/');
    }
    push_chars(&mut r, &x, 0);
    assert(x@.subrange(0, x@.len() as int) =~= x@);
    assert(b@.subrange(0, b@.len() as int) =~= b@);
    assert(r@ =~= joined(base@, rel@));
    r
}

/// Whether a segment is kept as a component.
fn keeps(seg: &Vec<char>, first: bool) -> (r: bool)
    ensures
        r == keeps_segment(seg@, first),
{
    if seg.len() == 0 {
        false
    } else if seg.len() == 1 && seg[0] == '.' {
        assert(seg@ =~= seq!['.']);
        first
    } else {
        assert(seg@ != seq!['.']) by {
            if seg@.len() == 1 {
                assert(seg@[0] != seq!['.'][0]);
            }
        }
        true
    }
}

/// The components of a path.
pub fn components_of(p: &str) -> (r: Vec<Vec<char>>)
    ensures
        r@.len() == components(p@).len(),
        forall|k: int| 0 <= k < r@.len() ==> #[trigger] r@[k]@ == components(p@)[k],
{
    let cs = chars_of(p);
    let mut acc: Vec<Vec<char>> = Vec::new();
    let mut i: usize = 0;
    let mut first = true;
    if cs.len() > 0 && cs[0] == '/' {
        acc.push(vec!['/']);
        i = 1;
        first = false;
        assert(acc@[0]@ =~= root_component());
    }
    let ghost acc0: Seq<Seq<char>> = if is_absolute(p@) {
        seq![root_component()]
    } else {
        seq![]
    };
    let mut cur: Vec<char> = Vec::new();
    assert(cur@ =~= Seq::<char>::empty());
    let ghost views: Seq<Seq<char>> = acc0;
    assert(components(p@) == components_from(p@, i as int, cur@, first, views));
    while i < cs.len()
        invariant
            cs@ == p@,
            i <= cs@.len(),
            views.len() == acc@.len(),
            forall|k: int| 0 <= k < acc@.len() ==> #[trigger] acc@[k]@ == views[k],
            components(p@) == components_from(p@, i as int, cur@, first, views),
        decreases cs@.len() - i,
    {
        if cs[i] == '/' {
            if keeps(&cur, first) {
                proof {
                    views = views.push(cur@);
                }
                acc.push(cur);
            }
            cur = Vec::new();
            assert(cur@ =~= Seq::<char>::empty());
            first = false;
        } else {
            cur.push(cs[i]);
        }
        i = i + 1;
    }
    if keeps(&cur, first) {
        proof {
            views = views.push(cur@);
        }
        acc.push(cur);
    }
    acc
}

/// Whether two component lists agree on their first `n` entries.
fn same_prefix(a: &Vec<Vec<char>>, b: &Vec<Vec<char>>, n: usize) -> (r: bool)
    requires
        n <= a@.len(),
        n <= b@.len(),
    ensures
        r == (forall|k: int| 0 <= k < n ==> #[trigger] a@[k]@ == b@[k]@),
{
    let mut k: usize = 0;
    while k < n
        invariant
            n <= a@.len(),
            n <= b@.len(),
            k <= n,
            forall|j: int| 0 <= j < k ==> #[trigger] a@[j]@ == b@[j]@,
        decreases n - k,
    {
        if !chars_equal(&a[k], &b[k]) {
            return false;
        }
        k = k + 1;
    }
    true
}

/// Whether two character vectors hold the same characters.
fn chars_equal(a: &Vec<char>, b: &Vec<char>) -> (r: bool)
    ensures
        r == (a@ == b@),
{
    if a.len() != b.len() {
        return false;
    }
    let mut i: usize = 0;
    while i < a.len()
        invariant
            a@.len() == b@.len(),
            i <= a@.len(),
            forall|j: int| 0 <= j < i ==> a@[j] == b@[j],
        decreases a@.len() - i,
    {
        if a[i] != b[i] {
            return false;
        }
        i = i + 1;
    }
    assert(a@ =~= b@);
    true
}

/// Whether `p` lies at or below `base`, comparing whole components.
pub fn path_within(p: &str, base: &str) -> (r: bool)
    ensures
        r == within(p@, base@),
{
    let cp = components_of(p);
    let cb = components_of(base);
    if cb.len() > cp.len() {
        return false;
    }
    let r = same_prefix(&cp, &cb, cb.len());
    proof {
        let sp = components(p@);
        let sb = components(base@);
        if r {
            assert forall|k: int| 0 <= k < sb.len() implies sp.subrange(0, sb.len() as int)[k]
                == sb[k] by {
                assert(cp@[k]@ == sp[k]);
                assert(cb@[k]@ == sb[k]);
                assert(cp@[k]@ == cb@[k]@);
            }
            assert(sp.subrange(0, sb.len() as int) =~= sb);
        } else {
            let k = choose|k: int| 0 <= k < cb@.len() && cp@[k]@ != cb@[k]@;
            assert(sp.subrange(0, sb.len() as int)[k] != sb[k]);
        }
    }
    r
}

/// Whether `a` and `b` name the same path, comparing whole components.
pub fn path_eq(a: &str, b: &str) -> (r: bool)
    ensures
        r == same_path(a@, b@),
{
    let ca = components_of(a);
    let cb = components_of(b);
    if ca.len() != cb.len() {
        return false;
    }
    let r = same_prefix(&ca, &cb, cb.len());
    proof {
        let sa = components(a@);
        let sb = components(b@);
        if r {
            assert forall|k: int| 0 <= k < sb.len() implies sa[k] == sb[k] by {
                assert(ca@[k]@ == sa[k]);
                assert(cb@[k]@ == sb[k]);
                assert(ca@[k]@ == cb@[k]@);
            }
            assert(sa =~= sb);
        } else {
            let k = choose|k: int| 0 <= k < cb@.len() && ca@[k]@ != cb@[k]@;
            assert(sa[k] != sb[k]);
        }
    }
    r
}

/// The final name of a path, if it ends in one.
pub fn file_name(p: &str) -> (r: Option<String>)
    ensures
        r is Some == final_name(p@) is Some,
        r matches Some(s) ==> s@ == final_name(p@)->0,
{
    let c = components_of(p);
    if c.len() == 0 {
        return None;
    }
    let last = &c[c.len() - 1];
    let is_root = c.len() == 1 && last.len() == 1 && last[0] == '/' && p.unicode_len() > 0
        && p.get_char(0) == '/';
    let is_dot = last.len() == 1 && last[0] == '.';
    let is_dotdot = last.len() == 2 && last[0] == '.' && last[1] == '.';
    proof {
        let l = components(p@).last();
        assert(l == last@);
        if last@.len() == 1 && last@[0] == '/' {
            assert(l =~= root_component());
        }
        if last@.len() == 1 && last@[0] == '.' {
            assert(l =~= seq!['.']);
        }
        if last@.len() == 2 && last@[0] == '.' && last@[1] == '.' {
            assert(l =~= seq!['.', '.']);
        }
        if l == root_component() {
            assert(last@.len() == 1 && last@[0] == '/');
        }
        if l == seq!['.'] {
            assert(last@.len() == 1 && last@[0] == '.');
        }
        if l == seq!['.', '.'] {
            assert(last@.len() == 2 && last@[0] == '.' && last@[1] == '.');
        }
    }
    if is_root || is_dot || is_dotdot {
        None
    } else {
        let mut s = String::new();
        push_chars(&mut s, last, 0);
        assert(last@.subrange(0, last@.len() as int) =~= last@);
        Some(s)
    }
}

} // verus!
