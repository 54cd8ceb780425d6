//! Paths are plain strings whose components are separated by `/`.
//!
//! A path is modelled by whether it is absolute and by the sequence of its
//! meaningful components: empty components and `.` components carry no
//! meaning and are dropped, while `..` and named components are kept in order.
use vstd::prelude::*;

verus! {

/// Whether a path string starts at the file system root.
pub open spec fn is_absolute(s: Seq<char>) -> bool {
    s.len() > 0 && s[0] == '/'
}

/// A component that survives normalization: neither empty nor `.`.
pub open spec fn is_kept(seg: Seq<char>) -> bool {
    seg.len() > 0 && seg != seq!['.']
}

/// A component as it appears in a normalized path.
pub open spec fn is_clean_component(seg: Seq<char>) -> bool {
    is_kept(seg) && forall|k: int| 0 <= k < seg.len() ==> seg[k] != '/'
}

/// Left-to-right scan of a path: the kept components that are already closed
/// by a separator, and the component that is still open.
pub open spec fn scan(s: Seq<char>) -> (Seq<Seq<char>>, Seq<char>)
    decreases s.len(),
{
    if s.len() == 0 {
        (seq![], seq![])
    } else {
        let (done, cur) = scan(s.drop_last());
        if s.last() == '/' {
            (if is_kept(cur) { done.push(cur) } else { done }, seq![])
        } else {
            (done, cur.push(s.last()))
        }
    }
}

/// The meaningful components of a path, in order.
pub open spec fn parts(s: Seq<char>) -> Seq<Seq<char>> {
    let (done, cur) = scan(s);
    if is_kept(cur) {
        done.push(cur)
    } else {
        done
    }
}

/// Components joined by single separators.
pub open spec fn join_parts(p: Seq<Seq<char>>) -> Seq<char>
    decreases p.len(),
{
    if p.len() == 0 {
        seq![]
    } else if p.len() == 1 {
        p[0]
    } else {
        join_parts(p.drop_last()) + seq!['/'] + p.last()
    }
}

/// The normal form of a path: its components joined, with a leading `/` when
/// absolute, and `.` for a relative path without components.
pub open spec fn normalized(s: Seq<char>) -> Seq<char> {
    rendered(is_absolute(s), parts(s))
}

/// The path with the given absoluteness and components, in normal form.
pub open spec fn rendered(absolute: bool, p: Seq<Seq<char>>) -> Seq<char> {
    if absolute {
        seq!['/'] + join_parts(p)
    } else if p.len() == 0 {
        seq!['.']
    } else {
        join_parts(p)
    }
}

/// The normalized parent directory of a path; none for the root and for the
/// empty path.
pub open spec fn parent_of(s: Seq<char>) -> Option<Seq<char>> {
    let p = parts(s);
    if p.len() > 0 {
        Some(rendered(is_absolute(s), p.drop_last()))
    } else if is_absolute(s) || s.len() == 0 {
        None
    } else {
        Some(seq!['.'])
    }
}

/// `base` joined with `p`: an absolute `p` replaces `base`, otherwise `p` is
/// appended after a separator (none is added after an empty base or one that
/// already ends in a separator).
pub open spec fn path_join(base: Seq<char>, p: Seq<char>) -> Seq<char> {
    if is_absolute(p) {
        p
    } else if base.len() == 0 || base.last() == '/' {
        base + p
    } else {
        base + seq!['/'] + p
    }
}

/// Component-wise prefix: `s` lies at or below `d`.
pub open spec fn path_starts_with(s: Seq<char>, d: Seq<char>) -> bool {
    &&& is_absolute(s) == is_absolute(d)
    &&& parts(d).len() <= parts(s).len()
    &&& parts(d) == parts(s).subrange(0, parts(d).len() as int)
}

/// The character sequences of a list of strings.
pub open spec fn views(v: Seq<String>) -> Seq<Seq<char>> {
    v.map_values(|x: String| x@)
}

/// Appending a string appends its characters' view.
pub proof fn lemma_views_push(s: Seq<String>, x: String)
    ensures
        views(s.push(x)) == views(s).push(x@),
{
    assert(views(s.push(x)) =~= views(s).push(x@));
}

/// Closed components are clean, and the open one holds no separator.
proof fn lemma_scan_clean(s: Seq<char>)
    ensures
        forall|k: int| 0 <= k < scan(s).0.len() ==> is_clean_component(#[trigger] scan(s).0[k]),
        forall|k: int| 0 <= k < scan(s).1.len() ==> scan(s).1[k] != '/',
    decreases s.len(),
{
    if s.len() > 0 {
        let t = s.drop_last();
        lemma_scan_clean(t);
        let (done, cur) = scan(t);
        if s.last() != '/' {
            assert forall|k: int| 0 <= k < cur.push(s.last()).len() implies cur.push(s.last())[k]
                != '/' by {
                if k < cur.len() {
                    assert(cur.push(s.last())[k] == cur[k]);
                }
            }
        } else {
            if is_kept(cur) {
                assert(is_clean_component(cur));
                assert forall|k: int| 0 <= k < done.push(cur).len() implies is_clean_component(
                    #[trigger] done.push(cur)[k],
                ) by {
                    if k < done.len() {
                        assert(done.push(cur)[k] == done[k]);
                    }
                }
            }
        }
    }
}

/// Every component of a path is clean.
proof fn lemma_parts_clean(s: Seq<char>)
    ensures
        forall|k: int| 0 <= k < parts(s).len() ==> is_clean_component(#[trigger] parts(s)[k]),
{
    lemma_scan_clean(s);
}

/// Appending characters without a separator only extends the open component.
proof fn lemma_scan_append_plain(a: Seq<char>, b: Seq<char>)
    requires
        forall|k: int| 0 <= k < b.len() ==> b[k] != '/',
    ensures
        scan(a + b) == (scan(a).0, scan(a).1 + b),
    decreases b.len(),
{
    if b.len() == 0 {
        assert(a + b =~= a);
        assert(scan(a).1 + b =~= scan(a).1);
    } else {
        let b0 = b.drop_last();
        lemma_scan_append_plain(a, b0);
        assert((a + b).drop_last() =~= a + b0);
        assert(scan(a).1 + b =~= (scan(a).1 + b0).push(b.last()));
    }
}

/// Scanning `pre` followed by joined clean components.
proof fn lemma_scan_join(pre: Seq<char>, p: Seq<Seq<char>>)
    requires
        p.len() > 0,
        scan(pre).1.len() == 0,
        forall|k: int| 0 <= k < p.len() ==> is_clean_component(#[trigger] p[k]),
    ensures
        scan(pre + join_parts(p)) == (scan(pre).0 + p.drop_last(), p.last()),
    decreases p.len(),
{
    if p.len() == 1 {
        lemma_scan_append_plain(pre, p[0]);
        assert(scan(pre).0 + p.drop_last() =~= scan(pre).0);
        assert(seq![] + p[0] =~= p[0]);
        assert(scan(pre).1 =~= seq![]);
    } else {
        let q = p.drop_last();
        assert(is_clean_component(q[q.len() - 1]));
        lemma_scan_join(pre, q);
        let mid = pre + join_parts(q);
        let with_sep = mid + seq!['/'];
        assert(with_sep.drop_last() =~= mid);
        assert(scan(with_sep) == (scan(pre).0 + q.drop_last().push(q.last()), Seq::<char>::empty()));
        assert(q.drop_last().push(q.last()) =~= q);
        assert(scan(pre).0 + q.drop_last().push(q.last()) =~= scan(pre).0 + q);
        assert(is_clean_component(p.last()));
        lemma_scan_append_plain(with_sep, p.last());
        assert(pre + join_parts(p) =~= with_sep + p.last());
        assert(Seq::<char>::empty() + p.last() =~= p.last());
        assert(scan(with_sep).1 =~= Seq::<char>::empty());
        assert(scan(with_sep).1 + p.last() =~= p.last());
    }
}

/// The components of `pre` followed by joined clean components.
proof fn lemma_parts_of_join(pre: Seq<char>, p: Seq<Seq<char>>)
    requires
        scan(pre).1.len() == 0,
        forall|k: int| 0 <= k < p.len() ==> is_clean_component(#[trigger] p[k]),
    ensures
        parts(pre + join_parts(p)) == scan(pre).0 + p,
{
    if p.len() == 0 {
        assert(pre + join_parts(p) =~= pre);
        assert(scan(pre).0 + p =~= scan(pre).0);
    } else {
        lemma_scan_join(pre, p);
        assert(is_clean_component(p.last()));
        assert((scan(pre).0 + p.drop_last()).push(p.last()) =~= scan(pre).0 + p);
    }
}

/// Joined components start with the first component.
proof fn lemma_join_first(p: Seq<Seq<char>>)
    requires
        p.len() > 0,
    ensures
        join_parts(p).len() >= p[0].len(),
        forall|k: int| 0 <= k < p[0].len() ==> join_parts(p)[k] == p[0][k],
    decreases p.len(),
{
    if p.len() > 1 {
        lemma_join_first(p.drop_last());
    }
}

/// The components and the absoluteness of a normalized path are those of the
/// path it came from.
pub proof fn lemma_normalized_model(s: Seq<char>)
    ensures
        parts(normalized(s)) == parts(s),
        is_absolute(normalized(s)) == is_absolute(s),
{
    let p = parts(s);
    lemma_parts_clean(s);
    if is_absolute(s) {
        let root = seq!['/'];
        assert(root.drop_last() =~= Seq::<char>::empty());
        assert(scan(Seq::<char>::empty()) == (Seq::<Seq<char>>::empty(), Seq::<char>::empty()));
        assert(scan(root) == (Seq::<Seq<char>>::empty(), Seq::<char>::empty()));
        lemma_parts_of_join(root, p);
        assert(Seq::<Seq<char>>::empty() + p =~= p);
    } else if p.len() == 0 {
        let dot = seq!['.'];
        assert(dot.drop_last() =~= Seq::<char>::empty());
        assert(scan(Seq::<char>::empty()) == (Seq::<Seq<char>>::empty(), Seq::<char>::empty()));
        assert(Seq::<char>::empty().push('.') =~= seq!['.']);
        assert(scan(dot).1 =~= seq!['.']);
        assert(parts(dot) =~= Seq::<Seq<char>>::empty());
    } else {
        let e = Seq::<char>::empty();
        lemma_parts_of_join(e, p);
        assert(e + join_parts(p) =~= join_parts(p));
        assert(Seq::<Seq<char>>::empty() + p =~= p);
        lemma_join_first(p);
        assert(is_clean_component(p[0]));
    }
}

/// Normalizing is idempotent: a normalized path is its own normal form.
pub proof fn lemma_normalize_idempotent(s: Seq<char>)
    ensures
        normalized(normalized(s)) == normalized(s),
{
    lemma_normalized_model(s);
}

/// Whether the component `seg` survives normalization.
fn component_is_kept(seg: &str) -> (r: bool)
    ensures
        r == is_kept(seg@),
{
    let n = seg.unicode_len();
    if n == 0 {
        false
    } else if n == 1 && seg.get_char(0) == '.' {
        assert(seg@ =~= seq!['.']);
        false
    } else {
        assert(seg@.len() != 1 ==> seg@ != seq!['.']);
        true
    }
}

/// The meaningful components of `s`, in order.
pub fn components(s: &str) -> (r: Vec<String>)
    ensures
        views(r@) == parts(s@),
{
    let n = s.unicode_len();
    let mut out: Vec<String> = Vec::new();
    let mut start: usize = 0;
    let mut i: usize = 0;
    while i < n
        invariant
            n == s@.len(),
            start <= i <= n,
            scan(s@.subrange(0, i as int)) == (views(out@), s@.subrange(start as int, i as int)),
        decreases n - i,
    {
        let c = s.get_char(i);
        let ghost before = s@.subrange(0, i as int);
        assert(s@.subrange(0, i as int + 1).drop_last() =~= before);
        if c == '/' {
            let seg = s.substring_char(start, i);
            if component_is_kept(seg) {
                out.push(String::from_str(seg));
                assert(views(out@) =~= scan(before).0.push(scan(before).1));
            }
            start = i + 1;
            assert(s@.subrange(start as int, i as int + 1) =~= Seq::<char>::empty());
        } else {
            assert(s@.subrange(start as int, i as int + 1) =~= s@.subrange(start as int, i as int).push(c));
        }
        i = i + 1;
    }
    assert(s@.subrange(0, n as int) =~= s@);
    let seg = s.substring_char(start, n);
    if component_is_kept(seg) {
        out.push(String::from_str(seg));
        assert(views(out@) =~= scan(s@).0.push(scan(s@).1));
    }
    out
}

/// Components joined by single separators.
fn join_components(p: &Vec<String>) -> (r: String)
    ensures
        r@ == join_parts(views(p@)),
{
    let mut out = String::new();
    let mut i: usize = 0;
    while i < p.len()
        invariant
            i <= p.len(),
            out@ == join_parts(views(p@.subrange(0, i as int))),
        decreases p.len() - i,
    {
        let ghost prev = views(p@.subrange(0, i as int));
        let ghost next = views(p@.subrange(0, i as int + 1));
        assert(next.drop_last() =~= prev);
        if i > 0 {
            out.append("/");
            proof {
                reveal_strlit("/");
            }
        } else {
            assert(next =~= seq![p@[0]@]);
        }
        out.append(p[i].as_str());
        i = i + 1;
    }
    assert(p@.subrange(0, p.len() as int) =~= p@);
    out
}

/// The normal form of `p` (see `normalized`).
pub fn normalize(p: &str) -> (r: String)
    ensures
        r@ == normalized(p@),
{
    let parts = components(p);
    render(path_is_absolute(p), &parts)
}

/// Whether `p` starts at the root.
pub fn path_is_absolute(p: &str) -> (r: bool)
    ensures
        r == is_absolute(p@),
{
    p.unicode_len() > 0 && p.get_char(0) == '/'
}

/// The normalized parent directory of `p` (see `parent_of`).
pub fn parent_dir(p: &str) -> (r: Option<String>)
    ensures
        r matches Some(x) ==> parent_of(p@) == Some(x@),
        r is None ==> parent_of(p@) is None,
{
    let mut parts = components(p);
    let absolute = path_is_absolute(p);
    if parts.len() > 0 {
        let ghost before = parts@;
        parts.pop();
        assert(views(parts@) =~= views(before).drop_last());
        Some(render(absolute, &parts))
    } else if absolute || p.unicode_len() == 0 {
        None
    } else {
        proof {
            reveal_strlit(".");
        }
        Some(String::from_str("."))
    }
}

/// The path with the given absoluteness and components (see `rendered`).
fn render(absolute: bool, parts: &Vec<String>) -> (r: String)
    ensures
        r@ == rendered(absolute, views(parts@)),
{
    let joined = join_components(parts);
    if absolute {
        let mut out = String::from_str("/");
        proof {
            reveal_strlit("/");
        }
        out.append(joined.as_str());
        out
    } else if parts.len() == 0 {
        proof {
            reveal_strlit(".");
        }
        String::from_str(".")
    } else {
        joined
    }
}

/// `base` joined with `p` (see `path_join`).
pub fn join_path(base: &str, p: &str) -> (r: String)
    ensures
        r@ == path_join(base@, p@),
{
    let pn = p.unicode_len();
    if pn > 0 && p.get_char(0) == '/' {
        return String::from_str(p);
    }
    let bn = base.unicode_len();
    let mut out = String::from_str(base);
    if bn > 0 && base.get_char(bn - 1) != '/' {
        out.append("/");
        proof {
            reveal_strlit("/");
        }
    }
    out.append(p);
    out
}

/// Whether `s` lies at or below `d`, comparing whole components.
pub fn starts_with(s: &str, d: &str) -> (r: bool)
    ensures
        r == path_starts_with(s@, d@),
{
    let abs_s = s.unicode_len() > 0 && s.get_char(0) == '/';
    let abs_d = d.unicode_len() > 0 && d.get_char(0) == '/';
    if abs_s != abs_d {
        return false;
    }
    let ps = components(s);
    let pd = components(d);
    if pd.len() > ps.len() {
        return false;
    }
    let mut i: usize = 0;
    while i < pd.len()
        invariant
            pd.len() <= ps.len(),
            i <= pd.len(),
            views(ps@) == parts(s@),
            views(pd@) == parts(d@),
            forall|k: int| 0 <= k < i ==> pd@[k]@ == ps@[k]@,
        decreases pd.len() - i,
    {
        if !string_eq(&pd[i], &ps[i]) {
            assert(views(pd@)[i as int] != views(ps@).subrange(0, pd.len() as int)[i as int]);
            return false;
        }
        i = i + 1;
    }
    assert(views(pd@) =~= views(ps@).subrange(0, pd.len() as int));
    true
}

/// Character-wise equality of two strings.
pub fn string_eq(a: &String, b: &String) -> (r: bool)
    ensures
        r == (a@ == b@),
{
    let n = a.as_str().unicode_len();
    if n != b.as_str().unicode_len() {
        return false;
    }
    let mut i: usize = 0;
    while i < n
        invariant
            n == a@.len() == b@.len(),
            i <= n,
            forall|k: int| 0 <= k < i ==> a@[k] == b@[k],
        decreases n - i,
    {
        if a.as_str().get_char(i) != b.as_str().get_char(i) {
            return false;
        }
        i = i + 1;
    }
    assert(a@ =~= b@);
    true
}

} // verus!
