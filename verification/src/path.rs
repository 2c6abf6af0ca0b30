//! `/`-separated paths as `std::path::Path` reads them on Unix: their
//! components, file name, stem and extension, and joining two of them.

use vstd::prelude::*;

use crate::text::{chars_are, push_char, push_chars};

verus! {

/// The views of a list of character vectors.
pub open spec fn views(v: Seq<Vec<char>>) -> Seq<Seq<char>> {
    v.map_values(|p: Vec<char>| p@)
}

/// The parts of `p[i..]` between `/`, with empty and `.` parts dropped, after
/// the part `cur` under way and the parts `acc` before it.
pub open spec fn parts_from(p: Seq<char>, i: int, cur: Seq<char>, acc: Seq<Seq<char>>) -> Seq<
    Seq<char>,
>
    decreases p.len() - i,
{
    if i < 0 || i >= p.len() {
        keep_part(cur, acc)
    } else if p[i] == '/' {
        parts_from(p, i + 1, seq![], keep_part(cur, acc))
    } else {
        parts_from(p, i + 1, cur.push(p[i]), acc)
    }
}

/// The parts `acc` once the part `cur` has ended.
pub open spec fn keep_part(cur: Seq<char>, acc: Seq<Seq<char>>) -> Seq<Seq<char>> {
    if cur.len() == 0 || cur == "."@ {
        acc
    } else {
        acc.push(cur)
    }
}

/// The named parts of a path, `..` among them.
pub open spec fn path_parts(p: Seq<char>) -> Seq<Seq<char>> {
    parts_from(p, 0, seq![], seq![])
}

/// Whether a path begins with a `.` component: it is `.` or starts with `./`.
pub open spec fn leads_with_dot(p: Seq<char>) -> bool {
    p == "."@ || (p.len() >= 2 && p[0] == '.' && p[1] == '/')
}

/// The components of a path, as `Path::components` yields them: `/` for the
/// root, `.` for a leading current directory, then the named parts.
pub open spec fn path_components(p: Seq<char>) -> Seq<Seq<char>> {
    let head = if p.len() > 0 && p[0] == '/' {
        seq!["/"@]
    } else if leads_with_dot(p) {
        seq!["."@]
    } else {
        seq![]
    };
    head + path_parts(p)
}

/// The file name of a path, as `Path::file_name` gives it: its last named
/// part; `None` when there is none or it is `..`.
pub open spec fn file_name_model(p: Seq<char>) -> Option<Seq<char>> {
    let parts = path_parts(p);
    if parts.len() == 0 || parts.last() == ".."@ {
        None
    } else {
        Some(parts.last())
    }
}

/// The index of the last `.` in `n[..i]`, or -1.
pub open spec fn last_dot(n: Seq<char>, i: int) -> int
    decreases i,
{
    if i <= 0 {
        -1
    } else if n[i - 1] == '.' {
        i - 1
    } else {
        last_dot(n, i - 1)
    }
}

/// The extension of a file name, as `Path::extension` gives it: what follows
/// its last `.`; `None` when it has no `.` or only a leading one.
pub open spec fn extension_model(n: Seq<char>) -> Option<Seq<char>> {
    let k = last_dot(n, n.len() as int);
    if k <= 0 {
        None
    } else {
        Some(n.subrange(k + 1, n.len() as int))
    }
}

/// The stem of a file name, as `Path::file_stem` gives it: the name without
/// its extension and the `.` before it.
pub open spec fn stem_model(n: Seq<char>) -> Seq<char> {
    let k = last_dot(n, n.len() as int);
    if k <= 0 {
        n
    } else {
        n.subrange(0, k)
    }
}

/// `base` joined with `rest`, as `Path::join` does: `rest` alone when it is
/// absolute or `base` is empty, else with one `/` between them.
pub open spec fn join_model(base: Seq<char>, rest: Seq<char>) -> Seq<char> {
    if rest.len() > 0 && rest[0] == '/' {
        rest
    } else if base.len() == 0 {
        rest
    } else if base.last() == '/' {
        base + rest
    } else {
        base + seq!['/'] + rest
    }
}

/// The named parts of `p`, in order.
pub fn parts(p: &Vec<char>) -> (r: Vec<Vec<char>>)
    ensures
        views(r@) == path_parts(p@),
{
    let mut acc: Vec<Vec<char>> = Vec::new();
    let mut cur: Vec<char> = Vec::new();
    let mut i: usize = 0;
    assert(views(acc@) =~= Seq::<Seq<char>>::empty());
    assert(cur@ =~= Seq::<char>::empty());
    while i < p.len()
        invariant
            0 <= i <= p.len(),
            path_parts(p@) == parts_from(p@, i as int, cur@, views(acc@)),
        decreases p.len() - i,
    {
        if p[i] == '/' {
            keep(&mut acc, cur);
            cur = Vec::new();
            assert(cur@ =~= Seq::<char>::empty());
        } else {
            cur.push(p[i]);
        }
        i = i + 1;
    }
    keep(&mut acc, cur);
    acc
}

/// Adds the ended part `cur` to `acc` unless it is empty or `.`.
fn keep(acc: &mut Vec<Vec<char>>, cur: Vec<char>)
    ensures
        views(final(acc)@) == keep_part(cur@, views(old(acc)@)),
{
    if cur.len() > 0 && !chars_are(&cur, ".") {
        let ghost before = views(acc@);
        let ghost c = cur@;
        acc.push(cur);
        assert(views(acc@) =~= before.push(c));
    }
}

/// The file name of `p`.
pub fn file_name(p: &Vec<char>) -> (r: Option<Vec<char>>)
    ensures
        match r {
            Some(n) => file_name_model(p@) == Some(n@),
            None => file_name_model(p@) is None,
        },
{
    let mut ps = parts(p);
    match ps.pop() {
        None => None,
        Some(last) => {
            if chars_are(&last, "..") {
                None
            } else {
                Some(last)
            }
        },
    }
}

/// One past the index of the last `.` of `n`; 0 when it has none.
pub fn dot_end(n: &Vec<char>) -> (r: usize)
    ensures
        r as int == last_dot(n@, n@.len() as int) + 1,
        r <= n.len(),
{
    let mut k: usize = n.len();
    while k > 0 && n[k - 1] != '.'
        invariant
            0 <= k <= n.len(),
            last_dot(n@, n@.len() as int) == last_dot(n@, k as int),
        decreases k,
    {
        k = k - 1;
    }
    k
}

/// The components of `p`, in order.
pub fn components(p: &Vec<char>) -> (r: Vec<Vec<char>>)
    ensures
        views(r@) == path_components(p@),
{
    let mut head: Vec<Vec<char>> = Vec::new();
    proof {
        reveal_strlit("/");
        reveal_strlit(".");
        assert("/"@ =~= seq!['/']);
        assert("."@ =~= seq!['.']);
    }
    if p.len() > 0 && p[0] == '/' {
        let mut root: Vec<char> = Vec::new();
        root.push('/');
        head.push(root);
        assert(views(head@) =~= seq!["/"@]);
    } else if chars_are(p, ".") || (p.len() >= 2 && p[0] == '.' && p[1] == '/') {
        let mut here: Vec<char> = Vec::new();
        here.push('.');
        head.push(here);
        assert(views(head@) =~= seq!["."@]);
    } else {
        assert(views(head@) =~= Seq::<Seq<char>>::empty());
    }
    let mut rest = parts(p);
    let ghost h = views(head@);
    let ghost t = views(rest@);
    head.append(&mut rest);
    assert(views(head@) =~= h + t);
    head
}

/// Whether two paths have the same components, as `Path`'s `==` compares them.
pub fn same_path(p: &Vec<char>, q: &Vec<char>) -> (r: bool)
    ensures
        r == (path_components(p@) == path_components(q@)),
{
    let a = components(p);
    let b = components(q);
    if a.len() != b.len() {
        assert(views(a@).len() != views(b@).len());
        return false;
    }
    let mut i: usize = 0;
    while i < a.len()
        invariant
            0 <= i <= a.len(),
            a.len() == b.len(),
            views(a@) == path_components(p@),
            views(b@) == path_components(q@),
            forall|k: int| 0 <= k < i ==> #[trigger] views(a@)[k] == views(b@)[k],
        decreases a.len() - i,
    {
        if !same_chars(&a[i], &b[i]) {
            assert(views(a@)[i as int] != views(b@)[i as int]);
            return false;
        }
        i = i + 1;
    }
    assert(views(a@) =~= views(b@));
    true
}

/// Whether two character vectors are equal.
pub fn same_chars(a: &Vec<char>, b: &Vec<char>) -> (r: bool)
    ensures
        r == (a@ == b@),
{
    if a.len() != b.len() {
        return false;
    }
    let mut i: usize = 0;
    while i < a.len()
        invariant
            0 <= i <= a.len(),
            a.len() == b.len(),
            forall|k: int| 0 <= k < i ==> a@[k] == b@[k],
        decreases a.len() - i,
    {
        if a[i] != b[i] {
            return false;
        }
        i = i + 1;
    }
    assert(a@ =~= b@);
    true
}

/// `base` joined with `rest`.
pub fn join(base: &Vec<char>, rest: &Vec<char>) -> (r: String)
    ensures
        r@ == join_model(base@, rest@),
{
    let mut out = String::new();
    if rest.len() > 0 && rest[0] == '/' {
    } else if base.len() == 0 {
    } else {
        push_chars(&mut out, base, 0, base.len());
        if base[base.len() - 1] != '/' {
            push_char(&mut out, '/');
        }
    }
    push_chars(&mut out, rest, 0, rest.len());
    assert(base@.subrange(0, base@.len() as int) =~= base@);
    assert(rest@.subrange(0, rest@.len() as int) =~= rest@);
    assert(out@ =~= join_model(base@, rest@));
    out
}

/// Where the body of a path starts: after its root `/` or its leading `.`.
pub open spec fn body_start(p: Seq<char>) -> int {
    if (p.len() > 0 && p[0] == '/') || leads_with_dot(p) {
        1
    } else {
        0
    }
}

/// The end of `p[..hi]` once trailing separators and `.` components after
/// `lo` are dropped.
pub open spec fn trim_back(p: Seq<char>, lo: int, hi: int) -> int
    decreases hi,
{
    if hi <= lo || hi <= 0 || hi > p.len() {
        hi
    } else if p[hi - 1] == '/' {
        trim_back(p, lo, hi - 1)
    } else if p[hi - 1] == '.' && (hi - 1 == lo || (hi >= 2 && p[hi - 2] == '/')) {
        trim_back(p, lo, hi - 1)
    } else {
        hi
    }
}

/// The end of `p[..hi]` once its last component after `lo`, and the
/// separator before it, are cut off.
pub open spec fn cut_back(p: Seq<char>, lo: int, hi: int) -> int
    decreases hi,
{
    if hi <= lo || hi <= 0 || hi > p.len() {
        hi
    } else if p[hi - 1] == '/' {
        hi - 1
    } else {
        cut_back(p, lo, hi - 1)
    }
}

/// The end of the parent of `p`, as `Path::parent` gives it; `None` when `p`
/// has no named component.
pub open spec fn parent_end(p: Seq<char>) -> Option<int> {
    let b = body_start(p);
    let e = trim_back(p, b, p.len() as int);
    if e <= b {
        None
    } else {
        Some(trim_back(p, b, cut_back(p, b, e)))
    }
}

/// The directory of a document, against which the paths it names resolve:
/// its parent, or `.` when that is empty or there is none.
pub open spec fn document_directory_model(p: Seq<char>) -> Seq<char> {
    match parent_end(p) {
        Some(e) => if e > 0 {
            p.subrange(0, e)
        } else {
            "."@
        },
        None => "."@,
    }
}

/// The end of `p[..hi]` once trailing separators and `.` components after
/// `lo` are dropped.
fn trim_back_at(p: &Vec<char>, lo: usize, hi: usize) -> (r: usize)
    requires
        lo <= hi <= p.len(),
    ensures
        r == trim_back(p@, lo as int, hi as int),
        lo <= r <= hi,
{
    let mut h = hi;
    while h > lo && (p[h - 1] == '/' || (p[h - 1] == '.' && (h - 1 == lo || (h >= 2 && p[h - 2]
        == '/'))))
        invariant
            lo <= h <= hi <= p.len(),
            trim_back(p@, lo as int, hi as int) == trim_back(p@, lo as int, h as int),
        decreases h,
    {
        h = h - 1;
    }
    h
}

/// The end of `p[..hi]` once its last component after `lo` and the separator
/// before it are cut off.
fn cut_back_at(p: &Vec<char>, lo: usize, hi: usize) -> (r: usize)
    requires
        lo <= hi <= p.len(),
    ensures
        r == cut_back(p@, lo as int, hi as int),
        lo <= r <= hi,
{
    let mut h = hi;
    while h > lo && p[h - 1] != '/'
        invariant
            lo <= h <= hi <= p.len(),
            cut_back(p@, lo as int, hi as int) == cut_back(p@, lo as int, h as int),
        decreases h,
    {
        h = h - 1;
    }
    if h > lo {
        h - 1
    } else {
        h
    }
}

/// The directory of the document at `document`: its parent, as
/// `Path::parent` gives it, or `.` when that is empty or there is none.
pub fn document_directory(document: &str) -> (r: String)
    ensures
        r@ == document_directory_model(document@),
{
    proof {
        reveal_strlit(".");
    }
    let p = crate::text::chars_of(document);
    let b: usize = if (p.len() > 0 && p[0] == '/') || chars_are(&p, ".") || (p.len() >= 2 && p[0]
        == '.' && p[1] == '/') {
        1
    } else {
        0
    };
    assert(b == body_start(p@));
    assert(b <= p.len());
    let e = trim_back_at(&p, b, p.len());
    if e <= b {
        return crate::message::owned(".");
    }
    let c = cut_back_at(&p, b, e);
    let end = trim_back_at(&p, b, c);
    if end == 0 {
        return crate::message::owned(".");
    }
    crate::text::string_of(&p, 0, end)
}

/// Whether `n` is a named part: not empty, not `.` or `..`, without `/`.
pub open spec fn named_part(n: Seq<char>) -> bool {
    n.len() > 0 && n != "."@ && n != ".."@ && !n.contains('/')
}

proof fn lemma_parts_tail(p: Seq<char>, i: int, cur: Seq<char>, acc: Seq<Seq<char>>)
    requires
        0 <= i <= p.len(),
        forall|j: int| i <= j < p.len() ==> p[j] != '/',
    ensures
        parts_from(p, i, cur, acc) == keep_part(cur + p.subrange(i, p.len() as int), acc),
    decreases p.len() - i,
{
    if i < p.len() {
        lemma_parts_tail(p, i + 1, cur.push(p[i]), acc);
        assert(cur.push(p[i]) + p.subrange(i + 1, p.len() as int) =~= cur + p.subrange(
            i,
            p.len() as int,
        ));
    } else {
        assert(cur + p.subrange(i, p.len() as int) =~= cur);
    }
}

proof fn lemma_parts_end_with(p: Seq<char>, m: int, n: Seq<char>, i: int, cur: Seq<char>, acc: Seq<Seq<char>>)
    requires
        0 <= i <= m < p.len(),
        p[m] == '/',
        p.subrange(m + 1, p.len() as int) == n,
        named_part(n),
    ensures
        parts_from(p, i, cur, acc).len() > 0,
        parts_from(p, i, cur, acc).last() == n,
    decreases m - i,
{
    if i == m {
        assert forall|j: int| m + 1 <= j < p.len() implies p[j] != '/' by {
            assert(n[j - m - 1] == p[j]);
        }
        lemma_parts_tail(p, m + 1, seq![], keep_part(cur, acc));
        assert(Seq::<char>::empty() + p.subrange(m + 1, p.len() as int) =~= n);
    } else if p[i] == '/' {
        lemma_parts_end_with(p, m, n, i + 1, seq![], keep_part(cur, acc));
    } else {
        lemma_parts_end_with(p, m, n, i + 1, cur.push(p[i]), acc);
    }
}

/// The file name of a path is its last part: a named part `n` alone, or
/// after any path and a `/`, is the file name, whatever comes before it
/// (`..` parts included).
pub proof fn law_file_name_is_the_last_part(base: Seq<char>, n: Seq<char>)
    requires
        named_part(n),
    ensures
        file_name_model(n) == Some(n),
        file_name_model(base + seq!['/'] + n) == Some(n),
{
    reveal_strlit("..");
    assert forall|j: int| 0 <= j < n.len() implies n[j] != '/' by {
        if n[j] == '/' {
            assert(n.contains('/'));
        }
    }
    lemma_parts_tail(n, 0, seq![], seq![]);
    assert(Seq::<char>::empty() + n.subrange(0, n.len() as int) =~= n);
    let p = base + seq!['/'] + n;
    let m = base.len() as int;
    assert(p[m] == '/');
    assert(p.subrange(m + 1, p.len() as int) =~= n);
    lemma_parts_end_with(p, m, n, 0, seq![], seq![]);
}

proof fn lemma_last_dot_after(n: Seq<char>, k: int, i: int)
    requires
        0 <= k < i <= n.len(),
        n[k] == '.',
        forall|j: int| k < j < n.len() ==> n[j] != '.',
    ensures
        last_dot(n, i) == k,
    decreases i,
{
    if i - 1 > k {
        lemma_last_dot_after(n, k, i - 1);
    }
}

/// The extension of a file name is what follows its last dot: a name made
/// of a non-empty stem (dots allowed), a dot and a non-empty extension
/// without dots has that extension and that stem.
pub proof fn law_extension_follows_the_last_dot(stem: Seq<char>, ext: Seq<char>)
    requires
        stem.len() > 0,
        ext.len() > 0,
        !ext.contains('.'),
    ensures
        extension_model(stem + seq!['.'] + ext) == Some(ext),
        stem_model(stem + seq!['.'] + ext) == stem,
{
    let n = stem + seq!['.'] + ext;
    let k = stem.len() as int;
    assert(n[k] == '.');
    assert forall|j: int| k < j < n.len() implies n[j] != '.' by {
        assert(n[j] == ext[j - k - 1]);
        if n[j] == '.' {
            assert(ext.contains('.'));
        }
    }
    lemma_last_dot_after(n, k, n.len() as int);
    assert(n.subrange(k + 1, n.len() as int) =~= ext);
    assert(n.subrange(0, k) =~= stem);
}

} // verus!
