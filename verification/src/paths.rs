//! File-system paths as the site handles them: Unix paths held as text, with
//! the component rules of `std::path` (`/` separates components, empty and `.`
//! components after the first are ignored, and a trailing `..` has no file name).
use vstd::prelude::*;
use crate::text::{chars_of, opt_view, string_of_range};

verus! {

/// The position of the last `c` in `s`, or -1 when `s` holds none.
pub open spec fn last_index_of(s: Seq<char>, c: char) -> int
    decreases s.len(),
{
    if s.len() == 0 {
        -1
    } else if s.last() == c {
        s.len() - 1
    } else {
        last_index_of(s.drop_last(), c)
    }
}

pub proof fn lemma_last_index_of(s: Seq<char>, c: char)
    ensures
        -1 <= last_index_of(s, c) < s.len(),
        last_index_of(s, c) >= 0 ==> s[last_index_of(s, c)] == c,
        forall|k: int| last_index_of(s, c) < k < s.len() ==> s[k] != c,
    decreases s.len(),
{
    if s.len() > 0 && s.last() != c {
        lemma_last_index_of(s.drop_last(), c);
        assert forall|k: int| last_index_of(s, c) < k < s.len() implies s[k] != c by {
            if k < s.len() - 1 {
                assert(s[k] == s.drop_last()[k]);
            }
        }
    }
}

/// `r` is the last position of `c` in `s` when `c` stands there (or `r` is -1)
/// and nowhere after it.
pub proof fn lemma_last_index_of_is(s: Seq<char>, c: char, r: int)
    requires
        -1 <= r < s.len(),
        r >= 0 ==> s[r] == c,
        forall|k: int| r < k < s.len() ==> s[k] != c,
    ensures
        last_index_of(s, c) == r,
    decreases s.len(),
{
    if s.len() > 0 && r < s.len() - 1 {
        lemma_last_index_of_is(s.drop_last(), c, r);
    }
}

/// The span `[start, end)` that the file name of `p` takes in `p`: the last
/// component, once trailing `/` and `.` components are set aside; none when
/// that component is `..`, or when there is none (an empty path, `/`, `.`).
pub open spec fn name_span(p: Seq<char>) -> Option<(int, int)>
    decreases p.len(),
{
    if p.len() == 0 {
        None
    } else if p.last() == '/' {
        name_span(p.drop_last())
    } else {
        let i = last_index_of(p, '/');
        let comp = p.subrange(i + 1, p.len() as int);
        if comp == seq!['.'] {
            if i < 0 {
                None
            } else {
                proof {
                    lemma_last_index_of(p, '/');
                }
                name_span(p.take(i))
            }
        } else if comp == seq!['.', '.'] {
            None
        } else {
            Some((i + 1, p.len() as int))
        }
    }
}

/// The file name of `p` (`Path::file_name`).
pub open spec fn file_name_of(p: Seq<char>) -> Option<Seq<char>> {
    match name_span(p) {
        Some((a, b)) => Some(p.subrange(a, b)),
        None => None,
    }
}

/// How many characters of a file name its stem takes: all of them, unless the
/// name holds a `.` after its first character, where the stem ends at the last `.`.
pub open spec fn stem_len(name: Seq<char>) -> int {
    let d = last_index_of(name, '.');
    if d <= 0 {
        name.len() as int
    } else {
        d
    }
}

/// The extension of a file name: what follows its last `.`, unless that `.`
/// is its first character or it holds none.
pub open spec fn name_extension(name: Seq<char>) -> Option<Seq<char>> {
    let d = last_index_of(name, '.');
    if d <= 0 {
        None
    } else {
        Some(name.skip(d + 1))
    }
}

/// The file stem of `p` (`Path::file_stem`).
pub open spec fn file_stem_of(p: Seq<char>) -> Option<Seq<char>> {
    match file_name_of(p) {
        Some(n) => Some(n.take(stem_len(n))),
        None => None,
    }
}

/// The extension of `p` (`Path::extension`).
pub open spec fn extension_of(p: Seq<char>) -> Option<Seq<char>> {
    match file_name_of(p) {
        Some(n) => name_extension(n),
        None => None,
    }
}

/// `p` after `PathBuf::set_extension(e)`: unchanged when `p` has no file name;
/// otherwise cut right after the file stem, then followed by `.` and `e`
/// when `e` is not empty.
pub open spec fn with_extension(p: Seq<char>, e: Seq<char>) -> Seq<char> {
    match name_span(p) {
        None => p,
        Some((a, b)) => p.take(a + stem_len(p.subrange(a, b))) + if e.len() == 0 {
            seq![]
        } else {
            seq!['.'] + e
        },
    }
}

/// Whether `p` is an absolute Unix path.
pub open spec fn is_absolute(p: Seq<char>) -> bool {
    p.len() > 0 && p[0] == '/'
}

/// `base` after `PathBuf::push(p)`: an absolute `p` replaces `base`; otherwise
/// `p` is appended, after a `/` when `base` is not empty and does not end in one.
pub open spec fn pushed(base: Seq<char>, p: Seq<char>) -> Seq<char> {
    if is_absolute(p) {
        p
    } else if base.len() > 0 && base.last() != '/' {
        base + seq!['/'] + p
    } else {
        base + p
    }
}

proof fn lemma_name_span_step(p: Seq<char>, end: int)
    requires
        0 < end <= p.len(),
        p[end - 1] == '/',
    ensures
        name_span(p.take(end)) == name_span(p.take(end - 1)),
{
    assert(p.take(end).drop_last() =~= p.take(end - 1));
}

/// The span of the file name of `p` (see `name_span`).
pub fn file_name_span(p: &Vec<char>) -> (res: Option<(usize, usize)>)
    ensures
        match res {
            Some((a, b)) => name_span(p@) == Some((a as int, b as int)) && a <= b <= p@.len(),
            None => name_span(p@) is None,
        },
{
    let mut end = p.len();
    assert(p@.take(end as int) =~= p@);
    loop
        invariant
            end <= p@.len(),
            name_span(p@) == name_span(p@.take(end as int)),
        decreases end,
    {
        if end == 0 {
            return None;
        }
        if p[end - 1] == '/' {
            proof {
                lemma_name_span_step(p@, end as int);
            }
            end = end - 1;
        } else {
            let mut i = end;
            while i > 0 && p[i - 1] != '/'
                invariant
                    i <= end <= p@.len(),
                    forall|k: int| i <= k < end ==> p@[k] != '/',
                decreases i,
            {
                i = i - 1;
            }
            let ghost t = p@.take(end as int);
            proof {
                lemma_last_index_of_is(t, '/', i - 1);
                assert(t.subrange(i as int, end as int) =~= p@.subrange(i as int, end as int));
            }
            if end - i == 1 && p[i] == '.' {
                assert(t.subrange(i as int, end as int) =~= seq!['.']);
                if i == 0 {
                    return None;
                }
                assert(t.take(i - 1) =~= p@.take(i - 1));
                end = i - 1;
            } else if end - i == 2 && p[i] == '.' && p[i + 1] == '.' {
                assert(t.subrange(i as int, end as int) =~= seq!['.', '.']);
                return None;
            } else {
                assert(t.subrange(i as int, end as int) != seq!['.']) by {
                    if end - i == 1 {
                        assert(t.subrange(i as int, end as int)[0] == p@[i as int]);
                    }
                }
                assert(t.subrange(i as int, end as int) != seq!['.', '.']) by {
                    if end - i == 2 {
                        assert(t.subrange(i as int, end as int)[0] == p@[i as int]);
                        assert(t.subrange(i as int, end as int)[1] == p@[i + 1]);
                    }
                }
                return Some((i, end));
            }
        }
    }
}

/// The position of the last `.` among `p[a..b]`, counted from `a`.
fn last_dot(p: &Vec<char>, a: usize, b: usize) -> (res: Option<usize>)
    requires
        a <= b <= p@.len(),
    ensures
        match res {
            Some(d) => last_index_of(p@.subrange(a as int, b as int), '.') == d as int,
            None => last_index_of(p@.subrange(a as int, b as int), '.') == -1,
        },
{
    let ghost n = p@.subrange(a as int, b as int);
    let mut i = b;
    while i > a && p[i - 1] != '.'
        invariant
            a <= i <= b <= p@.len(),
            forall|k: int| i <= k < b ==> p@[k] != '.',
        decreases i,
    {
        i = i - 1;
    }
    proof {
        lemma_last_index_of_is(n, '.', i - a - 1);
    }
    if i == a {
        None
    } else {
        Some(i - 1 - a)
    }
}

/// The length of the stem of the file name `p[a..b]` (see `stem_len`).
fn stem_length(p: &Vec<char>, a: usize, b: usize) -> (res: usize)
    requires
        a <= b <= p@.len(),
    ensures
        res == stem_len(p@.subrange(a as int, b as int)),
        res <= b - a,
{
    proof {
        lemma_last_index_of(p@.subrange(a as int, b as int), '.');
    }
    match last_dot(p, a, b) {
        Some(d) => if d == 0 {
            b - a
        } else {
            d
        },
        None => b - a,
    }
}

/// The file name of `path`, as `Path::file_name` gives it.
pub fn file_name(path: &str) -> (res: Option<String>)
    ensures
        opt_view(res) == file_name_of(path@),
{
    let p = chars_of(path);
    match file_name_span(&p) {
        Some((a, b)) => Some(string_of_range(&p, a, b)),
        None => None,
    }
}

/// The file stem of `path`, as `Path::file_stem` gives it.
pub fn file_stem(path: &str) -> (res: Option<String>)
    ensures
        opt_view(res) == file_stem_of(path@),
{
    let p = chars_of(path);
    match file_name_span(&p) {
        Some((a, b)) => {
            let k = stem_length(&p, a, b);
            assert(p@.subrange(a as int, b as int).take(k as int) =~= p@.subrange(
                a as int,
                a + k,
            ));
            Some(string_of_range(&p, a, a + k))
        },
        None => None,
    }
}

/// The extension of `path`, as `Path::extension` gives it.
pub fn extension(path: &str) -> (res: Option<String>)
    ensures
        opt_view(res) == extension_of(path@),
{
    let p = chars_of(path);
    match file_name_span(&p) {
        Some((a, b)) => {
            proof {
                lemma_last_index_of(p@.subrange(a as int, b as int), '.');
            }
            match last_dot(&p, a, b) {
                Some(d) => if d == 0 {
                    None
                } else {
                    assert(p@.subrange(a as int, b as int).skip(d + 1) =~= p@.subrange(
                        a + d + 1,
                        b as int,
                    ));
                    Some(string_of_range(&p, a + d + 1, b))
                },
                None => None,
            }
        },
        None => None,
    }
}

/// Sets the extension of `path` as `PathBuf::set_extension` does; returns
/// whether `path` had a file name (and so was changed). The standard library
/// panics on an extension that holds a separator, so that is left out.
pub fn set_extension(path: &mut String, extension: &str) -> (changed: bool)
    requires
        !extension@.contains('/'),
    ensures
        final(path)@ == with_extension(old(path)@, extension@),
        changed == (name_span(old(path)@) is Some),
{
    let p = chars_of(path.as_str());
    match file_name_span(&p) {
        Some((a, b)) => {
            let k = stem_length(&p, a, b);
            let mut res = string_of_range(&p, 0, a + k);
            assert(p@.subrange(0, a + k) =~= p@.take(a + k));
            if !extension.is_empty() {
                res.append(".");
                res.append(extension);
                proof {
                    reveal_strlit(".");
                }
            }
            *path = res;
            true
        },
        None => false,
    }
}

/// Extends `path` with `more` as `PathBuf::push` does on Unix: an absolute
/// `more` replaces `path`; otherwise `more` is appended after a separator,
/// which is added only where `path` is not empty and does not end in one.
pub fn push(path: &mut String, more: &str)
    ensures
        final(path)@ == pushed(old(path)@, more@),
{
    let m = chars_of(more);
    let b = chars_of(path.as_str());
    if m.len() > 0 && m[0] == '/' {
        *path = String::from_str(more);
    } else if b.len() > 0 && b[b.len() - 1] == '/' {
        path.append(more);
    } else if b.len() > 0 {
        path.append("/");
        path.append(more);
        proof {
            reveal_strlit("/");
        }
    } else {
        path.append(more);
    }
}

/// `base` with `more` pushed onto it (see `push`).
pub fn joined(base: &str, more: &str) -> (res: String)
    ensures
        res@ == pushed(base@, more@),
{
    let mut res = String::from_str(base);
    push(&mut res, more);
    res
}

/// A file name span covers one whole component: it starts the path or follows a
/// `/`, holds no `/`, and is neither empty nor `.` nor `..`.
pub proof fn lemma_name_span_component(p: Seq<char>)
    ensures
        name_span(p) matches Some((a, b)) ==> {
            &&& 0 <= a < b <= p.len()
            &&& a == 0 || p[a - 1] == '/'
            &&& forall|k: int| a <= k < b ==> p[k] != '/'
            &&& p.subrange(a, b) != seq!['.']
            &&& p.subrange(a, b) != seq!['.', '.']
        },
    decreases p.len(),
{
    if p.len() == 0 {
    } else if p.last() == '/' {
        lemma_name_span_component(p.drop_last());
        if let Some((a, b)) = name_span(p) {
            assert(p.subrange(a, b) =~= p.drop_last().subrange(a, b));
            assert forall|k: int| a <= k < b implies p[k] != '/' by {
                assert(p[k] == p.drop_last()[k]);
            }
            if a > 0 {
                assert(p[a - 1] == p.drop_last()[a - 1]);
            }
        }
    } else {
        let i = last_index_of(p, '/');
        lemma_last_index_of(p, '/');
        let comp = p.subrange(i + 1, p.len() as int);
        if comp == seq!['.'] {
            if i >= 0 {
                lemma_name_span_component(p.take(i));
                if let Some((a, b)) = name_span(p) {
                    assert(p.subrange(a, b) =~= p.take(i).subrange(a, b));
                    assert forall|k: int| a <= k < b implies p[k] != '/' by {
                        assert(p[k] == p.take(i)[k]);
                    }
                    if a > 0 {
                        assert(p[a - 1] == p.take(i)[a - 1]);
                    }
                }
            }
        } else if comp == seq!['.', '.'] {
        } else {
            assert(p[p.len() - 1] != '/');
            assert(i < p.len() - 1);
            assert(name_span(p) == Some((i + 1, p.len() as int)));
        }
    }
}

proof fn lemma_name_span_after(x: Seq<char>, p: Seq<char>)
    requires
        x.len() == 0 || x.last() == '/',
        name_span(p) is Some,
    ensures
        name_span(x + p) == Some(
            (name_span(p).unwrap().0 + x.len(), name_span(p).unwrap().1 + x.len()),
        ),
    decreases p.len(),
{
    let q = x + p;
    if p.last() == '/' {
        assert(q.drop_last() =~= x + p.drop_last());
        lemma_name_span_after(x, p.drop_last());
    } else {
        let i = last_index_of(p, '/');
        lemma_last_index_of(p, '/');
        assert forall|k: int| x.len() + i < k < q.len() implies q[k] != '/' by {
            assert(q[k] == p[k - x.len()]);
        }
        lemma_last_index_of_is(q, '/', x.len() + i);
        assert(q.subrange(x.len() + i + 1, q.len() as int) =~= p.subrange(i + 1, p.len() as int));
        if p.subrange(i + 1, p.len() as int) == seq!['.'] {
            assert(q.take(x.len() + i) =~= x + p.take(i));
            lemma_name_span_after(x, p.take(i));
        }
    }
}

/// Pushing a path that has a file name onto any base keeps that file name.
pub proof fn lemma_push_keeps_file_name(base: Seq<char>, p: Seq<char>)
    requires
        file_name_of(p) is Some,
    ensures
        file_name_of(pushed(base, p)) == file_name_of(p),
{
    if !is_absolute(p) {
        let x = if base.len() > 0 && base.last() != '/' {
            base + seq!['/']
        } else {
            base
        };
        assert(pushed(base, p) =~= x + p);
        lemma_name_span_after(x, p);
        let (a, b) = name_span(p).unwrap();
        lemma_name_span_component(p);
        assert((x + p).subrange(a + x.len(), b + x.len()) =~= p.subrange(a, b));
    }
}

/// Setting an extension (one without `.` or `/`) on a path that has a file name
/// makes it the path's extension and keeps the file stem.
pub proof fn lemma_set_extension_sets(p: Seq<char>, e: Seq<char>)
    requires
        file_name_of(p) is Some,
        e.len() > 0,
        !e.contains('.'),
        !e.contains('/'),
    ensures
        extension_of(with_extension(p, e)) == Some(e),
        file_stem_of(with_extension(p, e)) == file_stem_of(p),
{
    let (a, b) = name_span(p).unwrap();
    lemma_name_span_component(p);
    let name = p.subrange(a, b);
    lemma_last_index_of(name, '.');
    let k = stem_len(name);
    assert(1 <= k <= name.len());
    let stem = p.subrange(a, a + k);
    let q = with_extension(p, e);
    assert(q =~= p.take(a + k) + (seq!['.'] + e));
    assert forall|j: int| a <= j < q.len() implies q[j] != '/' by {
        if j < a + k {
            assert(q[j] == p[j]);
        } else if j > a + k {
            assert(q[j] == e[j - a - k - 1]);
        }
    }
    if a > 0 {
        assert(q[a - 1] == p[a - 1]);
    }
    assert(q.last() != '/');
    lemma_last_index_of_is(q, '/', a - 1);
    let comp = q.subrange(a, q.len() as int);
    assert(comp.len() >= 3);
    assert(comp != seq!['.']);
    assert(comp != seq!['.', '.']);
    assert(name_span(q) == Some((a, q.len() as int)));
    assert(comp =~= stem + (seq!['.'] + e));
    assert forall|j: int| k < j < comp.len() implies comp[j] != '.' by {
        assert(comp[j] == e[j - k - 1]);
    }
    lemma_last_index_of_is(comp, '.', k);
    assert(comp.skip(k + 1) =~= e);
    assert(comp.take(k) =~= stem);
    assert(name.take(k) =~= stem);
}

/// Pushing an absolute path replaces the base; pushing a relative path onto
/// a base that is empty or ends in `/` appends it; onto any other base, it
/// appends a `/` and then the path.
pub proof fn lemma_push_cases(base: Seq<char>, p: Seq<char>)
    ensures
        is_absolute(p) ==> pushed(base, p) == p,
        !is_absolute(p) && (base.len() == 0 || base.last() == '/') ==> pushed(base, p) == base + p,
        !is_absolute(p) && base.len() > 0 && base.last() != '/' ==> pushed(base, p) == base
            + seq!['/'] + p,
        pushed(Seq::<char>::empty(), p) == p,
{
    assert(Seq::<char>::empty() + p =~= p);
}

} // verus!
