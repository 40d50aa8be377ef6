//! Character-level text operations used throughout the site.
use vstd::prelude::*;

verus! {

/// Appends one character to `s` (`String::push`, whose documentation says
/// that it appends the given `char` to the end of the `String`).
#[verifier::external_body]
pub(crate) fn push_char(s: &mut String, c: char)
    ensures
        final(s)@ == old(s)@.push(c),
{
    s.push(c);
}

/// The characters of `s`, in order.
pub fn chars_of(s: &str) -> (res: Vec<char>)
    ensures
        res@ == s@,
{
    let mut res: Vec<char> = Vec::new();
    for c in it: s.chars()
        invariant
            res@ == it.seq().take(it.index() as int),
    {
        res.push(c);
    }
    res
}

/// The string made of the characters `v[from..to]`, in order.
pub fn string_of_range(v: &Vec<char>, from: usize, to: usize) -> (res: String)
    requires
        from <= to <= v@.len(),
    ensures
        res@ == v@.subrange(from as int, to as int),
{
    let mut res = String::new();
    let mut i = from;
    while i < to
        invariant
            from <= i <= to <= v@.len(),
            res@ == v@.subrange(from as int, i as int),
        decreases to - i,
    {
        push_char(&mut res, v[i]);
        assert(v@.subrange(from as int, i + 1) =~= v@.subrange(from as int, i as int).push(v@[i as int]));
        i = i + 1;
    }
    res
}

/// The string made of the characters of `v`, in order.
pub fn string_of(v: &Vec<char>) -> (res: String)
    ensures
        res@ == v@,
{
    let res = string_of_range(v, 0, v.len());
    assert(v@.subrange(0, v@.len() as int) =~= v@);
    res
}

/// The characters of an optional string.
pub open spec fn opt_view(o: Option<String>) -> Option<Seq<char>> {
    match o {
        Some(s) => Some(s@),
        None => None,
    }
}

/// `s` followed by `t`.
pub fn concatenated(s: &str, t: &str) -> (res: String)
    ensures
        res@ == s@ + t@,
{
    let mut res = String::from_str(s);
    res.append(t);
    res
}

/// The result of replacing, from left to right, every non-overlapping
/// occurrence of `pat` in `s` by `rep`.
pub open spec fn replaced(s: Seq<char>, pat: Seq<char>, rep: Seq<char>) -> Seq<char>
    decreases s.len(),
{
    if s.len() == 0 {
        seq![]
    } else if 0 < pat.len() <= s.len() && s.take(pat.len() as int) == pat {
        rep + replaced(s.skip(pat.len() as int), pat, rep)
    } else {
        seq![s[0]] + replaced(s.skip(1), pat, rep)
    }
}

/// Whether `pat` occurs in `s` at position `i`.
pub open spec fn occurs_at(s: Seq<char>, pat: Seq<char>, i: int) -> bool {
    0 <= i && i + pat.len() <= s.len() && s.subrange(i, i + pat.len()) == pat
}

fn matches_at(s: &Vec<char>, pat: &Vec<char>, i: usize) -> (res: bool)
    requires
        i <= s.len(),
    ensures
        res == occurs_at(s@, pat@, i as int),
{
    if pat.len() > s.len() - i {
        return false;
    }
    let m = pat.len();
    let sl = s.len();
    let mut k: usize = 0;
    while k < m
        invariant
            m == pat@.len(),
            i + m <= sl,
            sl == s@.len(),
            k <= m,
            forall|j: int| 0 <= j < k ==> s@[i + j] == pat@[j],
        decreases m - k,
    {
        if s[i + k] != pat[k] {
            assert(s@.subrange(i as int, i + m)[k as int] != pat@[k as int]);
            return false;
        }
        k = k + 1;
    }
    assert(s@.subrange(i as int, i + m) =~= pat@);
    true
}

/// Replaces every non-overlapping occurrence of `pat` in `s` by `rep`,
/// scanning from left to right, as `str::replace` does.
pub fn replace_all(s: &str, pat: &str, rep: &str) -> (res: String)
    requires
        pat@.len() > 0,
    ensures
        res@ == replaced(s@, pat@, rep@),
{
    let cs = chars_of(s);
    let ps = chars_of(pat);
    let n = cs.len();
    let mut out: Vec<char> = Vec::new();
    let mut i: usize = 0;
    assert(cs@.skip(0) == cs@);
    while i < n
        invariant
            n == cs@.len(),
            i <= n,
            ps@.len() > 0,
            replaced(cs@, ps@, rep@) == out@ + replaced(cs@.skip(i as int), ps@, rep@),
        decreases n - i,
    {
        let ghost rest = cs@.skip(i as int);
        if matches_at(&cs, &ps, i) {
            assert(rest.take(ps@.len() as int) =~= cs@.subrange(i as int, i + ps@.len()));
            assert(rest.skip(ps@.len() as int) =~= cs@.skip(i + ps@.len()));
            let mut more = chars_of(rep);
            out.append(&mut more);
            i = i + ps.len();
        } else {
            assert(!(0 < ps@.len() <= rest.len() && rest.take(ps@.len() as int) == ps@)) by {
                if ps@.len() <= rest.len() {
                    assert(rest.take(ps@.len() as int) =~= cs@.subrange(i as int, i + ps@.len()));
                }
            }
            assert(rest.skip(1) =~= cs@.skip(i + 1));
            out.push(cs[i]);
            i = i + 1;
        }
    }
    string_of(&out)
}

/// The characters of `s` before its first newline (all of `s` if it has none).
pub open spec fn before_newline(s: Seq<char>) -> Seq<char>
    decreases s.len(),
{
    if s.len() == 0 {
        s
    } else if s[0] == '\n' {
        seq![]
    } else {
        seq![s[0]] + before_newline(s.skip(1))
    }
}

/// The first line of `s`, as the first item that `str::lines` yields: nothing
/// for an empty text; otherwise the text up to the first `\n`, without a `\r`
/// that stands right before that `\n`.
pub open spec fn first_line_of(s: Seq<char>) -> Option<Seq<char>> {
    if s.len() == 0 {
        None
    } else {
        let l = before_newline(s);
        if l.len() < s.len() && l.len() > 0 && l.last() == '\r' {
            Some(l.drop_last())
        } else {
            Some(l)
        }
    }
}

proof fn lemma_before_newline_at(s: Seq<char>, j: int)
    requires
        0 <= j <= s.len(),
        forall|k: int| 0 <= k < j ==> s[k] != '\n',
        j == s.len() || s[j] == '\n',
    ensures
        before_newline(s) == s.take(j),
    decreases s.len(),
{
    if s.len() == 0 {
        assert(s.take(j) =~= s);
    } else if s[0] == '\n' {
        assert(s.take(j) =~= seq![]);
    } else {
        lemma_before_newline_at(s.skip(1), j - 1);
        assert(s.take(j) =~= seq![s[0]] + s.skip(1).take(j - 1));
    }
}

/// A first line is a prefix of the text and holds no newline.
pub proof fn lemma_first_line_is_prefix(s: Seq<char>)
    requires
        s.len() > 0,
    ensures
        first_line_of(s) is Some,
        s.take(first_line_of(s).unwrap().len() as int) == first_line_of(s).unwrap(),
        !first_line_of(s).unwrap().contains('\n'),
{
    let j = newline_index(s);
    lemma_newline_index(s);
    lemma_before_newline_at(s, j);
    let l = first_line_of(s).unwrap();
    assert(l.len() <= j);
    assert(s.take(l.len() as int) =~= l);
    assert forall|k: int| 0 <= k < l.len() implies l[k] != '\n' by {
        assert(l[k] == s[k]);
    }
}

/// The position of the first newline of `s`, or its length if it has none.
spec fn newline_index(s: Seq<char>) -> int
    decreases s.len(),
{
    if s.len() == 0 {
        0
    } else if s[0] == '\n' {
        0
    } else {
        1 + newline_index(s.skip(1))
    }
}

proof fn lemma_newline_index(s: Seq<char>)
    ensures
        0 <= newline_index(s) <= s.len(),
        forall|k: int| 0 <= k < newline_index(s) ==> s[k] != '\n',
        newline_index(s) == s.len() || s[newline_index(s)] == '\n',
    decreases s.len(),
{
    if s.len() > 0 && s[0] != '\n' {
        lemma_newline_index(s.skip(1));
        assert forall|k: int| 0 <= k < newline_index(s) implies s[k] != '\n' by {
            if k > 0 {
                assert(s[k] == s.skip(1)[k - 1]);
            }
        }
    }
}

/// The first line of `s` (see `first_line_of`), or `None` for an empty text.
pub fn first_line(s: &str) -> (res: Option<String>)
    ensures
        match res {
            Some(l) => first_line_of(s@) == Some(l@),
            None => first_line_of(s@) is None,
        },
{
    let cs = chars_of(s);
    let n = cs.len();
    if n == 0 {
        return None;
    }
    let mut j: usize = 0;
    while j < n && cs[j] != '\n'
        invariant
            n == cs@.len(),
            j <= n,
            forall|k: int| 0 <= k < j ==> cs@[k] != '\n',
        decreases n - j,
    {
        j = j + 1;
    }
    proof {
        lemma_before_newline_at(cs@, j as int);
    }
    let mut end = j;
    if j < n && j > 0 && cs[j - 1] == '\r' {
        end = j - 1;
    }
    let line = string_of_range(&cs, 0, end);
    Some(line)
}

/// What `format!("{:?}", Path::new(p))` writes for the path `p`.
pub uninterp spec fn path_debug_text(p: Seq<char>) -> Seq<char>;

/// What `format!("{:?}", s)` writes for the string `s`.
pub uninterp spec fn str_debug_text(s: Seq<char>) -> Seq<char>;

/// An optional string as `Debug` writes an `Option<String>`: `None`, or
/// `Some(` and the string as `Debug` writes it, then `)`.
pub open spec fn option_debug_of(o: Option<Seq<char>>) -> Seq<char> {
    match o {
        None => "None"@,
        Some(s) => "Some("@ + str_debug_text(s) + ")"@,
    }
}

/// The path `p` as `Debug` writes a `std::path::Path` (in double quotes, with
/// special characters escaped). The escaping is the standard library's and is
/// not restated here: the result is only named, by `path_debug_text`.
#[verifier::external_body]
pub(crate) fn path_debug(p: &str) -> (res: String)
    ensures
        res@ == path_debug_text(p@),
{
    format!("{:?}", std::path::Path::new(p))
}

/// The optional string `o` as the derived `Debug` of `Option<String>`
/// writes it: `None`, or `Some(` and the string in its `Debug` form (in double
/// quotes, with special characters escaped), then `)`. The escaping is the
/// standard library's and is not restated here: it is only named, by
/// `str_debug_text`.
#[verifier::external_body]
pub(crate) fn option_debug(o: &Option<String>) -> (res: String)
    ensures
        match o {
            None => res@ == "None"@,
            Some(s) => res@ == "Some("@ + str_debug_text(s@) + ")"@,
        },
{
    format!("{:?}", o)
}

/// Replacing a pattern that does not occur leaves the text as it is.
pub proof fn lemma_replace_absent(s: Seq<char>, pat: Seq<char>, rep: Seq<char>)
    requires
        pat.len() > 0,
        forall|i: int| !occurs_at(s, pat, i),
    ensures
        replaced(s, pat, rep) == s,
    decreases s.len(),
{
    if s.len() > 0 {
        if pat.len() <= s.len() {
            assert(!occurs_at(s, pat, 0));
            assert(s.subrange(0, pat.len() as int) =~= s.take(pat.len() as int));
        }
        assert forall|i: int| !occurs_at(s.skip(1), pat, i) by {
            if occurs_at(s.skip(1), pat, i) {
                assert(s.skip(1).subrange(i, i + pat.len()) =~= s.subrange(i + 1, i + 1 + pat.len()));
                assert(occurs_at(s, pat, i + 1));
            }
        }
        lemma_replace_absent(s.skip(1), pat, rep);
        assert(seq![s[0]] + s.skip(1) =~= s);
    }
}

/// A text that starts with the pattern has it replaced first, and the rest
/// of the text replaced after it.
pub proof fn lemma_replace_leading(pat: Seq<char>, s: Seq<char>, rep: Seq<char>)
    requires
        pat.len() > 0,
    ensures
        replaced(pat + s, pat, rep) == rep + replaced(s, pat, rep),
{
    let t = pat + s;
    assert(t.take(pat.len() as int) =~= pat);
    assert(t.skip(pat.len() as int) =~= s);
}

/// The first line of a text is everything before its first newline, less a
/// `\r` right before that newline; a text without newline is its own first line.
pub proof fn lemma_first_line_split(l: Seq<char>, t: Seq<char>)
    requires
        !l.contains('\n'),
    ensures
        (l.len() == 0 || l.last() != '\r') ==> first_line_of(l + seq!['\n'] + t) == Some(l),
        (l.len() > 0 && l.last() == '\r') ==> first_line_of(l + seq!['\n'] + t) == Some(
            l.drop_last(),
        ),
        l.len() > 0 ==> first_line_of(l) == Some(l),
{
    let s = l + seq!['\n'] + t;
    assert forall|k: int| 0 <= k < l.len() implies s[k] != '\n' by {
        assert(s[k] == l[k]);
        if l[k] == '\n' {
            assert(l.contains('\n'));
        }
    }
    lemma_before_newline_at(s, l.len() as int);
    assert(s.take(l.len() as int) =~= l);
    assert forall|k: int| 0 <= k < l.len() implies l[k] != '\n' by {
        if l[k] == '\n' {
            assert(l.contains('\n'));
        }
    }
    lemma_before_newline_at(l, l.len() as int);
    assert(l.take(l.len() as int) =~= l);
}

/// Replacing in an empty text gives an empty text; a text whose first
/// character does not start an occurrence of the pattern keeps that character,
/// and the rest is replaced after it.
pub proof fn lemma_replace_step(s: Seq<char>, pat: Seq<char>, rep: Seq<char>)
    requires
        pat.len() > 0,
    ensures
        replaced(Seq::<char>::empty(), pat, rep) == Seq::<char>::empty(),
        s.len() > 0 && !occurs_at(s, pat, 0) ==> replaced(s, pat, rep) == seq![s[0]] + replaced(
            s.skip(1),
            pat,
            rep,
        ),
{
    if s.len() > 0 && !occurs_at(s, pat, 0) && pat.len() <= s.len() {
        assert(s.take(pat.len() as int) =~= s.subrange(0, pat.len() as int));
    }
}

} // verus!
