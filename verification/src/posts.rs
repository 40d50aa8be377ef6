//! Blog posts: where their files are, how a post is read from its Markdown
//! text, and how a request for a post is answered.
use vstd::prelude::*;
use crate::paths::{file_name_of, lemma_last_index_of_is, name_span, pushed};
use crate::site::FileEntry;
use crate::site::{prefixed, with_prefix};
use crate::text::{
    concatenated, first_line, first_line_of, lemma_first_line_split, lemma_replace_absent,
    lemma_replace_leading, occurs_at, replace_all, replaced,
};

verus! {

/// Why a post could not be shown.
#[derive(Clone, Debug, PartialEq, Eq)]
pub enum PostError {
    InvalidId,
    PostNotFound,
    ServerError(String),
}

impl PostError {
    /// The message that describes this error.
    pub open spec fn message_text(&self) -> Seq<char> {
        match self {
            PostError::InvalidId => "Invalid post ID."@,
            PostError::PostNotFound => "Post not found."@,
            PostError::ServerError(s) => "Server error: "@ + s@ + "."@,
        }
    }

    /// The message that describes this error.
    pub fn message(&self) -> (res: String)
        ensures
            res@ == self.message_text(),
    {
        match self {
            PostError::InvalidId => String::from_str("Invalid post ID."),
            PostError::PostNotFound => String::from_str("Post not found."),
            PostError::ServerError(s) => {
                let mut res = concatenated("Server error: ", s.as_str());
                res.append(".");
                res
            },
        }
    }
}

/// A post: its title and its Markdown text.
#[derive(Clone, Debug, PartialEq, Eq)]
pub struct Post {
    pub title: String,
    pub content: String,
}

/// The title of a post read from its Markdown text: its first line, with
/// every `# ` taken out.
pub open spec fn markdown_title(content: Seq<char>) -> Seq<char> {
    replaced(first_line_of(content).unwrap(), "# "@, seq![])
}

/// The file-system path of the file of post `slug` under the site prefix:
/// `posts/<slug>.md` pushed onto the prefix.
pub fn post_path(prefix: &str, slug: &str) -> (res: String)
    ensures
        res@ == pushed(prefix@, "posts/"@ + slug@ + ".md"@),
{
    let mut rel = concatenated("posts/", slug);
    rel.append(".md");
    with_prefix(prefix, rel.as_str())
}

/// The path, relative to the working directory, of the source of post `slug`:
/// `./posts/<slug>.md`.
pub fn post_source(slug: &str) -> (res: String)
    ensures
        res@ == "./posts/"@ + slug@ + ".md"@,
{
    let mut res = concatenated("./posts/", slug);
    res.append(".md");
    res
}

/// The URL of the page of post `slug` under the site prefix.
pub fn post_address(prefix: &str, slug: &str) -> (res: String)
    ensures
        res@ == prefix@ + seq!['/'] + "post/"@ + slug@,
{
    let rel = concatenated("post/", slug);
    prefixed(prefix, rel.as_str())
}

/// The post whose file holds `content`, titled by its slug.
pub fn read_post(slug: &str, content: String) -> (res: Post)
    ensures
        res.title@ == slug@,
        res.content == content,
{
    Post { title: String::from_str(slug), content }
}

/// The post whose file holds the Markdown text `content`, titled by its first
/// line (see `markdown_title`). The text must not be empty: an empty file has
/// no first line to take the title from.
pub fn post_from_markdown(content: String) -> (res: Post)
    requires
        content@.len() > 0,
    ensures
        res.title@ == markdown_title(content@),
        res.title@ == replaced(first_line_of(content@).unwrap(), "# "@, seq![]),
        res.content == content,
{
    let line = first_line(content.as_str());
    let line = line.unwrap();
    proof {
        reveal_strlit("# ");
        reveal_strlit("");
    }
    assert(""@ =~= seq![]);
    let title = replace_all(line.as_str(), "# ", "");
    Post { title, content }
}

/// The slug a post page was asked for: the `slug` parameter, empty when the
/// route gave none; `InvalidId` when the parameters could not be read.
pub fn requested_slug(params: Result<Option<String>, ()>) -> (res: Result<String, PostError>)
    ensures
        match params {
            Ok(Some(s)) => res == Ok::<String, PostError>(s),
            Ok(None) => res matches Ok(s) && s@.len() == 0,
            Err(_) => res == Err::<String, PostError>(PostError::InvalidId),
        },
{
    match params {
        Ok(Some(s)) => Ok(s),
        Ok(None) => Ok(String::new()),
        Err(_) => Err(PostError::InvalidId),
    }
}

/// What the lookup of a post gives: the post; `PostNotFound` when there is
/// none; and, when the server failed with message `msg`, `ServerError(msg)`.
pub fn fetched_post(fetched: Result<Option<Post>, String>) -> (res: Result<Result<Post, PostError>, PostError>)
    ensures
        match fetched {
            Ok(Some(p)) => res == Ok::<Result<Post, PostError>, PostError>(Ok(p)),
            Ok(None) => res == Ok::<Result<Post, PostError>, PostError>(Err(PostError::PostNotFound)),
            Err(msg) => res == Err::<Result<Post, PostError>, PostError>(PostError::ServerError(msg)),
        },
{
    match fetched {
        Ok(Some(p)) => Ok(Ok(p)),
        Ok(None) => Ok(Err(PostError::PostNotFound)),
        Err(msg) => Err(PostError::ServerError(msg)),
    }
}

/// What the post page shows: the post, or an error; every error, of either
/// layer, is shown as a server error whose message is that of the error.
pub fn post_view_outcome(r: Result<Result<Post, PostError>, PostError>) -> (res: Result<Post, PostError>)
    ensures
        match r {
            Ok(Ok(p)) => res == Ok::<Post, PostError>(p),
            Ok(Err(e)) | Err(e) => res matches Err(PostError::ServerError(m)) && m@ == e.message_text(),
        },
{
    match r {
        Ok(Ok(p)) => Ok(p),
        Ok(Err(e)) | Err(e) => Err(PostError::ServerError(e.message())),
    }
}

/// A listed post as plain text: its slug, its title and its content.
pub open spec fn listed_view(e: (String, Post)) -> (Seq<char>, Seq<char>, Seq<char>) {
    (e.0@, e.1.title@, e.1.content@)
}

/// The listed posts as plain text, in order.
pub open spec fn listed_views(v: Seq<(String, Post)>) -> Seq<(Seq<char>, Seq<char>, Seq<char>)> {
    v.map_values(|e: (String, Post)| listed_view(e))
}

/// The listing of posts for slugs paired with what reading each file gave, in
/// order: the first failed read ends it with that read's error; otherwise each
/// post is titled by its first line.
pub open spec fn posts_from(c: Seq<(String, Result<String, String>)>) -> Result<
    Seq<(Seq<char>, Seq<char>, Seq<char>)>,
    Seq<char>,
>
    decreases c.len(),
{
    if c.len() == 0 {
        Ok(seq![])
    } else {
        match c[0].1 {
            Err(e) => Err(e@),
            Ok(content) => match posts_from(c.skip(1)) {
                Err(e) => Err(e),
                Ok(rest) => Ok(seq![(c[0].0@, markdown_title(content@), content@)] + rest),
            },
        }
    }
}

/// Every file read before the first failed read is not empty.
pub open spec fn read_before_failure_nonempty(c: Seq<(String, Result<String, String>)>) -> bool
    decreases c.len(),
{
    c.len() == 0 || match c[0].1 {
        Err(_) => true,
        Ok(content) => content@.len() > 0 && read_before_failure_nonempty(c.skip(1)),
    }
}

/// The listing of posts from slugs paired with what reading each post file
/// gave (see `posts_from`). An empty file read before any failure has no
/// first line to take a title from, so that input is left out.
pub fn collect_posts(candidates: &Vec<(String, Result<String, String>)>) -> (res: Result<
    Vec<(String, Post)>,
    String,
>)
    requires
        read_before_failure_nonempty(candidates@),
    ensures
        match res {
            Ok(v) => posts_from(candidates@) == Ok::<_, Seq<char>>(listed_views(v@)),
            Err(e) => posts_from(candidates@) == Err::<Seq<(Seq<char>, Seq<char>, Seq<char>)>, _>(
                e@,
            ),
        },
{
    let mut out: Vec<(String, Post)> = Vec::new();
    let n = candidates.len();
    assert(candidates@.skip(0) =~= candidates@);
    for i in 0..n
        invariant
            n == candidates@.len(),
            read_before_failure_nonempty(candidates@.skip(i as int)),
            posts_from(candidates@) == match posts_from(candidates@.skip(i as int)) {
                Err(e) => Err(e),
                Ok(rest) => Ok(listed_views(out@) + rest),
            },
    {
        let ghost rest = candidates@.skip(i as int);
        assert(rest.skip(1) =~= candidates@.skip(i + 1));
        match &candidates[i].1 {
            Err(e) => {
                return Err(e.clone());
            },
            Ok(content) => {
                let post = post_from_markdown(content.clone());
                let slug = candidates[i].0.clone();
                let ghost before = listed_views(out@);
                out.push((slug, post));
                assert(listed_views(out@) =~= before.push(listed_view(out@.last())));
                proof {
                    match posts_from(candidates@.skip(i + 1)) {
                        Err(_) => {},
                        Ok(r) => {
                            assert(listed_views(out@) + r =~= before + (seq![
                                listed_view(out@.last()),
                            ] + r));
                        },
                    }
                }
            },
        }
    }
    assert(candidates@.skip(n as int) =~= seq![]);
    assert(listed_views(out@) + seq![] =~= listed_views(out@));
    Ok(out)
}

/// The listing of posts as the client side builds it: for each slug whose file
/// could be read, the post titled by its slug; the others are left out.
pub open spec fn client_posts_from(c: Seq<(String, Option<String>)>) -> Seq<
    (Seq<char>, Seq<char>, Seq<char>),
>
    decreases c.len(),
{
    if c.len() == 0 {
        seq![]
    } else {
        let rest = client_posts_from(c.drop_last());
        match c.last().1 {
            Some(content) => rest.push((c.last().0@, c.last().0@, content@)),
            None => rest,
        }
    }
}

/// The listing of posts from slugs paired with the text of each post file,
/// where it could be read (see `client_posts_from`).
pub fn collect_client_posts(candidates: &Vec<(String, Option<String>)>) -> (res: Vec<(String, Post)>)
    ensures
        listed_views(res@) == client_posts_from(candidates@),
{
    let mut out: Vec<(String, Post)> = Vec::new();
    let n = candidates.len();
    for i in 0..n
        invariant
            n == candidates@.len(),
            listed_views(out@) == client_posts_from(candidates@.take(i as int)),
    {
        assert(candidates@.take(i + 1).drop_last() =~= candidates@.take(i as int));
        if let Some(content) = &candidates[i].1 {
            let slug = candidates[i].0.clone();
            let post = read_post(slug.as_str(), content.clone());
            let ghost before = listed_views(out@);
            out.push((slug, post));
            assert(listed_views(out@) =~= before.push(listed_view(out@.last())));
        }
    }
    assert(candidates@.take(n as int) =~= candidates@);
    out
}

/// Entry `i` of the listing `v` is the post that `post_from_markdown` makes of
/// the text read for slug `i`, under that slug.
pub open spec fn listed_as_read(
    c: Seq<(String, Result<String, String>)>,
    v: Seq<(Seq<char>, Seq<char>, Seq<char>)>,
    i: int,
) -> bool {
    match c[i].1 {
        Ok(content) => v[i] == (c[i].0@, markdown_title(content@), content@),
        Err(_) => false,
    }
}

/// A listing of posts that succeeds holds, for each slug read, in order, the
/// post that `post_from_markdown` makes of that file's text, under that slug.
pub proof fn lemma_posts_listing(c: Seq<(String, Result<String, String>)>)
    ensures
        posts_from(c) matches Ok(v) ==> v.len() == c.len() && forall|i: int|
            0 <= i < c.len() ==> #[trigger] listed_as_read(c, v, i),
    decreases c.len(),
{
    if c.len() > 0 {
        lemma_posts_listing(c.skip(1));
        if let Ok(v) = posts_from(c) {
            let content = c[0].1->Ok_0;
            assert(posts_from(c.skip(1)) is Ok);
            let rest = posts_from(c.skip(1))->Ok_0;
            assert(v == seq![(c[0].0@, markdown_title(content@), content@)] + rest);
            assert forall|i: int| 0 <= i < c.len() implies #[trigger] listed_as_read(c, v, i) by {
                if i > 0 {
                    assert(c[i] == c.skip(1)[i - 1]);
                    assert(v[i] == rest[i - 1]);
                    assert(listed_as_read(c.skip(1), rest, i - 1));
                }
            }
        }
    }
}

/// Removing `.md` from a text without `.md`, followed by `.md`, gives back the text.
pub proof fn lemma_strip_md_suffix(s: Seq<char>)
    requires
        forall|i: int| !occurs_at(s, ".md"@, i),
    ensures
        replaced(s + ".md"@, ".md"@, seq![]) == s,
    decreases s.len(),
{
    reveal_strlit(".md");
    let pat = ".md"@;
    assert(pat =~= seq!['.', 'm', 'd']);
    let t = s + pat;
    if s.len() == 0 {
        assert(t.take(3) =~= pat);
        assert(t.skip(3) =~= seq![]);
        assert(replaced(t, pat, seq![]) == Seq::<char>::empty() + replaced(t.skip(3), pat, seq![]));
        assert(Seq::<char>::empty() + Seq::<char>::empty() =~= Seq::<char>::empty());
    } else {
        assert(!(t.take(3) == pat)) by {
            if s.len() >= 3 {
                assert(!occurs_at(s, pat, 0));
                assert(t.take(3) =~= s.subrange(0, 3));
            } else {
                assert(t.take(3)[2] != pat[2]);
            }
        }
        assert forall|i: int| !occurs_at(s.skip(1), pat, i) by {
            if occurs_at(s.skip(1), pat, i) {
                assert(s.skip(1).subrange(i, i + 3) =~= s.subrange(i + 1, i + 4));
                assert(occurs_at(s, pat, i + 1));
            }
        }
        lemma_strip_md_suffix(s.skip(1));
        assert(t.skip(1) =~= s.skip(1) + pat);
        assert(t[0] == s[0]);
        assert(replaced(t, pat, seq![]) == seq![t[0]] + replaced(t.skip(1), pat, seq![]));
        assert(seq![s[0]] + s.skip(1) =~= s);
    }
}

/// A post file `s.md` (for a slug `s` that is not empty and holds neither
/// `/` nor `.md`) is listed under the slug `s`; looking up that slug, without
/// a site prefix, reads `posts/s.md`; and the post listed for a text is the
/// one that `post_from_markdown` makes of it, as the lookup does: the title
/// of its first line and the text itself.
pub proof fn lemma_listed_post_matches_lookup(
    e: FileEntry,
    s: Seq<char>,
    c: Seq<(String, Result<String, String>)>,
    i: int,
)
    requires
        e.is_file,
        e.name_is_utf8,
        e.extension_is_utf8,
        e.name@ == s + ".md"@,
        s.len() > 0,
        !s.contains('/'),
        forall|k: int| !occurs_at(s, ".md"@, k),
        0 <= i < c.len(),
        c[i].0@ == s,
        posts_from(c) is Ok,
    ensures
        e.slug_for("md"@, ".md"@) == Some(s),
        pushed(seq![], "posts/"@ + s + ".md"@) == "posts/"@ + s + ".md"@,
        listed_as_read(c, posts_from(c)->Ok_0, i),
{
    reveal_strlit(".md");
    reveal_strlit("md");
    reveal_strlit("posts/");
    let name = e.name@;
    let n = s.len() as int;
    assert(".md"@ =~= seq!['.', 'm', 'd']);
    assert(name.len() == n + 3);
    assert forall|k: int| -1 < k < name.len() implies name[k] != '/' by {
        if k < n {
            assert(name[k] == s[k]);
        }
    }
    lemma_last_index_of_is(name, '/', -1);
    assert(name.subrange(0, name.len() as int) =~= name);
    assert(name != seq!['.']);
    assert(name != seq!['.', '.']);
    assert(name_span(name) == Some((0int, name.len() as int)));
    assert(file_name_of(name) == Some(name));
    assert(name[n] == '.');
    lemma_last_index_of_is(name, '.', n);
    assert(name.skip(n + 1) =~= "md"@);
    lemma_strip_md_suffix(s);
    lemma_posts_listing(c);
    let p = "posts/"@ + s + ".md"@;
    assert(p[0] == 'p');
    assert(Seq::<char>::empty() + p =~= p);
}

/// The title of a post is its first line with every `# ` taken out.
pub proof fn lemma_markdown_title_is_first_line(content: Seq<char>)
    ensures
        markdown_title(content) == replaced(first_line_of(content).unwrap(), "# "@, seq![]),
{
}

/// A post that starts with the heading line `# <h>` (where `h` holds no
/// newline and no `# `, and does not end in `\r`) is titled `h`, whatever its
/// length and whatever follows the heading line.
pub proof fn lemma_heading_title(h: Seq<char>, body: Seq<char>)
    requires
        !h.contains('\n'),
        h.len() == 0 || h.last() != '\r',
        forall|i: int| !occurs_at(h, "# "@, i),
    ensures
        markdown_title("# "@ + h + seq!['\n'] + body) == h,
{
    reveal_strlit("# ");
    let pat = "# "@;
    assert(pat =~= seq!['#', ' ']);
    let l = pat + h;
    assert(!l.contains('\n')) by {
        if l.contains('\n') {
            let k = choose|k: int| 0 <= k < l.len() && l[k] == '\n';
            if k >= 2 {
                assert(h[k - 2] == '\n');
                assert(h.contains('\n'));
            }
        }
    }
    assert(l.last() != '\r') by {
        if h.len() > 0 {
            assert(l.last() == h.last());
        }
    }
    lemma_first_line_split(l, body);
    assert(pat + h + seq!['\n'] + body =~= l + seq!['\n'] + body);
    lemma_replace_leading(pat, h, seq![]);
    lemma_replace_absent(h, pat, seq![]);
    assert(Seq::<char>::empty() + h =~= h);
}

/// A post whose first line holds no `# ` is titled by that whole line.
pub proof fn lemma_plain_title(content: Seq<char>)
    requires
        content.len() > 0,
        forall|i: int| !occurs_at(first_line_of(content).unwrap(), "# "@, i),
    ensures
        markdown_title(content) == first_line_of(content).unwrap(),
{
    reveal_strlit("# ");
    lemma_replace_absent(first_line_of(content).unwrap(), "# "@, seq![]);
}

/// When every post file could be read, the listing succeeds, with one post per
/// file.
pub proof fn lemma_posts_all_read(c: Seq<(String, Result<String, String>)>)
    requires
        forall|i: int| 0 <= i < c.len() ==> (#[trigger] c[i]).1 is Ok,
    ensures
        posts_from(c) is Ok,
        posts_from(c)->Ok_0.len() == c.len(),
    decreases c.len(),
{
    if c.len() > 0 {
        assert(c[0].1 is Ok);
        assert forall|i: int| 0 <= i < c.skip(1).len() implies (#[trigger] c.skip(1)[i]).1 is Ok by {
            assert(c.skip(1)[i] == c[i + 1]);
        }
        lemma_posts_all_read(c.skip(1));
    }
}

/// The listing fails exactly with the error of the first file that could not
/// be read.
pub proof fn lemma_posts_first_failure(c: Seq<(String, Result<String, String>)>, i: int)
    requires
        0 <= i < c.len(),
        c[i].1 is Err,
        forall|j: int| 0 <= j < i ==> (#[trigger] c[j]).1 is Ok,
    ensures
        posts_from(c) == Err::<Seq<(Seq<char>, Seq<char>, Seq<char>)>, Seq<char>>(
            c[i].1->Err_0@,
        ),
    decreases i,
{
    if i > 0 {
        assert(c[0].1 is Ok);
        assert(c.skip(1)[i - 1] == c[i]);
        assert forall|j: int| 0 <= j < i - 1 implies (#[trigger] c.skip(1)[j]).1 is Ok by {
            assert(c.skip(1)[j] == c[j + 1]);
        }
        lemma_posts_first_failure(c.skip(1), i - 1);
    }
}

/// The client-side listing of two runs of post files, one after the other, is
/// the listing of the first run followed by that of the second.
pub proof fn lemma_client_posts_append(
    a: Seq<(String, Option<String>)>,
    b: Seq<(String, Option<String>)>,
)
    ensures
        client_posts_from(a + b) == client_posts_from(a) + client_posts_from(b),
    decreases b.len(),
{
    if b.len() == 0 {
        assert(a + b =~= a);
        assert(client_posts_from(a) + client_posts_from(b) =~= client_posts_from(a));
    } else {
        lemma_client_posts_append(a, b.drop_last());
        assert((a + b).drop_last() =~= a + b.drop_last());
        assert((a + b).last() == b.last());
        let x = client_posts_from(a);
        let y = client_posts_from(b.drop_last());
        match b.last().1 {
            Some(content) => {
                assert(x + y.push((b.last().0@, b.last().0@, content@)) =~= (x + y).push(
                    (b.last().0@, b.last().0@, content@),
                ));
            },
            None => {},
        }
    }
}

/// The client-side listing of one file: the post titled by its slug when the
/// file could be read, nothing otherwise.
pub proof fn lemma_client_posts_one(e: (String, Option<String>))
    ensures
        client_posts_from(seq![e]) == match e.1 {
            Some(content) => seq![(e.0@, e.0@, content@)],
            None => Seq::<(Seq<char>, Seq<char>, Seq<char>)>::empty(),
        },
{
    reveal_with_fuel(client_posts_from, 2);
    assert(seq![e].drop_last() =~= Seq::<(String, Option<String>)>::empty());
    assert(seq![e].last() == e);
    if let Some(content) = e.1 {
        assert(Seq::<(Seq<char>, Seq<char>, Seq<char>)>::empty().push((e.0@, e.0@, content@))
            =~= seq![(e.0@, e.0@, content@)]);
    }
}

/// A listing whose every read file is not empty meets the requirement of
/// `collect_posts`.
pub proof fn lemma_nonempty_reads_suffice(c: Seq<(String, Result<String, String>)>)
    requires
        forall|i: int|
            0 <= i < c.len() ==> ((#[trigger] c[i]).1 matches Ok(x) ==> x@.len() > 0),
    ensures
        read_before_failure_nonempty(c),
    decreases c.len(),
{
    if c.len() > 0 {
        assert(c[0] == c[0]);
        assert forall|i: int| 0 <= i < c.skip(1).len() implies ((#[trigger] c.skip(1)[i]).1 matches Ok(
            x,
        ) ==> x@.len() > 0) by {
            assert(c.skip(1)[i] == c[i + 1]);
        }
        lemma_nonempty_reads_suffice(c.skip(1));
    }
}

} // verus!
