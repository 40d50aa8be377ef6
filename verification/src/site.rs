//! Where the site finds its files and pages: the URL prefix it is served
//! under, and the slugs it derives from the entries of a directory.
use vstd::prelude::*;
use crate::paths::{extension_of, file_name_of, file_stem_of, joined, pushed, extension, file_name, file_stem};
use crate::text::{concatenated, opt_view, replace_all, replaced};

verus! {

/// The URL prefix for the value of the `PREFIX` environment variable: `/`
/// and the value when it is set, nothing otherwise.
pub open spec fn prefix_text(env_value: Option<Seq<char>>) -> Seq<char> {
    match env_value {
        Some(p) => seq!['/'] + p,
        None => seq![],
    }
}

/// The prefix that every site path starts with, given the value of the
/// `PREFIX` environment variable (`None` when it is unset or not Unicode).
pub fn prefix(env_value: Option<String>) -> (res: String)
    ensures
        res@ == prefix_text(opt_view(env_value)),
{
    match env_value {
        Some(p) => {
            proof {
                reveal_strlit("/");
            }
            concatenated("/", p.as_str())
        },
        None => String::new(),
    }
}

/// The file-system path `path` under the site prefix: the prefix as a path,
/// with `path` pushed onto it.
pub fn with_prefix(prefix: &str, path: &str) -> (res: String)
    ensures
        res@ == pushed(prefix@, path@),
{
    joined(prefix, path)
}

/// The URL `path` under the site prefix: the prefix, `/`, then `path`.
pub fn prefixed(prefix: &str, path: &str) -> (res: String)
    ensures
        res@ == prefix@ + seq!['/'] + path@,
{
    proof {
        reveal_strlit("/");
    }
    let mut res = concatenated(prefix, "/");
    res.append(path);
    res
}

/// An entry of a directory, as far as the site looks at it: its file name
/// (with any bytes that are not UTF-8 replaced by U+FFFD), whether the raw
/// bytes of that name, of its file stem and of its extension are valid UTF-8,
/// and whether the entry is a file.
///
/// The replacement keeps every `.` where it stands, so the stem and extension
/// of `name` hold the raw stem and extension wherever those are valid UTF-8.
pub struct FileEntry {
    pub name: String,
    pub name_is_utf8: bool,
    pub stem_is_utf8: bool,
    pub extension_is_utf8: bool,
    pub is_file: bool,
}

impl FileEntry {
    /// The slug of this entry when it is a file whose extension is `ext`
    /// (its raw bytes being exactly those of `ext`): its file name with every
    /// `pat` removed (empty when the name is not UTF-8).
    pub open spec fn slug_for(&self, ext: Seq<char>, pat: Seq<char>) -> Option<Seq<char>> {
        if self.is_file && self.extension_is_utf8 && extension_of(self.name@) == Some(ext) {
            if self.name_is_utf8 {
                Some(replaced(file_name_of(self.name@).unwrap(), pat, seq![]))
            } else {
                Some(seq![])
            }
        } else {
            None
        }
    }

    /// The slug of this entry for a route that lists the files of a
    /// directory: the file stem of a file whose stem is valid UTF-8.
    pub open spec fn route_slug(&self) -> Option<Seq<char>> {
        if self.is_file && self.stem_is_utf8 {
            file_stem_of(self.name@)
        } else {
            None
        }
    }
}

/// The slug of `entry` when it is a file with extension `ext` (see
/// `FileEntry::slug_for`).
pub fn entry_slug(entry: &FileEntry, ext: &str, pat: &str) -> (res: Option<String>)
    requires
        pat@.len() > 0,
    ensures
        opt_view(res) == entry.slug_for(ext@, pat@),
{
    if !entry.is_file || !entry.extension_is_utf8 {
        return None;
    }
    match extension(entry.name.as_str()) {
        Some(e) => {
            let wanted = String::from_str(ext);
            if !(e == wanted) {
                return None;
            }
            assert(extension_of(entry.name@) == Some(ext@));
            if !entry.name_is_utf8 {
                let empty = String::new();
                assert(empty@ =~= seq![]);
                return Some(empty);
            }
            match file_name(entry.name.as_str()) {
                Some(n) => {
                    proof {
                        reveal_strlit("");
                    }
                    assert(""@ =~= seq![]);
                    Some(replace_all(n.as_str(), pat, ""))
                },
                None => None,
            }
        },
        None => None,
    }
}

/// The slugs of a sequence of entries, in order, for extension `ext` and
/// removed text `pat`.
pub open spec fn slugs_of(entries: Seq<FileEntry>, ext: Seq<char>, pat: Seq<char>) -> Seq<Seq<char>>
    decreases entries.len(),
{
    if entries.len() == 0 {
        seq![]
    } else {
        let rest = slugs_of(entries.drop_last(), ext, pat);
        match entries.last().slug_for(ext, pat) {
            Some(s) => rest.push(s),
            None => rest,
        }
    }
}

/// The characters of each string.
pub open spec fn views(v: Seq<String>) -> Seq<Seq<char>> {
    v.map_values(|s: String| s@)
}

/// The slugs of the files among `entries` whose extension is `extension`: the
/// file name of each, without any `.` and `extension`.
pub fn list_slugs(entries: &Vec<FileEntry>, extension: &str) -> (res: Vec<String>)
    ensures
        views(res@) == slugs_of(entries@, extension@, seq!['.'] + extension@),
{
    proof {
        reveal_strlit(".");
    }
    let pat = concatenated(".", extension);
    let mut res: Vec<String> = Vec::new();
    let n = entries.len();
    for i in 0..n
        invariant
            n == entries@.len(),
            pat@ == seq!['.'] + extension@,
            views(res@) == slugs_of(entries@.take(i as int), extension@, pat@),
    {
        assert(entries@.take(i + 1).drop_last() =~= entries@.take(i as int));
        if let Some(s) = entry_slug(&entries[i], extension, pat.as_str()) {
            res.push(s);
            assert(views(res@) =~= views(res@.drop_last()).push(res@.last()@));
        }
    }
    assert(entries@.take(n as int) =~= entries@);
    res
}

/// The slug of `entry` for a route that lists a directory (see
/// `FileEntry::route_slug`).
pub fn route_slug(entry: &FileEntry) -> (res: Option<String>)
    ensures
        opt_view(res) == entry.route_slug(),
{
    if entry.is_file && entry.stem_is_utf8 {
        file_stem(entry.name.as_str())
    } else {
        None
    }
}

/// The route slugs of a sequence of entries, in order.
pub open spec fn route_slugs_of(entries: Seq<FileEntry>) -> Seq<Seq<char>>
    decreases entries.len(),
{
    if entries.len() == 0 {
        seq![]
    } else {
        let rest = route_slugs_of(entries.drop_last());
        match entries.last().route_slug() {
            Some(s) => rest.push(s),
            None => rest,
        }
    }
}

/// The slugs that a parameter route offers for a directory by default: the
/// file stem of each file, in order.
pub fn route_slugs(entries: &Vec<FileEntry>) -> (res: Vec<String>)
    ensures
        views(res@) == route_slugs_of(entries@),
{
    let mut res: Vec<String> = Vec::new();
    let n = entries.len();
    for i in 0..n
        invariant
            n == entries@.len(),
            views(res@) == route_slugs_of(entries@.take(i as int)),
    {
        assert(entries@.take(i + 1).drop_last() =~= entries@.take(i as int));
        if let Some(s) = route_slug(&entries[i]) {
            res.push(s);
            assert(views(res@) =~= views(res@.drop_last()).push(res@.last()@));
        }
    }
    assert(entries@.take(n as int) =~= entries@);
    res
}

/// Listing two runs of entries, one after the other, gives the listing of the
/// first run followed by that of the second: whether an entry is listed
/// depends on that entry alone.
pub proof fn lemma_slugs_append(a: Seq<FileEntry>, b: Seq<FileEntry>, ext: Seq<char>, pat: Seq<char>)
    ensures
        slugs_of(a + b, ext, pat) == slugs_of(a, ext, pat) + slugs_of(b, ext, pat),
    decreases b.len(),
{
    if b.len() == 0 {
        assert(a + b =~= a);
        assert(slugs_of(a, ext, pat) + slugs_of(b, ext, pat) =~= slugs_of(a, ext, pat));
    } else {
        lemma_slugs_append(a, b.drop_last(), ext, pat);
        assert((a + b).drop_last() =~= a + b.drop_last());
        assert((a + b).last() == b.last());
        let x = slugs_of(a, ext, pat);
        let y = slugs_of(b.drop_last(), ext, pat);
        if let Some(t) = b.last().slug_for(ext, pat) {
            assert(x + y.push(t) =~= (x + y).push(t));
        }
    }
}

/// The listing of a single entry is its slug when it is a file with the asked
/// extension, and nothing otherwise.
pub proof fn lemma_slugs_one(e: FileEntry, ext: Seq<char>, pat: Seq<char>)
    ensures
        slugs_of(seq![e], ext, pat) == match e.slug_for(ext, pat) {
            Some(t) => seq![t],
            None => Seq::<Seq<char>>::empty(),
        },
{
    reveal_with_fuel(slugs_of, 2);
    assert(seq![e].drop_last() =~= Seq::<FileEntry>::empty());
    assert(seq![e].last() == e);
    if let Some(t) = e.slug_for(ext, pat) {
        assert(Seq::<Seq<char>>::empty().push(t) =~= seq![t]);
    }
}

/// The route slugs of two runs of entries, one after the other, are those of
/// the first run followed by those of the second: every file with a UTF-8
/// stem gets a route, however many there are.
pub proof fn lemma_route_slugs_append(a: Seq<FileEntry>, b: Seq<FileEntry>)
    ensures
        route_slugs_of(a + b) == route_slugs_of(a) + route_slugs_of(b),
    decreases b.len(),
{
    if b.len() == 0 {
        assert(a + b =~= a);
        assert(route_slugs_of(a) + route_slugs_of(b) =~= route_slugs_of(a));
    } else {
        lemma_route_slugs_append(a, b.drop_last());
        assert((a + b).drop_last() =~= a + b.drop_last());
        assert((a + b).last() == b.last());
        let x = route_slugs_of(a);
        let y = route_slugs_of(b.drop_last());
        if let Some(t) = b.last().route_slug() {
            assert(x + y.push(t) =~= (x + y).push(t));
        }
    }
}

/// The route slugs of a single entry: its file stem when it is a file whose
/// stem is valid UTF-8, nothing otherwise.
pub proof fn lemma_route_slugs_one(e: FileEntry)
    ensures
        route_slugs_of(seq![e]) == match e.route_slug() {
            Some(t) => seq![t],
            None => Seq::<Seq<char>>::empty(),
        },
{
    reveal_with_fuel(route_slugs_of, 2);
    assert(seq![e].drop_last() =~= Seq::<FileEntry>::empty());
    assert(seq![e].last() == e);
    if let Some(t) = e.route_slug() {
        assert(Seq::<Seq<char>>::empty().push(t) =~= seq![t]);
    }
}

/// There are as many route slugs as entries that are files with a UTF-8 stem
/// and a file stem.
pub proof fn lemma_route_slugs_count(entries: Seq<FileEntry>)
    ensures
        route_slugs_of(entries).len() == entries.filter(|e: FileEntry| e.route_slug() is Some).len(),
    decreases entries.len(),
{
    reveal_with_fuel(Seq::<FileEntry>::filter, 1);
    if entries.len() > 0 {
        lemma_route_slugs_count(entries.drop_last());
    }
}

/// The site prefix is `/` and the `PREFIX` value when that is set, and empty
/// otherwise.
pub proof fn lemma_prefix_text(p: Seq<char>)
    ensures
        prefix_text(Some(p)) == seq!['/'] + p,
        prefix_text(Some(p)).len() == p.len() + 1,
        prefix_text(None) == Seq::<char>::empty(),
{
}

} // verus!
