//! Static HTML pages, served by slug from the `./static/` directory.
use vstd::prelude::*;
use crate::paths::{
    extension, extension_of, file_name_of, file_stem_of, joined, lemma_set_extension_sets, pushed,
    set_extension, with_extension,
};
use crate::text::{concatenated, path_debug, path_debug_text};

verus! {

/// What the page for a slug does.
pub enum PageRequest {
    /// Send the visitor to this slug (the asked one without its `.html`).
    Redirect(String),
    /// The slug names a file of another kind: say that it is not known.
    Unknown,
    /// Show the contents of the file at `path`; `file` is the requested file.
    Read { path: String, file: String },
}

/// What the page for `slug` does: a slug with extension `html` redirects to
/// itself without that extension; one with any other extension is unknown;
/// one without extension shows the file `./static/<slug>.html`.
pub fn read_file_request(slug: &str) -> (res: PageRequest)
    ensures
        match extension_of(slug@) {
            Some(e) => if e == "html"@ {
                res matches PageRequest::Redirect(r) && r@ == with_extension(slug@, seq![])
            } else {
                res is Unknown
            },
            None => res matches PageRequest::Read { path, file } && file@ == with_extension(
                slug@,
                "html"@,
            ) && path@ == pushed("./static/"@, file@),
        },
{
    proof {
        reveal_strlit("");
        reveal_strlit("html");
    }
    match extension(slug) {
        Some(e) => {
            let html = String::from_str("html");
            if e == html {
                let mut target = String::from_str(slug);
                assert(""@ =~= seq![]);
                set_extension(&mut target, "");
                PageRequest::Redirect(target)
            } else {
                PageRequest::Unknown
            }
        },
        None => {
            let mut file = String::from_str(slug);
            set_extension(&mut file, "html");
            let path = joined("./static/", file.as_str());
            PageRequest::Read { path, file }
        },
    }
}

/// What the page shows when the file `file` cannot be read.
pub fn unreadable_message(file: &str) -> (res: String)
    ensures
        res@ == "Unable to read file: "@ + path_debug_text(file@),
{
    let shown = path_debug(file);
    concatenated("Unable to read file: ", shown.as_str())
}

/// A page asked for by a slug without extension, but with a file name, reads
/// the file of the same stem with extension `html`.
pub proof fn lemma_page_reads_html(slug: Seq<char>)
    requires
        extension_of(slug) is None,
        file_name_of(slug) is Some,
    ensures
        extension_of(with_extension(slug, "html"@)) == Some("html"@),
        file_stem_of(with_extension(slug, "html"@)) == file_stem_of(slug),
{
    reveal_strlit("html");
    lemma_set_extension_sets(slug, "html"@);
}

} // verus!
