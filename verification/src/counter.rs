//! The interactive parts of the home and test pages: a click counter, and the
//! texts and link built from the route parameters and the query.
use vstd::prelude::*;
use crate::text::{concatenated, opt_view, option_debug, option_debug_of};

verus! {

/// A counter that a button click increments.
pub struct Counter {
    pub count: i32,
}

impl Counter {
    /// A counter at zero.
    pub fn new() -> (res: Counter)
        ensures
            res.count == 0,
    {
        Counter { count: 0 }
    }

    /// Counts one click. The count is an `i32`; one past its largest value
    /// would overflow.
    pub fn click(&mut self)
        requires
            old(self).count < i32::MAX,
        ensures
            final(self).count == old(self).count + 1,
    {
        self.count = self.count + 1;
    }
}

/// The text that shows the route parameter: `Params: ` and its debug form.
pub fn params_label(param: &Option<String>) -> (res: String)
    ensures
        res@ == "Params: "@ + option_debug_of(opt_view(*param)),
{
    let shown = option_debug(param);
    concatenated("Params: ", shown.as_str())
}

/// The text that shows the query value: `Queries: ` and its debug form.
pub fn queries_label(query: &Option<String>) -> (res: String)
    ensures
        res@ == "Queries: "@ + option_debug_of(opt_view(*query)),
{
    let shown = option_debug(query);
    concatenated("Queries: ", shown.as_str())
}

/// The link that follows the query: `/csr/` and the query value (nothing when
/// there is none).
pub fn csr_link(query: &Option<String>) -> (res: String)
    ensures
        res@ == "/csr/"@ + match *query {
            Some(q) => q@,
            None => seq![],
        },
{
    match query {
        Some(q) => concatenated("/csr/", q.as_str()),
        None => {
            proof {
                reveal_strlit("");
            }
            let r = concatenated("/csr/", "");
            assert(r@ =~= "/csr/"@);
            r
        },
    }
}

} // verus!
