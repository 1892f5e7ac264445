//! Queries against the directory-frecency tracker, made through the
//! execution interface: all known paths in rank order, and the best
//! match for a query string.

use vstd::prelude::*;

verus! {

use vstd::string::StringExecFns;

use crate::shell::Shell;
use crate::shell::ShellError;
use crate::text::clean_lines;
use crate::text::clean_lines_str;
use crate::text::first_trimmed_line_str;
use crate::text::views_of;

/// One tracked directory, in the tracker's rank order.
pub struct ZItem {
    pub path: String,
}

impl View for ZItem {
    type V = Seq<char>;

    open spec fn view(&self) -> Seq<char> {
        self.path@
    }
}

/// The tracked paths found in a listing output: the non-empty trimmed
/// lines, in the order the tracker ranked them.
pub fn zitems_from_output(out: &str) -> (r: Vec<ZItem>)
    ensures
        views_of(r@) == clean_lines(out@),
{
    let ls = clean_lines_str(out);
    let mut items: Vec<ZItem> = Vec::new();
    let mut i: usize = 0;
    proof {
        assert(views_of(items@) =~= views_of(ls@).subrange(0, 0));
    }
    while i < ls.len()
        invariant
            0 <= i <= ls.len(),
            views_of(ls@) == clean_lines(out@),
            views_of(items@) == views_of(ls@).subrange(0, i as int),
        decreases ls.len() - i,
    {
        let it = ZItem { path: ls[i].clone() };
        proof {
            crate::text::lemma_views_push(items@, it);
            assert(it@ == ls@[i as int]@);
            assert(views_of(ls@)[i as int] == ls@[i as int]@);
            assert(views_of(ls@).subrange(0, i as int).push(views_of(ls@)[i as int])
                =~= views_of(ls@).subrange(0, i + 1));
        }
        items.push(it);
        i = i + 1;
    }
    proof {
        assert(views_of(ls@).subrange(0, views_of(ls@).len() as int) =~= views_of(ls@));
    }
    items
}

/// The exact argument vector of the list-all-paths query.
pub fn list_all_args() -> (a: Vec<String>)
    ensures
        views_of(a@) == seq![("query")@, ("-l")@],
{
    let mut a: Vec<String> = Vec::new();
    a.push(String::from_str("query"));
    a.push(String::from_str("-l"));
    proof {
        assert(views_of(a@) =~= seq![("query")@, ("-l")@]);
    }
    a
}

/// All tracked directories in rank order. A failing query counts as an
/// empty listing, not as an error.
pub fn list_all<S: Shell>(sh: &S) -> (r: Result<Vec<ZItem>, ShellError>)
    ensures
        r is Ok,
{
    let args = list_all_args();
    let out = match sh.run("zoxide", &args) {
        Ok(o) => o,
        Err(_) => String::new(),
    };
    Ok(zitems_from_output(out.as_str()))
}

/// The exact argument vector of the best-match query for exactly the
/// given query string.
pub fn best_match_args(query: &str) -> (a: Vec<String>)
    ensures
        views_of(a@) == seq![("query")@, query@],
{
    let mut a: Vec<String> = Vec::new();
    a.push(String::from_str("query"));
    a.push(String::from_str(query));
    proof {
        assert(views_of(a@) =~= seq![("query")@, query@]);
    }
    a
}

/// The tracker's best match, queried for exactly the given string: the
/// first line of a successful query if it trims to something, else
/// nothing.
pub fn best_match_dir<S: Shell>(sh: &S, query: &str) -> (r: Option<String>)
    ensures
        r is Some ==> r->0@.len() > 0,
{
    let args = best_match_args(query);
    match sh.run("zoxide", &args) {
        Ok(s) => first_trimmed_line_str(s.as_str()),
        Err(_) => None,
    }
}

} // verus!
