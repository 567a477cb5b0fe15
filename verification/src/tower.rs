//! The documentation server's request routing: which tree a request path
//! names, where directory requests are redirected, and the directory listing
//! page. Opening files, reading directories and speaking HTTP are the
//! caller's work; the caller streams served files through the rewrite
//! engine so that links to the official documentation site point back at
//! the locally served tree.

use vstd::prelude::*;
use vstd::string::{StrSliceExecFns, StringExecFns};

verus! {

/// `path` starts with the path component `comp`: it is the component itself
/// or continues with a separator right after it.
pub open spec fn has_component(path: Seq<char>, comp: Seq<char>) -> bool {
    path == comp || (path.len() > comp.len() && path.subrange(0, comp.len() as int) == comp
        && path[comp.len() as int] == '/')
}

/// What remains of `path` after the component `comp` and its separator.
pub open spec fn component_rest(path: Seq<char>, comp: Seq<char>) -> Seq<char> {
    if path == comp {
        Seq::empty()
    } else {
        path.skip(comp.len() as int + 1)
    }
}

/// Strip the leading path component `comp` from `path`, when present.
#[verifier::loop_isolation(false)]
fn strip_component(path: &String, comp: &str) -> (r: Option<String>)
    ensures
        r is Some <==> has_component(path@, comp@),
        (r matches Option::Some(rest) ==> rest@ == component_rest(path@, comp@)),
{
    let plen = path.as_str().unicode_len();
    let clen = comp.unicode_len();
    if plen < clen {
        return Option::None;
    }
    let mut i: usize = 0;
    while i < clen
        invariant
            i <= clen,
            forall|t: int| 0 <= t < i ==> path@[t] == comp@[t],
        decreases clen - i,
    {
        if path.as_str().get_char(i) != comp.get_char(i) {
            proof {
                if has_component(path@, comp@) {
                    if path@ == comp@ {
                        assert(path@[i as int] == comp@[i as int]);
                    } else {
                        assert(path@.subrange(0, clen as int)[i as int] == comp@[i as int]);
                    }
                    assert(false);
                }
            }
            return Option::None;
        }
        i = i + 1;
    }
    if plen == clen {
        proof {
            assert(path@ =~= comp@);
        }
        return Option::Some(String::new());
    }
    if path.as_str().get_char(clen) != '/' {
        proof {
            if has_component(path@, comp@) {
                assert(false);
            }
        }
        return Option::None;
    }
    proof {
        assert(path@.subrange(0, clen as int) =~= comp@);
        assert(has_component(path@, comp@));
    }
    let rest = path.as_str().substring_char(clen + 1, plen);
    proof {
        assert(rest@ =~= path@.skip(clen + 1));
    }
    Option::Some(rest.to_owned())
}

/// Where a request names a file or nothing: a file of the generated crate
/// documentation, a file of the installed rust documentation, a redirect to
/// the official documentation site when none is installed, or nothing.
pub enum Route {
    /// Serve this file path of the crate documentation tree.
    CrateFile(String),
    /// Serve this file path of the installed rust documentation tree.
    RustFile(String),
    /// Redirect to this URL on the official documentation site.
    RedirectOfficial(String),
    /// No tree is named by the request.
    NotFound,
}

/// The documentation server: where the generated crate documentation lives,
/// and where the installed rust documentation lives, if anywhere.
pub struct Server {
    /// Directory of the generated crate documentation.
    pub crate_dir: String,
    /// Directory of the installed rust documentation, when installed.
    pub rustup_dir: Option<String>,
}

impl Server {
    /// Decide what a request path names. Requests under `crate` serve the
    /// generated crate documentation; requests under `rust` serve the
    /// installed rust documentation, or redirect to the official site when
    /// none is installed; anything else is not found.
    pub fn route(&self, relative_path: &String) -> (r: Route)
        ensures
            (r is CrateFile <==> has_component(relative_path@, "crate"@)),
            (r matches Route::CrateFile(p) ==> p@ == self.crate_dir@ + "/"@ + component_rest(
                relative_path@,
                "crate"@,
            )),
            (r is RustFile <==> (!has_component(relative_path@, "crate"@) && has_component(
                relative_path@,
                "rust"@,
            ) && self.rustup_dir is Some)),
            (r matches Route::RustFile(p) ==> (self.rustup_dir matches Option::Some(d) && p@
                == d@ + "/"@ + component_rest(relative_path@, "rust"@))),
            (r is RedirectOfficial <==> (!has_component(relative_path@, "crate"@)
                && has_component(relative_path@, "rust"@) && self.rustup_dir is None)),
            (r matches Route::RedirectOfficial(u) ==> u@ == "https://doc.rust-lang.org/nightly"@
                + component_rest(relative_path@, "rust"@)),
            (r is NotFound <==> (!has_component(relative_path@, "crate"@) && !has_component(
                relative_path@,
                "rust"@,
            ))),
    {
        match strip_component(relative_path, "crate") {
            Option::Some(rest) => {
                let mut p = self.crate_dir.clone();
                p.append("/");
                p.append(rest.as_str());
                Route::CrateFile(p)
            },
            Option::None => match strip_component(relative_path, "rust") {
                Option::Some(rest) => match &self.rustup_dir {
                    Option::Some(d) => {
                        let mut p = d.clone();
                        p.append("/");
                        p.append(rest.as_str());
                        Route::RustFile(p)
                    },
                    Option::None => {
                        let mut u = String::from_str("https://doc.rust-lang.org/nightly");
                        u.append(rest.as_str());
                        Route::RedirectOfficial(u)
                    },
                },
                Option::None => Route::NotFound,
            },
        }
    }
}

/// Where a request for a directory is redirected: the index page inside it.
pub fn dir_redirect_target(relative_path: &String) -> (r: String)
    ensures
        relative_path@.len() == 0 ==> r@ == "/index.html"@,
        relative_path@.len() > 0 ==> r@ == "/"@ + relative_path@ + "/index.html"@,
{
    if relative_path.as_str().unicode_len() == 0 {
        String::from_str("/index.html")
    } else {
        let mut s = String::from_str("/");
        s.append(relative_path.as_str());
        s.append("/index.html");
        s
    }
}

/// View of a vector of strings as a sequence of character sequences.
pub open spec fn string_views(paths: Seq<String>) -> Seq<Seq<char>> {
    paths.map_values(|p: String| p@)
}

/// One line of the directory listing: a link to the child, shown by name.
pub open spec fn listing_entry(p: Seq<char>) -> Seq<char> {
    "<a href=\""@ + p + "\">"@ + p + "</a><br />"@
}

/// The listing lines for the child names, in order.
pub open spec fn listing_entries(paths: Seq<Seq<char>>) -> Seq<char>
    decreases paths.len(),
{
    if paths.len() == 0 {
        Seq::empty()
    } else {
        listing_entries(paths.drop_last()) + listing_entry(paths.last())
    }
}

/// The whole directory listing page.
pub open spec fn listing_page_spec(paths: Seq<Seq<char>>) -> Seq<char> {
    "<!DOCTYPE html><html><body>"@ + listing_entries(paths) + "</body></html>"@
}

/// Render the directory listing page: one link per child name, in the given
/// order.
#[verifier::loop_isolation(false)]
pub fn directory_listing_page(paths: &Vec<String>) -> (r: String)
    ensures
        r@ == listing_page_spec(string_views(paths@)),
{
    let mut page = String::from_str("<!DOCTYPE html><html><body>");
    let mut i: usize = 0;
    proof {
        assert(string_views(paths@.take(0)) =~= Seq::<Seq<char>>::empty());
    }
    while i < paths.len()
        invariant
            i <= paths@.len(),
            page@ == "<!DOCTYPE html><html><body>"@ + listing_entries(
                string_views(paths@.take(i as int)),
            ),
        decreases paths@.len() - i,
    {
        page.append("<a href=\"");
        page.append(paths[i].as_str());
        page.append("\">");
        page.append(paths[i].as_str());
        page.append("</a><br />");
        i = i + 1;
        proof {
            let pre = string_views(paths@.take(i - 1));
            let cur = string_views(paths@.take(i as int));
            assert(cur.drop_last() =~= pre);
            assert(cur.last() == paths@[i - 1]@);
            assert(listing_entries(cur) == listing_entries(pre) + listing_entry(paths@[i - 1]@));
            assert(page@ =~= "<!DOCTYPE html><html><body>"@ + listing_entries(cur));
        }
    }
    proof {
        assert(paths@.take(paths@.len() as int) =~= paths@);
    }
    page.append("</body></html>");
    page
}

/// The redirect target for a request to the server root: into the crate's
/// own documentation tree, carrying any search query along.
pub fn crate_root_redirect(crate_name: &String, query: &Option<String>) -> (r: String)
    ensures
        query is None ==> r@ == "/"@ + crate_name@ + "/"@,
        (query matches Option::Some(q) ==> r@ == "/"@ + crate_name@ + "/?"@ + q@),
{
    let mut s = String::from_str("/");
    s.append(crate_name.as_str());
    match query {
        Option::None => {
            s.append("/");
            s
        },
        Option::Some(q) => {
            s.append("/?");
            s.append(q.as_str());
            s
        },
    }
}

/// The landing page offering the two served documentation trees.
pub fn index_page() -> (r: String)
    ensures
        r@
            == "<!DOCTYPE html><html><body><a href=\"/crate\">Crate-specific documentation</a><br /><a href=\"/rust\">Rust book and std documentation</a></body></html>"@,
{
    String::from_str(
        "<!DOCTYPE html><html><body><a href=\"/crate\">Crate-specific documentation</a><br /><a href=\"/rust\">Rust book and std documentation</a></body></html>",
    )
}

} // verus!
