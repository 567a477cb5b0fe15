//! Locating the installed rust documentation. The toolchain reports where
//! its rustdoc binary lives; the documentation tree lies two directories up,
//! under share/doc/rust/html. Asking the toolchain is the caller's work;
//! deriving the directory from the reported path happens here, on paths
//! with `/` separators.

use vstd::prelude::*;
use vstd::string::{StrSliceExecFns, StringExecFns};

verus! {

/// Index one past the last separator of `p`; zero when there is none.
pub open spec fn after_last_slash(p: Seq<char>) -> int
    decreases p.len(),
{
    if p.len() == 0 {
        0
    } else if p.last() == '/' {
        p.len() as int
    } else {
        after_last_slash(p.drop_last())
    }
}

/// `p` without its final component and the separator before it; empty when
/// `p` has no separator.
pub open spec fn parent_of(p: Seq<char>) -> Seq<char> {
    if after_last_slash(p) == 0 {
        Seq::empty()
    } else {
        p.take(after_last_slash(p) - 1)
    }
}

proof fn lemma_after_last_slash(p: Seq<char>, j: int)
    requires
        0 <= j <= p.len(),
        forall|t: int| j <= t < p.len() ==> p[t] != '/',
        j > 0 ==> p[j - 1] == '/',
    ensures
        after_last_slash(p) == j,
    decreases p.len(),
{
    if j == p.len() {
        if p.len() == 0 {
        }
    } else {
        assert(p.last() != '/');
        assert forall|t: int| j <= t < p.drop_last().len() implies p.drop_last()[t] != '/' by {
            assert(p.drop_last()[t] == p[t]);
        }
        lemma_after_last_slash(p.drop_last(), j);
    }
}

/// The parent directory of a `/`-separated path: the path without its final
/// component; empty when there is no separator.
#[verifier::loop_isolation(false)]
fn parent_str(path: &str) -> (r: String)
    ensures
        r@ == parent_of(path@),
{
    let len = path.unicode_len();
    let mut j = len;
    while j > 0
        invariant
            j <= len,
            forall|t: int| j <= t < path@.len() ==> path@[t] != '/',
        decreases j,
    {
        if path.get_char(j - 1) == '/' {
            proof {
                lemma_after_last_slash(path@, j as int);
            }
            let r = path.substring_char(0, j - 1);
            proof {
                assert(r@ =~= path@.take(j - 1));
            }
            return r.to_owned();
        }
        j = j - 1;
    }
    proof {
        lemma_after_last_slash(path@, 0);
    }
    String::new()
}

/// The installed documentation tree, derived from the rustdoc binary path:
/// two directories up, then the html tree under share/doc/rust.
pub fn doc_html_dir(rustdoc: &String) -> (r: String)
    ensures
        r@ == parent_of(parent_of(rustdoc@)) + "/share/doc/rust/html"@,
{
    let p1 = parent_str(rustdoc.as_str());
    let mut s = parent_str(p1.as_str());
    s.append("/share/doc/rust/html");
    s
}

} // verus!
