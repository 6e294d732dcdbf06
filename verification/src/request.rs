//! Parsing of a request line into a routing decision.
//!
//! The recognized patterns are `GET / HTTP/1.1` and `GET /list HTTP/1.1`,
//! and otherwise `GET <path> HTTP/1.1` where the path, its leading slashes
//! removed, names a markdown document; anything else is not found.

use vstd::prelude::*;
use crate::inline::str_eq;
use crate::text::{chars_string, text_chars, vec_range};

verus! {

/// Where a request line routes: the home document, the directory listing,
/// a named markdown document, or the not-found page.
pub enum Route {
    Home,
    Listing,
    Document { name: String },
    NotFound,
}

/// The ghost view of a routing decision.
pub enum RouteView {
    Home,
    Listing,
    Document { name: Seq<char> },
    NotFound,
}

impl View for Route {
    type V = RouteView;

    open spec fn view(&self) -> RouteView {
        match self {
            Route::Home => RouteView::Home,
            Route::Listing => RouteView::Listing,
            Route::Document { name } => RouteView::Document { name: name@ },
            Route::NotFound => RouteView::NotFound,
        }
    }
}

/// Whether `p` begins `s`.
pub open spec fn has_prefix(s: Seq<char>, p: Seq<char>) -> bool {
    p.len() <= s.len() && s.take(p.len() as int) == p
}

/// Whether `p` ends `s`.
pub open spec fn has_suffix(s: Seq<char>, p: Seq<char>) -> bool {
    p.len() <= s.len() && s.skip(s.len() - p.len()) == p
}

/// The text with every leading slash removed.
pub open spec fn drop_slashes(s: Seq<char>) -> Seq<char>
    decreases s.len(),
{
    if s.len() > 0 && s[0] == '/' {
        drop_slashes(s.drop_first())
    } else {
        s
    }
}

/// `drop_slashes` removes exactly the leading run of slashes.
pub proof fn lemma_drop_slashes_is(s: Seq<char>, k: int)
    requires
        0 <= k <= s.len(),
        forall|i: int| 0 <= i < k ==> s[i] == '/',
        k == s.len() || s[k] != '/',
    ensures
        drop_slashes(s) == s.skip(k),
    decreases k,
{
    if k == 0 {
        assert(s.skip(0) =~= s);
    } else {
        let t = s.drop_first();
        assert(forall|i: int| 0 <= i < k - 1 ==> t[i] == s[i + 1] && t[i] == '/');
        assert(k - 1 == t.len() || t[k - 1] != '/');
        lemma_drop_slashes_is(t, k - 1);
        assert(t.skip(k - 1) =~= s.skip(k));
    }
}

/// The route a request line selects.  A line too short to carry both the
/// method and the protocol tag is not found.
pub open spec fn route_of(line: Seq<char>) -> RouteView {
    if line == "GET / HTTP/1.1"@ {
        RouteView::Home
    } else if line == "GET /list HTTP/1.1"@ {
        RouteView::Listing
    } else if line.len() >= 13 && has_prefix(line, "GET "@) && has_suffix(line, " HTTP/1.1"@) {
        let path = drop_slashes(line.subrange(4, line.len() - 9));
        if path.len() == 0 {
            RouteView::Home
        } else if has_suffix(path, ".md"@) {
            RouteView::Document { name: path }
        } else {
            RouteView::NotFound
        }
    } else {
        RouteView::NotFound
    }
}

/// Decides where a request line routes, as `route_of` says.
pub fn route_request(line: &str) -> (r: Route)
    ensures
        r@ == route_of(line@),
{
    if str_eq(line, "GET / HTTP/1.1") {
        return Route::Home;
    }
    if str_eq(line, "GET /list HTTP/1.1") {
        return Route::Listing;
    }
    let v = text_chars(line);
    let n = v.len();
    let framed = n >= 13 && v[0] == 'G' && v[1] == 'E' && v[2] == 'T' && v[3] == ' ' && v[n - 9]
        == ' ' && v[n - 8] == 'H' && v[n - 7] == 'T' && v[n - 6] == 'T' && v[n - 5] == 'P' && v[n
        - 4] == '/' && v[n - 3] == '1' && v[n - 2] == '.' && v[n - 1] == '1';
    proof {
        reveal_strlit("GET ");
        reveal_strlit(" HTTP/1.1");
        if framed {
            assert(v@.take(4) =~= "GET "@);
            assert(v@.skip(n - 9) =~= " HTTP/1.1"@);
        } else if n >= 13 {
            if has_prefix(v@, "GET "@) && has_suffix(v@, " HTTP/1.1"@) {
                assert(v@.take(4)[0] == v@[0] && v@.take(4)[1] == v@[1] && v@.take(4)[2] == v@[2]
                    && v@.take(4)[3] == v@[3]);
                assert(v@.skip(n - 9)[0] == v@[n - 9] && v@.skip(n - 9)[1] == v@[n - 8] && v@.skip(
                    n - 9,
                )[2] == v@[n - 7] && v@.skip(n - 9)[3] == v@[n - 6] && v@.skip(n - 9)[4] == v@[n
                    - 5] && v@.skip(n - 9)[5] == v@[n - 4] && v@.skip(n - 9)[6] == v@[n - 3]
                    && v@.skip(n - 9)[7] == v@[n - 2] && v@.skip(n - 9)[8] == v@[n - 1]);
                assert(false);
            }
        }
        assert(framed == (v@.len() >= 13 && has_prefix(v@, "GET "@) && has_suffix(
            v@,
            " HTTP/1.1"@,
        )));
    }
    if !framed {
        return Route::NotFound;
    }
    let stop = n - 9;
    let mut p: usize = 4;
    while p < stop && v[p] == '/'
        invariant
            4 <= p <= stop,
            stop == v@.len() - 9,
            forall|i: int| 4 <= i < p ==> v@[i] == '/',
        decreases stop - p,
    {
        p = p + 1;
    }
    let ghost sub = v@.subrange(4, v@.len() - 9);
    proof {
        assert(forall|i: int| 0 <= i < p - 4 ==> sub[i] == v@[i + 4] && sub[i] == '/');
        assert(p - 4 == sub.len() || sub[p - 4] != '/');
        lemma_drop_slashes_is(sub, p - 4);
        assert(sub.skip(p - 4) =~= v@.subrange(p as int, v@.len() - 9));
    }
    let ghost path = drop_slashes(sub);
    if p == stop {
        proof {
            assert(path.len() == 0);
        }
        return Route::Home;
    }
    let md = stop - p >= 3 && v[stop - 3] == '.' && v[stop - 2] == 'm' && v[stop - 1] == 'd';
    proof {
        reveal_strlit(".md");
        assert(path.len() == stop - p);
        if md {
            assert(path.skip(path.len() - 3) =~= ".md"@);
        } else if stop - p >= 3 {
            if has_suffix(path, ".md"@) {
                assert(path.skip(path.len() - 3)[0] == path[path.len() - 3] && path.skip(
                    path.len() - 3,
                )[1] == path[path.len() - 2] && path.skip(path.len() - 3)[2] == path[path.len()
                    - 1]);
                assert(path[path.len() - 3] == v@[stop - 3] && path[path.len() - 2] == v@[stop - 2]
                    && path[path.len() - 1] == v@[stop - 1]);
                assert(false);
            }
        }
        assert(md == has_suffix(path, ".md"@));
    }
    if md {
        let name_chars = vec_range(&v, p, stop);
        let name = chars_string(&name_chars);
        proof {
            assert(name@ == path);
        }
        Route::Document { name }
    } else {
        Route::NotFound
    }
}

} // verus!
