//! Which pages a browser may visit, and how much of one is sent back.

use vstd::prelude::*;
use vstd::string::*;
use vstd::utf8::*;

use crate::json::{Json, refusal, refusal_tree};
use crate::text::{after_prefix, before_char, before_char_of, ends_with, lemma_last, lemma_next, lower, lower_char, lower_of, rsplit_once, rsplit_once_of, same, strip_prefix, strs};

verus! {

/// The most bytes of a page that are sent back.
pub const MAX_CONTENT_BYTES: usize = 2097152;

/// A browser daemon and the hosts that it may visit.
#[derive(Debug, PartialEq, Eq)]
pub struct Daemon {
    pub allowed: Vec<String>,
}

/// `host` is the name `allowed` or a subdomain of it, whatever the case.
pub open spec fn covers(allowed: Seq<char>, host: Seq<char>) -> bool {
    lower_of(host) == lower_of(allowed) || ("."@ + lower_of(allowed)).is_suffix_of(lower_of(host))
}

/// Some allowed name covers `host`.
pub open spec fn permitted(allowed: Seq<Seq<char>>, host: Seq<char>) -> bool {
    exists|i: int| 0 <= i < allowed.len() && covers(#[trigger] allowed[i], host)
}

impl Daemon {
    /// Is `host` an allowed name, or a subdomain of one?
    pub fn permits(&self, host: &str) -> (r: bool)
        ensures
            r == permitted(strs(self.allowed@), host@),
    {
        let h = lower(host);
        let mut i: usize = 0;
        while i < self.allowed.len()
            invariant
                i <= self.allowed.len(),
                h@ == lower_of(host@),
                forall|k: int| 0 <= k < i ==> !covers(#[trigger] self.allowed@[k]@, host@),
            decreases self.allowed.len() - i,
        {
            let a = lower(self.allowed[i].as_str());
            let sub = ".".to_string().concat(a.as_str());
            if same(h.as_str(), a.as_str()) || ends_with(h.as_str(), sub.as_str()) {
                assert(covers(strs(self.allowed@)[i as int], host@));
                return true;
            }
            i = i + 1;
        }
        assert forall|k: int| 0 <= k < strs(self.allowed@).len() implies !covers(
            #[trigger] strs(self.allowed@)[k],
            host@,
        ) by {
            assert(!covers(self.allowed@[k]@, host@));
        }
        false
    }

    /// The host of a page that may be visited, or why it may not be.
    pub fn host_to_visit(&self, url: &str) -> (r: Result<String, Json>)
        ensures
            match host_in(url@) {
                None => r is Err && r->Err_0@ == refusal_tree(
                    "unavailable"@,
                    "not a valid http(s) url: "@ + url@,
                ),
                Some(h) => if permitted(strs(self.allowed@), h) {
                    r is Ok && r->Ok_0@ == h
                } else {
                    r is Err && r->Err_0@ == refusal_tree("not-permitted"@, h)
                },
            },
    {
        match host_of(url) {
            None => {
                let detail = "not a valid http(s) url: ".to_string().concat(url);
                Err(refusal("unavailable", detail.as_str()))
            },
            Some(h) => {
                if self.permits(h.as_str()) {
                    Ok(h)
                } else {
                    Err(refusal("not-permitted", h.as_str()))
                }
            },
        }
    }
}

/// What follows the scheme of a web address.
pub open spec fn after_scheme(url: Seq<char>) -> Option<Seq<char>> {
    match after_prefix(url, "https://"@) {
        Some(r) => Some(r),
        None => after_prefix(url, "http://"@),
    }
}

/// The authority that opens `rest`: what stands before the path, the query or the
/// fragment, whichever comes first.
pub open spec fn authority_of(rest: Seq<char>) -> Seq<char> {
    before_char_of(before_char_of(before_char_of(rest, '/'), '?'), '#')
}

/// The host that `url` names, in small letters: what stands between the scheme (or
/// the user before an `@`) and the port or the end of the authority.
pub open spec fn host_in(url: Seq<char>) -> Option<Seq<char>> {
    match after_scheme(url) {
        None => None,
        Some(rest) => {
            let authority = authority_of(rest);
            let at_host = match rsplit_once_of(authority, '@') {
                Some(p) => p.1,
                None => authority,
            };
            let host = before_char_of(at_host, ':');
            if host.len() == 0 {
                None
            } else {
                Some(lower_of(host))
            }
        },
    }
}

/// The host that `url` names, in small letters, without its port.
pub fn host_of(url: &str) -> (out: Option<String>)
    ensures
        out is Some <==> host_in(url@) is Some,
        out matches Some(h) ==> host_in(url@) == Some(h@),
{
    let rest = match strip_prefix(url, "https://") {
        Some(r) => r,
        None => match strip_prefix(url, "http://") {
            Some(r) => r,
            None => return None,
        },
    };
    let before_path = before_char(rest.as_str(), '/');
    let before_query = before_char(before_path.as_str(), '?');
    let authority = before_char(before_query.as_str(), '#');
    let at_host = match rsplit_once(authority.as_str(), '@') {
        Some(p) => p.1,
        None => authority,
    };
    let host = before_char(at_host.as_str(), ':');
    if host.as_str().is_empty() {
        None
    } else {
        Some(lower(host.as_str()))
    }
}

/// A character that ends a host, or the user before one.
pub open spec fn delimits_host(c: char) -> bool {
    c == '/' || c == '?' || c == '#' || c == '@' || c == ':'
}

/// A host that comes out of a URL holds nothing that could name another: no path, query,
/// fragment, user or port is left in it.
pub proof fn law_a_host_is_only_a_host(url: Seq<char>)
    ensures
        host_in(url) matches Some(h) ==> h.len() > 0 && forall|i: int|
            0 <= i < h.len() ==> !delimits_host(#[trigger] h[i]) && h[i] != '/' && h[i] != '?' && h[i]
                != '#' && h[i] != '@' && h[i] != ':',
{
    if let Some(rest) = after_scheme(url) {
        let p = before_char_of(rest, '/');
        let q = before_char_of(p, '?');
        let a = before_char_of(q, '#');
        lemma_next(rest, '/', 0);
        lemma_next(p, '?', 0);
        lemma_next(q, '#', 0);
        lemma_last(a, '@', a.len() as int);
        let skipped = match rsplit_once_of(a, '@') {
            Some(_) => last_at(a) + 1,
            None => 0,
        };
        let at_host = a.skip(skipped);
        assert(a.skip(0) =~= a);
        lemma_next(at_host, ':', 0);
        let host = before_char_of(at_host, ':');
        assert forall|i: int| 0 <= i < host.len() implies !delimits_host(
            #[trigger] lower_of(host)[i],
        ) by {
            let c = a[skipped + i];
            assert(host[i] == at_host[i] == c);
            assert(c == q[skipped + i] == p[skipped + i] == rest[skipped + i]);
            assert(lower_of(host)[i] == lower_char(c));
        }
    }
}

/// Where the last `@` of `s` stands.
spec fn last_at(s: Seq<char>) -> int {
    crate::text::last_before(s, '@', s.len() as int)
}

/// At most [`MAX_CONTENT_BYTES`] bytes of a page.
pub fn clip(content: &str) -> (out: &str)
    requires
        content.spec_bytes().len() <= MAX_CONTENT_BYTES || is_char_boundary(
            content.spec_bytes(),
            MAX_CONTENT_BYTES as int,
        ),
    ensures
        content.spec_bytes().len() <= MAX_CONTENT_BYTES ==> out@ == content@,
        content.spec_bytes().len() > MAX_CONTENT_BYTES ==> out.spec_bytes()
            == content.spec_bytes().take(MAX_CONTENT_BYTES as int),
{
    if content.as_bytes().len() <= MAX_CONTENT_BYTES {
        content
    } else {
        let parts = content.split_at(MAX_CONTENT_BYTES);
        parts.0
    }
}

/// A browser that nobody has scoped visits nowhere.
pub proof fn law_an_unscoped_daemon_permits_nothing(host: Seq<char>)
    ensures
        !permitted(Seq::empty(), host),
{
}

/// A host that only ends in the letters of an allowed name is not covered by it: a
/// dot, or nothing at all, must stand before them.
pub proof fn law_a_lookalike_is_not_covered(allowed: Seq<char>, before: Seq<char>)
    requires
        before.len() > 0,
        lower_of(before).last() != '.',
    ensures
        !covers(allowed, before + allowed),
{
    let a = lower_of(allowed);
    let h = lower_of(before + allowed);
    assert(h =~= lower_of(before) + a);
    assert(h.len() == before.len() + a.len());
    if ("."@ + a).is_suffix_of(h) {
        reveal_strlit(".");
        let s = "."@ + a;
        assert(h.skip(h.len() - s.len()) == s);
        assert(h.skip(h.len() - s.len())[0] == s[0]);
        assert(h[before.len() - 1] == lower_of(before).last());
    }
}

/// A host is covered by itself and by every host below it, however they are written.
pub proof fn law_a_host_covers_what_is_below_it(allowed: Seq<char>, host: Seq<char>)
    ensures
        lower_of(host) == lower_of(allowed) ==> covers(allowed, host),
        ("."@ + lower_of(allowed)).is_suffix_of(lower_of(host)) ==> covers(allowed, host),
        covers(allowed, host) && lower_of(host) != lower_of(allowed) ==> lower_of(host).len()
            > lower_of(allowed).len(),
{
    reveal_strlit(".");
    assert("."@.len() == 1);
}

} // verus!
