use vstd::prelude::*;

use crate::error::EngineError;

verus! {

/// The outbound-HTTP capability bound at build time: an optional allow-list
/// of hosts the guest may reach, and an optional cap on concurrent requests.
/// With no allow-list, all hosts are permitted.
pub struct HttpCtx {
    pub allowed_hosts: Option<Vec<String>>,
    pub max_concurrent_requests: Option<u32>,
}

/// The host part of a URL: the characters after the first `://` and before
/// the next `/`, `:` or `?`. An URL without `://` has no host.
pub open spec fn scheme_end(u: Seq<char>) -> int
    decreases u.len(),
{
    if u.len() < 3 {
        -1
    } else if u[0] == ':' && u[1] == '/' && u[2] == '/' {
        3
    } else {
        let r = scheme_end(u.skip(1));
        if r < 0 {
            -1
        } else {
            r + 1
        }
    }
}

/// Length of the host part starting at `i`.
pub open spec fn host_len(u: Seq<char>, i: int) -> int
    decreases u.len() - i,
{
    if i < 0 || i >= u.len() {
        0
    } else if u[i] == '/' || u[i] == ':' || u[i] == '?' {
        0
    } else {
        1 + host_len(u, i + 1)
    }
}

/// The host named by a URL, or the empty sequence when it has none.
pub open spec fn url_host(u: Seq<char>) -> Seq<char> {
    if scheme_end(u) < 0 {
        Seq::empty()
    } else {
        u.subrange(scheme_end(u), scheme_end(u) + host_len(u, scheme_end(u)))
    }
}

/// Whether a host is granted by an allow-list: no list grants every host; a
/// list grants exactly its members.
pub open spec fn host_allowed(allowed: Option<Vec<String>>, host: Seq<char>) -> bool {
    match allowed {
        Option::None => true,
        Option::Some(l) => exists|i: int| 0 <= i < l@.len() && (#[trigger] l@[i])@ == host,
    }
}

impl HttpCtx {
    /// Bind the outbound-HTTP capability to an allow-list and a concurrency
    /// cap.
    pub fn new(allowed_hosts: Option<Vec<String>>, max_concurrent_requests: Option<u32>) -> (r:
        HttpCtx)
        ensures
            r.allowed_hosts == allowed_hosts,
            r.max_concurrent_requests == max_concurrent_requests,
    {
        HttpCtx { allowed_hosts, max_concurrent_requests }
    }

    /// The host part of `url`, computed executably.
    pub fn extract_host(url: &str) -> (r: String)
        ensures
            r@ == url_host(url@),
    {
        let n: usize = url.unicode_len();
        let mut i: usize = 0;
        let mut start: Option<usize> = None;
        while n >= 3 && i <= n - 3 && start.is_none()
            invariant
                n == url@.len(),
                0 <= i,
                i <= n,
                match start {
                    Option::Some(st) => scheme_end(url@) == st && st <= n,
                    Option::None => forall|j: int|
                        0 <= j < i ==> !scheme_at(url@, j),
                },
            decreases n - i, (if start is None { 1int } else { 0int }),
        {
            if url.get_char(i) == ':' && url.get_char(i + 1) == '/' && url.get_char(i + 2) == '/' {
                proof {
                    lemma_scheme_end(url@);
                    let se = scheme_end(url@);
                    if se < 0 {
                        assert(scheme_at(url@, i as int));
                        assert(false);
                    }
                    if se < i + 3 {
                        assert(scheme_at(url@, se - 3));
                        assert(false);
                    }
                    if se > i + 3 {
                        assert(!scheme_at(url@, i as int));
                        assert(false);
                    }
                }
                start = Some(i + 3);
            } else {
                i = i + 1;
            }
        }
        match start {
            Option::None => {
                proof {
                    lemma_scheme_end(url@);
                    if scheme_end(url@) >= 0 {
                        assert(scheme_at(url@, scheme_end(url@) - 3));
                        assert(false);
                    }
                }
                String::new()
            },
            Option::Some(st) => {
                let mut e: usize = st;
                while e < n && !host_end_char(url, e)
                    invariant
                        n == url@.len(),
                        st <= e <= n,
                        st == scheme_end(url@),
                        host_len(url@, st as int) == (e - st) + host_len(url@, e as int),
                    decreases n - e,
                {
                    e = e + 1;
                }
                proof {
                    if e < n {
                        assert(host_len(url@, e as int) == 0);
                    } else {
                        assert(host_len(url@, e as int) == 0);
                    }
                }
                url.substring_char(st, e).to_owned()
            },
        }
    }

    /// True when this capability lets the guest reach `url`'s host.
    #[verifier::loop_isolation(false)]
    pub fn is_allowed(&self, url: &str) -> (r: bool)
        ensures
            r == host_allowed(self.allowed_hosts, url_host(url@)),
    {
        match &self.allowed_hosts {
            Option::None => true,
            Option::Some(l) => {
                let host = Self::extract_host(url);
                let mut i: usize = 0;
                while i < l.len()
                    invariant
                        0 <= i <= l@.len(),
                        host@ == url_host(url@),
                        forall|j: int| 0 <= j < i ==> (#[trigger] l@[j])@ != host@,
                    decreases l@.len() - i,
                {
                    if l[i] == host {
                        proof {
                            assert(0 <= i < l@.len() && (l@[i as int])@ == url_host(url@));
                        }
                        return true;
                    }
                    i = i + 1;
                }
                false
            },
        }
    }

    /// Gate one guest-initiated request: a host outside the allow-list is
    /// rejected here, inside the import, as an error value handed back to
    /// the guest — never a host-level trap, and before any outbound traffic.
    pub fn guard_request(&self, url: &str) -> (r: Result<(), EngineError>)
        ensures
            r is Ok <==> host_allowed(self.allowed_hosts, url_host(url@)),
            r is Err ==> r == Result::<(), EngineError>::Err(EngineError::HostNotAllowed),
    {
        if self.is_allowed(url) {
            Ok(())
        } else {
            Err(EngineError::HostNotAllowed)
        }
    }
}

/// True when the character at `i` ends a host: `/`, `:` or `?`.
fn host_end_char(u: &str, i: usize) -> (r: bool)
    requires
        i < u@.len(),
    ensures
        r == (u@[i as int] == '/' || u@[i as int] == ':' || u@[i as int] == '?'),
{
    let c = u.get_char(i);
    c == '/' || c == ':' || c == '?'
}

/// A `://` separator starts at position `j`.
pub open spec fn scheme_at(u: Seq<char>, j: int) -> bool {
    0 <= j && j + 3 <= u.len() && u[j] == ':' && u[j + 1] == '/' && u[j + 2] == '/'
}

/// What `scheme_end` finds: either no `://` at all, or three past the first
/// one.
pub proof fn lemma_scheme_end(u: Seq<char>)
    ensures
        scheme_end(u) < 0 ==> forall|j: int| !scheme_at(u, j),
        scheme_end(u) >= 0 ==> scheme_at(u, scheme_end(u) - 3) && (forall|j: int|
            0 <= j < scheme_end(u) - 3 ==> !scheme_at(u, j)),
    decreases u.len(),
{
    if u.len() < 3 {
    } else if u[0] == ':' && u[1] == '/' && u[2] == '/' {
    } else {
        let t = u.skip(1);
        lemma_scheme_end(t);
        assert(forall|j: int| 0 <= j < t.len() ==> t[j] == u[j + 1]);
        let r = scheme_end(t);
        if r >= 0 {
            assert(scheme_at(t, r - 3));
            assert(scheme_at(u, r - 2));
            assert forall|j: int| 0 <= j < r - 2 implies !scheme_at(u, j) by {
                if j > 0 {
                    if scheme_at(u, j) {
                        assert(scheme_at(t, j - 1));
                        assert(false);
                    }
                } else {
                    assert(!(u[0] == ':' && u[1] == '/' && u[2] == '/'));
                }
            }
        } else {
            assert forall|j: int| 0 <= j implies !scheme_at(u, j) by {
                if scheme_at(u, j) {
                    if j == 0 {
                        assert(false);
                    } else {
                        assert(scheme_at(t, j - 1));
                        assert(false);
                    }
                }
            }
        }
    }
}

} // verus!
