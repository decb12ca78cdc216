//! Decomposition of a scheme-restricted URL into host, port, path and
//! search part: the host runs up to a colon or the end of the authority,
//! the port follows the colon (defaulting to 80), the path runs up to a
//! question mark and the search part follows it.

use vstd::prelude::*;
use crate::strutil::{chars_of, string_from_chars};

verus! {

/// The scheme prefix this model accepts.
pub open spec fn scheme_seq() -> Seq<char> {
    "http://"@
}

/// Whether the text contains the scheme prefix anywhere.
pub open spec fn has_scheme(s: Seq<char>) -> bool {
    exists|i: int| 0 <= i && i + 7 <= s.len() && #[trigger] s.subrange(i, i + 7) == scheme_seq()
}

/// The text with every leading repetition of the scheme prefix removed.
pub open spec fn trim_scheme(s: Seq<char>) -> Seq<char>
    decreases s.len(),
{
    if s.len() >= 7 && s.subrange(0, 7) == scheme_seq() {
        trim_scheme(s.subrange(7, s.len() as int))
    } else {
        s
    }
}

/// The least index at or after `i` holding `c`, if any.
pub open spec fn find_at(s: Seq<char>, c: char, i: int) -> Option<int>
    decreases s.len() - i,
    when 0 <= i
{
    if i >= s.len() {
        None
    } else if s[i] == c {
        Some(i)
    } else {
        find_at(s, c, i + 1)
    }
}

/// The authority: the trimmed text up to the first slash or its end.
pub open spec fn authority_of(s: Seq<char>) -> Seq<char> {
    let t = trim_scheme(s);
    match find_at(t, '/', 0) {
        None => t,
        Some(i) => t.subrange(0, i),
    }
}

/// What follows the first slash of the trimmed text, if a slash occurs.
pub open spec fn after_authority(s: Seq<char>) -> Option<Seq<char>> {
    let t = trim_scheme(s);
    match find_at(t, '/', 0) {
        None => None,
        Some(i) => Some(t.subrange(i + 1, t.len() as int)),
    }
}

/// The host: the authority up to the first colon.
pub open spec fn host_of(s: Seq<char>) -> Seq<char> {
    let a = authority_of(s);
    match find_at(a, ':', 0) {
        None => a,
        Some(i) => a.subrange(0, i),
    }
}

/// The port: what follows the authority's first colon, or `80`.
pub open spec fn port_of(s: Seq<char>) -> Seq<char> {
    let a = authority_of(s);
    match find_at(a, ':', 0) {
        None => "80"@,
        Some(i) => a.subrange(i + 1, a.len() as int),
    }
}

/// The path: what follows the first slash, up to the first question mark;
/// empty with no slash.
pub open spec fn path_of(s: Seq<char>) -> Seq<char> {
    match after_authority(s) {
        None => Seq::<char>::empty(),
        Some(r) => match find_at(r, '?', 0) {
            None => r,
            Some(i) => r.subrange(0, i),
        },
    }
}

/// The search part: what follows the first question mark after the first
/// slash; empty without either.
pub open spec fn searchpart_of(s: Seq<char>) -> Seq<char> {
    match after_authority(s) {
        None => Seq::<char>::empty(),
        Some(r) => match find_at(r, '?', 0) {
            None => Seq::<char>::empty(),
            Some(i) => r.subrange(i + 1, r.len() as int),
        },
    }
}

/// Mathematical image of a [`Url`].
pub struct UrlV {
    pub url: Seq<char>,
    pub host: Seq<char>,
    pub port: Seq<char>,
    pub path: Seq<char>,
    pub searchpart: Seq<char>,
}

/// A URL and the components its text decomposes into once parsed.
#[derive(Debug, Clone, PartialEq, Eq)]
pub struct Url {
    url: String,
    host: String,
    port: String,
    path: String,
    searchpart: String,
}

impl View for Url {
    type V = UrlV;

    closed spec fn view(&self) -> UrlV {
        UrlV {
            url: self.url@,
            host: self.host@,
            port: self.port@,
            path: self.path@,
            searchpart: self.searchpart@,
        }
    }
}

impl Url {
    /// A URL holding the given text, with no components extracted yet.
    pub fn new(url: String) -> (r: Self)
        ensures
            r@.url == url@,
            r@.host == Seq::<char>::empty(),
            r@.port == Seq::<char>::empty(),
            r@.path == Seq::<char>::empty(),
            r@.searchpart == Seq::<char>::empty(),
    {
        Self {
            url,
            host: String::new(),
            port: String::new(),
            path: String::new(),
            searchpart: String::new(),
        }
    }

    /// The URL's text.
    pub fn host(&self) -> (r: String)
        ensures
            r@ == self@.host,
    {
        self.host.clone()
    }

    /// The extracted port.
    pub fn port(&self) -> (r: String)
        ensures
            r@ == self@.port,
    {
        self.port.clone()
    }

    /// The extracted path.
    pub fn path(&self) -> (r: String)
        ensures
            r@ == self@.path,
    {
        self.path.clone()
    }

    /// The extracted search part.
    pub fn searchpart(&self) -> (r: String)
        ensures
            r@ == self@.searchpart,
    {
        self.searchpart.clone()
    }

    /// Parses the URL: with the accepted scheme present, the components
    /// are extracted and a copy of the parsed URL is handed back; any
    /// other text is rejected unchanged.
    pub fn parse(&mut self) -> (r: Result<Url, String>)
        ensures
            ({
                let s = old(self)@.url;
                if has_scheme(s) {
                    &&& r is Ok
                    &&& final(self)@ == (UrlV {
                        url: s,
                        host: host_of(s),
                        port: port_of(s),
                        path: path_of(s),
                        searchpart: searchpart_of(s),
                    })
                    &&& r->Ok_0@ == final(self)@
                } else {
                    &&& r is Err
                    &&& r->Err_0@ == "Only HTTP scheme is supported."@
                    &&& *final(self) == *old(self)
                }
            }),
    {
        if !self.is_http() {
            return Err("Only HTTP scheme is supported.".to_owned());
        }
        self.host = self.extract_host();
        self.port = self.extract_port();
        self.path = self.extract_path();
        self.searchpart = self.extract_searchpart();
        Ok(
            Url {
                url: self.url.clone(),
                host: self.host.clone(),
                port: self.port.clone(),
                path: self.path.clone(),
                searchpart: self.searchpart.clone(),
            },
        )
    }

    /// Whether the text contains the accepted scheme.
    fn is_http(&self) -> (r: bool)
        ensures
            r == has_scheme(self@.url),
    {
        let cs = chars_of(self.url.as_str());
        let n = cs.len();
        if n < 7 {
            proof {
                assert(!has_scheme(self@.url));
            }
            return false;
        }
        let mut i: usize = 0;
        while i <= n - 7
            invariant
                7 <= n == self@.url.len(),
                cs@ == self@.url,
                i <= n - 7 + 1,
                forall|k: int| 0 <= k < i ==> #[trigger] self@.url.subrange(k, k + 7) != scheme_seq(),
            decreases n - i,
        {
            if scheme_matches_at(&cs, i) {
                proof {
                    assert(has_scheme(self@.url));
                }
                return true;
            }
            i = i + 1;
        }
        proof {
            assert(!has_scheme(self@.url));
        }
        false
    }

    /// The trimmed text, as characters.
    fn trimmed(&self) -> (v: Vec<char>)
        ensures
            v@ == trim_scheme(self@.url),
    {
        let cs = chars_of(self.url.as_str());
        let n = cs.len();
        let mut start: usize = 0;
        proof {
            assert(cs@.subrange(0, n as int) =~= cs@);
        }
        while n - start >= 7 && scheme_matches_at(&cs, start)
            invariant
                n == cs@.len(),
                cs@ == self@.url,
                start <= n,
                trim_scheme(self@.url) == trim_scheme(cs@.subrange(start as int, n as int)),
            decreases n - start,
        {
            proof {
                let t = cs@.subrange(start as int, n as int);
                assert(t.subrange(0, 7) =~= cs@.subrange(start as int, start + 7 as int));
                assert(t.subrange(7, t.len() as int) =~= cs@.subrange(start + 7 as int, n as int));
            }
            start = start + 7;
        }
        proof {
            let t = cs@.subrange(start as int, n as int);
            if n - start >= 7 {
                assert(t.subrange(0, 7) =~= cs@.subrange(start as int, start + 7 as int));
                assert(trim_scheme(t) == t);
            } else {
                assert(t.len() < 7);
                assert(trim_scheme(t) == t);
            }
        }
        let mut v: Vec<char> = Vec::new();
        let mut i: usize = start;
        while i < n
            invariant
                start <= i <= n,
                n == cs@.len(),
                v@ == cs@.subrange(start as int, i as int),
            decreases n - i,
        {
            v.push(cs[i]);
            proof {
                assert(v@ =~= cs@.subrange(start as int, i + 1 as int));
            }
            i = i + 1;
        }
        proof {
            assert(v@ =~= cs@.subrange(start as int, n as int));
        }
        v
    }

    fn extract_host(&self) -> (r: String)
        ensures
            r@ == host_of(self@.url),
    {
        let t = self.trimmed();
        let a = take_until(&t, 0, '/');
        let h = take_until(&a, 0, ':');
        string_from_chars(&h)
    }

    fn extract_port(&self) -> (r: String)
        ensures
            r@ == port_of(self@.url),
    {
        let t = self.trimmed();
        let a = take_until(&t, 0, '/');
        match find_char(&a, 0, ':') {
            None => "80".to_owned(),
            Some(i) => {
                let n2 = a.len();
                assert(i < n2);
                let p = take_from(&a, i + 1);
                string_from_chars(&p)
            },
        }
    }

    fn extract_path(&self) -> (r: String)
        ensures
            r@ == path_of(self@.url),
    {
        let t = self.trimmed();
        match find_char(&t, 0, '/') {
            None => String::new(),
            Some(i) => {
                let n2 = t.len();
                assert(i < n2);
                let rest = take_from(&t, i + 1);
                let p = take_until(&rest, 0, '?');
                string_from_chars(&p)
            },
        }
    }

    fn extract_searchpart(&self) -> (r: String)
        ensures
            r@ == searchpart_of(self@.url),
    {
        let t = self.trimmed();
        match find_char(&t, 0, '/') {
            None => String::new(),
            Some(i) => {
                let n2 = t.len();
                assert(i < n2);
                let rest = take_from(&t, i + 1);
                match find_char(&rest, 0, '?') {
                    None => String::new(),
                    Some(j) => {
                        let n3 = rest.len();
                        assert(j < n3);
                        let q = take_from(&rest, j + 1);
                        string_from_chars(&q)
                    },
                }
            },
        }
    }
}

/// Whether the scheme prefix occurs at position `i`.
fn scheme_matches_at(cs: &Vec<char>, i: usize) -> (r: bool)
    requires
        i + 7 <= cs@.len(),
    ensures
        r == (cs@.subrange(i as int, i + 7 as int) == scheme_seq()),
{
    let n = cs.len();
    assert(i + 7 <= n);
    let hit = cs[i] == 'h' && cs[i + 1] == 't' && cs[i + 2] == 't' && cs[i + 3] == 'p' && cs[i + 4]
        == ':' && cs[i + 5] == '/' && cs[i + 6] == '/';
    proof {
        reveal_strlit("http://");
        if hit {
            assert(cs@.subrange(i as int, i + 7 as int) =~= scheme_seq());
        } else {
            assert(cs@.subrange(i as int, i + 7 as int) != scheme_seq()) by {
                let sub = cs@.subrange(i as int, i + 7 as int);
                if sub == scheme_seq() {
                    assert(sub[0] == 'h' && sub[1] == 't' && sub[2] == 't' && sub[3] == 'p'
                        && sub[4] == ':' && sub[5] == '/' && sub[6] == '/');
                }
            }
        }
    }
    hit
}

/// The least index at or after `from` holding `c`, if any.
fn find_char(v: &Vec<char>, from: usize, c: char) -> (r: Option<usize>)
    requires
        from <= v@.len(),
    ensures
        (match r {
            Some(i) => find_at(v@, c, from as int) == Some(i as int) && from <= i < v@.len(),
            None => find_at(v@, c, from as int) is None,
        }),
{
    let mut i: usize = from;
    while i < v.len()
        invariant
            from <= i <= v@.len(),
            find_at(v@, c, from as int) == find_at(v@, c, i as int),
        decreases v@.len() - i,
    {
        if v[i] == c {
            return Some(i);
        }
        i = i + 1;
    }
    None
}

/// The characters before the first occurrence of `c` at or after `from`
/// (all of them when `c` does not occur).
fn take_until(v: &Vec<char>, from: usize, c: char) -> (r: Vec<char>)
    requires
        from == 0,
    ensures
        r@ == (match find_at(v@, c, 0) {
            None => v@,
            Some(i) => v@.subrange(0, i),
        }),
{
    match find_char(v, from, c) {
        None => {
            let r = copy_range(v, 0, v.len());
            proof {
                assert(r@ =~= v@);
            }
            r
        },
        Some(i) => copy_range(v, 0, i),
    }
}

/// The characters from `from` to the end.
fn take_from(v: &Vec<char>, from: usize) -> (r: Vec<char>)
    requires
        from <= v@.len(),
    ensures
        r@ == v@.subrange(from as int, v@.len() as int),
{
    copy_range(v, from, v.len())
}

/// The characters of the half-open range.
fn copy_range(v: &Vec<char>, from: usize, to: usize) -> (r: Vec<char>)
    requires
        from <= to <= v@.len(),
    ensures
        r@ == v@.subrange(from as int, to as int),
{
    let mut r: Vec<char> = Vec::new();
    let mut i: usize = from;
    while i < to
        invariant
            from <= i <= to <= v@.len(),
            r@ == v@.subrange(from as int, i as int),
        decreases to - i,
    {
        r.push(v[i]);
        proof {
            assert(r@ =~= v@.subrange(from as int, i + 1 as int));
        }
        i = i + 1;
    }
    proof {
        assert(r@ =~= v@.subrange(from as int, to as int));
    }
    r
}

} // verus!
