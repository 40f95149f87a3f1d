use vstd::prelude::*;

use crate::error::Error;
use crate::error::ErrorKind;
use crate::error::OhmResult;

verus! {

/// Path to an asset: a scheme and a path, as in `file:images/a.png`.
#[derive(Debug, Clone)]
pub struct AssetPath {
    url: String,
    scheme_len: usize,
}

impl AssetPath {
    /// The whole `scheme:path` string.
    pub closed spec fn s_url(&self) -> Seq<char> {
        self.url@
    }

    /// Index of the colon separating scheme from path.
    pub closed spec fn s_scheme_len(&self) -> int {
        self.scheme_len as int
    }

    /// A well-formed path holds a colon at `s_scheme_len`, and none before.
    pub open spec fn wf(&self) -> bool {
        &&& 0 <= self.s_scheme_len() < self.s_url().len()
        &&& self.s_url()[self.s_scheme_len()] == ':'
        &&& forall|j: int| 0 <= j < self.s_scheme_len() ==> self.s_url()[j] != ':'
    }

    /// An [`AssetPath`] from a `scheme:path` string, split at the first colon.
    pub fn new(url: String) -> (p: AssetPath)
        requires
            exists|i: int| 0 <= i < url@.len() && url@[i] == ':',
        ensures
            p.wf(),
            p.s_url() == url@,
    {
        let n: usize = url.as_str().unicode_len();
        let mut i: usize = 0;
        loop
            invariant
                i <= n,
                n == url@.len(),
                exists|k: int| 0 <= k < url@.len() && url@[k] == ':',
                forall|j: int| 0 <= j < i ==> url@[j] != ':',
            decreases n - i,
        {
            if i == n {
                proof {
                    let k = choose|k: int| 0 <= k < url@.len() && url@[k] == ':';
                    assert(url@[k] != ':');
                    assert(false);
                }
            }
            if url.as_str().get_char(i) == ':' {
                return AssetPath { url, scheme_len: i };
            }
            i = i + 1;
        }
    }

    /// The part before the colon.
    pub fn scheme(&self) -> (s: &str)
        requires
            self.wf(),
        ensures
            s@ == self.s_url().subrange(0, self.s_scheme_len()),
    {
        self.url.as_str().substring_char(0, self.scheme_len)
    }

    /// The part after the colon.
    pub fn path(&self) -> (s: &str)
        requires
            self.wf(),
        ensures
            s@ == self.s_url().subrange(self.s_scheme_len() + 1, self.s_url().len() as int),
    {
        let n: usize = self.url.as_str().unicode_len();
        self.url.as_str().substring_char(self.scheme_len + 1, n)
    }

    /// Whether `d` indexes the extension dot of `u`: a dot in the path's
    /// last segment, not segment-initial, with characters after it and no
    /// later dot.
    pub open spec fn s_is_ext_dot(u: Seq<char>, k: int, d: int) -> bool {
        &&& k < d < u.len()
        &&& u[d] == '.'
        &&& d + 1 < u.len()
        &&& d != k + 1
        &&& u[d - 1] != '/'
        &&& forall|j: int| d < j < u.len() ==> u[j] != '/' && u[j] != '.'
    }

    /// The extension of the path's last segment: what follows the final
    /// dot, unless that dot starts the segment or ends the path.
    pub fn extension(&self) -> (r: Option<String>)
        ensures
            r matches Some(ext) ==> exists|d: int|
                #[trigger] Self::s_is_ext_dot(self.s_url(), self.s_scheme_len(), d) && ext@
                    == self.s_url().subrange(d + 1, self.s_url().len() as int),
            r is None ==> forall|d: int|
                !#[trigger] Self::s_is_ext_dot(self.s_url(), self.s_scheme_len(), d),
    {
        let n: usize = self.url.as_str().unicode_len();
        if self.scheme_len >= n || self.scheme_len + 1 >= n {
            proof {
                assert forall|d: int| !#[trigger] Self::s_is_ext_dot(
                    self.s_url(),
                    self.s_scheme_len(),
                    d,
                ) by {}
            }
            return None;
        }
        let mut j: usize = n;
        while j > self.scheme_len + 1
            invariant
                self.s_scheme_len() + 1 < n,
                n == self.s_url().len(),
                self.s_scheme_len() + 1 <= j <= n,
                forall|jj: int|
                    j <= jj < n ==> (#[trigger] self.s_url()[jj]) != '/' && self.s_url()[jj]
                        != '.',
            decreases j,
        {
            let c: char = self.url.as_str().get_char(j - 1);
            if c == '/' {
                proof {
                    assert forall|d: int| !#[trigger] Self::s_is_ext_dot(
                        self.s_url(),
                        self.s_scheme_len(),
                        d,
                    ) by {
                        if j <= d < n {
                            assert(self.s_url()[d] != '.');
                        }
                    }
                }
                return None;
            }
            if c == '.' {
                let d: usize = j - 1;
                let valid: bool = d + 1 < n && d != self.scheme_len + 1 && self.url.as_str().get_char(d - 1) != '/';
                proof {
                    assert forall|d2: int|
                        d2 != d && #[trigger] Self::s_is_ext_dot(
                            self.s_url(),
                            self.s_scheme_len(),
                            d2,
                        ) implies false by {
                        if d2 > d {
                            assert(self.s_url()[d2] != '.');
                        } else {
                            assert(self.s_url()[d as int] != '.' && self.s_url()[d as int]
                                != '/');
                        }
                    }
                }
                if valid {
                    let sub: &str = self.url.as_str().substring_char(d + 1, n);
                    proof {
                        assert(Self::s_is_ext_dot(self.s_url(), self.s_scheme_len(), d as int));
                    }
                    return Some(String::from_str(sub));
                } else {
                    proof {
                        assert(!Self::s_is_ext_dot(self.s_url(), self.s_scheme_len(), d as int));
                        assert forall|d2: int| !#[trigger] Self::s_is_ext_dot(
                            self.s_url(),
                            self.s_scheme_len(),
                            d2,
                        ) by {}
                    }
                    return None;
                }
            }
            j = j - 1;
        }
        proof {
            assert forall|d: int| !#[trigger] Self::s_is_ext_dot(
                self.s_url(),
                self.s_scheme_len(),
                d,
            ) by {
                if self.s_scheme_len() + 1 <= d < n {
                    assert(self.s_url()[d] != '.');
                }
            }
        }
        None
    }

    /// The whole `scheme:path` string.
    pub fn url(&self) -> (s: &String)
        ensures
            s@ == self.s_url(),
    {
        &self.url
    }

    /// A copy borrowed from this one.
    pub fn as_borrowed(&self) -> (p: AssetPath)
        ensures
            p.s_url() == self.s_url(),
            p.s_scheme_len() == self.s_scheme_len(),
            p.wf() == self.wf(),
    {
        AssetPath { url: self.url.clone(), scheme_len: self.scheme_len }
    }

    /// This path as an owned value.
    pub fn into_owned(self) -> (p: AssetPath)
        ensures
            p == self,
    {
        self
    }
}

/// A source of raw asset bytes, implemented by the embedding application.
pub trait AssetSource {
    /// Loads the raw bytes at `path`.
    fn load(&self, path: &AssetPath) -> OhmResult<Vec<u8>>;
}

/// Routes loads to registered sources by path scheme.
pub struct AssetSources {
    sources: Vec<(String, Box<dyn AssetSource>)>,
}

impl AssetSources {
    /// The registered schemes, in registration order.
    pub closed spec fn schemes(&self) -> Seq<Seq<char>> {
        self.sources@.map_values(|p: (String, Box<dyn AssetSource>)| p.0@)
    }

    pub fn new() -> (r: AssetSources)
        ensures
            r.schemes() == Seq::<Seq<char>>::empty(),
    {
        AssetSources { sources: Vec::new() }
    }

    fn push_pair(&mut self, pair: (String, Box<dyn AssetSource>))
        ensures
            final(self).schemes() == old(self).schemes().push(pair.0@),
    {
        self.sources.push(pair);
        proof {
            assert(self.schemes() =~= old(self).schemes().push(
                self.sources@.last().0@,
            ));
        }
    }

    /// Registers a source for a scheme. A source registered earlier for the
    /// same scheme stops being found, since lookup prefers later entries.
    /// What the boxed source does is its implementor's; only the scheme
    /// bookkeeping is stated.
    pub fn add_source(&mut self, scheme: String, source: Box<dyn AssetSource>)
        ensures
            final(self).schemes() == old(self).schemes().push(scheme@),
    {
        self.push_pair((scheme, source));
    }

    /// The most recently registered source for `scheme`, if any.
    pub fn find_source(&self, scheme: &str) -> (r: Option<&Box<dyn AssetSource>>)
        ensures
            r is Some <==> self.schemes().contains(scheme@),
    {
        let mut i: usize = self.sources.len();
        while i > 0
            invariant
                i <= self.schemes().len(),
                forall|j: int| i <= j < self.schemes().len() ==> self.schemes()[j] != scheme@,
            decreases i,
        {
            i = i - 1;
            if str_eq(self.sources[i].0.as_str(), scheme) {
                proof {
                    assert(self.schemes()[i as int] == scheme@);
                }
                return Some(&self.sources[i].1);
            }
        }
        proof {
            assert(forall|j: int| 0 <= j < self.schemes().len() ==> self.schemes()[j] != scheme@);
        }
        None
    }

    /// Loads through the source registered for the path's scheme; with none,
    /// fails with `InvalidPath`.
    pub fn load(&self, path: &AssetPath) -> (r: OhmResult<Vec<u8>>)
        requires
            path.wf(),
        ensures
            !self.schemes().contains(
                path.s_url().subrange(0, path.s_scheme_len()),
            ) ==> r is Err && (r matches Err(e) ==> e.kind == ErrorKind::InvalidPath),
    {
        let scheme: &str = path.scheme();
        match self.find_source(scheme) {
            Some(source) => source.load(path),
            None => Err(Error::new(ErrorKind::InvalidPath, String::from_str("unknown scheme"))),
        }
    }
}

/// Whether two string slices hold the same characters.
pub fn str_eq(a: &str, b: &str) -> (r: bool)
    ensures
        r == (a@ == b@),
{
    let na: usize = a.unicode_len();
    let nb: usize = b.unicode_len();
    if na != nb {
        proof {
            assert(a@.len() != b@.len());
        }
        return false;
    }
    let mut i: usize = 0;
    while i < na
        invariant
            i <= na,
            na == a@.len(),
            na == b@.len(),
            forall|j: int| 0 <= j < i ==> a@[j] == b@[j],
        decreases na - i,
    {
        if a.get_char(i) != b.get_char(i) {
            return false;
        }
        i = i + 1;
    }
    proof {
        assert(a@ =~= b@);
    }
    true
}

} // verus!
