//! The packages that a document refers to: their names, and what to ask of
//! the sources in order to load them.

use vstd::prelude::*;
use vstd::string::*;
use crate::doc_ref::DocRef;
use crate::item::{ExternalCrate, ItemSummary};
use crate::navigator::Navigator;
use crate::rustdoc_data::RustdocData;
use crate::text::{chars_of, string_of};

verus! {

/// The error of semver.
#[verifier::external_type_specification]
#[verifier::external_body]
pub struct ExSemverError(semver::Error);

/// What `semver::VersionReq::parse` makes of a text, written out again by
/// the requirement's `Display`; `None` where the text is no version
/// requirement.
pub uninterp spec fn requirement_text(text: Seq<char>) -> Option<Seq<char>>;

/// `semver::VersionReq::parse` of semver, with the requirement that it
/// gives written out as text.
#[verifier::external_body]
fn parse_requirement(text: &str) -> (r: Result<String, semver::Error>)
    ensures
        match r {
            Ok(req) => requirement_text(text@) == Some(req@),
            Err(_) => requirement_text(text@) is None,
        },
{
    match semver::VersionReq::parse(text) {
        Ok(req) => Ok(req.to_string()),
        Err(e) => Err(e),
    }
}

/// The requirement that any version meets, as text.
pub open spec fn any_version() -> Seq<char> {
    "*"@
}

/// The requirement for exactly `version`, as text; the requirement that
/// any version meets where `=version` is no requirement.
pub open spec fn exact_or_any(version: Seq<char>) -> Seq<char> {
    match requirement_text(seq!['='] + version) {
        Some(req) => req,
        None => any_version(),
    }
}

/// The version requirement for exactly `version`, or the requirement that
/// any version meets where `version` cannot be required exactly.
pub fn exact_requirement(version: &str) -> (r: String)
    ensures
        r@ == exact_or_any(version@),
{
    proof {
        reveal_strlit("=");
        assert("="@ =~= seq!['=']);
    }
    let mut text = String::from_str("=");
    text.append(version);
    match parse_requirement(text.as_str()) {
        Ok(req) => req,
        Err(_) => String::from_str("*"),
    }
}

/// The beginning of the address of a package's pages at the registry's
/// documentation host.
pub open spec fn docsrs_prefix() -> Seq<char> {
    "https://docs.rs/"@
}

/// The position of the first `/` of `s` at or after `from`, or the length
/// of `s` where there is none.
pub open spec fn next_slash(s: Seq<char>, from: int) -> int
    decreases s.len() - from,
{
    if from < 0 || from >= s.len() {
        s.len() as int
    } else if s[from] == '/' {
        from
    } else {
        next_slash(s, from + 1)
    }
}

/// The name and the version that an address at the documentation host
/// names: behind the host, the text up to the first `/` and the text from
/// there to the next `/` or to the end. Any other address names nothing.
pub open spec fn docsrs_parts(url: Seq<char>) -> Option<(Seq<char>, Seq<char>)> {
    let prefix = docsrs_prefix();
    if url.len() >= prefix.len() && url.take(prefix.len() as int) == prefix {
        let rest = url.skip(prefix.len() as int);
        let a = next_slash(rest, 0);
        if a < rest.len() {
            Some((rest.take(a), rest.subrange(a + 1, next_slash(rest, a + 1))))
        } else {
            None
        }
    } else {
        None
    }
}

/// The position found by `next_slash` lies between `from` and the end.
proof fn lemma_next_slash_bounds(s: Seq<char>, from: int)
    requires
        0 <= from <= s.len(),
    ensures
        from <= next_slash(s, from) <= s.len(),
    decreases s.len() - from,
{
    if from < s.len() && s[from] != '/' {
        lemma_next_slash_bounds(s, from + 1);
    }
}

/// Finds the first `/` of `chars[base..]` at or after `base + from`, as a
/// position within `chars[base..]`.
fn find_slash(chars: &Vec<char>, base: usize, from: usize) -> (at: usize)
    requires
        base <= chars.len(),
        from <= chars.len() - base,
    ensures
        at == next_slash(chars@.skip(base as int), from as int),
        from <= at <= chars.len() - base,
{
    let ghost rest = chars@.skip(base as int);
    proof {
        lemma_next_slash_bounds(rest, from as int);
    }
    let n = chars.len() - base;
    let mut i: usize = from;
    while i < n
        invariant
            n == chars.len() - base,
            base <= chars.len(),
            rest == chars@.skip(base as int),
            from <= i <= n,
            next_slash(rest, from as int) == next_slash(rest, i as int),
        decreases n - i,
    {
        assert(rest[i as int] == chars@[base + i]);
        if chars[base + i] == '/' {
            return i;
        }
        i += 1;
    }
    n
}

/// Reads the name and the version of a package off the address of its
/// pages at the documentation host.
pub fn parse_docsrs_url(url: &str) -> (r: Option<(String, String)>)
    ensures
        match r {
            Some((name, version)) => docsrs_parts(url@) == Some((name@, version@)),
            None => docsrs_parts(url@) is None,
        },
{
    let chars = chars_of(url);
    let prefix = chars_of("https://docs.rs/");
    let p = prefix.len();
    if chars.len() < p {
        return None;
    }
    let mut i: usize = 0;
    while i < p
        invariant
            p == prefix.len(),
            p <= chars.len(),
            i <= p,
            chars@ == url@,
            prefix@ == docsrs_prefix(),
            forall|k: int| 0 <= k < i ==> chars@[k] == prefix@[k],
        decreases p - i,
    {
        if chars[i] != prefix[i] {
            assert(url@.take(p as int)[i as int] != prefix@[i as int]);
            return None;
        }
        i += 1;
    }
    assert(url@.take(p as int) =~= docsrs_prefix());
    let ghost rest = url@.skip(p as int);
    let a = find_slash(&chars, p, 0);
    if a >= chars.len() - p {
        return None;
    }
    let b = find_slash(&chars, p, a + 1);
    let name = string_of(&chars, p, p + a);
    let version = string_of(&chars, p + a + 1, p + b);
    assert(chars@.subrange(p as int, p + a) =~= rest.take(a as int));
    assert(chars@.subrange(p + a + 1, p + b) =~= rest.subrange(a + 1, b as int));
    Some((name, version))
}

/// What to ask of the sources in order to load a package.
#[derive(Debug)]
pub struct LoadRequest {
    /// The name of the package.
    pub name: String,
    /// The version requirement, as text.
    pub version_req: String,
}

/// The name of an external package: the one that the address of its pages
/// names, else the one that the document gives it.
pub open spec fn external_name(krate: ExternalCrate) -> Seq<char> {
    match krate.html_root_url {
        Some(url) => match docsrs_parts(url@) {
            Some((name, _)) => name,
            None => krate.name@,
        },
        None => krate.name@,
    }
}

/// The version requirement for an external package: exactly the version
/// that the address of its pages names, else any.
pub open spec fn external_requirement(krate: ExternalCrate) -> Seq<char> {
    match krate.html_root_url {
        Some(url) => match docsrs_parts(url@) {
            Some((_, version)) => exact_or_any(version),
            None => any_version(),
        },
        None => any_version(),
    }
}

impl ExternalCrate {
    /// The name under which the registry is asked for this package.
    pub fn canonical_name(&self) -> (r: String)
        ensures
            r@ == external_name(*self),
    {
        if let Some(url) = &self.html_root_url {
            if let Some((name, _)) = parse_docsrs_url(url.as_str()) {
                return name;
            }
        }
        self.name.clone()
    }

    /// What to ask of the sources in order to load this package.
    pub fn load_request(&self) -> (r: LoadRequest)
        ensures
            r.name@ == external_name(*self),
            r.version_req@ == external_requirement(*self),
    {
        if let Some(url) = &self.html_root_url {
            if let Some((name, version)) = parse_docsrs_url(url.as_str()) {
                return LoadRequest { name, version_req: exact_requirement(version.as_str()) };
            }
        }
        LoadRequest { name: self.name.clone(), version_req: String::from_str("*") }
    }
}

impl<'a> DocRef<'a, ItemSummary> {
    /// The external package that this path summary refers to, if any.
    /// A summary of the document's own package, numbered 0, refers to none.
    pub fn external_crate(&self) -> (r: Option<DocRef<'a, ExternalCrate>>)
        ensures
            match r {
                Some(e) => self.item.crate_id != 0 && self.crate_docs.external_of(
                    self.item.crate_id,
                ) == Some(*e.item) && e.crate_docs == self.crate_docs && e.navigator
                    == self.navigator,
                None => self.item.crate_id == 0 || self.crate_docs.external_of(self.item.crate_id)
                    is None,
            },
    {
        if self.item.crate_id == 0 {
            return None;
        }
        match self.crate_docs.external_crate(self.item.crate_id) {
            Some(external) => Some(self.build_ref(external)),
            None => None,
        }
    }
}

impl<'a> DocRef<'a, ExternalCrate> {
    /// The name under which the registry holds this external package: the
    /// one that the address of its pages names, else its own.
    pub fn crate_name(&self) -> (r: String)
        ensures
            r@ == external_name(*self.item),
    {
        self.item.canonical_name()
    }

    /// The document of this external package, if the registry holds it.
    pub fn load(&self) -> (r: Option<&'a RustdocData>)
        ensures
            match r {
                Some(doc) => self.navigator.loaded(external_name(*self.item)) is Some && *doc
                    == self.navigator.docs@[self.navigator.loaded(
                    external_name(*self.item),
                ).unwrap()],
                None => self.navigator.loaded(external_name(*self.item)) is None,
            },
    {
        let name = self.crate_name();
        self.navigator.load_crate(name.as_str())
    }
}

/// The document that the package numbered `id` in the summaries of `doc`
/// lives in: `doc` itself for 0, else the document that the registry holds
/// for the external package of that number.
pub open spec fn crate_by_id(doc: RustdocData, navigator: Navigator, id: u32) -> Option<
    RustdocData,
> {
    if id == 0 {
        Some(doc)
    } else {
        match doc.external_of(id) {
            Some(krate) => match navigator.loaded(external_name(krate)) {
                Some(d) => Some(navigator.docs@[d]),
                None => None,
            },
            None => None,
        }
    }
}

impl RustdocData {
    /// The document of the package that the summaries of this document
    /// number `id`, as far as the registry holds it. 0 always means this
    /// document.
    pub fn traverse_to_crate_by_id<'a>(&'a self, navigator: &'a Navigator, id: u32) -> (r: Option<
        &'a RustdocData,
    >)
        ensures
            match r {
                Some(doc) => crate_by_id(*self, *navigator, id) == Some(*doc),
                None => crate_by_id(*self, *navigator, id) is None,
            },
    {
        if id == 0 {
            // 0 is no external package: it always means this one.
            return Some(self);
        }
        let external = match self.external_crate(id) {
            Some(e) => e,
            None => {
                return None;
            },
        };
        let request = external.load_request();
        navigator.load_crate(request.name.as_str())
    }

    /// What to ask of the sources for the package numbered `id`, where the
    /// document names such a package.
    pub fn load_request_by_id(&self, id: u32) -> (r: Option<LoadRequest>)
        ensures
            match r {
                Some(request) => id != 0 && self.external_of(id) is Some && request.name@
                    == external_name(self.external_of(id).unwrap()) && request.version_req@
                    == external_requirement(self.external_of(id).unwrap()),
                None => id == 0 || self.external_of(id) is None,
            },
    {
        if id == 0 {
            return None;
        }
        match self.external_crate(id) {
            Some(external) => Some(external.load_request()),
            None => None,
        }
    }
}

} // verus!
