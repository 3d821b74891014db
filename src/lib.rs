//! Package identifiers of the form
//! `pkg://publisher/package_name@component,build-branch:timestamp`: parsing,
//! rendering, and ordering by recency.
use std::cmp::Ordering;

use vstd::prelude::*;

use crate::compare::Compare;
use crate::error::FmriError;
use crate::helpers::{
    after_char, before_char, chars_of, check_character_collision, find_char, fmri_prefix,
    fmri_prefix_chars, lemma_first_index, push_char, remove_first_and_last_characters, string_of,
    sub_chars, trim_char, strip_prefix, strip_prefix_len,
};
use crate::publisher::{parse_publisher_raw, scheme, scheme_chars};
use crate::round_trip::{lemma_parse_fmri_valid, valid_fmri};
use crate::version::{cmp_version, parse_version_raw, version_text, VersionModel};

pub use self::{fmri_list::FMRIList, publisher::Publisher, version::Version};

pub mod compare;
pub mod error;
pub mod fmri_list;
pub mod helpers;
pub mod publisher;
pub mod round_trip;
pub mod version;

verus! {

/// An identifier as plain values.
pub struct FmriModel {
    pub publisher: Option<Seq<char>>,
    pub package_name: Seq<char>,
    pub version: Option<VersionModel>,
}

/// `pkg:/`, which opens an identifier without a publisher.
pub open spec fn bare_scheme() -> Seq<char> {
    seq!['p', 'k', 'g', ':', '/']
}

pub fn bare_scheme_chars() -> (r: Vec<char>)
    ensures
        r@ == bare_scheme(),
{
    let r = vec!['p', 'k', 'g', ':', '/'];
    assert(r@ =~= bare_scheme());
    r
}

/// A package name: refused when it holds `@` or is empty once its leading
/// and trailing slashes are stripped.
pub open spec fn parse_package_name(t: Seq<char>) -> Result<Seq<char>, FmriError> {
    if t.contains('@') {
        Err(FmriError::InvalidCharacter)
    } else if trim_char(t, '/').len() == 0 {
        Err(FmriError::EmptyPackageName)
    } else {
        Ok(trim_char(t, '/'))
    }
}

/// The text that stands for the package name in a raw identifier: what
/// follows the publisher clause (or a leading `pkg:/`), cut at the first `@`
/// when there is a version.
pub open spec fn name_candidate(raw: Seq<char>, has_publisher: bool, has_version: bool) -> Seq<char> {
    let body = strip_prefix(raw, fmri_prefix());
    let name = if has_publisher {
        after_char(strip_prefix(body, scheme()), '/')
    } else {
        strip_prefix(body, bare_scheme())
    };
    if has_version {
        before_char(name, '@')
    } else {
        name
    }
}

/// Parses a raw identifier: publisher, then version, then package name; the
/// first of them that fails gives the error.
pub open spec fn parse_fmri(raw: Seq<char>) -> Result<FmriModel, FmriError> {
    match parse_publisher_raw(raw) {
        Err(e) => Err(e),
        Ok(p) => match parse_version_raw(raw) {
            Err(e) => Err(e),
            Ok(v) => match parse_package_name(name_candidate(raw, p is Some, v is Some)) {
                Err(e) => Err(e),
                Ok(n) => Ok(FmriModel { publisher: p, package_name: n, version: v }),
            },
        },
    }
}

/// `pkg://publisher/name@version`, or `pkg:/name@version` without a
/// publisher; the version only where there is one.
pub open spec fn fmri_text(f: FmriModel) -> Seq<char> {
    let head = match f.publisher {
        Some(p) => scheme() + p + seq!['/'],
        None => bare_scheme(),
    };
    head + f.package_name + version_tail(f.version)
}

/// The rendered version, or nothing.
pub open spec fn version_tail(v: Option<VersionModel>) -> Seq<char> {
    match v {
        Some(w) => version_text(w),
        None => Seq::empty(),
    }
}

/// Identifiers are ordered by their versions alone; a missing version ties.
pub open spec fn cmp_fmri(a: FmriModel, b: FmriModel) -> Ordering {
    match (a.version, b.version) {
        (Some(x), Some(y)) => cmp_version(x, y),
        _ => Ordering::Equal,
    }
}

pub open spec fn publisher_view(p: Option<Publisher>) -> Option<Seq<char>> {
    match p {
        Some(q) => Some(q@),
        None => None,
    }
}

pub open spec fn version_view(v: Option<Version>) -> Option<VersionModel> {
    match v {
        Some(w) => Some(w@),
        None => None,
    }
}

/// [`FMRI`] names a package, for instance `pkg:/audio/audacity`,
/// `pkg:/audio/audacity@2.3.2,5.11-2022.0.0.1`,
/// `pkg://solaris/system/library` or
/// `pkg://solaris/system/library@0.5.11-0.175.1.0.0.2.1:20120919T082311Z`.
#[derive(Debug, Clone, Eq, Hash)]
pub struct FMRI {
    /// Publisher is optional
    publisher: Option<Publisher>,
    package_name: String,
    /// Version is optional
    version: Option<Version>,
}

impl View for FMRI {
    type V = FmriModel;

    closed spec fn view(&self) -> FmriModel {
        FmriModel {
            publisher: publisher_view(self.publisher),
            package_name: self.package_name@,
            version: version_view(self.version),
        }
    }
}

impl FMRI {
    /// Makes an identifier with the given package name and neither publisher
    /// nor version.
    pub fn new_from_package_name(package_name: String) -> (r: Result<FMRI, FmriError>)
        ensures
            match r {
                Ok(f) => parse_package_name(package_name@) == Ok::<Seq<char>, FmriError>(f@.package_name)
                    && f@.publisher is None && f@.version is None,
                Err(e) => parse_package_name(package_name@) == Err::<Seq<char>, FmriError>(e),
            },
    {
        match check_character_collision(package_name.as_str()) {
            Err(e) => return Err(e),
            Ok(()) => {},
        }
        let name = remove_first_and_last_characters(package_name.as_str(), '/');
        if name.as_str().unicode_len() == 0 {
            return Err(FmriError::EmptyPackageName);
        }
        Ok(FMRI { publisher: None, package_name: name, version: None })
    }

    /// Parses a raw identifier such as `fmri=pkg://publisher/test@1-1:20220913T082027Z`.
    pub fn parse_raw(raw_fmri: &str) -> (r: Result<FMRI, FmriError>)
        ensures
            match r {
                Ok(f) => parse_fmri(raw_fmri@) == Ok::<FmriModel, FmriError>(f@) && valid_fmri(f@),
                Err(e) => parse_fmri(raw_fmri@) == Err::<FmriModel, FmriError>(e),
            },
    {
        let cs = chars_of(raw_fmri);
        let k = strip_prefix_len(&cs, &fmri_prefix_chars());
        let body = sub_chars(&cs, k, cs.len());
        assert(body@ =~= cs@.skip(k as int));
        let publisher = match Publisher::parse_publisher_from_raw_fmri(raw_fmri.to_owned()) {
            Err(e) => return Err(e),
            Ok(p) => p,
        };
        let name = match &publisher {
            None => {
                let j = strip_prefix_len(&body, &bare_scheme_chars());
                let rest = sub_chars(&body, j, body.len());
                assert(rest@ =~= body@.skip(j as int));
                rest
            },
            Some(_) => {
                let j = strip_prefix_len(&body, &scheme_chars());
                let rest = sub_chars(&body, j, body.len());
                assert(rest@ =~= body@.skip(j as int));
                let q = find_char(&rest, '/');
                proof {
                    lemma_first_index(rest@, '/');
                }
                if q == rest.len() {
                    return Err(FmriError::MalformedPublisherClause);
                }
                let after = sub_chars(&rest, q + 1, rest.len());
                assert(after@ =~= rest@.skip(q + 1));
                after
            },
        };
        let version = match Version::parse_version_from_raw_fmri(raw_fmri.to_owned()) {
            Err(e) => return Err(e),
            Ok(v) => v,
        };
        let name = match &version {
            None => name,
            Some(_) => {
                let q = find_char(&name, '@');
                proof {
                    lemma_first_index(name@, '@');
                }
                let before = sub_chars(&name, 0, q);
                assert(before@ =~= name@.take(q as int));
                before
            },
        };
        assert(name@.subrange(0, name@.len() as int) =~= name@);
        assert(name@ == name_candidate(raw_fmri@, publisher is Some, version is Some));
        let mut fmri = match FMRI::new_from_package_name(string_of(&name, 0, name.len())) {
            Err(e) => return Err(e),
            Ok(f) => f,
        };
        fmri.publisher = publisher;
        fmri.version = version;
        proof {
            lemma_parse_fmri_valid(raw_fmri@);
        }
        Ok(fmri)
    }

    /// Whether both identifiers name the same package, whatever their
    /// publishers and versions.
    pub fn package_name_eq(&self, comparing_to: &FMRI) -> (r: bool)
        ensures
            r == (self@.package_name == comparing_to@.package_name),
    {
        self.package_name.eq(&comparing_to.package_name)
    }

    pub fn get_package_name_as_string(self) -> (r: String)
        ensures
            r@ == self@.package_name,
    {
        self.package_name
    }

    pub fn get_package_name_as_ref_string(&self) -> (r: &String)
        ensures
            r@ == self@.package_name,
    {
        &self.package_name
    }

    pub fn get_package_name_as_ref_mut_string(&mut self) -> (r: &mut String)
        ensures
            r@ == old(self)@.package_name,
            final(self)@ == (FmriModel { package_name: final(r)@, ..old(self)@ }),
    {
        &mut self.package_name
    }

    pub fn get_publisher(self) -> (r: Option<Publisher>)
        ensures
            publisher_view(r) == self@.publisher,
    {
        self.publisher
    }

    pub fn get_publisher_ref(&self) -> (r: &Option<Publisher>)
        ensures
            publisher_view(*r) == self@.publisher,
    {
        &self.publisher
    }

    pub fn get_publisher_ref_mut(&mut self) -> (r: &mut Option<Publisher>)
        ensures
            publisher_view(*r) == old(self)@.publisher,
            final(self)@ == (FmriModel { publisher: publisher_view(*final(r)), ..old(self)@ }),
    {
        &mut self.publisher
    }

    pub fn has_publisher(&self) -> (r: bool)
        ensures
            r == self@.publisher is Some,
    {
        self.publisher.is_some()
    }

    pub fn change_publisher(&mut self, publisher: Publisher)
        ensures
            final(self)@ == (FmriModel { publisher: Some(publisher@), ..old(self)@ }),
    {
        self.publisher = Some(publisher);
    }

    /// The publisher's name; `None` when there is no publisher.
    pub fn get_publisher_as_ref_string(&self) -> (r: Option<&String>)
        ensures
            match r {
                Some(s) => self@.publisher == Some(s@),
                None => self@.publisher is None,
            },
    {
        match &self.publisher {
            Some(p) => Some(p.get_as_ref_string()),
            None => None,
        }
    }

    pub fn remove_publisher(&mut self)
        ensures
            final(self)@ == (FmriModel { publisher: None, ..old(self)@ }),
    {
        self.publisher = None;
    }

    pub fn get_version(self) -> (r: Option<Version>)
        ensures
            version_view(r) == self@.version,
    {
        self.version
    }

    pub fn get_version_ref(&self) -> (r: &Option<Version>)
        ensures
            version_view(*r) == self@.version,
    {
        &self.version
    }

    pub fn get_version_ref_mut(&mut self) -> (r: &mut Option<Version>)
        ensures
            version_view(*r) == old(self)@.version,
            final(self)@ == (FmriModel { version: version_view(*final(r)), ..old(self)@ }),
    {
        &mut self.version
    }

    pub fn has_version(&self) -> (r: bool)
        ensures
            r == self@.version is Some,
    {
        self.version.is_some()
    }

    pub fn change_version(&mut self, version: Version)
        ensures
            final(self)@ == (FmriModel { version: Some(version@), ..old(self)@ }),
    {
        self.version = Some(version);
    }

    /// The rendered version (`@1.2,5.11-0.1:20220913T082027Z`); `None` when
    /// there is no version.
    pub fn get_version_as_string(&self) -> (r: Option<String>)
        ensures
            match r {
                Some(s) => self@.version matches Some(v) && s@ == version_text(v),
                None => self@.version is None,
            },
    {
        match &self.version {
            Some(v) => Some(v.as_string()),
            None => None,
        }
    }

    pub fn remove_version(&mut self) -> (r: &mut FMRI)
        ensures
            r@ == (FmriModel { version: None, ..old(self)@ }),
            final(self)@ == final(r)@,
    {
        self.version = None;
        self
    }

    /// Renders the identifier: `pkg://publisher/name@version`, or
    /// `pkg:/name@version` without a publisher.
    pub fn as_string(&self) -> (r: String)
        ensures
            r@ == fmri_text(self@),
    {
        let mut out = String::new();
        match &self.publisher {
            Some(p) => {
                let sch = scheme_chars();
                out.append(string_of(&sch, 0, sch.len()).as_str());
                out.append(p.get_as_ref_string().as_str());
                push_char(&mut out, '/');
                proof {
                    assert(sch@.subrange(0, sch@.len() as int) =~= sch@);
                }
            },
            None => {
                let sch = bare_scheme_chars();
                out.append(string_of(&sch, 0, sch.len()).as_str());
                proof {
                    assert(sch@.subrange(0, sch@.len() as int) =~= sch@);
                }
            },
        }
        out.append(self.package_name.as_str());
        match &self.version {
            Some(v) => out.append(v.as_string().as_str()),
            None => {},
        }
        proof {
            assert(out@ =~= fmri_text(self@));
        }
        out
    }
}

impl Compare for FMRI {
    open spec fn compare_spec(&self, other: &Self) -> Ordering {
        cmp_fmri(self@, other@)
    }

    fn compare(&self, comparing_to: &Self) -> (r: Ordering) {
        match (&self.version, &comparing_to.version) {
            (Some(a), Some(b)) => a.compare(b),
            _ => Ordering::Equal,
        }
    }
}

impl PartialEq for FMRI {
    fn eq(&self, other: &Self) -> (r: bool) {
        let p = match (&self.publisher, &other.publisher) {
            (Some(a), Some(b)) => a.eq(b),
            (None, None) => true,
            _ => false,
        };
        let v = match (&self.version, &other.version) {
            (Some(a), Some(b)) => a.eq(b),
            (None, None) => true,
            _ => false,
        };
        p && self.package_name.eq(&other.package_name) && v
    }
}

impl vstd::std_specs::cmp::PartialEqSpecImpl for FMRI {
    open spec fn obeys_eq_spec() -> bool {
        true
    }

    open spec fn eq_spec(&self, other: &FMRI) -> bool {
        self@ == other@
    }
}

impl PartialOrd for FMRI {
    fn partial_cmp(&self, other: &Self) -> (r: Option<Ordering>) {
        Some(self.compare(other))
    }
}

impl vstd::std_specs::cmp::PartialOrdSpecImpl for FMRI {
    open spec fn obeys_partial_cmp_spec() -> bool {
        true
    }

    open spec fn partial_cmp_spec(&self, other: &FMRI) -> Option<Ordering> {
        Some(cmp_fmri(self@, other@))
    }
}

/// Identity and order are independent: two identifiers with equal versions
/// compare as `Equal`, while `package_name_eq` still tells them apart when
/// their package names differ.
pub proof fn lemma_identity_independent_of_order(a: FMRI, b: FMRI)
    requires
        a@.version == b@.version,
        a@.package_name != b@.package_name,
    ensures
        a.compare_spec(&b) == Ordering::Equal,
        a@.package_name != b@.package_name,
{
    if let Some(v) = a@.version {
        crate::version::lemma_cmp_version_reflexive(v);
    }
}

} // verus!
