//! The publisher clause of an identifier: `pkg://publisher/...`.
use vstd::prelude::*;

use crate::error::FmriError;
use crate::helpers::{
    chars_of, check_character_collision, contains_pattern, contains_seq, find_char, first_index,
    fmri_prefix, fmri_prefix_chars, lemma_first_index, matches_at, remove_first_and_last_characters,
    push_char, starts_with, string_of, sub_chars, trim_char, strip_prefix, strip_prefix_len,
};

verus! {

/// `pkg://`, which opens an identifier that names its publisher.
pub open spec fn scheme() -> Seq<char> {
    seq!['p', 'k', 'g', ':', '/', '/']
}

pub fn scheme_chars() -> (r: Vec<char>)
    ensures
        r@ == scheme(),
{
    let r = vec!['p', 'k', 'g', ':', '/', '/'];
    assert(r@ =~= scheme());
    r
}

/// A publisher text: refused when it holds `@`, else stripped of its
/// leading and trailing slashes.
pub open spec fn parse_publisher(t: Seq<char>) -> Result<Seq<char>, FmriError> {
    if t.contains('@') {
        Err(FmriError::InvalidCharacter)
    } else {
        Ok(trim_char(t, '/'))
    }
}

/// The publisher clause of a raw identifier, once a leading `fmri=` is
/// stripped: the text between the opening `pkg://` and the next `/`.
///
/// `None` when `pkg://` does not occur; an error when it occurs anywhere but
/// at the start, when no `/` follows the publisher, or when the publisher is
/// empty.
pub open spec fn parse_publisher_raw(raw: Seq<char>) -> Result<Option<Seq<char>>, FmriError> {
    let b = strip_prefix(raw, fmri_prefix());
    if !contains_seq(b, scheme()) {
        Ok(None)
    } else if !starts_with(b, scheme()) {
        Err(FmriError::MalformedPublisherClause)
    } else {
        let rest = strip_prefix(b, scheme());
        let q = first_index(rest, '/');
        if q == rest.len() || q == 0 {
            Err(FmriError::MalformedPublisherClause)
        } else {
            match parse_publisher(rest.take(q)) {
                Ok(p) => Ok(Some(p)),
                Err(e) => Err(e),
            }
        }
    }
}

/// [`Publisher`] names where a package comes from: the `publisher` of
/// `pkg://publisher/...`. An identifier written `pkg:/...` has none.
#[derive(Debug, Clone, Eq, PartialOrd, Ord, Hash)]
pub struct Publisher(String);

impl View for Publisher {
    type V = Seq<char>;

    closed spec fn view(&self) -> Seq<char> {
        self.0@
    }
}

impl Publisher {
    /// Makes a publisher of `publisher`, stripped of its leading and
    /// trailing slashes; refuses one that holds `@`.
    pub fn new(publisher: String) -> (r: Result<Publisher, FmriError>)
        ensures
            match r {
                Ok(p) => parse_publisher(publisher@) == Ok::<Seq<char>, FmriError>(p@),
                Err(e) => parse_publisher(publisher@) == Err::<Seq<char>, FmriError>(e),
            },
    {
        match check_character_collision(publisher.as_str()) {
            Err(e) => Err(e),
            Ok(()) => Ok(Publisher(remove_first_and_last_characters(publisher.as_str(), '/'))),
        }
    }

    /// Parses the publisher of a raw identifier; `None` when it has none.
    pub fn parse_publisher_from_raw_fmri(raw_fmri: String) -> (r: Result<Option<Publisher>, FmriError>)
        ensures
            match r {
                Ok(None) => parse_publisher_raw(raw_fmri@) == Ok::<Option<Seq<char>>, FmriError>(None),
                Ok(Some(p)) => parse_publisher_raw(raw_fmri@) == Ok::<Option<Seq<char>>, FmriError>(Some(p@)),
                Err(e) => parse_publisher_raw(raw_fmri@) == Err::<Option<Seq<char>>, FmriError>(e),
            },
    {
        let cs = chars_of(raw_fmri.as_str());
        let k = strip_prefix_len(&cs, &fmri_prefix_chars());
        let b = sub_chars(&cs, k, cs.len());
        assert(b@ =~= cs@.skip(k as int));
        let sch = scheme_chars();
        if !contains_pattern(&b, &sch) {
            return Ok(None);
        }
        if !matches_at(&b, 0, &sch) {
            return Err(FmriError::MalformedPublisherClause);
        }
        let j = strip_prefix_len(&b, &sch);
        let rest = sub_chars(&b, j, b.len());
        assert(rest@ =~= b@.skip(j as int));
        let q = find_char(&rest, '/');
        proof {
            lemma_first_index(rest@, '/');
        }
        if q == rest.len() || q == 0 {
            return Err(FmriError::MalformedPublisherClause);
        }
        let text = string_of(&rest, 0, q);
        assert(text@ =~= rest@.take(q as int));
        match Publisher::new(text) {
            Ok(p) => Ok(Some(p)),
            Err(e) => Err(e),
        }
    }

    /// Renders the publisher clause, `pkg://publisher/`.
    pub fn as_string(&self) -> (r: String)
        ensures
            r@ == scheme() + self@ + seq!['/'],
    {
        let sch = scheme_chars();
        let mut out = string_of(&sch, 0, sch.len());
        assert(sch@.subrange(0, sch@.len() as int) =~= sch@);
        out.append(self.0.as_str());
        push_char(&mut out, '/');
        out
    }

    pub fn get_as_string(self) -> (r: String)
        ensures
            r@ == self@,
    {
        self.0
    }

    pub fn get_as_ref_string(&self) -> (r: &String)
        ensures
            r@ == self@,
    {
        &self.0
    }

    pub fn get_as_ref_mut_string(&mut self) -> (r: &mut String)
        ensures
            r@ == old(self)@,
            final(self)@ == final(r)@,
    {
        &mut self.0
    }
}

impl PartialEq for Publisher {
    fn eq(&self, other: &Self) -> (r: bool) {
        self.0.eq(&other.0)
    }
}

impl vstd::std_specs::cmp::PartialEqSpecImpl for Publisher {
    open spec fn obeys_eq_spec() -> bool {
        true
    }

    open spec fn eq_spec(&self, other: &Publisher) -> bool {
        self@ == other@
    }
}

} // verus!
