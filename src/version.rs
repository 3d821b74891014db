//! The version clause of an identifier: `@component,build-branch:timestamp`.
use std::cmp::Ordering;

use vstd::prelude::*;

use crate::compare::Compare;
use crate::error::FmriError;
use crate::helpers::{
    chars_of, find_char, first_index, fmri_prefix, fmri_prefix_chars, lemma_first_index,
    push_char, string_of, sub_chars, strip_prefix, strip_prefix_len,
};
use crate::version::segment::{
    cmp_seq, is_digit, lemma_cmp_seq_antisymmetric, lemma_parse_segment_valid,
    lemma_segment_round_trip, lemma_segment_text_chars, segment_text, valid_segment,
};
use crate::version::segments::{
    extract_slot, is_delimiter, lemma_slot_end, slot_end, slot_render, slot_text, Segments, Slot,
};

pub mod segment;
pub mod segments;

verus! {

/// The four slots of a version, as plain values.
pub struct VersionModel {
    pub component: Slot,
    pub build: Slot,
    pub branch: Slot,
    pub timestamp: Slot,
}

/// The version text with a leading `@`, added when it is missing.
pub open spec fn with_at(t: Seq<char>) -> Seq<char> {
    if t.len() > 0 && t[0] == '@' {
        t
    } else {
        seq!['@'] + t
    }
}

/// Parses a version text; the first slot that fails, in the order
/// component, build, branch, timestamp, gives the error.
pub open spec fn parse_version(t: Seq<char>) -> Result<VersionModel, FmriError> {
    let v = with_at(t);
    match (extract_slot(v, '@'), extract_slot(v, ','), extract_slot(v, '-'), extract_slot(v, ':')) {
        (Ok(c), Ok(b), Ok(br), Ok(ts)) => Ok(VersionModel { component: c, build: b, branch: br, timestamp: ts }),
        (Err(e), _, _, _) => Err(e),
        (_, Err(e), _, _) => Err(e),
        (_, _, Err(e), _) => Err(e),
        (_, _, _, Err(e)) => Err(e),
    }
}

/// The version clause of a raw identifier: everything from its first `@`,
/// once a leading `fmri=` is stripped; `None` when there is no `@`.
pub open spec fn parse_version_raw(raw: Seq<char>) -> Result<Option<VersionModel>, FmriError> {
    let b = strip_prefix(raw, fmri_prefix());
    let p = first_index(b, '@');
    if p == b.len() {
        Ok(None)
    } else {
        match parse_version(b.skip(p)) {
            Ok(v) => Ok(Some(v)),
            Err(e) => Err(e),
        }
    }
}

/// One precedence level: decided only when both sides hold that slot.
pub open spec fn cmp_level(a: Slot, b: Slot) -> Ordering {
    match (a, b) {
        (Slot::Component(x), Slot::Component(y)) => cmp_seq(x, y),
        (Slot::Build(x), Slot::Build(y)) => cmp_seq(x, y),
        (Slot::Branch(x), Slot::Branch(y)) => cmp_seq(x, y),
        _ => Ordering::Equal,
    }
}

/// Component, then build, then branch; the first level that is not a tie
/// decides. The timestamp never takes part.
pub open spec fn cmp_version(a: VersionModel, b: VersionModel) -> Ordering {
    let c = cmp_level(a.component, b.component);
    if c != Ordering::Equal {
        c
    } else {
        let d = cmp_level(a.build, b.build);
        if d != Ordering::Equal {
            d
        } else {
            cmp_level(a.branch, b.branch)
        }
    }
}

/// `@component,build-branch:timestamp`, each part only where present.
pub open spec fn version_text(v: VersionModel) -> Seq<char> {
    slot_render(v.component) + slot_render(v.build) + slot_render(v.branch) + slot_render(
        v.timestamp,
    )
}

pub proof fn lemma_cmp_level_reflexive(s: Slot)
    ensures
        cmp_level(s, s) == Ordering::Equal,
{
    match s {
        Slot::Component(x) => lemma_cmp_seq_antisymmetric(x, x),
        Slot::Build(x) => lemma_cmp_seq_antisymmetric(x, x),
        Slot::Branch(x) => lemma_cmp_seq_antisymmetric(x, x),
        _ => {},
    }
}

/// Every version ties with itself.
pub proof fn lemma_cmp_version_reflexive(v: VersionModel)
    ensures
        cmp_version(v, v) == Ordering::Equal,
{
    lemma_cmp_level_reflexive(v.component);
    lemma_cmp_level_reflexive(v.build);
    lemma_cmp_level_reflexive(v.branch);
}

/// No `,`, `-` or `:` in `t`.
pub open spec fn no_delimiter(t: Seq<char>) -> bool {
    forall|j: int| 0 <= j < t.len() ==> !is_delimiter(#[trigger] t[j])
}

/// A version as parsing yields it: a component, optional build and branch,
/// each a valid segment, and an optional timestamp free of delimiters.
pub open spec fn valid_version(v: VersionModel) -> bool {
    &&& (v.component matches Slot::Component(c) && valid_segment(c))
    &&& (v.build is Absent || (v.build matches Slot::Build(b) && valid_segment(b)))
    &&& (v.branch is Absent || (v.branch matches Slot::Branch(b) && valid_segment(b)))
    &&& (v.timestamp is Absent || (v.timestamp matches Slot::Timestamp(t) && no_delimiter(t)))
}

pub proof fn lemma_first_index_concat_lacks(a: Seq<char>, b: Seq<char>, c: char)
    requires
        !a.contains(c),
    ensures
        first_index(a + b, c) == a.len() + first_index(b, c),
    decreases a.len(),
{
    if a.len() > 0 {
        assert(a[0] != c);
        assert((a + b).drop_first() =~= a.drop_first() + b);
        assert(!a.drop_first().contains(c)) by {
            if a.drop_first().contains(c) {
                let k = choose|k: int| 0 <= k < a.drop_first().len() && a.drop_first()[k] == c;
                assert(a[k + 1] == c);
            }
        }
        lemma_first_index_concat_lacks(a.drop_first(), b, c);
    } else {
        assert(a + b =~= b);
    }
}

proof fn lemma_slot_end_concat(a: Seq<char>, b: Seq<char>)
    requires
        no_delimiter(a),
    ensures
        slot_end(a + b) == a.len() + slot_end(b),
    decreases a.len(),
{
    if a.len() > 0 {
        assert(!is_delimiter(a[0]));
        assert((a + b).drop_first() =~= a.drop_first() + b);
        assert(no_delimiter(a.drop_first())) by {
            assert forall|j: int| 0 <= j < a.drop_first().len() implies !is_delimiter(
                #[trigger] a.drop_first()[j],
            ) by {
                assert(a.drop_first()[j] == a[j + 1]);
            }
        }
        lemma_slot_end_concat(a.drop_first(), b);
    } else {
        assert(a + b =~= b);
    }
}

/// The slot introduced by `m` right after `p` runs to the next delimiter.
proof fn lemma_slot_text_at(p: Seq<char>, m: char, x: Seq<char>, q: Seq<char>)
    requires
        !p.contains(m),
        no_delimiter(x),
        q.len() == 0 || is_delimiter(q[0]),
    ensures
        first_index(p + seq![m] + x + q, m) == p.len(),
        slot_text(p + seq![m] + x + q, m) == x,
{
    let v = p + seq![m] + x + q;
    assert(v =~= p + (seq![m] + x + q));
    lemma_first_index_concat_lacks(p, seq![m] + x + q, m);
    assert((seq![m] + x + q)[0] == m);
    assert(v.skip(p.len() as int + 1) =~= x + q);
    lemma_slot_end_concat(x, q);
    assert((x + q).take(x.len() as int) =~= x);
}

pub proof fn lemma_not_contains_concat(a: Seq<char>, b: Seq<char>, c: char)
    requires
        !a.contains(c),
        !b.contains(c),
    ensures
        !(a + b).contains(c),
{
    if (a + b).contains(c) {
        let k = choose|k: int| 0 <= k < (a + b).len() && (a + b)[k] == c;
        if k < a.len() {
            assert(a[k] == c);
        } else {
            assert(b[k - a.len()] == c);
        }
    }
}

proof fn lemma_segment_text_lacks(v: Seq<i32>, c: char)
    requires
        valid_segment(v),
        !is_digit(c),
        c != '.',
    ensures
        !segment_text(v).contains(c),
        no_delimiter(segment_text(v)),
{
    lemma_segment_text_chars(v);
}

/// A slot's rendering lacks `c`, given what the slot may hold.
proof fn lemma_slot_render_lacks(s: Slot, c: char)
    requires
        !is_digit(c),
        c != '.',
        match s {
            Slot::Component(v) => valid_segment(v) && c != '@',
            Slot::Build(v) => valid_segment(v) && c != ',',
            Slot::Branch(v) => valid_segment(v) && c != '-',
            Slot::Timestamp(t) => no_delimiter(t) && c != ':' && is_delimiter(c),
            Slot::Absent => true,
        },
    ensures
        !slot_render(s).contains(c),
{
    match s {
        Slot::Component(v) => {
            lemma_segment_text_lacks(v, c);
            lemma_not_contains_concat(seq!['@'], segment_text(v), c);
        },
        Slot::Build(v) => {
            lemma_segment_text_lacks(v, c);
            lemma_not_contains_concat(seq![','], segment_text(v), c);
        },
        Slot::Branch(v) => {
            lemma_segment_text_lacks(v, c);
            lemma_not_contains_concat(seq!['-'], segment_text(v), c);
        },
        Slot::Timestamp(t) => {
            assert(!t.contains(c)) by {
                if t.contains(c) {
                    let k = choose|k: int| 0 <= k < t.len() && t[k] == c;
                    assert(!is_delimiter(t[k]));
                }
            }
            lemma_not_contains_concat(seq![':'], t, c);
        },
        Slot::Absent => {},
    }
}

proof fn lemma_tail_starts_with_delimiter(v: VersionModel, from_build: bool, from_branch: bool)
    requires
        valid_version(v),
    ensures
        from_build ==> ({
            let q = slot_render(v.build) + slot_render(v.branch) + slot_render(v.timestamp);
            q.len() == 0 || is_delimiter(q[0])
        }),
        from_branch ==> ({
            let q = slot_render(v.branch) + slot_render(v.timestamp);
            q.len() == 0 || is_delimiter(q[0])
        }),
{
    let rb = slot_render(v.build);
    let rbr = slot_render(v.branch);
    let rt = slot_render(v.timestamp);
    assert(rb.len() == 0 || rb[0] == ',');
    assert(rbr.len() == 0 || rbr[0] == '-');
    assert(rt.len() == 0 || rt[0] == ':');
    if rb.len() > 0 {
        assert((rb + rbr + rt)[0] == rb[0]);
    } else if rbr.len() > 0 {
        assert((rb + rbr + rt)[0] == rbr[0]);
    } else if rt.len() > 0 {
        assert((rb + rbr + rt)[0] == rt[0]);
    }
    if rbr.len() > 0 {
        assert((rbr + rt)[0] == rbr[0]);
    } else if rt.len() > 0 {
        assert((rbr + rt)[0] == rt[0]);
    }
}

/// Rendering a valid version and parsing the text again gives it back.
#[verifier::rlimit(60)]
pub proof fn lemma_version_round_trip(v: VersionModel)
    requires
        valid_version(v),
    ensures
        parse_version(version_text(v)) == Ok::<VersionModel, FmriError>(v),
{
    let rc = slot_render(v.component);
    let rb = slot_render(v.build);
    let rbr = slot_render(v.branch);
    let rt = slot_render(v.timestamp);
    let vt = version_text(v);
    let c = v.component->Component_0;
    lemma_tail_starts_with_delimiter(v, true, true);
    assert(with_at(vt) == vt) by {
        assert(vt[0] == rc[0]);
    }
    // component
    lemma_segment_text_lacks(c, ',');
    lemma_segment_round_trip(c);
    assert(vt =~= Seq::<char>::empty() + seq!['@'] + segment_text(c) + (rb + rbr + rt));
    lemma_slot_text_at(Seq::<char>::empty(), '@', segment_text(c), rb + rbr + rt);
    assert(extract_slot(vt, '@') == Ok::<Slot, FmriError>(v.component));
    // build
    lemma_slot_render_lacks(v.component, ',');
    lemma_slot_render_lacks(v.branch, ',');
    lemma_slot_render_lacks(v.timestamp, ',');
    if let Slot::Build(b) = v.build {
        lemma_segment_text_lacks(b, ',');
        lemma_segment_round_trip(b);
        assert(vt =~= rc + seq![','] + segment_text(b) + (rbr + rt));
        lemma_slot_text_at(rc, ',', segment_text(b), rbr + rt);
    } else {
        lemma_not_contains_concat(rc, rbr, ',');
        lemma_not_contains_concat(rc + rbr, rt, ',');
        assert(vt =~= rc + rbr + rt);
        lemma_first_index(vt, ',');
    }
    assert(extract_slot(vt, ',') == Ok::<Slot, FmriError>(v.build));
    // branch
    lemma_slot_render_lacks(v.component, '-');
    lemma_slot_render_lacks(v.build, '-');
    lemma_slot_render_lacks(v.timestamp, '-');
    lemma_not_contains_concat(rc, rb, '-');
    if let Slot::Branch(b) = v.branch {
        lemma_segment_text_lacks(b, '-');
        lemma_segment_round_trip(b);
        assert(vt =~= (rc + rb) + seq!['-'] + segment_text(b) + rt);
        lemma_slot_text_at(rc + rb, '-', segment_text(b), rt);
    } else {
        lemma_not_contains_concat(rc + rb, rt, '-');
        assert(vt =~= rc + rb + rt);
        lemma_first_index(vt, '-');
    }
    assert(extract_slot(vt, '-') == Ok::<Slot, FmriError>(v.branch));
    // timestamp
    lemma_slot_render_lacks(v.component, ':');
    lemma_slot_render_lacks(v.build, ':');
    lemma_slot_render_lacks(v.branch, ':');
    lemma_not_contains_concat(rc, rb, ':');
    lemma_not_contains_concat(rc + rb, rbr, ':');
    if let Slot::Timestamp(t) = v.timestamp {
        assert(vt =~= (rc + rb + rbr) + seq![':'] + t + Seq::<char>::empty());
        lemma_slot_text_at(rc + rb + rbr, ':', t, Seq::<char>::empty());
    } else {
        assert(vt =~= rc + rb + rbr);
        lemma_first_index(vt, ':');
    }
    assert(extract_slot(vt, ':') == Ok::<Slot, FmriError>(v.timestamp));
}

proof fn lemma_slot_text_no_delimiter(v: Seq<char>, m: char)
    ensures
        no_delimiter(slot_text(v, m)),
{
    let rest = v.skip(first_index(v, m) + 1);
    lemma_slot_end(rest);
    let t = slot_text(v, m);
    assert forall|j: int| 0 <= j < t.len() implies !is_delimiter(#[trigger] t[j]) by {
        assert(t[j] == rest[j]);
    }
}

/// What parsing yields is a valid version.
pub proof fn lemma_parse_version_valid(t: Seq<char>)
    requires
        parse_version(t) is Ok,
    ensures
        valid_version(parse_version(t)->Ok_0),
{
    let w = with_at(t);
    assert(w[0] == '@');
    assert(first_index(w, '@') == 0);
    lemma_first_index(w, ',');
    lemma_first_index(w, '-');
    if let Ok(Slot::Component(c)) = extract_slot(w, '@') {
        lemma_parse_segment_valid(slot_text(w, '@'));
    }
    if let Ok(Slot::Build(c)) = extract_slot(w, ',') {
        lemma_parse_segment_valid(slot_text(w, ','));
    }
    if let Ok(Slot::Branch(c)) = extract_slot(w, '-') {
        lemma_parse_segment_valid(slot_text(w, '-'));
    }
    lemma_slot_text_no_delimiter(w, ':');
}

/// [`Version`] is the part of an identifier after `@`, such as
/// `2.1.1,5.11-2017.0.0.0:20171212T185746Z`, `2.1.1-2017.0.0.0` or `2-2`.
#[derive(Debug, Clone, Eq, Hash)]
pub struct Version {
    component_version: Segments,
    /// Build_version is optional
    build_version: Segments,
    /// Branch_version is optional
    branch_version: Segments,
    /// Timestamp is optional
    timestamp: Segments,
}

impl View for Version {
    type V = VersionModel;

    closed spec fn view(&self) -> VersionModel {
        VersionModel {
            component: self.component_version@,
            build: self.build_version@,
            branch: self.branch_version@,
            timestamp: self.timestamp@,
        }
    }
}

fn level(a: &Segments, b: &Segments) -> (r: Ordering)
    ensures
        r == cmp_level(a@, b@),
{
    match (a, b) {
        (Segments::ComponentVersion(x), Segments::ComponentVersion(y)) => x.compare(y),
        (Segments::BuildVersion(x), Segments::BuildVersion(y)) => x.compare(y),
        (Segments::BranchVersion(x), Segments::BranchVersion(y)) => x.compare(y),
        _ => Ordering::Equal,
    }
}

impl Version {
    /// Parses `"@2.1.1,5.11-2017.0.0.0:20171212T185746Z"`; the leading `@`
    /// may be left out.
    pub fn new(version: String) -> (r: Result<Version, FmriError>)
        ensures
            match r {
                Ok(v) => parse_version(version@) == Ok::<VersionModel, FmriError>(v@)
                    && valid_version(v@),
                Err(e) => parse_version(version@) == Err::<VersionModel, FmriError>(e),
            },
    {
        let cs = chars_of(version.as_str());
        let text = if cs.len() > 0 && cs[0] == '@' {
            version
        } else {
            let mut t = String::new();
            push_char(&mut t, '@');
            t.append(version.as_str());
            t
        };
        assert(text@ == with_at(version@));
        let component_version = match Segments::get_segment_from_string(text.clone(), '@') {
            Ok(s) => s,
            Err(e) => return Err(e),
        };
        let build_version = match Segments::get_segment_from_string(text.clone(), ',') {
            Ok(s) => s,
            Err(e) => return Err(e),
        };
        let branch_version = match Segments::get_segment_from_string(text.clone(), '-') {
            Ok(s) => s,
            Err(e) => return Err(e),
        };
        let timestamp = match Segments::get_segment_from_string(text, ':') {
            Ok(s) => s,
            Err(e) => return Err(e),
        };
        let v = Version { component_version, build_version, branch_version, timestamp };
        proof {
            lemma_parse_version_valid(version@);
        }
        Ok(v)
    }

    /// Parses the version clause of a raw identifier; `None` when it has no
    /// `@`.
    pub fn parse_version_from_raw_fmri(raw_fmri: String) -> (r: Result<Option<Version>, FmriError>)
        ensures
            match r {
                Ok(None) => parse_version_raw(raw_fmri@) == Ok::<Option<VersionModel>, FmriError>(None),
                Ok(Some(v)) => parse_version_raw(raw_fmri@) == Ok::<Option<VersionModel>, FmriError>(Some(v@))
                    && valid_version(v@),
                Err(e) => parse_version_raw(raw_fmri@) == Err::<Option<VersionModel>, FmriError>(e),
            },
    {
        let cs = chars_of(raw_fmri.as_str());
        let k = strip_prefix_len(&cs, &fmri_prefix_chars());
        let b = sub_chars(&cs, k, cs.len());
        assert(b@ =~= cs@.skip(k as int));
        let p = find_char(&b, '@');
        proof {
            lemma_first_index(b@, '@');
        }
        if p == b.len() {
            return Ok(None);
        }
        let text = string_of(&b, p, b.len());
        assert(text@ =~= b@.skip(p as int));
        match Version::new(text) {
            Ok(v) => Ok(Some(v)),
            Err(e) => Err(e),
        }
    }

    /// Renders the version as `@component,build-branch:timestamp`.
    pub fn as_string(&self) -> (r: String)
        ensures
            r@ == version_text(self@),
    {
        let mut out = self.component_version.as_string();
        out.append(self.build_version.as_string().as_str());
        out.append(self.branch_version.as_string().as_str());
        out.append(self.timestamp.as_string().as_str());
        out
    }
}

impl Compare for Version {
    open spec fn compare_spec(&self, other: &Self) -> Ordering {
        cmp_version(self@, other@)
    }

    fn compare(&self, comparing_to: &Self) -> (r: Ordering) {
        let c = level(&self.component_version, &comparing_to.component_version);
        match c {
            Ordering::Equal => {},
            _ => return c,
        }
        let d = level(&self.build_version, &comparing_to.build_version);
        match d {
            Ordering::Equal => {},
            _ => return d,
        }
        level(&self.branch_version, &comparing_to.branch_version)
    }
}

impl PartialEq for Version {
    fn eq(&self, other: &Self) -> (r: bool) {
        self.component_version.eq(&other.component_version) && self.build_version.eq(
            &other.build_version,
        ) && self.branch_version.eq(&other.branch_version) && self.timestamp.eq(&other.timestamp)
    }
}

impl vstd::std_specs::cmp::PartialEqSpecImpl for Version {
    open spec fn obeys_eq_spec() -> bool {
        true
    }

    open spec fn eq_spec(&self, other: &Version) -> bool {
        self@ == other@
    }
}

impl PartialOrd for Version {
    fn partial_cmp(&self, other: &Self) -> (r: Option<Ordering>) {
        Some(self.compare(other))
    }
}

impl vstd::std_specs::cmp::PartialOrdSpecImpl for Version {
    open spec fn obeys_partial_cmp_spec() -> bool {
        true
    }

    open spec fn partial_cmp_spec(&self, other: &Version) -> Option<Ordering> {
        Some(cmp_version(self@, other@))
    }
}

} // verus!
