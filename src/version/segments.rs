//! One slot of a version: component, build, branch or timestamp.
use vstd::prelude::*;

use crate::error::FmriError;
use crate::helpers::{chars_of, find_char, first_index, push_char, string_of};
use crate::version::segment::{parse_segment, segment_text, Segment};

verus! {

/// What a slot holds, as plain values.
pub enum Slot {
    Component(Seq<i32>),
    Build(Seq<i32>),
    Branch(Seq<i32>),
    Timestamp(Seq<char>),
    Absent,
}

/// The characters that end a slot's text.
pub open spec fn is_delimiter(c: char) -> bool {
    c == ',' || c == '-' || c == ':'
}

/// The characters that introduce a slot.
pub open spec fn is_marker(c: char) -> bool {
    c == '@' || is_delimiter(c)
}

/// Index of the first delimiter in `s`, or `s.len()` when there is none.
pub open spec fn slot_end(s: Seq<char>) -> int
    decreases s.len(),
{
    if s.len() == 0 {
        0
    } else if is_delimiter(s[0]) {
        0
    } else {
        1 + slot_end(s.drop_first())
    }
}

/// The text of the slot that `m` introduces in `v`: what follows the first
/// `m`, up to the next delimiter.
pub open spec fn slot_text(v: Seq<char>, m: char) -> Seq<char> {
    let rest = v.skip(first_index(v, m) + 1);
    rest.take(slot_end(rest))
}

/// The slot that the marker `m` introduces in the version text `v`.
pub open spec fn extract_slot(v: Seq<char>, m: char) -> Result<Slot, FmriError> {
    if !is_marker(m) || first_index(v, m) == v.len() {
        Ok(Slot::Absent)
    } else if m == ':' {
        Ok(Slot::Timestamp(slot_text(v, m)))
    } else {
        match parse_segment(slot_text(v, m)) {
            None => Err(FmriError::InvalidSegment),
            Some(seg) => Ok(
                if m == '@' {
                    Slot::Component(seg)
                } else if m == ',' {
                    Slot::Build(seg)
                } else {
                    Slot::Branch(seg)
                },
            ),
        }
    }
}

pub proof fn lemma_slot_end(s: Seq<char>)
    ensures
        0 <= slot_end(s) <= s.len(),
        forall|j: int| 0 <= j < slot_end(s) ==> !is_delimiter(#[trigger] s[j]),
        slot_end(s) < s.len() ==> is_delimiter(s[slot_end(s)]),
    decreases s.len(),
{
    if s.len() > 0 && !is_delimiter(s[0]) {
        let t = s.drop_first();
        lemma_slot_end(t);
        assert forall|j: int| 0 <= j < slot_end(s) implies !is_delimiter(#[trigger] s[j]) by {
            if j > 0 {
                assert(s[j] == t[j - 1]);
            }
        }
    }
}

proof fn lemma_slot_end_at(s: Seq<char>, i: int)
    requires
        0 <= i <= s.len(),
        forall|j: int| 0 <= j < i ==> !is_delimiter(#[trigger] s[j]),
        i < s.len() ==> is_delimiter(s[i]),
    ensures
        slot_end(s) == i,
    decreases s.len(),
{
    if s.len() > 0 && i > 0 {
        let t = s.drop_first();
        assert forall|j: int| 0 <= j < i - 1 implies !is_delimiter(#[trigger] t[j]) by {
            assert(t[j] == s[j + 1]);
        }
        lemma_slot_end_at(t, i - 1);
    }
}

/// [`Segments`] tells which slot of a version a piece of text fills:
/// `@1.2.3`, `,5.11`, `-2023.0.0.5`, `:20171212T185746Z`.
#[derive(Debug, Clone, Eq, Hash)]
pub enum Segments {
    /// after '@'
    ComponentVersion(Segment),
    /// after ','
    BuildVersion(Segment),
    /// after '-'
    BranchVersion(Segment),
    /// after ':'
    Timestamp(String),
    /// the slot is not present
    Absent,
}

impl View for Segments {
    type V = Slot;

    open spec fn view(&self) -> Slot {
        match self {
            Segments::ComponentVersion(s) => Slot::Component(s@),
            Segments::BuildVersion(s) => Slot::Build(s@),
            Segments::BranchVersion(s) => Slot::Branch(s@),
            Segments::Timestamp(t) => Slot::Timestamp(t@),
            Segments::Absent => Slot::Absent,
        }
    }
}

/// Position of the first delimiter at or after `from`, or `s.len()`.
fn find_delimiter(s: &Vec<char>, from: usize) -> (r: usize)
    requires
        from <= s.len(),
    ensures
        from <= r <= s.len(),
        r - from == slot_end(s@.skip(from as int)),
{
    let mut i: usize = from;
    while i < s.len()
        invariant
            from <= i <= s.len(),
            forall|j: int| from <= j < i ==> !is_delimiter(#[trigger] s@[j]),
        ensures
            from <= i <= s.len(),
            forall|j: int| from <= j < i ==> !is_delimiter(#[trigger] s@[j]),
            i < s.len() ==> is_delimiter(s@[i as int]),
        decreases s.len() - i,
    {
        let c = s[i];
        if c == ',' || c == '-' || c == ':' {
            break;
        }
        i += 1;
    }
    proof {
        let t = s@.skip(from as int);
        assert forall|j: int| 0 <= j < i - from implies !is_delimiter(#[trigger] t[j]) by {
            assert(t[j] == s@[from + j]);
        }
        lemma_slot_end_at(t, i - from);
    }
    i
}

impl Segments {
    /// Takes from the version text `string` the slot that
    /// `segment_starts_with` introduces (`@`, `,`, `-` or `:`).
    ///
    /// The slot is `Absent` when the marker does not occur. Otherwise its text
    /// runs from the marker to the next `,`, `-` or `:`; for a component, build
    /// or branch it must be a dotted run of integers, else the result is
    /// `InvalidSegment`. A timestamp is kept as it stands.
    pub fn get_segment_from_string(string: String, segment_starts_with: char) -> (r: Result<
        Segments,
        FmriError,
    >)
        ensures
            match r {
                Ok(seg) => extract_slot(string@, segment_starts_with) == Ok::<Slot, FmriError>(seg@),
                Err(e) => extract_slot(string@, segment_starts_with) == Err::<Slot, FmriError>(e),
            },
    {
        let m = segment_starts_with;
        if !(m == '@' || m == ',' || m == '-' || m == ':') {
            return Ok(Segments::Absent);
        }
        let cs = chars_of(string.as_str());
        let p = find_char(&cs, m);
        proof {
            crate::helpers::lemma_first_index(cs@, m);
        }
        if p == cs.len() {
            return Ok(Segments::Absent);
        }
        let end = find_delimiter(&cs, p + 1);
        let text = string_of(&cs, p + 1, end);
        proof {
            let rest = cs@.skip(p + 1);
            assert(rest.take(slot_end(rest)) =~= cs@.subrange(p + 1, end as int));
        }
        if m == ':' {
            return Ok(Segments::Timestamp(text));
        }
        match Segment::from_string(text.as_str()) {
            Err(e) => Err(e),
            Ok(seg) => {
                if m == '@' {
                    Ok(Segments::ComponentVersion(seg))
                } else if m == ',' {
                    Ok(Segments::BuildVersion(seg))
                } else {
                    Ok(Segments::BranchVersion(seg))
                }
            },
        }
    }

    /// Renders the slot with its marker (`,5.11`); nothing for `Absent`.
    pub fn as_string(&self) -> (r: String)
        ensures
            r@ == slot_render(self@),
    {
        let mut out = String::new();
        match self {
            Segments::ComponentVersion(s) => {
                push_char(&mut out, '@');
                out.append(s.as_string().as_str());
            },
            Segments::BuildVersion(s) => {
                push_char(&mut out, ',');
                out.append(s.as_string().as_str());
            },
            Segments::BranchVersion(s) => {
                push_char(&mut out, '-');
                out.append(s.as_string().as_str());
            },
            Segments::Timestamp(t) => {
                push_char(&mut out, ':');
                out.append(t.as_str());
            },
            Segments::Absent => {},
        }
        out
    }
}

/// A slot as text, with its marker.
pub open spec fn slot_render(s: Slot) -> Seq<char> {
    match s {
        Slot::Component(v) => seq!['@'] + segment_text(v),
        Slot::Build(v) => seq![','] + segment_text(v),
        Slot::Branch(v) => seq!['-'] + segment_text(v),
        Slot::Timestamp(t) => seq![':'] + t,
        Slot::Absent => Seq::empty(),
    }
}

impl PartialEq for Segments {
    fn eq(&self, other: &Self) -> (r: bool) {
        match (self, other) {
            (Segments::ComponentVersion(a), Segments::ComponentVersion(b)) => a.eq(b),
            (Segments::BuildVersion(a), Segments::BuildVersion(b)) => a.eq(b),
            (Segments::BranchVersion(a), Segments::BranchVersion(b)) => a.eq(b),
            (Segments::Timestamp(a), Segments::Timestamp(b)) => a.eq(b),
            (Segments::Absent, Segments::Absent) => true,
            _ => false,
        }
    }
}

impl vstd::std_specs::cmp::PartialEqSpecImpl for Segments {
    open spec fn obeys_eq_spec() -> bool {
        true
    }

    open spec fn eq_spec(&self, other: &Segments) -> bool {
        self@ == other@
    }
}

} // verus!
