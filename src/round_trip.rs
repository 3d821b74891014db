//! Rendering and parsing are inverse: what parsing yields satisfies the
//! invariants of an identifier, and such an identifier, once rendered,
//! parses back to itself.
use vstd::prelude::*;

use crate::error::FmriError;
use crate::helpers::{
    after_char, before_char, contains_seq, first_index, fmri_prefix, is_infix,
    lemma_first_index, lemma_infix_contains_seq, lemma_infix_lacks, lemma_infix_skip_take,
    lemma_infix_trans, lemma_lacks_trimmed, lemma_trim_char, lemma_trim_char_unchanged,
    lemma_strip_prefix_suffix, starts_with, trim_char, strip_prefix,
};
use crate::publisher::{parse_publisher, parse_publisher_raw, scheme};
use crate::version::segment::{is_digit, lemma_segment_text_chars, segment_text, valid_segment};
use crate::version::segments::{is_delimiter, slot_render, Slot};
use crate::version::{
    lemma_first_index_concat_lacks, lemma_not_contains_concat, lemma_parse_version_valid,
    lemma_version_round_trip, parse_version_raw, valid_version, VersionModel,
};
use crate::{
    bare_scheme, fmri_text, name_candidate, parse_fmri, parse_package_name, version_tail,
    FmriModel,
};

verus! {

/// An identifier as parsing yields it.
pub open spec fn valid_fmri(f: FmriModel) -> bool {
    &&& f.package_name.len() > 0
    &&& !f.package_name.contains('@')
    &&& f.package_name[0] != '/'
    &&& f.package_name.last() != '/'
    &&& (f.publisher matches Some(p) ==> p.len() > 0 && !p.contains('/') && !p.contains('@'))
    &&& (f.version matches Some(v) ==> valid_version(v))
    &&& (f.publisher is None ==> !contains_seq(f.package_name, scheme()))
}

proof fn lemma_parsed_publisher_valid(raw: Seq<char>)
    requires
        parse_publisher_raw(raw) matches Ok(Some(_)),
    ensures
        ({
            let pp = parse_publisher_raw(raw)->Ok_0->Some_0;
            pp.len() > 0 && !pp.contains('/') && !pp.contains('@')
        }),
{
    let body = strip_prefix(raw, fmri_prefix());
    let pp = parse_publisher_raw(raw)->Ok_0->Some_0;
    let rest = strip_prefix(body, scheme());
    let q = first_index(rest, '/');
    lemma_first_index(rest, '/');
    let x = rest.take(q);
    assert(!x.contains('/')) by {
        if x.contains('/') {
            let k = choose|k: int| 0 <= k < x.len() && x[k] == '/';
            assert(rest[k] == '/');
        }
    }
    assert(pp == trim_char(x, '/'));
    lemma_lacks_trimmed(x, '/');
}

proof fn lemma_parsed_name_valid(cand: Seq<char>)
    requires
        parse_package_name(cand) is Ok,
    ensures
        ({
            let n = parse_package_name(cand)->Ok_0;
            &&& n.len() > 0
            &&& !n.contains('@')
            &&& n[0] != '/'
            &&& n.last() != '/'
            &&& is_infix(n, cand)
        }),
{
    let n = trim_char(cand, '/');
    lemma_trim_char(cand, '/');
    lemma_infix_lacks(n, cand, '@');
}

proof fn lemma_bare_candidate_infix(raw: Seq<char>, has_version: bool)
    ensures
        is_infix(name_candidate(raw, false, has_version), strip_prefix(raw, fmri_prefix())),
{
    let body = strip_prefix(raw, fmri_prefix());
    let t = strip_prefix(body, bare_scheme());
    lemma_strip_prefix_suffix(body, bare_scheme());
    let k = choose|k: int| 0 <= k <= body.len() && strip_prefix(body, bare_scheme()) == body.skip(k);
    lemma_infix_skip_take(body, k);
    lemma_first_index(t, '@');
    lemma_infix_skip_take(t, first_index(t, '@'));
    if has_version {
        lemma_infix_trans(before_char(t, '@'), t, body);
    }
}

proof fn lemma_parsed_version_valid(raw: Seq<char>)
    requires
        parse_version_raw(raw) matches Ok(Some(_)),
    ensures
        valid_version(parse_version_raw(raw)->Ok_0->Some_0),
{
    let b = strip_prefix(raw, fmri_prefix());
    lemma_parse_version_valid(b.skip(first_index(b, '@')));
}

/// What parsing yields is a valid identifier.
pub proof fn lemma_parse_fmri_valid(raw: Seq<char>)
    requires
        parse_fmri(raw) is Ok,
    ensures
        valid_fmri(parse_fmri(raw)->Ok_0),
{
    let p = parse_publisher_raw(raw)->Ok_0;
    let v = parse_version_raw(raw)->Ok_0;
    let cand = name_candidate(raw, p is Some, v is Some);
    let n = parse_package_name(cand)->Ok_0;
    lemma_parsed_name_valid(cand);
    if p is Some {
        lemma_parsed_publisher_valid(raw);
    } else {
        lemma_bare_candidate_infix(raw, v is Some);
        let body = strip_prefix(raw, fmri_prefix());
        lemma_infix_trans(n, cand, body);
        if contains_seq(n, scheme()) {
            lemma_infix_contains_seq(n, body, scheme());
        }
    }
    if v is Some {
        lemma_parsed_version_valid(raw);
    }
}

/// Characters that `pkg://` does not hold.
pub open spec fn off_scheme(c: char) -> bool {
    is_digit(c) || c == '.' || c == '@' || c == ',' || c == '-'
}

proof fn lemma_numeric_slot_off_scheme(s: Slot)
    requires
        match s {
            Slot::Component(v) => valid_segment(v),
            Slot::Build(v) => valid_segment(v),
            Slot::Branch(v) => valid_segment(v),
            Slot::Timestamp(_) => false,
            Slot::Absent => true,
        },
    ensures
        forall|j: int| 0 <= j < slot_render(s).len() ==> off_scheme(#[trigger] slot_render(s)[j]),
{
    match s {
        Slot::Component(v) => lemma_segment_text_chars(v),
        Slot::Build(v) => lemma_segment_text_chars(v),
        Slot::Branch(v) => lemma_segment_text_chars(v),
        _ => {},
    }
    let r = slot_render(s);
    if let Slot::Component(v) = s {
        assert forall|j: int| 0 <= j < r.len() implies off_scheme(#[trigger] r[j]) by {
            if j > 0 {
                assert(r[j] == segment_text(v)[j - 1]);
            }
        }
    }
    if let Slot::Build(v) = s {
        assert forall|j: int| 0 <= j < r.len() implies off_scheme(#[trigger] r[j]) by {
            if j > 0 {
                assert(r[j] == segment_text(v)[j - 1]);
            }
        }
    }
    if let Slot::Branch(v) = s {
        assert forall|j: int| 0 <= j < r.len() implies off_scheme(#[trigger] r[j]) by {
            if j > 0 {
                assert(r[j] == segment_text(v)[j - 1]);
            }
        }
    }
}

/// Without a publisher, the rendered text holds no `pkg://`.
#[verifier::rlimit(100)]
proof fn lemma_bare_text_lacks_scheme(n: Seq<char>, v: Option<VersionModel>)
    requires
        n.len() > 0,
        n[0] != '/',
        !contains_seq(n, scheme()),
        v matches Some(w) ==> valid_version(w),
    ensures
        !contains_seq(bare_scheme() + n + version_tail(v), scheme()),
{
    let text = bare_scheme() + n + version_tail(v);
    let sc = scheme();
    assert(sc[0] == 'p' && sc[1] == 'k' && sc[2] == 'g' && sc[3] == ':' && sc[4] == '/' && sc[5] == '/');
    if contains_seq(text, sc) {
        let i = choose|i: int| 0 <= i && i + sc.len() <= text.len() && #[trigger] text.subrange(i, i + sc.len()) == sc;
        assert forall|j: int| 0 <= j < 6 implies text[i + j] == #[trigger] sc[j] by {
            assert(text.subrange(i, i + 6)[j] == text[i + j]);
        }
        let u = n + version_tail(v);
        assert(text =~= bare_scheme() + u);
        if i == 0 {
            assert(text[5] == n[0]);
        } else if i < 5 {
            assert(text[i] == bare_scheme()[i]);
        } else {
            let k = i - 5;
            assert forall|j: int| 0 <= j < 6 implies u[k + j] == #[trigger] sc[j] by {
                assert(text[i + j] == u[k + j]);
            }
            if k + 6 <= n.len() {
                assert forall|j: int| 0 <= j < 6 implies n[k + j] == #[trigger] sc[j] by {
                    assert(u[k + j] == n[k + j]);
                }
                assert(n.subrange(k, k + 6) =~= sc);
            } else {
                let w = v->Some_0;
                let a = slot_render(w.component) + slot_render(w.build) + slot_render(w.branch);
                let t = slot_render(w.timestamp);
                lemma_numeric_slot_off_scheme(w.component);
                lemma_numeric_slot_off_scheme(w.build);
                lemma_numeric_slot_off_scheme(w.branch);
                assert(slot_render(w.component).len() > 0);
                assert(forall|j: int| 0 <= j < a.len() ==> off_scheme(#[trigger] a[j])) by {
                    let ra = slot_render(w.component);
                    let rb = slot_render(w.build);
                    let rc = slot_render(w.branch);
                    assert forall|j: int| 0 <= j < a.len() implies off_scheme(#[trigger] a[j]) by {
                        if j < ra.len() {
                            assert(a[j] == ra[j]);
                        } else if j < ra.len() + rb.len() {
                            assert(a[j] == rb[j - ra.len()]);
                        } else {
                            assert(a[j] == rc[j - ra.len() - rb.len()]);
                        }
                    }
                }
                assert(u =~= n + a + t);
                let idx = if k < n.len() { n.len() as int } else { k };
                if idx < n.len() + a.len() {
                    assert(u[idx] == a[idx - n.len()]);
                    assert(off_scheme(u[idx]));
                    assert(u[idx] == sc[idx - k]);
                } else {
                    let ts = w.timestamp->Timestamp_0;
                    assert(t =~= seq![':'] + ts);
                    let m = k + 3 - n.len() - a.len();
                    assert(u[k + 3] == t[m]);
                    assert(t[m] == ts[m - 1]);
                    assert(is_delimiter(ts[m - 1]));
                }
            }
        }
    }
}

proof fn lemma_scheme_chars()
    ensures
        scheme().len() == 6,
        scheme()[0] == 'p' && scheme()[1] == 'k' && scheme()[2] == 'g',
        scheme()[3] == ':' && scheme()[4] == '/' && scheme()[5] == '/',
        bare_scheme().len() == 5,
        bare_scheme()[0] == 'p' && bare_scheme()[1] == 'k' && bare_scheme()[2] == 'g',
        bare_scheme()[3] == ':' && bare_scheme()[4] == '/',
        fmri_prefix()[0] == 'f',
{
}

/// A rendered identifier carries no `fmri=` prefix.
proof fn lemma_rendered_no_prefix(f: FmriModel)
    ensures
        strip_prefix(fmri_text(f), fmri_prefix()) == fmri_text(f),
{
    let text = fmri_text(f);
    lemma_scheme_chars();
    assert(text[0] == 'p');
    if starts_with(text, fmri_prefix()) {
        assert(text.subrange(0, 5)[0] == text[0]);
    }
}

/// After `pkg://`: a publisher without `/`, then `/`, then the rest.
proof fn lemma_publisher_clause(p: Seq<char>, u: Seq<char>)
    requires
        !p.contains('/'),
        !p.contains('@'),
    ensures
        ({
            let r = p + seq!['/'] + u;
            &&& first_index(r, '/') == p.len()
            &&& r.take(p.len() as int) == p
            &&& r.skip(p.len() as int + 1) == u
            &&& parse_publisher(p) == Ok::<Seq<char>, FmriError>(p)
        }),
{
    let r = p + seq!['/'] + u;
    lemma_first_index_concat_lacks(p, seq!['/'] + u, '/');
    assert((seq!['/'] + u)[0] == '/');
    assert(first_index(seq!['/'] + u, '/') == 0);
    assert(r =~= p + (seq!['/'] + u));
    assert(r.take(p.len() as int) =~= p);
    lemma_lacks_trimmed(p, '/');
    assert(r.skip(p.len() as int + 1) =~= u);
}

/// With a publisher, the text after `pkg://` is the publisher, a `/`, and
/// the rest.
proof fn lemma_rendered_publisher(f: FmriModel)
    requires
        valid_fmri(f),
        f.publisher is Some,
    ensures
        parse_publisher_raw(fmri_text(f)) == Ok::<Option<Seq<char>>, FmriError>(f.publisher),
        after_char(strip_prefix(fmri_text(f), scheme()), '/') == f.package_name + version_tail(f.version),
{
    let p = f.publisher->Some_0;
    let u = f.package_name + version_tail(f.version);
    let text = fmri_text(f);
    let sc = scheme();
    lemma_scheme_chars();
    lemma_rendered_no_prefix(f);
    lemma_publisher_clause(p, u);
    let r = p + seq!['/'] + u;
    assert(text =~= sc + r);
    assert(text.subrange(0, 0 + sc.len() as int) =~= sc);
    assert(contains_seq(text, sc));
    assert(starts_with(text, sc));
    assert(text.skip(sc.len() as int) =~= r);
    assert(strip_prefix(text, sc) == r);
}

/// Without a publisher, the text after `pkg:/` is the rest.
proof fn lemma_rendered_bare(f: FmriModel)
    requires
        valid_fmri(f),
        f.publisher is None,
    ensures
        parse_publisher_raw(fmri_text(f)) == Ok::<Option<Seq<char>>, FmriError>(None),
        strip_prefix(fmri_text(f), bare_scheme()) == f.package_name + version_tail(f.version),
{
    let n = f.package_name;
    let tail = version_tail(f.version);
    let u = n + tail;
    let text = fmri_text(f);
    let bs = bare_scheme();
    lemma_scheme_chars();
    lemma_rendered_no_prefix(f);
    if let Some(w) = f.version {
        lemma_version_round_trip(w);
        assert(tail[0] == '@');
    }
    lemma_bare_text_lacks_scheme(n, f.version);
    assert(text =~= bs + u);
    assert(text.subrange(0, 5) =~= bs);
    assert(text.skip(5) =~= u);
}

/// The version clause of a rendered identifier is its version.
proof fn lemma_rendered_version(f: FmriModel)
    requires
        valid_fmri(f),
    ensures
        parse_version_raw(fmri_text(f)) == Ok::<Option<VersionModel>, FmriError>(f.version),
{
    let n = f.package_name;
    let tail = version_tail(f.version);
    let text = fmri_text(f);
    let head = match f.publisher {
        Some(p) => scheme() + p + seq!['/'],
        None => bare_scheme(),
    };
    lemma_scheme_chars();
    lemma_rendered_no_prefix(f);
    assert(!head.contains('@')) by {
        if let Some(p) = f.publisher {
            lemma_not_contains_concat(scheme(), p, '@');
            lemma_not_contains_concat(scheme() + p, seq!['/'], '@');
        }
    }
    lemma_not_contains_concat(head, n, '@');
    if let Some(w) = f.version {
        lemma_version_round_trip(w);
        assert(tail[0] == '@');
        assert(text =~= (head + n) + tail);
        lemma_first_index_concat_lacks(head + n, tail, '@');
        assert(text.skip((head + n).len() as int) =~= tail);
    } else {
        assert(text =~= head + n);
        lemma_first_index(text, '@');
    }
}

/// Rendering a valid identifier and parsing the text again gives it back.
pub proof fn lemma_fmri_round_trip(f: FmriModel)
    requires
        valid_fmri(f),
    ensures
        parse_fmri(fmri_text(f)) == Ok::<FmriModel, FmriError>(f),
{
    let n = f.package_name;
    let tail = version_tail(f.version);
    let text = fmri_text(f);
    if f.publisher is Some {
        lemma_rendered_publisher(f);
    } else {
        lemma_rendered_bare(f);
    }
    lemma_rendered_no_prefix(f);
    lemma_rendered_version(f);
    if let Some(w) = f.version {
        lemma_version_round_trip(w);
        assert(tail[0] == '@');
        lemma_first_index_concat_lacks(n, tail, '@');
        assert((n + tail).take(n.len() as int) =~= n);
    } else {
        assert(n + tail =~= n);
    }
    assert(name_candidate(text, f.publisher is Some, f.version is Some) == n);
    lemma_trim_char_unchanged(n, '/');
}

/// Parsing, rendering and parsing again gives what the first parse gave.
pub proof fn lemma_round_trip(raw: Seq<char>)
    requires
        parse_fmri(raw) is Ok,
    ensures
        parse_fmri(fmri_text(parse_fmri(raw)->Ok_0)) == parse_fmri(raw),
{
    lemma_parse_fmri_valid(raw);
    lemma_fmri_round_trip(parse_fmri(raw)->Ok_0);
}

} // verus!
