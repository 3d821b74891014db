//! A dotted run of non-negative integers, such as `1.2.3`.
use std::cmp::Ordering;

use vstd::prelude::*;

use crate::compare::Compare;
use crate::error::FmriError;
use crate::helpers::{chars_of, push_char};

verus! {

pub open spec fn is_digit(c: char) -> bool {
    '0' <= c && c <= '9'
}

pub open spec fn digit_value(c: char) -> int {
    c as int - '0' as int
}

/// The decimal value of a run of digits.
pub open spec fn digits_value(p: Seq<char>) -> int
    decreases p.len(),
{
    if p.len() == 0 {
        0
    } else {
        digits_value(p.drop_last()) * 10 + digit_value(p.last())
    }
}

pub open spec fn all_digits(p: Seq<char>) -> bool {
    forall|j: int| 0 <= j < p.len() ==> is_digit(#[trigger] p[j])
}

/// A piece between dots: one or more digits whose value fits an `i32`.
pub open spec fn valid_piece(p: Seq<char>) -> bool {
    p.len() > 0 && all_digits(p) && digits_value(p) <= i32::MAX
}

/// `s` split at every `.`; there is always at least one piece.
pub open spec fn split_dots(s: Seq<char>) -> Seq<Seq<char>>
    decreases s.len(),
{
    if s.len() == 0 {
        seq![Seq::empty()]
    } else {
        let ps = split_dots(s.drop_last());
        if s.last() == '.' {
            ps.push(Seq::empty())
        } else {
            ps.update(ps.len() - 1, ps.last().push(s.last()))
        }
    }
}

/// The integers of a dotted text, or `None` when a piece is empty, holds a
/// character other than a digit, or exceeds `i32::MAX`.
pub open spec fn parse_segment(s: Seq<char>) -> Option<Seq<i32>> {
    let ps = split_dots(s);
    if forall|k: int| 0 <= k < ps.len() ==> valid_piece(#[trigger] ps[k]) {
        Some(ps.map_values(|p: Seq<char>| digits_value(p) as i32))
    } else {
        None
    }
}

pub open spec fn digit_char(d: int) -> char {
    if d == 0 {
        '0'
    } else if d == 1 {
        '1'
    } else if d == 2 {
        '2'
    } else if d == 3 {
        '3'
    } else if d == 4 {
        '4'
    } else if d == 5 {
        '5'
    } else if d == 6 {
        '6'
    } else if d == 7 {
        '7'
    } else if d == 8 {
        '8'
    } else {
        '9'
    }
}

/// Canonical decimal text of a natural number.
pub open spec fn decimal(n: nat) -> Seq<char>
    decreases n,
{
    if n < 10 {
        seq![digit_char(n as int)]
    } else {
        decimal(n / 10).push(digit_char((n % 10) as int))
    }
}

/// Decimal text of an integer, with a `-` when it is negative.
pub open spec fn int_text(x: int) -> Seq<char> {
    if x < 0 {
        seq!['-'] + decimal((-x) as nat)
    } else {
        decimal(x as nat)
    }
}

/// The integers of `v` in decimal, joined by `.`.
pub open spec fn segment_text(v: Seq<i32>) -> Seq<char>
    decreases v.len(),
{
    if v.len() == 0 {
        Seq::empty()
    } else if v.len() == 1 {
        int_text(v[0] as int)
    } else {
        segment_text(v.drop_last()) + seq!['.'] + int_text(v.last() as int)
    }
}

/// Element-wise order over the common prefix; when that ties, the longer
/// sequence is the greater.
pub open spec fn cmp_seq(a: Seq<i32>, b: Seq<i32>) -> Ordering
    decreases a.len(),
{
    if a.len() == 0 || b.len() == 0 {
        if a.len() < b.len() {
            Ordering::Less
        } else if a.len() > b.len() {
            Ordering::Greater
        } else {
            Ordering::Equal
        }
    } else if a[0] < b[0] {
        Ordering::Less
    } else if a[0] > b[0] {
        Ordering::Greater
    } else {
        cmp_seq(a.drop_first(), b.drop_first())
    }
}

/// A segment as parsing yields it: non-empty, no negative element.
pub open spec fn valid_segment(v: Seq<i32>) -> bool {
    v.len() > 0 && forall|k: int| 0 <= k < v.len() ==> v[k] >= 0
}

pub proof fn lemma_split_dots_len(s: Seq<char>)
    ensures
        split_dots(s).len() >= 1,
    decreases s.len(),
{
    if s.len() > 0 {
        lemma_split_dots_len(s.drop_last());
    }
}

/// Splitting a longer prefix keeps every finished piece and extends the
/// last one.
pub proof fn lemma_split_dots_extend(s: Seq<char>, i: int, j: int)
    requires
        0 <= i <= j <= s.len(),
    ensures
        ({
            let a = split_dots(s.take(i));
            let b = split_dots(s.take(j));
            &&& a.len() <= b.len()
            &&& forall|k: int| 0 <= k < a.len() - 1 ==> b[k] == a[k]
            &&& b[a.len() - 1].len() >= a.last().len()
            &&& b[a.len() - 1].take(a.last().len() as int) == a.last()
        }),
    decreases j - i,
{
    let a = split_dots(s.take(i));
    lemma_split_dots_len(s.take(i));
    if j == i {
        assert(a.last().take(a.last().len() as int) =~= a.last());
    } else {
        lemma_split_dots_extend(s, i, j - 1);
        let b0 = split_dots(s.take(j - 1));
        lemma_split_dots_len(s.take(j - 1));
        assert(s.take(j).drop_last() =~= s.take(j - 1));
        let b = split_dots(s.take(j));
        let c = s[j - 1];
        if c != '.' {
            let x = b0[a.len() - 1];
            if a.len() - 1 == b0.len() - 1 {
                assert(b[a.len() - 1] == x.push(c));
                assert(x.push(c).take(a.last().len() as int) =~= x.take(a.last().len() as int));
            }
        }
    }
}

pub proof fn lemma_digits_value_nonneg(p: Seq<char>)
    requires
        all_digits(p),
    ensures
        digits_value(p) >= 0,
    decreases p.len(),
{
    if p.len() > 0 {
        assert(is_digit(p[p.len() - 1]));
        lemma_digits_value_nonneg(p.drop_last());
    }
}

/// A run of digits is worth at least as much as any of its prefixes.
pub proof fn lemma_digits_value_prefix(q: Seq<char>, m: int)
    requires
        0 <= m <= q.len(),
        all_digits(q),
    ensures
        digits_value(q.take(m)) <= digits_value(q),
    decreases q.len(),
{
    if m == q.len() {
        assert(q.take(m) =~= q);
    } else {
        let r = q.drop_last();
        assert(is_digit(q[q.len() - 1]));
        lemma_digits_value_prefix(r, m);
        lemma_digits_value_nonneg(r);
        assert(r.take(m) =~= q.take(m));
    }
}

/// A piece that starts out wrong cannot be completed into a valid one.
pub proof fn lemma_bad_prefix(p: Seq<char>, q: Seq<char>)
    requires
        p.len() <= q.len(),
        q.take(p.len() as int) == p,
        !all_digits(p) || digits_value(p) > i32::MAX,
    ensures
        !valid_piece(q),
{
    if all_digits(q) {
        assert forall|j: int| 0 <= j < p.len() implies is_digit(#[trigger] p[j]) by {
            assert(p[j] == q[j]);
        }
        lemma_digits_value_prefix(q, p.len() as int);
    }
}

/// A piece of a prefix that can no longer become valid makes the whole
/// text unparsable.
pub proof fn lemma_parse_fails(s: Seq<char>, i: int, k: int)
    requires
        0 <= i <= s.len(),
        0 <= k < split_dots(s.take(i)).len(),
        k < split_dots(s.take(i)).len() - 1 ==> !valid_piece(split_dots(s.take(i))[k]),
        k == split_dots(s.take(i)).len() - 1 ==> ({
            let p = split_dots(s.take(i))[k];
            !all_digits(p) || digits_value(p) > i32::MAX || (i == s.len() && p.len() == 0)
        }),
    ensures
        parse_segment(s) is None,
{
    lemma_split_dots_extend(s, i, s.len() as int);
    assert(s.take(s.len() as int) =~= s);
    let a = split_dots(s.take(i));
    let b = split_dots(s);
    if k == a.len() - 1 {
        let p = a[k];
        if i == s.len() && p.len() == 0 {
            assert(b[k] == p);
        } else {
            lemma_bad_prefix(p, b[k]);
        }
    }
    assert(!valid_piece(b[k]));
}

/// The segment order is antisymmetric: swapping the two segments swaps
/// `Less` and `Greater`, and `Equal` holds exactly when they are equal.
pub proof fn lemma_cmp_seq_antisymmetric(a: Seq<i32>, b: Seq<i32>)
    ensures
        cmp_seq(a, b) == Ordering::Less <==> cmp_seq(b, a) == Ordering::Greater,
        cmp_seq(a, b) == Ordering::Equal <==> cmp_seq(b, a) == Ordering::Equal,
        cmp_seq(a, b) == Ordering::Equal <==> a == b,
    decreases a.len(),
{
    if a.len() > 0 && b.len() > 0 {
        lemma_cmp_seq_antisymmetric(a.drop_first(), b.drop_first());
        if a[0] == b[0] && a.drop_first() == b.drop_first() {
            assert(a =~= seq![a[0]] + a.drop_first());
            assert(b =~= seq![b[0]] + b.drop_first());
        }
    } else if a.len() == 0 && b.len() == 0 {
        assert(a =~= b);
    }
}

/// The segment order is transitive: when `a` relates to `b` as `b` relates
/// to `c`, `a` relates to `c` in the same way.
pub proof fn lemma_cmp_seq_transitive(a: Seq<i32>, b: Seq<i32>, c: Seq<i32>, o: Ordering)
    requires
        cmp_seq(a, b) == o,
        cmp_seq(b, c) == o,
    ensures
        cmp_seq(a, c) == o,
    decreases a.len(),
{
    if a.len() > 0 && b.len() > 0 && c.len() > 0 {
        if a[0] == b[0] && b[0] == c[0] {
            lemma_cmp_seq_transitive(a.drop_first(), b.drop_first(), c.drop_first(), o);
        }
    }
}

proof fn lemma_digit_char(d: int)
    requires
        0 <= d < 10,
    ensures
        is_digit(digit_char(d)),
        digit_value(digit_char(d)) == d,
{
}

/// The decimal text of `n` is a non-empty run of digits worth `n`.
pub proof fn lemma_decimal(n: nat)
    ensures
        decimal(n).len() > 0,
        all_digits(decimal(n)),
        digits_value(decimal(n)) == n,
    decreases n,
{
    if n < 10 {
        lemma_digit_char(n as int);
        let d = decimal(n);
        assert(d.drop_last() =~= Seq::<char>::empty());
        assert(digits_value(d.drop_last()) == 0);
        assert(d.last() == digit_char(n as int));
        assert(digits_value(d) == digits_value(d.drop_last()) * 10 + digit_value(d.last()));
    } else {
        lemma_decimal(n / 10);
        lemma_digit_char((n % 10) as int);
        let d = decimal(n);
        assert(d.drop_last() =~= decimal(n / 10));
        assert forall|j: int| 0 <= j < d.len() implies is_digit(#[trigger] d[j]) by {
            if j < d.len() - 1 {
                assert(d[j] == decimal(n / 10)[j]);
            }
        }
        vstd::arithmetic::div_mod::lemma_fundamental_div_mod(n as int, 10);
        assert(d.last() == digit_char((n % 10) as int));
        assert(digits_value(d) == digits_value(d.drop_last()) * 10 + digit_value(d.last()));
    }
}

/// Appending text without dots extends the last piece.
proof fn lemma_split_dots_append(s: Seq<char>, t: Seq<char>)
    requires
        !t.contains('.'),
    ensures
        split_dots(s + t) == split_dots(s).update(
            split_dots(s).len() - 1,
            split_dots(s).last() + t,
        ),
    decreases t.len(),
{
    lemma_split_dots_len(s);
    let ps = split_dots(s);
    if t.len() == 0 {
        assert(s + t =~= s);
        assert(ps.last() + t =~= ps.last());
        assert(ps.update(ps.len() - 1, ps.last()) =~= ps);
    } else {
        let t0 = t.drop_last();
        assert(!t0.contains('.')) by {
            if t0.contains('.') {
                let k = choose|k: int| 0 <= k < t0.len() && t0[k] == '.';
                assert(t[k] == '.');
            }
        }
        lemma_split_dots_append(s, t0);
        assert((s + t).drop_last() =~= s + t0);
        assert(t.last() != '.') by {
            assert(t[t.len() - 1] == t.last());
        }
        assert((ps.last() + t0).push(t.last()) =~= ps.last() + t);
        assert(split_dots(s + t) =~= ps.update(ps.len() - 1, ps.last() + t));
    }
}

proof fn lemma_decimal_no_dot(n: nat)
    ensures
        !decimal(n).contains('.'),
{
    lemma_decimal(n);
    if decimal(n).contains('.') {
        let k = choose|k: int| 0 <= k < decimal(n).len() && decimal(n)[k] == '.';
        assert(is_digit(decimal(n)[k]));
    }
}

/// Splitting the text of a segment gives the decimal text of each element.
proof fn lemma_split_segment_text(v: Seq<i32>)
    requires
        valid_segment(v),
    ensures
        split_dots(segment_text(v)) == v.map_values(|x: i32| decimal(x as nat)),
    decreases v.len(),
{
    let d = decimal(v.last() as nat);
    lemma_decimal_no_dot(v.last() as nat);
    assert(v[v.len() - 1] >= 0);
    if v.len() == 1 {
        lemma_split_dots_append(Seq::empty(), d);
        assert(Seq::<char>::empty() + d =~= d);
        assert(segment_text(v) == d);
        assert(split_dots(Seq::<char>::empty()) =~= seq![Seq::<char>::empty()]);
        assert(Seq::<char>::empty() + d =~= d);
        assert(split_dots(d) =~= v.map_values(|x: i32| decimal(x as nat)));
    } else {
        let w = v.drop_last();
        assert forall|k: int| 0 <= k < w.len() implies w[k] >= 0 by {
            assert(w[k] == v[k]);
        }
        lemma_split_segment_text(w);
        let s = segment_text(w);
        assert(segment_text(v) =~= s.push('.') + d);
        lemma_split_dots_append(s.push('.'), d);
        assert(s.push('.').drop_last() =~= s);
        lemma_split_dots_len(s);
        assert(Seq::<char>::empty() + d =~= d);
        assert(split_dots(segment_text(v)) =~= v.map_values(|x: i32| decimal(x as nat)));
    }
}

/// Parsing the text of a segment gives the segment back.
pub proof fn lemma_segment_round_trip(v: Seq<i32>)
    requires
        valid_segment(v),
    ensures
        parse_segment(segment_text(v)) == Some(v),
{
    lemma_split_segment_text(v);
    let ps = split_dots(segment_text(v));
    assert forall|k: int| 0 <= k < ps.len() implies valid_piece(#[trigger] ps[k]) by {
        assert(v[k] >= 0);
        lemma_decimal(v[k] as nat);
    }
    assert forall|k: int| 0 <= k < ps.len() implies digits_value(#[trigger] ps[k]) as i32 == v[k] by {
        assert(v[k] >= 0);
        lemma_decimal(v[k] as nat);
    }
    assert(ps.map_values(|p: Seq<char>| digits_value(p) as i32) =~= v);
}

/// What parsing yields is a valid segment.
pub proof fn lemma_parse_segment_valid(s: Seq<char>)
    requires
        parse_segment(s) is Some,
    ensures
        valid_segment(parse_segment(s)->Some_0),
{
    let ps = split_dots(s);
    lemma_split_dots_len(s);
    let v = parse_segment(s)->Some_0;
    assert forall|k: int| 0 <= k < v.len() implies v[k] >= 0 by {
        assert(valid_piece(ps[k]));
        lemma_digits_value_nonneg(ps[k]);
    }
}

/// The text of a valid segment holds digits and dots only.
pub proof fn lemma_segment_text_chars(v: Seq<i32>)
    requires
        valid_segment(v),
    ensures
        segment_text(v).len() > 0,
        forall|j: int|
            0 <= j < segment_text(v).len() ==> is_digit(#[trigger] segment_text(v)[j])
                || segment_text(v)[j] == '.',
        is_digit(segment_text(v).last()),
    decreases v.len(),
{
    assert(v[v.len() - 1] >= 0);
    let d = decimal(v.last() as nat);
    lemma_decimal(v.last() as nat);
    if v.len() > 1 {
        let w = v.drop_last();
        assert forall|k: int| 0 <= k < w.len() implies w[k] >= 0 by {
            assert(w[k] == v[k]);
        }
        lemma_segment_text_chars(w);
        let t = segment_text(v);
        let s = segment_text(w);
        assert(t =~= s + seq!['.'] + d);
        assert forall|j: int| 0 <= j < t.len() implies is_digit(#[trigger] t[j]) || t[j] == '.' by {
            if j < s.len() {
                assert(t[j] == s[j]);
            } else if j > s.len() {
                assert(t[j] == d[j - s.len() - 1]);
            }
        }
        assert(t.last() == d.last());
        assert(is_digit(d[d.len() - 1]));
    } else {
        assert(is_digit(d[d.len() - 1]));
    }
}

/// [`Segment`] is a dotted run of integers inside a version, such as
/// `1.2.3`, `2023.0.0.5` or `4`; `.32.4` and `3.a.4` are not segments.
#[derive(Debug, Clone, Eq, Ord, Hash)]
pub struct Segment(Vec<i32>);

impl View for Segment {
    type V = Seq<i32>;

    closed spec fn view(&self) -> Seq<i32> {
        self.0@
    }
}

fn digit_to_char(d: u64) -> (c: char)
    requires
        d < 10,
    ensures
        c == digit_char(d as int),
        is_digit(c),
{
    match d {
        0 => '0',
        1 => '1',
        2 => '2',
        3 => '3',
        4 => '4',
        5 => '5',
        6 => '6',
        7 => '7',
        8 => '8',
        _ => '9',
    }
}

/// Appends the decimal text of `n`.
fn push_decimal(out: &mut String, n: u64)
    ensures
        final(out)@ == old(out)@ + decimal(n as nat),
    decreases n,
{
    if n >= 10 {
        push_decimal(out, n / 10);
    }
    push_char(out, digit_to_char(n % 10));
    proof {
        if n >= 10 {
            assert(final(out)@ =~= old(out)@ + decimal(n as nat));
        } else {
            assert(final(out)@ =~= old(out)@ + decimal(n as nat));
        }
    }
}

/// Appends the decimal text of `x`, signed.
fn push_int(out: &mut String, x: i32)
    ensures
        final(out)@ == old(out)@ + int_text(x as int),
{
    if x < 0 {
        push_char(out, '-');
        let m: i64 = x as i64;
        push_decimal(out, (-m) as u64);
        assert(final(out)@ =~= old(out)@ + int_text(x as int));
    } else {
        push_decimal(out, x as u64);
    }
}

impl Segment {
    /// Parses a dotted run of integers (`"1.2.3"`).
    pub fn from_string(value: &str) -> (r: Result<Segment, FmriError>)
        ensures
            match r {
                Ok(seg) => parse_segment(value@) == Some(seg@),
                Err(e) => parse_segment(value@) is None && e == FmriError::InvalidSegment,
            },
    {
        let cs = chars_of(value);
        let n = cs.len();
        let mut out: Vec<i32> = Vec::new();
        let mut cur: u64 = 0;
        let mut cur_nonempty = false;
        let mut i: usize = 0;
        assert(cs@.take(0) =~= Seq::<char>::empty());
        while i < n
            invariant
                n == cs.len(),
                cs@ == value@,
                i <= n,
                split_dots(cs@.take(i as int)).len() == out.len() + 1,
                forall|k: int|
                    0 <= k < out.len() ==> valid_piece(#[trigger] split_dots(cs@.take(i as int))[k])
                        && out@[k] == digits_value(split_dots(cs@.take(i as int))[k]),
                all_digits(split_dots(cs@.take(i as int)).last()),
                cur == digits_value(split_dots(cs@.take(i as int)).last()),
                cur <= i32::MAX,
                cur_nonempty == (split_dots(cs@.take(i as int)).last().len() > 0),
            decreases n - i,
        {
            let c = cs[i];
            let ghost ps = split_dots(cs@.take(i as int));
            assert(cs@.take(i + 1).drop_last() =~= cs@.take(i as int));
            assert(cs@.take(i + 1).last() == c);
            let ghost ps1 = split_dots(cs@.take(i + 1));
            if c == '.' {
                if !cur_nonempty {
                    proof {
                        assert(ps1[out.len() as int] == ps.last());
                        lemma_parse_fails(cs@, i + 1, out.len() as int);
                    }
                    return Err(FmriError::InvalidSegment);
                }
                out.push(cur as i32);
                cur = 0;
                cur_nonempty = false;
                proof {
                    assert forall|k: int| 0 <= k < out.len() implies valid_piece(#[trigger] ps1[k])
                        && out@[k] == digits_value(ps1[k]) by {
                        if k == out.len() - 1 {
                            assert(ps1[k] == ps.last());
                        } else {
                            assert(ps1[k] == ps[k]);
                        }
                    }
                    assert(ps1.last() =~= Seq::<char>::empty());
                }
            } else if '0' <= c && c <= '9' {
                let d: u64 = (c as u64) - ('0' as u64);
                cur = cur * 10 + d;
                cur_nonempty = true;
                proof {
                    let p1 = ps.last().push(c);
                    assert(ps1.last() == p1);
                    assert(p1.drop_last() =~= ps.last());
                    assert forall|j: int| 0 <= j < p1.len() implies is_digit(#[trigger] p1[j]) by {
                        if j < ps.last().len() {
                            assert(p1[j] == ps.last()[j]);
                        }
                    }
                    assert forall|k: int| 0 <= k < out.len() implies valid_piece(#[trigger] ps1[k])
                        && out@[k] == digits_value(ps1[k]) by {
                        assert(ps1[k] == ps[k]);
                    }
                }
                if cur > 2147483647 {
                    proof {
                        lemma_parse_fails(cs@, i + 1, out.len() as int);
                    }
                    return Err(FmriError::InvalidSegment);
                }
            } else {
                proof {
                    let p1 = ps.last().push(c);
                    assert(ps1.last() == p1);
                    assert(!is_digit(p1[p1.len() - 1]));
                    lemma_parse_fails(cs@, i + 1, out.len() as int);
                }
                return Err(FmriError::InvalidSegment);
            }
            i += 1;
        }
        assert(cs@.take(n as int) =~= cs@);
        if !cur_nonempty {
            proof {
                lemma_parse_fails(cs@, n as int, out.len() as int);
            }
            return Err(FmriError::InvalidSegment);
        }
        out.push(cur as i32);
        proof {
            let ps = split_dots(cs@);
            assert forall|k: int| 0 <= k < ps.len() implies valid_piece(#[trigger] ps[k]) by {}
            assert(out@ =~= ps.map_values(|p: Seq<char>| digits_value(p) as i32));
        }
        Ok(Segment(out))
    }

    /// Renders the segment as dot-joined decimal integers (`"1.2.3"`).
    pub fn as_string(&self) -> (r: String)
        ensures
            r@ == segment_text(self@),
    {
        let v = &self.0;
        let mut out = String::new();
        let mut i: usize = 0;
        while i < v.len()
            invariant
                i <= v.len(),
                out@ == segment_text(v@.take(i as int)),
            decreases v.len() - i,
        {
            if i > 0 {
                push_char(&mut out, '.');
            }
            push_int(&mut out, v[i]);
            proof {
                let t = v@.take(i + 1);
                assert(t.drop_last() =~= v@.take(i as int));
                if i == 0 {
                    assert(out@ =~= segment_text(t));
                } else {
                    assert(out@ =~= segment_text(t));
                }
            }
            i += 1;
        }
        assert(v@.take(v.len() as int) =~= v@);
        out
    }

    /// Returns the integers of the segment.
    pub fn get(self) -> (r: Vec<i32>)
        ensures
            r@ == self@,
    {
        self.0
    }

    /// Returns a reference to the integers of the segment.
    pub fn get_ref(&self) -> (r: &Vec<i32>)
        ensures
            r@ == self@,
    {
        &self.0
    }

    /// Returns a mutable reference to the integers of the segment.
    pub fn get_ref_mut(&mut self) -> (r: &mut Vec<i32>)
        ensures
            r@ == old(self)@,
            final(self)@ == final(r)@,
    {
        &mut self.0
    }
}

impl Compare for Segment {
    open spec fn compare_spec(&self, other: &Self) -> Ordering {
        cmp_seq(self@, other@)
    }

    fn compare(&self, comparing_to: &Self) -> (r: Ordering) {
        let a = &self.0;
        let b = &comparing_to.0;
        let mut i: usize = 0;
        assert(a@.skip(0) =~= a@);
        assert(b@.skip(0) =~= b@);
        while i < a.len() && i < b.len()
            invariant
                i <= a.len(),
                i <= b.len(),
                cmp_seq(a@.skip(i as int), b@.skip(i as int)) == cmp_seq(self@, comparing_to@),
                a@ == self@,
                b@ == comparing_to@,
            decreases a.len() - i,
        {
            if a[i] < b[i] {
                return Ordering::Less;
            } else if a[i] > b[i] {
                return Ordering::Greater;
            }
            assert(a@.skip(i as int).drop_first() =~= a@.skip(i + 1));
            assert(b@.skip(i as int).drop_first() =~= b@.skip(i + 1));
            i += 1;
        }
        if a.len() < b.len() {
            Ordering::Less
        } else if a.len() > b.len() {
            Ordering::Greater
        } else {
            Ordering::Equal
        }
    }
}

impl PartialEq for Segment {
    fn eq(&self, other: &Self) -> (r: bool) {
        let o = self.compare(other);
        proof {
            lemma_cmp_seq_antisymmetric(self@, other@);
        }
        match o {
            Ordering::Equal => true,
            _ => false,
        }
    }
}

impl vstd::std_specs::cmp::PartialEqSpecImpl for Segment {
    open spec fn obeys_eq_spec() -> bool {
        true
    }

    open spec fn eq_spec(&self, other: &Segment) -> bool {
        self@ == other@
    }
}

impl PartialOrd for Segment {
    fn partial_cmp(&self, other: &Self) -> (r: Option<Ordering>) {
        Some(self.compare(other))
    }
}

impl vstd::std_specs::cmp::PartialOrdSpecImpl for Segment {
    open spec fn obeys_partial_cmp_spec() -> bool {
        true
    }

    open spec fn partial_cmp_spec(&self, other: &Segment) -> Option<Ordering> {
        Some(cmp_seq(self@, other@))
    }
}

impl<'a> TryFrom<&'a str> for Segment {
    type Error = FmriError;

    fn try_from(value: &'a str) -> (r: Result<Segment, FmriError>)
        ensures
            match r {
                Ok(seg) => parse_segment(value@) == Some(seg@),
                Err(e) => parse_segment(value@) is None && e == FmriError::InvalidSegment,
            },
    {
        Segment::from_string(value)
    }
}

/// `try_from` states its result over the views, as `Segment::from_string`
/// does; there is no spec-level constructor of a `Segment` to state it here.
impl<'a> vstd::std_specs::convert::TryFromSpecImpl<&'a str> for Segment {
    open spec fn obeys_try_from_spec() -> bool {
        false
    }

    open spec fn try_from_spec(v: &'a str) -> Result<Segment, FmriError> {
        Err(FmriError::InvalidSegment)
    }
}

impl TryFrom<String> for Segment {
    type Error = FmriError;

    fn try_from(value: String) -> (r: Result<Segment, FmriError>)
        ensures
            match r {
                Ok(seg) => parse_segment(value@) == Some(seg@),
                Err(e) => parse_segment(value@) is None && e == FmriError::InvalidSegment,
            },
    {
        Segment::from_string(value.as_str())
    }
}

impl vstd::std_specs::convert::TryFromSpecImpl<String> for Segment {
    open spec fn obeys_try_from_spec() -> bool {
        false
    }

    open spec fn try_from_spec(v: String) -> Result<Segment, FmriError> {
        Err(FmriError::InvalidSegment)
    }
}

} // verus!
