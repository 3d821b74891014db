//! Character-level text utilities shared by the parsers.
use vstd::prelude::*;

use crate::error::FmriError;

verus! {

/// Index of the first `c` in `s`, or `s.len()` when `c` does not occur.
pub open spec fn first_index(s: Seq<char>, c: char) -> int
    decreases s.len(),
{
    if s.len() == 0 {
        0
    } else if s[0] == c {
        0
    } else {
        1 + first_index(s.drop_first(), c)
    }
}

/// `s` with every leading `c` removed.
pub open spec fn trim_start_char(s: Seq<char>, c: char) -> Seq<char>
    decreases s.len(),
{
    if s.len() > 0 && s[0] == c {
        trim_start_char(s.drop_first(), c)
    } else {
        s
    }
}

/// `s` with every trailing `c` removed.
pub open spec fn trim_end_char(s: Seq<char>, c: char) -> Seq<char>
    decreases s.len(),
{
    if s.len() > 0 && s.last() == c {
        trim_end_char(s.drop_last(), c)
    } else {
        s
    }
}

/// `s` with every leading and every trailing `c` removed.
pub open spec fn trim_char(s: Seq<char>, c: char) -> Seq<char> {
    trim_end_char(trim_start_char(s, c), c)
}

pub open spec fn starts_with(s: Seq<char>, p: Seq<char>) -> bool {
    p.len() <= s.len() && s.subrange(0, p.len() as int) == p
}

/// `p` occurs somewhere in `s`.
pub open spec fn contains_seq(s: Seq<char>, p: Seq<char>) -> bool {
    exists|i: int| 0 <= i && i + p.len() <= s.len() && #[trigger] s.subrange(i, i + p.len()) == p
}

/// `s` with one leading occurrence of `p` removed, when it starts with `p`.
pub open spec fn strip_prefix(s: Seq<char>, p: Seq<char>) -> Seq<char> {
    if starts_with(s, p) {
        s.skip(p.len() as int)
    } else {
        s
    }
}

/// The part of `s` before its first `c` (all of `s` when there is none).
pub open spec fn before_char(s: Seq<char>, c: char) -> Seq<char> {
    s.take(first_index(s, c))
}

/// The part of `s` after its first `c` (empty when there is none).
pub open spec fn after_char(s: Seq<char>, c: char) -> Seq<char> {
    s.skip(first_index(s, c) + 1)
}

pub proof fn lemma_first_index(s: Seq<char>, c: char)
    ensures
        0 <= first_index(s, c) <= s.len(),
        first_index(s, c) < s.len() ==> s[first_index(s, c)] == c,
        forall|j: int| 0 <= j < first_index(s, c) ==> s[j] != c,
        first_index(s, c) == s.len() <==> !s.contains(c),
    decreases s.len(),
{
    if s.len() > 0 && s[0] != c {
        let t = s.drop_first();
        lemma_first_index(t, c);
        assert forall|j: int| 0 <= j < first_index(s, c) implies s[j] != c by {
            if j > 0 {
                assert(s[j] == t[j - 1]);
            }
        }
        if s.contains(c) {
            let k = choose|k: int| 0 <= k < s.len() && s[k] == c;
            assert(t[k - 1] == c);
        }
        if t.contains(c) {
            let k = choose|k: int| 0 <= k < t.len() && t[k] == c;
            assert(s[k + 1] == c);
        }
    }
}

/// Facts that determine `first_index` from a scan that stopped at `i`.
pub proof fn lemma_first_index_at(s: Seq<char>, c: char, i: int)
    requires
        0 <= i <= s.len(),
        forall|j: int| 0 <= j < i ==> s[j] != c,
        i < s.len() ==> s[i] == c,
    ensures
        first_index(s, c) == i,
{
    lemma_first_index(s, c);
    if i == s.len() {
        if s.contains(c) {
            let k = choose|k: int| 0 <= k < s.len() && s[k] == c;
            assert(s[k] != c);
        }
    }
}

pub proof fn lemma_strip_prefix_suffix(s: Seq<char>, p: Seq<char>)
    ensures
        exists|k: int| 0 <= k <= s.len() && strip_prefix(s, p) == s.skip(k),
{
    if starts_with(s, p) {
        assert(strip_prefix(s, p) == s.skip(p.len() as int));
    } else {
        assert(s.skip(0) =~= s);
    }
}

/// `x` is a contiguous part of `s`.
pub open spec fn is_infix(x: Seq<char>, s: Seq<char>) -> bool {
    exists|a: int, b: int| 0 <= a <= b <= s.len() && #[trigger] s.subrange(a, b) == x
}

pub proof fn lemma_infix_skip_take(s: Seq<char>, k: int)
    requires
        0 <= k <= s.len(),
    ensures
        is_infix(s.skip(k), s),
        is_infix(s.take(k), s),
        is_infix(s, s),
{
    assert(s.subrange(k, s.len() as int) =~= s.skip(k));
    assert(s.subrange(0, k) =~= s.take(k));
    assert(s.subrange(0, s.len() as int) =~= s);
}

pub proof fn lemma_infix_trans(x: Seq<char>, y: Seq<char>, s: Seq<char>)
    requires
        is_infix(x, y),
        is_infix(y, s),
    ensures
        is_infix(x, s),
{
    let (a, b) = choose|a: int, b: int| 0 <= a <= b <= y.len() && #[trigger] y.subrange(a, b) == x;
    let (c, d) = choose|c: int, d: int| 0 <= c <= d <= s.len() && #[trigger] s.subrange(c, d) == y;
    assert(s.subrange(c + a, c + b) =~= x);
}

pub proof fn lemma_infix_lacks(x: Seq<char>, s: Seq<char>, c: char)
    requires
        is_infix(x, s),
        !s.contains(c),
    ensures
        !x.contains(c),
{
    let (a, b) = choose|a: int, b: int| 0 <= a <= b <= s.len() && #[trigger] s.subrange(a, b) == x;
    if x.contains(c) {
        let k = choose|k: int| 0 <= k < x.len() && x[k] == c;
        assert(s[a + k] == c);
    }
}

pub proof fn lemma_infix_contains_seq(x: Seq<char>, s: Seq<char>, p: Seq<char>)
    requires
        is_infix(x, s),
        contains_seq(x, p),
    ensures
        contains_seq(s, p),
{
    let (a, b) = choose|a: int, b: int| 0 <= a <= b <= s.len() && #[trigger] s.subrange(a, b) == x;
    let i = choose|i: int| 0 <= i && i + p.len() <= x.len() && #[trigger] x.subrange(i, i + p.len()) == p;
    assert(s.subrange(a + i, a + i + p.len()) =~= x.subrange(i, i + p.len()));
}

pub proof fn lemma_trim_start_char(s: Seq<char>, c: char)
    ensures
        is_infix(trim_start_char(s, c), s),
        trim_start_char(s, c).len() > 0 ==> trim_start_char(s, c)[0] != c,
        trim_start_char(s, c).len() > 0 ==> trim_start_char(s, c).last() == s.last(),
    decreases s.len(),
{
    if s.len() > 0 && s[0] == c {
        let t = s.drop_first();
        lemma_trim_start_char(t, c);
        lemma_infix_skip_take(s, 1);
        assert(s.skip(1) =~= t);
        lemma_infix_trans(trim_start_char(t, c), t, s);
        if trim_start_char(t, c).len() > 0 {
            assert(t.last() == s.last());
        }
    } else {
        lemma_infix_skip_take(s, 0);
    }
}

pub proof fn lemma_trim_end_char(s: Seq<char>, c: char)
    ensures
        is_infix(trim_end_char(s, c), s),
        trim_end_char(s, c).len() > 0 ==> trim_end_char(s, c).last() != c,
        trim_end_char(s, c).len() > 0 ==> trim_end_char(s, c)[0] == s[0],
    decreases s.len(),
{
    if s.len() > 0 && s.last() == c {
        let t = s.drop_last();
        lemma_trim_end_char(t, c);
        lemma_infix_skip_take(s, s.len() - 1);
        assert(s.take(s.len() - 1) =~= t);
        lemma_infix_trans(trim_end_char(t, c), t, s);
        if trim_end_char(t, c).len() > 0 {
            assert(t[0] == s[0]);
        }
    } else {
        lemma_infix_skip_take(s, 0);
    }
}

/// What trimming leaves is part of the text, and neither starts nor ends
/// with the trimmed character.
pub proof fn lemma_trim_char(s: Seq<char>, c: char)
    ensures
        is_infix(trim_char(s, c), s),
        trim_char(s, c).len() > 0 ==> trim_char(s, c)[0] != c && trim_char(s, c).last() != c,
{
    let t = trim_start_char(s, c);
    lemma_trim_start_char(s, c);
    lemma_trim_end_char(t, c);
    lemma_infix_trans(trim_char(s, c), t, s);
}

/// Trimming leaves alone a text that neither starts nor ends with `c`.
pub proof fn lemma_trim_char_unchanged(s: Seq<char>, c: char)
    requires
        s.len() > 0 ==> s[0] != c && s.last() != c,
    ensures
        trim_char(s, c) == s,
{
}

pub proof fn lemma_lacks_trimmed(s: Seq<char>, c: char)
    requires
        !s.contains(c),
    ensures
        trim_char(s, c) == s,
{
    if s.len() > 0 {
        assert(s[0] != c);
        assert(s[s.len() - 1] != c);
    }
}

/// The characters of `s`, in order.
pub fn chars_of(s: &str) -> (r: Vec<char>)
    ensures
        r@ == s@,
{
    let n = s.unicode_len();
    let mut r: Vec<char> = Vec::new();
    let mut i: usize = 0;
    while i < n
        invariant
            n == s@.len(),
            i <= n,
            r@ == s@.take(i as int),
        decreases n - i,
    {
        r.push(s.get_char(i));
        i += 1;
        assert(r@ =~= s@.take(i as int));
    }
    assert(r@ =~= s@);
    r
}

/// Position of the first `c` in `s`, or `s.len()`.
pub fn find_char(s: &Vec<char>, c: char) -> (r: usize)
    ensures
        r == first_index(s@, c),
{
    let mut i: usize = 0;
    while i < s.len()
        invariant
            i <= s.len(),
            forall|j: int| 0 <= j < i ==> s@[j] != c,
        ensures
            i <= s.len(),
            forall|j: int| 0 <= j < i ==> s@[j] != c,
            i < s.len() ==> s@[i as int] == c,
        decreases s.len() - i,
    {
        if s[i] == c {
            break;
        }
        i += 1;
    }
    proof {
        lemma_first_index_at(s@, c, i as int);
    }
    i
}

/// Whether `p` occurs in `s` starting at position `k`.
pub fn matches_at(s: &Vec<char>, k: usize, p: &Vec<char>) -> (r: bool)
    requires
        k <= s.len(),
    ensures
        r == (k + p.len() <= s.len() && s@.subrange(k as int, k + p.len()) == p@),
{
    if p.len() > s.len() - k {
        return false;
    }
    let mut i: usize = 0;
    while i < p.len()
        invariant
            k + p.len() <= s.len(),
            i <= p.len(),
            forall|j: int| 0 <= j < i ==> s@[k + j] == p@[j],
        decreases p.len() - i,
    {
        if s[k + i] != p[i] {
            assert(s@.subrange(k as int, k + p.len())[i as int] != p@[i as int]);
            return false;
        }
        i += 1;
    }
    assert(s@.subrange(k as int, k + p.len()) =~= p@);
    true
}

/// Whether `p` occurs anywhere in `s`.
pub fn contains_pattern(s: &Vec<char>, p: &Vec<char>) -> (r: bool)
    ensures
        r == contains_seq(s@, p@),
{
    if p.len() > s.len() {
        return false;
    }
    let last = s.len() - p.len();
    let mut k: usize = 0;
    loop
        invariant
            last == s.len() - p.len(),
            k <= last,
            forall|i: int| 0 <= i < k ==> #[trigger] s@.subrange(i, i + p.len()) != p@,
        decreases last - k,
    {
        if matches_at(s, k, p) {
            return true;
        }
        if k == last {
            return false;
        }
        k += 1;
    }
}

/// Number of leading characters that `strip_prefix` removes.
pub fn strip_prefix_len(s: &Vec<char>, p: &Vec<char>) -> (r: usize)
    ensures
        r <= s.len(),
        s@.skip(r as int) == strip_prefix(s@, p@),
{
    if matches_at(s, 0, p) {
        p.len()
    } else {
        assert(s@.skip(0) =~= s@);
        0
    }
}

/// `r` holds the characters `s[from..to]`.
pub fn string_of(s: &Vec<char>, from: usize, to: usize) -> (r: String)
    requires
        from <= to <= s.len(),
    ensures
        r@ == s@.subrange(from as int, to as int),
{
    let mut r = String::new();
    let mut i: usize = from;
    while i < to
        invariant
            from <= i <= to <= s.len(),
            r@ == s@.subrange(from as int, i as int),
        decreases to - i,
    {
        push_char(&mut r, s[i]);
        i += 1;
        assert(r@ =~= s@.subrange(from as int, i as int));
    }
    r
}

/// Relies on `String::push`: appends one character.
#[verifier::external_body]
pub(crate) fn push_char(s: &mut String, c: char)
    ensures
        final(s)@ == old(s)@.push(c),
{
    s.push(c);
}

/// Checks that `string` holds no `@`.
pub fn check_character_collision(string: &str) -> (r: Result<(), FmriError>)
    ensures
        r is Err <==> string@.contains('@'),
        r is Err ==> r == Err::<(), FmriError>(FmriError::InvalidCharacter),
{
    let cs = chars_of(string);
    let i = find_char(&cs, '@');
    proof {
        lemma_first_index(cs@, '@');
    }
    if i < cs.len() {
        Err(FmriError::InvalidCharacter)
    } else {
        Ok(())
    }
}

/// Removes every leading and trailing `character` of `string`.
pub fn remove_first_and_last_characters(string: &str, character: char) -> (r: String)
    ensures
        r@ == trim_char(string@, character),
{
    let cs = chars_of(string);
    let (a, b) = trim_bounds(&cs, character);
    string_of(&cs, a, b)
}

/// Bounds of `trim_char(s, c)` inside `s`.
pub fn trim_bounds(s: &Vec<char>, c: char) -> (r: (usize, usize))
    ensures
        r.0 <= r.1 <= s.len(),
        s@.subrange(r.0 as int, r.1 as int) == trim_char(s@, c),
{
    let n = s.len();
    let mut i: usize = 0;
    assert(s@.skip(0) =~= s@);
    while i < n && s[i] == c
        invariant
            n == s.len(),
            i <= n,
            trim_start_char(s@.skip(i as int), c) == trim_start_char(s@, c),
        decreases n - i,
    {
        assert(s@.skip(i as int).drop_first() =~= s@.skip(i + 1));
        i += 1;
    }
    let ghost head = s@.skip(i as int);
    assert(trim_start_char(head, c) == head);
    let mut j: usize = n;
    assert(s@.subrange(i as int, n as int) =~= head);
    while j > i && s[j - 1] == c
        invariant
            n == s.len(),
            i <= j <= n,
            head == s@.skip(i as int),
            trim_end_char(s@.subrange(i as int, j as int), c) == trim_end_char(head, c),
        decreases j,
    {
        assert(s@.subrange(i as int, j as int).drop_last() =~= s@.subrange(i as int, j - 1));
        j -= 1;
    }
    (i, j)
}

/// The `fmri=` prefix that a raw identifier may carry.
pub open spec fn fmri_prefix() -> Seq<char> {
    seq!['f', 'm', 'r', 'i', '=']
}

pub fn fmri_prefix_chars() -> (r: Vec<char>)
    ensures
        r@ == fmri_prefix(),
{
    let r = vec!['f', 'm', 'r', 'i', '='];
    assert(r@ =~= fmri_prefix());
    r
}

/// The characters `s[from..to]`.
pub fn sub_chars(s: &Vec<char>, from: usize, to: usize) -> (r: Vec<char>)
    requires
        from <= to <= s.len(),
    ensures
        r@ == s@.subrange(from as int, to as int),
{
    let mut r: Vec<char> = Vec::new();
    let mut i: usize = from;
    while i < to
        invariant
            from <= i <= to <= s.len(),
            r@ == s@.subrange(from as int, i as int),
        decreases to - i,
    {
        r.push(s[i]);
        i += 1;
        assert(r@ =~= s@.subrange(from as int, i as int));
    }
    r
}

} // verus!
