//! Operations on text, stated over sequences of characters.

use vstd::prelude::*;
use vstd::string::{StrSliceExecFns, StringExecFns};

verus! {

broadcast use vstd::string::group_string_axioms;

// ---------------------------------------------------------------------------
// Models
// ---------------------------------------------------------------------------

/// The characters with the Unicode property `White_Space`.
pub open spec fn is_white_space(c: char) -> bool {
    ||| '\u{9}' <= c <= '\u{d}'
    ||| c == '\u{20}'
    ||| c == '\u{85}'
    ||| c == '\u{a0}'
    ||| c == '\u{1680}'
    ||| '\u{2000}' <= c <= '\u{200a}'
    ||| c == '\u{2028}'
    ||| c == '\u{2029}'
    ||| c == '\u{202f}'
    ||| c == '\u{205f}'
    ||| c == '\u{3000}'
}

/// `s` without the leading characters that satisfy `p`.
pub open spec fn without_leading(s: Seq<char>, p: spec_fn(char) -> bool) -> Seq<char>
    decreases s.len(),
{
    if s.len() > 0 && p(s[0]) {
        without_leading(s.drop_first(), p)
    } else {
        s
    }
}

/// `s` without the trailing characters that satisfy `p`.
pub open spec fn without_trailing(s: Seq<char>, p: spec_fn(char) -> bool) -> Seq<char>
    decreases s.len(),
{
    if s.len() > 0 && p(s.last()) {
        without_trailing(s.drop_last(), p)
    } else {
        s
    }
}

/// `s` without white space on either side.
pub open spec fn trimmed(s: Seq<char>) -> Seq<char> {
    without_trailing(
        without_leading(s, |c: char| is_white_space(c)),
        |c: char| is_white_space(c),
    )
}

/// The test for being `c`.
pub open spec fn equal_to(c: char) -> spec_fn(char) -> bool {
    |x: char| x == c
}

/// `s` without the copies of `c` that it starts with.
pub open spec fn without_leading_char(s: Seq<char>, c: char) -> Seq<char> {
    without_leading(s, equal_to(c))
}

/// `s` without the copies of `c` that it ends in.
pub open spec fn without_trailing_char(s: Seq<char>, c: char) -> Seq<char> {
    without_trailing(s, equal_to(c))
}

/// `i` is where `c` occurs first in `s`.
pub open spec fn first_at(s: Seq<char>, c: char, i: int) -> bool {
    &&& 0 <= i < s.len()
    &&& s[i] == c
    &&& forall|j: int| 0 <= j < i ==> s[j] != c
}

/// `i` is where `c` occurs last in `s`.
pub open spec fn last_at(s: Seq<char>, c: char, i: int) -> bool {
    &&& 0 <= i < s.len()
    &&& s[i] == c
    &&& forall|j: int| i < j < s.len() ==> s[j] != c
}

/// What stands before and after the first `c` in `s`.
pub open spec fn split_first(s: Seq<char>, c: char) -> Option<(Seq<char>, Seq<char>)> {
    if s.contains(c) {
        let i = choose|i: int| first_at(s, c, i);
        Some((s.take(i), s.skip(i + 1)))
    } else {
        None
    }
}

/// What stands before and after the last `c` in `s`.
pub open spec fn split_last(s: Seq<char>, c: char) -> Option<(Seq<char>, Seq<char>)> {
    if s.contains(c) {
        let i = choose|i: int| last_at(s, c, i);
        Some((s.take(i), s.skip(i + 1)))
    } else {
        None
    }
}

/// What stands before the first `c`, or all of `s`.
pub open spec fn before_first(s: Seq<char>, c: char) -> Seq<char> {
    match split_first(s, c) {
        Some((head, _)) => head,
        None => s,
    }
}

/// What stands after the last `c`, or all of `s`.
pub open spec fn after_last(s: Seq<char>, c: char) -> Seq<char> {
    match split_last(s, c) {
        Some((_, tail)) => tail,
        None => s,
    }
}

/// `c` with an ASCII capital letter made small.
pub open spec fn lower(c: char) -> char {
    if 'A' <= c <= 'Z' {
        ((c as u32) + 32) as char
    } else {
        c
    }
}

/// `s` with its ASCII capital letters made small.
pub open spec fn lowered(s: Seq<char>) -> Seq<char> {
    Seq::new(s.len(), |i: int| lower(s[i]))
}

/// Equality up to the case of ASCII letters.
pub open spec fn same_ignoring_case(a: Seq<char>, b: Seq<char>) -> bool {
    &&& a.len() == b.len()
    &&& forall|i: int| 0 <= i < a.len() ==> lower(#[trigger] a[i]) == lower(b[i])
}

/// `a` comes before `b` in the order of their characters.
pub open spec fn ordered_before(a: Seq<char>, b: Seq<char>) -> bool {
    exists|n: int|
        {
            &&& 0 <= n <= a.len()
            &&& n < b.len()
            &&& #[trigger] a.take(n) == b.take(n)
            &&& n == a.len() || a[n] < b[n]
        }
}

/// The text in an optional string.
pub open spec fn text_of(s: Option<String>) -> Option<Seq<char>> {
    match s {
        Some(s) => Some(s@),
        None => None,
    }
}

/// The text in an optional string slice.
pub open spec fn slice_of(s: Option<&str>) -> Option<Seq<char>> {
    match s {
        Some(s) => Some(s@),
        None => None,
    }
}

/// The texts in a list of strings.
pub open spec fn views(list: Seq<String>) -> Seq<Seq<char>> {
    Seq::new(list.len(), |i: int| list[i]@)
}

/// `s` is one of the texts in `list`.
pub open spec fn among(list: Seq<String>, s: Seq<char>) -> bool {
    exists|i: int| 0 <= i < list.len() && (#[trigger] list[i])@ == s
}

// ---------------------------------------------------------------------------
// Reading text
// ---------------------------------------------------------------------------

/// The characters of `s`.
pub fn chars_of(s: &str) -> (v: Vec<char>)
    ensures
        v@ == s@,
{
    let mut v: Vec<char> = Vec::new();
    for c in it: s.chars()
        invariant
            v@ == it.seq().take(it.index() as int),
            it.seq() == s@,
    {
        v.push(c);
    }
    v
}

/// Whether two texts are equal.
pub fn same(a: &str, b: &str) -> (r: bool)
    ensures
        r == (a@ == b@),
{
    let x = chars_of(a);
    let y = chars_of(b);
    if x.len() != y.len() {
        return false;
    }
    let mut i: usize = 0;
    while i < x.len()
        invariant
            i <= x.len(),
            x@ == a@,
            y@ == b@,
            x.len() == y.len(),
            forall|j: int| 0 <= j < i ==> x@[j] == y@[j],
        decreases x.len() - i,
    {
        if x[i] != y[i] {
            return false;
        }
        i += 1;
    }
    assert(x@ =~= y@);
    true
}

/// Whether `c` is white space.
pub fn white_space(c: char) -> (r: bool)
    ensures
        r == is_white_space(c),
{
    ('\u{9}' <= c && c <= '\u{d}') || c == '\u{20}' || c == '\u{85}' || c == '\u{a0}' || c
        == '\u{1680}' || ('\u{2000}' <= c && c <= '\u{200a}') || c == '\u{2028}' || c == '\u{2029}'
        || c == '\u{202f}' || c == '\u{205f}' || c == '\u{3000}'
}

proof fn lemma_leading(s: Seq<char>, p: spec_fn(char) -> bool, n: int)
    requires
        0 <= n <= s.len(),
        forall|j: int| 0 <= j < n ==> p(#[trigger] s[j]),
        n == s.len() || !p(s[n]),
    ensures
        without_leading(s, p) == s.skip(n),
    decreases n,
{
    if n > 0 {
        assert forall|j: int| 0 <= j < n - 1 implies p(#[trigger] s.drop_first()[j]) by {
            assert(p(s[j + 1]));
        }
        assert(p(s[0]));
        lemma_leading(s.drop_first(), p, n - 1);
        assert(s.drop_first().skip(n - 1) =~= s.skip(n));
    } else {
        assert(s.skip(0) =~= s);
    }
}

proof fn lemma_trailing(s: Seq<char>, p: spec_fn(char) -> bool, n: int)
    requires
        0 <= n <= s.len(),
        forall|j: int| n <= j < s.len() ==> p(#[trigger] s[j]),
        n == 0 || !p(s[n - 1]),
    ensures
        without_trailing(s, p) == s.take(n),
    decreases s.len() - n,
{
    if n < s.len() {
        assert(p(s[s.len() - 1]));
        lemma_trailing(s.drop_last(), p, n);
        assert(s.drop_last().take(n) =~= s.take(n));
    } else {
        assert(s.take(n) =~= s);
    }
}

/// `s` without white space on either side.
pub fn trim<'a>(s: &'a str) -> (r: &'a str)
    ensures
        r@ == trimmed(s@),
{
    let v = chars_of(s);
    let mut from: usize = 0;
    while from < v.len() && white_space(v[from])
        invariant
            from <= v.len(),
            forall|j: int| 0 <= j < from ==> is_white_space(#[trigger] v@[j]),
        decreases v.len() - from,
    {
        from += 1;
    }
    let mut to: usize = v.len();
    while to > from && white_space(v[to - 1])
        invariant
            from <= to <= v.len(),
            forall|j: int| to <= j < v.len() ==> is_white_space(#[trigger] v@[j]),
        decreases to,
    {
        to -= 1;
    }
    proof {
        let p = |c: char| is_white_space(c);
        lemma_leading(s@, p, from as int);
        let rest = s@.skip(from as int);
        assert forall|j: int| to - from <= j < rest.len() implies p(#[trigger] rest[j]) by {
            assert(rest[j] == v@[j + from]);
        }
        lemma_trailing(rest, p, to - from);
        assert(rest.take(to - from) =~= s@.subrange(from as int, to as int));
    }
    s.substring_char(from, to)
}

/// `s` without the copies of `c` that it starts with.
pub fn trim_start_char<'a>(s: &'a str, c: char) -> (r: &'a str)
    ensures
        r@ == without_leading_char(s@, c),
{
    let v = chars_of(s);
    let mut from: usize = 0;
    while from < v.len() && v[from] == c
        invariant
            from <= v.len(),
            forall|j: int| 0 <= j < from ==> v@[j] == c,
        decreases v.len() - from,
    {
        from += 1;
    }
    proof {
        lemma_leading(s@, equal_to(c), from as int);
        assert(s@.skip(from as int) =~= s@.subrange(from as int, v@.len() as int));
    }
    s.substring_char(from, v.len())
}

/// `s` without the copies of `c` that it ends in.
pub fn trim_end_char<'a>(s: &'a str, c: char) -> (r: &'a str)
    ensures
        r@ == without_trailing_char(s@, c),
{
    let v = chars_of(s);
    let mut to: usize = v.len();
    while to > 0 && v[to - 1] == c
        invariant
            to <= v.len(),
            forall|j: int| to <= j < v.len() ==> v@[j] == c,
        decreases to,
    {
        to -= 1;
    }
    proof {
        lemma_trailing(s@, equal_to(c), to as int);
        assert(s@.take(to as int) =~= s@.subrange(0, to as int));
    }
    s.substring_char(0, to)
}

proof fn lemma_split_first(s: Seq<char>, c: char, i: int)
    requires
        first_at(s, c, i),
    ensures
        split_first(s, c) == Some((s.take(i), s.skip(i + 1))),
{
    assert(s.contains(c));
    let k = choose|k: int| first_at(s, c, k);
    assert(first_at(s, c, k));
    assert(k == i) by {
        if k < i {
            assert(s[k] != c);
        } else if i < k {
            assert(s[i] != c);
        }
    }
}

proof fn lemma_split_last(s: Seq<char>, c: char, i: int)
    requires
        last_at(s, c, i),
    ensures
        split_last(s, c) == Some((s.take(i), s.skip(i + 1))),
{
    assert(s.contains(c));
    let k = choose|k: int| last_at(s, c, k);
    assert(last_at(s, c, k));
    assert(k == i) by {
        if k > i {
            assert(s[k] != c);
        } else if i > k {
            assert(s[i] != c);
        }
    }
}

/// Splits `s` at the first `c`.
pub fn split_once<'a>(s: &'a str, c: char) -> (r: Option<(&'a str, &'a str)>)
    ensures
        match r {
            Some((a, b)) => split_first(s@, c) == Some((a@, b@)),
            None => split_first(s@, c) is None,
        },
{
    let v = chars_of(s);
    let mut i: usize = 0;
    while i < v.len()
        invariant
            i <= v.len(),
            v@ == s@,
            forall|j: int| 0 <= j < i ==> v@[j] != c,
        decreases v.len() - i,
    {
        if v[i] == c {
            proof {
                lemma_split_first(s@, c, i as int);
                assert(s@.take(i as int) =~= s@.subrange(0, i as int));
                assert(s@.skip(i + 1) =~= s@.subrange(i + 1, v@.len() as int));
            }
            return Some((s.substring_char(0, i), s.substring_char(i + 1, v.len())));
        }
        i += 1;
    }
    None
}

/// Splits `s` at the last `c`.
pub fn rsplit_once<'a>(s: &'a str, c: char) -> (r: Option<(&'a str, &'a str)>)
    ensures
        match r {
            Some((a, b)) => split_last(s@, c) == Some((a@, b@)),
            None => split_last(s@, c) is None,
        },
{
    let v = chars_of(s);
    let mut n: usize = v.len();
    while n > 0
        invariant
            n <= v.len(),
            v@ == s@,
            forall|j: int| n <= j < v.len() ==> v@[j] != c,
        decreases n,
    {
        if v[n - 1] == c {
            proof {
                lemma_split_last(s@, c, n - 1);
                assert(s@.take(n - 1) =~= s@.subrange(0, n - 1));
                assert(s@.skip(n as int) =~= s@.subrange(n as int, v@.len() as int));
            }
            return Some((s.substring_char(0, n - 1), s.substring_char(n, v.len())));
        }
        n -= 1;
    }
    None
}

/// What stands before the first `c`, or all of `s`.
pub fn head_of<'a>(s: &'a str, c: char) -> (r: &'a str)
    ensures
        r@ == before_first(s@, c),
{
    match split_once(s, c) {
        Some((head, _)) => head,
        None => s,
    }
}

/// What stands after the last `c`, or all of `s`.
pub fn tail_of<'a>(s: &'a str, c: char) -> (r: &'a str)
    ensures
        r@ == after_last(s@, c),
{
    match rsplit_once(s, c) {
        Some((_, tail)) => tail,
        None => s,
    }
}

/// Whether `s` starts with `prefix`.
pub fn starts_with(s: &str, prefix: &str) -> (r: bool)
    ensures
        r == prefix@.is_prefix_of(s@),
{
    let n = prefix.unicode_len();
    if s.unicode_len() < n {
        return false;
    }
    let head = s.substring_char(0, n);
    same(head, prefix)
}

/// `s` without `prefix`, where it starts with it.
pub fn strip_prefix<'a>(s: &'a str, prefix: &str) -> (r: Option<&'a str>)
    ensures
        match r {
            Some(rest) => prefix@.is_prefix_of(s@) && rest@ == s@.skip(prefix@.len() as int),
            None => !prefix@.is_prefix_of(s@),
        },
{
    if starts_with(s, prefix) {
        let total = s.unicode_len();
        let n = prefix.unicode_len();
        assert(s@.skip(n as int) =~= s@.subrange(n as int, total as int));
        Some(s.substring_char(n, total))
    } else {
        None
    }
}

/// `c` with an ASCII capital letter made small.
fn to_lower(c: char) -> (r: char)
    ensures
        r == lower(c),
{
    if 'A' <= c && c <= 'Z' {
        ((c as u8) + 32) as char
    } else {
        c
    }
}

/// Whether two texts are equal up to the case of ASCII letters.
pub fn eq_ignore_case(a: &str, b: &str) -> (r: bool)
    ensures
        r == same_ignoring_case(a@, b@),
{
    let x = chars_of(a);
    let y = chars_of(b);
    if x.len() != y.len() {
        return false;
    }
    let mut i: usize = 0;
    while i < x.len()
        invariant
            i <= x.len(),
            x@ == a@,
            y@ == b@,
            x.len() == y.len(),
            forall|j: int| 0 <= j < i ==> lower(#[trigger] a@[j]) == lower(b@[j]),
        decreases x.len() - i,
    {
        if to_lower(x[i]) != to_lower(y[i]) {
            assert(lower(a@[i as int]) != lower(b@[i as int]));
            return false;
        }
        i += 1;
    }
    true
}

/// Whether `s` is one of the texts in `list`.
pub fn is_among(list: &Vec<String>, s: &str) -> (r: bool)
    ensures
        r == among(list@, s@),
{
    let mut i: usize = 0;
    while i < list.len()
        invariant
            i <= list.len(),
            forall|j: int| 0 <= j < i ==> (#[trigger] list@[j])@ != s@,
        decreases list.len() - i,
    {
        if same(list[i].as_str(), s) {
            assert(list@[i as int]@ == s@);
            return true;
        }
        i += 1;
    }
    false
}

/// Adding a string to a list adds its text.
pub broadcast proof fn views_push(list: Seq<String>, s: String)
    ensures
        #[trigger] views(list.push(s)) == views(list).push(s@),
{
    assert(views(list.push(s)) =~= views(list).push(s@));
}

/// Without its trailing copies of `c`, a text does not end in `c`.
pub proof fn no_copies_trail(s: Seq<char>, c: char)
    ensures
        without_trailing_char(s, c).len() == 0 || without_trailing_char(s, c).last() != c,
    decreases s.len(),
{
    if s.len() > 0 && s.last() == c {
        no_copies_trail(s.drop_last(), c);
    }
}

/// A text joined at a separator splits into its two parts again, where the
/// first part does not hold the separator.
pub proof fn split_at_separator(a: Seq<char>, b: Seq<char>, c: char)
    requires
        forall|i: int| 0 <= i < a.len() ==> a[i] != c,
    ensures
        split_first(a + seq![c] + b, c) == Some((a, b)),
{
    let s = a + seq![c] + b;
    assert(first_at(s, c, a.len() as int));
    lemma_split_first(s, c, a.len() as int);
    assert(s.take(a.len() as int) =~= a);
    assert(s.skip(a.len() as int + 1) =~= b);
}

/// Nothing but white space.
pub open spec fn is_blank(s: Seq<char>) -> bool {
    forall|i: int| 0 <= i < s.len() ==> is_white_space(#[trigger] s[i])
}

/// Trimming keeps what stands between two places with blanks outside them.
proof fn lemma_trimmed_between(s: Seq<char>, from: int, to: int)
    requires
        0 <= from <= to <= s.len(),
        is_blank(s.take(from)),
        is_blank(s.skip(to)),
        from < to ==> !is_white_space(s[from]) && !is_white_space(s[to - 1]),
    ensures
        trimmed(s) == s.subrange(from, to),
{
    let p = |c: char| is_white_space(c);
    assert forall|j: int| 0 <= j < from implies p(#[trigger] s[j]) by {
        assert(is_white_space(s.take(from)[j]));
    }
    assert forall|j: int| to <= j < s.len() implies p(#[trigger] s[j]) by {
        assert(is_white_space(s.skip(to)[j - to]));
    }
    if from == to {
        lemma_leading(s, p, s.len() as int);
        assert(s.skip(s.len() as int) =~= Seq::<char>::empty());
        assert(s.subrange(from, to) =~= Seq::<char>::empty());
    } else {
        lemma_leading(s, p, from);
        let rest = s.skip(from);
        assert forall|j: int| to - from <= j < rest.len() implies p(#[trigger] rest[j]) by {
            assert(p(s[j + from]));
        }
        lemma_trailing(rest, p, to - from);
        assert(rest.take(to - from) =~= s.subrange(from, to));
    }
}

/// Where trimming cuts a text.
proof fn lemma_cuts(s: Seq<char>) -> (cuts: (int, int))
    ensures
        0 <= cuts.0 <= cuts.1 <= s.len(),
        is_blank(s.take(cuts.0)),
        is_blank(s.skip(cuts.1)),
        cuts.0 < cuts.1 ==> !is_white_space(s[cuts.0]) && !is_white_space(s[cuts.1 - 1]),
    decreases s.len(),
{
    if s.len() == 0 {
        (0, 0)
    } else if is_white_space(s[0]) {
        let rest = s.drop_first();
        let (from, to) = lemma_cuts(rest);
        assert forall|i: int| 0 <= i < from + 1 implies is_white_space(
            #[trigger] s.take(from + 1)[i],
        ) by {
            if i > 0 {
                assert(is_white_space(rest.take(from)[i - 1]));
            }
        }
        assert(s.skip(to + 1) =~= rest.skip(to));
        (from + 1, to + 1)
    } else if is_white_space(s.last()) {
        let rest = s.drop_last();
        let (from, to) = lemma_cuts(rest);
        assert(s.take(from) =~= rest.take(from));
        assert forall|i: int| 0 <= i < s.len() - to implies is_white_space(
            #[trigger] s.skip(to)[i],
        ) by {
            if i < s.len() - to - 1 {
                assert(is_white_space(rest.skip(to)[i]));
            }
        }
        (from, to)
    } else {
        (0, s.len() as int)
    }
}

/// White space around a text does not change what trimming leaves of it.
pub proof fn trimming_ignores_padding(a: Seq<char>, s: Seq<char>, b: Seq<char>)
    requires
        is_blank(a),
        is_blank(b),
    ensures
        trimmed(a + s + b) == trimmed(s),
{
    let (from, to) = lemma_cuts(s);
    let t = a + s + b;
    let n = a.len() as int;
    lemma_trimmed_between(s, from, to);
    assert forall|i: int| 0 <= i < n + from implies is_white_space(#[trigger] t.take(n + from)[i]) by {
        if i < n {
            assert(is_white_space(a[i]));
        } else {
            assert(is_white_space(s.take(from)[i - n]));
        }
    }
    assert forall|i: int| 0 <= i < t.len() - n - to implies is_white_space(
        #[trigger] t.skip(n + to)[i],
    ) by {
        if i < s.len() - to {
            assert(is_white_space(s.skip(to)[i]));
        } else {
            assert(is_white_space(b[i - (s.len() - to)]));
        }
    }
    lemma_trimmed_between(t, n + from, n + to);
    assert(t.subrange(n + from, n + to) =~= s.subrange(from, to));
}

/// A text without white space is trimmed already.
pub proof fn solid_text_is_trimmed(s: Seq<char>)
    requires
        forall|i: int| 0 <= i < s.len() ==> !is_white_space(#[trigger] s[i]),
    ensures
        trimmed(s) == s,
{
    lemma_trimmed_between(s, 0, s.len() as int);
    assert(s.subrange(0, s.len() as int) =~= s);
}

/// A character that occurs has a first place.
pub proof fn first_exists(s: Seq<char>, c: char)
    requires
        s.contains(c),
    ensures
        exists|i: int| first_at(s, c, i),
    decreases s.len(),
{
    let front = s.drop_last();
    if front.contains(c) {
        first_exists(front, c);
        let i = choose|i: int| first_at(front, c, i);
        assert forall|j: int| 0 <= j < i implies s[j] != c by {
            assert(front[j] != c);
        }
        assert(first_at(s, c, i));
    } else {
        assert forall|j: int| 0 <= j < s.len() - 1 implies s[j] != c by {
            assert(front[j] == s[j]);
        }
        assert(first_at(s, c, s.len() - 1));
    }
}

/// A character that occurs has a last place.
pub proof fn last_exists(s: Seq<char>, c: char)
    requires
        s.contains(c),
    ensures
        exists|i: int| last_at(s, c, i),
    decreases s.len(),
{
    if s.last() == c {
        assert(last_at(s, c, s.len() - 1));
    } else {
        let front = s.drop_last();
        let k = choose|k: int| 0 <= k < s.len() && s[k] == c;
        assert(front[k] == c);
        last_exists(front, c);
        let i = choose|i: int| last_at(front, c, i);
        assert(last_at(s, c, i)) by {
            assert forall|j: int| i < j < s.len() implies s[j] != c by {
                if j < front.len() {
                    assert(front[j] == s[j]);
                }
            }
        }
    }
}

/// Cutting copies of `c` off the end leaves the start as it was.
pub proof fn trailing_cut_keeps_start(s: Seq<char>, c: char)
    ensures
        without_trailing_char(s, c).is_prefix_of(s),
    decreases s.len(),
{
    if s.len() > 0 && s.last() == c {
        trailing_cut_keeps_start(s.drop_last(), c);
    }
}

/// Whether `s` starts with the character `c`.
pub fn starts_with_char(s: &str, c: char) -> (r: bool)
    ensures
        r == (s@.len() > 0 && s@[0] == c),
{
    let v = chars_of(s);
    v.len() > 0 && v[0] == c
}

/// The texts of a list, one after the other, with a separator between them.
pub open spec fn joined_by(list: Seq<Seq<char>>, separator: Seq<char>) -> Seq<char>
    decreases list.len(),
{
    if list.len() == 0 {
        Seq::empty()
    } else if list.len() == 1 {
        list[0]
    } else {
        joined_by(list.drop_last(), separator) + separator + list.last()
    }
}

/// The texts of a list, one after the other, with a separator between them.
pub fn join(list: &Vec<String>, separator: &str) -> (r: String)
    ensures
        r@ == joined_by(views(list@), separator@),
{
    let ghost texts = views(list@);
    if list.len() == 0 {
        proof {
            reveal_strlit("");
            assert(""@ =~= Seq::empty());
        }
        return "".to_owned();
    }
    let mut out = list[0].clone();
    let mut i: usize = 1;
    assert(texts.take(1)[0] == out@);
    while i < list.len()
        invariant
            1 <= i <= list.len(),
            texts == views(list@),
            out@ == joined_by(texts.take(i as int), separator@),
        decreases list.len() - i,
    {
        assert(texts.take(i + 1).drop_last() =~= texts.take(i as int));
        out.append(separator);
        out.append(list[i].as_str());
        i += 1;
    }
    assert(texts.take(list.len() as int) =~= texts);
    out
}

/// What orders two texts of one length orders them between what stands before
/// and behind them.
pub proof fn order_shows_within(
    start: Seq<char>,
    a: Seq<char>,
    b: Seq<char>,
    rest_a: Seq<char>,
    rest_b: Seq<char>,
)
    requires
        a.len() == b.len(),
        ordered_before(a, b),
    ensures
        ordered_before(start + a + rest_a, start + b + rest_b),
{
    let n = choose|n: int|
        {
            &&& 0 <= n <= a.len()
            &&& n < b.len()
            &&& #[trigger] a.take(n) == b.take(n)
            &&& n == a.len() || a[n] < b[n]
        };
    let x = start + a + rest_a;
    let y = start + b + rest_b;
    let m = start.len() + n;
    assert(x.take(m) =~= start + a.take(n));
    assert(y.take(m) =~= start + b.take(n));
    assert(x[m] == a[n]);
    assert(y[m] == b[n]);
}

/// No text comes before itself.
pub proof fn order_is_strict(a: Seq<char>)
    ensures
        !ordered_before(a, a),
{
}

// ---------------------------------------------------------------------------
// Laws
// ---------------------------------------------------------------------------

/// Case is ignored for the letters `a` to `z` and for nothing else: two texts
/// are taken for the same exactly where each character is the same, or is the
/// capital or the small form of the other.
pub proof fn only_letter_case_is_ignored(a: &str, b: &str, r: bool)
    requires
        call_ensures(eq_ignore_case, (a, b), r),
    ensures
        r <==> a@.len() == b@.len() && forall|i: int|
            0 <= i < a@.len() ==> {
                let x = #[trigger] a@[i];
                let y = b@[i];
                ||| x == y
                ||| 'A' <= x <= 'Z' && y as int == x as int + 32
                ||| 'A' <= y <= 'Z' && x as int == y as int + 32
            },
{
    if a@.len() == b@.len() {
        assert forall|i: int| 0 <= i < a@.len() implies (lower(#[trigger] a@[i]) == lower(b@[i])) == {
            let x = a@[i];
            let y = b@[i];
            ||| x == y
            ||| 'A' <= x <= 'Z' && y as int == x as int + 32
            ||| 'A' <= y <= 'Z' && x as int == y as int + 32
        } by {}
    }
}

/// Texts that are the same up to case have the same characters, made small.
pub proof fn small_letters_decide(a: Seq<char>, b: Seq<char>)
    ensures
        same_ignoring_case(a, b) <==> lowered(a) == lowered(b),
{
    if lowered(a) == lowered(b) {
        assert(lowered(a).len() == lowered(b).len());
        assert forall|i: int| 0 <= i < a.len() implies lower(#[trigger] a[i]) == lower(b[i]) by {
            assert(lowered(a)[i] == lowered(b)[i]);
        }
    }
    if same_ignoring_case(a, b) {
        assert(lowered(a) =~= lowered(b));
    }
}

/// Splitting takes a text apart at the first separator, and joining the parts
/// around it gives the text back; only a text without it is not split.
pub proof fn splitting_is_undone_by_joining(s: &str, c: char, r: Option<(&str, &str)>)
    requires
        call_ensures(split_once, (s, c), r),
    ensures
        r is None <==> !s@.contains(c),
        r matches Some((a, b)) ==> s@ == a@ + seq![c] + b@ && !a@.contains(c),
{
    if s@.contains(c) {
        first_exists(s@, c);
        let i = choose|i: int| first_at(s@, c, i);
        lemma_split_first(s@, c, i);
        assert(s@ =~= s@.take(i) + seq![c] + s@.skip(i + 1));
    }
}

/// Splitting at the last separator leaves none behind it.
pub proof fn splitting_last_is_undone_by_joining(s: &str, c: char, r: Option<(&str, &str)>)
    requires
        call_ensures(rsplit_once, (s, c), r),
    ensures
        r is None <==> !s@.contains(c),
        r matches Some((a, b)) ==> s@ == a@ + seq![c] + b@ && !b@.contains(c),
{
    if s@.contains(c) {
        last_exists(s@, c);
        let i = choose|i: int| last_at(s@, c, i);
        lemma_split_last(s@, c, i);
        assert(s@ =~= s@.take(i) + seq![c] + s@.skip(i + 1));
        let rest = s@.skip(i + 1);
        assert(!rest.contains(c)) by {
            if rest.contains(c) {
                let j = choose|j: int| 0 <= j < rest.len() && rest[j] == c;
                assert(s@[j + i + 1] != c);
            }
        }
    }
}

/// What stands before the first separator holds none, and what follows it in
/// the text is either nothing or starts with it.
pub proof fn heads_hold_no_separator(s: &str, c: char, r: &str)
    requires
        call_ensures(head_of, (s, c), r),
    ensures
        !r@.contains(c),
        r@.is_prefix_of(s@),
        r@ != s@ ==> s@.len() > r@.len() && s@[r@.len() as int] == c,
{
    if s@.contains(c) {
        first_exists(s@, c);
        let i = choose|i: int| first_at(s@, c, i);
        lemma_split_first(s@, c, i);
        assert(s@[i] == c);
    }
}

/// What stands behind the last separator holds none, and what comes before it
/// in the text is either nothing or ends in it.
pub proof fn tails_hold_no_separator(s: &str, c: char, r: &str)
    requires
        call_ensures(tail_of, (s, c), r),
    ensures
        !r@.contains(c),
        r@.is_suffix_of(s@),
        r@ != s@ ==> s@.len() > r@.len() && s@[s@.len() - r@.len() - 1] == c,
{
    if s@.contains(c) {
        last_exists(s@, c);
        let i = choose|i: int| last_at(s@, c, i);
        lemma_split_last(s@, c, i);
        assert(s@.skip(i + 1) =~= s@.subrange(i + 1, s@.len() as int));
        let rest = s@.skip(i + 1);
        assert(!rest.contains(c)) by {
            if rest.contains(c) {
                let j = choose|j: int| 0 <= j < rest.len() && rest[j] == c;
                assert(s@[j + i + 1] != c);
            }
        }
    }
}

/// White space is the characters with these numbers.
pub proof fn white_space_has_these_numbers(c: char, r: bool)
    requires
        call_ensures(white_space, (c,), r),
    ensures
        r <==> ({
            let n = c as int;
            ||| 9 <= n <= 13
            ||| n == 32 || n == 133 || n == 160 || n == 5760
            ||| 8192 <= n <= 8202
            ||| n == 8232 || n == 8233 || n == 8239 || n == 8287 || n == 12288
        }),
{
}

/// Trimming takes blanks off both ends and nothing else: what is left has no
/// white space at either end, and blanks around it make up the text.
pub proof fn trimming_takes_blanks_off(s: &str, r: &str)
    requires
        call_ensures(trim, (s,), r),
    ensures
        r@.len() > 0 ==> !is_white_space(r@[0]) && !is_white_space(r@.last()),
        exists|a: Seq<char>, b: Seq<char>|
            #![trigger is_blank(a), is_blank(b)]
            is_blank(a) && is_blank(b) && s@ == a + r@ + b,
{
    let (from, to) = lemma_cuts(s@);
    lemma_trimmed_between(s@, from, to);
    let a = s@.take(from);
    let b = s@.skip(to);
    assert(s@ =~= a + r@ + b);
    assert(is_blank(a) && is_blank(b));
}

/// Cutting a character off the start takes all of its copies there, and
/// nothing else.
pub proof fn leading_copies_are_cut(s: &str, c: char, r: &str)
    requires
        call_ensures(trim_start_char, (s, c), r),
    ensures
        r@.is_suffix_of(s@),
        r@.len() > 0 ==> r@[0] != c,
        forall|i: int| 0 <= i < s@.len() - r@.len() ==> #[trigger] s@[i] == c,
{
    lemma_leading_cut(s@, c);
}

/// How the copies of a character at the start are cut.
proof fn lemma_leading_cut(s: Seq<char>, c: char)
    ensures
        ({
            let r = without_leading_char(s, c);
            &&& r.is_suffix_of(s)
            &&& r.len() > 0 ==> r[0] != c
            &&& forall|i: int| 0 <= i < s.len() - r.len() ==> #[trigger] s[i] == c
        }),
    decreases s.len(),
{
    let r = without_leading_char(s, c);
    if s.len() > 0 && s[0] == c {
        let rest = s.drop_first();
        lemma_leading_cut(rest, c);
        assert(without_leading_char(rest, c) == r);
        assert(s.subrange(s.len() - r.len(), s.len() as int) =~= rest.subrange(
            rest.len() - r.len(),
            rest.len() as int,
        ));
        assert forall|i: int| 0 <= i < s.len() - r.len() implies #[trigger] s[i] == c by {
            if i > 0 {
                assert(rest[i - 1] == c);
            }
        }
    } else {
        assert(s.subrange(0, s.len() as int) =~= s);
    }
}

/// Cutting a character off the end takes all of its copies there, and nothing
/// else.
pub proof fn trailing_copies_are_cut(s: &str, c: char, r: &str)
    requires
        call_ensures(trim_end_char, (s, c), r),
    ensures
        r@.is_prefix_of(s@),
        r@.len() > 0 ==> r@.last() != c,
        forall|i: int| r@.len() <= i < s@.len() ==> #[trigger] s@[i] == c,
{
    no_copies_trail(s@, c);
    trailing_cut_keeps_start(s@, c);
    lemma_trailing_cut(s@, c);
}

/// What is cut off the end is copies of the character.
proof fn lemma_trailing_cut(s: Seq<char>, c: char)
    ensures
        forall|i: int|
            without_trailing_char(s, c).len() <= i < s.len() ==> #[trigger] s[i] == c,
    decreases s.len(),
{
    if s.len() > 0 && s.last() == c {
        let rest = s.drop_last();
        lemma_trailing_cut(rest, c);
        assert forall|i: int| without_trailing_char(s, c).len() <= i < s.len() implies #[trigger] s[i]
            == c by {
            if i < rest.len() {
                assert(rest[i] == c);
            }
        }
    }
}

/// What follows a prefix, behind that prefix, is the text.
pub proof fn prefixes_and_the_rest_make_the_text(s: &str, prefix: &str, r: Option<&str>, b: bool)
    requires
        call_ensures(strip_prefix, (s, prefix), r),
        call_ensures(starts_with, (s, prefix), b),
    ensures
        b == r is Some,
        r matches Some(rest) ==> s@ == prefix@ + rest@,
        r is None ==> forall|rest: Seq<char>| s@ != #[trigger] (prefix@ + rest),
{
    if r is Some {
        assert(s@ =~= prefix@ + r->Some_0@);
    } else {
        assert forall|rest: Seq<char>| s@ != #[trigger] (prefix@ + rest) by {
            assert((prefix@ + rest).subrange(0, prefix@.len() as int) =~= prefix@);
        }
    }
}

/// A longer list joins to what the shorter one joins to, a separator and the
/// new text; a list of one joins to its text, and an empty one to nothing.
pub proof fn joining_adds_a_separator(
    list: &Vec<String>,
    longer: &Vec<String>,
    last: String,
    separator: &str,
    r: String,
    r_longer: String,
)
    requires
        longer@ == list@.push(last),
        call_ensures(join, (list, separator), r),
        call_ensures(join, (longer, separator), r_longer),
    ensures
        list@.len() == 0 ==> r@.len() == 0 && r_longer@ == last@,
        list@.len() > 0 ==> r_longer@ == r@ + separator@ + last@,
{
    assert(views(longer@) =~= views(list@).push(last@));
    assert(views(longer@).drop_last() =~= views(list@));
}

/// What stands behind the last separator, for a text that is put together.
pub(crate) proof fn lemma_after_last(a: Seq<char>, b: Seq<char>, c: char, s: Seq<char>)
    requires
        !b.contains(c),
        s == a + seq![c] + b || s == b,
    ensures
        after_last(s, c) == b,
{
    if s.contains(c) {
        let i = a.len() as int;
        assert(last_at(s, c, i)) by {
            assert forall|j: int| i < j < s.len() implies s[j] != c by {
                assert(s[j] == b[j - i - 1]);
                assert(b.contains(b[j - i - 1]));
            }
        }
        lemma_split_last(s, c, i);
        assert(s.skip(i + 1) =~= b);
    } else {
        assert(s == b) by {
            if s == a + seq![c] + b {
                assert(s[a.len() as int] == c);
            }
        }
    }
}

} // verus!
