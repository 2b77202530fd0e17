//! Character-level text utilities: searching, splitting, trimming, decimal
//! numbers and joining, each specified over `Seq<char>`.

use crate::trusted::{char_is_numeric, char_is_whitespace, numeric_char, whitespace_char};
use vstd::prelude::*;

verus! {

broadcast use vstd::string::group_string_axioms;

// ---------------------------------------------------------------------------
// Conversions between strings and character vectors
// ---------------------------------------------------------------------------

/// The characters of a string slice, collected into a vector.
pub fn chars_of(s: &str) -> (r: Vec<char>)
    ensures
        r@ == s@,
{
    let mut r: Vec<char> = Vec::new();
    for c in it: s.chars()
        invariant
            it.seq() == s@,
            r@ == it.seq().take(it.index() as int),
    {
        r.push(c);
    }
    r
}

/// Appends a sequence of characters to a string.
pub fn push_chars(out: &mut String, v: &Vec<char>)
    ensures
        final(out)@ == old(out)@ + v@,
{
    let n = v.len();
    for i in 0..n
        invariant
            n == v@.len(),
            out@ == old(out)@ + v@.take(i as int),
    {
        out.push(v[i]);
        assert(v@.take(i + 1) =~= v@.take(i as int).push(v@[i as int]));
    }
    assert(v@.take(n as int) =~= v@);
}

/// A string holding exactly the given characters.
pub fn string_of(v: &Vec<char>) -> (r: String)
    ensures
        r@ == v@,
{
    let mut r = String::new();
    push_chars(&mut r, v);
    assert(r@ =~= v@);
    r
}

/// Appends a string slice to a string.
pub fn push_str(out: &mut String, s: &str)
    ensures
        final(out)@ == old(out)@ + s@,
{
    out.append(s);
}

// ---------------------------------------------------------------------------
// Character classes
// ---------------------------------------------------------------------------

/// A class of characters that text is split or trimmed by.
#[derive(Clone, Copy)]
pub enum CharClass {
    /// Characters with the Unicode `White_Space` property.
    Whitespace,
    /// The full stop `.`.
    Dot,
    /// The line feed `\n`.
    Newline,
    /// Characters that are neither numeric nor `.`, the ones trimmed off an address.
    NotAddress,
}

/// Whether a character belongs to a class.
pub open spec fn in_class(cls: CharClass, c: char) -> bool {
    match cls {
        CharClass::Whitespace => whitespace_char(c),
        CharClass::Dot => c == '.',
        CharClass::Newline => c == '\n',
        CharClass::NotAddress => !numeric_char(c) && c != '.',
    }
}

/// Decides whether a character belongs to a class.
pub fn char_in_class(cls: CharClass, c: char) -> (r: bool)
    ensures
        r == in_class(cls, c),
{
    match cls {
        CharClass::Whitespace => char_is_whitespace(c),
        CharClass::Dot => c == '.',
        CharClass::Newline => c == '\n',
        CharClass::NotAddress => !char_is_numeric(c) && c != '.',
    }
}

// ---------------------------------------------------------------------------
// Searching
// ---------------------------------------------------------------------------

/// Index of the first occurrence of `c` in `s`.
pub open spec fn first_index(s: Seq<char>, c: char) -> Option<int>
    decreases s.len(),
{
    if s.len() == 0 {
        None
    } else if s[0] == c {
        Some(0)
    } else {
        match first_index(s.drop_first(), c) {
            Some(i) => Some(i + 1),
            None => None,
        }
    }
}

/// `first_index` finds the least index holding `c`, and `None` means there is none.
pub proof fn lemma_first_index(s: Seq<char>, c: char)
    ensures
        match first_index(s, c) {
            Some(i) => 0 <= i < s.len() && s[i] == c && forall|j: int| 0 <= j < i ==> s[j] != c,
            None => forall|j: int| 0 <= j < s.len() ==> s[j] != c,
        },
    decreases s.len(),
{
    if s.len() > 0 && s[0] != c {
        lemma_first_index(s.drop_first(), c);
        assert forall|j: int| 1 <= j < s.len() implies s[j] == s.drop_first()[j - 1] by {}
    }
}

/// Index of the last occurrence of `c` in `s`.
pub open spec fn last_index(s: Seq<char>, c: char) -> Option<int>
    decreases s.len(),
{
    if s.len() == 0 {
        None
    } else if s.last() == c {
        Some(s.len() - 1)
    } else {
        last_index(s.drop_last(), c)
    }
}

/// `last_index` finds the greatest index holding `c`, and `None` means there is none.
pub proof fn lemma_last_index(s: Seq<char>, c: char)
    ensures
        match last_index(s, c) {
            Some(i) => 0 <= i < s.len() && s[i] == c && forall|j: int| i < j < s.len() ==> s[j]
                != c,
            None => forall|j: int| 0 <= j < s.len() ==> s[j] != c,
        },
    decreases s.len(),
{
    if s.len() > 0 && s.last() != c {
        lemma_last_index(s.drop_last(), c);
        assert forall|j: int| 0 <= j < s.len() - 1 implies s.drop_last()[j] == s[j] by {}
    }
}

/// Finds the first occurrence of a character.
pub fn find_char(s: &Vec<char>, c: char) -> (r: Option<usize>)
    ensures
        match r {
            Some(i) => first_index(s@, c) == Some(i as int),
            None => first_index(s@, c) is None,
        },
{
    proof {
        lemma_first_index(s@, c);
    }
    let n = s.len();
    for i in 0..n
        invariant
            n == s@.len(),
            forall|j: int| 0 <= j < i ==> s@[j] != c,
            match first_index(s@, c) {
                Some(k) => 0 <= k < s@.len() && s@[k] == c && forall|j: int| 0 <= j < k ==> s@[j]
                    != c,
                None => forall|j: int| 0 <= j < s@.len() ==> s@[j] != c,
            },
    {
        if s[i] == c {
            return Some(i);
        }
    }
    None
}

/// Finds the last occurrence of a character.
pub fn rfind_char(s: &Vec<char>, c: char) -> (r: Option<usize>)
    ensures
        match r {
            Some(i) => last_index(s@, c) == Some(i as int),
            None => last_index(s@, c) is None,
        },
{
    proof {
        lemma_last_index(s@, c);
    }
    let n = s.len();
    let mut i = n;
    while i > 0
        invariant
            n == s@.len(),
            i <= n,
            forall|j: int| i <= j < n ==> s@[j] != c,
            match last_index(s@, c) {
                Some(k) => 0 <= k < s@.len() && s@[k] == c && forall|j: int| k < j < s@.len()
                    ==> s@[j] != c,
                None => forall|j: int| 0 <= j < s@.len() ==> s@[j] != c,
            },
        decreases i,
    {
        if s[i - 1] == c {
            return Some(i - 1);
        }
        i = i - 1;
    }
    None
}

/// Whether a character occurs in a sequence.
pub fn contains_char(s: &Vec<char>, c: char) -> (r: bool)
    ensures
        r == s@.contains(c),
{
    proof {
        lemma_first_index(s@, c);
    }
    match find_char(s, c) {
        Some(i) => {
            assert(s@[i as int] == c);
            true
        },
        None => false,
    }
}

/// Whether `pat` occurs in `s` starting at index `i`.
pub open spec fn occurs_at(s: Seq<char>, pat: Seq<char>, i: int) -> bool {
    0 <= i && i + pat.len() <= s.len() && s.subrange(i, i + pat.len()) == pat
}

/// Index of the first occurrence of the sequence `pat` in `s`.
pub open spec fn first_match(s: Seq<char>, pat: Seq<char>) -> Option<int>
    decreases s.len(),
{
    if pat.len() > s.len() {
        None
    } else if s.take(pat.len() as int) == pat {
        Some(0)
    } else if s.len() == 0 {
        None
    } else {
        match first_match(s.drop_first(), pat) {
            Some(i) => Some(i + 1),
            None => None,
        }
    }
}

/// `first_match` finds the least index at which `pat` occurs, and `None` means it does not.
pub proof fn lemma_first_match(s: Seq<char>, pat: Seq<char>)
    ensures
        match first_match(s, pat) {
            Some(i) => occurs_at(s, pat, i) && forall|j: int| 0 <= j < i ==> !occurs_at(s, pat, j),
            None => forall|j: int| !occurs_at(s, pat, j),
        },
    decreases s.len(),
{
    if pat.len() > s.len() {
    } else if s.take(pat.len() as int) == pat {
        assert(s.subrange(0, pat.len() as int) == s.take(pat.len() as int));
    } else if s.len() == 0 {
        assert(s.take(pat.len() as int) =~= pat);
    } else {
        let t = s.drop_first();
        lemma_first_match(t, pat);
        assert(!occurs_at(s, pat, 0)) by {
            assert(s.subrange(0, pat.len() as int) == s.take(pat.len() as int));
        }
        assert forall|j: int| 0 <= j implies occurs_at(s, pat, j + 1) == occurs_at(t, pat, j) by {
            if j + 1 + pat.len() <= s.len() {
                assert(s.subrange(j + 1, j + 1 + pat.len()) =~= t.subrange(j, j + pat.len()));
            }
        }
        match first_match(t, pat) {
            Some(i) => {
                assert forall|j: int| 0 <= j < i + 1 implies !occurs_at(s, pat, j) by {
                    if j > 0 {
                        assert(occurs_at(s, pat, (j - 1) + 1) == occurs_at(t, pat, j - 1));
                    }
                }
            },
            None => {
                assert forall|j: int| !occurs_at(s, pat, j) by {
                    if j > 0 {
                        assert(occurs_at(s, pat, (j - 1) + 1) == occurs_at(t, pat, j - 1));
                    }
                }
            },
        }
    }
}

/// Whether `pat` occurs in `s` at index `i` (exec).
fn matches_at(s: &Vec<char>, pat: &Vec<char>, i: usize) -> (r: bool)
    requires
        i + pat@.len() <= s@.len(),
    ensures
        r == occurs_at(s@, pat@, i as int),
{
    let m = pat.len();
    let n = s.len();
    for k in 0..m
        invariant
            m == pat@.len(),
            n == s@.len(),
            i + m <= n,
            forall|j: int| 0 <= j < k ==> s@[i + j] == pat@[j],
    {
        assert(i + k < s@.len());
        if s[i + k] != pat[k] {
            assert(s@.subrange(i as int, i + m)[k as int] != pat@[k as int]);
            return false;
        }
    }
    assert(s@.subrange(i as int, i + m) =~= pat@);
    true
}

/// Finds the first occurrence of a character sequence.
pub fn find_seq(s: &Vec<char>, pat: &Vec<char>) -> (r: Option<usize>)
    ensures
        match r {
            Some(i) => first_match(s@, pat@) == Some(i as int),
            None => first_match(s@, pat@) is None,
        },
{
    proof {
        lemma_first_match(s@, pat@);
    }
    let n = s.len();
    let m = pat.len();
    if m > n {
        return None;
    }
    let last = n - m;
    let mut i: usize = 0;
    loop
        invariant
            n == s@.len(),
            m == pat@.len(),
            last + m == n,
            i <= last,
            forall|j: int| 0 <= j < i ==> !occurs_at(s@, pat@, j),
            match first_match(s@, pat@) {
                Some(k) => occurs_at(s@, pat@, k) && forall|j: int|
                    0 <= j < k ==> !occurs_at(s@, pat@, j),
                None => forall|j: int| !occurs_at(s@, pat@, j),
            },
        decreases last - i,
    {
        if matches_at(s, pat, i) {
            return Some(i);
        }
        if i == last {
            assert forall|j: int| !occurs_at(s@, pat@, j) by {}
            return None;
        }
        i = i + 1;
    }
}

// ---------------------------------------------------------------------------
// Splitting
// ---------------------------------------------------------------------------

/// The character sequences held by a sequence of character vectors.
pub open spec fn char_vecs(v: Seq<Vec<char>>) -> Seq<Seq<char>> {
    v.map_values(|x: Vec<char>| x@)
}

/// The pieces of `s` between characters of the class (like `str::split`): there is
/// always one piece more than there are separators, and pieces may be empty.
pub open spec fn pieces(s: Seq<char>, cls: CharClass) -> Seq<Seq<char>>
    decreases s.len(),
{
    if s.len() == 0 {
        seq![Seq::empty()]
    } else {
        let p = pieces(s.drop_last(), cls);
        if in_class(cls, s.last()) {
            p.push(Seq::empty())
        } else {
            p.update(p.len() - 1, p.last().push(s.last()))
        }
    }
}

/// There is always at least one piece.
pub proof fn lemma_pieces_len(s: Seq<char>, cls: CharClass)
    ensures
        pieces(s, cls).len() >= 1,
    decreases s.len(),
{
    if s.len() > 0 {
        lemma_pieces_len(s.drop_last(), cls);
    }
}

/// The non-empty members of a sequence of pieces, in order.
pub open spec fn nonempty(ps: Seq<Seq<char>>) -> Seq<Seq<char>>
    decreases ps.len(),
{
    if ps.len() == 0 {
        Seq::empty()
    } else if ps.last().len() > 0 {
        nonempty(ps.drop_last()).push(ps.last())
    } else {
        nonempty(ps.drop_last())
    }
}

/// The words of `s`: its non-empty pieces between characters of the class (like
/// `str::split_whitespace` for white space).
pub open spec fn words(s: Seq<char>, cls: CharClass) -> Seq<Seq<char>> {
    nonempty(pieces(s, cls))
}

/// Splits a character sequence at every character of the class.
pub fn split_by(s: &Vec<char>, cls: CharClass) -> (r: Vec<Vec<char>>)
    ensures
        char_vecs(r@) == pieces(s@, cls),
{
    let n = s.len();
    let mut done: Vec<Vec<char>> = Vec::new();
    let mut cur: Vec<char> = Vec::new();
    for i in 0..n
        invariant
            n == s@.len(),
            char_vecs(done@).push(cur@) == pieces(s@.take(i as int), cls),
    {
        let c = s[i];
        proof {
            lemma_pieces_len(s@.take(i as int), cls);
            assert(s@.take(i + 1).drop_last() =~= s@.take(i as int));
            assert(s@.take(i + 1).last() == c);
        }
        let ghost before = char_vecs(done@);
        let ghost cur_before = cur@;
        if char_in_class(cls, c) {
            done.push(cur);
            cur = Vec::new();
            assert(char_vecs(done@) =~= before.push(cur_before));
            assert(char_vecs(done@).push(cur@) =~= before.push(cur_before).push(Seq::empty()));
        } else {
            cur.push(c);
            assert(char_vecs(done@).push(cur@) =~= before.push(cur_before).update(
                before.len() as int,
                cur_before.push(c),
            ));
        }
    }
    assert(s@.take(n as int) =~= s@);
    done.push(cur);
    done
}

/// A copy of a character vector.
pub fn copy_chars(v: &Vec<char>) -> (r: Vec<char>)
    ensures
        r@ == v@,
{
    let mut r: Vec<char> = Vec::new();
    let n = v.len();
    for i in 0..n
        invariant
            n == v@.len(),
            r@ == v@.take(i as int),
    {
        r.push(v[i]);
        assert(v@.take(i + 1) =~= v@.take(i as int).push(v@[i as int]));
    }
    assert(v@.take(n as int) =~= v@);
    r
}

/// The characters of `v` from index `a` up to, not including, index `b`.
pub fn sub_chars(v: &Vec<char>, a: usize, b: usize) -> (r: Vec<char>)
    requires
        a <= b <= v@.len(),
    ensures
        r@ == v@.subrange(a as int, b as int),
{
    let mut r: Vec<char> = Vec::new();
    for i in a..b
        invariant
            a <= b <= v@.len(),
            r@ == v@.subrange(a as int, i as int),
    {
        r.push(v[i]);
        assert(v@.subrange(a as int, i + 1) =~= v@.subrange(a as int, i as int).push(v@[i as int]));
    }
    r
}

/// Keeps the non-empty pieces.
pub fn keep_nonempty(ps: &Vec<Vec<char>>) -> (r: Vec<Vec<char>>)
    ensures
        char_vecs(r@) == nonempty(char_vecs(ps@)),
{
    let n = ps.len();
    let mut r: Vec<Vec<char>> = Vec::new();
    let ghost all = char_vecs(ps@);
    for k in 0..n
        invariant
            n == all.len(),
            all == char_vecs(ps@),
            char_vecs(r@) == nonempty(all.take(k as int)),
    {
        proof {
            assert(all.take(k + 1).drop_last() =~= all.take(k as int));
            assert(all.take(k + 1).last() == all[k as int]);
            assert(all[k as int] == ps@[k as int]@);
        }
        if ps[k].len() > 0 {
            let p = copy_chars(&ps[k]);
            r.push(p);
            assert(char_vecs(r@) =~= nonempty(all.take(k as int)).push(all[k as int]));
        }
    }
    assert(all.take(n as int) =~= all);
    r
}

/// The words of a character sequence for a class.
pub fn words_by(s: &Vec<char>, cls: CharClass) -> (r: Vec<Vec<char>>)
    ensures
        char_vecs(r@) == words(s@, cls),
{
    let ps = split_by(s, cls);
    keep_nonempty(&ps)
}

// ---------------------------------------------------------------------------
// Trimming
// ---------------------------------------------------------------------------

/// `s` without its leading characters of the class.
pub open spec fn trim_front(s: Seq<char>, cls: CharClass) -> Seq<char>
    decreases s.len(),
{
    if s.len() > 0 && in_class(cls, s[0]) {
        trim_front(s.drop_first(), cls)
    } else {
        s
    }
}

/// `s` without its trailing characters of the class.
pub open spec fn trim_back(s: Seq<char>, cls: CharClass) -> Seq<char>
    decreases s.len(),
{
    if s.len() > 0 && in_class(cls, s.last()) {
        trim_back(s.drop_last(), cls)
    } else {
        s
    }
}

/// `s` without leading and trailing characters of the class (like `str::trim_matches`).
pub open spec fn trimmed(s: Seq<char>, cls: CharClass) -> Seq<char> {
    trim_back(trim_front(s, cls), cls)
}

/// Removes leading and trailing characters of a class.
pub fn trim_by(s: &Vec<char>, cls: CharClass) -> (r: Vec<char>)
    ensures
        r@ == trimmed(s@, cls),
{
    let n = s.len();
    let mut a: usize = 0;
    assert(s@.skip(0) =~= s@);
    while a < n && char_in_class(cls, s[a])
        invariant
            n == s@.len(),
            a <= n,
            trim_front(s@, cls) == trim_front(s@.skip(a as int), cls),
        decreases n - a,
    {
        assert(s@.skip(a as int).drop_first() =~= s@.skip(a + 1));
        a = a + 1;
    }
    assert(trim_front(s@, cls) == s@.subrange(a as int, n as int)) by {
        assert(s@.skip(a as int) =~= s@.subrange(a as int, n as int));
    }
    let mut b: usize = n;
    while b > a && char_in_class(cls, s[b - 1])
        invariant
            n == s@.len(),
            a <= b <= n,
            trimmed(s@, cls) == trim_back(s@.subrange(a as int, b as int), cls),
        decreases b,
    {
        assert(s@.subrange(a as int, b as int).drop_last() =~= s@.subrange(a as int, b - 1));
        b = b - 1;
    }
    let mut r: Vec<char> = Vec::new();
    for i in a..b
        invariant
            n == s@.len(),
            a <= b <= n,
            r@ == s@.subrange(a as int, i as int),
    {
        r.push(s[i]);
        assert(s@.subrange(a as int, i + 1) =~= s@.subrange(a as int, i as int).push(s@[i as int]));
    }
    r
}

// ---------------------------------------------------------------------------
// Decimal numbers
// ---------------------------------------------------------------------------

/// An ASCII decimal digit.
pub open spec fn is_digit(c: char) -> bool {
    '0' <= c && c <= '9'
}

/// The value of an ASCII decimal digit.
pub open spec fn digit_value(c: char) -> nat {
    ((c as int) - ('0' as int)) as nat
}

/// The character of a decimal digit value.
pub open spec fn digit_char(d: nat) -> char {
    (('0' as int) + d) as char
}

/// Every character of `s` is an ASCII decimal digit.
pub open spec fn all_digits(s: Seq<char>) -> bool {
    forall|i: int| 0 <= i < s.len() ==> #[trigger] is_digit(s[i])
}

/// The value of a sequence of decimal digits, most significant first.
pub open spec fn digits_value(s: Seq<char>) -> nat
    decreases s.len(),
{
    if s.len() == 0 {
        0
    } else {
        digits_value(s.drop_last()) * 10 + digit_value(s.last())
    }
}

/// The value of an unsigned integer written as an optional `+` followed by one or more
/// decimal digits (the text `u8::from_str` and `u32::from_str` accept).
pub open spec fn unsigned_value(s: Seq<char>) -> Option<nat> {
    let d = if s.len() > 0 && s[0] == '+' {
        s.drop_first()
    } else {
        s
    };
    if d.len() > 0 && all_digits(d) {
        Some(digits_value(d))
    } else {
        None
    }
}

/// The value of an unsigned integer text that does not exceed `max`.
pub open spec fn bounded_value(s: Seq<char>, max: nat) -> Option<nat> {
    match unsigned_value(s) {
        Some(v) => if v <= max {
            Some(v)
        } else {
            None
        },
        None => None,
    }
}

/// Digit values never decrease when digits are appended.
proof fn lemma_digits_value_prefix(s: Seq<char>, i: int)
    requires
        0 <= i <= s.len(),
    ensures
        digits_value(s.take(i)) <= digits_value(s),
    decreases s.len(),
{
    if i < s.len() {
        lemma_digits_value_prefix(s.drop_last(), i);
        assert(s.drop_last().take(i) =~= s.take(i));
    } else {
        assert(s.take(i) =~= s);
    }
}

/// Parses an unsigned decimal integer no greater than `max`, as `str::parse` does for an
/// unsigned integer type whose greatest value is `max`.
pub fn parse_unsigned(s: &Vec<char>, max: u32) -> (r: Option<u32>)
    ensures
        match r {
            Some(v) => bounded_value(s@, max as nat) == Some(v as nat),
            None => bounded_value(s@, max as nat) is None,
        },
{
    let n = s.len();
    let start: usize = if n > 0 && s[0] == '+' {
        1
    } else {
        0
    };
    let ghost d = if s@.len() > 0 && s@[0] == '+' {
        s@.drop_first()
    } else {
        s@
    };
    assert(d =~= s@.skip(start as int));
    if start >= n {
        return None;
    }
    let mut acc: u32 = 0;
    let mut i: usize = start;
    assert(s@.subrange(start as int, start as int) =~= Seq::<char>::empty());
    while i < n
        invariant
            n == s@.len(),
            start <= i <= n,
            start < n,
            d == s@.skip(start as int),
            d == (if s@.len() > 0 && s@[0] == '+' {
                s@.drop_first()
            } else {
                s@
            }),
            d.len() == n - start,
            all_digits(s@.subrange(start as int, i as int)),
            acc as nat == digits_value(s@.subrange(start as int, i as int)),
            acc <= max,
        decreases n - i,
    {
        let c = s[i];
        let ghost prefix = s@.subrange(start as int, i + 1);
        assert(prefix.drop_last() =~= s@.subrange(start as int, i as int));
        assert(prefix.last() == c);
        assert(d[i - start] == c);
        if !('0' <= c && c <= '9') {
            assert(!is_digit(d[i - start]));
            return None;
        }
        let dv: u32 = (c as u32) - ('0' as u32);
        assert(digit_value(c) == dv);
        if acc > max / 10 || dv > max - acc * 10 {
            proof {
                assert(digits_value(prefix) == acc * 10 + dv);
                assert(d.take(i + 1 - start) =~= prefix);
                lemma_digits_value_prefix(d, i + 1 - start);
            }
            return None;
        }
        acc = acc * 10 + dv;
        assert(all_digits(prefix)) by {
            assert forall|j: int| 0 <= j < prefix.len() implies #[trigger] is_digit(prefix[j]) by {
                if j < prefix.len() - 1 {
                    assert(prefix[j] == s@.subrange(start as int, i as int)[j]);
                }
            }
        }
        i = i + 1;
    }
    assert(s@.subrange(start as int, n as int) =~= d);
    Some(acc)
}

/// A digit value written as a character reads back as that value.
proof fn lemma_digit_char(d: nat)
    requires
        d < 10,
    ensures
        is_digit(digit_char(d)),
        digit_value(digit_char(d)) == d,
        digit_char(d) != '+',
{
    assert((('0' as int) + d) as char as int == ('0' as int) + d);
}

/// The decimal digits of a natural number, without leading zeros.
pub open spec fn decimal(n: nat) -> Seq<char>
    decreases n,
{
    if n < 10 {
        seq![digit_char(n)]
    } else {
        decimal(n / 10).push(digit_char(n % 10))
    }
}

/// Decimal text reads back as the number it was made from.
pub proof fn lemma_decimal_value(n: nat)
    ensures
        decimal(n).len() > 0,
        all_digits(decimal(n)),
        digits_value(decimal(n)) == n,
        decimal(n)[0] != '+',
        unsigned_value(decimal(n)) == Some(n),
    decreases n,
{
    if n < 10 {
        lemma_digit_char(n);
        assert(decimal(n).drop_last() =~= Seq::<char>::empty());
        assert(decimal(n).last() == digit_char(n));
        assert(digits_value(decimal(n).drop_last()) == 0);
        assert(digits_value(decimal(n)) == n);
        assert(is_digit(decimal(n)[0]));
    } else {
        lemma_decimal_value(n / 10);
        lemma_digit_char(n % 10);
        let p = decimal(n / 10);
        assert(decimal(n).drop_last() =~= p);
        assert forall|i: int| 0 <= i < decimal(n).len() implies #[trigger] is_digit(
            decimal(n)[i],
        ) by {
            if i < p.len() {
                assert(decimal(n)[i] == p[i]);
            }
        }
        assert(decimal(n)[0] == p[0]);
        assert(decimal(n).last() == digit_char(n % 10));
        assert(digits_value(decimal(n)) == digits_value(p) * 10 + (n % 10));
        assert(is_digit(decimal(n)[0]));
    }
}

/// Appends the decimal digits of `n`.
pub fn push_decimal(out: &mut String, n: u64)
    ensures
        final(out)@ == old(out)@ + decimal(n as nat),
    decreases n,
{
    if n >= 10 {
        push_decimal(out, n / 10);
    }
    let d: u8 = (n % 10) as u8;
    let c: char = (('0' as u8) + d) as char;
    assert(c == digit_char((n % 10) as nat));
    out.push(c);
    assert(out@ =~= old(out)@ + decimal(n as nat));
}

/// The decimal text of `n`.
pub fn decimal_string(n: u64) -> (r: String)
    ensures
        r@ == decimal(n as nat),
{
    let mut r = String::new();
    push_decimal(&mut r, n);
    assert(r@ =~= decimal(n as nat));
    r
}

// ---------------------------------------------------------------------------
// Joining and lines
// ---------------------------------------------------------------------------

/// The members of `parts` with `sep` between each two of them (like `join`).
pub open spec fn joined(parts: Seq<Seq<char>>, sep: Seq<char>) -> Seq<char>
    decreases parts.len(),
{
    if parts.len() == 0 {
        Seq::empty()
    } else if parts.len() == 1 {
        parts[0]
    } else {
        joined(parts.drop_last(), sep) + sep + parts.last()
    }
}

/// Each member of a joined sequence occurs in the joined text.
pub proof fn lemma_joined_contains(parts: Seq<Seq<char>>, sep: Seq<char>, i: int) -> (k: int)
    requires
        0 <= i < parts.len(),
    ensures
        occurs_at(joined(parts, sep), parts[i], k),
    decreases parts.len(),
{
    let j = joined(parts, sep);
    if parts.len() == 1 {
        assert(j.subrange(0, parts[0].len() as int) =~= parts[0]);
        0
    } else if i == parts.len() - 1 {
        let pre = joined(parts.drop_last(), sep) + sep;
        assert(j == pre + parts.last());
        let k = pre.len() as int;
        assert(j.subrange(k, k + parts[i].len()) =~= parts[i]);
        k
    } else {
        let k = lemma_joined_contains(parts.drop_last(), sep, i);
        let jj = joined(parts.drop_last(), sep);
        assert(parts.drop_last()[i] == parts[i]);
        assert(j == jj + sep + parts.last());
        assert(j.subrange(k, k + parts[i].len()) =~= jj.subrange(k, k + parts[i].len()));
        k
    }
}

/// Whether `t` occurs somewhere in `s`.
pub open spec fn contains_text(s: Seq<char>, t: Seq<char>) -> bool {
    exists|k: int| #[trigger] occurs_at(s, t, k)
}

/// The character sequences held by a sequence of strings.
pub open spec fn string_views(v: Seq<String>) -> Seq<Seq<char>> {
    v.map_values(|x: String| x@)
}

/// Joins strings with a separator.
pub fn join_strings(parts: &Vec<String>, sep: &str) -> (r: String)
    ensures
        r@ == joined(string_views(parts@), sep@),
{
    let mut r = String::new();
    let n = parts.len();
    let ghost all = string_views(parts@);
    for i in 0..n
        invariant
            n == all.len(),
            all == string_views(parts@),
            r@ == joined(all.take(i as int), sep@),
    {
        assert(all.take(i + 1).drop_last() =~= all.take(i as int));
        assert(all[i as int] == parts@[i as int]@);
        if i > 0 {
            push_str(&mut r, sep);
        } else {
            assert(r@ =~= Seq::<char>::empty());
        }
        push_str(&mut r, parts[i].as_str());
        assert(r@ =~= joined(all.take(i + 1), sep@));
    }
    assert(all.take(n as int) =~= all);
    r
}

/// A line without one carriage return at its end.
pub open spec fn strip_cr(l: Seq<char>) -> Seq<char> {
    if l.len() > 0 && l.last() == '\r' {
        l.drop_last()
    } else {
        l
    }
}

/// The lines of a text, as `str::lines` gives them: split at `\n`, each `\r\n` counted as
/// one line ending, and a final line ending yields no empty line after it.
pub open spec fn lines(s: Seq<char>) -> Seq<Seq<char>> {
    let p = pieces(s, CharClass::Newline);
    let n = p.len();
    let k = if p[n - 1].len() == 0 {
        n - 1
    } else {
        n as int
    };
    Seq::new(
        k as nat,
        |i: int|
            if i < n - 1 {
                strip_cr(p[i])
            } else {
                p[i]
            },
    )
}

/// Drops one carriage return at the end of a line.
fn strip_cr_vec(l: &mut Vec<char>)
    ensures
        final(l)@ == strip_cr(old(l)@),
{
    let n = l.len();
    if n > 0 && l[n - 1] == '\r' {
        l.pop();
        assert(l@ =~= old(l)@.drop_last());
    }
}

/// The lines of a text.
pub fn lines_of(s: &Vec<char>) -> (r: Vec<Vec<char>>)
    ensures
        char_vecs(r@) == lines(s@),
{
    proof {
        lemma_pieces_len(s@, CharClass::Newline);
    }
    let ps = split_by(s, CharClass::Newline);
    let ghost p = pieces(s@, CharClass::Newline);
    let n = ps.len();
    let keep: usize = if ps[n - 1].len() == 0 {
        n - 1
    } else {
        n
    };
    let mut r: Vec<Vec<char>> = Vec::new();
    for k in 0..keep
        invariant
            n == p.len(),
            p == char_vecs(ps@),
            p == pieces(s@, CharClass::Newline),
            n >= 1,
            keep <= n,
            keep == (if p[n - 1].len() == 0 {
                n - 1
            } else {
                n as int
            }),
            char_vecs(r@) == lines(s@).take(k as int),
    {
        let mut l = copy_chars(&ps[k]);
        assert(l@ == p[k as int]);
        if k + 1 < n {
            strip_cr_vec(&mut l);
        }
        assert(p == pieces(s@, CharClass::Newline));
        assert(lines(s@).len() == keep);
        assert(lines(s@)[k as int] == l@);
        let ghost before = char_vecs(r@);
        r.push(l);
        assert(char_vecs(r@) =~= before.push(lines(s@)[k as int]));
        assert(char_vecs(r@) =~= lines(s@).take(k + 1));
    }
    assert(lines(s@).take(keep as int) =~= lines(s@));
    r
}

} // verus!
