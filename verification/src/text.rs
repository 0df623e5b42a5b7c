//! Text primitives: splitting, trimming, number formatting.
//!
//! A string is modelled by the sequence of its characters. Every function
//! below states its result as a function of that sequence.

use vstd::prelude::*;

verus! {

/// The characters of `s`, in order.
pub fn chars_of(s: &str) -> (v: Vec<char>)
    ensures
        v@ == s@,
{
    let mut v: Vec<char> = Vec::new();
    for c in it: s.chars()
        invariant
            it.seq() == s@,
            v@ == it.seq().take(it.index()),
    {
        v.push(c);
    }
    v
}

/// An owned copy of `s`.
pub fn owned(s: &str) -> (r: String)
    ensures
        r@ == s@,
{
    s.to_owned()
}

/// Whether `c` is among `chars`.
pub fn contains_char(chars: &Vec<char>, c: char) -> (r: bool)
    ensures
        r == chars@.contains(c),
{
    let mut i: usize = 0;
    while i < chars.len()
        invariant
            i <= chars.len(),
            forall|j: int| 0 <= j < i ==> chars@[j] != c,
        decreases chars.len() - i,
    {
        if chars[i] == c {
            assert(chars@[i as int] == c);
            return true;
        }
        i = i + 1;
    }
    false
}

/// The text `a` followed by the text `b`.
pub fn concat(a: &str, b: &str) -> (r: String)
    ensures
        r@ == a@ + b@,
{
    let mut r: String = a.to_owned();
    r.append(b);
    r
}

/// The text `a` followed by `b` and `c`.
pub fn concat3(a: &str, b: &str, c: &str) -> (r: String)
    ensures
        r@ == a@ + b@ + c@,
{
    let mut r: String = a.to_owned();
    r.append(b);
    r.append(c);
    r
}

/// Whether two texts hold the same characters.
pub fn same_text(a: &str, b: &str) -> (r: bool)
    ensures
        r == (a@ == b@),
{
    let x: Vec<char> = chars_of(a);
    let y: Vec<char> = chars_of(b);
    if x.len() != y.len() {
        return false;
    }
    let mut i: usize = 0;
    while i < x.len()
        invariant
            i <= x.len(),
            x.len() == y.len(),
            x@ == a@,
            y@ == b@,
            forall|j: int| 0 <= j < i ==> x@[j] == y@[j],
        decreases x.len() - i,
    {
        if x[i] != y[i] {
            return false;
        }
        i = i + 1;
    }
    assert(a@ =~= b@);
    true
}

/// The texts that a list of strings holds.
pub open spec fn texts(list: Seq<String>) -> Seq<Seq<char>> {
    Seq::new(list.len(), |i: int| list[i]@)
}

/// The text pairs that a list of string pairs holds.
pub open spec fn text_pairs(list: Seq<(String, String)>) -> Seq<(Seq<char>, Seq<char>)> {
    Seq::new(list.len(), |i: int| (list[i].0@, list[i].1@))
}

/// The text in an optional string.
pub open spec fn text_opt(s: Option<String>) -> Option<Seq<char>> {
    match s {
        Some(t) => Some(t@),
        None => None,
    }
}

/// A copy of a list of strings.
pub fn copy_texts(list: &Vec<String>) -> (r: Vec<String>)
    ensures
        r@ == list@,
{
    let mut r: Vec<String> = Vec::new();
    let mut i: usize = 0;
    while i < list.len()
        invariant
            i <= list.len(),
            r@ == list@.take(i as int),
        decreases list.len() - i,
    {
        r.push(list[i].clone());
        i = i + 1;
        assert(list@.take(i as int) =~= list@.take(i - 1).push(list@[i - 1]));
    }
    assert(list@.take(i as int) =~= list@);
    r
}

/// A copy of a list of string pairs.
pub fn copy_text_pairs(list: &Vec<(String, String)>) -> (r: Vec<(String, String)>)
    ensures
        r@ == list@,
{
    let mut r: Vec<(String, String)> = Vec::new();
    let mut i: usize = 0;
    while i < list.len()
        invariant
            i <= list.len(),
            r@ == list@.take(i as int),
        decreases list.len() - i,
    {
        r.push((list[i].0.clone(), list[i].1.clone()));
        i = i + 1;
        assert(list@.take(i as int) =~= list@.take(i - 1).push(list@[i - 1]));
    }
    assert(list@.take(i as int) =~= list@);
    r
}

// ---------------------------------------------------------------------
// Prefixes, suffixes, occurrences
// ---------------------------------------------------------------------
/// Whether `s` begins with `prefix`.
pub fn starts_with(s: &str, prefix: &str) -> (r: bool)
    ensures
        r == prefix@.is_prefix_of(s@),
{
    let x: Vec<char> = chars_of(s);
    let p: Vec<char> = chars_of(prefix);
    if p.len() > x.len() {
        return false;
    }
    matches_at(&x, &p, 0)
}

/// Whether `s` ends with `suffix`.
pub fn ends_with(s: &str, suffix: &str) -> (r: bool)
    ensures
        r == suffix@.is_suffix_of(s@),
{
    let x: Vec<char> = chars_of(s);
    let p: Vec<char> = chars_of(suffix);
    if p.len() > x.len() {
        return false;
    }
    matches_at(&x, &p, x.len() - p.len())
}

/// Whether `part` occurs somewhere in `s`.
pub open spec fn occurs_in(part: Seq<char>, s: Seq<char>) -> bool {
    exists|i: int|
        0 <= i <= s.len() - part.len() && #[trigger] s.subrange(i, i + part.len()) == part
}

/// Whether `s` contains `part`.
pub fn contains_text(s: &str, part: &str) -> (r: bool)
    ensures
        r == occurs_in(part@, s@),
{
    let x: Vec<char> = chars_of(s);
    let p: Vec<char> = chars_of(part);
    if p.len() > x.len() {
        return false;
    }
    let last: usize = x.len() - p.len();
    let mut i: usize = 0;
    while i <= last
        invariant
            last == x.len() - p.len(),
            i <= last + 1,
            p.len() <= x.len(),
            x@ == s@,
            p@ == part@,
            forall|j: int| 0 <= j < i ==> #[trigger] s@.subrange(j, j + part@.len()) != part@,
        decreases last + 1 - i,
    {
        if matches_at(&x, &p, i) {
            return true;
        }
        if i == last {
            return false;
        }
        i = i + 1;
    }
    false
}

/// Whether the characters of `p` stand in `x` from position `at` on.
pub fn matches_at(x: &Vec<char>, p: &Vec<char>, at: usize) -> (r: bool)
    requires
        at + p.len() <= x.len(),
    ensures
        r == (x@.subrange(at as int, at + p@.len()) == p@),
{
    let mut i: usize = 0;
    while i < p.len()
        invariant
            i <= p.len(),
            at + p.len() <= x.len(),
            forall|j: int| 0 <= j < i ==> x@[at + j] == p@[j],
        decreases p.len() - i,
    {
        if x[at + i] != p[i] {
            assert(x@.subrange(at as int, at + p@.len())[i as int] != p@[i as int]);
            return false;
        }
        i = i + 1;
    }
    assert(x@.subrange(at as int, at + p@.len()) =~= p@);
    true
}

// ---------------------------------------------------------------------
// Splitting
// ---------------------------------------------------------------------
/// Position of the first `c` in `s`; the length of `s` where there is none.
pub open spec fn first_index<T>(s: Seq<T>, c: T) -> int
    decreases s.len(),
{
    if s.len() == 0 {
        0
    } else if s[0] == c {
        0
    } else {
        1 + first_index(s.skip(1), c)
    }
}

/// What `first_index` finds: no `c` stands before it, and a `c` stands at it
/// unless it is the end.
pub proof fn lemma_first_index<T>(s: Seq<T>, c: T)
    ensures
        0 <= first_index(s, c) <= s.len(),
        forall|j: int| 0 <= j < first_index(s, c) ==> s[j] != c,
        first_index(s, c) < s.len() ==> s[first_index(s, c)] == c,
    decreases s.len(),
{
    if s.len() > 0 && s[0] != c {
        lemma_first_index(s.skip(1), c);
        let k = first_index(s.skip(1), c);
        assert forall|j: int| 0 <= j < first_index(s, c) implies s[j] != c by {
            if j > 0 {
                assert(s.skip(1)[j - 1] == s[j]);
            }
        }
        if k < s.skip(1).len() {
            assert(s.skip(1)[k] == s[k + 1]);
        }
    }
}

/// A position with the properties of the first occurrence is the first
/// occurrence.
pub proof fn lemma_first_index_is<T>(s: Seq<T>, c: T, i: int)
    requires
        0 <= i <= s.len(),
        forall|j: int| 0 <= j < i ==> s[j] != c,
        i < s.len() ==> s[i] == c,
    ensures
        first_index(s, c) == i,
{
    lemma_first_index(s, c);
    let k = first_index(s, c);
    if k < i {
        assert(s[k] != c);
    } else if i < k {
        assert(s[i] != c);
    }
}

/// What stands before and after the first `c`; `None` where there is none.
pub open spec fn split_at_first(s: Seq<char>, c: char) -> Option<(Seq<char>, Seq<char>)> {
    if first_index(s, c) < s.len() {
        Some((s.take(first_index(s, c)), s.skip(first_index(s, c) + 1)))
    } else {
        None
    }
}

/// Splits `s` at its first `c`, which belongs to neither half.
pub fn split_once(s: &str, c: char) -> (r: Option<(String, String)>)
    ensures
        match r {
            Some(halves) => split_at_first(s@, c) == Some((halves.0@, halves.1@)),
            None => split_at_first(s@, c) is None,
        },
{
    let x: Vec<char> = chars_of(s);
    let mut i: usize = 0;
    while i < x.len()
        invariant
            i <= x.len(),
            x@ == s@,
            forall|j: int| 0 <= j < i ==> s@[j] != c,
        decreases x.len() - i,
    {
        if x[i] == c {
            proof {
                lemma_first_index_is(s@, c, i as int);
            }
            let head: String = owned(s.substring_char(0, i));
            let tail: String = owned(s.substring_char(i + 1, x.len()));
            assert(head@ =~= s@.take(i as int));
            assert(tail@ =~= s@.skip(i + 1));
            return Some((head, tail));
        }
        i = i + 1;
    }
    proof {
        lemma_first_index_is(s@, c, i as int);
    }
    None
}

/// Splitting at the first `c` undoes putting a `c` behind a text without one.
pub proof fn lemma_split_at_first_of_join(head: Seq<char>, c: char, tail: Seq<char>)
    requires
        !head.contains(c),
    ensures
        split_at_first(head.push(c) + tail, c) == Some((head, tail)),
{
    let s = head.push(c) + tail;
    assert forall|j: int| 0 <= j < head.len() implies s[j] != c by {
        assert(s[j] == head[j]);
    }
    lemma_first_index_is(s, c, head.len() as int);
    assert(s.take(head.len() as int) =~= head);
    assert(s.skip(head.len() as int + 1) =~= tail);
}

/// The pieces of `s` between separators: one more than there are separators.
pub open spec fn pieces<T>(s: Seq<T>, sep: T) -> Seq<Seq<T>>
    decreases s.len(),
{
    if s.len() == 0 {
        seq![Seq::<T>::empty()]
    } else {
        let before = pieces(s.drop_last(), sep);
        if s.last() == sep {
            before.push(Seq::<T>::empty())
        } else {
            before.drop_last().push(before.last().push(s.last()))
        }
    }
}

/// The texts in `list` with `sep` between neighbours.
pub open spec fn joined<T>(list: Seq<Seq<T>>, sep: T) -> Seq<T>
    decreases list.len(),
{
    if list.len() == 0 {
        Seq::<T>::empty()
    } else if list.len() == 1 {
        list[0]
    } else {
        joined(list.drop_last(), sep).push(sep) + list.last()
    }
}

/// Splitting loses nothing: the pieces joined by the separator are the text,
/// and no piece holds a separator.
pub proof fn lemma_pieces<T>(s: Seq<T>, sep: T)
    ensures
        pieces(s, sep).len() >= 1,
        joined(pieces(s, sep), sep) == s,
        forall|i: int| 0 <= i < pieces(s, sep).len() ==> !(#[trigger] pieces(s, sep)[i]).contains(sep),
    decreases s.len(),
{
    if s.len() == 0 {
        assert(joined(pieces(s, sep), sep) =~= s);
    } else {
        let before = pieces(s.drop_last(), sep);
        lemma_pieces(s.drop_last(), sep);
        let now = pieces(s, sep);
        assert(s.drop_last().push(s.last()) =~= s);
        if s.last() == sep {
            assert(now.drop_last() =~= before);
            assert(joined(now, sep) =~= s);
        } else {
            assert(now.drop_last() =~= before.drop_last());
            if before.len() == 1 {
                assert(joined(now, sep) =~= s);
            } else {
                assert(joined(now, sep) =~= joined(before.drop_last(), sep).push(sep)
                    + before.last().push(s.last()));
                assert(joined(now, sep) =~= s);
            }
            let b = before.last();
            assert(!before[before.len() - 1].contains(sep));
            assert forall|i: int| 0 <= i < now.len() implies !(#[trigger] now[i]).contains(sep) by {
                if i < before.len() - 1 {
                    assert(now[i] == before[i]);
                } else {
                    if now[i].contains(sep) {
                        let k = choose|k: int| 0 <= k < now[i].len() && now[i][k] == sep;
                        assert(b[k] == sep);
                        assert(b.contains(sep));
                    }
                }
            }
        }
    }
}

/// The pieces of two texts with a separator between them are the pieces of the
/// first followed by those of the second.
pub proof fn lemma_pieces_of_concat<T>(a: Seq<T>, sep: T, b: Seq<T>)
    ensures
        pieces(a.push(sep) + b, sep) == pieces(a, sep) + pieces(b, sep),
    decreases b.len(),
{
    let whole = a.push(sep) + b;
    if b.len() == 0 {
        assert(whole =~= a.push(sep));
        assert(whole.drop_last() =~= a);
        assert(pieces(whole, sep) =~= pieces(a, sep) + pieces(b, sep));
    } else {
        lemma_pieces_of_concat(a, sep, b.drop_last());
        lemma_pieces(b.drop_last(), sep);
        assert(whole.drop_last() =~= a.push(sep) + b.drop_last());
        assert(whole.last() == b.last());
        let left = pieces(a, sep);
        let right = pieces(b.drop_last(), sep);
        assert((left + right).drop_last() =~= left + right.drop_last());
        assert((left + right).last() == right.last());
        assert(pieces(whole, sep) =~= left + pieces(b, sep));
    }
}

/// Splitting undoes joining texts that hold no separator.
pub proof fn lemma_pieces_of_joined<T>(list: Seq<Seq<T>>, sep: T)
    requires
        list.len() >= 1,
        forall|i: int| 0 <= i < list.len() ==> !(#[trigger] list[i]).contains(sep),
    ensures
        pieces(joined(list, sep), sep) == list,
    decreases list.len(),
{
    if list.len() == 1 {
        lemma_pieces_without(list[0], sep);
        assert(seq![list[0]] =~= list);
    } else {
        assert forall|i: int| 0 <= i < list.drop_last().len() implies !(
        #[trigger] list.drop_last()[i]).contains(sep) by {
            assert(list.drop_last()[i] == list[i]);
        }
        lemma_pieces_of_joined(list.drop_last(), sep);
        lemma_pieces_of_concat(joined(list.drop_last(), sep), sep, list.last());
        assert(!list[list.len() - 1].contains(sep));
        lemma_pieces_without(list.last(), sep);
        assert(list.drop_last() + seq![list.last()] =~= list);
    }
}

/// A text without separators is one piece.
pub proof fn lemma_pieces_without<T>(s: Seq<T>, sep: T)
    requires
        !s.contains(sep),
    ensures
        pieces(s, sep) == seq![s],
    decreases s.len(),
{
    if s.len() > 0 {
        assert forall|i: int| 0 <= i < s.drop_last().len() implies s.drop_last()[i] != sep by {
            assert(s[i] != sep);
        }
        lemma_pieces_without(s.drop_last(), sep);
        assert(s[s.len() - 1] != sep);
        assert(pieces(s, sep) =~= seq![s.drop_last().push(s.last())]);
        assert(s.drop_last().push(s.last()) =~= s);
    } else {
        assert(s =~= Seq::<T>::empty());
    }
}

/// Splits `s` at every `sep`.
pub fn split_all(s: &str, sep: char) -> (r: Vec<String>)
    ensures
        texts(r@) == pieces(s@, sep),
{
    let x: Vec<char> = chars_of(s);
    let mut r: Vec<String> = Vec::new();
    let mut start: usize = 0;
    let mut i: usize = 0;
    proof {
        assert(s@.take(0) =~= Seq::<char>::empty());
    }
    while i < x.len()
        invariant
            start <= i <= x.len(),
            x@ == s@,
            texts(r@).push(s@.subrange(start as int, i as int)) == pieces(s@.take(i as int), sep),
        decreases x.len() - i,
    {
        let ghost whole = s@.take(i + 1);
        let ghost before = pieces(s@.take(i as int), sep);
        assert(whole.drop_last() =~= s@.take(i as int));
        assert(whole.last() == s@[i as int]);
        assert(before.last() == s@.subrange(start as int, i as int));
        assert(before.drop_last() =~= texts(r@));
        if x[i] == sep {
            let ghost old_r = r@;
            r.push(owned(s.substring_char(start, i)));
            assert(texts(r@) =~= texts(old_r).push(s@.subrange(start as int, i as int)));
            start = i + 1;
            assert(s@.subrange(start as int, i + 1) =~= Seq::<char>::empty());
        } else {
            assert(s@.subrange(start as int, i + 1) =~= s@.subrange(start as int, i as int).push(
                s@[i as int],
            ));
        }
        i = i + 1;
    }
    let ghost old_r = r@;
    r.push(owned(s.substring_char(start, x.len())));
    proof {
        assert(texts(r@) =~= texts(old_r).push(s@.subrange(start as int, i as int)));
        assert(s@.take(i as int) =~= s@);
    }
    r
}

// ---------------------------------------------------------------------
// White space
// ---------------------------------------------------------------------
/// The characters with the Unicode property `White_Space`.
pub open spec fn white_space(c: char) -> bool {
    ||| '\u{9}' <= c <= '\u{d}'
    ||| c == '\u{20}'
    ||| c == '\u{85}'
    ||| c == '\u{a0}'
    ||| c == '\u{1680}'
    ||| '\u{2000}' <= c <= '\u{200a}'
    ||| c == '\u{2028}'
    ||| c == '\u{2029}'
    ||| c == '\u{202f}'
    ||| c == '\u{205f}'
    ||| c == '\u{3000}'
}

/// Whether `c` has the Unicode property `White_Space`.
pub fn is_white_space(c: char) -> (r: bool)
    ensures
        r == white_space(c),
{
    ('\u{9}' <= c && c <= '\u{d}') || c == '\u{20}' || c == '\u{85}' || c == '\u{a0}' || c
        == '\u{1680}' || ('\u{2000}' <= c && c <= '\u{200a}') || c == '\u{2028}' || c == '\u{2029}'
        || c == '\u{202f}' || c == '\u{205f}' || c == '\u{3000}'
}

/// `s` without its leading white space.
pub open spec fn trimmed_start(s: Seq<char>) -> Seq<char>
    decreases s.len(),
{
    if s.len() > 0 && white_space(s[0]) {
        trimmed_start(s.skip(1))
    } else {
        s
    }
}

/// `s` without its trailing white space.
pub open spec fn trimmed_end(s: Seq<char>) -> Seq<char>
    decreases s.len(),
{
    if s.len() > 0 && white_space(s.last()) {
        trimmed_end(s.drop_last())
    } else {
        s
    }
}

/// `s` without the white space at its two ends.
pub open spec fn trimmed(s: Seq<char>) -> Seq<char> {
    trimmed_end(trimmed_start(s))
}

/// The part of `s` between the white space at its two ends.
pub fn trim<'a>(s: &'a str) -> (r: &'a str)
    ensures
        r@ == trimmed(s@),
{
    let x: Vec<char> = chars_of(s);
    let mut i: usize = 0;
    assert(s@.skip(0) =~= s@);
    while i < x.len() && is_white_space(x[i])
        invariant
            i <= x.len(),
            x@ == s@,
            trimmed_start(s@) == trimmed_start(s@.skip(i as int)),
        decreases x.len() - i,
    {
        assert(s@.skip(i as int).skip(1) =~= s@.skip(i + 1));
        i = i + 1;
    }
    assert(trimmed_start(s@) == s@.skip(i as int));
    let mut k: usize = x.len();
    assert(s@.subrange(i as int, k as int) =~= s@.skip(i as int));
    while k > i && is_white_space(x[k - 1])
        invariant
            i <= k <= x.len(),
            x@ == s@,
            trimmed(s@) == trimmed_end(s@.subrange(i as int, k as int)),
        decreases k,
    {
        assert(s@.subrange(i as int, k as int).drop_last() =~= s@.subrange(i as int, k - 1));
        k = k - 1;
    }
    s.substring_char(i, k)
}

/// Length of the run without white space at the start of `s`.
pub open spec fn word_len(s: Seq<char>) -> int
    decreases s.len(),
{
    if s.len() == 0 || white_space(s[0]) {
        0
    } else {
        1 + word_len(s.skip(1))
    }
}

/// The first word of `s` after `n` others: a word is a run without white space.
pub open spec fn nth_word(s: Seq<char>, n: nat) -> Option<Seq<char>>
    decreases n,
{
    let t = trimmed_start(s);
    if t.len() == 0 {
        None
    } else if n == 0 {
        Some(t.take(word_len(t)))
    } else {
        nth_word(t.skip(word_len(t)), (n - 1) as nat)
    }
}

proof fn lemma_word_len(s: Seq<char>, n: int)
    requires
        0 <= n <= s.len(),
        forall|j: int| 0 <= j < n ==> !white_space(s[j]),
        n < s.len() ==> white_space(s[n]),
    ensures
        word_len(s) == n,
    decreases s.len(),
{
    if s.len() > 0 && !white_space(s[0]) {
        assert forall|j: int| 0 <= j < n - 1 implies !white_space(s.skip(1)[j]) by {
            assert(s.skip(1)[j] == s[j + 1]);
        }
        lemma_word_len(s.skip(1), n - 1);
    }
}

/// First position at or after `from` that holds no white space.
fn skip_white_space(x: &Vec<char>, from: usize) -> (i: usize)
    requires
        from <= x.len(),
    ensures
        from <= i <= x.len(),
        trimmed_start(x@.skip(from as int)) == x@.skip(i as int),
{
    let mut i: usize = from;
    while i < x.len() && is_white_space(x[i])
        invariant
            from <= i <= x.len(),
            trimmed_start(x@.skip(from as int)) == trimmed_start(x@.skip(i as int)),
        decreases x.len() - i,
    {
        assert(x@.skip(i as int).skip(1) =~= x@.skip(i + 1));
        i = i + 1;
    }
    i
}

/// First position at or after `from` that holds white space, or the end.
fn skip_word(x: &Vec<char>, from: usize) -> (i: usize)
    requires
        from <= x.len(),
    ensures
        from <= i <= x.len(),
        word_len(x@.skip(from as int)) == i - from,
{
    let mut i: usize = from;
    while i < x.len() && !is_white_space(x[i])
        invariant
            from <= i <= x.len(),
            forall|j: int| from <= j < i ==> !white_space(x@[j]),
        decreases x.len() - i,
    {
        i = i + 1;
    }
    proof {
        let t = x@.skip(from as int);
        assert forall|j: int| 0 <= j < i - from implies !white_space(t[j]) by {
            assert(t[j] == x@[from + j]);
        }
        lemma_word_len(t, i - from);
    }
    i
}

/// The second word of `s`.
pub fn second_word(s: &str) -> (r: Option<String>)
    ensures
        text_opt(r) == nth_word(s@, 1),
{
    let x: Vec<char> = chars_of(s);
    assert(x@.skip(0) =~= x@);
    let a: usize = skip_white_space(&x, 0);
    let b: usize = skip_word(&x, a);
    proof {
        reveal_with_fuel(nth_word, 2);
        assert(x@.skip(a as int).skip(b - a) =~= x@.skip(b as int));
    }
    if a == x.len() {
        return None;
    }
    let c: usize = skip_white_space(&x, b);
    if c == x.len() {
        return None;
    }
    let d: usize = skip_word(&x, c);
    let word: String = owned(s.substring_char(c, d));
    assert(word@ =~= x@.skip(c as int).take(d - c));
    Some(word)
}

// ---------------------------------------------------------------------
// Lines
// ---------------------------------------------------------------------
/// The first line of `s`, without its line ending (`\n` or `\r\n`); `None` for
/// the empty text.
pub open spec fn first_line_of(s: Seq<char>) -> Option<Seq<char>> {
    let i = first_index(s, '\n');
    if s.len() == 0 {
        None
    } else if i == s.len() {
        Some(s)
    } else if i > 0 && s[i - 1] == '\r' {
        Some(s.take(i - 1))
    } else {
        Some(s.take(i))
    }
}

/// The first line of `s`.
pub fn first_line(s: &str) -> (r: Option<String>)
    ensures
        text_opt(r) == first_line_of(s@),
{
    let x: Vec<char> = chars_of(s);
    if x.len() == 0 {
        return None;
    }
    let mut i: usize = 0;
    while i < x.len() && x[i] != '\n'
        invariant
            i <= x.len(),
            x@ == s@,
            forall|j: int| 0 <= j < i ==> s@[j] != '\n',
        decreases x.len() - i,
    {
        i = i + 1;
    }
    proof {
        lemma_first_index_is(s@, '\n', i as int);
    }
    let end: usize = if i < x.len() && i > 0 && x[i - 1] == '\r' {
        i - 1
    } else {
        i
    };
    let line: String = owned(s.substring_char(0, end));
    assert(line@ =~= s@.take(end as int));
    assert(i == x.len() ==> s@.take(end as int) =~= s@);
    Some(line)
}

/// Whether a line begins at position `i` of `s`.
pub open spec fn line_start(s: Seq<char>, i: int) -> bool {
    0 <= i <= s.len() && (i == 0 || s[i - 1] == '\n')
}

/// Whether `prefix` stands in `s` at the start of a line.
pub open spec fn line_begins(s: Seq<char>, prefix: Seq<char>, i: int) -> bool {
    &&& line_start(s, i)
    &&& i + prefix.len() <= s.len()
    &&& s.subrange(i, i + prefix.len()) == prefix
}

/// Whether some line of `s` begins with `prefix`.
pub open spec fn has_line(s: Seq<char>, prefix: Seq<char>) -> bool {
    !prefix.contains('\n') && exists|i: int| #[trigger] line_begins(s, prefix, i)
}

/// Whether some line of `s` begins with `prefix`.
pub fn any_line_starts_with(s: &str, prefix: &str) -> (r: bool)
    ensures
        r == has_line(s@, prefix@),
{
    let x: Vec<char> = chars_of(s);
    let p: Vec<char> = chars_of(prefix);
    if contains_char(&p, '\n') || p.len() > x.len() {
        return false;
    }
    let last: usize = x.len() - p.len();
    let mut i: usize = 0;
    loop
        invariant
            last == x.len() - p.len(),
            p.len() <= x.len(),
            i <= last,
            x@ == s@,
            p@ == prefix@,
            !prefix@.contains('\n'),
            forall|j: int| 0 <= j < i ==> !#[trigger] line_begins(s@, prefix@, j),
        decreases last - i,
    {
        if i == 0 || x[i - 1] == '\n' {
            if matches_at(&x, &p, i) {
                assert(line_begins(s@, prefix@, i as int));
                return true;
            }
        }
        assert(!line_begins(s@, prefix@, i as int));
        if i == last {
            return false;
        }
        i = i + 1;
    }
}

// ---------------------------------------------------------------------
// Numbers
// ---------------------------------------------------------------------
/// The character of a digit below ten.
pub open spec fn digit_char(d: nat) -> char {
    ('0' as int + d) as char
}

/// `n` in decimal, without leading zeros.
pub open spec fn decimal(n: nat) -> Seq<char>
    decreases n,
{
    if n < 10 {
        seq![digit_char(n)]
    } else {
        decimal(n / 10).push(digit_char(n % 10))
    }
}

/// `n` in octal, without leading zeros.
pub open spec fn octal(n: nat) -> Seq<char>
    decreases n,
{
    if n < 8 {
        seq![digit_char(n)]
    } else {
        octal(n / 8).push(digit_char(n % 8))
    }
}

/// The text of one digit.
fn digit_text(d: u64) -> (r: &'static str)
    requires
        d < 10,
    ensures
        r@ == seq![digit_char(d as nat)],
{
    proof {
        reveal_strlit("0");
        reveal_strlit("1");
        reveal_strlit("2");
        reveal_strlit("3");
        reveal_strlit("4");
        reveal_strlit("5");
        reveal_strlit("6");
        reveal_strlit("7");
        reveal_strlit("8");
        reveal_strlit("9");
    }
    let r: &'static str = match d {
        0 => "0",
        1 => "1",
        2 => "2",
        3 => "3",
        4 => "4",
        5 => "5",
        6 => "6",
        7 => "7",
        8 => "8",
        _ => "9",
    };
    assert(r@ =~= seq![digit_char(d as nat)]);
    r
}

/// Formats `n` in decimal.
pub fn decimal_text(n: u64) -> (r: String)
    ensures
        r@ == decimal(n as nat),
    decreases n,
{
    if n < 10 {
        owned(digit_text(n))
    } else {
        let mut r: String = decimal_text(n / 10);
        let ghost before = r@;
        r.append(digit_text(n % 10));
        assert(r@ =~= before.push(digit_char((n % 10) as nat)));
        r
    }
}

/// Formats `n` in octal.
pub fn octal_text(n: u64) -> (r: String)
    ensures
        r@ == octal(n as nat),
    decreases n,
{
    if n < 8 {
        owned(digit_text(n))
    } else {
        let mut r: String = octal_text(n / 8);
        let ghost before = r@;
        r.append(digit_text(n % 8));
        assert(r@ =~= before.push(digit_char((n % 8) as nat)));
        r
    }
}

/// An integer in decimal, with a minus sign where it is negative.
pub open spec fn signed_decimal(n: int) -> Seq<char> {
    if n < 0 {
        "-"@ + decimal((-n) as nat)
    } else {
        decimal(n as nat)
    }
}

/// `n` in decimal, with a minus sign where it is negative.
pub fn signed_text(n: i32) -> (r: String)
    ensures
        r@ == signed_decimal(n as int),
{
    let wide: i64 = n as i64;
    if wide < 0 {
        concat("-", decimal_text((-wide) as u64).as_str())
    } else {
        decimal_text(wide as u64)
    }
}

/// Whether `c` is an ASCII digit.
pub open spec fn is_digit(c: char) -> bool {
    '0' <= c <= '9'
}

/// The value of a run of digits.
pub open spec fn digits_value(s: Seq<char>) -> nat
    decreases s.len(),
{
    if s.len() == 0 {
        0
    } else {
        (digits_value(s.drop_last()) * 10 + (s.last() as int - '0' as int)) as nat
    }
}

/// The digits of an unsigned number: what stands behind an optional `+`.
pub open spec fn number_digits(s: Seq<char>) -> Seq<char> {
    if s.len() > 0 && s[0] == '+' {
        s.skip(1)
    } else {
        s
    }
}

/// The unsigned number that `s` writes: an optional `+`, then at least one
/// digit and nothing else.
pub open spec fn parsed_number(s: Seq<char>) -> Option<nat> {
    let d = number_digits(s);
    if d.len() > 0 && (forall|i: int| 0 <= i < d.len() ==> is_digit(#[trigger] d[i])) {
        Some(digits_value(d))
    } else {
        None
    }
}

proof fn lemma_digits_value_monotone(s: Seq<char>, k: int)
    requires
        0 <= k <= s.len(),
        forall|i: int| 0 <= i < s.len() ==> is_digit(#[trigger] s[i]),
    ensures
        digits_value(s.take(k)) <= digits_value(s),
    decreases s.len() - k,
{
    if k == s.len() {
        assert(s.take(k) =~= s);
    } else {
        lemma_digits_value_monotone(s, k + 1);
        assert(s.take(k + 1).drop_last() =~= s.take(k));
        assert(s.take(k + 1).last() == s[k]);
        assert(is_digit(s[k]));
    }
}

/// Parses an unsigned number; `None` where `s` is not one or it does not fit.
pub fn parse_usize(s: &str) -> (r: Option<usize>)
    ensures
        match r {
            Some(n) => parsed_number(s@) == Some(n as nat),
            None => parsed_number(s@) is None || parsed_number(s@).unwrap() > usize::MAX,
        },
{
    let x: Vec<char> = chars_of(s);
    let start: usize = if x.len() > 0 && x[0] == '+' {
        1
    } else {
        0
    };
    let ghost d = number_digits(s@);
    assert(d =~= s@.skip(start as int));
    if start == x.len() {
        return None;
    }
    let mut i: usize = start;
    let mut value: usize = 0;
    let mut fits: bool = true;
    assert(d.take(0) =~= Seq::<char>::empty());
    while i < x.len()
        invariant
            start <= i <= x.len(),
            x@ == s@,
            d == s@.skip(start as int),
            d == number_digits(s@),
            d.len() > 0,
            forall|j: int| 0 <= j < i - start ==> is_digit(#[trigger] d[j]),
            fits ==> value == digits_value(d.take(i - start)),
            !fits ==> digits_value(d.take(i - start)) > usize::MAX,
        decreases x.len() - i,
    {
        let c: char = x[i];
        assert(d[i - start] == c);
        if c < '0' || c > '9' {
            assert(!is_digit(d[i - start]));
            return None;
        }
        let digit: usize = (c as u32 - '0' as u32) as usize;
        proof {
            assert(d.take(i - start + 1).drop_last() =~= d.take(i - start));
            assert(d.take(i - start + 1).last() == c);
        }
        if fits {
            match value.checked_mul(10) {
                Some(tens) => match tens.checked_add(digit) {
                    Some(sum) => {
                        value = sum;
                    },
                    None => {
                        fits = false;
                    },
                },
                None => {
                    fits = false;
                },
            }
        }
        i = i + 1;
    }
    assert(d.take(i - start) =~= d);
    if fits {
        Some(value)
    } else {
        None
    }
}

/// A formatted number is one digit after another.
pub proof fn lemma_decimal_digits(n: nat)
    ensures
        decimal(n).len() > 0,
        forall|i: int| 0 <= i < decimal(n).len() ==> is_digit(#[trigger] decimal(n)[i]),
        digits_value(decimal(n)) == n,
    decreases n,
{
    if n < 10 {
        assert(decimal(n).drop_last() =~= Seq::<char>::empty());
        assert(digits_value(Seq::<char>::empty()) == 0);
        assert(decimal(n).last() == digit_char(n));
    } else {
        lemma_decimal_digits(n / 10);
        assert(decimal(n).drop_last() =~= decimal(n / 10));
        assert(decimal(n).last() == digit_char(n % 10));
    }
}

/// Parsing a formatted number gives the number back.
pub proof fn lemma_parse_of_decimal(n: nat)
    ensures
        parsed_number(decimal(n)) == Some(n),
{
    lemma_decimal_digits(n);
    assert(is_digit(decimal(n)[0]));
}

/// Different numbers are formatted differently.
pub proof fn lemma_decimal_injective(a: nat, b: nat)
    requires
        decimal(a) == decimal(b),
    ensures
        a == b,
{
    lemma_decimal_digits(a);
    lemma_decimal_digits(b);
}

// ---------------------------------------------------------------------
// Laws
// ---------------------------------------------------------------------
/// Whether the part of `s` from `i` to `j` is what is left of it without the
/// white space at its ends.
pub open spec fn bare_part(s: Seq<char>, i: int, j: int) -> bool {
    &&& 0 <= i <= j <= s.len()
    &&& forall|k: int| 0 <= k < i ==> white_space(#[trigger] s[k])
    &&& forall|k: int| j <= k < s.len() ==> white_space(#[trigger] s[k])
    &&& i < j ==> !white_space(s[i]) && !white_space(s[j - 1])
}

proof fn lemma_trimmed_start(s: Seq<char>) -> (i: int)
    ensures
        0 <= i <= s.len(),
        trimmed_start(s) == s.skip(i),
        forall|k: int| 0 <= k < i ==> white_space(#[trigger] s[k]),
        i < s.len() ==> !white_space(s[i]),
    decreases s.len(),
{
    if s.len() > 0 && white_space(s[0]) {
        let n = lemma_trimmed_start(s.skip(1));
        assert(s.skip(1).skip(n) =~= s.skip(n + 1));
        assert forall|k: int| 0 <= k < n + 1 implies white_space(#[trigger] s[k]) by {
            if k > 0 {
                assert(s.skip(1)[k - 1] == s[k]);
            }
        }
        n + 1
    } else {
        assert(s.skip(0) =~= s);
        0
    }
}

proof fn lemma_trimmed_end(s: Seq<char>) -> (j: int)
    ensures
        0 <= j <= s.len(),
        trimmed_end(s) == s.take(j),
        forall|k: int| j <= k < s.len() ==> white_space(#[trigger] s[k]),
        j > 0 ==> !white_space(s[j - 1]),
    decreases s.len(),
{
    if s.len() > 0 && white_space(s.last()) {
        let n = lemma_trimmed_end(s.drop_last());
        assert(s.drop_last().take(n) =~= s.take(n));
        assert forall|k: int| n <= k < s.len() implies white_space(#[trigger] s[k]) by {
            if k < s.len() - 1 {
                assert(s.drop_last()[k] == s[k]);
            }
        }
        n
    } else {
        assert(s.take(s.len() as int) =~= s);
        s.len() as int
    }
}

/// Trimming takes white space off both ends and nothing else; what is left is
/// empty exactly where the text holds nothing but white space.
pub proof fn law_trimmed(s: Seq<char>)
    ensures
        exists|i: int, j: int| #[trigger] bare_part(s, i, j) && trimmed(s) == s.subrange(i, j),
        trimmed(s).len() == 0 <==> forall|k: int|
            0 <= k < s.len() ==> white_space(#[trigger] s[k]),
{
    let i = lemma_trimmed_start(s);
    let t = s.skip(i);
    let n = lemma_trimmed_end(t);
    let j = i + n;
    assert(t.take(n) =~= s.subrange(i, j));
    assert forall|k: int| j <= k < s.len() implies white_space(#[trigger] s[k]) by {
        assert(t[k - i] == s[k]);
    }
    if n > 0 {
        assert(t[n - 1] == s[j - 1]);
    }
    assert(bare_part(s, i, j));
    if n == 0 {
        assert forall|k: int| 0 <= k < s.len() implies white_space(#[trigger] s[k]) by {}
    } else {
        assert(!white_space(s[i]));
    }
}

/// A text without white space at its ends is its own trimmed form.
pub proof fn law_trimmed_of_bare(s: Seq<char>)
    requires
        s.len() > 0,
        !white_space(s[0]),
        !white_space(s.last()),
    ensures
        trimmed(s) == s,
{
}

/// The words of a line: behind white space, the first word is the run up to the
/// next white space, and the second word is the run behind that.
pub proof fn law_words(
    space: Seq<char>,
    first: Seq<char>,
    gap: Seq<char>,
    second: Seq<char>,
    rest: Seq<char>,
)
    requires
        forall|k: int| 0 <= k < space.len() ==> white_space(#[trigger] space[k]),
        forall|k: int| 0 <= k < gap.len() ==> white_space(#[trigger] gap[k]),
        forall|k: int| 0 <= k < first.len() ==> !white_space(#[trigger] first[k]),
        forall|k: int| 0 <= k < second.len() ==> !white_space(#[trigger] second[k]),
        first.len() > 0,
        gap.len() > 0,
        second.len() > 0,
        rest.len() == 0 || white_space(rest[0]),
    ensures
        nth_word(space + first + gap + second + rest, 0) == Some(first),
        nth_word(space + first + gap + second + rest, 1) == Some(second),
        nth_word(space + first + gap, 1) is None,
        nth_word(space + first, 1) is None,
{
    reveal_with_fuel(nth_word, 2);
    let tail = gap + second + rest;
    assert(space + first + gap + second + rest =~= space + (first + tail));
    lemma_skips_space(space, first + tail);
    lemma_word_len(first + tail, first.len() as int);
    assert((first + tail).take(first.len() as int) =~= first);
    assert((first + tail).skip(first.len() as int) =~= tail);
    assert(tail =~= gap + (second + rest));
    lemma_skips_space(gap, second + rest);
    lemma_word_len(second + rest, second.len() as int);
    assert((second + rest).take(second.len() as int) =~= second);
    assert(space + first + gap =~= space + (first + gap));
    lemma_skips_space(space, first + gap);
    lemma_word_len(first + gap, first.len() as int);
    assert((first + gap).skip(first.len() as int) =~= gap);
    let none = Seq::<char>::empty();
    assert(gap =~= gap + none);
    lemma_skips_space(gap, none);
    lemma_skips_space(space, first);
    lemma_word_len(first, first.len() as int);
    assert(first.skip(first.len() as int) =~= none);
}

proof fn lemma_skips_space(space: Seq<char>, rest: Seq<char>)
    requires
        forall|k: int| 0 <= k < space.len() ==> white_space(#[trigger] space[k]),
        rest.len() == 0 || !white_space(rest[0]),
    ensures
        trimmed_start(space + rest) == rest,
    decreases space.len(),
{
    let s = space + rest;
    if space.len() == 0 {
        assert(s =~= rest);
    } else {
        assert(s[0] == space[0]);
        let t = space.skip(1);
        assert forall|k: int| 0 <= k < t.len() implies white_space(#[trigger] t[k]) by {
            assert(t[k] == space[k + 1]);
        }
        lemma_skips_space(t, rest);
        assert(s.skip(1) =~= t + rest);
    }
}

/// The first line of a text is all of it up to its first line feed, without a
/// carriage return in front of that.
pub proof fn law_first_line(line: Seq<char>, rest: Seq<char>)
    requires
        !line.contains('\n'),
    ensures
        line.len() > 0 ==> first_line_of(line) == Some(line),
        line.len() == 0 || line.last() != '\r' ==> first_line_of(line + seq!['\n'] + rest)
            == Some(line),
        first_line_of(line + seq!['\r', '\n'] + rest) == Some(line),
{
    lemma_first_index(line, '\n');
    if line.len() > 0 {
        if first_index(line, '\n') < line.len() {
            assert(line.contains('\n'));
        }
    }
    let a = line + seq!['\n'] + rest;
    assert forall|j: int| 0 <= j < line.len() implies a[j] != '\n' by {
        if a[j] == '\n' {
            assert(line[j] == '\n');
        }
    }
    lemma_first_index_is(a, '\n', line.len() as int);
    assert(a.take(line.len() as int) =~= line);
    let b = line + seq!['\r', '\n'] + rest;
    assert forall|j: int| 0 <= j < line.len() + 1 implies b[j] != '\n' by {
        if j < line.len() && b[j] == '\n' {
            assert(line[j] == '\n');
        }
    }
    lemma_first_index_is(b, '\n', line.len() + 1int);
    assert(b.take(line.len() as int) =~= line);
}

/// The value of octal digits.
pub open spec fn octal_value(s: Seq<char>) -> nat
    decreases s.len(),
{
    if s.len() == 0 {
        0
    } else {
        (octal_value(s.drop_last()) * 8 + (s.last() as int - '0' as int)) as nat
    }
}

/// A number in octal reads as that number, and its digits are from 0 to 7.
pub proof fn law_octal(n: nat)
    ensures
        octal_value(octal(n)) == n,
        octal(n).len() > 0,
        forall|i: int| 0 <= i < octal(n).len() ==> '0' <= #[trigger] octal(n)[i] <= '7',
    decreases n,
{
    if n < 8 {
        assert(octal(n).drop_last() =~= Seq::<char>::empty());
        assert(octal_value(Seq::<char>::empty()) == 0);
        assert(octal(n).last() == digit_char(n));
    } else {
        law_octal(n / 8);
        assert(octal(n).drop_last() =~= octal(n / 8));
        assert(octal(n).last() == digit_char(n % 8));
    }
}

/// A signed number is a minus sign, where it is negative, and the digits of its
/// size; no two numbers are written alike.
pub proof fn law_signed_decimal(a: int, b: int)
    ensures
        a < 0 ==> signed_decimal(a)[0] == '-' && parsed_number(signed_decimal(a).skip(1)) == Some(
            (-a) as nat,
        ),
        a >= 0 ==> parsed_number(signed_decimal(a)) == Some(a as nat),
        signed_decimal(a) == signed_decimal(b) ==> a == b,
{
    reveal_strlit("-");
    lemma_signed(a);
    lemma_signed(b);
}

proof fn lemma_signed(a: int)
    ensures
        signed_decimal(a).len() > 0,
        a < 0 ==> signed_decimal(a)[0] == '-' && parsed_number(signed_decimal(a).skip(1)) == Some(
            (-a) as nat,
        ),
        a >= 0 ==> signed_decimal(a)[0] != '-' && parsed_number(signed_decimal(a)) == Some(
            a as nat,
        ),
{
    reveal_strlit("-");
    if a < 0 {
        lemma_parse_of_decimal((-a) as nat);
        assert(signed_decimal(a).skip(1) =~= decimal((-a) as nat));
    } else {
        lemma_parse_of_decimal(a as nat);
        lemma_decimal_digits(a as nat);
        assert(is_digit(decimal(a as nat)[0]));
    }
}

/// A part of a text occurs in it, wherever it stands.
pub proof fn lemma_occurs(front: Seq<char>, part: Seq<char>, back: Seq<char>)
    ensures
        occurs_in(part, front + part + back),
{
    let s = front + part + back;
    let i = front.len() as int;
    assert(s.subrange(i, i + part.len()) =~= part);
}

/// Which characters are white space.
pub proof fn law_white_space(c: char)
    ensures
        white_space(c) <==> seq![
            0x9int,
            0xa,
            0xb,
            0xc,
            0xd,
            0x20,
            0x85,
            0xa0,
            0x1680,
            0x2000,
            0x2001,
            0x2002,
            0x2003,
            0x2004,
            0x2005,
            0x2006,
            0x2007,
            0x2008,
            0x2009,
            0x200a,
            0x2028,
            0x2029,
            0x202f,
            0x205f,
            0x3000,
        ].contains(c as int),
{
    let all = seq![
        0x9int,
        0xa,
        0xb,
        0xc,
        0xd,
        0x20,
        0x85,
        0xa0,
        0x1680,
        0x2000,
        0x2001,
        0x2002,
        0x2003,
        0x2004,
        0x2005,
        0x2006,
        0x2007,
        0x2008,
        0x2009,
        0x200a,
        0x2028,
        0x2029,
        0x202f,
        0x205f,
        0x3000,
    ];
    if white_space(c) {
        let n = c as int;
        let i: int = if n <= 0xd {
            n - 9
        } else if n == 0x20 {
            5
        } else if n == 0x85 {
            6
        } else if n == 0xa0 {
            7
        } else if n == 0x1680 {
            8
        } else if n <= 0x200a {
            n - 0x2000 + 9
        } else if n == 0x2028 {
            20
        } else if n == 0x2029 {
            21
        } else if n == 0x202f {
            22
        } else if n == 0x205f {
            23
        } else {
            24
        };
        assert(all[i] == n);
    }
}

/// A line begins with a text where the text stands at the very front or right
/// behind a line feed, and nowhere else.
pub proof fn law_lines(front: Seq<char>, prefix: Seq<char>, back: Seq<char>)
    requires
        !prefix.contains('\n'),
    ensures
        has_line(prefix + back, prefix),
        has_line(front + seq!['\n'] + prefix + back, prefix),
        has_line(front, prefix) ==> exists|i: int|
            0 <= i <= front.len() - prefix.len() && (i == 0 || front[i - 1] == '\n')
                && #[trigger] front.subrange(i, i + prefix.len()) == prefix,
{
    let a = prefix + back;
    assert(a.subrange(0, prefix.len() as int) =~= prefix);
    assert(line_begins(a, prefix, 0));
    let b = front + seq!['\n'] + prefix + back;
    let at = front.len() + 1int;
    assert(b.subrange(at, at + prefix.len()) =~= prefix);
    assert(line_begins(b, prefix, at));
    if has_line(front, prefix) {
        let i = choose|i: int| #[trigger] line_begins(front, prefix, i);
        assert(front.subrange(i, i + prefix.len()) == prefix);
    }
}

/// A part that stands at a position of a text occurs in it.
pub proof fn lemma_occurs_at(part: Seq<char>, s: Seq<char>, i: int)
    requires
        0 <= i <= s.len() - part.len(),
        forall|k: int| 0 <= k < part.len() ==> #[trigger] part[k] == s[i + k],
    ensures
        occurs_in(part, s),
{
    assert(s.subrange(i, i + part.len()) =~= part);
}

/// Which texts are numbers: at least one digit and nothing else, with or without
/// one `+` in front; leading zeros count for nothing.
pub proof fn law_numbers(s: Seq<char>)
    ensures
        parsed_number(Seq::<char>::empty()) is None,
        parsed_number(s) is Some ==> forall|i: int|
            0 < i < s.len() ==> is_digit(#[trigger] s[i]),
        s.len() > 0 && s[0] != '+' ==> parsed_number(seq!['+'] + s) == parsed_number(s),
        s.len() > 0 && (forall|i: int| 0 <= i < s.len() ==> is_digit(#[trigger] s[i]))
            ==> parsed_number(s) == Some(digits_value(s)) && digits_value(s)
            == digits_value(s.drop_last()) * 10 + (s.last() as int - '0' as int),
{
    if s.len() > 0 {
        let plus = seq!['+'] + s;
        assert(plus.skip(1) =~= s);
        if s[0] == '+' {
            assert forall|i: int| parsed_number(s) is Some && 0 < i < s.len() implies is_digit(
                #[trigger] s[i],
            ) by {
                assert(s.skip(1)[i - 1] == s[i]);
            }
        }
        if forall|i: int| 0 <= i < s.len() ==> is_digit(#[trigger] s[i]) {
            assert(is_digit(s[0]));
            assert(is_digit(s[s.len() - 1]));
        }
    }
}

/// The texts of a list are those of its entries, each in its place.
pub proof fn law_texts(list: Seq<String>, pairs: Seq<(String, String)>, option: Option<String>)
    ensures
        texts(list).len() == list.len(),
        forall|i: int| 0 <= i < list.len() ==> #[trigger] texts(list)[i] == list[i]@,
        text_pairs(pairs).len() == pairs.len(),
        forall|i: int|
            0 <= i < pairs.len() ==> (#[trigger] text_pairs(pairs)[i]).0 == pairs[i].0@
                && text_pairs(pairs)[i].1 == pairs[i].1@,
        text_opt(option) is Some <==> option is Some,
        option matches Some(t) ==> text_opt(option) == Some(t@),
{
}

proof fn lemma_bare_part_unique(s: Seq<char>, i: int, j: int, k: int, l: int)
    requires
        bare_part(s, i, j),
        bare_part(s, k, l),
        i < j,
    ensures
        i == k,
        j == l,
{
    assert(!white_space(s[i]));
    assert(!white_space(s[j - 1]));
    if k < l {
        assert(!white_space(s[k]));
        assert(!white_space(s[l - 1]));
    }
}

/// White space around a text has no say in its trimmed form.
pub proof fn law_trimmed_around(before: Seq<char>, s: Seq<char>, after: Seq<char>)
    requires
        forall|k: int| 0 <= k < before.len() ==> white_space(#[trigger] before[k]),
        forall|k: int| 0 <= k < after.len() ==> white_space(#[trigger] after[k]),
    ensures
        trimmed(before + s + after) == trimmed(s),
{
    let t = before + s + after;
    let n = before.len() as int;
    law_trimmed(s);
    law_trimmed(t);
    assert forall|k: int| 0 <= k < t.len() && !(n <= k < n + s.len()) implies white_space(
        #[trigger] t[k],
    ) by {
        if k < n {
            assert(t[k] == before[k]);
        } else {
            assert(t[k] == after[k - n - s.len()]);
        }
    }
    let (i, j) = choose|i: int, j: int| #[trigger]
        bare_part(s, i, j) && trimmed(s) == s.subrange(i, j);
    let (k, l) = choose|k: int, l: int| #[trigger]
        bare_part(t, k, l) && trimmed(t) == t.subrange(k, l);
    if i < j {
        assert(t[n + i] == s[i] && t[n + j - 1] == s[j - 1]);
        assert forall|m: int| 0 <= m < n + i implies white_space(#[trigger] t[m]) by {
            if m >= n {
                assert(t[m] == s[m - n]);
            }
        }
        assert forall|m: int| n + j <= m < t.len() implies white_space(#[trigger] t[m]) by {
            if m < n + s.len() {
                assert(t[m] == s[m - n]);
            }
        }
        assert(bare_part(t, n + i, n + j));
        lemma_bare_part_unique(t, n + i, n + j, k, l);
        assert(t.subrange(n + i, n + j) =~= s.subrange(i, j));
    } else {
        assert forall|m: int| 0 <= m < t.len() implies white_space(#[trigger] t[m]) by {
            if n <= m < n + s.len() {
                assert(t[m] == s[m - n]);
            }
        }
        assert(trimmed(t) =~= trimmed(s));
    }
}

} // verus!
