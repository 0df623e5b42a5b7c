//! File-system paths of a Unix host.
//!
//! A path is a byte string: it need not be valid UTF-8. Joining, taking the
//! parent and splitting into components work on the bytes alone and touch no
//! file.

use crate::text::{
    joined, lemma_pieces, lemma_pieces_of_concat, lemma_pieces_of_joined, lemma_pieces_without,
    pieces,
};
use vstd::prelude::*;
use vstd::utf8::*;

verus! {

/// The byte `/`.
pub const SLASH: u8 = 0x2f;

/// The byte `.`.
pub const DOT: u8 = 0x2e;

/// A path.
#[derive(Debug, PartialEq, Eq)]
pub struct UnixPath {
    pub bytes: Vec<u8>,
}

impl View for UnixPath {
    type V = Seq<u8>;

    open spec fn view(&self) -> Seq<u8> {
        self.bytes@
    }
}

impl Clone for UnixPath {
    fn clone(&self) -> (r: Self)
        ensures
            r@ == self@,
    {
        UnixPath { bytes: copy_bytes(&self.bytes) }
    }
}

/// The bytes in an optional path.
pub open spec fn path_opt(p: Option<UnixPath>) -> Option<Seq<u8>> {
    match p {
        Some(q) => Some(q@),
        None => None,
    }
}

/// The bytes of each path in a list.
pub open spec fn path_list(list: Seq<UnixPath>) -> Seq<Seq<u8>> {
    Seq::new(list.len(), |i: int| list[i]@)
}

/// The bytes of each text in a list.
pub open spec fn encoded(list: Seq<Seq<char>>) -> Seq<Seq<u8>> {
    Seq::new(list.len(), |i: int| encode_utf8(list[i]))
}

/// The bytes of each byte string in a list.
pub open spec fn byte_lists(list: Seq<Vec<u8>>) -> Seq<Seq<u8>> {
    Seq::new(list.len(), |i: int| list[i]@)
}

/// A copy of an optional path.
pub fn copy_path_opt(p: &Option<UnixPath>) -> (r: Option<UnixPath>)
    ensures
        path_opt(r) == path_opt(*p),
{
    match p {
        Some(q) => Some(q.clone()),
        None => None,
    }
}

// ---------------------------------------------------------------------
// Byte strings
// ---------------------------------------------------------------------
/// A copy of a byte string.
pub fn copy_bytes(b: &Vec<u8>) -> (r: Vec<u8>)
    ensures
        r@ == b@,
{
    copy_range(b, 0, b.len())
}

/// The bytes of `b` from position `from` up to `to`.
pub fn copy_range(b: &Vec<u8>, from: usize, to: usize) -> (r: Vec<u8>)
    requires
        from <= to <= b.len(),
    ensures
        r@ == b@.subrange(from as int, to as int),
{
    let mut r: Vec<u8> = Vec::new();
    let mut i: usize = from;
    while i < to
        invariant
            from <= i <= to <= b.len(),
            r@ =~= b@.subrange(from as int, i as int),
        decreases to - i,
    {
        r.push(b[i]);
        i = i + 1;
    }
    r
}

/// Appends the bytes of `more` to `b`.
pub fn push_bytes(b: &mut Vec<u8>, more: &Vec<u8>)
    ensures
        final(b)@ == old(b)@ + more@,
{
    let mut i: usize = 0;
    while i < more.len()
        invariant
            i <= more.len(),
            b@ =~= old(b)@ + more@.take(i as int),
        decreases more.len() - i,
    {
        b.push(more[i]);
        i = i + 1;
    }
    assert(more@.take(i as int) =~= more@);
}

/// Whether two byte strings are equal.
pub fn same_bytes(a: &Vec<u8>, b: &Vec<u8>) -> (r: bool)
    ensures
        r == (a@ == b@),
{
    if a.len() != b.len() {
        return false;
    }
    let mut i: usize = 0;
    while i < a.len()
        invariant
            i <= a.len(),
            a.len() == b.len(),
            forall|j: int| 0 <= j < i ==> a@[j] == b@[j],
        decreases a.len() - i,
    {
        if a[i] != b[i] {
            return false;
        }
        i = i + 1;
    }
    assert(a@ =~= b@);
    true
}

/// The UTF-8 encoding of two texts is that of the first followed by that of
/// the second.
pub proof fn lemma_utf8_of_concat(a: Seq<char>, b: Seq<char>)
    ensures
        encode_utf8(a + b) == encode_utf8(a) + encode_utf8(b),
    decreases a.len(),
{
    if a.len() == 0 {
        assert(a + b =~= b);
        assert(encode_utf8(a) + encode_utf8(b) =~= encode_utf8(b));
    } else {
        lemma_utf8_of_concat(a.drop_first(), b);
        assert((a + b).drop_first() =~= a.drop_first() + b);
        assert(encode_utf8(a + b) =~= encode_utf8(a) + encode_utf8(b));
    }
}

/// Different texts have different UTF-8 encodings.
pub proof fn lemma_utf8_injective(a: Seq<char>, b: Seq<char>)
    requires
        encode_utf8(a) == encode_utf8(b),
    ensures
        a == b,
{
    encode_utf8_decode_utf8(a);
    encode_utf8_decode_utf8(b);
}

/// The text that `bytes` encode, by `String::from_utf8`: claims that it answers
/// with the text whose UTF-8 encoding the bytes are, and refuses exactly the
/// bytes that are not valid UTF-8.
#[verifier::external_body]
pub(crate) fn text_from_utf8(bytes: Vec<u8>) -> (r: Option<String>)
    ensures
        r is Some <==> valid_utf8(bytes@),
        r matches Some(t) ==> encode_utf8(t@) == bytes@,
{
    String::from_utf8(bytes).ok()
}

/// What `String::from_utf8_lossy` makes of a byte string.
pub uninterp spec fn lossy_text(bytes: Seq<u8>) -> Seq<char>;

/// A text for display, by `String::from_utf8_lossy`: claims that the result
/// depends on the bytes alone, and that valid UTF-8 is decoded unchanged.
#[verifier::external_body]
pub(crate) fn text_from_utf8_lossy(bytes: &Vec<u8>) -> (r: String)
    ensures
        r@ == lossy_text(bytes@),
        valid_utf8(bytes@) ==> encode_utf8(r@) == bytes@,
{
    String::from_utf8_lossy(bytes).into_owned()
}

/// Splits a byte string at every `sep`.
pub fn split_bytes(b: &Vec<u8>, sep: u8) -> (r: Vec<Vec<u8>>)
    ensures
        byte_lists(r@) == pieces(b@, sep),
{
    let mut r: Vec<Vec<u8>> = Vec::new();
    let mut start: usize = 0;
    let mut i: usize = 0;
    assert(b@.take(0) =~= Seq::<u8>::empty());
    while i < b.len()
        invariant
            start <= i <= b.len(),
            byte_lists(r@).push(b@.subrange(start as int, i as int)) == pieces(
                b@.take(i as int),
                sep,
            ),
        decreases b.len() - i,
    {
        let ghost whole = b@.take(i + 1);
        let ghost before = pieces(b@.take(i as int), sep);
        assert(whole.drop_last() =~= b@.take(i as int));
        assert(before.last() == b@.subrange(start as int, i as int));
        assert(before.drop_last() =~= byte_lists(r@));
        if b[i] == sep {
            let ghost old_r = r@;
            r.push(copy_range(b, start, i));
            assert(byte_lists(r@) =~= byte_lists(old_r).push(b@.subrange(start as int, i as int)));
            start = i + 1;
            assert(b@.subrange(start as int, i + 1) =~= Seq::<u8>::empty());
        } else {
            assert(b@.subrange(start as int, i + 1) =~= b@.subrange(start as int, i as int).push(
                b@[i as int],
            ));
        }
        i = i + 1;
    }
    let ghost old_r = r@;
    r.push(copy_range(b, start, b.len()));
    proof {
        assert(byte_lists(r@) =~= byte_lists(old_r).push(b@.subrange(start as int, i as int)));
        assert(b@.take(i as int) =~= b@);
    }
    r
}

// ---------------------------------------------------------------------
// Joining
// ---------------------------------------------------------------------
/// Whether a path begins at the root.
pub open spec fn rooted(p: Seq<u8>) -> bool {
    p.len() > 0 && p[0] == SLASH
}

/// `part` seen from `base`: an absolute part replaces the base, any other
/// follows it behind one separator.
pub open spec fn join_path(base: Seq<u8>, part: Seq<u8>) -> Seq<u8> {
    if rooted(part) || base.len() == 0 {
        part
    } else if base.last() == SLASH {
        base + part
    } else {
        base.push(SLASH) + part
    }
}

/// `part`, as text, seen from `base`.
pub open spec fn join_text(base: Seq<u8>, part: Seq<char>) -> Seq<u8> {
    join_path(base, encode_utf8(part))
}

/// A text writes an absolute path where it begins with the separator.
pub proof fn lemma_rooted_text(text: Seq<char>)
    ensures
        rooted(encode_utf8(text)) == (text.len() > 0 && text[0] == '/'),
{
    if text.len() > 0 {
        let c = text[0] as u32;
        assert(encode_utf8(text) == encode_scalar(c) + encode_utf8(text.drop_first()));
        assert(encode_utf8(text)[0] == encode_scalar(c)[0]);
        char_is_scalar(text[0]);
        char_u32_cast(text[0], c);
        assert(0x2fu32 as char == '/');
        assert(has_width_1_encoding(c) ==> leading_byte_width_1(c) == c) by (bit_vector);
        assert(leading_byte_width_2(c) >= 0xC0) by (bit_vector);
        assert(leading_byte_width_3(c) >= 0xC0) by (bit_vector);
        assert(leading_byte_width_4(c) >= 0xC0) by (bit_vector);
    }
}

impl UnixPath {
    /// The path that `text` writes.
    pub fn new(text: &str) -> (r: UnixPath)
        ensures
            r@ == encode_utf8(text@),
    {
        UnixPath { bytes: text.as_bytes_vec() }
    }

    /// `part` seen from this path.
    pub fn join_with(&self, part: &UnixPath) -> (r: UnixPath)
        ensures
            r@ == join_path(self@, part@),
    {
        if (part.bytes.len() > 0 && part.bytes[0] == SLASH) || self.bytes.len() == 0 {
            return part.clone();
        }
        let mut bytes: Vec<u8> = copy_bytes(&self.bytes);
        if bytes[bytes.len() - 1] != SLASH {
            bytes.push(SLASH);
        }
        push_bytes(&mut bytes, &part.bytes);
        UnixPath { bytes }
    }

    /// `part`, as text, seen from this path.
    pub fn join(&self, part: &str) -> (r: UnixPath)
        ensures
            r@ == join_text(self@, part@),
    {
        self.join_with(&UnixPath::new(part))
    }

    /// The path as text, where it is valid UTF-8.
    pub fn to_str(&self) -> (r: Option<String>)
        ensures
            r is Some <==> valid_utf8(self@),
            r matches Some(t) ==> encode_utf8(t@) == self@,
    {
        text_from_utf8(copy_bytes(&self.bytes))
    }

    /// The path as text for a message.
    pub fn display(&self) -> (r: String)
        ensures
            r@ == lossy_text(self@),
            valid_utf8(self@) ==> encode_utf8(r@) == self@,
    {
        text_from_utf8_lossy(&self.bytes)
    }
}

// ---------------------------------------------------------------------
// Components
// ---------------------------------------------------------------------
/// One step of a path.
pub enum Part<T> {
    /// The root directory.
    Root,
    /// A leading `.`.
    Current,
    /// A `..`.
    Parent,
    /// A name.
    Name(T),
}

/// The steps in `segments`, the texts between the separators of a path:
/// empty segments and each `.` but a leading one name nothing.
pub open spec fn parts_of(segments: Seq<Seq<u8>>, is_rooted: bool) -> Seq<Part<Seq<u8>>>
    decreases segments.len(),
{
    if segments.len() == 0 {
        if is_rooted {
            seq![Part::Root]
        } else {
            Seq::empty()
        }
    } else {
        let before = parts_of(segments.drop_last(), is_rooted);
        let s = segments.last();
        if s.len() == 0 {
            before
        } else if s == seq![DOT] {
            if segments.len() == 1 {
                before.push(Part::Current)
            } else {
                before
            }
        } else if s == seq![DOT, DOT] {
            before.push(Part::Parent)
        } else {
            before.push(Part::Name(s))
        }
    }
}

/// The steps of a path.
pub open spec fn components(p: Seq<u8>) -> Seq<Part<Seq<u8>>> {
    parts_of(pieces(p, SLASH), rooted(p))
}

/// The bytes in a step.
pub open spec fn part_view(c: Part<Vec<u8>>) -> Part<Seq<u8>> {
    match c {
        Part::Root => Part::Root,
        Part::Current => Part::Current,
        Part::Parent => Part::Parent,
        Part::Name(n) => Part::Name(n@),
    }
}

/// The bytes in a list of steps.
pub open spec fn part_views(list: Seq<Part<Vec<u8>>>) -> Seq<Part<Seq<u8>>> {
    Seq::new(list.len(), |i: int| part_view(list[i]))
}

/// Whether a segment is `.`.
fn is_dot(s: &Vec<u8>) -> (r: bool)
    ensures
        r == (s@ == seq![DOT]),
{
    let r: bool = s.len() == 1 && s[0] == DOT;
    assert(r ==> s@ =~= seq![DOT]);
    r
}

/// Whether a segment is `..`.
pub fn is_dot_dot(s: &Vec<u8>) -> (r: bool)
    ensures
        r == (s@ == seq![DOT, DOT]),
{
    let r: bool = s.len() == 2 && s[0] == DOT && s[1] == DOT;
    assert(r ==> s@ =~= seq![DOT, DOT]);
    assert(!r ==> s@ != seq![DOT, DOT]);
    r
}

impl UnixPath {
    /// The steps of this path.
    pub fn components(&self) -> (r: Vec<Part<Vec<u8>>>)
        ensures
            part_views(r@) == components(self@),
    {
        let segments: Vec<Vec<u8>> = split_bytes(&self.bytes, SLASH);
        let is_rooted: bool = self.bytes.len() > 0 && self.bytes[0] == SLASH;
        let mut r: Vec<Part<Vec<u8>>> = Vec::new();
        if is_rooted {
            r.push(Part::Root);
        }
        let ghost all = byte_lists(segments@);
        assert(part_views(r@) =~= parts_of(all.take(0), is_rooted));
        let mut i: usize = 0;
        while i < segments.len()
            invariant
                i <= segments.len(),
                all == byte_lists(segments@),
                part_views(r@) == parts_of(all.take(i as int), is_rooted),
            decreases segments.len() - i,
        {
            let ghost now = all.take(i + 1);
            let ghost old_r = r@;
            assert(now.drop_last() =~= all.take(i as int));
            assert(now.last() == segments@[i as int]@);
            let segment: &Vec<u8> = &segments[i];
            if segment.len() == 0 {
            } else if is_dot(segment) {
                if i == 0 {
                    r.push(Part::Current);
                    assert(part_views(r@) =~= part_views(old_r).push(Part::Current));
                }
            } else if is_dot_dot(segment) {
                r.push(Part::Parent);
                assert(part_views(r@) =~= part_views(old_r).push(Part::Parent));
            } else {
                r.push(Part::Name(copy_bytes(segment)));
                assert(part_views(r@) =~= part_views(old_r).push(Part::Name(segment@)));
            }
            i = i + 1;
        }
        assert(all.take(i as int) =~= all);
        r
    }

    /// Whether two paths take the same steps.
    pub fn same_steps(&self, other: &UnixPath) -> (r: bool)
        ensures
            r == (components(self@) == components(other@)),
    {
        let a: Vec<Part<Vec<u8>>> = self.components();
        let b: Vec<Part<Vec<u8>>> = other.components();
        if a.len() != b.len() {
            assert(part_views(a@).len() != part_views(b@).len());
            return false;
        }
        let mut i: usize = 0;
        while i < a.len()
            invariant
                i <= a.len(),
                a.len() == b.len(),
                part_views(a@) == components(self@),
                part_views(b@) == components(other@),
                forall|j: int|
                    0 <= j < i ==> #[trigger] part_view(a@[j]) == part_view(b@[j]),
            decreases a.len() - i,
        {
            let same: bool = match (&a[i], &b[i]) {
                (Part::Root, Part::Root) => true,
                (Part::Current, Part::Current) => true,
                (Part::Parent, Part::Parent) => true,
                (Part::Name(x), Part::Name(y)) => same_bytes(x, y),
                _ => false,
            };
            assert(same == (part_view(a@[i as int]) == part_view(b@[i as int])));
            if !same {
                assert(part_views(a@)[i as int] != part_views(b@)[i as int]);
                return false;
            }
            i = i + 1;
        }
        assert forall|j: int| 0 <= j < a.len() implies part_views(a@)[j] == part_views(b@)[j] by {
            assert(part_view(a@[j]) == part_view(b@[j]));
        }
        assert(part_views(a@) =~= part_views(b@));
        true
    }
}

// ---------------------------------------------------------------------
// Names
// ---------------------------------------------------------------------
/// Whether a byte string can stand as one name in a path.
pub open spec fn plain_name(n: Seq<u8>) -> bool {
    n.len() > 0 && n != seq![DOT] && n != seq![DOT, DOT] && !n.contains(SLASH)
}

/// Whether every byte string in a list can stand as one name in a path.
pub open spec fn plain_names(names: Seq<Seq<u8>>) -> bool {
    forall|i: int| 0 <= i < names.len() ==> plain_name(#[trigger] names[i])
}

/// The steps that a list of names takes.
pub open spec fn name_parts(names: Seq<Seq<u8>>) -> Seq<Part<Seq<u8>>> {
    Seq::new(names.len(), |i: int| Part::Name(names[i]))
}

proof fn lemma_part_names_plain(segments: Seq<Seq<u8>>, is_rooted: bool)
    requires
        forall|i: int| 0 <= i < segments.len() ==> !(#[trigger] segments[i]).contains(SLASH),
    ensures
        forall|i: int|
            0 <= i < parts_of(segments, is_rooted).len() ==> (#[trigger] parts_of(
                segments,
                is_rooted,
            )[i] matches Part::Name(n) ==> plain_name(n)),
    decreases segments.len(),
{
    if segments.len() > 0 {
        assert forall|i: int| 0 <= i < segments.drop_last().len() implies !(
        #[trigger] segments.drop_last()[i]).contains(SLASH) by {
            assert(segments.drop_last()[i] == segments[i]);
        }
        lemma_part_names_plain(segments.drop_last(), is_rooted);
        assert(!segments[segments.len() - 1].contains(SLASH));
    }
}

/// The names among the steps of a path are plain.
pub proof fn lemma_component_names_plain(p: Seq<u8>)
    ensures
        forall|i: int|
            0 <= i < components(p).len() ==> (#[trigger] components(p)[i] matches Part::Name(n)
                ==> plain_name(n)),
{
    lemma_pieces(p, SLASH);
    lemma_part_names_plain(pieces(p, SLASH), rooted(p));
}

proof fn lemma_parts_of_names(segments: Seq<Seq<u8>>, is_rooted: bool, names: Seq<Seq<u8>>)
    requires
        plain_names(names),
    ensures
        parts_of(segments + names, is_rooted) == parts_of(segments, is_rooted) + name_parts(names),
    decreases names.len(),
{
    if names.len() == 0 {
        assert(segments + names =~= segments);
        assert(parts_of(segments, is_rooted) + name_parts(names) =~= parts_of(
            segments,
            is_rooted,
        ));
    } else {
        let front = names.drop_last();
        assert(plain_names(front)) by {
            assert forall|i: int| 0 <= i < front.len() implies plain_name(#[trigger] front[i]) by {
                assert(front[i] == names[i]);
            }
        }
        lemma_parts_of_names(segments, is_rooted, front);
        let whole = segments + names;
        assert(whole.drop_last() =~= segments + front);
        assert(plain_name(names[names.len() - 1]));
        assert(name_parts(names) =~= name_parts(front).push(Part::Name(names.last())));
        assert(parts_of(whole, is_rooted) =~= parts_of(segments, is_rooted) + name_parts(names));
    }
}

/// Names joined to a path add their steps to those of the path, and no other.
pub proof fn lemma_components_of_join(base: Seq<u8>, names: Seq<Seq<u8>>)
    requires
        names.len() > 0,
        plain_names(names),
    ensures
        components(join_path(base, joined(names, SLASH))) == components(base) + name_parts(names),
{
    let tail = joined(names, SLASH);
    assert forall|i: int| 0 <= i < names.len() implies !(#[trigger] names[i]).contains(SLASH) by {
        assert(plain_name(names[i]));
    }
    lemma_pieces_of_joined(names, SLASH);
    lemma_joined_head(names, SLASH);
    assert(plain_name(names[0]));
    assert(tail[0] == names[0][0]);
    assert(!rooted(tail)) by {
        if tail[0] == SLASH {
            assert(names[0].contains(SLASH));
        }
    }
    if base.len() == 0 {
        lemma_parts_of_names(Seq::empty(), false, names);
        assert(Seq::<Seq<u8>>::empty() + names =~= names);
        assert(pieces(base, SLASH).drop_last() =~= Seq::<Seq<u8>>::empty());
        assert(components(base) =~= Seq::<Part<Seq<u8>>>::empty());
        assert(components(join_path(base, tail)) =~= components(base) + name_parts(names));
    } else if base.last() == SLASH {
        let front = base.drop_last();
        assert(front.push(SLASH) + tail =~= base + tail);
        lemma_pieces_of_concat(front, SLASH, tail);
        assert(front.push(SLASH) + Seq::<u8>::empty() =~= base);
        lemma_pieces_of_concat(front, SLASH, Seq::<u8>::empty());
        let segments = pieces(front, SLASH);
        assert(pieces(base, SLASH).drop_last() =~= segments);
        assert(pieces(base, SLASH).last().len() == 0);
        assert(components(base) == parts_of(segments, rooted(base)));
        lemma_parts_of_names(segments, rooted(base), names);
    } else {
        lemma_pieces_of_concat(base, SLASH, tail);
        lemma_parts_of_names(pieces(base, SLASH), rooted(base), names);
    }
}

/// Joining an empty path changes no step.
pub proof fn lemma_components_of_join_empty(base: Seq<u8>)
    ensures
        components(join_path(base, Seq::<u8>::empty())) == components(base),
{
    let none = Seq::<u8>::empty();
    if base.len() == 0 {
        assert(base =~= none);
    } else if base.last() == SLASH {
        assert(base + none =~= base);
    } else {
        lemma_pieces_of_concat(base, SLASH, none);
        let segments = pieces(base, SLASH);
        let longer = pieces(base.push(SLASH) + none, SLASH);
        assert(longer.drop_last() =~= segments);
        assert(longer.last().len() == 0);
        assert(rooted(base.push(SLASH) + none) == rooted(base));
    }
}

/// Joining `.` to a path that is not empty changes no step.
pub proof fn lemma_components_of_join_dot(base: Seq<u8>)
    requires
        base.len() > 0,
    ensures
        components(join_path(base, seq![DOT])) == components(base),
{
    let dot = seq![DOT];
    lemma_pieces_without(dot, SLASH);
    if base.last() == SLASH {
        let a = base.drop_last();
        let none = Seq::<u8>::empty();
        assert(base =~= a.push(SLASH) + none);
        assert(base + dot =~= a.push(SLASH) + dot);
        lemma_pieces_of_concat(a, SLASH, none);
        lemma_pieces_of_concat(a, SLASH, dot);
        lemma_pieces(a, SLASH);
        let x = pieces(base, SLASH);
        let y = pieces(base + dot, SLASH);
        assert(x.drop_last() =~= pieces(a, SLASH));
        assert(y.drop_last() =~= pieces(a, SLASH));
        assert(x.last().len() == 0);
        assert(y.last() == dot);
        assert(rooted(base + dot) == rooted(base));
    } else {
        lemma_pieces_of_concat(base, SLASH, dot);
        lemma_pieces(base, SLASH);
        let y = pieces(base.push(SLASH) + dot, SLASH);
        assert(y.drop_last() =~= pieces(base, SLASH));
        assert(y.last() == dot);
        assert(rooted(base.push(SLASH) + dot) == rooted(base));
    }
}

proof fn lemma_joined_head<T>(list: Seq<Seq<T>>, sep: T)
    requires
        list.len() > 0,
        list[0].len() > 0,
    ensures
        joined(list, sep).len() > 0,
        joined(list, sep)[0] == list[0][0],
    decreases list.len(),
{
    if list.len() > 1 {
        assert(list.drop_last()[0] == list[0]);
        lemma_joined_head(list.drop_last(), sep);
    }
}

/// Names joined into one relative path.
pub fn join_names(names: &Vec<Vec<u8>>) -> (r: Vec<u8>)
    ensures
        r@ == joined(byte_lists(names@), SLASH),
{
    let ghost all = byte_lists(names@);
    let mut r: Vec<u8> = Vec::new();
    let mut i: usize = 0;
    while i < names.len()
        invariant
            i <= names.len(),
            all == byte_lists(names@),
            r@ == joined(all.take(i as int), SLASH),
        decreases names.len() - i,
    {
        if i > 0 {
            r.push(SLASH);
        }
        push_bytes(&mut r, &names[i]);
        let ghost now = all.take(i + 1);
        assert(now.drop_last() =~= all.take(i as int));
        assert(r@ =~= joined(now, SLASH));
        i = i + 1;
    }
    assert(all.take(i as int) =~= all);
    r
}

/// A copy of a list of byte strings.
pub fn copy_byte_lists(list: &Vec<Vec<u8>>) -> (r: Vec<Vec<u8>>)
    ensures
        byte_lists(r@) == byte_lists(list@),
{
    let mut r: Vec<Vec<u8>> = Vec::new();
    let mut i: usize = 0;
    while i < list.len()
        invariant
            i <= list.len(),
            r.len() == i,
            forall|j: int| 0 <= j < i ==> (#[trigger] r@[j])@ == list@[j]@,
        decreases list.len() - i,
    {
        r.push(copy_bytes(&list[i]));
        i = i + 1;
    }
    assert(byte_lists(r@) =~= byte_lists(list@));
    r
}

/// A copy of a list of paths.
pub fn copy_paths(list: &Vec<UnixPath>) -> (r: Vec<UnixPath>)
    ensures
        path_list(r@) == path_list(list@),
{
    let mut r: Vec<UnixPath> = Vec::new();
    let mut i: usize = 0;
    while i < list.len()
        invariant
            i <= list.len(),
            r.len() == i,
            forall|j: int| 0 <= j < i ==> (#[trigger] r@[j])@ == list@[j]@,
        decreases list.len() - i,
    {
        r.push(list[i].clone());
        i = i + 1;
    }
    assert(path_list(r@) =~= path_list(list@));
    r
}

/// Whether `b` begins with `prefix`.
pub fn bytes_start_with(b: &Vec<u8>, prefix: &Vec<u8>) -> (r: bool)
    ensures
        r == prefix@.is_prefix_of(b@),
{
    if prefix.len() > b.len() {
        return false;
    }
    let mut i: usize = 0;
    while i < prefix.len()
        invariant
            i <= prefix.len() <= b.len(),
            forall|j: int| 0 <= j < i ==> prefix@[j] == b@[j],
        decreases prefix.len() - i,
    {
        if prefix[i] != b[i] {
            assert(b@.subrange(0, prefix@.len() as int)[i as int] == b@[i as int]);
            return false;
        }
        i = i + 1;
    }
    assert(prefix@ =~= b@.subrange(0, prefix@.len() as int));
    true
}

// ---------------------------------------------------------------------
// Parent and file name
// ---------------------------------------------------------------------
/// Where the last segment of `p` begins: behind its last separator.
pub open spec fn last_start(p: Seq<u8>) -> int
    decreases p.len(),
{
    if p.len() == 0 || p.last() == SLASH {
        p.len() as int
    } else {
        last_start(p.drop_last())
    }
}

/// How much of `p` names the root.
pub open spec fn root_len(p: Seq<u8>) -> int {
    if rooted(p) {
        1
    } else {
        0
    }
}

/// Whether the last segment of `p` is a step: it is not empty, and it is no
/// `.` but one that the path begins with.
pub open spec fn ends_in_step(p: Seq<u8>) -> bool {
    let s = p.skip(last_start(p));
    s.len() > 0 && !(s == seq![DOT] && last_start(p) > 0)
}

/// How much of `p` precedes the separator before its last segment.
pub open spec fn before_last(p: Seq<u8>) -> int {
    if last_start(p) - 1 > root_len(p) {
        last_start(p) - 1
    } else {
        root_len(p)
    }
}

proof fn lemma_last_start(p: Seq<u8>)
    ensures
        0 <= last_start(p) <= p.len(),
        last_start(p) > 0 ==> p[last_start(p) - 1] == SLASH,
        forall|j: int| last_start(p) <= j < p.len() ==> p[j] != SLASH,
        rooted(p) ==> last_start(p) >= 1,
    decreases p.len(),
{
    if p.len() > 0 && p.last() != SLASH {
        lemma_last_start(p.drop_last());
        let k = last_start(p.drop_last());
        assert(k > 0 ==> p.drop_last()[k - 1] == p[k - 1]);
        assert forall|j: int| k <= j < p.len() implies p[j] != SLASH by {
            if j < p.len() - 1 {
                assert(p.drop_last()[j] == p[j]);
            }
        }
        if rooted(p) {
            assert(p.len() > 1);
            assert(rooted(p.drop_last()));
        }
    }
}

/// How much of `p` reaches up to the end of its last step; where it has none
/// behind the root, the length of the root.
pub open spec fn steps_end(p: Seq<u8>) -> int
    decreases p.len(),
{
    if p.len() <= root_len(p) {
        root_len(p)
    } else if ends_in_step(p) {
        p.len() as int
    } else if before_last(p) < p.len() {
        steps_end(p.take(before_last(p)))
    } else {
        root_len(p)
    }
}

/// The path without its last step; `None` where it has no step behind the root.
pub open spec fn parent_path(p: Seq<u8>) -> Option<Seq<u8>> {
    let e = steps_end(p);
    if e <= root_len(p) {
        None
    } else {
        let shorter = p.take(before_last(p.take(e)));
        Some(shorter.take(steps_end(shorter)))
    }
}

/// The last step of a path, where it is a name.
pub open spec fn last_name(p: Seq<u8>) -> Option<Seq<u8>> {
    let e = steps_end(p);
    let s = p.take(e).skip(last_start(p.take(e)));
    if e <= root_len(p) || s == seq![DOT] || s == seq![DOT, DOT] {
        None
    } else {
        Some(s)
    }
}

proof fn lemma_steps_end(p: Seq<u8>)
    ensures
        root_len(p) <= steps_end(p) <= p.len(),
    decreases p.len(),
{
    if p.len() <= root_len(p) {
    } else if ends_in_step(p) {
    } else if before_last(p) < p.len() {
        lemma_last_start(p);
        let q = p.take(before_last(p));
        lemma_steps_end(q);
        if rooted(p) {
            assert(rooted(q));
        } else {
            assert(root_len(p) == 0);
        }
    }
}

impl UnixPath {
    /// `last_start` of the first `len` bytes.
    fn segment_start(&self, len: usize) -> (r: usize)
        requires
            len <= self@.len(),
        ensures
            r == last_start(self@.take(len as int)),
            r <= len,
    {
        let mut i: usize = len;
        while i > 0 && self.bytes[i - 1] != SLASH
            invariant
                i <= len <= self@.len(),
                last_start(self@.take(len as int)) == last_start(self@.take(i as int)),
            decreases i,
        {
            assert(self@.take(i as int).drop_last() =~= self@.take(i - 1));
            i = i - 1;
        }
        i
    }

    /// `steps_end` of the first `len` bytes.
    fn end_of_steps(&self, len: usize) -> (r: usize)
        requires
            root_len(self@) <= len <= self@.len(),
        ensures
            r == steps_end(self@.take(len as int)),
            root_len(self@) <= r <= len,
    {
        let floor: usize = if self.bytes.len() > 0 && self.bytes[0] == SLASH {
            1
        } else {
            0
        };
        let mut end: usize = len;
        while end > floor
            invariant
                floor == root_len(self@),
                floor <= end <= len <= self@.len(),
                steps_end(self@.take(len as int)) == steps_end(self@.take(end as int)),
            decreases end,
        {
            let ghost p = self@.take(end as int);
            let start: usize = self.segment_start(end);
            proof {
                lemma_last_start(p);
                assert(root_len(p) == floor);
                assert(p.skip(start as int) =~= self@.subrange(start as int, end as int));
            }
            let lone_dot: bool = end - start == 1 && self.bytes[start] == DOT;
            assert(lone_dot == (p.skip(start as int) == seq![DOT])) by {
                if lone_dot {
                    assert(p.skip(start as int) =~= seq![DOT]);
                }
                if p.skip(start as int) == seq![DOT] {
                    assert(p.skip(start as int).len() == 1);
                    assert(p.skip(start as int)[0] == DOT);
                }
            }
            if end > start && !(lone_dot && start > 0) {
                return end;
            }
            assert(start >= 1);
            let shorter: usize = if start - 1 > floor {
                start - 1
            } else {
                floor
            };
            assert(p.take(shorter as int) =~= self@.take(shorter as int));
            end = shorter;
        }
        proof {
            let p = self@.take(end as int);
            if floor == 1 {
                assert(p[0] == self@[0]);
            }
        }
        end
    }

    /// This path without its last step.
    pub fn parent(&self) -> (r: Option<UnixPath>)
        ensures
            path_opt(r) == parent_path(self@),
    {
        let floor: usize = if self.bytes.len() > 0 && self.bytes[0] == SLASH {
            1
        } else {
            0
        };
        let end: usize = self.end_of_steps(self.bytes.len());
        assert(self@.take(self@.len() as int) =~= self@);
        if end <= floor {
            return None;
        }
        let start: usize = self.segment_start(end);
        let ghost p = self@.take(end as int);
        proof {
            lemma_last_start(p);
            assert(root_len(p) == floor);
        }
        let cut: usize = if start > 0 && start - 1 > floor {
            start - 1
        } else {
            floor
        };
        let keep: usize = self.end_of_steps(cut);
        assert(self@.take(cut as int).take(keep as int) =~= self@.subrange(0, keep as int));
        Some(UnixPath { bytes: copy_range(&self.bytes, 0, keep) })
    }

    /// The last step of this path, where it is a name.
    pub fn file_name(&self) -> (r: Option<Vec<u8>>)
        ensures
            match r {
                Some(n) => last_name(self@) == Some(n@),
                None => last_name(self@) is None,
            },
    {
        let floor: usize = if self.bytes.len() > 0 && self.bytes[0] == SLASH {
            1
        } else {
            0
        };
        let end: usize = self.end_of_steps(self.bytes.len());
        assert(self@.take(self@.len() as int) =~= self@);
        if end <= floor {
            return None;
        }
        let start: usize = self.segment_start(end);
        let name: Vec<u8> = copy_range(&self.bytes, start, end);
        assert(name@ =~= self@.take(end as int).skip(start as int));
        if is_dot(&name) || is_dot_dot(&name) {
            None
        } else {
            Some(name)
        }
    }
}

// ---------------------------------------------------------------------
// Laws
// ---------------------------------------------------------------------
/// The step that a segment takes, if it takes one; `first` tells whether it is
/// the first of its path.
spec fn step_part(s: Seq<u8>, first: bool) -> Option<Part<Seq<u8>>> {
    if s.len() == 0 || (s == seq![DOT] && !first) {
        None
    } else if s == seq![DOT] {
        Some(Part::Current)
    } else if s == seq![DOT, DOT] {
        Some(Part::Parent)
    } else {
        Some(Part::Name(s))
    }
}

proof fn lemma_components_of_root(p: Seq<u8>)
    requires
        p.len() == root_len(p),
    ensures
        components(p) == (if rooted(p) {
            seq![Part::Root]
        } else {
            Seq::<Part<Seq<u8>>>::empty()
        }),
{
    let none = Seq::<u8>::empty();
    reveal_with_fuel(parts_of, 3);
    if rooted(p) {
        assert(p =~= none.push(SLASH) + none);
        lemma_pieces_of_concat(none, SLASH, none);
        assert(pieces(p, SLASH) =~= seq![none, none]);
        assert(pieces(p, SLASH).drop_last() =~= seq![none]);
        assert(seq![none].drop_last() =~= Seq::<Seq<u8>>::empty());
    } else {
        assert(p =~= none);
        assert(pieces(p, SLASH) =~= seq![none]);
        assert(seq![none].drop_last() =~= Seq::<Seq<u8>>::empty());
    }
}

/// The last segment of a path adds at most one step to those before it.
proof fn lemma_last_segment(p: Seq<u8>)
    requires
        p.len() > root_len(p),
    ensures
        0 <= before_last(p) < p.len(),
        rooted(p.take(before_last(p))) == rooted(p),
        ({
            let before = components(p.take(before_last(p)));
            match step_part(p.skip(last_start(p)), last_start(p) == 0) {
                Some(part) => components(p) == before.push(part),
                None => components(p) == before,
            }
        }),
{
    lemma_last_start(p);
    let ls = last_start(p);
    let seg = p.skip(ls);
    let cut = p.take(before_last(p));
    assert forall|i: int| 0 <= i < seg.len() implies seg[i] != SLASH by {
        assert(seg[i] == p[ls + i]);
    }
    lemma_pieces_without(seg, SLASH);
    if ls == 0 {
        assert(seg =~= p);
        assert(cut.len() == root_len(cut));
        lemma_components_of_root(cut);
        assert(seq![seg].drop_last() =~= Seq::<Seq<u8>>::empty());
        reveal_with_fuel(parts_of, 2);
    } else {
        let a = p.take(ls - 1);
        assert(p =~= a.push(SLASH) + seg);
        lemma_pieces_of_concat(a, SLASH, seg);
        lemma_pieces(a, SLASH);
        let segments = pieces(p, SLASH);
        assert(segments =~= pieces(a, SLASH).push(seg));
        assert(segments.drop_last() =~= pieces(a, SLASH));
        assert(segments.len() > 1);
        if ls - 1 > root_len(p) {
            assert(cut == a);
            assert(rooted(a) == rooted(p));
        } else {
            assert(rooted(p));
            assert(cut.len() == 1 && cut[0] == p[0]);
            lemma_components_of_root(cut);
            if ls == 1 {
                assert(a =~= Seq::<u8>::empty());
                assert(pieces(a, SLASH) =~= seq![Seq::<u8>::empty()]);
                assert(seq![Seq::<u8>::empty()].drop_last() =~= Seq::<Seq<u8>>::empty());
                reveal_with_fuel(parts_of, 3);
            } else {
                assert(a =~= cut);
            }
        }
    }
}

proof fn lemma_components_to_end(p: Seq<u8>)
    ensures
        components(p.take(steps_end(p))) == components(p),
        rooted(p.take(steps_end(p))) == rooted(p),
        steps_end(p) > root_len(p) ==> ends_in_step(p.take(steps_end(p))),
    decreases p.len(),
{
    lemma_steps_end(p);
    if p.len() <= root_len(p) {
        assert(p.take(steps_end(p)) =~= p);
    } else if ends_in_step(p) {
        assert(p.take(steps_end(p)) =~= p);
    } else {
        lemma_last_segment(p);
        let cut = p.take(before_last(p));
        lemma_components_to_end(cut);
        lemma_steps_end(cut);
        assert(cut.take(steps_end(cut)) =~= p.take(steps_end(cut)));
    }
}

/// The parent of a path takes the same steps without the last one; a path has a
/// parent unless it takes no step or is the root.
pub proof fn law_parent_drops_last_step(p: Seq<u8>)
    ensures
        match parent_path(p) {
            Some(q) => components(p).len() > 0 && !(components(p).last() is Root) && components(q)
                == components(p).drop_last() && q.is_prefix_of(p),
            None => components(p).len() == 0 || components(p) == seq![Part::<Seq<u8>>::Root],
        },
{
    lemma_components_to_end(p);
    lemma_steps_end(p);
    let e = steps_end(p);
    let whole = p.take(e);
    if e <= root_len(p) {
        lemma_components_of_root(whole);
    } else {
        assert(root_len(whole) == root_len(p));
        lemma_last_start(whole);
        lemma_last_segment(whole);
        let cut = whole.take(before_last(whole));
        assert(cut =~= p.take(before_last(whole)));
        lemma_components_to_end(cut);
        lemma_steps_end(cut);
        assert(components(p).drop_last() =~= components(cut));
        assert(cut.take(steps_end(cut)) =~= p.subrange(0, steps_end(cut)));
    }
}

/// The file name of a path is its last step, where that is a name.
pub proof fn law_file_name_is_last_step(p: Seq<u8>)
    ensures
        match last_name(p) {
            Some(n) => components(p).len() > 0 && components(p).last() == Part::Name(n),
            None => components(p).len() == 0 || !(components(p).last() is Name),
        },
{
    lemma_components_to_end(p);
    lemma_steps_end(p);
    let e = steps_end(p);
    let whole = p.take(e);
    if e <= root_len(p) {
        lemma_components_of_root(whole);
    } else {
        assert(root_len(whole) == root_len(p));
        lemma_last_start(whole);
        lemma_last_segment(whole);
    }
}

/// The bytes of an ASCII text are its characters.
pub proof fn lemma_ascii_bytes(text: Seq<char>)
    requires
        is_ascii_chars(text),
    ensures
        encode_utf8(text).len() == text.len(),
        forall|i: int|
            0 <= i < text.len() ==> #[trigger] encode_utf8(text)[i] as int == text[i] as int,
        valid_utf8(encode_utf8(text)),
{
    is_ascii_chars_encode_utf8(text);
    encode_utf8_valid_utf8(text);
}

/// Joining a name to a path adds one step, the name, to the steps of the path.
pub proof fn law_join_adds_a_step(base: Seq<u8>, name: Seq<char>)
    requires
        is_ascii_chars(name),
        name.len() > 2,
        !name.contains('/'),
    ensures
        plain_name(encode_utf8(name)),
        components(join_text(base, name)) == components(base).push(Part::Name(encode_utf8(name))),
{
    lemma_ascii_bytes(name);
    let n = encode_utf8(name);
    assert(!n.contains(SLASH)) by {
        if n.contains(SLASH) {
            let i = choose|i: int| 0 <= i < n.len() && n[i] == SLASH;
            assert(n[i] as int == name[i] as int);
            assert(name[i] == '/');
        }
    }
    let names = seq![n];
    assert(joined(names, SLASH) == n);
    lemma_components_of_join(base, names);
    assert(name_parts(names) =~= seq![Part::Name(n)]);
    assert(components(base) + seq![Part::Name(n)] =~= components(base).push(Part::Name(n)));
}

/// Whether a segment of a path leads somewhere: it is neither empty nor `.`.
pub open spec fn leads_on(segment: Seq<u8>) -> bool {
    segment.len() > 0 && segment != seq![DOT]
}

/// The step that a segment is.
pub open spec fn step_of_segment(segment: Seq<u8>) -> Part<Seq<u8>> {
    if segment == seq![DOT, DOT] {
        Part::Parent
    } else {
        Part::Name(segment)
    }
}

/// Whether a step leads to a parent directory or to a name.
pub open spec fn is_way(part: Part<Seq<u8>>) -> bool {
    part is Parent || part is Name
}

proof fn lemma_parts(segments: Seq<Seq<u8>>, is_rooted: bool)
    ensures
        ({
            let ways = parts_of(segments, is_rooted).filter(|c: Part<Seq<u8>>| is_way(c));
            let solid = segments.filter(|s: Seq<u8>| leads_on(s));
            &&& ways.len() == solid.len()
            &&& forall|i: int|
                0 <= i < solid.len() ==> #[trigger] ways[i] == step_of_segment(solid[i])
        }),
    decreases segments.len(),
{
    let way = |c: Part<Seq<u8>>| is_way(c);
    let on = |s: Seq<u8>| leads_on(s);
    let parts = parts_of(segments, is_rooted);
    let ways = parts.filter(way);
    let solid = segments.filter(on);
    reveal_with_fuel(Seq::filter, 3);
    if segments.len() == 0 {
        if is_rooted {
            assert(parts.drop_last() =~= Seq::<Part<Seq<u8>>>::empty());
        }
    } else {
        let front = segments.drop_last();
        lemma_parts(front, is_rooted);
        let before = parts_of(front, is_rooted);
        if parts.len() > before.len() {
            assert(parts.drop_last() =~= before);
        }
        let w = before.filter(way);
        let s = front.filter(on);
        if leads_on(segments.last()) {
            assert(parts.last() == step_of_segment(segments.last()));
            assert(ways =~= w.push(parts.last()));
            assert(solid =~= s.push(segments.last()));
        } else {
            assert(solid =~= s);
            assert(ways =~= w);
        }
        assert forall|i: int| 0 <= i < solid.len() implies #[trigger] ways[i] == step_of_segment(
            solid[i],
        ) by {
            if i < s.len() {
                assert(w[i] == step_of_segment(s[i]));
            }
        }
    }
}

/// The steps of a path: what stands between its separators, one after the other,
/// where it is neither empty nor `.`; `..` leads up, and all else is a name, as it
/// stands.
pub proof fn law_steps_of_a_path(p: Seq<u8>)
    ensures
        ({
            let ways = components(p).filter(|c: Part<Seq<u8>>| is_way(c));
            let solid = pieces(p, SLASH).filter(|s: Seq<u8>| leads_on(s));
            &&& ways.len() == solid.len()
            &&& forall|i: int|
                0 <= i < solid.len() ==> #[trigger] ways[i] == step_of_segment(solid[i])
        }),
{
    lemma_parts(pieces(p, SLASH), rooted(p));
}

proof fn lemma_parts_root(segments: Seq<Seq<u8>>, is_rooted: bool)
    ensures
        forall|i: int|
            0 <= i < parts_of(segments, is_rooted).len() ==> ((#[trigger] parts_of(
                segments,
                is_rooted,
            )[i] is Root) <==> i == 0 && is_rooted),
        is_rooted ==> parts_of(segments, is_rooted).len() > 0,
    decreases segments.len(),
{
    if segments.len() > 0 {
        lemma_parts_root(segments.drop_last(), is_rooted);
    }
}

/// A path begins at the root exactly where its first byte is a separator.
pub proof fn law_rooted_paths(p: Seq<u8>)
    ensures
        forall|i: int|
            0 <= i < components(p).len() ==> ((#[trigger] components(p)[i] is Root) <==> i == 0
                && p.len() > 0 && p[0] == SLASH),
        p.len() > 0 && p[0] == SLASH ==> components(p).len() > 0,
{
    lemma_parts_root(pieces(p, SLASH), rooted(p));
}

/// Joining paths: an absolute part replaces the base, and else the steps of the
/// base come first, with one separator between the two where the base does not
/// end in one.
pub proof fn law_join_path(base: Seq<u8>, part: Seq<u8>)
    ensures
        part.len() > 0 && part[0] == SLASH ==> join_path(base, part) == part,
        base.len() == 0 ==> join_path(base, part) == part,
        base.len() > 0 && !(part.len() > 0 && part[0] == SLASH) ==> base.is_prefix_of(
            join_path(base, part),
        ) && part.is_suffix_of(join_path(base, part)) && join_path(base, part).len() == base.len()
            + part.len() + (if base.last() == SLASH {
            0int
        } else {
            1
        }),
{
    let j = join_path(base, part);
    if base.len() > 0 && !(part.len() > 0 && part[0] == SLASH) {
        assert(base =~= j.subrange(0, base.len() as int));
        assert(part =~= j.subrange(j.len() - part.len(), j.len() as int));
    }
}

/// Joining two names with a separator between them adds both as steps.
pub proof fn law_join_adds_two_steps(root: Seq<u8>, a: Seq<char>, b: Seq<char>, whole: Seq<char>)
    requires
        is_ascii_chars(a),
        is_ascii_chars(b),
        a.len() > 2,
        b.len() > 2,
        !a.contains('/'),
        !b.contains('/'),
        whole == a + seq!['/'] + b,
    ensures
        components(join_text(root, whole)) == components(root) + seq![
            Part::Name(encode_utf8(a)),
            Part::Name(encode_utf8(b)),
        ],
{
    law_join_adds_a_step(root, a);
    law_join_adds_a_step(root, b);
    lemma_ascii_bytes(a);
    lemma_ascii_bytes(b);
    assert(is_ascii_chars(whole)) by {
        assert forall|i: int| 0 <= i < whole.len() implies '\0' <= #[trigger] whole[i]
            <= '\u{7f}' by {
            if i < a.len() {
                assert(whole[i] == a[i]);
            } else if i > a.len() {
                assert(whole[i] == b[i - a.len() - 1]);
            }
        }
    }
    lemma_ascii_bytes(whole);
    let names = seq![encode_utf8(a), encode_utf8(b)];
    reveal_with_fuel(joined, 3);
    assert(names.drop_last() =~= seq![encode_utf8(a)]);
    assert(joined(names, SLASH) =~= encode_utf8(whole)) by {
        let x = joined(names, SLASH);
        assert(x =~= encode_utf8(a).push(SLASH) + encode_utf8(b));
        assert forall|i: int| 0 <= i < x.len() implies x[i] == encode_utf8(whole)[i] by {
            assert(encode_utf8(whole)[i] as int == whole[i] as int);
            if i < a.len() {
                assert(encode_utf8(a)[i] as int == a[i] as int);
            } else if i > a.len() {
                assert(encode_utf8(b)[i - a.len() - 1] as int == b[i - a.len() - 1] as int);
            }
        }
    }
    assert(plain_names(names));
    lemma_components_of_join(root, names);
    assert(name_parts(names) =~= seq![Part::Name(encode_utf8(a)), Part::Name(encode_utf8(b))]);
}

/// The bytes of a path are the path, and those of a list are those of its entries,
/// each in its place.
pub proof fn law_byte_lists(
    path: UnixPath,
    paths: Seq<UnixPath>,
    lists: Seq<Vec<u8>>,
    list: Seq<Seq<char>>,
    option: Option<UnixPath>,
)
    ensures
        path@ == path.bytes@,
        path_list(paths).len() == paths.len(),
        forall|i: int|
            0 <= i < paths.len() ==> #[trigger] path_list(paths)[i] == paths[i].bytes@,
        byte_lists(lists).len() == lists.len(),
        forall|i: int| 0 <= i < lists.len() ==> #[trigger] byte_lists(lists)[i] == lists[i]@,
        encoded(list).len() == list.len(),
        forall|i: int| 0 <= i < list.len() ==> #[trigger] encoded(list)[i] == encode_utf8(list[i]),
        path_opt(option) is Some <==> option is Some,
        option matches Some(p) ==> path_opt(option) == Some(p.bytes@),
{
}

/// A step of a path, as it is held, is the step with the same bytes.
pub proof fn law_parts(list: Seq<Part<Vec<u8>>>)
    ensures
        part_views(list).len() == list.len(),
        forall|i: int|
            0 <= i < list.len() ==> (match list[i] {
                Part::Root => #[trigger] part_views(list)[i] is Root,
                Part::Current => part_views(list)[i] is Current,
                Part::Parent => part_views(list)[i] is Parent,
                Part::Name(n) => part_views(list)[i] == Part::Name(n@),
            }),
{
}

} // verus!
