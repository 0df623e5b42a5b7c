//! Texts and paths as C strings.

use super::error::VmError;
use crate::path::{byte_lists, copy_bytes, lossy_text, UnixPath};
use crate::text::{first_index, lemma_first_index_is, texts};
use vstd::prelude::*;
use vstd::utf8::*;

verus! {

/// Why a value is no C string.
pub enum CFault {
    /// It is a path that is not valid UTF-8, here as text.
    NotUtf8(Seq<char>),
    /// It holds a NUL byte; the first is at this position.
    Nul(int),
}

/// Whether an error reports a fault.
pub open spec fn reports(e: VmError, fault: CFault) -> bool {
    match fault {
        CFault::NotUtf8(text) => e matches VmError::InvalidPath(t) && t@ == text,
        CFault::Nul(at) => e matches VmError::CString { position } && position == at,
    }
}

/// The bytes of a C string without their terminator, or why they are none.
pub open spec fn c_bytes(bytes: Seq<u8>) -> Result<Seq<u8>, CFault> {
    if bytes.contains(0u8) {
        Err(CFault::Nul(first_index(bytes, 0u8)))
    } else {
        Ok(bytes)
    }
}

/// A path as a C string.
pub open spec fn c_path(path: Seq<u8>) -> Result<Seq<u8>, CFault> {
    if !valid_utf8(path) {
        Err(CFault::NotUtf8(lossy_text(path)))
    } else {
        c_bytes(path)
    }
}

/// The first text in a list that is no C string is why the list is none;
/// else the C strings of all.
pub open spec fn c_texts(list: Seq<Seq<char>>) -> Result<Seq<Seq<u8>>, CFault>
    decreases list.len(),
{
    if list.len() == 0 {
        Ok(Seq::empty())
    } else {
        match (c_texts(list.drop_last()), c_bytes(encode_utf8(list.last()))) {
            (Err(e), _) => Err(e),
            (Ok(_), Err(e)) => Err(e),
            (Ok(front), Ok(bytes)) => Ok(front.push(bytes)),
        }
    }
}

/// Whether a result is the C string, or reports why there is none.
pub open spec fn is_c_bytes(r: Result<Vec<u8>, VmError>, c: Result<Seq<u8>, CFault>) -> bool {
    match (r, c) {
        (Ok(v), Ok(bytes)) => v@ == bytes,
        (Err(e), Err(fault)) => reports(e, fault),
        _ => false,
    }
}

/// Whether a result is the list of C strings, or reports why there is none.
pub open spec fn is_c_texts(
    r: Result<Vec<Vec<u8>>, VmError>,
    c: Result<Seq<Seq<u8>>, CFault>,
) -> bool {
    match (r, c) {
        (Ok(v), Ok(list)) => byte_lists(v@) == list,
        (Err(e), Err(fault)) => reports(e, fault),
        _ => false,
    }
}

fn bytes_to_cstring(bytes: Vec<u8>) -> (r: Result<Vec<u8>, VmError>)
    ensures
        is_c_bytes(r, c_bytes(bytes@)),
{
    let mut i: usize = 0;
    while i < bytes.len()
        invariant
            i <= bytes.len(),
            forall|j: int| 0 <= j < i ==> bytes@[j] != 0,
        decreases bytes.len() - i,
    {
        if bytes[i] == 0 {
            proof {
                lemma_first_index_is(bytes@, 0u8, i as int);
                assert(bytes@.contains(0u8));
            }
            return Err(VmError::CString { position: i });
        }
        i = i + 1;
    }
    Ok(bytes)
}

/// A text as a C string.
pub fn text_to_cstring(text: &str) -> (r: Result<Vec<u8>, VmError>)
    ensures
        is_c_bytes(r, c_bytes(encode_utf8(text@))),
{
    bytes_to_cstring(text.as_bytes_vec())
}

/// A path as a C string.
pub fn path_to_cstring(path: &UnixPath) -> (r: Result<Vec<u8>, VmError>)
    ensures
        is_c_bytes(r, c_path(path@)),
{
    match path.to_str() {
        Some(_) => bytes_to_cstring(copy_bytes(&path.bytes)),
        None => Err(VmError::InvalidPath(path.display())),
    }
}

proof fn lemma_c_texts_fault(list: Seq<Seq<char>>, n: int)
    requires
        0 <= n <= list.len(),
        c_texts(list.take(n)) is Err,
    ensures
        c_texts(list) == c_texts(list.take(n)),
    decreases list.len() - n,
{
    if n == list.len() {
        assert(list.take(n) =~= list);
    } else {
        assert(list.take(n + 1).drop_last() =~= list.take(n));
        lemma_c_texts_fault(list, n + 1);
    }
}

/// A list of texts as C strings.
pub fn c_string_array(strings: &Vec<String>) -> (r: Result<Vec<Vec<u8>>, VmError>)
    ensures
        is_c_texts(r, c_texts(texts(strings@))),
{
    let ghost all = texts(strings@);
    let mut out: Vec<Vec<u8>> = Vec::new();
    let mut i: usize = 0;
    assert(byte_lists(out@) =~= Seq::<Seq<u8>>::empty());
    assert(all.take(0) =~= Seq::<Seq<char>>::empty());
    while i < strings.len()
        invariant
            i <= strings.len(),
            all == texts(strings@),
            c_texts(all.take(i as int)) == Ok::<Seq<Seq<u8>>, CFault>(byte_lists(out@)),
        decreases strings.len() - i,
    {
        let ghost now = all.take(i + 1);
        let ghost before = out@;
        assert(now.drop_last() =~= all.take(i as int));
        assert(now.last() == strings@[i as int]@);
        match text_to_cstring(strings[i].as_str()) {
            Ok(bytes) => {
                out.push(bytes);
                assert(byte_lists(out@) =~= byte_lists(before).push(bytes@));
            },
            Err(e) => {
                proof {
                    lemma_c_texts_fault(all, i + 1);
                }
                return Err(e);
            },
        }
        i = i + 1;
    }
    assert(all.take(i as int) =~= all);
    Ok(out)
}

// ---------------------------------------------------------------------
// Laws
// ---------------------------------------------------------------------
/// A C string is the text itself, byte for byte: it exists exactly where no
/// byte is NUL, and else the fault is at the first NUL.
pub proof fn law_c_bytes(bytes: Seq<u8>)
    ensures
        match c_bytes(bytes) {
            Ok(c) => c == bytes && forall|i: int| 0 <= i < bytes.len() ==> bytes[i] != 0,
            Err(CFault::Nul(at)) => 0 <= at < bytes.len() && bytes[at] == 0 && forall|i: int|
                0 <= i < at ==> bytes[i] != 0,
            Err(CFault::NotUtf8(_)) => false,
        },
{
    crate::text::lemma_first_index(bytes, 0u8);
    if bytes.contains(0u8) {
        let i = choose|i: int| 0 <= i < bytes.len() && bytes[i] == 0;
        assert(bytes[i] == 0);
    } else {
        assert forall|i: int| 0 <= i < bytes.len() implies bytes[i] != 0 by {
            if bytes[i] == 0 {
                assert(bytes.contains(0u8));
            }
        }
    }
}

/// A path is handed over as it is, where it is valid UTF-8 and holds no NUL.
pub proof fn law_c_path(path: Seq<u8>)
    ensures
        match c_path(path) {
            Ok(c) => c == path && valid_utf8(path) && !path.contains(0u8),
            Err(CFault::Nul(at)) => valid_utf8(path) && 0 <= at < path.len() && path[at] == 0,
            Err(CFault::NotUtf8(text)) => !valid_utf8(path) && text == lossy_text(path),
        },
{
    law_c_bytes(path);
}

/// A list of C strings holds the bytes of every text, each at its own place;
/// there is one exactly where no text holds a NUL, and else the fault is the
/// first NUL of the first text that holds one.
pub proof fn law_c_texts(list: Seq<Seq<char>>)
    ensures
        match c_texts(list) {
            Ok(c) => c.len() == list.len() && forall|i: int|
                0 <= i < list.len() ==> #[trigger] c[i] == encode_utf8(list[i]) && !encode_utf8(
                    list[i],
                ).contains(0u8),
            Err(CFault::Nul(at)) => exists|k: int|
                0 <= k < list.len() && c_bytes(encode_utf8(#[trigger] list[k])) == Err::<
                    Seq<u8>,
                    CFault,
                >(CFault::Nul(at)) && forall|i: int|
                    0 <= i < k ==> !encode_utf8(#[trigger] list[i]).contains(0u8),
            Err(CFault::NotUtf8(_)) => false,
        },
    decreases list.len(),
{
    if list.len() > 0 {
        let front = list.drop_last();
        law_c_texts(front);
        law_c_bytes(encode_utf8(list.last()));
        match c_texts(front) {
            Err(CFault::Nul(at)) => {
                let k = choose|k: int|
                    0 <= k < front.len() && c_bytes(encode_utf8(#[trigger] front[k])) == Err::<
                        Seq<u8>,
                        CFault,
                    >(CFault::Nul(at)) && forall|i: int|
                        0 <= i < k ==> !encode_utf8(#[trigger] front[i]).contains(0u8);
                assert(list[k] == front[k]);
                assert forall|i: int| 0 <= i < k implies !encode_utf8(
                    #[trigger] list[i],
                ).contains(0u8) by {
                    assert(front[i] == list[i]);
                }
            },
            Ok(c) => {
                assert forall|i: int| 0 <= i < front.len() implies !encode_utf8(
                    #[trigger] list[i],
                ).contains(0u8) by {
                    assert(c[i] == encode_utf8(front[i]));
                }
                match c_bytes(encode_utf8(list.last())) {
                    Err(_) => {
                        let k = list.len() - 1;
                        assert(list[k] == list.last());
                    },
                    Ok(bytes) => {
                        let all = c.push(bytes);
                        assert forall|i: int| 0 <= i < list.len() implies #[trigger] all[i]
                            == encode_utf8(list[i]) && !encode_utf8(list[i]).contains(0u8) by {
                            if i < front.len() {
                                assert(c[i] == encode_utf8(front[i]));
                            }
                        }
                    },
                }
            },
            _ => {},
        }
    }
}

/// The error for a value that is no C string says the same as the fault: the path
/// as text, or the position of the NUL.
pub proof fn law_reports(e: VmError, fault: CFault)
    ensures
        reports(e, fault) <==> match fault {
            CFault::NotUtf8(text) => e matches VmError::InvalidPath(t) && t@ == text,
            CFault::Nul(at) => e matches VmError::CString { position } && position == at,
        },
{
}

/// A result is a C string exactly where there is one, with its bytes, and else the
/// error of its fault; and so it is with a list.
pub proof fn law_c_results(
    r: Result<Vec<u8>, VmError>,
    c: Result<Seq<u8>, CFault>,
    list: Result<Vec<Vec<u8>>, VmError>,
    cs: Result<Seq<Seq<u8>>, CFault>,
)
    ensures
        is_c_bytes(r, c) <==> match c {
            Ok(bytes) => r matches Ok(v) && v@ == bytes,
            Err(fault) => r matches Err(e) && reports(e, fault),
        },
        is_c_texts(list, cs) <==> match cs {
            Ok(all) => list matches Ok(v) && byte_lists(v@) == all,
            Err(fault) => list matches Err(e) && reports(e, fault),
        },
{
}

} // verus!
