//! File paths as bytes.
use vstd::prelude::*;
use crate::bytes::push_all;

verus! {

/// The byte that separates the parts of a path.
pub const SEPARATOR: u8 = 0x2f;

/// The bytes of a text.
pub open spec fn utf8(text: Seq<char>) -> Seq<u8> {
    vstd::utf8::encode_utf8(text)
}

/// `part` beneath `base`, where `part` is relative.
pub open spec fn joined_path(base: Seq<u8>, part: Seq<u8>) -> Seq<u8> {
    if base.len() == 0 {
        part
    } else if base.last() == SEPARATOR {
        base + part
    } else {
        base.push(SEPARATOR) + part
    }
}

/// `part` beneath `base`, where `part` is relative.
pub fn join_path(base: &[u8], part: &str) -> (path: Vec<u8>)
    ensures
        path@ == joined_path(base@, utf8(part@)),
{
    let mut path: Vec<u8> = Vec::new();
    push_all(&mut path, base);
    if base.len() > 0 && base[base.len() - 1] != SEPARATOR {
        path.push(SEPARATOR);
    }
    push_all(&mut path, part.as_bytes());
    assert(path@ =~= joined_path(base@, utf8(part@)));
    path
}

/// The bytes of an optional path.
pub open spec fn path_view(path: Option<&[u8]>) -> Option<Seq<u8>> {
    match path {
        Some(p) => Some(p@),
        None => None,
    }
}

/// A path beneath another is that one, a separator and its own parts: one
/// separator, be there one at the end of the first or not.
pub proof fn law_paths_are_joined_by_one_separator(base: Seq<u8>, part: Seq<u8>)
    requires
        base.len() > 0,
    ensures
        base.last() != 47 ==> joined_path(base, part) == base + seq![47u8] + part,
        base.last() == 47 ==> joined_path(base, part) == base + part,
        joined_path(Seq::empty(), part) == part,
{
    assert(base.push(47u8) =~= base + seq![47u8]);
}

} // verus!
