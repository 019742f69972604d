//! NUL-terminated UTF-8 text in fixed-length shared-memory fields.
//!
//! Writing never truncates: a value that does not fit (with its terminating NUL) or that contains
//! an embedded NUL is refused and the field is left untouched. Reading stops at the first NUL and
//! refuses unterminated or non-UTF-8 content.

use crate::text::str_from_utf8;
use vstd::prelude::*;
use vstd::slice::slice_subrange;
use vstd::string::StringSliceAdditionalSpecFns;
use vstd::utf8::valid_utf8;

verus! {

/// Whether `v` can be stored: it fits with its NUL terminator and has no embedded NUL.
pub open spec fn cstr_fits(v: Seq<u8>, capacity: int) -> bool {
    v.len() < capacity && !v.contains(0u8)
}

/// The field contents after storing `v` (bytes, terminator, untouched tail).
pub open spec fn cstr_stored(old_field: Seq<u8>, v: Seq<u8>) -> Seq<u8> {
    v + seq![0u8] + old_field.subrange(v.len() as int + 1, old_field.len() as int)
}

/// Position of the first NUL in a field, if any.
pub open spec fn first_nul(field: Seq<u8>) -> Option<int> {
    if exists|i: int| 0 <= i < field.len() && field[i] == 0u8 {
        Some(choose|i: int| 0 <= i < field.len() && field[i] == 0u8 && forall|j: int| 0 <= j < i ==> field[j] != 0u8)
    } else {
        None
    }
}

/// The text a field holds: bytes before the first NUL, when terminated and valid UTF-8.
pub open spec fn cstr_text(field: Seq<u8>) -> Option<Seq<u8>> {
    match first_nul(field) {
        Some(end) => if valid_utf8(field.subrange(0, end)) {
            Some(field.subrange(0, end))
        } else {
            None
        },
        None => None,
    }
}

proof fn lemma_first_nul(field: Seq<u8>, end: int)
    requires
        0 <= end < field.len(),
        field[end] == 0u8,
        forall|j: int| 0 <= j < end ==> field[j] != 0u8,
    ensures
        first_nul(field) == Some(end),
{
    let c = choose|i: int| 0 <= i < field.len() && field[i] == 0u8 && forall|j: int| 0 <= j < i ==> field[j] != 0u8;
    assert(0 <= c < field.len() && field[c] == 0u8 && forall|j: int| 0 <= j < c ==> field[j] != 0u8);
    if c < end {
        assert(field[c] != 0u8);
    }
    if end < c {
        assert(field[end] != 0u8);
    }
}

/// Store the bytes `value` NUL-terminated at the start of `dst`; `false` (and `dst` untouched) when
/// they do not fit or contain a NUL.
pub fn write_cstr_bytes(dst: &mut [u8], value: &[u8]) -> (r: bool)
    ensures
        r == cstr_fits(value@, old(dst)@.len() as int),
        r ==> final(dst)@ == cstr_stored(old(dst)@, value@),
        !r ==> final(dst)@ == old(dst)@,
{
    let bytes = value;
    if bytes.len() >= dst.len() {
        return false;
    }
    let mut k: usize = 0;
    while k < bytes.len()
        invariant
            0 <= k <= bytes@.len(),
            bytes@ == value@,
            bytes@.len() < dst@.len(),
            forall|j: int| 0 <= j < k ==> bytes@[j] != 0u8,
        decreases bytes@.len() - k,
    {
        if bytes[k] == 0 {
            proof {
                assert(bytes@[k as int] == 0u8);
                assert(bytes@.contains(0u8));
            }
            return false;
        }
        k += 1;
    }
    let ghost old_dst = dst@;
    let mut i: usize = 0;
    while i < bytes.len()
        invariant
            0 <= i <= bytes@.len(),
            bytes@ == value@,
            forall|j: int| 0 <= j < bytes@.len() ==> bytes@[j] != 0u8,
            bytes@.len() < dst@.len(),
            dst@.len() == old_dst.len(),
            forall|j: int| 0 <= j < i ==> dst@[j] == bytes@[j],
            forall|j: int| i <= j < dst@.len() ==> dst@[j] == old_dst[j],
        decreases bytes@.len() - i,
    {
        dst[i] = bytes[i];
        i += 1;
    }
    dst[bytes.len()] = 0;
    proof {
        assert(!bytes@.contains(0u8));
        assert(dst@ =~= cstr_stored(old_dst, bytes@));
    }
    true
}

/// Store `value` NUL-terminated at the start of `dst`; `false` (and `dst` untouched) when it does
/// not fit or contains a NUL.
pub fn write_cstr_field(dst: &mut [u8], value: &str) -> (r: bool)
    ensures
        r == cstr_fits(value.spec_bytes(), old(dst)@.len() as int),
        r ==> final(dst)@ == cstr_stored(old(dst)@, value.spec_bytes()),
        !r ==> final(dst)@ == old(dst)@,
{
    write_cstr_bytes(dst, value.as_bytes())
}

/// Read the NUL-terminated UTF-8 text at the start of `src`; `None` when no NUL is present or the
/// bytes before it are not UTF-8.
pub fn read_cstr_field(src: &[u8]) -> (r: Option<&str>)
    ensures
        match cstr_text(src@) {
            Some(text) => r matches Some(s) && s.spec_bytes() == text,
            None => r is None,
        },
{
    let mut end: usize = 0;
    while end < src.len()
        invariant
            0 <= end <= src@.len(),
            forall|j: int| 0 <= j < end ==> src@[j] != 0u8,
        decreases src@.len() - end,
    {
        if src[end] == 0 {
            proof {
                lemma_first_nul(src@, end as int);
            }
            let prefix = slice_subrange(src, 0, end);
            return str_from_utf8(prefix);
        }
        end += 1;
    }
    None
}

/// Reading back a field that a successful write produced yields exactly the written text.
pub proof fn lemma_cstr_round_trip(old_field: Seq<u8>, v: Seq<u8>)
    requires
        cstr_fits(v, old_field.len() as int),
        valid_utf8(v),
    ensures
        cstr_text(cstr_stored(old_field, v)) == Some(v),
{
    let f = cstr_stored(old_field, v);
    assert forall|j: int| 0 <= j < v.len() implies f[j] != 0u8 by {
        assert(f[j] == v[j]);
        if v[j] == 0u8 {
            assert(v.contains(0u8));
        }
    }
    lemma_first_nul(f, v.len() as int);
    assert(f.subrange(0, v.len() as int) =~= v);
}

} // verus!
