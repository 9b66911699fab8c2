//! The BOM detector and stripper: matches the first bytes of a file against
//! the known byte-order-mark signatures and can rebuild the content with a
//! detected BOM removed.
//!
//! Matching order is significant: the 4-byte UTF-32 signatures are tested
//! before the 2-byte UTF-16 signatures, because the UTF-32-LE signature
//! begins with the same two bytes as the UTF-16-LE signature.

use vstd::prelude::*;

use crate::types::{spec_bom_length, BomType, FileAnalysis};

verus! {

/// The BOM kind whose signature is a prefix of `s`, longest signature first,
/// or `BomType::Absent` when no signature matches.
pub open spec fn spec_detect_bom(s: Seq<u8>) -> BomType {
    if s.len() >= 4 && s[0] == 0xFF && s[1] == 0xFE && s[2] == 0x00 && s[3] == 0x00 {
        BomType::Utf32Le
    } else if s.len() >= 4 && s[0] == 0x00 && s[1] == 0x00 && s[2] == 0xFE && s[3] == 0xFF {
        BomType::Utf32Be
    } else if s.len() >= 3 && s[0] == 0xEF && s[1] == 0xBB && s[2] == 0xBF {
        BomType::Utf8
    } else if s.len() >= 2 && s[0] == 0xFF && s[1] == 0xFE {
        BomType::Utf16Le
    } else if s.len() >= 2 && s[0] == 0xFE && s[1] == 0xFF {
        BomType::Utf16Be
    } else {
        BomType::Absent
    }
}

/// Detects the byte-order mark at the start of `data`, which may be the whole
/// file or any prefix of it at least 4 bytes long (shorter only when the file
/// itself is shorter). Detection reads the bytes and nothing else: the result
/// is a function of the first bytes alone.
pub fn detect_bom(data: &[u8]) -> (r: BomType)
    ensures
        r == spec_detect_bom(data@),
{
    let n = data.len();
    if n >= 4 && data[0] == 0xFF && data[1] == 0xFE && data[2] == 0x00 && data[3] == 0x00 {
        BomType::Utf32Le
    } else if n >= 4 && data[0] == 0x00 && data[1] == 0x00 && data[2] == 0xFE && data[3] == 0xFF {
        BomType::Utf32Be
    } else if n >= 3 && data[0] == 0xEF && data[1] == 0xBB && data[2] == 0xBF {
        BomType::Utf8
    } else if n >= 2 && data[0] == 0xFF && data[1] == 0xFE {
        BomType::Utf16Le
    } else if n >= 2 && data[0] == 0xFE && data[1] == 0xFF {
        BomType::Utf16Be
    } else {
        BomType::Absent
    }
}

/// Detection looks at the first four bytes only: two streams that agree on
/// them (or are equal and shorter) are classified alike. A caller may hand
/// `detect_bom` any such prefix in place of the whole file.
pub proof fn lemma_detect_bom_prefix_only(s: Seq<u8>, t: Seq<u8>)
    requires
        s.len() >= 4 ==> t.len() >= 4 && t.subrange(0, 4) == s.subrange(0, 4),
        s.len() < 4 ==> t == s,
    ensures
        spec_detect_bom(t) == spec_detect_bom(s),
{
    if s.len() >= 4 {
        assert(t.subrange(0, 4)[0] == t[0] && s.subrange(0, 4)[0] == s[0]);
        assert(t.subrange(0, 4)[1] == t[1] && s.subrange(0, 4)[1] == s[1]);
        assert(t.subrange(0, 4)[2] == t[2] && s.subrange(0, 4)[2] == s[2]);
        assert(t.subrange(0, 4)[3] == t[3] && s.subrange(0, 4)[3] == s[3]);
    }
}

/// A stream that begins with the UTF-32-LE signature `FF FE 00 00` is
/// classified as UTF-32-LE, never as UTF-16-LE, although its first two bytes
/// equal the UTF-16-LE signature.
pub proof fn lemma_utf32_le_not_utf16_le(s: Seq<u8>)
    requires
        s.len() >= 4,
        s[0] == 0xFF,
        s[1] == 0xFE,
        s[2] == 0x00,
        s[3] == 0x00,
    ensures
        spec_detect_bom(s) == BomType::Utf32Le,
        spec_detect_bom(s) != BomType::Utf16Le,
{
}

/// A detected BOM always fits inside the stream it was detected in.
pub proof fn lemma_detected_bom_fits(s: Seq<u8>)
    ensures
        spec_bom_length(spec_detect_bom(s)) <= s.len(),
{
}

/// The content of `data` with its first `bom_len` bytes removed, used with
/// the byte length of a BOM that was detected at the front. Every remaining
/// byte is copied unchanged, so line endings are not touched.
pub fn strip_bom_content(data: &[u8], bom_len: usize) -> (r: Vec<u8>)
    requires
        bom_len <= data@.len(),
    ensures
        r@ == data@.skip(bom_len as int),
{
    let n = data.len();
    let mut out: Vec<u8> = Vec::new();
    let mut i: usize = bom_len;
    while i < n
        invariant
            bom_len <= i <= n,
            n == data@.len(),
            out@ == data@.subrange(bom_len as int, i as int),
        decreases n - i,
    {
        out.push(data[i]);
        proof {
            assert(out@ =~= data@.subrange(bom_len as int, i + 1 as int));
        }
        i = i + 1;
    }
    proof {
        assert(data@.subrange(bom_len as int, n as int) =~= data@.skip(bom_len as int));
    }
    out
}

/// Decides from a file's analysis whether its BOM is to be stripped: yes
/// exactly when the record carries no error and a detected BOM, and then the
/// answer names the BOM's kind and its byte length. A record with an error,
/// without a BOM check, or whose check found nothing, is skipped.
pub fn plan_bom_removal(result: &FileAnalysis) -> (r: Option<(BomType, usize)>)
    ensures
        r is Some <==> (result.error is None && result.spec_has_bom()),
        match r {
            Some(plan) => {
                &&& Some(plan.0) == result.bom_type
                &&& plan.1 == spec_bom_length(plan.0)
                &&& plan.1 > 0
            },
            None => true,
        },
{
    if result.error.is_some() || !result.has_bom() {
        return None;
    }
    let kind = match result.bom_type {
        Some(kind) => kind,
        None => {
            return None;
        },
    };
    let bom_size = kind.bom_length();
    if bom_size == 0 {
        return None;
    }
    Some((kind, bom_size))
}

} // verus!
