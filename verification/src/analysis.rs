//! The file classifier: combines the binary-content guard, the BOM detector
//! and the byte scanner into one analysis record per file.
//!
//! The caller reads the file and hands its bytes in; every failure mode that
//! is not an I/O failure is encoded in the record, never raised.

use vstd::prelude::*;

use crate::bom::{detect_bom, spec_detect_bom};
use crate::scan::{count_line_endings, spec_crlf_count, spec_lf_count};
use crate::types::{BomType, ConfigSettings, FileAnalysis};

verus! {

/// How many leading bytes the binary-content guard samples.
pub const BINARY_CHECK_SIZE: usize = 8192;

/// Whether a byte is ordinary text: printable ASCII, tab, `\n`, `\r`, or a
/// high byte (a possible UTF-8 continuation).
pub open spec fn spec_is_text_byte(b: u8) -> bool {
    (32 <= b && b <= 126) || b == 9 || b == 10 || b == 13 || b >= 128
}

/// Checks if a byte is a typical text character.
pub fn is_text_byte(b: u8) -> (r: bool)
    ensures
        r == spec_is_text_byte(b),
{
    (32 <= b && b <= 126) || b == 9 || b == 10 || b == 13 || b >= 128
}

/// The number of bytes in `s` that are not text bytes.
pub open spec fn spec_non_text_count(s: Seq<u8>) -> nat
    decreases s.len(),
{
    if s.len() == 0 {
        0
    } else {
        (if spec_is_text_byte(s[0]) {
            0nat
        } else {
            1nat
        }) + spec_non_text_count(s.skip(1))
    }
}

/// The sampled prefix the binary-content guard looks at: the whole content
/// when it is short, else its first `BINARY_CHECK_SIZE` bytes.
pub open spec fn spec_binary_sample(s: Seq<u8>) -> Seq<u8> {
    if s.len() <= BINARY_CHECK_SIZE {
        s
    } else {
        s.take(BINARY_CHECK_SIZE as int)
    }
}

/// The binary-content verdict on a sample: a non-empty sample that contains
/// a null byte, or whose non-text bytes exceed 30 percent, counts as binary.
pub open spec fn spec_is_binary(sample: Seq<u8>) -> bool {
    sample.len() > 0 && (sample.contains(0u8) || spec_non_text_count(sample) > sample.len() * 30
        / 100)
}

/// Detects binary content by sampling the leading bytes of `data` for null
/// bytes and for an excess of non-printable characters. An empty file is not
/// binary.
pub fn is_binary_file(data: &[u8]) -> (r: bool)
    ensures
        r == spec_is_binary(spec_binary_sample(data@)),
{
    let n = data.len();
    let m = if n <= BINARY_CHECK_SIZE {
        n
    } else {
        BINARY_CHECK_SIZE
    };
    let ghost sample = spec_binary_sample(data@);
    proof {
        assert(sample =~= data@.take(m as int));
    }
    if m == 0 {
        return false;
    }
    let mut has_null = false;
    let mut non_text: usize = 0;
    let mut i: usize = 0;
    proof {
        assert(sample.skip(0) =~= sample);
    }
    while i < m
        invariant
            i <= m,
            m <= data@.len(),
            m <= BINARY_CHECK_SIZE,
            sample == data@.take(m as int),
            has_null == (exists|j: int| 0 <= j < i && sample[j] == 0u8),
            spec_non_text_count(sample) == non_text + spec_non_text_count(sample.skip(i as int)),
            non_text <= i,
        decreases m - i,
    {
        let b = data[i];
        proof {
            assert(sample[i as int] == data@[i as int]);
            let t = sample.skip(i as int);
            assert(t[0] == sample[i as int]);
            assert(t.skip(1) =~= sample.skip(i + 1 as int));
        }
        if b == 0 {
            has_null = true;
        }
        if !is_text_byte(b) {
            non_text = non_text + 1;
        }
        i = i + 1;
    }
    proof {
        assert(sample.skip(m as int) =~= Seq::<u8>::empty());
        assert(sample.len() == m);
        if has_null {
            assert(sample.contains(0u8));
        } else {
            assert(!sample.contains(0u8));
        }
    }
    let threshold = m * 30 / 100;
    has_null || non_text > threshold
}

/// The error message recorded for a file the binary guard skipped.
pub open spec fn spec_binary_skip_message() -> Seq<char> {
    "Binary file detected, skipping"@
}

/// Analyzes one file's bytes: the binary guard runs first and, when it
/// trips, short-circuits the record with a skip marker; otherwise the BOM is
/// detected when (and only when) the configuration asks for it, and the line
/// endings are counted.
pub fn analyze_file(path: String, data: &[u8], config: &ConfigSettings) -> (r: FileAnalysis)
    ensures
        r.path == path,
        spec_is_binary(spec_binary_sample(data@)) ==> {
            &&& r.lf_count == 0
            &&& r.crlf_count == 0
            &&& r.bom_type is None
            &&& r.error is Some
            &&& r.error->0@ == spec_binary_skip_message()
        },
        !spec_is_binary(spec_binary_sample(data@)) ==> {
            &&& r.error is None
            &&& r.bom_type == (if config.check_bom {
                Some(spec_detect_bom(data@))
            } else {
                None::<BomType>
            })
            &&& r.lf_count == spec_lf_count(data@)
            &&& r.crlf_count == spec_crlf_count(data@)
        },
{
    if is_binary_file(data) {
        return FileAnalysis {
            path,
            lf_count: 0,
            crlf_count: 0,
            bom_type: None,
            error: Some("Binary file detected, skipping".to_owned()),
        };
    }
    let bom_type = if config.check_bom {
        Some(detect_bom(data))
    } else {
        None
    };
    let (lf_count, crlf_count) = count_line_endings(data);
    FileAnalysis { path, lf_count, crlf_count, bom_type, error: None }
}

} // verus!
