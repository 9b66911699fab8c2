//! The line-ending rewriter: rebuilds a file's content with every line break
//! replaced by a single target style.
//!
//! A line break is either a bare `\n` or the pair `\r\n`; each is replaced by
//! the target ending's bytes. All other bytes, including a `\r` with no
//! following `\n`, are copied unchanged. Because the final line break of a
//! file is itself replaced (or absent), whether the content ends with a
//! newline is preserved exactly.

use vstd::prelude::*;

use crate::scan::{spec_crlf_count, spec_lf_count, CR, LF};
use crate::types::{spec_ending_bytes, ConfigSettings, FileAnalysis, LineEnding};

verus! {

/// The content of `s` with every line break replaced by the bytes of
/// `ending`: a `\r\n` pair or a bare `\n` becomes `spec_ending_bytes(ending)`;
/// every other byte stays.
pub open spec fn spec_rewrite(s: Seq<u8>, ending: LineEnding) -> Seq<u8>
    decreases s.len(),
{
    if s.len() == 0 {
        Seq::empty()
    } else if s.len() >= 2 && s[0] == CR && s[1] == LF {
        spec_ending_bytes(ending) + spec_rewrite(s.skip(2), ending)
    } else if s[0] == LF {
        spec_ending_bytes(ending) + spec_rewrite(s.skip(1), ending)
    } else {
        seq![s[0]] + spec_rewrite(s.skip(1), ending)
    }
}

/// Whether the content's very last byte is a `\n`.
pub open spec fn spec_ends_with_newline(s: Seq<u8>) -> bool {
    s.len() > 0 && s.last() == LF
}

/// Rebuilds `data` with every line break replaced by `ending`.
pub fn rewrite_content(data: &[u8], ending: LineEnding) -> (r: Vec<u8>)
    ensures
        r@ == spec_rewrite(data@, ending),
{
    let n = data.len();
    let mut out: Vec<u8> = Vec::new();
    let mut i: usize = 0;
    proof {
        assert(data@.skip(0) =~= data@);
        assert(out@ + spec_rewrite(data@, ending) =~= spec_rewrite(data@, ending));
    }
    while i < n
        invariant
            i <= n,
            n == data@.len(),
            out@ + spec_rewrite(data@.skip(i as int), ending) == spec_rewrite(data@, ending),
        decreases n - i,
    {
        let ghost prev_out = out@;
        let ghost t = data@.skip(i as int);
        let b = data[i];
        if b == CR && i + 1 < n && data[i + 1] == LF {
            match ending {
                LineEnding::Lf => {
                    out.push(LF);
                },
                LineEnding::Crlf => {
                    out.push(CR);
                    out.push(LF);
                },
            }
            proof {
                assert(t[0] == CR && t.len() >= 2 && t[1] == LF);
                assert(t.skip(2) =~= data@.skip(i + 2 as int));
                assert(out@ =~= prev_out + spec_ending_bytes(ending));
                assert(out@ + spec_rewrite(data@.skip(i + 2 as int), ending) =~= prev_out + (
                spec_ending_bytes(ending) + spec_rewrite(t.skip(2), ending)));
            }
            i = i + 2;
        } else if b == LF {
            match ending {
                LineEnding::Lf => {
                    out.push(LF);
                },
                LineEnding::Crlf => {
                    out.push(CR);
                    out.push(LF);
                },
            }
            proof {
                assert(t[0] == LF);
                assert(t.skip(1) =~= data@.skip(i + 1 as int));
                assert(out@ =~= prev_out + spec_ending_bytes(ending));
                assert(out@ + spec_rewrite(data@.skip(i + 1 as int), ending) =~= prev_out + (
                spec_ending_bytes(ending) + spec_rewrite(t.skip(1), ending)));
            }
            i = i + 1;
        } else {
            out.push(b);
            proof {
                assert(t[0] == b && b != LF);
                assert(!(t.len() >= 2 && t[0] == CR && t[1] == LF));
                assert(t.skip(1) =~= data@.skip(i + 1 as int));
                assert(out@ =~= prev_out + seq![b]);
                assert(out@ + spec_rewrite(data@.skip(i + 1 as int), ending) =~= prev_out + (
                seq![t[0]] + spec_rewrite(t.skip(1), ending)));
            }
            i = i + 1;
        }
    }
    proof {
        assert(data@.skip(n as int) =~= Seq::<u8>::empty());
        assert(spec_rewrite(Seq::empty(), ending) =~= Seq::<u8>::empty());
        assert(out@ + Seq::<u8>::empty() =~= out@);
    }
    out
}

/// Whether `data` ends with a trailing `\n` byte, as the original file's
/// last byte decides whether the rewritten file gets a final line break.
pub fn check_trailing_newline(data: &[u8]) -> (r: bool)
    ensures
        r == spec_ends_with_newline(data@),
{
    let n = data.len();
    if n == 0 {
        false
    } else {
        data[n - 1] == LF
    }
}

/// The rewrite decision: a file is rebuilt when its endings are mixed, or
/// when they are exclusively the kind opposite to the requested one.
pub open spec fn spec_rewrite_needed(result: FileAnalysis, config: ConfigSettings) -> bool {
    ||| result.lf_count > 0 && result.crlf_count > 0
    ||| config.set_linux && result.lf_count == 0 && result.crlf_count > 0
    ||| config.set_windows && result.lf_count > 0 && result.crlf_count == 0
}

/// Decides from a file's analysis whether a rewrite must rebuild it: yes for
/// mixed endings, yes when the file is exclusively the other kind, and no
/// (skip) otherwise.
pub fn rewrite_needed(result: &FileAnalysis, config: &ConfigSettings) -> (r: bool)
    ensures
        r == spec_rewrite_needed(*result, *config),
{
    let mut rebuild = false;
    if result.has_mixed_line_endings() {
        rebuild = true;
    }
    if (config.set_linux && result.is_crlf_only()) || (config.set_windows && result.is_lf_only()) {
        rebuild = true;
    }
    rebuild
}

/// The line-ending style a configuration asks for: `None` when no rewrite
/// option is set (the batch must then be refused), LF when the Linux option
/// is set, CRLF otherwise.
pub fn rewrite_target(config: &ConfigSettings) -> (r: Option<LineEnding>)
    ensures
        r is Some <==> (config.set_linux || config.set_windows),
        r is Some ==> r->0 == (if config.set_linux {
            LineEnding::Lf
        } else {
            LineEnding::Crlf
        }),
{
    if !config.has_rewrite_option() {
        None
    } else if config.set_linux {
        Some(LineEnding::Lf)
    } else {
        Some(LineEnding::Crlf)
    }
}

/// A stream without CRLF pairs is unchanged by a rewrite to LF: every line
/// break it has is already a bare `\n`.
pub proof fn lemma_rewrite_lf_identity(s: Seq<u8>)
    requires
        spec_crlf_count(s) == 0,
    ensures
        spec_rewrite(s, LineEnding::Lf) == s,
    decreases s.len(),
{
    if s.len() == 0 {
        assert(spec_rewrite(s, LineEnding::Lf) =~= s);
    } else if s.len() >= 2 && s[0] == CR && s[1] == LF {
        assert(spec_crlf_count(s) >= 1);
    } else {
        assert(spec_crlf_count(s.skip(1)) == 0);
        lemma_rewrite_lf_identity(s.skip(1));
        if s[0] == LF {
            assert(spec_ending_bytes(LineEnding::Lf) + s.skip(1) =~= s);
        } else {
            assert(seq![s[0]] + s.skip(1) =~= s);
        }
    }
}

/// A stream without bare-LF endings is unchanged by a rewrite to CRLF: every
/// line break it has is already a `\r\n` pair.
pub proof fn lemma_rewrite_crlf_identity(s: Seq<u8>)
    requires
        spec_lf_count(s) == 0,
    ensures
        spec_rewrite(s, LineEnding::Crlf) == s,
    decreases s.len(),
{
    if s.len() == 0 {
        assert(spec_rewrite(s, LineEnding::Crlf) =~= s);
    } else if s.len() >= 2 && s[0] == CR && s[1] == LF {
        assert(spec_lf_count(s.skip(2)) == 0);
        lemma_rewrite_crlf_identity(s.skip(2));
        assert(spec_ending_bytes(LineEnding::Crlf) + s.skip(2) =~= s);
    } else if s[0] == LF {
        assert(spec_lf_count(s) >= 1);
    } else {
        assert(spec_lf_count(s.skip(1)) == 0);
        lemma_rewrite_crlf_identity(s.skip(1));
        assert(seq![s[0]] + s.skip(1) =~= s);
    }
}

/// A rewrite to CRLF never produces a leading `\n`: the output starts with
/// `\r` or with the input's own first byte, which the first branch shows is
/// not `\n`.
proof fn lemma_rewrite_crlf_first_byte(s: Seq<u8>)
    requires
        s.len() > 0,
    ensures
        spec_rewrite(s, LineEnding::Crlf).len() > 0,
        spec_rewrite(s, LineEnding::Crlf)[0] != LF,
{
    let eb = spec_ending_bytes(LineEnding::Crlf);
    if s.len() >= 2 && s[0] == CR && s[1] == LF {
        assert((eb + spec_rewrite(s.skip(2), LineEnding::Crlf))[0] == CR);
    } else if s[0] == LF {
        assert((eb + spec_rewrite(s.skip(1), LineEnding::Crlf))[0] == CR);
    } else {
        assert((seq![s[0]] + spec_rewrite(s.skip(1), LineEnding::Crlf))[0] == s[0]);
    }
}

/// Round trip: converting content without CRLF pairs (an LF-only file, or
/// one with no line breaks at all) to CRLF and back to LF reproduces it
/// byte for byte.
pub proof fn lemma_rewrite_round_trip(s: Seq<u8>)
    requires
        spec_crlf_count(s) == 0,
    ensures
        spec_rewrite(spec_rewrite(s, LineEnding::Crlf), LineEnding::Lf) == s,
    decreases s.len(),
{
    if s.len() == 0 {
        assert(spec_rewrite(s, LineEnding::Crlf) =~= Seq::<u8>::empty());
        assert(spec_rewrite(spec_rewrite(s, LineEnding::Crlf), LineEnding::Lf) =~= s);
    } else if s.len() >= 2 && s[0] == CR && s[1] == LF {
        assert(spec_crlf_count(s) >= 1);
    } else {
        assert(spec_crlf_count(s.skip(1)) == 0);
        lemma_rewrite_round_trip(s.skip(1));
        let t = spec_rewrite(s.skip(1), LineEnding::Crlf);
        if s[0] == LF {
            let c = spec_ending_bytes(LineEnding::Crlf) + t;
            assert(spec_rewrite(s, LineEnding::Crlf) == c);
            assert(c.len() >= 2 && c[0] == CR && c[1] == LF);
            assert(c.skip(2) =~= t);
            assert(spec_rewrite(c, LineEnding::Lf) == spec_ending_bytes(LineEnding::Lf)
                + spec_rewrite(t, LineEnding::Lf));
            assert(spec_ending_bytes(LineEnding::Lf) + s.skip(1) =~= s);
        } else {
            let c = seq![s[0]] + t;
            assert(spec_rewrite(s, LineEnding::Crlf) == c);
            assert(c[0] == s[0] && s[0] != LF);
            if s.len() >= 2 {
                lemma_rewrite_crlf_first_byte(s.skip(1));
                assert(c.len() >= 2 ==> c[1] == t[0]);
                assert(!(c.len() >= 2 && c[0] == CR && c[1] == LF));
            } else {
                assert(s.skip(1) =~= Seq::<u8>::empty());
                assert(t =~= Seq::<u8>::empty());
                assert(c.len() == 1);
            }
            assert(c.skip(1) =~= t);
            assert(spec_rewrite(c, LineEnding::Lf) == seq![s[0]] + spec_rewrite(
                t,
                LineEnding::Lf,
            ));
            assert(seq![s[0]] + s.skip(1) =~= s);
        }
    }
}

/// Rewriting never loses content entirely and never adds or removes the
/// final line break: the output is empty only for empty input, and it ends
/// with `\n` exactly when the input does.
pub proof fn lemma_rewrite_preserves_trailing_newline(s: Seq<u8>, ending: LineEnding)
    ensures
        spec_rewrite(s, ending).len() > 0 <==> s.len() > 0,
        spec_ends_with_newline(spec_rewrite(s, ending)) == spec_ends_with_newline(s),
    decreases s.len(),
{
    let eb = spec_ending_bytes(ending);
    assert(eb.len() > 0 && eb.last() == LF);
    if s.len() == 0 {
        assert(spec_rewrite(s, ending) =~= Seq::<u8>::empty());
    } else if s.len() >= 2 && s[0] == CR && s[1] == LF {
        lemma_rewrite_preserves_trailing_newline(s.skip(2), ending);
        let rest = spec_rewrite(s.skip(2), ending);
        if s.len() == 2 {
            assert(s.skip(2) =~= Seq::<u8>::empty());
            assert((eb + rest) =~= eb);
            assert(s.last() == LF);
        } else {
            assert(rest.len() > 0);
            assert((eb + rest).last() == rest.last());
            assert(s.skip(2).last() == s.last());
        }
    } else if s[0] == LF {
        lemma_rewrite_preserves_trailing_newline(s.skip(1), ending);
        let rest = spec_rewrite(s.skip(1), ending);
        if s.len() == 1 {
            assert(s.skip(1) =~= Seq::<u8>::empty());
            assert((eb + rest) =~= eb);
        } else {
            assert(rest.len() > 0);
            assert((eb + rest).last() == rest.last());
            assert(s.skip(1).last() == s.last());
        }
    } else {
        lemma_rewrite_preserves_trailing_newline(s.skip(1), ending);
        let rest = spec_rewrite(s.skip(1), ending);
        if s.len() == 1 {
            assert(s.skip(1) =~= Seq::<u8>::empty());
            assert((seq![s[0]] + rest) =~= seq![s[0]]);
            assert(s.last() == s[0] && s[0] != LF);
        } else {
            assert(rest.len() > 0);
            assert((seq![s[0]] + rest).last() == rest.last());
            assert(s.skip(1).last() == s.last());
        }
    }
}

/// Rewrite idempotence toward LF: a file whose scan shows only bare-LF
/// endings is not selected for rebuild under the Linux target, and the LF
/// rewrite would not change a byte of it anyway.
pub proof fn lemma_lf_target_idempotent(s: Seq<u8>, result: FileAnalysis, config: ConfigSettings)
    requires
        config.set_linux,
        !config.set_windows,
        result.lf_count == spec_lf_count(s),
        result.crlf_count == spec_crlf_count(s),
        result.lf_count > 0,
        result.crlf_count == 0,
    ensures
        !spec_rewrite_needed(result, config),
        spec_rewrite(s, LineEnding::Lf) == s,
{
    lemma_rewrite_lf_identity(s);
}

/// Rewrite idempotence toward CRLF: a file whose scan shows only CRLF
/// endings is not selected for rebuild under the Windows target, and the
/// CRLF rewrite would not change a byte of it anyway.
pub proof fn lemma_crlf_target_idempotent(s: Seq<u8>, result: FileAnalysis, config: ConfigSettings)
    requires
        config.set_windows,
        !config.set_linux,
        result.lf_count == spec_lf_count(s),
        result.crlf_count == spec_crlf_count(s),
        result.lf_count == 0,
        result.crlf_count > 0,
    ensures
        !spec_rewrite_needed(result, config),
        spec_rewrite(s, LineEnding::Crlf) == s,
{
    lemma_rewrite_crlf_identity(s);
}

} // verus!
