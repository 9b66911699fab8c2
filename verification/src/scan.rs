//! The byte scanner: counts bare-LF and CRLF line endings in a byte stream.
//!
//! A `\n` immediately preceded by `\r` counts as one CRLF; any other `\n`
//! counts as one bare LF; a `\r` with no following `\n` counts as nothing.
//! The scanner runs in one pass over the bytes and can be fed in chunks of
//! any size without changing the result.

use vstd::prelude::*;

verus! {

/// The line-feed byte `\n`.
pub const LF: u8 = 10;

/// The carriage-return byte `\r`.
pub const CR: u8 = 13;

/// The number of bare-LF line endings in `s`: occurrences of `\n` not
/// immediately preceded by `\r`.
pub open spec fn spec_lf_count(s: Seq<u8>) -> nat
    decreases s.len(),
{
    if s.len() == 0 {
        0
    } else if s.len() >= 2 && s[0] == CR && s[1] == LF {
        spec_lf_count(s.skip(2))
    } else if s[0] == LF {
        1 + spec_lf_count(s.skip(1))
    } else {
        spec_lf_count(s.skip(1))
    }
}

/// The number of CRLF line endings in `s`: occurrences of `\r`
/// immediately followed by `\n`.
pub open spec fn spec_crlf_count(s: Seq<u8>) -> nat
    decreases s.len(),
{
    if s.len() == 0 {
        0
    } else if s.len() >= 2 && s[0] == CR && s[1] == LF {
        1 + spec_crlf_count(s.skip(2))
    } else {
        spec_crlf_count(s.skip(1))
    }
}

/// The number of `\n` bytes in `s`, regardless of what precedes them.
pub open spec fn spec_newline_bytes(s: Seq<u8>) -> nat
    decreases s.len(),
{
    if s.len() == 0 {
        0
    } else {
        (if s[0] == LF {
            1nat
        } else {
            0nat
        }) + spec_newline_bytes(s.skip(1))
    }
}

/// Every `\n` byte is counted exactly once, either as a bare LF or as part
/// of a CRLF: the two counts always sum to the number of `\n` bytes.
pub proof fn lemma_counts_partition_newlines(s: Seq<u8>)
    ensures
        spec_lf_count(s) + spec_crlf_count(s) == spec_newline_bytes(s),
    decreases s.len(),
{
    if s.len() == 0 {
    } else if s.len() >= 2 && s[0] == CR && s[1] == LF {
        lemma_counts_partition_newlines(s.skip(2));
        assert(s.skip(1)[0] == LF);
        assert(s.skip(1).skip(1) =~= s.skip(2));
        assert(spec_newline_bytes(s) == spec_newline_bytes(s.skip(1)));
        assert(spec_newline_bytes(s.skip(1)) == 1 + spec_newline_bytes(s.skip(2)));
    } else {
        lemma_counts_partition_newlines(s.skip(1));
    }
}

/// The two counts together never exceed the number of bytes scanned.
pub proof fn lemma_counts_bounded(s: Seq<u8>)
    ensures
        spec_lf_count(s) + spec_crlf_count(s) <= s.len(),
    decreases s.len(),
{
    if s.len() == 0 {
    } else if s.len() >= 2 && s[0] == CR && s[1] == LF {
        lemma_counts_bounded(s.skip(2));
    } else {
        lemma_counts_bounded(s.skip(1));
    }
}

/// A trailing `\r` counts as nothing: dropping it changes neither count.
pub proof fn lemma_trailing_cr(s: Seq<u8>)
    requires
        s.len() > 0,
        s.last() == CR,
    ensures
        spec_lf_count(s) == spec_lf_count(s.drop_last()),
        spec_crlf_count(s) == spec_crlf_count(s.drop_last()),
    decreases s.len(),
{
    if s.len() == 1 {
        assert(s.skip(1) =~= Seq::<u8>::empty());
        assert(s.drop_last() =~= Seq::<u8>::empty());
    } else if s[0] == CR && s[1] == LF {
        // s.len() >= 3 here: with s.len() == 2 the last byte would be `\n`.
        lemma_trailing_cr(s.skip(2));
        assert(s.skip(2).last() == s.last());
        assert(s.skip(2).drop_last() =~= s.drop_last().skip(2));
        assert(s.drop_last()[0] == CR && s.drop_last()[1] == LF);
    } else {
        lemma_trailing_cr(s.skip(1));
        assert(s.skip(1).last() == s.last());
        assert(s.skip(1).drop_last() =~= s.drop_last().skip(1));
        assert(s.drop_last()[0] == s[0]);
        assert(s.drop_last().len() >= 2 ==> s.drop_last()[1] == s[1]);
    }
}

/// Splitting a byte stream at any point and scanning the two parts in order
/// gives the same counts as scanning the whole: when the first part does not
/// end in `\r`, the counts simply add; when it does, the trailing `\r` is
/// carried over to the front of the second part.
pub proof fn lemma_counts_split(a: Seq<u8>, b: Seq<u8>)
    ensures
        a.len() == 0 || a.last() != CR ==> {
            &&& spec_lf_count(a + b) == spec_lf_count(a) + spec_lf_count(b)
            &&& spec_crlf_count(a + b) == spec_crlf_count(a) + spec_crlf_count(b)
        },
        a.len() > 0 && a.last() == CR ==> {
            &&& spec_lf_count(a + b) == spec_lf_count(a.drop_last()) + spec_lf_count(
                seq![CR] + b,
            )
            &&& spec_crlf_count(a + b) == spec_crlf_count(a.drop_last()) + spec_crlf_count(
                seq![CR] + b,
            )
        },
    decreases a.len(),
{
    if a.len() == 0 {
        assert(a + b =~= b);
    } else if a.len() == 1 {
        if a[0] == CR {
            assert(a + b =~= seq![CR] + b);
            assert(a.drop_last() =~= Seq::<u8>::empty());
            assert(spec_lf_count(a.drop_last()) == 0);
            assert(spec_crlf_count(a.drop_last()) == 0);
        } else {
            // The front of `a + b` is a lone non-CR byte, so the CRLF pair
            // branch cannot apply there.
            let c = a + b;
            assert(c[0] == a[0] && a[0] != CR);
            assert(c.skip(1) =~= b);
            assert(a.skip(1) =~= Seq::<u8>::empty());
            assert(spec_lf_count(a.skip(1)) == 0);
            assert(spec_crlf_count(a.skip(1)) == 0);
            if a[0] == LF {
                assert(spec_lf_count(c) == 1 + spec_lf_count(b));
                assert(spec_lf_count(a) == 1);
            } else {
                assert(spec_lf_count(c) == spec_lf_count(b));
                assert(spec_lf_count(a) == 0);
            }
            assert(spec_crlf_count(c) == spec_crlf_count(b));
            assert(spec_crlf_count(a) == 0);
        }
    } else {
        let c = a + b;
        assert(c[0] == a[0] && c[1] == a[1]);
        if a[0] == CR && a[1] == LF {
            lemma_counts_split(a.skip(2), b);
            assert(c.skip(2) =~= a.skip(2) + b);
            assert(spec_lf_count(c) == spec_lf_count(a.skip(2) + b));
            assert(spec_crlf_count(c) == 1 + spec_crlf_count(a.skip(2) + b));
            assert(spec_lf_count(a) == spec_lf_count(a.skip(2)));
            assert(spec_crlf_count(a) == 1 + spec_crlf_count(a.skip(2)));
            if a.len() == 2 {
                assert(a.skip(2) =~= Seq::<u8>::empty());
                assert(spec_lf_count(a.skip(2)) == 0);
                assert(spec_crlf_count(a.skip(2)) == 0);
                assert(a.last() == LF);
            } else {
                assert(a.skip(2).last() == a.last());
                if a.last() == CR {
                    let d = a.drop_last();
                    assert(a.skip(2).drop_last() =~= d.skip(2));
                    assert(d.len() >= 2);
                    assert(d[0] == CR && d[1] == LF);
                    assert(spec_lf_count(d) == spec_lf_count(d.skip(2)));
                    assert(spec_crlf_count(d) == 1 + spec_crlf_count(d.skip(2)));
                }
            }
        } else {
            lemma_counts_split(a.skip(1), b);
            assert(c.skip(1) =~= a.skip(1) + b);
            if a[0] == LF {
                assert(spec_lf_count(c) == 1 + spec_lf_count(a.skip(1) + b));
                assert(spec_lf_count(a) == 1 + spec_lf_count(a.skip(1)));
            } else {
                assert(spec_lf_count(c) == spec_lf_count(a.skip(1) + b));
                assert(spec_lf_count(a) == spec_lf_count(a.skip(1)));
            }
            assert(spec_crlf_count(c) == spec_crlf_count(a.skip(1) + b));
            assert(spec_crlf_count(a) == spec_crlf_count(a.skip(1)));
            assert(a.skip(1).last() == a.last());
            if a.last() == CR {
                let d = a.drop_last();
                assert(a.skip(1).drop_last() =~= d.skip(1));
                assert(d[0] == a[0]);
                assert(d.len() >= 2 ==> d[1] == a[1]);
                if a[0] == LF {
                    assert(spec_lf_count(d) == 1 + spec_lf_count(d.skip(1)));
                } else {
                    assert(spec_lf_count(d) == spec_lf_count(d.skip(1)));
                }
                assert(spec_crlf_count(d) == spec_crlf_count(d.skip(1)));
            }
        }
    }
}

/// A scanner that can be fed a file's bytes in chunks of any size.
/// The ghost field `fed` records every byte fed so far; the counts are
/// always the counts of that whole stream.
pub struct ScanState {
    pub lf_count: usize,
    pub crlf_count: usize,
    pub prev_was_cr: bool,
    pub fed: Ghost<Seq<u8>>,
}

impl ScanState {
    /// The state faithfully summarizes the bytes fed so far.
    pub open spec fn wf(self) -> bool {
        &&& self.lf_count == spec_lf_count(self.fed@)
        &&& self.crlf_count == spec_crlf_count(self.fed@)
        &&& self.prev_was_cr == (self.fed@.len() > 0 && self.fed@.last() == CR)
    }

    /// A fresh scanner that has seen no bytes.
    pub fn new() -> (st: ScanState)
        ensures
            st.wf(),
            st.fed@ == Seq::<u8>::empty(),
    {
        ScanState { lf_count: 0, crlf_count: 0, prev_was_cr: false, fed: Ghost(Seq::empty()) }
    }

    /// Scan one chunk. The counts afterwards are those of all bytes fed so
    /// far, wherever the chunk boundaries fell.
    pub fn feed(&mut self, chunk: &[u8])
        requires
            old(self).wf(),
            old(self).fed@.len() + chunk@.len() <= usize::MAX,
        ensures
            final(self).wf(),
            final(self).fed@ == old(self).fed@ + chunk@,
    {
        let ghost s: Seq<u8> = self.fed@ + chunk@;
        let ghost base: int = self.fed@.len() as int;
        proof {
            lemma_counts_bounded(self.fed@);
            lemma_counts_split(self.fed@, chunk@);
            if self.prev_was_cr {
                lemma_trailing_cr(self.fed@);
                assert(s.skip(base - 1) =~= seq![CR] + chunk@);
            } else {
                assert(s.skip(base) =~= chunk@);
            }
        }
        let mut i: usize = 0;
        let mut lf = self.lf_count;
        let mut crlf = self.crlf_count;
        let mut prev = self.prev_was_cr;
        while i < chunk.len()
            invariant
                0 <= base,
                i <= chunk@.len(),
                base + chunk@.len() == s.len(),
                s.len() <= usize::MAX,
                chunk@ == s.skip(base),
                lf + crlf <= base + i,
                prev == (base + i > 0 && s[base + i - 1] == CR),
                prev ==> {
                    &&& spec_lf_count(s) == lf + spec_lf_count(s.skip(base + i - 1))
                    &&& spec_crlf_count(s) == crlf + spec_crlf_count(s.skip(base + i - 1))
                },
                !prev ==> {
                    &&& spec_lf_count(s) == lf + spec_lf_count(s.skip(base + i))
                    &&& spec_crlf_count(s) == crlf + spec_crlf_count(s.skip(base + i))
                },
            decreases chunk@.len() - i,
        {
            let b = chunk[i];
            proof {
                assert(s[base + i] == s.skip(base)[i as int]);
            }
            if b == CR {
                proof {
                    if prev {
                        // The pending CR is followed by another CR: it counts
                        // as nothing, and the new CR becomes the pending one.
                        let t = s.skip(base + i - 1);
                        assert(t[0] == CR && t.len() >= 2 && t[1] == CR);
                        assert(t.skip(1) =~= s.skip(base + i));
                        assert(spec_lf_count(t) == spec_lf_count(s.skip(base + i)));
                        assert(spec_crlf_count(t) == spec_crlf_count(s.skip(base + i)));
                    }
                }
                prev = true;
            } else if b == LF {
                if prev {
                    proof {
                        let t = s.skip(base + i - 1);
                        assert(t[0] == CR && t.len() >= 2 && t[1] == LF);
                        assert(t.skip(2) =~= s.skip(base + i + 1));
                        assert(spec_lf_count(t) == spec_lf_count(s.skip(base + i + 1)));
                        assert(spec_crlf_count(t) == 1 + spec_crlf_count(s.skip(base + i + 1)));
                    }
                    crlf = crlf + 1;
                } else {
                    proof {
                        let t = s.skip(base + i);
                        assert(t[0] == LF);
                        assert(t.skip(1) =~= s.skip(base + i + 1));
                        assert(spec_lf_count(t) == 1 + spec_lf_count(s.skip(base + i + 1)));
                        assert(spec_crlf_count(t) == spec_crlf_count(s.skip(base + i + 1)));
                    }
                    lf = lf + 1;
                }
                prev = false;
            } else {
                proof {
                    if prev {
                        let t = s.skip(base + i - 1);
                        assert(t[0] == CR && t.len() >= 2 && t[1] == b && b != LF);
                        assert(t.skip(1) =~= s.skip(base + i));
                        assert(spec_lf_count(t) == spec_lf_count(s.skip(base + i)));
                        assert(spec_crlf_count(t) == spec_crlf_count(s.skip(base + i)));
                    }
                    let u = s.skip(base + i);
                    assert(u[0] == b && b != LF && b != CR);
                    assert(u.skip(1) =~= s.skip(base + i + 1));
                    assert(spec_lf_count(u) == spec_lf_count(s.skip(base + i + 1)));
                    assert(spec_crlf_count(u) == spec_crlf_count(s.skip(base + i + 1)));
                }
                prev = false;
            }
            i = i + 1;
        }
        proof {
            if prev {
                let t = s.skip(s.len() - 1);
                assert(t =~= seq![s.last()]);
                assert(t[0] == CR);
                assert(t.skip(1) =~= Seq::<u8>::empty());
                assert(spec_lf_count(t.skip(1)) == 0);
                assert(spec_crlf_count(t.skip(1)) == 0);
                assert(spec_lf_count(t) == 0);
                assert(spec_crlf_count(t) == 0);
            } else {
                let e = s.skip(s.len() as int);
                assert(e =~= Seq::<u8>::empty());
                assert(spec_lf_count(e) == 0);
                assert(spec_crlf_count(e) == 0);
            }
        }
        self.lf_count = lf;
        self.crlf_count = crlf;
        self.prev_was_cr = prev;
        self.fed = Ghost(s);
    }

    /// The counts of every byte fed so far, as (bare-LF count, CRLF count).
    pub fn counts(&self) -> (r: (usize, usize))
        requires
            self.wf(),
        ensures
            r.0 == spec_lf_count(self.fed@),
            r.1 == spec_crlf_count(self.fed@),
    {
        (self.lf_count, self.crlf_count)
    }
}

/// Counts bare-LF and CRLF line endings in `data`, as (lf_count, crlf_count).
pub fn count_line_endings(data: &[u8]) -> (r: (usize, usize))
    ensures
        r.0 == spec_lf_count(data@),
        r.1 == spec_crlf_count(data@),
{
    let mut st = ScanState::new();
    let n = data.len();
    proof {
        assert(n == data@.len());
        assert(st.fed@ + data@ =~= data@);
    }
    st.feed(data);
    st.counts()
}

} // verus!
