//! The data types shared by analysis and rewriting: BOM kinds, line-ending
//! kinds, the scan configuration, and the per-file result records.

use vstd::prelude::*;

verus! {

/// The kind of byte-order mark found at the start of a file, or `Absent`
/// when the first bytes match no known signature.
#[derive(Debug, Copy, Clone, PartialEq, Eq, Structural)]
pub enum BomType {
    Absent,
    Utf8,
    Utf16Le,
    Utf16Be,
    Utf32Le,
    Utf32Be,
}

/// The number of bytes the given BOM kind occupies at the start of a file.
pub open spec fn spec_bom_length(kind: BomType) -> nat {
    match kind {
        BomType::Absent => 0,
        BomType::Utf8 => 3,
        BomType::Utf16Le => 2,
        BomType::Utf16Be => 2,
        BomType::Utf32Le => 4,
        BomType::Utf32Be => 4,
    }
}

impl BomType {
    /// The length in bytes of this BOM's signature.
    pub fn bom_length(self) -> (n: usize)
        ensures
            n == spec_bom_length(self),
    {
        match self {
            BomType::Absent => 0,
            BomType::Utf8 => 3,
            BomType::Utf16Le => 2,
            BomType::Utf16Be => 2,
            BomType::Utf32Le => 4,
            BomType::Utf32Be => 4,
        }
    }

    /// A human-readable name for this BOM kind.
    pub fn to_string(self) -> (r: String)
        ensures
            r@ == spec_bom_label(self),
    {
        match self {
            BomType::Absent => "none".to_owned(),
            BomType::Utf8 => "UTF-8".to_owned(),
            BomType::Utf16Le => "UTF-16 LE".to_owned(),
            BomType::Utf16Be => "UTF-16 BE".to_owned(),
            BomType::Utf32Le => "UTF-32 LE".to_owned(),
            BomType::Utf32Be => "UTF-32 BE".to_owned(),
        }
    }
}

/// The name `BomType::to_string` returns for each kind.
pub open spec fn spec_bom_label(kind: BomType) -> Seq<char> {
    match kind {
        BomType::Absent => "none"@,
        BomType::Utf8 => "UTF-8"@,
        BomType::Utf16Le => "UTF-16 LE"@,
        BomType::Utf16Be => "UTF-16 BE"@,
        BomType::Utf32Le => "UTF-32 LE"@,
        BomType::Utf32Be => "UTF-32 BE"@,
    }
}

/// A line-ending style a file can be rewritten to.
#[derive(Debug, Copy, Clone, PartialEq, Eq, Structural)]
pub enum LineEnding {
    /// Unix style: a single `\n`.
    Lf,
    /// Windows style: the pair `\r\n`.
    Crlf,
}

/// The byte sequence written for one line break of the given style.
pub open spec fn spec_ending_bytes(ending: LineEnding) -> Seq<u8> {
    match ending {
        LineEnding::Lf => seq![10u8],
        LineEnding::Crlf => seq![13u8, 10u8],
    }
}

/// The scan configuration: which checks and rewrites were requested,
/// and which paths to visit.
pub struct ConfigSettings {
    pub case_sensitive: bool,
    pub set_linux: bool,
    pub set_windows: bool,
    pub check_bom: bool,
    pub remove_bom: bool,
    pub recursive: bool,
    pub delete_backups: bool,
    pub supplied_paths: Vec<String>,
    pub folder: Option<String>,
}

impl ConfigSettings {
    /// Returns true if any line-ending rewrite option is set.
    pub fn has_rewrite_option(&self) -> (r: bool)
        ensures
            r == (self.set_linux || self.set_windows),
    {
        self.set_linux || self.set_windows
    }
}

/// The analysis record produced for one file: the line-ending counts, the
/// detected BOM (absent when BOM checking was not requested), and an error
/// message when the file could not be analyzed.
#[derive(Debug, Clone)]
pub struct FileAnalysis {
    pub path: String,
    pub lf_count: usize,
    pub crlf_count: usize,
    pub bom_type: Option<BomType>,
    pub error: Option<String>,
}

impl FileAnalysis {
    /// Returns true if the file has both bare-LF and CRLF line endings.
    pub fn has_mixed_line_endings(&self) -> (r: bool)
        ensures
            r == (self.lf_count > 0 && self.crlf_count > 0),
    {
        self.lf_count > 0 && self.crlf_count > 0
    }

    /// Returns true if the file has only bare-LF line endings.
    pub fn is_lf_only(&self) -> (r: bool)
        ensures
            r == (self.lf_count > 0 && self.crlf_count == 0),
    {
        self.lf_count > 0 && self.crlf_count == 0
    }

    /// Returns true if the file has only CRLF line endings.
    pub fn is_crlf_only(&self) -> (r: bool)
        ensures
            r == (self.lf_count == 0 && self.crlf_count > 0),
    {
        self.lf_count == 0 && self.crlf_count > 0
    }

    /// Returns true if BOM checking ran and found a BOM.
    pub fn has_bom(&self) -> (r: bool)
        ensures
            r == self.spec_has_bom(),
    {
        match self.bom_type {
            Some(kind) => kind != BomType::Absent,
            None => false,
        }
    }

    /// Whether the record carries a detected BOM: the field is present and
    /// holds a kind other than `BomType::Absent`.
    pub open spec fn spec_has_bom(self) -> bool {
        self.bom_type is Some && self.bom_type->0 != BomType::Absent
    }
}

/// The outcome of rewriting one file's line endings.
#[derive(Debug, Clone)]
pub struct RewriteResult {
    pub path: String,
    pub rewritten: bool,
    pub error: Option<String>,
}

/// The outcome of stripping one file's BOM.
#[derive(Debug, Clone)]
pub struct BomRemovalResult {
    pub path: String,
    pub removed: bool,
    pub bom_type: Option<BomType>,
    pub error: Option<String>,
}

} // verus!
