//! A linter: which rules of the format a frame breaks, and where.
//!
//! The linter walks a frame's header, strips and chunks without decoding
//! them, and reports every rule that it finds broken rather than stopping
//! at the first.

use vstd::prelude::*;
use crate::bits::{self, part, read16, read24};
use crate::codebook::{
    self, apply_codebook_chunk, Codebook, CodebookChunkKind, PixelMode, UpdateStyle, WhichCodebook,
    CHUNK_HEADER_SIZE,
};
use crate::decoder;
use crate::error;
use crate::header::{
    self, RawStripHeader, StripHeader, FRAME_HEADER_SIZE, STRIP_HEADER_SIZE, STRIP_ID_INTER,
    STRIP_ID_INTRA,
};
use crate::text::{self, cat, cat_dec, cat_hex, cat_hex2, cat_hex4, lit};
use crate::vector::{VECTOR_CHUNK_INTER, VECTOR_CHUNK_INTRA, VECTOR_CHUNK_V1_ONLY};

verus! {

/// How severe a finding is.
#[derive(Clone, Copy, Debug, PartialEq, Eq, PartialOrd, Ord, Structural)]
pub enum LintSeverity {
    /// The frame departs from a convention; decoders do not mind.
    Warning,
    /// The frame breaks a rule of the format.
    Error,
}

/// The rules that are checked.
#[derive(Clone, Copy, Debug, PartialEq, Eq, Structural)]
#[non_exhaustive]
pub enum LintRule {
    /// The buffer is shorter than a frame header.
    FrameHeaderTruncated,
    /// The frame length is smaller than the frame header.
    FrameLengthUnderHeader,
    /// The frame length exceeds the buffer.
    FrameLengthOverrun,
    /// The frame length is not that of the header and the strips.
    FrameLengthAccounting,
    /// The frame has no strips.
    StripCountZero,
    /// The frame has no pixels.
    FrameDimensionsZero,
    /// The width is not made of whole macroblocks.
    FrameWidthNotMultipleOf4,
    /// The height is not made of whole macroblocks.
    FrameHeightNotMultipleOf4,
    /// One of the upper seven flag bits is set.
    FlagsReservedBitsSet,
    /// The flags announce inherited codebooks, but every strip stands on its own.
    FlagsInheritanceOnIntraFrame,
    /// The frame ends inside a strip header.
    StripHeaderTruncated,
    /// A strip is shorter than its header.
    StripSizeUnderHeader,
    /// A strip is longer than what is left of the frame.
    StripOverrunsFrame,
    /// A strip has an id that is not defined.
    UnknownStripId,
    /// The frame has both kinds of strips.
    MixedStripKinds,
    /// A strip has no pixels.
    StripEmptyRect,
    /// A strip's height is not made of whole macroblocks.
    StripHeightNotMultipleOf4,
    /// A strip's width is not made of whole macroblocks.
    StripWidthNotMultipleOf4,
    /// A strip leaves the frame.
    StripOutsideFrame,
    /// A strip is narrower than the frame.
    StripNotFullWidth,
    /// The strips do not follow each other from the top to the bottom.
    StripCoverageIrregular,
    /// A strip ends inside a chunk header.
    ChunkHeaderTruncated,
    /// A chunk is shorter than its header.
    ChunkSizeUnderHeader,
    /// A chunk is longer than what is left of its strip.
    ChunkOverrunsStrip,
    /// A chunk has an id that is not defined.
    UnknownChunkId,
    /// A selective update in a strip that stands on its own.
    SelectiveUpdateOnIntraStrip,
    /// A codebook chunk without entries in a strip that stands on its own.
    HeaderOnlyCodebookOnIntraStrip,
    /// A full update that ends inside an entry.
    CodebookPayloadMisaligned,
    /// A full update with more than 256 entries.
    CodebookTooManyEntries,
    /// A selective update that ends early or goes beyond 256 slots.
    SelectiveUpdatePayloadMalformed,
    /// The frame has colour and grayscale codebooks.
    MixedPixelModes,
    /// A V4 codebook chunk after a V1 codebook chunk.
    CodebookOrderNotV4ThenV1,
    /// Two chunks for the same codebook in one strip.
    DuplicateCodebookChunk,
    /// A chunk after the strip's vector chunk.
    ChunkAfterVectorChunk,
}

/// The severity at which a rule is reported.
pub open spec fn rule_severity(rule: LintRule) -> LintSeverity {
    match rule {
        LintRule::FlagsReservedBitsSet => LintSeverity::Warning,
        LintRule::FlagsInheritanceOnIntraFrame => LintSeverity::Warning,
        LintRule::MixedStripKinds => LintSeverity::Warning,
        LintRule::StripNotFullWidth => LintSeverity::Warning,
        LintRule::StripCoverageIrregular => LintSeverity::Warning,
        LintRule::HeaderOnlyCodebookOnIntraStrip => LintSeverity::Warning,
        LintRule::CodebookOrderNotV4ThenV1 => LintSeverity::Warning,
        LintRule::DuplicateCodebookChunk => LintSeverity::Warning,
        _ => LintSeverity::Error,
    }
}

/// The name of a rule.
pub open spec fn rule_name(rule: LintRule) -> Seq<char> {
    match rule {
        LintRule::FrameHeaderTruncated => "FrameHeaderTruncated"@,
        LintRule::FrameLengthUnderHeader => "FrameLengthUnderHeader"@,
        LintRule::FrameLengthOverrun => "FrameLengthOverrun"@,
        LintRule::FrameLengthAccounting => "FrameLengthAccounting"@,
        LintRule::StripCountZero => "StripCountZero"@,
        LintRule::FrameDimensionsZero => "FrameDimensionsZero"@,
        LintRule::FrameWidthNotMultipleOf4 => "FrameWidthNotMultipleOf4"@,
        LintRule::FrameHeightNotMultipleOf4 => "FrameHeightNotMultipleOf4"@,
        LintRule::FlagsReservedBitsSet => "FlagsReservedBitsSet"@,
        LintRule::FlagsInheritanceOnIntraFrame => "FlagsInheritanceOnIntraFrame"@,
        LintRule::StripHeaderTruncated => "StripHeaderTruncated"@,
        LintRule::StripSizeUnderHeader => "StripSizeUnderHeader"@,
        LintRule::StripOverrunsFrame => "StripOverrunsFrame"@,
        LintRule::UnknownStripId => "UnknownStripId"@,
        LintRule::MixedStripKinds => "MixedStripKinds"@,
        LintRule::StripEmptyRect => "StripEmptyRect"@,
        LintRule::StripHeightNotMultipleOf4 => "StripHeightNotMultipleOf4"@,
        LintRule::StripWidthNotMultipleOf4 => "StripWidthNotMultipleOf4"@,
        LintRule::StripOutsideFrame => "StripOutsideFrame"@,
        LintRule::StripNotFullWidth => "StripNotFullWidth"@,
        LintRule::StripCoverageIrregular => "StripCoverageIrregular"@,
        LintRule::ChunkHeaderTruncated => "ChunkHeaderTruncated"@,
        LintRule::ChunkSizeUnderHeader => "ChunkSizeUnderHeader"@,
        LintRule::ChunkOverrunsStrip => "ChunkOverrunsStrip"@,
        LintRule::UnknownChunkId => "UnknownChunkId"@,
        LintRule::SelectiveUpdateOnIntraStrip => "SelectiveUpdateOnIntraStrip"@,
        LintRule::HeaderOnlyCodebookOnIntraStrip => "HeaderOnlyCodebookOnIntraStrip"@,
        LintRule::CodebookPayloadMisaligned => "CodebookPayloadMisaligned"@,
        LintRule::CodebookTooManyEntries => "CodebookTooManyEntries"@,
        LintRule::SelectiveUpdatePayloadMalformed => "SelectiveUpdatePayloadMalformed"@,
        LintRule::MixedPixelModes => "MixedPixelModes"@,
        LintRule::CodebookOrderNotV4ThenV1 => "CodebookOrderNotV4ThenV1"@,
        LintRule::DuplicateCodebookChunk => "DuplicateCodebookChunk"@,
        LintRule::ChunkAfterVectorChunk => "ChunkAfterVectorChunk"@,
    }
}

/// The section of the format description that a rule comes from.
pub open spec fn rule_section(rule: LintRule) -> Seq<char> {
    match rule {
        LintRule::FrameHeaderTruncated => "01-frame-and-strip.md §1"@,
        LintRule::FrameLengthUnderHeader => "01-frame-and-strip.md §1"@,
        LintRule::FrameLengthOverrun => "01-frame-and-strip.md §1"@,
        LintRule::FrameLengthAccounting => "01-frame-and-strip.md §1.2"@,
        LintRule::StripCountZero => "01-frame-and-strip.md §1"@,
        LintRule::FrameDimensionsZero => "01-frame-and-strip.md §1"@,
        LintRule::FrameWidthNotMultipleOf4 => "03-vectors-and-macroblocks.md §1"@,
        LintRule::FrameHeightNotMultipleOf4 => "03-vectors-and-macroblocks.md §1"@,
        LintRule::FlagsReservedBitsSet => "01-frame-and-strip.md §1.1"@,
        LintRule::FlagsInheritanceOnIntraFrame => "01-frame-and-strip.md §1.1"@,
        LintRule::StripHeaderTruncated => "01-frame-and-strip.md §2"@,
        LintRule::StripSizeUnderHeader => "01-frame-and-strip.md §2"@,
        LintRule::StripOverrunsFrame => "01-frame-and-strip.md §2"@,
        LintRule::UnknownStripId => "01-frame-and-strip.md §2.1"@,
        LintRule::MixedStripKinds => "01-frame-and-strip.md §2.1"@,
        LintRule::StripEmptyRect => "01-frame-and-strip.md §2.2"@,
        LintRule::StripHeightNotMultipleOf4 => "03-vectors-and-macroblocks.md §1"@,
        LintRule::StripWidthNotMultipleOf4 => "03-vectors-and-macroblocks.md §1"@,
        LintRule::StripOutsideFrame => "01-frame-and-strip.md §2.2"@,
        LintRule::StripNotFullWidth => "01-frame-and-strip.md §2.2"@,
        LintRule::StripCoverageIrregular => "01-frame-and-strip.md §2.2"@,
        LintRule::ChunkHeaderTruncated => "02-codebooks.md §1"@,
        LintRule::ChunkSizeUnderHeader => "02-codebooks.md §1"@,
        LintRule::ChunkOverrunsStrip => "02-codebooks.md §1"@,
        LintRule::UnknownChunkId => "02-codebooks.md §2.1 + 03-vectors-and-macroblocks.md §2.1"@,
        LintRule::SelectiveUpdateOnIntraStrip => "02-codebooks.md §2.3"@,
        LintRule::HeaderOnlyCodebookOnIntraStrip => "02-codebooks.md §3.4"@,
        LintRule::CodebookPayloadMisaligned => "02-codebooks.md §3.1"@,
        LintRule::CodebookTooManyEntries => "02-codebooks.md §3.1"@,
        LintRule::SelectiveUpdatePayloadMalformed => "02-codebooks.md §4.2–§4.3"@,
        LintRule::MixedPixelModes => "04-yuv-rgb-matrix.md §4"@,
        LintRule::CodebookOrderNotV4ThenV1 => "02-codebooks.md §2.2"@,
        LintRule::DuplicateCodebookChunk => "02-codebooks.md §2.2"@,
        LintRule::ChunkAfterVectorChunk => "03-vectors-and-macroblocks.md §2"@,
    }
}

impl LintRule {
    /// The severity at which this rule is reported.
    pub fn severity(self) -> (r: LintSeverity)
        ensures
            r == rule_severity(self),
    {
        match self {
            LintRule::FlagsReservedBitsSet => LintSeverity::Warning,
            LintRule::FlagsInheritanceOnIntraFrame => LintSeverity::Warning,
            LintRule::MixedStripKinds => LintSeverity::Warning,
            LintRule::StripNotFullWidth => LintSeverity::Warning,
            LintRule::StripCoverageIrregular => LintSeverity::Warning,
            LintRule::HeaderOnlyCodebookOnIntraStrip => LintSeverity::Warning,
            LintRule::CodebookOrderNotV4ThenV1 => LintSeverity::Warning,
            LintRule::DuplicateCodebookChunk => LintSeverity::Warning,
            _ => LintSeverity::Error,
        }
    }

    /// The section of the format description that this rule comes from.
    pub fn spec_ref(self) -> (r: &'static str)
        ensures
            r@ == rule_section(self),
    {
        match self {
            LintRule::FrameHeaderTruncated => "01-frame-and-strip.md §1",
            LintRule::FrameLengthUnderHeader => "01-frame-and-strip.md §1",
            LintRule::FrameLengthOverrun => "01-frame-and-strip.md §1",
            LintRule::FrameLengthAccounting => "01-frame-and-strip.md §1.2",
            LintRule::StripCountZero => "01-frame-and-strip.md §1",
            LintRule::FrameDimensionsZero => "01-frame-and-strip.md §1",
            LintRule::FrameWidthNotMultipleOf4 => "03-vectors-and-macroblocks.md §1",
            LintRule::FrameHeightNotMultipleOf4 => "03-vectors-and-macroblocks.md §1",
            LintRule::FlagsReservedBitsSet => "01-frame-and-strip.md §1.1",
            LintRule::FlagsInheritanceOnIntraFrame => "01-frame-and-strip.md §1.1",
            LintRule::StripHeaderTruncated => "01-frame-and-strip.md §2",
            LintRule::StripSizeUnderHeader => "01-frame-and-strip.md §2",
            LintRule::StripOverrunsFrame => "01-frame-and-strip.md §2",
            LintRule::UnknownStripId => "01-frame-and-strip.md §2.1",
            LintRule::MixedStripKinds => "01-frame-and-strip.md §2.1",
            LintRule::StripEmptyRect => "01-frame-and-strip.md §2.2",
            LintRule::StripHeightNotMultipleOf4 => "03-vectors-and-macroblocks.md §1",
            LintRule::StripWidthNotMultipleOf4 => "03-vectors-and-macroblocks.md §1",
            LintRule::StripOutsideFrame => "01-frame-and-strip.md §2.2",
            LintRule::StripNotFullWidth => "01-frame-and-strip.md §2.2",
            LintRule::StripCoverageIrregular => "01-frame-and-strip.md §2.2",
            LintRule::ChunkHeaderTruncated => "02-codebooks.md §1",
            LintRule::ChunkSizeUnderHeader => "02-codebooks.md §1",
            LintRule::ChunkOverrunsStrip => "02-codebooks.md §1",
            LintRule::UnknownChunkId => "02-codebooks.md §2.1 + 03-vectors-and-macroblocks.md §2.1",
            LintRule::SelectiveUpdateOnIntraStrip => "02-codebooks.md §2.3",
            LintRule::HeaderOnlyCodebookOnIntraStrip => "02-codebooks.md §3.4",
            LintRule::CodebookPayloadMisaligned => "02-codebooks.md §3.1",
            LintRule::CodebookTooManyEntries => "02-codebooks.md §3.1",
            LintRule::SelectiveUpdatePayloadMalformed => "02-codebooks.md §4.2–§4.3",
            LintRule::MixedPixelModes => "04-yuv-rgb-matrix.md §4",
            LintRule::CodebookOrderNotV4ThenV1 => "02-codebooks.md §2.2",
            LintRule::DuplicateCodebookChunk => "02-codebooks.md §2.2",
            LintRule::ChunkAfterVectorChunk => "03-vectors-and-macroblocks.md §2",
        }
    }

    /// The name of this rule.
    fn name(self) -> (r: &'static str)
        ensures
            r@ == rule_name(self),
    {
        match self {
            LintRule::FrameHeaderTruncated => "FrameHeaderTruncated",
            LintRule::FrameLengthUnderHeader => "FrameLengthUnderHeader",
            LintRule::FrameLengthOverrun => "FrameLengthOverrun",
            LintRule::FrameLengthAccounting => "FrameLengthAccounting",
            LintRule::StripCountZero => "StripCountZero",
            LintRule::FrameDimensionsZero => "FrameDimensionsZero",
            LintRule::FrameWidthNotMultipleOf4 => "FrameWidthNotMultipleOf4",
            LintRule::FrameHeightNotMultipleOf4 => "FrameHeightNotMultipleOf4",
            LintRule::FlagsReservedBitsSet => "FlagsReservedBitsSet",
            LintRule::FlagsInheritanceOnIntraFrame => "FlagsInheritanceOnIntraFrame",
            LintRule::StripHeaderTruncated => "StripHeaderTruncated",
            LintRule::StripSizeUnderHeader => "StripSizeUnderHeader",
            LintRule::StripOverrunsFrame => "StripOverrunsFrame",
            LintRule::UnknownStripId => "UnknownStripId",
            LintRule::MixedStripKinds => "MixedStripKinds",
            LintRule::StripEmptyRect => "StripEmptyRect",
            LintRule::StripHeightNotMultipleOf4 => "StripHeightNotMultipleOf4",
            LintRule::StripWidthNotMultipleOf4 => "StripWidthNotMultipleOf4",
            LintRule::StripOutsideFrame => "StripOutsideFrame",
            LintRule::StripNotFullWidth => "StripNotFullWidth",
            LintRule::StripCoverageIrregular => "StripCoverageIrregular",
            LintRule::ChunkHeaderTruncated => "ChunkHeaderTruncated",
            LintRule::ChunkSizeUnderHeader => "ChunkSizeUnderHeader",
            LintRule::ChunkOverrunsStrip => "ChunkOverrunsStrip",
            LintRule::UnknownChunkId => "UnknownChunkId",
            LintRule::SelectiveUpdateOnIntraStrip => "SelectiveUpdateOnIntraStrip",
            LintRule::HeaderOnlyCodebookOnIntraStrip => "HeaderOnlyCodebookOnIntraStrip",
            LintRule::CodebookPayloadMisaligned => "CodebookPayloadMisaligned",
            LintRule::CodebookTooManyEntries => "CodebookTooManyEntries",
            LintRule::SelectiveUpdatePayloadMalformed => "SelectiveUpdatePayloadMalformed",
            LintRule::MixedPixelModes => "MixedPixelModes",
            LintRule::CodebookOrderNotV4ThenV1 => "CodebookOrderNotV4ThenV1",
            LintRule::DuplicateCodebookChunk => "DuplicateCodebookChunk",
            LintRule::ChunkAfterVectorChunk => "ChunkAfterVectorChunk",
        }
    }
}

/// One finding: the rule that is broken, and where.
#[derive(Clone, Debug, PartialEq, Eq)]
pub struct LintIssue {
    /// The rule.
    pub rule: LintRule,
    /// The rule's severity.
    pub severity: LintSeverity,
    /// Index of the strip, for findings in a strip.
    pub strip: Option<u16>,
    /// Index of the chunk in its strip, for findings in a chunk.
    pub chunk: Option<u16>,
    /// Offset in the frame's buffer.
    pub offset: usize,
    /// What was found.
    pub message: String,
}

/// A [`LintIssue`] as mathematical values.
pub struct IssueView {
    pub rule: LintRule,
    pub severity: LintSeverity,
    pub strip: Option<u16>,
    pub chunk: Option<u16>,
    pub offset: int,
    pub message: Seq<char>,
}

impl View for LintIssue {
    type V = IssueView;

    open spec fn view(&self) -> IssueView {
        IssueView {
            rule: self.rule,
            severity: self.severity,
            strip: self.strip,
            chunk: self.chunk,
            offset: self.offset as int,
            message: self.message@,
        }
    }
}

/// An offset in hexadecimal with at least four digits.
pub open spec fn offset_text(n: int) -> Seq<char> {
    if n < 65536 {
        text::hex4(n as u16)
    } else {
        text::hex(n as nat)
    }
}

/// The text that a finding displays as.
pub open spec fn issue_text(i: IssueView) -> Seq<char> {
    let head = match i.severity {
        LintSeverity::Error => "error["@,
        LintSeverity::Warning => "warning["@,
    } + rule_name(i.rule) + "]"@;
    let strip = match i.strip {
        Some(s) => head + " strip "@ + text::dec(s as nat),
        None => head,
    };
    let chunk = match i.chunk {
        Some(c) => strip + " chunk "@ + text::dec(c as nat),
        None => strip,
    };
    chunk + " @0x"@ + offset_text(i.offset) + ": "@ + i.message + " (spec "@ + rule_section(i.rule)
        + ")"@
}

impl LintIssue {
    /// The finding as text.
    pub fn to_string(&self) -> (r: String)
        ensures
            r@ == issue_text(self@),
    {
        let head = lit(
            match self.severity {
                LintSeverity::Error => "error[",
                LintSeverity::Warning => "warning[",
            },
        );
        let head = cat(cat(head, self.rule.name()), "]");
        let head = match self.strip {
            Some(s) => cat_dec(cat(head, " strip "), s as u64),
            None => head,
        };
        let head = match self.chunk {
            Some(c) => cat_dec(cat(head, " chunk "), c as u64),
            None => head,
        };
        let head = cat(head, " @0x");
        let head = if self.offset < 65536 {
            cat_hex4(head, self.offset as u16)
        } else {
            cat_hex(head, self.offset as u64)
        };
        let text = cat(cat(head, ": "), self.message.as_str());
        cat(cat(cat(text, " (spec "), self.rule.spec_ref()), ")")
    }
}

/// What the linter checks; there is nothing to choose yet.
#[derive(Clone, Copy, Debug, PartialEq, Eq, Structural)]
#[non_exhaustive]
pub struct LintOptions {}

impl Default for LintOptions {
    fn default() -> (r: Self)
        ensures
            r == (LintOptions {  }),
    {
        LintOptions {  }
    }
}

impl LintOptions {
    /// The default options.
    pub fn new() -> (r: Self)
        ensures
            r == (LintOptions {  }),
    {
        LintOptions {  }
    }
}

/// The findings in one frame.
#[derive(Clone, Debug, PartialEq, Eq)]
pub struct LintReport {
    issues: Vec<LintIssue>,
    strips_walked: u16,
}

/// A [`LintReport`] as mathematical values.
pub struct ReportView {
    pub issues: Seq<IssueView>,
    pub strips_walked: int,
}

/// Findings by their views.
pub open spec fn issue_views(issues: Seq<LintIssue>) -> Seq<IssueView> {
    issues.map_values(|i: LintIssue| i@)
}

impl View for LintReport {
    type V = ReportView;

    closed spec fn view(&self) -> ReportView {
        ReportView {
            issues: issue_views(self.issues@),
            strips_walked: self.strips_walked as int,
        }
    }
}

/// Number of findings of the given severity.
pub open spec fn severity_count(issues: Seq<IssueView>, s: LintSeverity) -> nat
    decreases issues.len(),
{
    if issues.len() == 0 {
        0
    } else {
        severity_count(issues.drop_last(), s) + if issues.last().severity == s {
            1nat
        } else {
            0
        }
    }
}

impl Default for LintReport {
    fn default() -> (r: Self)
        ensures
            r@ == (ReportView { issues: Seq::empty(), strips_walked: 0 }),
    {
        let r = LintReport { issues: Vec::new(), strips_walked: 0 };
        assert(r@.issues =~= Seq::empty());
        r
    }
}

impl LintReport {
    /// The findings in the order in which they were met: the frame first,
    /// then strip by strip.
    pub fn issues(&self) -> (r: &[LintIssue])
        ensures
            issue_views(r@) == self@.issues,
    {
        self.issues.as_slice()
    }

    fn count(&self, s: LintSeverity) -> (r: usize)
        ensures
            r == severity_count(self@.issues, s),
    {
        let mut n: usize = 0;
        let mut i: usize = 0;
        while i < self.issues.len()
            invariant
                i <= self.issues@.len(),
                n <= i,
                n == severity_count(issue_views(self.issues@.subrange(0, i as int)), s),
            decreases self.issues@.len() - i,
        {
            let ghost upto = issue_views(self.issues@.subrange(0, i + 1));
            assert(upto.drop_last() =~= issue_views(self.issues@.subrange(0, i as int)));
            if self.issues[i].severity == s {
                n = n + 1;
            }
            i = i + 1;
        }
        assert(self.issues@.subrange(0, i as int) =~= self.issues@);
        n
    }

    /// Number of findings that break a rule of the format.
    pub fn error_count(&self) -> (r: usize)
        ensures
            r == severity_count(self@.issues, LintSeverity::Error),
    {
        self.count(LintSeverity::Error)
    }

    /// Number of findings that depart from a convention.
    pub fn warning_count(&self) -> (r: usize)
        ensures
            r == severity_count(self@.issues, LintSeverity::Warning),
    {
        self.count(LintSeverity::Warning)
    }

    /// Whether no rule of the format is broken.
    pub fn is_conformant(&self) -> (r: bool)
        ensures
            r == (severity_count(self@.issues, LintSeverity::Error) == 0),
    {
        self.error_count() == 0
    }

    /// Whether there is no finding at all.
    pub fn is_clean(&self) -> (r: bool)
        ensures
            r == (self@.issues.len() == 0),
    {
        self.issues.is_empty()
    }

    /// Number of strips whose headers were walked over.
    pub fn strips_walked(&self) -> (r: u16)
        ensures
            r == self@.strips_walked,
    {
        self.strips_walked
    }

    fn push(&mut self, rule: LintRule, strip: Option<u16>, offset: usize, message: String)
        ensures
            final(self)@ == (ReportView {
                issues: old(self)@.issues.push(issue(rule, strip, offset as int, message@)),
                ..old(self)@
            }),
    {
        self.issues.push(
            LintIssue { rule, severity: rule.severity(), strip, chunk: None, offset, message },
        );
        assert(self@.issues =~= old(self)@.issues.push(
            issue(rule, strip, offset as int, message@),
        ));
    }

    fn push_chunk(&mut self, rule: LintRule, strip: u16, chunk: u16, offset: usize, message: String)
        ensures
            final(self)@ == (ReportView {
                issues: old(self)@.issues.push(
                    chunk_issue(rule, strip, chunk, offset as int, message@),
                ),
                ..old(self)@
            }),
    {
        self.issues.push(
            LintIssue {
                rule,
                severity: rule.severity(),
                strip: Some(strip),
                chunk: Some(chunk),
                offset,
                message,
            },
        );
        assert(self@.issues =~= old(self)@.issues.push(
            chunk_issue(rule, strip, chunk, offset as int, message@),
        ));
    }
}

/// A finding in the frame or in a strip.
pub open spec fn issue(
    rule: LintRule,
    strip: Option<u16>,
    offset: int,
    message: Seq<char>,
) -> IssueView {
    IssueView { rule, severity: rule_severity(rule), strip, chunk: None, offset, message }
}

/// A finding in a chunk.
pub open spec fn chunk_issue(
    rule: LintRule,
    strip: u16,
    chunk: u16,
    offset: int,
    message: Seq<char>,
) -> IssueView {
    IssueView {
        rule,
        severity: rule_severity(rule),
        strip: Some(strip),
        chunk: Some(chunk),
        offset,
        message,
    }
}

/// The finding, where the condition holds.
pub open spec fn when(c: bool, i: IssueView) -> Seq<IssueView> {
    if c {
        seq![i]
    } else {
        Seq::empty()
    }
}

/// What the codebook chunks of a frame have established.
pub struct FrameModes {
    /// Pixel mode of the frame's first codebook chunk, and its strip.
    pub mode: Option<(PixelMode, u16)>,
    /// Whether a mix of modes was reported.
    pub mixed: bool,
}

/// Where a walk over a strip's chunks stands.
pub struct ChunkWalk {
    pub pos: int,
    /// Index of the next chunk.
    pub idx: int,
    pub saw_v4: bool,
    pub saw_v1: bool,
    /// Index of the strip's vector chunk.
    pub vector_at: Option<u16>,
    pub modes: FrameModes,
}

/// What stays the same while a strip's chunks are walked over.
pub struct StripPlace {
    /// Index of the strip.
    pub strip: u16,
    /// Whether the strip stands on its own, where its id says.
    pub intra: Option<bool>,
    /// Offset of the strip's payload in the frame.
    pub base: int,
}

/// A chunk of a strip.
pub struct ChunkView {
    pub id: u16,
    pub body: Seq<u8>,
    /// Whether the strip ends inside the chunk.
    pub truncated: bool,
}

/// The finding that a chunk follows the vector chunk.
#[verifier::opaque]
pub open spec fn after_vector(
    p: StripPlace,
    w: ChunkWalk,
    what: Seq<char>,
    id: u16,
) -> Seq<IssueView> {
    match w.vector_at {
        Some(v) => seq![
            chunk_issue(
                LintRule::ChunkAfterVectorChunk,
                p.strip,
                w.idx as u16,
                p.base + w.pos,
                what + text::hex4(id) + " appears after the vector chunk (chunk "@ + text::dec(v as nat)
                    + ")"@,
            ),
        ],
        None => Seq::empty(),
    }
}

/// The finding that a codebook chunk has another pixel mode than the
/// frame's first.
#[verifier::opaque]
pub open spec fn mode_mix(p: StripPlace, w: ChunkWalk, id: u16, mode: PixelMode) -> Seq<IssueView> {
    match w.modes.mode {
        Some((m, first)) => when(
            m != mode && !w.modes.mixed,
            chunk_issue(
                LintRule::MixedPixelModes,
                p.strip,
                w.idx as u16,
                p.base + w.pos,
                "chunk 0x"@ + text::hex4(id) + " is "@ + codebook::mode_name(mode) + " but strip "@ + text::dec(
                    first as nat,
                ) + " established "@ + codebook::mode_name(m),
            ),
        ),
        None => Seq::empty(),
    }
}

/// The modes after a codebook chunk.
pub open spec fn next_modes(p: StripPlace, modes: FrameModes, mode: PixelMode) -> FrameModes {
    match modes.mode {
        None => FrameModes { mode: Some((mode, p.strip)), ..modes },
        Some((m, _)) => FrameModes { mixed: modes.mixed || m != mode, ..modes },
    }
}

/// The findings on which codebook a chunk is for.
#[verifier::opaque]
pub open spec fn flavour_issues(p: StripPlace, w: ChunkWalk, which: WhichCodebook) -> Seq<
    IssueView,
> {
    match which {
        WhichCodebook::V4 => when(
            w.saw_v4,
            chunk_issue(
                LintRule::DuplicateCodebookChunk,
                p.strip,
                w.idx as u16,
                p.base + w.pos,
                "second V4 codebook chunk in one strip"@,
            ),
        ) + when(
            w.saw_v1 && !w.saw_v4,
            chunk_issue(
                LintRule::CodebookOrderNotV4ThenV1,
                p.strip,
                w.idx as u16,
                p.base + w.pos,
                "V4 codebook chunk arrives after a V1 codebook chunk"@,
            ),
        ),
        WhichCodebook::V1 => when(
            w.saw_v1,
            chunk_issue(
                LintRule::DuplicateCodebookChunk,
                p.strip,
                w.idx as u16,
                p.base + w.pos,
                "second V1 codebook chunk in one strip"@,
            ),
        ),
    }
}

/// The findings on the payload of a full update.
#[verifier::opaque]
pub open spec fn full_issues(p: StripPlace, w: ChunkWalk, c: ChunkView, mode: PixelMode) -> Seq<
    IssueView,
> {
    let es = codebook::entry_bytes_len(mode);
    let off = p.base + w.pos;
    if c.truncated {
        Seq::empty()
    } else {
        when(
            c.body.len() % es != 0,
            chunk_issue(
                LintRule::CodebookPayloadMisaligned,
                p.strip,
                w.idx as u16,
                off + 2,
                "payload "@ + text::dec(c.body.len()) + " bytes is not a multiple of the "@ + text::dec(es)
                    + "-byte entry size"@,
            ),
        ) + when(
            c.body.len() % es == 0 && c.body.len() / es > 256,
            chunk_issue(
                LintRule::CodebookTooManyEntries,
                p.strip,
                w.idx as u16,
                off + 2,
                text::dec(c.body.len() / es) + " entries exceed the 256-entry codebook"@,
            ),
        ) + when(
            p.intra == Some(true) && c.body.len() == 0,
            chunk_issue(
                LintRule::HeaderOnlyCodebookOnIntraStrip,
                p.strip,
                w.idx as u16,
                off,
                "header-only chunk 0x"@ + text::hex4(c.id)
                    + " on an intra strip has no prior codebook to reuse"@,
            ),
        )
    }
}

/// The findings on the payload of a selective update.
#[verifier::opaque]
pub open spec fn selective_issues(
    p: StripPlace,
    w: ChunkWalk,
    c: ChunkView,
    kind: CodebookChunkKind,
) -> Seq<IssueView> {
    let off = p.base + w.pos;
    when(
        p.intra == Some(true),
        chunk_issue(
            LintRule::SelectiveUpdateOnIntraStrip,
            p.strip,
            w.idx as u16,
            off,
            "selective-update chunk 0x"@ + text::hex4(c.id) + " on an intra strip"@,
        ),
    ) + match codebook::codebook_update(kind, c.body, codebook::zero_codebook(), false).1 {
        Err(e) => when(
            !c.truncated,
            chunk_issue(
                LintRule::SelectiveUpdatePayloadMalformed,
                p.strip,
                w.idx as u16,
                off + CHUNK_HEADER_SIZE,
                error::display(e),
            ),
        ),
        Ok(_) => Seq::empty(),
    }
}

/// The findings on a codebook chunk.
pub open spec fn codebook_issues(
    p: StripPlace,
    w: ChunkWalk,
    c: ChunkView,
    kind: CodebookChunkKind,
) -> Seq<IssueView> {
    after_vector(p, w, "codebook chunk 0x"@, c.id) + mode_mix(p, w, c.id, kind.mode)
        + flavour_issues(p, w, kind.which) + match kind.style {
        UpdateStyle::Full => full_issues(p, w, c, kind.mode),
        UpdateStyle::Selective => selective_issues(p, w, c, kind),
    }
}

/// The findings on one chunk by its id.
pub open spec fn chunk_issues(p: StripPlace, w: ChunkWalk, c: ChunkView) -> Seq<IssueView> {
    match codebook::kind_of_id(c.id) {
        Some(kind) => codebook_issues(p, w, c, kind),
        None => if decoder::is_vector_id(c.id) {
            after_vector(p, w, "vector chunk 0x"@, c.id)
        } else {
            seq![
                chunk_issue(
                    LintRule::UnknownChunkId,
                    p.strip,
                    w.idx as u16,
                    p.base + w.pos,
                    "chunk_id 0x"@ + text::hex4(c.id)
                        + " is neither a codebook nor a vector chunk code"@,
                ),
            ]
        },
    }
}

/// The walk after a chunk that ends at `end`.
pub open spec fn after_chunk(p: StripPlace, w: ChunkWalk, c: ChunkView, end: int) -> ChunkWalk {
    let w1 = ChunkWalk { pos: end, idx: w.idx + 1, ..w };
    match codebook::kind_of_id(c.id) {
        Some(kind) => ChunkWalk {
            modes: next_modes(p, w.modes, kind.mode),
            saw_v4: w.saw_v4 || kind.which == WhichCodebook::V4,
            saw_v1: w.saw_v1 || kind.which == WhichCodebook::V1,
            ..w1
        },
        None => if decoder::is_vector_id(c.id) && w.vector_at is None {
            ChunkWalk { vector_at: Some(w.idx as u16), ..w1 }
        } else {
            w1
        },
    }
}

/// The findings on the chunks of a strip from where the walk stands, and
/// the frame's modes after them.
pub open spec fn strip_chunk_issues(payload: Seq<u8>, p: StripPlace, w: ChunkWalk) -> (
    Seq<IssueView>,
    FrameModes,
)
    decreases payload.len() - w.pos,
{
    let off = p.base + w.pos;
    let left = payload.len() - w.pos;
    let id = bits::be16(payload, w.pos);
    let size = bits::be16(payload, w.pos + 2);
    if left <= 0 {
        (Seq::empty(), w.modes)
    } else if left < CHUNK_HEADER_SIZE {
        (
            seq![
                chunk_issue(
                    LintRule::ChunkHeaderTruncated,
                    p.strip,
                    w.idx as u16,
                    off,
                    text::dec(left as nat)
                        + " unclaimed strip byte(s); a chunk header needs 4 (Σ chunk_size must equal strip_size − 12)"@,
                ),
            ],
            w.modes,
        )
    } else if size < CHUNK_HEADER_SIZE {
        (
            seq![
                chunk_issue(
                    LintRule::ChunkSizeUnderHeader,
                    p.strip,
                    w.idx as u16,
                    off + 2,
                    "chunk_size "@ + text::dec(size as nat) + " < 4 (its own header)"@,
                ),
            ],
            w.modes,
        )
    } else {
        let truncated = size > left;
        let end = if truncated {
            payload.len() as int
        } else {
            w.pos + size
        };
        let c = ChunkView {
            id,
            body: payload.subrange(w.pos + CHUNK_HEADER_SIZE, end),
            truncated,
        };
        let found = when(
            truncated,
            chunk_issue(
                LintRule::ChunkOverrunsStrip,
                p.strip,
                w.idx as u16,
                off + 2,
                "chunk_size "@ + text::dec(size as nat) + " overruns the strip payload by "@ + text::dec(
                    (size - left) as nat,
                ) + " bytes"@,
            ),
        ) + chunk_issues(p, w, c);
        let w1 = after_chunk(p, w, c, end);
        if truncated {
            (found, w1.modes)
        } else {
            let (rest, modes) = strip_chunk_issues(payload, p, w1);
            (found + rest, modes)
        }
    }
}

/// What the codebook chunks of a frame have established.
struct FrameChunkState {
    mode: Option<(PixelMode, u16)>,
    mixed_reported: bool,
}

impl FrameChunkState {
    spec fn modes(self) -> FrameModes {
        FrameModes { mode: self.mode, mixed: self.mixed_reported }
    }
}

/// The findings appended to a report.
spec fn appended(before: ReportView, found: Seq<IssueView>, after: ReportView) -> bool {
    after == (ReportView { issues: before.issues + found, ..before })
}

fn after_vector_text(what: &str, id: u16, v_at: u16) -> (r: String)
    ensures
        r@ == what@ + text::hex4(id) + " appears after the vector chunk (chunk "@ + text::dec(v_at as nat)
            + ")"@,
{
    cat(
        cat_dec(
            cat(cat_hex4(lit(what), id), " appears after the vector chunk (chunk "),
            v_at as u64,
        ),
        ")",
    )
}

fn lint_after_vector(
    rep: &mut LintReport,
    what: &str,
    id: u16,
    vector_at: Option<u16>,
    strip: u16,
    idx: u16,
    off: usize,
    Ghost(p): Ghost<StripPlace>,
    Ghost(w): Ghost<ChunkWalk>,
)
    requires
        w.vector_at == vector_at,
        w.idx == idx,
        p.strip == strip,
        off == p.base + w.pos,
    ensures
        appended(old(rep)@, after_vector(p, w, what@, id), final(rep)@),
{
    proof {
        reveal(after_vector);
    }
    if let Some(v) = vector_at {
        rep.push_chunk(
            LintRule::ChunkAfterVectorChunk,
            strip,
            idx,
            off,
            after_vector_text(what, id, v),
        );
    }
    assert(rep@.issues =~= old(rep)@.issues + after_vector(p, w, what@, id));
}

fn lint_modes(
    rep: &mut LintReport,
    id: u16,
    mode: PixelMode,
    frame_state: &mut FrameChunkState,
    strip: u16,
    idx: u16,
    off: usize,
    Ghost(p): Ghost<StripPlace>,
    Ghost(w): Ghost<ChunkWalk>,
)
    requires
        w.modes == old(frame_state).modes(),
        w.idx == idx,
        p.strip == strip,
        off == p.base + w.pos,
    ensures
        appended(old(rep)@, mode_mix(p, w, id, mode), final(rep)@),
        final(frame_state).modes() == next_modes(p, w.modes, mode),
{
    proof {
        reveal(mode_mix);
    }
    match frame_state.mode {
        None => {
            frame_state.mode = Some((mode, strip));
        },
        Some((m, first)) => {
            if m != mode && !frame_state.mixed_reported {
                frame_state.mixed_reported = true;
                let text = cat(cat_hex4(lit("chunk 0x"), id), " is ");
                let text = cat_dec(cat(cat(text, mode.name()), " but strip "), first as u64);
                rep.push_chunk(
                    LintRule::MixedPixelModes,
                    strip,
                    idx,
                    off,
                    cat(cat(text, " established "), m.name()),
                );
            }
        },
    }
    assert(rep@.issues =~= old(rep)@.issues + mode_mix(p, w, id, mode));
}

fn lint_flavour(
    rep: &mut LintReport,
    which: WhichCodebook,
    saw_v4: bool,
    saw_v1: bool,
    strip: u16,
    idx: u16,
    off: usize,
    Ghost(p): Ghost<StripPlace>,
    Ghost(w): Ghost<ChunkWalk>,
)
    requires
        w.saw_v4 == saw_v4,
        w.saw_v1 == saw_v1,
        w.idx == idx,
        p.strip == strip,
        off == p.base + w.pos,
    ensures
        appended(old(rep)@, flavour_issues(p, w, which), final(rep)@),
{
    proof {
        reveal(flavour_issues);
    }
    match which {
        WhichCodebook::V4 => {
            if saw_v4 {
                rep.push_chunk(
                    LintRule::DuplicateCodebookChunk,
                    strip,
                    idx,
                    off,
                    lit("second V4 codebook chunk in one strip"),
                );
            }
            if saw_v1 && !saw_v4 {
                rep.push_chunk(
                    LintRule::CodebookOrderNotV4ThenV1,
                    strip,
                    idx,
                    off,
                    lit("V4 codebook chunk arrives after a V1 codebook chunk"),
                );
            }
        },
        WhichCodebook::V1 => {
            if saw_v1 {
                rep.push_chunk(
                    LintRule::DuplicateCodebookChunk,
                    strip,
                    idx,
                    off,
                    lit("second V1 codebook chunk in one strip"),
                );
            }
        },
    }
    assert(rep@.issues =~= old(rep)@.issues + flavour_issues(p, w, which));
}

fn lint_full_payload(
    rep: &mut LintReport,
    id: u16,
    body: &[u8],
    truncated: bool,
    mode: PixelMode,
    is_intra: Option<bool>,
    strip: u16,
    idx: u16,
    off: usize,
    Ghost(p): Ghost<StripPlace>,
    Ghost(w): Ghost<ChunkWalk>,
)
    requires
        w.idx == idx,
        p.strip == strip,
        p.intra == is_intra,
        off == p.base + w.pos,
        off + 4 <= usize::MAX,
    ensures
        appended(
            old(rep)@,
            full_issues(p, w, ChunkView { id, body: body@, truncated }, mode),
            final(rep)@,
        ),
{
    proof {
        reveal(full_issues);
    }
    let ghost c = ChunkView { id, body: body@, truncated };
    if !truncated {
        let entry: usize = mode.entry_size();
        if body.len() % entry != 0 {
            let text = cat_dec(lit("payload "), body.len() as u64);
            let text = cat_dec(cat(text, " bytes is not a multiple of the "), entry as u64);
            rep.push_chunk(
                LintRule::CodebookPayloadMisaligned,
                strip,
                idx,
                off + 2,
                cat(text, "-byte entry size"),
            );
        } else if body.len() / entry > 256 {
            let text = cat_dec(String::new(), (body.len() / entry) as u64);
            assert(text@ =~= text::dec((c.body.len() / codebook::entry_bytes_len(mode)) as nat));
            rep.push_chunk(
                LintRule::CodebookTooManyEntries,
                strip,
                idx,
                off + 2,
                cat(text, " entries exceed the 256-entry codebook"),
            );
        }
        let intra = match is_intra {
            Some(b) => b,
            None => false,
        };
        if intra && body.len() == 0 {
            rep.push_chunk(
                LintRule::HeaderOnlyCodebookOnIntraStrip,
                strip,
                idx,
                off,
                cat(
                    cat_hex4(lit("header-only chunk 0x"), id),
                    " on an intra strip has no prior codebook to reuse",
                ),
            );
        }
    }
    assert(rep@.issues =~= old(rep)@.issues + full_issues(p, w, c, mode));
}

fn lint_selective_payload(
    rep: &mut LintReport,
    id: u16,
    body: &[u8],
    truncated: bool,
    kind: CodebookChunkKind,
    is_intra: Option<bool>,
    strip: u16,
    idx: u16,
    off: usize,
    Ghost(p): Ghost<StripPlace>,
    Ghost(w): Ghost<ChunkWalk>,
)
    requires
        w.idx == idx,
        p.strip == strip,
        p.intra == is_intra,
        off == p.base + w.pos,
        off + 4 <= usize::MAX,
    ensures
        appended(
            old(rep)@,
            selective_issues(p, w, ChunkView { id, body: body@, truncated }, kind),
            final(rep)@,
        ),
{
    proof {
        reveal(selective_issues);
    }
    let ghost c = ChunkView { id, body: body@, truncated };
    let intra = match is_intra {
        Some(b) => b,
        None => false,
    };
    if intra {
        rep.push_chunk(
            LintRule::SelectiveUpdateOnIntraStrip,
            strip,
            idx,
            off,
            cat(cat_hex4(lit("selective-update chunk 0x"), id), " on an intra strip"),
        );
    }
    if !truncated {
        let mut scratch = Codebook::default();
        match apply_codebook_chunk(kind, body, &mut scratch) {
            Ok(_) => {},
            Err(e) => {
                rep.push_chunk(
                    LintRule::SelectiveUpdatePayloadMalformed,
                    strip,
                    idx,
                    off + CHUNK_HEADER_SIZE,
                    e.to_string(),
                );
            },
        }
    }
    assert(rep@.issues =~= old(rep)@.issues + selective_issues(p, w, c, kind));
}

fn lint_codebook_chunk(
    rep: &mut LintReport,
    id: u16,
    body: &[u8],
    truncated: bool,
    kind: CodebookChunkKind,
    is_intra: Option<bool>,
    strip: u16,
    idx: u16,
    off: usize,
    saw_v4: bool,
    saw_v1: bool,
    vector_at: Option<u16>,
    frame_state: &mut FrameChunkState,
    Ghost(p): Ghost<StripPlace>,
    Ghost(w): Ghost<ChunkWalk>,
)
    requires
        w == (ChunkWalk {
            pos: off - p.base,
            idx: idx as int,
            saw_v4,
            saw_v1,
            vector_at,
            modes: old(frame_state).modes(),
        }),
        p.strip == strip,
        p.intra == is_intra,
        off + 4 <= usize::MAX,
    ensures
        appended(
            old(rep)@,
            codebook_issues(p, w, ChunkView { id, body: body@, truncated }, kind),
            final(rep)@,
        ),
        final(frame_state).modes() == next_modes(p, w.modes, kind.mode),
{
    let ghost c = ChunkView { id, body: body@, truncated };
    lint_after_vector(rep, "codebook chunk 0x", id, vector_at, strip, idx, off, Ghost(p), Ghost(w));
    lint_modes(rep, id, kind.mode, frame_state, strip, idx, off, Ghost(p), Ghost(w));
    lint_flavour(rep, kind.which, saw_v4, saw_v1, strip, idx, off, Ghost(p), Ghost(w));
    match kind.style {
        UpdateStyle::Full => lint_full_payload(
            rep,
            id,
            body,
            truncated,
            kind.mode,
            is_intra,
            strip,
            idx,
            off,
            Ghost(p),
            Ghost(w),
        ),
        UpdateStyle::Selective => lint_selective_payload(
            rep,
            id,
            body,
            truncated,
            kind,
            is_intra,
            strip,
            idx,
            off,
            Ghost(p),
            Ghost(w),
        ),
    }
    proof {
        append_four(
            old(rep)@.issues,
            after_vector(p, w, "codebook chunk 0x"@, id),
            mode_mix(p, w, id, kind.mode),
            flavour_issues(p, w, kind.which),
            match kind.style {
                UpdateStyle::Full => full_issues(p, w, c, kind.mode),
                UpdateStyle::Selective => selective_issues(p, w, c, kind),
            },
        );
    }
}

proof fn append_four(
    h: Seq<IssueView>,
    a: Seq<IssueView>,
    b: Seq<IssueView>,
    c: Seq<IssueView>,
    d: Seq<IssueView>,
)
    ensures
        h + a + b + c + d == h + (a + b + c + d),
{
    assert(h + a + b + c + d =~= h + (a + b + c + d));
}

/// Walks the chunks of a strip and reports what it finds.
fn lint_strip_chunks(
    rep: &mut LintReport,
    strip: u16,
    is_intra: Option<bool>,
    payload: &[u8],
    base_off: usize,
    frame_state: &mut FrameChunkState,
)
    requires
        base_off + payload@.len() + 4 <= usize::MAX,
        payload@.len() <= 65535,
    ensures
        ({
            let p = StripPlace { strip, intra: is_intra, base: base_off as int };
            let w = ChunkWalk {
                pos: 0,
                idx: 0,
                saw_v4: false,
                saw_v1: false,
                vector_at: None,
                modes: old(frame_state).modes(),
            };
            let (found, modes) = strip_chunk_issues(payload@, p, w);
            appended(old(rep)@, found, final(rep)@) && final(frame_state).modes() == modes
        }),
{
    let ghost p = StripPlace { strip, intra: is_intra, base: base_off as int };
    let mut pos: usize = 0;
    let mut idx: u16 = 0;
    let mut saw_v4 = false;
    let mut saw_v1 = false;
    let mut vector_at: Option<u16> = None;
    let ghost goal = strip_chunk_issues(
        payload@,
        p,
        ChunkWalk {
            pos: 0,
            idx: 0,
            saw_v4,
            saw_v1,
            vector_at,
            modes: frame_state.modes(),
        },
    );
    let ghost first = rep@;
    assert(rep@.issues + goal.0 =~= first.issues + goal.0);
    while pos < payload.len()
        invariant
            pos <= payload@.len() <= 65535,
            4 * idx <= pos,
            base_off + payload@.len() + 4 <= usize::MAX,
            p == (StripPlace { strip, intra: is_intra, base: base_off as int }),
            first == old(rep)@,
            goal == strip_chunk_issues(
                payload@,
                p,
                ChunkWalk {
                    pos: 0,
                    idx: 0,
                    saw_v4: false,
                    saw_v1: false,
                    vector_at: None,
                    modes: old(frame_state).modes(),
                },
            ),
            rep@.strips_walked == first.strips_walked,
            ({
                let w = ChunkWalk {
                    pos: pos as int,
                    idx: idx as int,
                    saw_v4,
                    saw_v1,
                    vector_at,
                    modes: frame_state.modes(),
                };
                let (rest, modes) = strip_chunk_issues(payload@, p, w);
                first.issues + goal.0 == rep@.issues + rest && goal.1 == modes
            }),
        decreases payload@.len() - pos,
    {
        let ghost w = ChunkWalk {
            pos: pos as int,
            idx: idx as int,
            saw_v4,
            saw_v1,
            vector_at,
            modes: frame_state.modes(),
        };
        let ghost before = rep@;
        let ghost rest = strip_chunk_issues(payload@, p, w);
        let off: usize = base_off + pos;
        let left: usize = payload.len() - pos;
        if left < CHUNK_HEADER_SIZE {
            let text = cat_dec(String::new(), left as u64);
            assert(text@ =~= text::dec(left as nat));
            rep.push_chunk(
                LintRule::ChunkHeaderTruncated,
                strip,
                idx,
                off,
                cat(
                    text,
                    " unclaimed strip byte(s); a chunk header needs 4 (Σ chunk_size must equal strip_size − 12)",
                ),
            );
            assert(rep@.issues =~= before.issues + rest.0);
            return;
        }
        let id: u16 = read16(payload, pos);
        let size: u16 = read16(payload, pos + 2);
        if (size as usize) < CHUNK_HEADER_SIZE {
            rep.push_chunk(
                LintRule::ChunkSizeUnderHeader,
                strip,
                idx,
                off + 2,
                cat(cat_dec(lit("chunk_size "), size as u64), " < 4 (its own header)"),
            );
            assert(rep@.issues =~= before.issues + rest.0);
            return;
        }
        let truncated = size as usize > left;
        let end: usize = if truncated {
            payload.len()
        } else {
            pos + size as usize
        };
        let ghost over = when(
            truncated,
            chunk_issue(
                LintRule::ChunkOverrunsStrip,
                p.strip,
                w.idx as u16,
                p.base + w.pos + 2,
                "chunk_size "@ + text::dec(size as nat) + " overruns the strip payload by "@ + text::dec(
                    (size - left) as nat,
                ) + " bytes"@,
            ),
        );
        if truncated {
            let text = cat_dec(lit("chunk_size "), size as u64);
            let text = cat_dec(
                cat(text, " overruns the strip payload by "),
                (size as usize - left) as u64,
            );
            rep.push_chunk(
                LintRule::ChunkOverrunsStrip,
                strip,
                idx,
                off + 2,
                cat(text, " bytes"),
            );
        }
        assert(rep@.issues =~= before.issues + over);
        let body = part(payload, pos + CHUNK_HEADER_SIZE, end);
        let ghost c = ChunkView { id, body: body@, truncated };
        let ghost middle = rep@;
        if let Some(kind) = CodebookChunkKind::from_id(id) {
            lint_codebook_chunk(
                rep,
                id,
                body,
                truncated,
                kind,
                is_intra,
                strip,
                idx,
                off,
                saw_v4,
                saw_v1,
                vector_at,
                frame_state,
                Ghost(p),
                Ghost(w),
            );
            if kind.which == WhichCodebook::V4 {
                saw_v4 = true;
            } else {
                saw_v1 = true;
            }
        } else if id == VECTOR_CHUNK_INTRA || id == VECTOR_CHUNK_INTER || id
            == VECTOR_CHUNK_V1_ONLY {
            lint_after_vector(
                rep,
                "vector chunk 0x",
                id,
                vector_at,
                strip,
                idx,
                off,
                Ghost(p),
                Ghost(w),
            );
            if vector_at.is_none() {
                vector_at = Some(idx);
            }
        } else {
            rep.push_chunk(
                LintRule::UnknownChunkId,
                strip,
                idx,
                off,
                cat(
                    cat_hex4(lit("chunk_id 0x"), id),
                    " is neither a codebook nor a vector chunk code",
                ),
            );
        }
        let ghost found = over + chunk_issues(p, w, c);
        assert(rep@.issues =~= middle.issues + chunk_issues(p, w, c));
        assert(rep@.issues =~= before.issues + found);
        let ghost w1 = after_chunk(p, w, c, end as int);
        assert(frame_state.modes() == w1.modes);
        if truncated {
            return;
        }
        pos = end;
        idx = idx + 1;
        assert(w1 == (ChunkWalk {
            pos: pos as int,
            idx: idx as int,
            saw_v4,
            saw_v1,
            vector_at,
            modes: frame_state.modes(),
        }));
        assert(before.issues + (found + strip_chunk_issues(payload@, p, w1).0) =~= before.issues
            + found + strip_chunk_issues(payload@, p, w1).0);
    }
    assert(rep@.issues + Seq::<IssueView>::empty() =~= rep@.issues);
}

/// The numbers of a frame header.
pub struct FrameNumbers {
    pub flags: u8,
    pub frame_length: u32,
    pub width: u16,
    pub height: u16,
    pub strip_count: u16,
}

/// The numbers of the frame header at the start of `b`.
pub open spec fn frame_numbers(b: Seq<u8>) -> FrameNumbers {
    FrameNumbers {
        flags: b[0],
        frame_length: bits::be24(b, 1),
        width: bits::be16(b, 4),
        height: bits::be16(b, 6),
        strip_count: bits::be16(b, 8),
    }
}

/// The findings on the frame header's numbers.
#[verifier::opaque]
pub open spec fn header_issues(f: FrameNumbers) -> Seq<IssueView> {
    when(
        f.flags >= 2,
        issue(
            LintRule::FlagsReservedBitsSet,
            None,
            0,
            "flags = 0x"@ + text::hex2(f.flags) + "; upper seven bits should be zero"@,
        ),
    ) + when(
        f.width == 0 || f.height == 0,
        issue(
            LintRule::FrameDimensionsZero,
            None,
            4,
            "coded dimensions "@ + text::dec(f.width as nat) + "x"@ + text::dec(f.height as nat),
        ),
    ) + when(
        f.width % 4 != 0,
        issue(
            LintRule::FrameWidthNotMultipleOf4,
            None,
            4,
            "width "@ + text::dec(f.width as nat) + " is not a multiple of 4"@,
        ),
    ) + when(
        f.height % 4 != 0,
        issue(
            LintRule::FrameHeightNotMultipleOf4,
            None,
            6,
            "height "@ + text::dec(f.height as nat) + " is not a multiple of 4"@,
        ),
    ) + when(
        f.strip_count == 0,
        issue(LintRule::StripCountZero, None, 8, "strip_count = 0; spec requires ≥ 1"@),
    )
}

/// The findings on a frame's length.
#[verifier::opaque]
pub open spec fn length_issues(f: FrameNumbers, len: nat) -> Seq<IssueView> {
    when(
        f.frame_length < FRAME_HEADER_SIZE,
        issue(
            LintRule::FrameLengthUnderHeader,
            None,
            1,
            "frame_length "@ + text::dec(f.frame_length as nat) + " < 10-byte frame header"@,
        ),
    ) + when(
        f.frame_length >= FRAME_HEADER_SIZE && f.frame_length > len,
        issue(
            LintRule::FrameLengthOverrun,
            None,
            1,
            "frame_length "@ + text::dec(f.frame_length as nat) + " exceeds the "@ + text::dec(len)
                + "-byte buffer"@,
        ),
    )
}

/// The message of a strip's rectangle.
pub open spec fn rect_text(head: Seq<char>, raw: RawStripHeader, top: int, bottom: int) -> Seq<
    char,
> {
    head + text::dec(top as nat) + ", "@ + text::dec(bottom as nat) + ") x ["@ + text::dec(raw.x_top as nat) + ", "@
        + text::dec(raw.x_bottom as nat)
}

/// The findings on a strip's rectangle.
#[verifier::opaque]
pub open spec fn rect_issues(
    f: FrameNumbers,
    raw: RawStripHeader,
    i: u16,
    off: int,
    top: int,
    bottom: int,
) -> Seq<IssueView> {
    let h = bottom - top;
    let w = raw.x_bottom - raw.x_top;
    if bottom <= top || raw.x_bottom <= raw.x_top {
        seq![
            issue(
                LintRule::StripEmptyRect,
                Some(i),
                off + 4,
                rect_text("resolved rect y ["@, raw, top, bottom)
                    + ") has zero or negative extent"@,
            ),
        ]
    } else {
        when(
            h % 4 != 0,
            issue(
                LintRule::StripHeightNotMultipleOf4,
                Some(i),
                off + 8,
                "strip height "@ + text::dec(h as nat) + " is not a multiple of 4"@,
            ),
        ) + when(
            w % 4 != 0,
            issue(
                LintRule::StripWidthNotMultipleOf4,
                Some(i),
                off + 10,
                "strip width "@ + text::dec(w as nat) + " is not a multiple of 4"@,
            ),
        ) + when(
            bottom > f.height || raw.x_bottom > f.width,
            issue(
                LintRule::StripOutsideFrame,
                Some(i),
                off + 4,
                rect_text("rect y ["@, raw, top, bottom) + ") exceeds the "@ + text::dec(f.width as nat)
                    + "x"@ + text::dec(f.height as nat) + " frame"@,
            ),
        ) + when(
            raw.x_top != 0 || raw.x_bottom != f.width,
            issue(
                LintRule::StripNotFullWidth,
                Some(i),
                off + 6,
                "x ["@ + text::dec(raw.x_top as nat) + ", "@ + text::dec(raw.x_bottom as nat)
                    + ") does not span the full width "@ + text::dec(f.width as nat),
            ),
        )
    }
}

/// Where a walk over a frame's strips stands.
pub struct StripsWalk {
    pub cursor: int,
    /// Bottom edge of the last strip.
    pub bottom: int,
    /// Sum of the strips' sizes.
    pub sum: int,
    pub saw_intra: bool,
    pub saw_inter: bool,
    /// Whether each strip started where the one before ended.
    pub regular: bool,
    /// Whether the walk had to stop.
    pub truncated: bool,
    /// Number of strips walked over.
    pub walked: int,
    pub modes: FrameModes,
}

/// The finding that a strip's id is not defined.
pub open spec fn strip_id_issues(id: u16, i: u16, off: int) -> Seq<IssueView> {
    when(
        id != STRIP_ID_INTRA && id != STRIP_ID_INTER,
        issue(
            LintRule::UnknownStripId,
            Some(i),
            off,
            "strip_id 0x"@ + text::hex4(id) + "; only 0x1000 (intra) and 0x1100 (inter) exist"@,
        ),
    )
}

/// Whether a strip stands on its own, where its id says.
pub open spec fn strip_intra(id: u16) -> Option<bool> {
    if id == STRIP_ID_INTRA {
        Some(true)
    } else if id == STRIP_ID_INTER {
        Some(false)
    } else {
        None
    }
}

/// The findings on strip `i`, and the walk after it.
#[verifier::opaque]
pub open spec fn strip_issues(
    b: Seq<u8>,
    end: int,
    f: FrameNumbers,
    i: u16,
    w: StripsWalk,
) -> (Seq<IssueView>, StripsWalk) {
    let off = w.cursor;
    if off + STRIP_HEADER_SIZE > end {
        (
            seq![
                issue(
                    LintRule::StripHeaderTruncated,
                    Some(i),
                    off,
                    "strip "@ + text::dec(i as nat) + " header needs 12 bytes; "@ + text::dec(
                        (end - off) as nat,
                    ) + " remain in the frame"@,
                ),
            ],
            StripsWalk { truncated: true, ..w },
        )
    } else {
        let raw = header::strip_fields(b.subrange(off, off + STRIP_HEADER_SIZE));
        let w = StripsWalk {
            saw_intra: w.saw_intra || raw.strip_id == STRIP_ID_INTRA,
            saw_inter: w.saw_inter || raw.strip_id == STRIP_ID_INTER,
            ..w
        };
        let found = strip_id_issues(raw.strip_id, i, off);
        if raw.strip_size < STRIP_HEADER_SIZE {
            (
                found + seq![
                    issue(
                        LintRule::StripSizeUnderHeader,
                        Some(i),
                        off + 2,
                        "strip_size "@ + text::dec(raw.strip_size as nat) + " < 12 (its own header)"@,
                    ),
                ],
                StripsWalk { truncated: true, ..w },
            )
        } else {
            let over = off + raw.strip_size > end;
            let stop = if over {
                end
            } else {
                off + raw.strip_size
            };
            let (top, bottom) = header::place_strip(raw, i == 0, w.bottom);
            let start = off + STRIP_HEADER_SIZE;
            let (chunks, modes) = strip_chunk_issues(
                b.subrange(start, stop),
                StripPlace { strip: i, intra: strip_intra(raw.strip_id), base: start },
                ChunkWalk {
                    pos: 0,
                    idx: 0,
                    saw_v4: false,
                    saw_v1: false,
                    vector_at: None,
                    modes: w.modes,
                },
            );
            (
                found + when(
                    over,
                    issue(
                        LintRule::StripOverrunsFrame,
                        Some(i),
                        off + 2,
                        "strip_size "@ + text::dec(raw.strip_size as nat)
                            + " overruns the frame by "@ + text::dec(
                            (off + raw.strip_size - end) as nat,
                        ) + " bytes"@,
                    ),
                ) + rect_issues(f, raw, i, off, top, bottom) + chunks,
                StripsWalk {
                    cursor: stop,
                    bottom,
                    sum: w.sum + raw.strip_size,
                    regular: w.regular && top == w.bottom,
                    truncated: over,
                    walked: w.walked + 1,
                    modes,
                    ..w
                },
            )
        }
    }
}

/// The findings on the strips of a frame from strip `i` on, and the walk
/// after them.
pub open spec fn strips_issues(
    b: Seq<u8>,
    end: int,
    f: FrameNumbers,
    i: int,
    w: StripsWalk,
) -> (Seq<IssueView>, StripsWalk)
    decreases f.strip_count - i,
{
    if i >= f.strip_count || w.truncated {
        (Seq::empty(), w)
    } else {
        let (found, w1) = strip_issues(b, end, f, i as u16, w);
        let (rest, w2) = strips_issues(b, end, f, i + 1, w1);
        (found + rest, w2)
    }
}

/// The findings that compare the frame with its strips.
#[verifier::opaque]
pub open spec fn cross_issues(f: FrameNumbers, w: StripsWalk) -> Seq<IssueView> {
    let whole = !w.truncated && w.walked == f.strip_count && f.strip_count > 0;
    when(
        whole && FRAME_HEADER_SIZE + w.sum != f.frame_length,
        issue(
            LintRule::FrameLengthAccounting,
            None,
            1,
            "frame_length "@ + text::dec(f.frame_length as nat) + " != 10 + Σ strip_size = "@ + text::dec(
                (FRAME_HEADER_SIZE + w.sum) as nat,
            ),
        ),
    ) + when(
        whole && (w.bottom != f.height || !w.regular),
        issue(
            LintRule::StripCoverageIrregular,
            None,
            10,
            "strips do not tile y [0, "@ + text::dec(f.height as nat)
                + ") contiguously (last bottom "@ + text::dec(w.bottom as nat) + ")"@,
        ),
    ) + when(
        w.saw_intra && w.saw_inter,
        issue(
            LintRule::MixedStripKinds,
            None,
            10,
            "frame mixes intra (0x1000) and inter (0x1100) strips"@,
        ),
    ) + when(
        f.flags % 2 == 1 && w.saw_intra && !w.saw_inter,
        issue(
            LintRule::FlagsInheritanceOnIntraFrame,
            None,
            0,
            "flags bit 0 advertises codebook inheritance but every strip is intra-coded"@,
        ),
    )
}

/// The walk over a frame's strips, at its start.
pub open spec fn strips_start() -> StripsWalk {
    StripsWalk {
        cursor: FRAME_HEADER_SIZE as int,
        bottom: 0,
        sum: 0,
        saw_intra: false,
        saw_inter: false,
        regular: true,
        truncated: false,
        walked: 0,
        modes: FrameModes { mode: None, mixed: false },
    }
}

/// The findings on a frame.
pub open spec fn frame_report(b: Seq<u8>) -> ReportView {
    let f = frame_numbers(b);
    if b.len() < FRAME_HEADER_SIZE {
        ReportView {
            issues: seq![
                issue(
                    LintRule::FrameHeaderTruncated,
                    None,
                    0,
                    "buffer holds "@ + text::dec(b.len()) + " bytes; the frame header needs 10"@,
                ),
            ],
            strips_walked: 0,
        }
    } else {
        let head = header_issues(f) + length_issues(f, b.len());
        if f.frame_length < FRAME_HEADER_SIZE {
            ReportView { issues: head, strips_walked: 0 }
        } else {
            let end = if f.frame_length > b.len() {
                b.len() as int
            } else {
                f.frame_length as int
            };
            let (strips, w) = strips_issues(b, end, f, 0, strips_start());
            ReportView {
                issues: head + strips + cross_issues(f, w),
                strips_walked: w.walked,
            }
        }
    }
}

proof fn append_two(h: Seq<IssueView>, a: Seq<IssueView>, b: Seq<IssueView>)
    ensures
        h + a + b == h + (a + b),
{
    assert(h + a + b =~= h + (a + b));
}

fn lint_header(rep: &mut LintReport, flags: u8, width: u16, height: u16, strip_count: u16, Ghost(
    f,
): Ghost<FrameNumbers>)
    requires
        f.flags == flags,
        f.width == width,
        f.height == height,
        f.strip_count == strip_count,
    ensures
        appended(old(rep)@, header_issues(f), final(rep)@),
{
    if flags >= 2 {
        rep.push(
            LintRule::FlagsReservedBitsSet,
            None,
            0,
            cat(cat_hex2(lit("flags = 0x"), flags), "; upper seven bits should be zero"),
        );
    }
    if width == 0 || height == 0 {
        let text = cat(cat_dec(lit("coded dimensions "), width as u64), "x");
        rep.push(LintRule::FrameDimensionsZero, None, 4, cat_dec(text, height as u64));
    }
    if width % 4 != 0 {
        rep.push(
            LintRule::FrameWidthNotMultipleOf4,
            None,
            4,
            cat(cat_dec(lit("width "), width as u64), " is not a multiple of 4"),
        );
    }
    if height % 4 != 0 {
        rep.push(
            LintRule::FrameHeightNotMultipleOf4,
            None,
            6,
            cat(cat_dec(lit("height "), height as u64), " is not a multiple of 4"),
        );
    }
    if strip_count == 0 {
        rep.push(LintRule::StripCountZero, None, 8, lit("strip_count = 0; spec requires ≥ 1"));
    }
    assert(rep@.issues =~= old(rep)@.issues + header_issues(f)) by {
        reveal(header_issues);
    }
}

fn lint_length(rep: &mut LintReport, frame_length: u32, len: usize, Ghost(f): Ghost<FrameNumbers>)
    requires
        f.frame_length == frame_length,
    ensures
        appended(old(rep)@, length_issues(f, len as nat), final(rep)@),
{
    if (frame_length as usize) < FRAME_HEADER_SIZE {
        rep.push(
            LintRule::FrameLengthUnderHeader,
            None,
            1,
            cat(
                cat_dec(lit("frame_length "), frame_length as u64),
                " < 10-byte frame header",
            ),
        );
    } else if frame_length as usize > len {
        let text = cat(cat_dec(lit("frame_length "), frame_length as u64), " exceeds the ");
        rep.push(
            LintRule::FrameLengthOverrun,
            None,
            1,
            cat(cat_dec(text, len as u64), "-byte buffer"),
        );
    }
    assert(rep@.issues =~= old(rep)@.issues + length_issues(f, len as nat)) by {
        reveal(length_issues);
    }
}

fn rect_message(head: &str, raw: &RawStripHeader, top: u32, bottom: u32) -> (r: String)
    ensures
        r@ == rect_text(head@, *raw, top as int, bottom as int),
{
    let text = cat(cat_dec(lit(head), top as u64), ", ");
    let text = cat(cat_dec(text, bottom as u64), ") x [");
    let text = cat(cat_dec(text, raw.x_top as u64), ", ");
    cat_dec(text, raw.x_bottom as u64)
}

fn lint_rect(
    rep: &mut LintReport,
    hdr: &StripHeader,
    i: u16,
    off: usize,
    width: u16,
    height: u16,
    Ghost(f): Ghost<FrameNumbers>,
)
    requires
        f.width == width,
        f.height == height,
        off + 12 <= usize::MAX,
    ensures
        appended(
            old(rep)@,
            rect_issues(
                f,
                hdr.raw,
                i,
                off as int,
                hdr.actual_y_top as int,
                hdr.actual_y_bottom as int,
            ),
            final(rep)@,
        ),
{
    let raw = &hdr.raw;
    let top: u32 = hdr.actual_y_top;
    let bottom: u32 = hdr.actual_y_bottom;
    let h: u32 = hdr.height();
    let w: u32 = hdr.width();
    if bottom <= top || raw.x_bottom <= raw.x_top {
        rep.push(
            LintRule::StripEmptyRect,
            Some(i),
            off + 4,
            cat(
                rect_message("resolved rect y [", raw, top, bottom),
                ") has zero or negative extent",
            ),
        );
    } else {
        if h % 4 != 0 {
            rep.push(
                LintRule::StripHeightNotMultipleOf4,
                Some(i),
                off + 8,
                cat(cat_dec(lit("strip height "), h as u64), " is not a multiple of 4"),
            );
        }
        if w % 4 != 0 {
            rep.push(
                LintRule::StripWidthNotMultipleOf4,
                Some(i),
                off + 10,
                cat(cat_dec(lit("strip width "), w as u64), " is not a multiple of 4"),
            );
        }
        if bottom > height as u32 || raw.x_bottom > width {
            let text = cat(rect_message("rect y [", raw, top, bottom), ") exceeds the ");
            let text = cat(cat_dec(text, width as u64), "x");
            rep.push(
                LintRule::StripOutsideFrame,
                Some(i),
                off + 4,
                cat(cat_dec(text, height as u64), " frame"),
            );
        }
        if raw.x_top != 0 || raw.x_bottom != width {
            let text = cat(cat_dec(lit("x ["), raw.x_top as u64), ", ");
            let text = cat(
                cat_dec(text, raw.x_bottom as u64),
                ") does not span the full width ",
            );
            rep.push(LintRule::StripNotFullWidth, Some(i), off + 6, cat_dec(text, width as u64));
        }
    }
    assert(rep@.issues =~= old(rep)@.issues + rect_issues(
        f,
        hdr.raw,
        i,
        off as int,
        hdr.actual_y_top as int,
        hdr.actual_y_bottom as int,
    )) by {
        reveal(rect_issues);
    }
}

/// The state of a walk over a frame's strips.
struct StripsState {
    cursor: usize,
    bottom: u32,
    sum: usize,
    saw_intra: bool,
    saw_inter: bool,
    regular: bool,
    truncated: bool,
    chunks: FrameChunkState,
}

impl StripsState {
    spec fn walk(self, walked: int) -> StripsWalk {
        StripsWalk {
            cursor: self.cursor as int,
            bottom: self.bottom as int,
            sum: self.sum as int,
            saw_intra: self.saw_intra,
            saw_inter: self.saw_inter,
            regular: self.regular,
            truncated: self.truncated,
            walked,
            modes: self.chunks.modes(),
        }
    }
}

/// Reports on strip `i` and moves the walk past it.
#[verifier::rlimit(50)]
#[verifier::spinoff_prover]
fn lint_strip(
    rep: &mut LintReport,
    bytes: &[u8],
    end: usize,
    i: u16,
    width: u16,
    height: u16,
    st: &mut StripsState,
    Ghost(f): Ghost<FrameNumbers>,
)
    requires
        f.width == width,
        f.height == height,
        end <= bytes@.len(),
        end < 16777216,
        old(st).cursor <= end,
        old(st).bottom <= i * 65535,
        old(st).sum <= i * 65535,
        i < 65535,
        old(rep)@.strips_walked == i,
    ensures
        ({
            let (found, w) = strip_issues(
                bytes@,
                end as int,
                f,
                i,
                old(st).walk(old(rep)@.strips_walked),
            );
            &&& final(rep)@.issues == old(rep)@.issues + found
            &&& final(st).walk(final(rep)@.strips_walked) == w
        }),
        final(st).cursor <= end,
        final(st).bottom <= (i + 1) * 65535,
        final(st).sum <= (i + 1) * 65535,
        !final(st).truncated ==> final(rep)@.strips_walked == i + 1,
{
    proof {
        reveal(strip_issues);
    }
    let ghost before = rep@;
    let ghost w0 = st.walk(before.strips_walked);
    let off: usize = st.cursor;
    if end - off < STRIP_HEADER_SIZE {
        let text = cat(cat_dec(lit("strip "), i as u64), " header needs 12 bytes; ");
        rep.push(
            LintRule::StripHeaderTruncated,
            Some(i),
            off,
            cat(cat_dec(text, (end - off) as u64), " remain in the frame"),
        );
        st.truncated = true;
        assert(rep@.issues =~= before.issues + strip_issues(bytes@, end as int, f, i, w0).0);
        return;
    }
    let head = part(bytes, off, off + STRIP_HEADER_SIZE);
    let raw = RawStripHeader {
        strip_id: read16(head, 0),
        strip_size: read16(head, 2),
        y_top: read16(head, 4),
        x_top: read16(head, 6),
        y_bottom: read16(head, 8),
        x_bottom: read16(head, 10),
    };
    let mut is_intra: Option<bool> = None;
    if raw.strip_id == STRIP_ID_INTRA {
        st.saw_intra = true;
        is_intra = Some(true);
    } else if raw.strip_id == STRIP_ID_INTER {
        st.saw_inter = true;
        is_intra = Some(false);
    } else {
        rep.push(
            LintRule::UnknownStripId,
            Some(i),
            off,
            cat(
                cat_hex4(lit("strip_id 0x"), raw.strip_id),
                "; only 0x1000 (intra) and 0x1100 (inter) exist",
            ),
        );
    }
    let ghost found = strip_id_issues(raw.strip_id, i, off as int);
    assert(rep@.issues =~= before.issues + found);
    if (raw.strip_size as usize) < STRIP_HEADER_SIZE {
        rep.push(
            LintRule::StripSizeUnderHeader,
            Some(i),
            off + 2,
            cat(cat_dec(lit("strip_size "), raw.strip_size as u64), " < 12 (its own header)"),
        );
        st.truncated = true;
        assert(rep@.issues =~= before.issues + strip_issues(bytes@, end as int, f, i, w0).0);
        return;
    }
    let size: usize = raw.strip_size as usize;
    let over = off + size > end;
    let stop: usize = if over {
        end
    } else {
        off + size
    };
    let ghost over_issue = when(
        over,
        issue(
            LintRule::StripOverrunsFrame,
            Some(i),
            off + 2,
            "strip_size "@ + text::dec(raw.strip_size as nat) + " overruns the frame by "@ + text::dec(
                (off + raw.strip_size - end) as nat,
            ) + " bytes"@,
        ),
    );
    let ghost middle = rep@;
    if over {
        let text = cat(
            cat_dec(lit("strip_size "), raw.strip_size as u64),
            " overruns the frame by ",
        );
        rep.push(
            LintRule::StripOverrunsFrame,
            Some(i),
            off + 2,
            cat(cat_dec(text, (off + size - end) as u64), " bytes"),
        );
    }
    assert(rep@.issues =~= middle.issues + over_issue);
    let hdr = StripHeader::resolve(raw, i == 0, st.bottom);
    lint_rect(rep, &hdr, i, off, width, height, Ghost(f));
    if hdr.actual_y_top != st.bottom {
        st.regular = false;
    }
    let start: usize = off + STRIP_HEADER_SIZE;
    lint_strip_chunks(rep, i, is_intra, part(bytes, start, stop), start, &mut st.chunks);
    proof {
        append_four(
            before.issues,
            found,
            over_issue,
            rect_issues(
                f,
                raw,
                i,
                off as int,
                hdr.actual_y_top as int,
                hdr.actual_y_bottom as int,
            ),
            strip_chunk_issues(
                bytes@.subrange(start as int, stop as int),
                StripPlace { strip: i, intra: strip_intra(raw.strip_id), base: start as int },
                ChunkWalk {
                    pos: 0,
                    idx: 0,
                    saw_v4: false,
                    saw_v1: false,
                    vector_at: None,
                    modes: w0.modes,
                },
            ).0,
        );
    }
    st.bottom = hdr.actual_y_bottom;
    st.sum = st.sum + size;
    st.cursor = stop;
    st.truncated = over;
    rep.strips_walked = rep.strips_walked + 1;
}

fn lint_cross(
    rep: &mut LintReport,
    flags: u8,
    frame_length: u32,
    height: u16,
    strip_count: u16,
    st: &StripsState,
    Ghost(f): Ghost<FrameNumbers>,
)
    requires
        f.flags == flags,
        f.frame_length == frame_length,
        f.height == height,
        f.strip_count == strip_count,
        st.sum <= 65535 * 65535,
    ensures
        appended(
            old(rep)@,
            cross_issues(f, st.walk(old(rep)@.strips_walked)),
            final(rep)@,
        ),
{
    let ghost w = st.walk(old(rep)@.strips_walked);
    let whole = !st.truncated && rep.strips_walked == strip_count && strip_count > 0;
    let expected: usize = FRAME_HEADER_SIZE + st.sum;
    if whole && expected != frame_length as usize {
        let text = cat(
            cat_dec(lit("frame_length "), frame_length as u64),
            " != 10 + Σ strip_size = ",
        );
        rep.push(LintRule::FrameLengthAccounting, None, 1, cat_dec(text, expected as u64));
    }
    if whole && (st.bottom != height as u32 || !st.regular) {
        let text = cat(
            cat_dec(lit("strips do not tile y [0, "), height as u64),
            ") contiguously (last bottom ",
        );
        rep.push(
            LintRule::StripCoverageIrregular,
            None,
            FRAME_HEADER_SIZE,
            cat(cat_dec(text, st.bottom as u64), ")"),
        );
    }
    if st.saw_intra && st.saw_inter {
        rep.push(
            LintRule::MixedStripKinds,
            None,
            FRAME_HEADER_SIZE,
            lit("frame mixes intra (0x1000) and inter (0x1100) strips"),
        );
    }
    if flags % 2 == 1 && st.saw_intra && !st.saw_inter {
        rep.push(
            LintRule::FlagsInheritanceOnIntraFrame,
            None,
            0,
            lit("flags bit 0 advertises codebook inheritance but every strip is intra-coded"),
        );
    }
    assert(rep@.issues =~= old(rep)@.issues + cross_issues(f, w)) by {
        reveal(cross_issues);
    }
}

/// Lints a frame with the default options.
pub fn lint_frame(bytes: &[u8]) -> (r: LintReport)
    ensures
        r@ == frame_report(bytes@),
{
    lint_frame_with(bytes, &LintOptions {  })
}

/// Lints a frame. Whatever the bytes are, what is wrong with them is a
/// finding: a header that makes the strips unreachable ends the walk, and
/// what is wrong with one strip lets it go on to the next.
pub fn lint_frame_with(bytes: &[u8], opts: &LintOptions) -> (r: LintReport)
    ensures
        r@ == frame_report(bytes@),
{
    let _ = opts;
    let mut rep = LintReport::default();
    if bytes.len() < FRAME_HEADER_SIZE {
        rep.push(
            LintRule::FrameHeaderTruncated,
            None,
            0,
            cat(
                cat_dec(lit("buffer holds "), bytes.len() as u64),
                " bytes; the frame header needs 10",
            ),
        );
        assert(rep@.issues =~= frame_report(bytes@).issues);
        return rep;
    }
    let flags: u8 = bytes[0];
    let frame_length: u32 = read24(bytes, 1);
    let width: u16 = read16(bytes, 4);
    let height: u16 = read16(bytes, 6);
    let strip_count: u16 = read16(bytes, 8);
    let ghost f = frame_numbers(bytes@);
    lint_header(&mut rep, flags, width, height, strip_count, Ghost(f));
    lint_length(&mut rep, frame_length, bytes.len(), Ghost(f));
    let ghost head = header_issues(f) + length_issues(f, bytes@.len());
    assert(rep@.issues =~= head);
    if (frame_length as usize) < FRAME_HEADER_SIZE {
        return rep;
    }
    let end: usize = if frame_length as usize > bytes.len() {
        bytes.len()
    } else {
        frame_length as usize
    };
    let mut st = StripsState {
        cursor: FRAME_HEADER_SIZE,
        bottom: 0,
        sum: 0,
        saw_intra: false,
        saw_inter: false,
        regular: true,
        truncated: false,
        chunks: FrameChunkState { mode: None, mixed_reported: false },
    };
    let mut i: u16 = 0;
    let ghost goal = strips_issues(bytes@, end as int, f, 0, strips_start());
    assert(st.walk(0) == strips_start());
    while i < strip_count && !st.truncated
        invariant
            i <= strip_count,
            f.width == width,
            f.height == height,
            f.strip_count == strip_count,
            end <= bytes@.len(),
            end < 16777216,
            st.cursor <= end,
            st.bottom <= i * 65535,
            st.sum <= i * 65535,
            !st.truncated ==> rep@.strips_walked == i,
            ({
                let (rest, w) = strips_issues(
                    bytes@,
                    end as int,
                    f,
                    i as int,
                    st.walk(rep@.strips_walked),
                );
                head + goal.0 == rep@.issues + rest && goal.1 == w
            }),
        decreases strip_count - i,
    {
        let ghost w0 = st.walk(rep@.strips_walked);
        let ghost before = rep@;
        lint_strip(&mut rep, bytes, end, i, width, height, &mut st, Ghost(f));
        let ghost one = strip_issues(bytes@, end as int, f, i, w0);
        let ghost rest = strips_issues(bytes@, end as int, f, i + 1, one.1);
        proof {
            append_two(before.issues, one.0, rest.0);
        }
        i = i + 1;
    }
    assert(rep@.issues + Seq::<IssueView>::empty() =~= rep@.issues);
    assert(st.sum <= 65535 * 65535) by (nonlinear_arith)
        requires
            st.sum <= i * 65535,
            i <= 65535,
    ;
    lint_cross(&mut rep, flags, frame_length, height, strip_count, &st, Ghost(f));
    rep
}

proof fn severities_add_up(issues: Seq<IssueView>)
    ensures
        severity_count(issues, LintSeverity::Error) + severity_count(
            issues,
            LintSeverity::Warning,
        ) == issues.len(),
    decreases issues.len(),
{
    if issues.len() > 0 {
        severities_add_up(issues.drop_last());
    }
}

/// Every finding is an error or a warning, and a frame without findings
/// breaks no rule.
pub proof fn report_counts(r: ReportView)
    ensures
        severity_count(r.issues, LintSeverity::Error) + severity_count(
            r.issues,
            LintSeverity::Warning,
        ) == r.issues.len(),
        r.issues.len() == 0 ==> severity_count(r.issues, LintSeverity::Error) == 0,
{
    severities_add_up(r.issues);
}

} // verus!
