//! When the findings on a frame are made.

use vstd::prelude::*;
use crate::codebook::{self, CodebookChunkKind, PixelMode, WhichCodebook};
use crate::header::{self, RawStripHeader};
use crate::lint::{
    self, ChunkView, ChunkWalk, FrameNumbers, IssueView, LintRule, LintSeverity, StripPlace,
    StripsWalk,
};
use crate::text;

verus! {

/// Whether a rule is among the findings.
pub open spec fn finds(s: Seq<IssueView>, rule: LintRule) -> bool {
    exists|i: int| 0 <= i < s.len() && (#[trigger] s[i]).rule == rule
}

/// Whether every finding has the severity of its rule.
pub open spec fn graded(s: Seq<IssueView>) -> bool {
    forall|i: int| 0 <= i < s.len() ==> (#[trigger] s[i]).severity == lint::rule_severity(s[i].rule)
}

pub(crate) proof fn finds_joined(a: Seq<IssueView>, b: Seq<IssueView>, rule: LintRule)
    ensures
        finds(a + b, rule) <==> finds(a, rule) || finds(b, rule),
        graded(a) && graded(b) ==> graded(a + b),
{
    let s = a + b;
    if finds(a, rule) {
        let i = choose|i: int| 0 <= i < a.len() && (#[trigger] a[i]).rule == rule;
        assert(s[i].rule == rule);
    }
    if finds(b, rule) {
        let i = choose|i: int| 0 <= i < b.len() && (#[trigger] b[i]).rule == rule;
        assert(s[a.len() + i].rule == rule);
    }
    if finds(s, rule) {
        let i = choose|i: int| 0 <= i < s.len() && (#[trigger] s[i]).rule == rule;
        if i < a.len() {
            assert(a[i].rule == rule);
        } else {
            assert(b[i - a.len()].rule == rule);
        }
    }
    if graded(a) && graded(b) {
        assert forall|i: int| 0 <= i < s.len() implies (#[trigger] s[i]).severity
            == lint::rule_severity(s[i].rule) by {
            if i < a.len() {
                assert(s[i] == a[i]);
            } else {
                assert(s[i] == b[i - a.len()]);
            }
        }
    }
}

proof fn finds_one(i: IssueView, rule: LintRule)
    ensures
        finds(seq![i], rule) <==> i.rule == rule,
{
    assert(seq![i][0] == i);
}

proof fn finds_when(c: bool, i: IssueView, rule: LintRule)
    ensures
        finds(lint::when(c, i), rule) <==> c && i.rule == rule,
{
    if c {
        finds_one(i, rule);
    }
}

/// Findings that spoil a frame are errors; those that merely look odd are
/// warnings: spare flags that are set, an announcement of inherited codebooks
/// that nothing inherits, strips of both kinds, strips that are narrower than
/// the frame or do not follow each other, an update without entries where
/// nothing came before, and codebooks twice or in reverse.
pub proof fn odd_is_warned_of(rule: LintRule)
    ensures
        lint::rule_severity(rule) == LintSeverity::Warning || lint::rule_severity(rule)
            == LintSeverity::Error,
        lint::rule_severity(rule) == LintSeverity::Warning <==> rule == LintRule::FlagsReservedBitsSet
            || rule == LintRule::FlagsInheritanceOnIntraFrame || rule == LintRule::MixedStripKinds
            || rule == LintRule::StripNotFullWidth || rule == LintRule::StripCoverageIrregular || rule
            == LintRule::HeaderOnlyCodebookOnIntraStrip || rule == LintRule::CodebookOrderNotV4ThenV1
            || rule == LintRule::DuplicateCodebookChunk,
{
}

/// Whether the numbers of a header break a rule.
pub open spec fn header_breaks(f: FrameNumbers, rule: LintRule) -> bool {
    ||| rule == LintRule::FlagsReservedBitsSet && f.flags > 1
    ||| rule == LintRule::FrameDimensionsZero && f.width * f.height == 0
    ||| rule == LintRule::FrameWidthNotMultipleOf4 && f.width % 4 != 0
    ||| rule == LintRule::FrameHeightNotMultipleOf4 && f.height % 4 != 0
    ||| rule == LintRule::StripCountZero && f.strip_count == 0
}

/// A rule about the header's numbers is among the findings exactly where they
/// break it.
pub proof fn header_findings(f: FrameNumbers, rule: LintRule)
    ensures
        finds(lint::header_issues(f), rule) <==> header_breaks(f, rule),
{
    reveal(lint::header_issues);
    let s = lint::header_issues(f);
    assert(f.width * f.height == 0 <==> f.width == 0 || f.height == 0) by (nonlinear_arith);
    let e = lint::issue(LintRule::StripCountZero, None, 8, "strip_count = 0; spec requires ≥ 1"@);
    if finds(s, rule) {
        let i = choose|i: int| 0 <= i < s.len() && (#[trigger] s[i]).rule == rule;
        assert(header_breaks(f, s[i].rule));
    }
    if header_breaks(f, rule) {
        header_found(f, rule);
    }
}

#[verifier::rlimit(50)]
#[verifier::spinoff_prover]
proof fn header_found(f: FrameNumbers, rule: LintRule)
    requires
        header_breaks(f, rule),
    ensures
        finds(lint::header_issues(f), rule),
{
    reveal(lint::header_issues);
    assert(f.width * f.height == 0 <==> f.width == 0 || f.height == 0) by (nonlinear_arith);
    let s = lint::header_issues(f);
    let n1 = if f.flags >= 2 {
        1int
    } else {
        0
    };
    let n2 = n1 + if f.width == 0 || f.height == 0 {
        1int
    } else {
        0
    };
    let n3 = n2 + if f.width % 4 != 0 {
        1int
    } else {
        0
    };
    let n4 = n3 + if f.height % 4 != 0 {
        1int
    } else {
        0
    };
    if rule == LintRule::FlagsReservedBitsSet {
        assert(s[0].rule == rule);
    } else if rule == LintRule::FrameDimensionsZero {
        assert(s[n1].rule == rule);
    } else if rule == LintRule::FrameWidthNotMultipleOf4 {
        assert(s[n2].rule == rule);
    } else if rule == LintRule::FrameHeightNotMultipleOf4 {
        assert(s[n3].rule == rule);
    } else {
        assert(s[n4].rule == rule);
    }
}

/// The length of a frame is found wrong exactly where it is less than the
/// header's ten bytes, or more than the buffer.
pub proof fn length_findings(f: FrameNumbers, len: nat, rule: LintRule)
    ensures
        finds(lint::length_issues(f, len), rule) <==> {
            ||| rule == LintRule::FrameLengthUnderHeader && f.frame_length < 10
            ||| rule == LintRule::FrameLengthOverrun && f.frame_length >= 10 && f.frame_length > len
        },
{
    reveal(lint::length_issues);
    let s = lint::length_issues(f, len);
    if f.frame_length < 10 {
        assert(s.len() == 1 && s[0].rule == LintRule::FrameLengthUnderHeader);
    } else if f.frame_length > len {
        assert(s.len() == 1 && s[0].rule == LintRule::FrameLengthOverrun);
    } else {
        assert(s.len() == 0);
    }
}

/// Whether the rectangle of a strip breaks a rule.
pub open spec fn rect_breaks(f: FrameNumbers, raw: RawStripHeader, top: int, bottom: int, rule: LintRule) -> bool {
    let empty = !(top < bottom && raw.x_top < raw.x_bottom);
    ||| rule == LintRule::StripEmptyRect && empty
    ||| rule == LintRule::StripHeightNotMultipleOf4 && !empty && (bottom - top) % 4 != 0
    ||| rule == LintRule::StripWidthNotMultipleOf4 && !empty && (raw.x_bottom - raw.x_top) % 4 != 0
    ||| rule == LintRule::StripOutsideFrame && !empty && (bottom > f.height || raw.x_bottom > f.width)
    ||| rule == LintRule::StripNotFullWidth && !empty && (raw.x_top > 0 || raw.x_bottom != f.width)
}

/// A rule about a strip's rectangle is among the findings exactly where the
/// rectangle breaks it.
#[verifier::rlimit(50)]
#[verifier::spinoff_prover]
pub proof fn rect_findings(
    f: FrameNumbers,
    raw: RawStripHeader,
    i: u16,
    off: int,
    top: int,
    bottom: int,
    rule: LintRule,
)
    ensures
        finds(lint::rect_issues(f, raw, i, off, top, bottom), rule) <==> rect_breaks(
            f,
            raw,
            top,
            bottom,
            rule,
        ),
{
    reveal(lint::rect_issues);
    let s = lint::rect_issues(f, raw, i, off, top, bottom);
    let empty = !(top < bottom && raw.x_top < raw.x_bottom);
    if empty {
        assert(s.len() == 1 && s[0].rule == LintRule::StripEmptyRect);
    } else {
        let n1 = if (bottom - top) % 4 != 0 {
            1int
        } else {
            0
        };
        let n2 = n1 + if (raw.x_bottom - raw.x_top) % 4 != 0 {
            1int
        } else {
            0
        };
        let n3 = n2 + if bottom > f.height || raw.x_bottom > f.width {
            1int
        } else {
            0
        };
        if finds(s, rule) {
            let k = choose|k: int| 0 <= k < s.len() && (#[trigger] s[k]).rule == rule;
            assert(rect_breaks(f, raw, top, bottom, s[k].rule));
        }
        if rect_breaks(f, raw, top, bottom, rule) {
            if rule == LintRule::StripHeightNotMultipleOf4 {
                assert(s[0].rule == rule);
            } else if rule == LintRule::StripWidthNotMultipleOf4 {
                assert(s[n1].rule == rule);
            } else if rule == LintRule::StripOutsideFrame {
                assert(s[n2].rule == rule);
            } else {
                assert(s[n3].rule == rule);
            }
        }
    }
}

/// Whether a frame breaks a rule by its strips as a whole.
pub open spec fn whole_breaks(f: FrameNumbers, w: StripsWalk, rule: LintRule) -> bool {
    let whole = !w.truncated && w.walked == f.strip_count && f.strip_count > 0;
    ||| rule == LintRule::FrameLengthAccounting && whole && f.frame_length != 10 + w.sum
    ||| rule == LintRule::StripCoverageIrregular && whole && !(w.regular && w.bottom == f.height)
    ||| rule == LintRule::MixedStripKinds && w.saw_intra && w.saw_inter
    ||| rule == LintRule::FlagsInheritanceOnIntraFrame && f.flags % 2 != 0 && w.saw_intra
        && !w.saw_inter
}

/// A rule about a frame and its strips as a whole is among the findings
/// exactly where they break it.
#[verifier::rlimit(50)]
#[verifier::spinoff_prover]
pub proof fn whole_findings(f: FrameNumbers, w: StripsWalk, rule: LintRule)
    ensures
        finds(lint::cross_issues(f, w), rule) <==> whole_breaks(f, w, rule),
{
    reveal(lint::cross_issues);
    let s = lint::cross_issues(f, w);
    let whole = !w.truncated && w.walked == f.strip_count && f.strip_count > 0;
    let n1 = if whole && f.frame_length != 10 + w.sum {
        1int
    } else {
        0
    };
    let n2 = n1 + if whole && !(w.regular && w.bottom == f.height) {
        1int
    } else {
        0
    };
    let n3 = n2 + if w.saw_intra && w.saw_inter {
        1int
    } else {
        0
    };
    if finds(s, rule) {
        let k = choose|k: int| 0 <= k < s.len() && (#[trigger] s[k]).rule == rule;
        assert(whole_breaks(f, w, s[k].rule));
    }
    if whole_breaks(f, w, rule) {
        if rule == LintRule::FrameLengthAccounting {
            assert(s[0].rule == rule);
        } else if rule == LintRule::StripCoverageIrregular {
            assert(s[n1].rule == rule);
        } else if rule == LintRule::MixedStripKinds {
            assert(s[n2].rule == rule);
        } else {
            assert(s[n3].rule == rule);
        }
    }
}

/// Whether a codebook chunk breaks a rule.
pub open spec fn codebook_breaks(
    p: StripPlace,
    w: ChunkWalk,
    c: ChunkView,
    k: CodebookChunkKind,
    rule: LintRule,
) -> bool {
    let size = if k.mode == PixelMode::Gray8 {
        4int
    } else {
        6int
    };
    let full = k.style == codebook::UpdateStyle::Full;
    let n = c.body.len() as int;
    ||| rule == LintRule::ChunkAfterVectorChunk && w.vector_at is Some
    ||| rule == LintRule::MixedPixelModes && !w.modes.mixed && (w.modes.mode matches Some((m, _)) && m
        != k.mode)
    ||| rule == LintRule::DuplicateCodebookChunk && (if k.which == WhichCodebook::V4 {
        w.saw_v4
    } else {
        w.saw_v1
    })
    ||| rule == LintRule::CodebookOrderNotV4ThenV1 && k.which == WhichCodebook::V4 && w.saw_v1
        && !w.saw_v4
    ||| rule == LintRule::CodebookPayloadMisaligned && full && !c.truncated && n % size != 0
    ||| rule == LintRule::CodebookTooManyEntries && full && !c.truncated && n % size == 0 && n > 256
        * size
    ||| rule == LintRule::HeaderOnlyCodebookOnIntraStrip && full && !c.truncated && p.intra == Some(
        true,
    ) && n == 0
    ||| rule == LintRule::SelectiveUpdateOnIntraStrip && !full && p.intra == Some(true)
    ||| rule == LintRule::SelectiveUpdatePayloadMalformed && !full && !c.truncated
        && codebook::codebook_update(k, c.body, codebook::zero_codebook(), false).1 is Err
}

#[verifier::rlimit(50)]
#[verifier::spinoff_prover]
proof fn full_findings(p: StripPlace, w: ChunkWalk, c: ChunkView, mode: PixelMode, rule: LintRule)
    ensures
        ({
            let size = if mode == PixelMode::Gray8 {
                4int
            } else {
                6int
            };
            let n = c.body.len() as int;
            finds(lint::full_issues(p, w, c, mode), rule) <==> !c.truncated && {
                ||| rule == LintRule::CodebookPayloadMisaligned && n % size != 0
                ||| rule == LintRule::CodebookTooManyEntries && n % size == 0 && n > 256 * size
                ||| rule == LintRule::HeaderOnlyCodebookOnIntraStrip && p.intra == Some(true) && n == 0
            }
        }),
{
    reveal(lint::full_issues);
    let s = lint::full_issues(p, w, c, mode);
    let es = codebook::entry_bytes_len(mode);
    let n = c.body.len();
    if !c.truncated {
        if n % es != 0 {
            assert(s.len() == 1 && s[0].rule == LintRule::CodebookPayloadMisaligned);
        } else if n / es > 256 {
            assert(s.len() == 1 && s[0].rule == LintRule::CodebookTooManyEntries);
        } else if p.intra == Some(true) && n == 0 {
            assert(s.len() == 1 && s[0].rule == LintRule::HeaderOnlyCodebookOnIntraStrip);
        } else {
            assert(s.len() == 0);
        }
    } else {
        assert(s.len() == 0);
    }
}

proof fn flavour_findings(p: StripPlace, w: ChunkWalk, which: WhichCodebook, rule: LintRule)
    ensures
        finds(lint::flavour_issues(p, w, which), rule) <==> {
            ||| rule == LintRule::DuplicateCodebookChunk && (if which == WhichCodebook::V4 {
                w.saw_v4
            } else {
                w.saw_v1
            })
            ||| rule == LintRule::CodebookOrderNotV4ThenV1 && which == WhichCodebook::V4 && w.saw_v1
                && !w.saw_v4
        },
{
    reveal(lint::flavour_issues);
    let s = lint::flavour_issues(p, w, which);
    if which == WhichCodebook::V4 {
        if w.saw_v4 {
            assert(s.len() == 1 && s[0].rule == LintRule::DuplicateCodebookChunk);
        } else if w.saw_v1 {
            assert(s.len() == 1 && s[0].rule == LintRule::CodebookOrderNotV4ThenV1);
        } else {
            assert(s.len() == 0);
        }
    } else {
        if w.saw_v1 {
            assert(s.len() == 1 && s[0].rule == LintRule::DuplicateCodebookChunk);
        } else {
            assert(s.len() == 0);
        }
    }
}

proof fn selective_findings(
    p: StripPlace,
    w: ChunkWalk,
    c: ChunkView,
    k: CodebookChunkKind,
    rule: LintRule,
)
    ensures
        finds(lint::selective_issues(p, w, c, k), rule) <==> {
            ||| rule == LintRule::SelectiveUpdateOnIntraStrip && p.intra == Some(true)
            ||| rule == LintRule::SelectiveUpdatePayloadMalformed && !c.truncated
                && codebook::codebook_update(k, c.body, codebook::zero_codebook(), false).1 is Err
        },
{
    reveal(lint::selective_issues);
    let s = lint::selective_issues(p, w, c, k);
    let bad = !c.truncated && codebook::codebook_update(
        k,
        c.body,
        codebook::zero_codebook(),
        false,
    ).1 is Err;
    if p.intra == Some(true) {
        assert(s[0].rule == LintRule::SelectiveUpdateOnIntraStrip);
        if bad {
            assert(s.len() == 2 && s[1].rule == LintRule::SelectiveUpdatePayloadMalformed);
        } else {
            assert(s.len() == 1);
        }
    } else if bad {
        assert(s.len() == 1 && s[0].rule == LintRule::SelectiveUpdatePayloadMalformed);
    } else {
        assert(s.len() == 0);
    }
}

proof fn after_vector_findings(p: StripPlace, w: ChunkWalk, what: Seq<char>, id: u16, rule: LintRule)
    ensures
        finds(lint::after_vector(p, w, what, id), rule) <==> rule == LintRule::ChunkAfterVectorChunk
            && w.vector_at is Some,
{
    reveal(lint::after_vector);
    let s = lint::after_vector(p, w, what, id);
    if w.vector_at is Some {
        assert(s.len() == 1 && s[0].rule == LintRule::ChunkAfterVectorChunk);
    }
}

proof fn mode_findings(p: StripPlace, w: ChunkWalk, id: u16, mode: PixelMode, rule: LintRule)
    ensures
        finds(lint::mode_mix(p, w, id, mode), rule) <==> rule == LintRule::MixedPixelModes
            && !w.modes.mixed && (w.modes.mode matches Some((m, _)) && m != mode),
{
    reveal(lint::mode_mix);
    let s = lint::mode_mix(p, w, id, mode);
    if let Some((m, _)) = w.modes.mode {
        if m != mode && !w.modes.mixed {
            assert(s.len() == 1 && s[0].rule == LintRule::MixedPixelModes);
        } else {
            assert(s.len() == 0);
        }
    }
}

/// A rule about a chunk is among the findings exactly where the chunk breaks
/// it: a codebook chunk as above, a vector chunk where it is not the first of
/// its strip, and any other by being there.
pub proof fn chunk_findings(p: StripPlace, w: ChunkWalk, c: ChunkView, rule: LintRule)
    ensures
        finds(lint::chunk_issues(p, w, c), rule) <==> match codebook::kind_of_id(c.id) {
            Some(k) => codebook_breaks(p, w, c, k, rule),
            None => if c.id == 0x3000 || c.id == 0x3100 || c.id == 0x3200 {
                rule == LintRule::ChunkAfterVectorChunk && w.vector_at is Some
            } else {
                rule == LintRule::UnknownChunkId
            },
        },
{
    match codebook::kind_of_id(c.id) {
        Some(k) => {
            let a = lint::after_vector(p, w, "codebook chunk 0x"@, c.id);
            let b = lint::mode_mix(p, w, c.id, k.mode);
            let d = lint::flavour_issues(p, w, k.which);
            let e = match k.style {
                codebook::UpdateStyle::Full => lint::full_issues(p, w, c, k.mode),
                codebook::UpdateStyle::Selective => lint::selective_issues(p, w, c, k),
            };
            after_vector_findings(p, w, "codebook chunk 0x"@, c.id, rule);
            mode_findings(p, w, c.id, k.mode, rule);
            flavour_findings(p, w, k.which, rule);
            full_findings(p, w, c, k.mode, rule);
            selective_findings(p, w, c, k, rule);
            finds_joined(a, b, rule);
            finds_joined(a + b, d, rule);
            finds_joined(a + b + d, e, rule);
        },
        None => {
            after_vector_findings(p, w, "vector chunk 0x"@, c.id, rule);
            let s = lint::chunk_issues(p, w, c);
            if !(c.id == 0x3000 || c.id == 0x3100 || c.id == 0x3200) {
                assert(s.len() == 1 && s[0].rule == LintRule::UnknownChunkId);
            }
        },
    }
}

/// The findings on a frame are those on its header, on its length, on each of
/// its strips, and on all of them; of a buffer of less than ten bytes, only
/// that it is short.
pub proof fn frame_findings(b: Seq<u8>, rule: LintRule)
    ensures
        b.len() < 10 ==> (finds(lint::frame_report(b).issues, rule) <==> rule
            == LintRule::FrameHeaderTruncated),
        b.len() >= 10 ==> ({
            let f = lint::frame_numbers(b);
            let end = if f.frame_length > b.len() {
                b.len() as int
            } else {
                f.frame_length as int
            };
            let (found, w) = lint::strips_issues(b, end, f, 0, lint::strips_start());
            &&& f.flags == b[0]
            &&& f.frame_length == 65536 * b[1] + 256 * b[2] + b[3]
            &&& f.width == 256 * b[4] + b[5]
            &&& f.height == 256 * b[6] + b[7]
            &&& f.strip_count == 256 * b[8] + b[9]
            &&& finds(lint::frame_report(b).issues, rule) <==> {
                ||| header_breaks(f, rule)
                ||| rule == LintRule::FrameLengthUnderHeader && f.frame_length < 10
                ||| rule == LintRule::FrameLengthOverrun && f.frame_length >= 10 && f.frame_length
                    > b.len()
                ||| f.frame_length >= 10 && finds(found, rule)
                ||| f.frame_length >= 10 && whole_breaks(f, w, rule)
            }
        }),
{
    if b.len() < 10 {
        let s = lint::frame_report(b).issues;
        assert(s.len() == 1 && s[0].rule == LintRule::FrameHeaderTruncated);
    } else {
        let f = lint::frame_numbers(b);
        let end = if f.frame_length > b.len() {
            b.len() as int
        } else {
            f.frame_length as int
        };
        let (found, w) = lint::strips_issues(b, end, f, 0, lint::strips_start());
        let h = lint::header_issues(f);
        let l = lint::length_issues(f, b.len());
        header_findings(f, rule);
        length_findings(f, b.len(), rule);
        whole_findings(f, w, rule);
        finds_joined(h, l, rule);
        finds_joined(h + l, found, rule);
        finds_joined(h + l + found, lint::cross_issues(f, w), rule);
    }
}

/// A number of two bytes, the first one higher.
pub open spec fn pair(b: Seq<u8>, i: int) -> int {
    256 * b[i] + b[i + 1]
}

/// The findings on the chunks of a strip are those on the chunk at hand and
/// on those after it. Left-over bytes that are no chunk header, a chunk of
/// less than its header's four bytes, and a chunk beyond the strip's end stop
/// the walk.
pub proof fn strip_chunk_findings(payload: Seq<u8>, p: StripPlace, w: ChunkWalk, rule: LintRule)
    requires
        0 <= w.pos <= payload.len(),
    ensures
        ({
            let left = payload.len() - w.pos;
            let size = pair(payload, w.pos + 2);
            let end = if size > left {
                payload.len() as int
            } else {
                w.pos + size
            };
            let c = ChunkView {
                id: pair(payload, w.pos) as u16,
                body: payload.subrange(w.pos + 4, end),
                truncated: size > left,
            };
            let found = finds(lint::strip_chunk_issues(payload, p, w).0, rule);
            &&& left == 0 ==> !found
            &&& 0 < left < 4 ==> (found <==> rule == LintRule::ChunkHeaderTruncated)
            &&& left >= 4 && size < 4 ==> (found <==> rule == LintRule::ChunkSizeUnderHeader)
            &&& left >= 4 && size > left ==> (found <==> rule == LintRule::ChunkOverrunsStrip
                || finds(lint::chunk_issues(p, w, c), rule))
            &&& left >= 4 && 4 <= size <= left ==> (found <==> finds(
                lint::chunk_issues(p, w, c),
                rule,
            ) || finds(
                lint::strip_chunk_issues(payload, p, lint::after_chunk(p, w, c, end)).0,
                rule,
            ))
        }),
{
    let left = payload.len() - w.pos;
    let size = pair(payload, w.pos + 2);
    let s = lint::strip_chunk_issues(payload, p, w).0;
    if left == 0 {
        assert(s.len() == 0);
    } else if left < 4 {
        assert(s.len() == 1 && s[0].rule == LintRule::ChunkHeaderTruncated);
    } else if size < 4 {
        assert(s.len() == 1 && s[0].rule == LintRule::ChunkSizeUnderHeader);
    } else {
        let end = if size > left {
            payload.len() as int
        } else {
            w.pos + size
        };
        let c = ChunkView {
            id: pair(payload, w.pos) as u16,
            body: payload.subrange(w.pos + 4, end),
            truncated: size > left,
        };
        let one = lint::chunk_issues(p, w, c);
        let rest = lint::strip_chunk_issues(payload, p, lint::after_chunk(p, w, c, end)).0;
        if size > left {
            let over = seq![s[0]];
            assert(s =~= over + one);
            finds_joined(over, one, rule);
            finds_one(s[0], rule);
        } else {
            assert(Seq::<IssueView>::empty() + one =~= one);
            assert(s == one + rest);
            finds_joined(one, rest, rule);
        }
    }
}

/// What a walk over chunks has seen after one more: a codebook by its id, and
/// the first vector chunk by its place.
pub proof fn chunk_walk_sees(p: StripPlace, w: ChunkWalk, c: ChunkView, end: int)
    ensures
        ({
            let n = lint::after_chunk(p, w, c, end);
            let kind = codebook::kind_of_id(c.id);
            let v4 = kind is Some && (kind->0).which == WhichCodebook::V4;
            let v1 = kind is Some && (kind->0).which == WhichCodebook::V1;
            let vector = c.id == 0x3000 || c.id == 0x3100 || c.id == 0x3200;
            &&& n.pos == end && n.idx == w.idx + 1
            &&& n.saw_v4 <==> w.saw_v4 || v4
            &&& n.saw_v1 <==> w.saw_v1 || v1
            &&& w.vector_at is Some || !vector ==> n.vector_at == w.vector_at
            &&& w.vector_at is None && vector ==> n.vector_at == Some(w.idx as u16)
            &&& kind is None ==> n.modes == w.modes
            &&& kind is Some && w.modes.mode is None ==> n.modes.mode == Some(
                ((kind->0).mode, p.strip),
            ) && n.modes.mixed == w.modes.mixed
            &&& kind is Some && w.modes.mode is Some ==> n.modes.mode == w.modes.mode && (
            n.modes.mixed <==> w.modes.mixed || (w.modes.mode->0).0 != (kind->0).mode)
        }),
{
}

/// The findings on a strip: on its header of twelve bytes, which must be
/// there; on its id and size; on its rectangle, placed in the frame; and on
/// its chunks. The walk goes on where the strip ends, and counts its size.
pub proof fn strip_findings(
    b: Seq<u8>,
    end: int,
    f: FrameNumbers,
    i: u16,
    w: StripsWalk,
    rule: LintRule,
)
    requires
        0 <= w.cursor,
        end <= b.len(),
    ensures
        ({
            let at = w.cursor;
            let raw = RawStripHeader {
                strip_id: pair(b, at) as u16,
                strip_size: pair(b, at + 2) as u16,
                y_top: pair(b, at + 4) as u16,
                x_top: pair(b, at + 6) as u16,
                y_bottom: pair(b, at + 8) as u16,
                x_bottom: pair(b, at + 10) as u16,
            };
            let size = pair(b, at + 2);
            let over = at + size > end;
            let stop = if over {
                end
            } else {
                at + size
            };
            let below = i > 0 && raw.y_top == 0;
            let top = if below {
                w.bottom
            } else {
                raw.y_top as int
            };
            let bottom = if below {
                w.bottom + raw.y_bottom
            } else {
                raw.y_bottom as int
            };
            let intra = if raw.strip_id == 0x1000 {
                Some(true)
            } else if raw.strip_id == 0x1100 {
                Some(false)
            } else {
                None
            };
            let chunks = lint::strip_chunk_issues(
                b.subrange(at + 12, stop),
                StripPlace { strip: i, intra, base: at + 12 },
                ChunkWalk {
                    pos: 0,
                    idx: 0,
                    saw_v4: false,
                    saw_v1: false,
                    vector_at: None,
                    modes: w.modes,
                },
            );
            let (s, n) = lint::strip_issues(b, end, f, i, w);
            let found = finds(s, rule);
            let short = at + 12 > end;
            &&& short ==> (found <==> rule == LintRule::StripHeaderTruncated) && n == (StripsWalk {
                truncated: true,
                ..w
            })
            &&& !short && size < 12 ==> (found <==> {
                ||| rule == LintRule::UnknownStripId && intra is None
                ||| rule == LintRule::StripSizeUnderHeader
            }) && n.truncated && n.walked == w.walked
            &&& !short && size >= 12 ==> (found <==> {
                ||| rule == LintRule::UnknownStripId && intra is None
                ||| rule == LintRule::StripOverrunsFrame && over
                ||| rect_breaks(f, raw, top, bottom, rule)
                ||| finds(chunks.0, rule)
            })
            &&& !short && size >= 12 ==> {
                &&& n.cursor == stop && n.bottom == bottom && n.sum == w.sum + size
                &&& n.regular <==> w.regular && top == w.bottom
                &&& n.truncated == over && n.walked == w.walked + 1
                &&& n.saw_intra <==> w.saw_intra || intra == Some(true)
                &&& n.saw_inter <==> w.saw_inter || intra == Some(false)
                &&& n.modes == chunks.1
            }
        }),
{
    reveal(lint::strip_issues);
    let at = w.cursor;
    let (s, n) = lint::strip_issues(b, end, f, i, w);
    if at + 12 > end {
        assert(s.len() == 1 && s[0].rule == LintRule::StripHeaderTruncated);
    } else {
        let head = b.subrange(at, at + 12);
        let raw = header::strip_fields(head);
        assert(raw == (RawStripHeader {
            strip_id: pair(b, at) as u16,
            strip_size: pair(b, at + 2) as u16,
            y_top: pair(b, at + 4) as u16,
            x_top: pair(b, at + 6) as u16,
            y_bottom: pair(b, at + 8) as u16,
            x_bottom: pair(b, at + 10) as u16,
        }));
        let ids = lint::strip_id_issues(raw.strip_id, i, at);
        if raw.strip_id != 0x1000 && raw.strip_id != 0x1100 {
            assert(ids.len() == 1 && ids[0].rule == LintRule::UnknownStripId);
        } else {
            assert(ids.len() == 0);
        }
        if raw.strip_size < 12 {
            let last = seq![s[s.len() - 1]];
            assert(s =~= ids + last);
            finds_joined(ids, last, rule);
            finds_one(last[0], rule);
        } else {
            let over = at + raw.strip_size > end;
            let (top, bottom) = header::place_strip(raw, i == 0, w.bottom);
            let rect = lint::rect_issues(f, raw, i, at, top, bottom);
            rect_findings(f, raw, i, at, top, bottom, rule);
            let o = lint::when(
                over,
                lint::issue(
                    LintRule::StripOverrunsFrame,
                    Some(i),
                    at + 2,
                    "strip_size "@ + text::dec(raw.strip_size as nat) + " overruns the frame by "@
                        + text::dec((at + raw.strip_size - end) as nat) + " bytes"@,
                ),
            );
            finds_when(
                over,
                lint::issue(
                    LintRule::StripOverrunsFrame,
                    Some(i),
                    at + 2,
                    "strip_size "@ + text::dec(raw.strip_size as nat) + " overruns the frame by "@
                        + text::dec((at + raw.strip_size - end) as nat) + " bytes"@,
                ),
                rule,
            );
            let stop = if over {
                end
            } else {
                at + raw.strip_size
            };
            let chunks = lint::strip_chunk_issues(
                b.subrange(at + 12, stop),
                StripPlace { strip: i, intra: lint::strip_intra(raw.strip_id), base: at + 12 },
                ChunkWalk {
                    pos: 0,
                    idx: 0,
                    saw_v4: false,
                    saw_v1: false,
                    vector_at: None,
                    modes: w.modes,
                },
            ).0;
            assert(s == ids + o + rect + chunks);
            finds_joined(ids, o, rule);
            finds_joined(ids + o, rect, rule);
            finds_joined(ids + o + rect, chunks, rule);
        }
    }
}

} // verus!
