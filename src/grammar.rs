use vstd::prelude::*;

use crate::cursor::{le_value, string_at, take, u16_at, u32_at, u64_at, Step};
use crate::error::DecodeError;

verus! {

/// The format-version sentinel that every container starts with.
pub const MAGIC: u8 = 1;

/// Width of the opaque block-count field after the sentinel.
pub const BLOCK_COUNT_LEN: usize = 8;

/// Width of the opaque section-count field after the block count.
pub const SECTION_COUNT_LEN: usize = 4;

/// Width of the opaque region that ends a Video section, as in the most
/// complete variant studied so far.
pub const VIDEO_TRAILER_LEN: usize = 68;

/// Width of the opaque region consumed at the end of a VideoSurface section.
/// The terminator seen in samples is longer; consuming this prefix leaves the
/// stream at the start of the next section.
pub const SURFACE_TRAILER_LEN: usize = 20;

/// Number of character codes in a Font section.
pub const FONT_GLYPHS: usize = 113;

/// A 2-byte identifier and a 2-byte trailer whose meaning is unknown.
pub struct SpecIdHeader {
    pub id: u16,
    pub trailer: Seq<u8>,
}

pub struct SpecVideoItem {
    pub name: Seq<char>,
    pub header: SpecIdHeader,
    pub path: Seq<char>,
    pub size: u32,
}

pub struct SpecVideo {
    pub header: SpecIdHeader,
    pub lead: Seq<u8>,
    pub description: Seq<char>,
    pub mid: Seq<u8>,
    pub opaque: Seq<u8>,
    pub items: Seq<SpecVideoItem>,
    pub trailer: Seq<u8>,
}

pub struct SpecSurfaceEntry {
    pub video_name: Seq<char>,
    pub id: u32,
}

pub struct SpecVideoSurface {
    pub lead: Seq<u8>,
    pub block: Seq<u8>,
    pub header: SpecIdHeader,
    pub mark: Seq<u8>,
    pub playlist: Seq<char>,
    pub gap: Seq<u8>,
    pub entries: Seq<SpecSurfaceEntry>,
    pub trailer: Seq<u8>,
}

pub struct SpecFont {
    pub lead: Seq<u8>,
    pub name: Seq<char>,
    pub gap: Seq<u8>,
    pub codes: Seq<u16>,
}

pub enum SpecPayload {
    Video(SpecVideo),
    VideoSurface(SpecVideoSurface),
    Font(SpecFont),
}

pub struct SpecSection {
    pub header: SpecIdHeader,
    pub tag: Seq<char>,
    pub payload: SpecPayload,
}

/// Why the section loop stopped without an error.
pub enum SpecEnding {
    EndOfInput,
    UnrecognizedSectionType(Seq<char>),
}

pub struct SpecContainer {
    pub block_count: Seq<u8>,
    pub section_count: Seq<u8>,
    pub sections: Seq<SpecSection>,
    pub ending: SpecEnding,
}

/// Whether a successful read starting at `p` ends inside `s`, no earlier
/// than `p`.
pub open spec fn advances<T>(r: Step<T>, s: Seq<u8>, p: int) -> bool {
    match r {
        Ok((_, q)) => p <= q <= s.len(),
        Err(_) => true,
    }
}

pub open spec fn id_header_at(s: Seq<u8>, p: int) -> Step<SpecIdHeader> {
    match u16_at(s, p) {
        Ok((id, q)) => match take(s, q, 2) {
            Ok((trailer, r)) => Ok((SpecIdHeader { id, trailer }, r)),
            Err(e) => Err(e),
        },
        Err(e) => Err(e),
    }
}

/// A Video-item record: name, id-header, path, 4-byte size.
pub open spec fn video_item_at(s: Seq<u8>, p: int) -> Step<SpecVideoItem> {
    match string_at(s, p) {
        Ok((name, p1)) => match id_header_at(s, p1) {
            Ok((header, p2)) => match string_at(s, p2) {
                Ok((path, p3)) => match u32_at(s, p3) {
                    Ok((size, p4)) => Ok((SpecVideoItem { name, header, path, size }, p4)),
                    Err(e) => Err(e),
                },
                Err(e) => Err(e),
            },
            Err(e) => Err(e),
        },
        Err(e) => Err(e),
    }
}

/// `n` Video-item records in a row.
pub open spec fn video_items_at(s: Seq<u8>, p: int, n: nat) -> Step<Seq<SpecVideoItem>>
    decreases n,
{
    if n == 0 {
        Ok((seq![], p))
    } else {
        match video_item_at(s, p) {
            Ok((item, q)) => match video_items_at(s, q, (n - 1) as nat) {
                Ok((rest, r)) => Ok((seq![item] + rest, r)),
                Err(e) => Err(e),
            },
            Err(e) => Err(e),
        }
    }
}

/// The payload of a Video section.
#[verifier::opaque]
pub open spec fn video_at(s: Seq<u8>, p: int) -> Step<SpecVideo> {
    match id_header_at(s, p) {
        Ok((header, p1)) => match take(s, p1, 4) {
            Ok((lead, p2)) => match string_at(s, p2) {
                Ok((description, p3)) => match take(s, p3, 4) {
                    Ok((mid, p4)) => match take(s, p4, 9) {
                        Ok((opaque, p5)) => match u64_at(s, p5) {
                            Ok((count, p6)) => match video_items_at(s, p6, count as nat) {
                                Ok((items, p7)) => match take(s, p7, VIDEO_TRAILER_LEN as int) {
                                    Ok((trailer, p8)) => Ok((
                                        SpecVideo {
                                            header,
                                            lead,
                                            description,
                                            mid,
                                            opaque,
                                            items,
                                            trailer,
                                        },
                                        p8,
                                    )),
                                    Err(e) => Err(e),
                                },
                                Err(e) => Err(e),
                            },
                            Err(e) => Err(e),
                        },
                        Err(e) => Err(e),
                    },
                    Err(e) => Err(e),
                },
                Err(e) => Err(e),
            },
            Err(e) => Err(e),
        },
        Err(e) => Err(e),
    }
}

/// One playlist entry of a VideoSurface section: a video name and a 4-byte
/// identifier.
pub open spec fn surface_entry_at(s: Seq<u8>, p: int) -> Step<SpecSurfaceEntry> {
    match string_at(s, p) {
        Ok((video_name, p1)) => match u32_at(s, p1) {
            Ok((id, p2)) => Ok((SpecSurfaceEntry { video_name, id }, p2)),
            Err(e) => Err(e),
        },
        Err(e) => Err(e),
    }
}

/// `n` playlist entries in a row.
pub open spec fn surface_entries_at(s: Seq<u8>, p: int, n: nat) -> Step<Seq<SpecSurfaceEntry>>
    decreases n,
{
    if n == 0 {
        Ok((seq![], p))
    } else {
        match surface_entry_at(s, p) {
            Ok((entry, q)) => match surface_entries_at(s, q, (n - 1) as nat) {
                Ok((rest, r)) => Ok((seq![entry] + rest, r)),
                Err(e) => Err(e),
            },
            Err(e) => Err(e),
        }
    }
}

/// The payload of a VideoSurface section.
#[verifier::opaque]
pub open spec fn video_surface_at(s: Seq<u8>, p: int) -> Step<SpecVideoSurface> {
    match take(s, p, 4) {
        Ok((lead, p1)) => match take(s, p1, 113) {
            Ok((block, p2)) => match id_header_at(s, p2) {
                Ok((header, p3)) => match take(s, p3, 4) {
                    Ok((mark, p4)) => match string_at(s, p4) {
                        Ok((playlist, p5)) => match take(s, p5, 13) {
                            Ok((gap, p6)) => match u64_at(s, p6) {
                                Ok((count, p7)) => match surface_entries_at(s, p7, count as nat) {
                                    Ok((entries, p8)) => match take(
                                        s,
                                        p8,
                                        SURFACE_TRAILER_LEN as int,
                                    ) {
                                        Ok((trailer, p9)) => Ok((
                                            SpecVideoSurface {
                                                lead,
                                                block,
                                                header,
                                                mark,
                                                playlist,
                                                gap,
                                                entries,
                                                trailer,
                                            },
                                            p9,
                                        )),
                                        Err(e) => Err(e),
                                    },
                                    Err(e) => Err(e),
                                },
                                Err(e) => Err(e),
                            },
                            Err(e) => Err(e),
                        },
                        Err(e) => Err(e),
                    },
                    Err(e) => Err(e),
                },
                Err(e) => Err(e),
            },
            Err(e) => Err(e),
        },
        Err(e) => Err(e),
    }
}

/// The character codes held by `b`, two little-endian bytes each.
pub open spec fn codes_of(b: Seq<u8>) -> Seq<u16> {
    Seq::new(b.len() / 2, |i: int| le_value(b.subrange(2 * i, 2 * i + 2)) as u16)
}

/// The payload of a Font section.
#[verifier::opaque]
pub open spec fn font_at(s: Seq<u8>, p: int) -> Step<SpecFont> {
    match take(s, p, 16) {
        Ok((lead, p1)) => match string_at(s, p1) {
            Ok((name, p2)) => match take(s, p2, 6) {
                Ok((gap, p3)) => match take(s, p3, 2 * FONT_GLYPHS) {
                    Ok((glyphs, p4)) => Ok((SpecFont { lead, name, gap, codes: codes_of(glyphs) }, p4)),
                    Err(e) => Err(e),
                },
                Err(e) => Err(e),
            },
            Err(e) => Err(e),
        },
        Err(e) => Err(e),
    }
}

/// The payload that follows a section tagged `tag`, or `None` when the tag
/// is not one of the recognized kinds (matched exactly, case-sensitively).
pub open spec fn payload_at(s: Seq<u8>, p: int, tag: Seq<char>) -> Option<Step<SpecPayload>> {
    if tag == "Video"@ {
        Some(
            match video_at(s, p) {
                Ok((v, q)) => Ok((SpecPayload::Video(v), q)),
                Err(e) => Err(e),
            },
        )
    } else if tag == "VideoSurface"@ {
        Some(
            match video_surface_at(s, p) {
                Ok((v, q)) => Ok((SpecPayload::VideoSurface(v), q)),
                Err(e) => Err(e),
            },
        )
    } else if tag == "Font"@ {
        Some(
            match font_at(s, p) {
                Ok((f, q)) => Ok((SpecPayload::Font(f), q)),
                Err(e) => Err(e),
            },
        )
    } else {
        None
    }
}

/// The sections from `p` on, and why the sequence ended: the input ran out
/// at a section boundary, or a section carried an unrecognized tag.
pub open spec fn sections_at(s: Seq<u8>, p: int) -> Result<(Seq<SpecSection>, SpecEnding), DecodeError>
    decreases s.len() - p,
    via sections_at_decreases
{
    if p >= s.len() {
        Ok((seq![], SpecEnding::EndOfInput))
    } else {
        match id_header_at(s, p) {
            Ok((header, p1)) => match string_at(s, p1) {
                Ok((tag, p2)) => match payload_at(s, p2, tag) {
                    None => Ok((seq![], SpecEnding::UnrecognizedSectionType(tag))),
                    Some(Err(e)) => Err(e),
                    Some(Ok((payload, p3))) => match sections_at(s, p3) {
                        Ok((rest, ending)) => Ok(
                            (seq![SpecSection { header, tag, payload }] + rest, ending),
                        ),
                        Err(e) => Err(e),
                    },
                },
                Err(e) => Err(e),
            },
            Err(e) => Err(e),
        }
    }
}

#[via_fn]
proof fn sections_at_decreases(s: Seq<u8>, p: int) {
    if p < s.len() {
        if let Ok((_, p1)) = id_header_at(s, p) {
            if let Ok((tag, p2)) = string_at(s, p1) {
                lemma_payload_advances(s, p2, tag);
            }
        }
    }
}

/// The container that `s` decodes to: the sentinel, the two opaque count
/// fields, then the sections.
pub open spec fn container_of(s: Seq<u8>) -> Result<SpecContainer, DecodeError> {
    match take(s, 0, 1) {
        Ok((magic, p1)) => if magic[0] != MAGIC {
            Err(DecodeError::BadMagic { found: magic[0] })
        } else {
            match take(s, p1, BLOCK_COUNT_LEN as int) {
                Ok((block_count, p2)) => match take(s, p2, SECTION_COUNT_LEN as int) {
                    Ok((section_count, p3)) => match sections_at(s, p3) {
                        Ok((sections, ending)) => Ok(
                            SpecContainer { block_count, section_count, sections, ending },
                        ),
                        Err(e) => Err(e),
                    },
                    Err(e) => Err(e),
                },
                Err(e) => Err(e),
            }
        },
        Err(e) => Err(e),
    }
}

proof fn lemma_video_items_advance(s: Seq<u8>, p: int, n: nat)
    requires
        p <= s.len(),
    ensures
        advances(video_items_at(s, p, n), s, p),
    decreases n,
{
    if n > 0 {
        if let Ok((_, q)) = video_item_at(s, p) {
            lemma_video_items_advance(s, q, (n - 1) as nat);
        }
    }
}

proof fn lemma_surface_entries_advance(s: Seq<u8>, p: int, n: nat)
    requires
        p <= s.len(),
    ensures
        advances(surface_entries_at(s, p, n), s, p),
    decreases n,
{
    if n > 0 {
        if let Ok((_, q)) = surface_entry_at(s, p) {
            lemma_surface_entries_advance(s, q, (n - 1) as nat);
        }
    }
}

/// A recognized payload ends inside the input, no earlier than it starts.
pub proof fn lemma_payload_advances(s: Seq<u8>, p: int, tag: Seq<char>)
    requires
        p <= s.len(),
    ensures
        payload_at(s, p, tag) matches Some(r) ==> advances(r, s, p),
{
    reveal(video_at);
    reveal(video_surface_at);
    reveal(font_at);
    assert forall|q: int, n: nat| q <= s.len() implies advances(
        #[trigger] video_items_at(s, q, n),
        s,
        q,
    ) by {
        lemma_video_items_advance(s, q, n);
    }
    assert forall|q: int, n: nat| q <= s.len() implies advances(
        #[trigger] surface_entries_at(s, q, n),
        s,
        q,
    ) by {
        lemma_surface_entries_advance(s, q, n);
    }
}

} // verus!
