use vstd::prelude::*;
use vstd::slice::slice_subrange;

use crate::cursor::{le_u16, Cursor, Step};
use crate::error::DecodeError;
use crate::grammar::{
    codes_of, font_at, id_header_at, surface_entries_at, surface_entry_at, video_at,
    video_item_at, video_items_at, video_surface_at, SpecFont, SpecIdHeader, SpecSurfaceEntry,
    SpecVideo, SpecVideoItem, SpecVideoSurface, FONT_GLYPHS, SURFACE_TRAILER_LEN,
    VIDEO_TRAILER_LEN,
};

verus! {

/// `a` placed before the values that a successful `r` holds.
pub open spec fn prepend<T>(a: Seq<T>, r: Step<Seq<T>>) -> Step<Seq<T>> {
    match r {
        Ok((rest, q)) => Ok((a + rest, q)),
        Err(e) => Err(e),
    }
}

/// A 2-byte identifier followed by a 2-byte trailer of unknown meaning.
#[derive(Clone, Debug)]
pub struct IdHeader {
    pub id: u16,
    pub trailer: Vec<u8>,
}

impl View for IdHeader {
    type V = SpecIdHeader;

    open spec fn view(&self) -> SpecIdHeader {
        SpecIdHeader { id: self.id, trailer: self.trailer@ }
    }
}

/// Reads an id-header.
pub fn read_id_header(c: &mut Cursor) -> (r: Result<IdHeader, DecodeError>)
    requires
        old(c).wf(),
    ensures
        final(c).wf(),
        final(c).data() == old(c).data(),
        match id_header_at(old(c).data(), old(c).pos()) {
            Ok((m, q)) => r matches Ok(h) && h@ == m && final(c).pos() == q,
            Err(e) => r == Err::<IdHeader, DecodeError>(e),
        },
{
    let id = c.read_u16_le()?;
    let trailer = c.read_bytes(2)?;
    Ok(IdHeader { id, trailer })
}

/// A Video-item sub-record of a Video section.
#[derive(Clone, Debug)]
pub struct VideoItem {
    pub name: String,
    pub header: IdHeader,
    pub path: String,
    pub size: u32,
}

impl View for VideoItem {
    type V = SpecVideoItem;

    open spec fn view(&self) -> SpecVideoItem {
        SpecVideoItem { name: self.name@, header: self.header@, path: self.path@, size: self.size }
    }
}

pub open spec fn video_items_view(v: Seq<VideoItem>) -> Seq<SpecVideoItem> {
    v.map_values(|i: VideoItem| i@)
}

/// The payload of a Video section. The byte regions are opaque: they are
/// kept as read, not interpreted.
#[derive(Clone, Debug)]
pub struct VideoSection {
    pub header: IdHeader,
    pub lead: Vec<u8>,
    pub description: String,
    pub mid: Vec<u8>,
    pub opaque: Vec<u8>,
    pub items: Vec<VideoItem>,
    pub trailer: Vec<u8>,
}

impl View for VideoSection {
    type V = SpecVideo;

    open spec fn view(&self) -> SpecVideo {
        SpecVideo {
            header: self.header@,
            lead: self.lead@,
            description: self.description@,
            mid: self.mid@,
            opaque: self.opaque@,
            items: video_items_view(self.items@),
            trailer: self.trailer@,
        }
    }
}

/// Reads a Video-item sub-record.
pub fn read_video_item(c: &mut Cursor) -> (r: Result<VideoItem, DecodeError>)
    requires
        old(c).wf(),
    ensures
        final(c).wf(),
        final(c).data() == old(c).data(),
        match video_item_at(old(c).data(), old(c).pos()) {
            Ok((m, q)) => r matches Ok(v) && v@ == m && final(c).pos() == q,
            Err(e) => r == Err::<VideoItem, DecodeError>(e),
        },
{
    let name = c.read_length_prefixed_string()?;
    let header = read_id_header(c)?;
    let path = c.read_length_prefixed_string()?;
    let size = c.read_u32_le()?;
    Ok(VideoItem { name, header, path, size })
}

/// Reads `count` Video-item sub-records in a row.
fn read_video_items(c: &mut Cursor, count: u64) -> (r: Result<Vec<VideoItem>, DecodeError>)
    requires
        old(c).wf(),
    ensures
        final(c).wf(),
        final(c).data() == old(c).data(),
        match video_items_at(old(c).data(), old(c).pos(), count as nat) {
            Ok((m, q)) => r matches Ok(v) && video_items_view(v@) == m && final(c).pos() == q,
            Err(e) => r == Err::<Vec<VideoItem>, DecodeError>(e),
        },
{
    let ghost s = c.data();
    let ghost p0 = c.pos();
    let mut items: Vec<VideoItem> = Vec::new();
    let mut i: u64 = 0;
    while i < count
        invariant
            c.wf(),
            c.data() == s,
            s == old(c).data(),
            p0 == old(c).pos(),
            i <= count,
            video_items_at(s, p0, count as nat) == prepend(
                video_items_view(items@),
                video_items_at(s, c.pos(), (count - i) as nat),
            ),
        decreases count - i,
    {
        let ghost before = items@;
        let item = read_video_item(c)?;
        items.push(item);
        i = i + 1;
        proof {
            assert(video_items_view(items@) =~= video_items_view(before) + seq![item@]);
            let tail = video_items_at(s, c.pos(), (count - i) as nat);
            if let Ok((rest, _)) = tail {
                assert(video_items_view(before) + (seq![item@] + rest) =~= video_items_view(
                    items@,
                ) + rest);
            }
        }
    }
    assert(video_items_view(items@) + seq![] =~= video_items_view(items@));
    Ok(items)
}

/// Reads the payload of a Video section.
pub fn read_video(c: &mut Cursor) -> (r: Result<VideoSection, DecodeError>)
    requires
        old(c).wf(),
    ensures
        final(c).wf(),
        final(c).data() == old(c).data(),
        match video_at(old(c).data(), old(c).pos()) {
            Ok((m, q)) => r matches Ok(v) && v@ == m && final(c).pos() == q,
            Err(e) => r == Err::<VideoSection, DecodeError>(e),
        },
{
    reveal(video_at);
    let header = read_id_header(c)?;
    let lead = c.read_bytes(4)?;
    let description = c.read_length_prefixed_string()?;
    let mid = c.read_bytes(4)?;
    let opaque = c.read_bytes(9)?;
    let count = c.read_u64_le()?;
    let items = read_video_items(c, count)?;
    let trailer = c.read_bytes(VIDEO_TRAILER_LEN)?;
    Ok(VideoSection { header, lead, description, mid, opaque, items, trailer })
}

/// One playlist entry of a VideoSurface section.
#[derive(Clone, Debug)]
pub struct SurfaceEntry {
    pub video_name: String,
    pub id: u32,
}

impl View for SurfaceEntry {
    type V = SpecSurfaceEntry;

    open spec fn view(&self) -> SpecSurfaceEntry {
        SpecSurfaceEntry { video_name: self.video_name@, id: self.id }
    }
}

pub open spec fn surface_entries_view(v: Seq<SurfaceEntry>) -> Seq<SpecSurfaceEntry> {
    v.map_values(|e: SurfaceEntry| e@)
}

/// The payload of a VideoSurface section: a playlist and its entries,
/// between opaque byte regions kept as read.
#[derive(Clone, Debug)]
pub struct VideoSurfaceSection {
    pub lead: Vec<u8>,
    pub block: Vec<u8>,
    pub header: IdHeader,
    pub mark: Vec<u8>,
    pub playlist: String,
    pub gap: Vec<u8>,
    pub entries: Vec<SurfaceEntry>,
    pub trailer: Vec<u8>,
}

impl View for VideoSurfaceSection {
    type V = SpecVideoSurface;

    open spec fn view(&self) -> SpecVideoSurface {
        SpecVideoSurface {
            lead: self.lead@,
            block: self.block@,
            header: self.header@,
            mark: self.mark@,
            playlist: self.playlist@,
            gap: self.gap@,
            entries: surface_entries_view(self.entries@),
            trailer: self.trailer@,
        }
    }
}

/// Reads one playlist entry: a video name and a 4-byte identifier.
pub fn read_surface_entry(c: &mut Cursor) -> (r: Result<SurfaceEntry, DecodeError>)
    requires
        old(c).wf(),
    ensures
        final(c).wf(),
        final(c).data() == old(c).data(),
        match surface_entry_at(old(c).data(), old(c).pos()) {
            Ok((m, q)) => r matches Ok(v) && v@ == m && final(c).pos() == q,
            Err(e) => r == Err::<SurfaceEntry, DecodeError>(e),
        },
{
    let video_name = c.read_length_prefixed_string()?;
    let id = c.read_u32_le()?;
    Ok(SurfaceEntry { video_name, id })
}

/// Reads `count` playlist entries in a row.
fn read_surface_entries(c: &mut Cursor, count: u64) -> (r: Result<Vec<SurfaceEntry>, DecodeError>)
    requires
        old(c).wf(),
    ensures
        final(c).wf(),
        final(c).data() == old(c).data(),
        match surface_entries_at(old(c).data(), old(c).pos(), count as nat) {
            Ok((m, q)) => r matches Ok(v) && surface_entries_view(v@) == m && final(c).pos() == q,
            Err(e) => r == Err::<Vec<SurfaceEntry>, DecodeError>(e),
        },
{
    let ghost s = c.data();
    let ghost p0 = c.pos();
    let mut entries: Vec<SurfaceEntry> = Vec::new();
    let mut i: u64 = 0;
    while i < count
        invariant
            c.wf(),
            c.data() == s,
            s == old(c).data(),
            p0 == old(c).pos(),
            i <= count,
            surface_entries_at(s, p0, count as nat) == prepend(
                surface_entries_view(entries@),
                surface_entries_at(s, c.pos(), (count - i) as nat),
            ),
        decreases count - i,
    {
        let ghost before = entries@;
        let entry = read_surface_entry(c)?;
        entries.push(entry);
        i = i + 1;
        proof {
            assert(surface_entries_view(entries@) =~= surface_entries_view(before) + seq![entry@]);
            let tail = surface_entries_at(s, c.pos(), (count - i) as nat);
            if let Ok((rest, _)) = tail {
                assert(surface_entries_view(before) + (seq![entry@] + rest)
                    =~= surface_entries_view(entries@) + rest);
            }
        }
    }
    assert(surface_entries_view(entries@) + seq![] =~= surface_entries_view(entries@));
    Ok(entries)
}

/// Reads the payload of a VideoSurface section.
pub fn read_video_surface(c: &mut Cursor) -> (r: Result<VideoSurfaceSection, DecodeError>)
    requires
        old(c).wf(),
    ensures
        final(c).wf(),
        final(c).data() == old(c).data(),
        match video_surface_at(old(c).data(), old(c).pos()) {
            Ok((m, q)) => r matches Ok(v) && v@ == m && final(c).pos() == q,
            Err(e) => r == Err::<VideoSurfaceSection, DecodeError>(e),
        },
{
    reveal(video_surface_at);
    let lead = c.read_bytes(4)?;
    let block = c.read_bytes(113)?;
    let header = read_id_header(c)?;
    let mark = c.read_bytes(4)?;
    let playlist = c.read_length_prefixed_string()?;
    let gap = c.read_bytes(13)?;
    let count = c.read_u64_le()?;
    let entries = read_surface_entries(c, count)?;
    let trailer = c.read_bytes(SURFACE_TRAILER_LEN)?;
    Ok(VideoSurfaceSection { lead, block, header, mark, playlist, gap, entries, trailer })
}

/// The payload of a Font section: a name and the raw 16-bit character codes,
/// between opaque byte regions kept as read.
#[derive(Clone, Debug)]
pub struct FontSection {
    pub lead: Vec<u8>,
    pub name: String,
    pub gap: Vec<u8>,
    pub codes: Vec<u16>,
}

impl View for FontSection {
    type V = SpecFont;

    open spec fn view(&self) -> SpecFont {
        SpecFont { lead: self.lead@, name: self.name@, gap: self.gap@, codes: self.codes@ }
    }
}

impl FontSection {
    /// The low byte of the `i`-th character code: its printable ASCII
    /// character.
    pub fn char_at(&self, i: usize) -> (r: u8)
        requires
            i < self.codes@.len(),
        ensures
            r == self.codes@[i as int] % 256,
    {
        (self.codes[i] % 256) as u8
    }
}

/// Reads the payload of a Font section.
pub fn read_font(c: &mut Cursor) -> (r: Result<FontSection, DecodeError>)
    requires
        old(c).wf(),
    ensures
        final(c).wf(),
        final(c).data() == old(c).data(),
        match font_at(old(c).data(), old(c).pos()) {
            Ok((m, q)) => r matches Ok(v) && v@ == m && final(c).pos() == q,
            Err(e) => r == Err::<FontSection, DecodeError>(e),
        },
{
    reveal(font_at);
    let lead = c.read_bytes(16)?;
    let name = c.read_length_prefixed_string()?;
    let gap = c.read_bytes(6)?;
    let glyphs = c.read_bytes(2 * FONT_GLYPHS)?;
    let mut codes: Vec<u16> = Vec::new();
    let mut i: usize = 0;
    while i < FONT_GLYPHS
        invariant
            glyphs@.len() == 2 * FONT_GLYPHS,
            i <= FONT_GLYPHS,
            codes@ == codes_of(glyphs@).take(i as int),
        decreases FONT_GLYPHS - i,
    {
        let pair = slice_subrange(glyphs.as_slice(), 2 * i, 2 * i + 2);
        let code = le_u16(pair);
        proof {
            assert(pair@.subrange(0, 2) =~= glyphs@.subrange(2 * i, 2 * i + 2));
        }
        codes.push(code);
        i = i + 1;
        assert(codes@ =~= codes_of(glyphs@).take(i as int));
    }
    assert(codes@ =~= codes_of(glyphs@));
    Ok(FontSection { lead, name, gap, codes })
}

} // verus!
