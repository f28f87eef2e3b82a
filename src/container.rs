use vstd::prelude::*;

use crate::cursor::Cursor;
use crate::error::DecodeError;
use crate::grammar::{
    container_of, lemma_payload_advances, sections_at, SpecContainer, SpecEnding, SpecPayload,
    SpecSection, BLOCK_COUNT_LEN, MAGIC, SECTION_COUNT_LEN,
};
use crate::sections::{
    read_font, read_id_header, read_video, read_video_surface, FontSection, IdHeader,
    VideoSection, VideoSurfaceSection,
};

verus! {

/// The decoded payload of a section of a recognized kind.
#[derive(Clone, Debug)]
pub enum Payload {
    Video(VideoSection),
    VideoSurface(VideoSurfaceSection),
    Font(FontSection),
}

impl View for Payload {
    type V = SpecPayload;

    open spec fn view(&self) -> SpecPayload {
        match self {
            Payload::Video(v) => SpecPayload::Video(v@),
            Payload::VideoSurface(v) => SpecPayload::VideoSurface(v@),
            Payload::Font(f) => SpecPayload::Font(f@),
        }
    }
}

/// One tagged record of the top-level sequence.
#[derive(Clone, Debug)]
pub struct Section {
    pub header: IdHeader,
    pub tag: String,
    pub payload: Payload,
}

impl View for Section {
    type V = SpecSection;

    open spec fn view(&self) -> SpecSection {
        SpecSection { header: self.header@, tag: self.tag@, payload: self.payload@ }
    }
}

pub open spec fn sections_view(v: Seq<Section>) -> Seq<SpecSection> {
    v.map_values(|x: Section| x@)
}

/// Why decoding stopped without an error.
#[derive(Clone, Debug)]
pub enum Ending {
    /// The input ended at a section boundary.
    EndOfInput,
    /// A section carried a tag outside the recognized set; nothing after it
    /// was decoded.
    UnrecognizedSectionType { tag: String },
}

impl View for Ending {
    type V = SpecEnding;

    open spec fn view(&self) -> SpecEnding {
        match self {
            Ending::EndOfInput => SpecEnding::EndOfInput,
            Ending::UnrecognizedSectionType { tag } => SpecEnding::UnrecognizedSectionType(tag@),
        }
    }
}

/// A decoded `.radium` file.
#[derive(Clone, Debug)]
pub struct Container {
    /// Opaque 8-byte field after the sentinel, kept as read.
    pub block_count: Vec<u8>,
    /// Opaque 4-byte field after the block count, kept as read.
    pub section_count: Vec<u8>,
    pub sections: Vec<Section>,
    pub ending: Ending,
}

impl View for Container {
    type V = SpecContainer;

    open spec fn view(&self) -> SpecContainer {
        SpecContainer {
            block_count: self.block_count@,
            section_count: self.section_count@,
            sections: sections_view(self.sections@),
            ending: self.ending@,
        }
    }
}

/// `a` placed before the sections that a successful `r` holds.
pub open spec fn prepend_sections(
    a: Seq<SpecSection>,
    r: Result<(Seq<SpecSection>, SpecEnding), DecodeError>,
) -> Result<(Seq<SpecSection>, SpecEnding), DecodeError> {
    match r {
        Ok((rest, ending)) => Ok((a + rest, ending)),
        Err(e) => Err(e),
    }
}

/// Whether `tag` reads exactly `name`.
fn tag_is(tag: &String, name: &str) -> (r: bool)
    ensures
        r == (tag@ == name@),
{
    let expected = name.to_owned();
    tag.eq(&expected)
}

/// Reads sections until the input ends at a section boundary, a section
/// carries an unrecognized tag, or a read fails.
pub fn read_sections(c: &mut Cursor) -> (r: Result<(Vec<Section>, Ending), DecodeError>)
    requires
        old(c).wf(),
    ensures
        final(c).wf(),
        final(c).data() == old(c).data(),
        match sections_at(old(c).data(), old(c).pos()) {
            Ok((m, end)) => r matches Ok((v, e)) && sections_view(v@) == m && e@ == end,
            Err(e) => r == Err::<(Vec<Section>, Ending), DecodeError>(e),
        },
{
    let ghost s = c.data();
    let ghost p0 = c.pos();
    let mut done: Vec<Section> = Vec::new();
    loop
        invariant
            c.wf(),
            c.data() == s,
            s == old(c).data(),
            p0 == old(c).pos(),
            sections_at(s, p0) == prepend_sections(sections_view(done@), sections_at(s, c.pos())),
        decreases s.len() - c.pos(),
    {
        let ghost p = c.pos();
        let ghost before = done@;
        if c.at_end() {
            assert(sections_view(done@) + seq![] =~= sections_view(done@));
            return Ok((done, Ending::EndOfInput));
        }
        let header = read_id_header(c)?;
        let tag = c.read_length_prefixed_string()?;
        let ghost p2 = c.pos();
        proof {
            lemma_payload_advances(s, p2, tag@);
        }
        let payload = if tag_is(&tag, "Video") {
            Payload::Video(read_video(c)?)
        } else if tag_is(&tag, "VideoSurface") {
            Payload::VideoSurface(read_video_surface(c)?)
        } else if tag_is(&tag, "Font") {
            Payload::Font(read_font(c)?)
        } else {
            assert(sections_view(done@) + seq![] =~= sections_view(done@));
            return Ok((done, Ending::UnrecognizedSectionType { tag }));
        };
        let section = Section { header, tag, payload };
        done.push(section);
        proof {
            assert(sections_view(done@) =~= sections_view(before) + seq![section@]);
            if let Ok((rest, _)) = sections_at(s, c.pos()) {
                assert(sections_view(before) + (seq![section@] + rest) =~= sections_view(done@)
                    + rest);
            }
        }
    }
}

/// What a decode result stands for.
pub open spec fn outcome(r: Result<Container, DecodeError>) -> Result<SpecContainer, DecodeError> {
    match r {
        Ok(c) => Ok(c@),
        Err(e) => Err(e),
    }
}

/// Decodes a whole container from `data`.
pub fn decode(data: &[u8]) -> (r: Result<Container, DecodeError>)
    ensures
        outcome(r) == container_of(data@),
{
    let mut c = Cursor::new(data);
    let magic = c.read_bytes(1)?;
    if magic[0] != MAGIC {
        return Err(DecodeError::BadMagic { found: magic[0] });
    }
    let block_count = c.read_bytes(BLOCK_COUNT_LEN)?;
    let section_count = c.read_bytes(SECTION_COUNT_LEN)?;
    let (sections, ending) = read_sections(&mut c)?;
    Ok(Container { block_count, section_count, sections, ending })
}

} // verus!
