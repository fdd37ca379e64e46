//! Artwork: the images a tag embeds, and picking the front cover among them.
use vstd::prelude::*;
use crate::text::str_eq;
use base64::Engine;

verus! {

/// The pixel size that `imagesize::blob_size` reads from an image's header, as
/// (width, height), or none when it cannot.
pub uninterp spec fn image_size_of(data: Seq<u8>) -> Option<(usize, usize)>;

/// The bytes that standard base64 decoding gives for `s`, or none when `s` is not valid.
pub uninterp spec fn base64_decoded(s: Seq<char>) -> Option<Seq<u8>>;

/// Relies on `imagesize::blob_size`: the size read from the image header, which depends
/// on the bytes alone.
#[verifier::external_body]
pub(crate) fn blob_size(data: &[u8]) -> (r: Result<(usize, usize), imagesize::ImageError>)
    ensures
        r is Ok <==> image_size_of(data@) is Some,
        r matches Ok(v) ==> image_size_of(data@) == Some(v),
{
    match imagesize::blob_size(data) {
        Ok(size) => Ok((size.width, size.height)),
        Err(e) => Err(e),
    }
}

/// Relies on base64's standard engine `decode`: the decoded bytes, which depend on the
/// text alone.
#[verifier::external_body]
pub(crate) fn base64_decode(s: &str) -> (r: Option<Vec<u8>>)
    ensures
        r is Some <==> base64_decoded(s@) is Some,
        r matches Some(v) ==> base64_decoded(s@) == Some(v@),
{
    base64::prelude::BASE64_STANDARD.decode(s).ok()
}

/// The image formats the library tells apart.
#[derive(Debug, Clone, Copy, PartialEq, Eq, Structural)]
pub enum ImgFmt {
    JPEG,
    PNG,
}

/// `image/png` is PNG; every other MIME type is taken for JPEG.
pub open spec fn fmt_of_mime(mime: Seq<char>) -> ImgFmt {
    if mime == "image/png"@ {
        ImgFmt::PNG
    } else {
        ImgFmt::JPEG
    }
}

/// The MIME type written for an image format.
pub open spec fn mime_of(fmt: ImgFmt) -> Seq<char> {
    match fmt {
        ImgFmt::JPEG => "image/jpeg"@,
        ImgFmt::PNG => "image/png"@,
    }
}

impl ImgFmt {
    pub fn from_mime(mime: &str) -> (r: ImgFmt)
        ensures
            r == fmt_of_mime(mime@),
    {
        if str_eq(mime, "image/png") {
            ImgFmt::PNG
        } else {
            ImgFmt::JPEG
        }
    }
}

/// An embedded image, with the size read from its own header.
#[derive(Debug, Clone)]
pub struct Artwork {
    pub height: usize,
    pub width: usize,
    pub data: Vec<u8>,
    pub fmt: ImgFmt,
}

/// What an artwork holds: (width, height, bytes, format).
pub open spec fn artwork_model(a: Artwork) -> (usize, usize, Seq<u8>, ImgFmt) {
    (a.width, a.height, a.data@, a.fmt)
}

/// What each artwork of a list holds.
pub open spec fn artworks_model(v: Seq<Artwork>) -> Seq<(usize, usize, Seq<u8>, ImgFmt)> {
    v.map_values(|a: Artwork| artwork_model(a))
}

impl Artwork {
    pub fn mime_type(&self) -> (r: &'static str)
        ensures
            r@ == mime_of(self.fmt),
    {
        match self.fmt {
            ImgFmt::JPEG => "image/jpeg",
            ImgFmt::PNG => "image/png",
        }
    }
}

/// An image as a native tag holds it: whether it is marked as the front cover, its
/// declared MIME type and its bytes.
#[derive(Debug, Clone)]
pub struct Picture {
    pub cover_front: bool,
    pub mime_type: String,
    pub data: Vec<u8>,
}

/// What a native picture holds: (front cover or not, MIME type, bytes).
pub open spec fn picture_model(p: Picture) -> (bool, Seq<char>, Seq<u8>) {
    (p.cover_front, p.mime_type@, p.data@)
}

/// What each picture of a list holds.
pub open spec fn pictures_model(v: Seq<Picture>) -> Seq<(bool, Seq<char>, Seq<u8>)> {
    v.map_values(|p: Picture| picture_model(p))
}

/// The artworks that pictures yield: the front covers whose size can be read, in order,
/// with the format their MIME type names.
pub open spec fn covers_in(ms: Seq<(bool, Seq<char>, Seq<u8>)>) -> Seq<(usize, usize, Seq<u8>, ImgFmt)>
    decreases ms.len(),
{
    if ms.len() == 0 {
        Seq::empty()
    } else {
        let rest = covers_in(ms.drop_last());
        let p = ms.last();
        match image_size_of(p.2) {
            Some(size) if p.0 => rest.push((size.0, size.1, p.2, fmt_of_mime(p.1))),
            _ => rest,
        }
    }
}

/// The artworks a list of native pictures yields.
pub open spec fn front_covers(pics: Seq<Picture>) -> Seq<(usize, usize, Seq<u8>, ImgFmt)> {
    covers_in(pictures_model(pics))
}

/// The artworks of two lists of pictures are those of the first followed by those of the
/// second.
pub proof fn lemma_covers_in_concat(
    a: Seq<(bool, Seq<char>, Seq<u8>)>,
    b: Seq<(bool, Seq<char>, Seq<u8>)>,
)
    ensures
        covers_in(a + b) == covers_in(a) + covers_in(b),
    decreases b.len(),
{
    if b.len() == 0 {
        assert(a + b =~= a);
        assert(covers_in(a) + covers_in(b) =~= covers_in(a));
    } else {
        lemma_covers_in_concat(a, b.drop_last());
        assert((a + b).drop_last() =~= a + b.drop_last());
        assert((a + b).last() == b.last());
        assert(covers_in(a + b) =~= covers_in(a) + covers_in(b));
    }
}

/// A picture that is not marked as the front cover adds nothing to the artworks, wherever it
/// stands in the list.
pub proof fn lemma_other_pictures_ignored(
    a: Seq<(bool, Seq<char>, Seq<u8>)>,
    p: (bool, Seq<char>, Seq<u8>),
    b: Seq<(bool, Seq<char>, Seq<u8>)>,
)
    requires
        !p.0,
    ensures
        covers_in(a + seq![p] + b) == covers_in(a + b),
{
    lemma_covers_in_concat(a + seq![p], b);
    lemma_covers_in_concat(a, seq![p]);
    lemma_covers_in_concat(a, b);
    assert(seq![p].drop_last() =~= Seq::<(bool, Seq<char>, Seq<u8>)>::empty());
    assert(seq![p].last() == p);
    assert(covers_in(Seq::<(bool, Seq<char>, Seq<u8>)>::empty()) =~= Seq::<(usize, usize, Seq<u8>, ImgFmt)>::empty());
    assert(covers_in(seq![p]) =~= Seq::<(usize, usize, Seq<u8>, ImgFmt)>::empty());
    assert(covers_in(a) + covers_in(seq![p]) =~= covers_in(a));
}

/// The front covers among native pictures, each with the size read from its bytes; a
/// picture whose size cannot be read is left out.
pub fn cover_artworks(pics: &Vec<Picture>) -> (r: Vec<Artwork>)
    ensures
        artworks_model(r@) == front_covers(pics@),
{
    let mut out: Vec<Artwork> = Vec::new();
    let mut i: usize = 0;
    while i < pics.len()
        invariant
            i <= pics.len(),
            artworks_model(out@) == front_covers(pics@.subrange(0, i as int)),
        decreases pics.len() - i,
    {
        let p = &pics[i];
        let ghost before = out@;
        assert(pictures_model(pics@.subrange(0, i + 1)).drop_last() == pictures_model(pics@.subrange(0, i as int)));
        assert(pictures_model(pics@.subrange(0, i + 1)).last() == picture_model(*p));
        if p.cover_front {
            match blob_size(p.data.as_slice()) {
                Ok(size) => {
                    out.push(Artwork {
                        height: size.1,
                        width: size.0,
                        data: p.data.clone(),
                        fmt: ImgFmt::from_mime(p.mime_type.as_str()),
                    });
                    assert(artworks_model(out@) =~= artworks_model(before).push(
                        (size.0, size.1, p.data@, fmt_of_mime(p.mime_type@)),
                    ));
                },
                Err(_) => {},
            }
        }
        i = i + 1;
    }
    assert(pics@.subrange(0, pics@.len() as int) == pics@);
    out
}

/// Where the image bytes start in a picture block, by the encoders seen in practice.
pub const PICTURE_PAYLOAD_OFFSET: usize = 42;

/// The artwork a decoded picture block holds: its bytes from offset 42 when their size can
/// be read, else from offset 41, else none. Taken for JPEG.
pub open spec fn block_payload_artwork(block: Seq<u8>) -> Option<(usize, usize, Seq<u8>, ImgFmt)> {
    let p42 = block.subrange(42, block.len() as int);
    let p41 = block.subrange(41, block.len() as int);
    match (image_size_of(p42), image_size_of(p41)) {
        (Some((w, h)), _) if block.len() >= 42 => Some((w, h, p42, ImgFmt::JPEG)),
        (_, Some((w, h))) if block.len() >= 41 => Some((w, h, p41, ImgFmt::JPEG)),
        _ => None,
    }
}

/// The artwork of a decoded picture block, by the payload-offset rule.
pub fn picture_block_artwork(block: &Vec<u8>) -> (r: Option<Artwork>)
    ensures
        match r {
            Some(a) => block_payload_artwork(block@) == Some(artwork_model(a)),
            None => block_payload_artwork(block@) is None,
        },
{
    let n = block.len();
    if n >= PICTURE_PAYLOAD_OFFSET {
        let payload = slice_from(block, PICTURE_PAYLOAD_OFFSET);
        if let Ok(size) = blob_size(payload.as_slice()) {
            return Some(Artwork { fmt: ImgFmt::JPEG, data: payload, width: size.0, height: size.1 });
        }
    }
    if n >= PICTURE_PAYLOAD_OFFSET - 1 {
        let payload = slice_from(block, PICTURE_PAYLOAD_OFFSET - 1);
        if let Ok(size) = blob_size(payload.as_slice()) {
            return Some(Artwork { fmt: ImgFmt::JPEG, data: payload, width: size.0, height: size.1 });
        }
    }
    None
}

/// The bytes of `v` from `start` on.
fn slice_from(v: &Vec<u8>, start: usize) -> (r: Vec<u8>)
    requires
        start <= v@.len(),
    ensures
        r@ == v@.subrange(start as int, v@.len() as int),
{
    let mut out: Vec<u8> = Vec::new();
    let mut i: usize = start;
    while i < v.len()
        invariant
            start <= i <= v@.len(),
            out@ == v@.subrange(start as int, i as int),
        decreases v.len() - i,
    {
        out.push(v[i]);
        assert(v@.subrange(start as int, i + 1) == v@.subrange(start as int, i as int).push(v@[i as int]));
        i = i + 1;
    }
    out
}

/// The artwork a base64 picture-block value holds: none when the text is not valid base64
/// or no size can be read at either payload offset.
pub fn block_artwork(value: &str) -> (r: Option<Artwork>)
    ensures
        match base64_decoded(value@) {
            Some(block) => match r {
                Some(a) => block_payload_artwork(block) == Some(artwork_model(a)),
                None => block_payload_artwork(block) is None,
            },
            None => r is None,
        },
{
    match base64_decode(value) {
        Some(block) => picture_block_artwork(&block),
        None => None,
    }
}

} // verus!
