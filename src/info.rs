//! The canonical tag model, and its mapping to and from the four native tag schemes.
//!
//! Each native scheme is read into, and written back from, a record of plain values
//! holding exactly the native fields the mapping reads. Fields the model does not cover
//! stay in the native tag untouched.
use vstd::prelude::*;
use crate::error::Error;
use crate::lyrics::Lyrics;
use crate::lyrics::lyric_lines;
use crate::pic::{
    artworks_model, block_artwork, block_payload_artwork, base64_decoded, blob_size,
    cover_artworks, front_covers, image_size_of, mime_of, Artwork, ImgFmt, Picture,
    picture_model, pictures_model, artwork_model, covers_in, lemma_covers_in_concat,
};
use crate::split::{generate_artist, is_plain_name, joined, lemma_split_joined, split_all, split_artist_to_string, split_artists_to_string, split_names};
use crate::text::{i32_to_string, lemma_i32_text_round_trip, i32_value, parse_i32, signed_decimal, str_eq, strings_view};

verus! {

/// The four tag containers.
#[derive(Debug, PartialEq, Eq, Clone, Copy, Structural)]
pub enum MusicFormat {
    M4a,
    Mp3,
    Flac,
    Ogg,
}

/// The characters of an optional string.
pub open spec fn opt_view(o: Option<String>) -> Option<Seq<char>> {
    match o {
        Some(s) => Some(s@),
        None => None,
    }
}

/// The first of a list of values, if any.
pub open spec fn first_of(v: Seq<Seq<char>>) -> Option<Seq<char>> {
    if v.len() > 0 {
        Some(v[0])
    } else {
        None
    }
}

/// A year read from text; text that is no `i32` gives none.
pub open spec fn year_of_text(t: Option<Seq<char>>) -> Option<i32> {
    match t {
        Some(s) => i32_value(s),
        None => None,
    }
}

/// What a tag holds, format-independent.
pub struct TagModel {
    pub path: Option<Seq<char>>,
    pub fmt: MusicFormat,
    pub title: Option<Seq<char>>,
    pub artists: Seq<Seq<char>>,
    pub album: Option<Seq<char>>,
    pub album_artists: Seq<Seq<char>>,
    pub year: Option<i32>,
    pub artworks: Seq<(usize, usize, Seq<u8>, ImgFmt)>,
    pub lyrics: Option<Seq<char>>,
}

/// The canonical tag: one model for every container format.
#[derive(Debug)]
pub struct MusicTag {
    path: Option<String>,
    fmt: MusicFormat,
    title: Option<String>,
    artists: Vec<String>,
    album: Option<String>,
    album_artists: Vec<String>,
    year: Option<i32>,
    artworks: Vec<Artwork>,
    lyrics: Option<String>,
}

impl View for MusicTag {
    type V = TagModel;

    closed spec fn view(&self) -> TagModel {
        TagModel {
            path: opt_view(self.path),
            fmt: self.fmt,
            title: opt_view(self.title),
            artists: strings_view(self.artists@),
            album: opt_view(self.album),
            album_artists: strings_view(self.album_artists@),
            year: self.year,
            artworks: artworks_model(self.artworks@),
            lyrics: opt_view(self.lyrics),
        }
    }
}

fn clone_opt(o: &Option<String>) -> (r: Option<String>)
    ensures
        opt_view(r) == opt_view(*o),
{
    match o {
        Some(s) => Some(s.clone()),
        None => None,
    }
}

fn clone_strings(v: &Vec<String>) -> (r: Vec<String>)
    ensures
        strings_view(r@) == strings_view(v@),
{
    let mut out: Vec<String> = Vec::new();
    let mut i: usize = 0;
    while i < v.len()
        invariant
            i <= v.len(),
            strings_view(out@) == strings_view(v@.subrange(0, i as int)),
        decreases v.len() - i,
    {
        out.push(v[i].clone());
        assert(strings_view(v@.subrange(0, i + 1)) =~= strings_view(v@.subrange(0, i as int)).push(v@[i as int]@));
        assert(strings_view(out@) =~= strings_view(v@.subrange(0, i as int)).push(v@[i as int]@));
        i = i + 1;
    }
    assert(v@.subrange(0, v@.len() as int) == v@);
    out
}

fn first_string(v: &Vec<String>) -> (r: Option<String>)
    ensures
        opt_view(r) == first_of(strings_view(v@)),
{
    if v.len() > 0 {
        Some(v[0].clone())
    } else {
        None
    }
}

/// A tag of the given format holding nothing.
pub open spec fn empty_model(fmt: MusicFormat) -> TagModel {
    TagModel {
        path: None,
        fmt,
        title: None,
        artists: Seq::empty(),
        album: None,
        album_artists: Seq::empty(),
        year: None,
        artworks: Seq::empty(),
        lyrics: None,
    }
}

/// A tag of the given format holding nothing.
pub fn default_info(fmt: MusicFormat) -> (r: MusicTag)
    ensures
        r@ == empty_model(fmt),
{
    let r = MusicTag {
        path: None,
        fmt,
        title: None,
        artists: Vec::new(),
        album: None,
        album_artists: Vec::new(),
        year: None,
        artworks: Vec::new(),
        lyrics: None,
    };
    assert(r@.artists =~= Seq::<Seq<char>>::empty());
    assert(r@.album_artists =~= Seq::<Seq<char>>::empty());
    assert(r@.artworks =~= Seq::<(usize, usize, Seq<u8>, ImgFmt)>::empty());
    r
}

/// The container format a file extension names: exactly `mp3`, `flac`, `m4a` or `ogg`.
pub open spec fn format_of_extension(ext: Seq<char>) -> Option<MusicFormat> {
    if ext == "mp3"@ {
        Some(MusicFormat::Mp3)
    } else if ext == "flac"@ {
        Some(MusicFormat::Flac)
    } else if ext == "m4a"@ {
        Some(MusicFormat::M4a)
    } else if ext == "ogg"@ {
        Some(MusicFormat::Ogg)
    } else {
        None
    }
}

impl MusicFormat {
    /// The format a file's extension names. An unknown extension fails with `FmtError`
    /// holding it; a missing one fails with `FmtError("Not Supported")`.
    pub fn from_extension(ext: Option<&str>) -> (r: Result<MusicFormat, Error>)
        ensures
            match ext {
                Some(e) => match format_of_extension(e@) {
                    Some(f) => r == Ok::<MusicFormat, Error>(f),
                    None => r matches Err(Error::FmtError(s)) && s@ == e@,
                },
                None => r matches Err(Error::FmtError(s)) && s@ == "Not Supported"@,
            },
    {
        match ext {
            Some(e) => {
                if str_eq(e, "mp3") {
                    Ok(MusicFormat::Mp3)
                } else if str_eq(e, "flac") {
                    Ok(MusicFormat::Flac)
                } else if str_eq(e, "m4a") {
                    Ok(MusicFormat::M4a)
                } else if str_eq(e, "ogg") {
                    Ok(MusicFormat::Ogg)
                } else {
                    Err(Error::FmtError(String::from_str(e)))
                }
            },
            None => Err(Error::FmtError(String::from_str("Not Supported"))),
        }
    }

    /// Whether a tag of this format can be written back: all but the probed container.
    pub fn check_writable(self) -> (r: Result<(), Error>)
        ensures
            r is Ok <==> self != MusicFormat::Ogg,
            r is Err ==> r matches Err(Error::NotSupportedError),
    {
        match self {
            MusicFormat::Ogg => Err(Error::NotSupportedError),
            _ => Ok(()),
        }
    }
}

/// The ID3 fields the mapping reads and writes.
#[derive(Debug, Clone)]
pub struct Id3Fields {
    pub title: Option<String>,
    pub album: Option<String>,
    /// The values of the artist frame; empty when there is none.
    pub artists: Vec<String>,
    pub album_artist: Option<String>,
    pub year: Option<i32>,
    /// The texts of the lyrics frames, in order.
    pub lyrics: Vec<String>,
    pub pictures: Vec<Picture>,
}

/// The FLAC fields the mapping reads and writes: the values of six Vorbis comments, and
/// the picture blocks.
#[derive(Debug, Clone)]
pub struct FlacFields {
    pub title: Vec<String>,
    pub album: Vec<String>,
    pub artist: Vec<String>,
    pub album_artist: Vec<String>,
    pub date: Vec<String>,
    pub lyrics: Vec<String>,
    pub pictures: Vec<Picture>,
}

/// An image of an M4A tag.
#[derive(Debug, Clone)]
pub struct M4aImage {
    pub png: bool,
    pub data: Vec<u8>,
}

/// The M4A fields the mapping reads and writes.
#[derive(Debug, Clone)]
pub struct M4aFields {
    pub title: Option<String>,
    pub album: Option<String>,
    pub artists: Vec<String>,
    pub album_artists: Vec<String>,
    pub year: Option<String>,
    pub lyrics: Option<String>,
    pub artworks: Vec<M4aImage>,
}

/// One metadata entry of a probed stream; `text` is none when the value is not a string.
#[derive(Debug, Clone)]
pub struct TagEntry {
    pub key: String,
    pub text: Option<String>,
}

/// The artworks of M4A images: those whose size can be read, PNG or else JPEG.
pub open spec fn m4a_artworks(imgs: Seq<M4aImage>) -> Seq<(usize, usize, Seq<u8>, ImgFmt)>
    decreases imgs.len(),
{
    if imgs.len() == 0 {
        Seq::empty()
    } else {
        let rest = m4a_artworks(imgs.drop_last());
        let im = imgs.last();
        match image_size_of(im.data@) {
            Some(size) => rest.push((size.0, size.1, im.data@, if im.png { ImgFmt::PNG } else { ImgFmt::JPEG })),
            None => rest,
        }
    }
}

/// The canonical tag an ID3 tag maps to.
pub open spec fn id3_model(f: Id3Fields, path: Option<Seq<char>>) -> TagModel {
    TagModel {
        path,
        fmt: MusicFormat::Mp3,
        title: opt_view(f.title),
        artists: split_all(strings_view(f.artists@)),
        album: opt_view(f.album),
        album_artists: match f.album_artist {
            Some(a) => split_names(a@),
            None => Seq::empty(),
        },
        year: f.year,
        artworks: front_covers(f.pictures@),
        lyrics: first_of(strings_view(f.lyrics@)),
    }
}

/// The canonical tag a FLAC tag maps to.
pub open spec fn flac_model(f: FlacFields, path: Option<Seq<char>>) -> TagModel {
    TagModel {
        path,
        fmt: MusicFormat::Flac,
        title: first_of(strings_view(f.title@)),
        artists: split_all(strings_view(f.artist@)),
        album: first_of(strings_view(f.album@)),
        album_artists: split_all(strings_view(f.album_artist@)),
        year: year_of_text(first_of(strings_view(f.date@))),
        artworks: front_covers(f.pictures@),
        lyrics: first_of(strings_view(f.lyrics@)),
    }
}

/// The canonical tag an M4A tag maps to.
pub open spec fn m4a_model(f: M4aFields, path: Option<Seq<char>>) -> TagModel {
    TagModel {
        path,
        fmt: MusicFormat::M4a,
        title: opt_view(f.title),
        artists: split_all(strings_view(f.artists@)),
        album: opt_view(f.album),
        album_artists: split_all(strings_view(f.album_artists@)),
        year: year_of_text(opt_view(f.year)),
        artworks: m4a_artworks(f.artworks@),
        lyrics: opt_view(f.lyrics),
    }
}

/// The canonical tag after one entry of a probed stream: the title, album, date and lyrics
/// entries replace, the artist entries add names, a picture block adds its artwork.
pub open spec fn ogg_step(m: TagModel, e: TagEntry) -> TagModel {
    match e.text {
        None => m,
        Some(v) => {
            let k = e.key@;
            if k == "TITLE"@ {
                TagModel { title: Some(v@), ..m }
            } else if k == "ALBUM"@ {
                TagModel { album: Some(v@), ..m }
            } else if k == "ALBUMARTIST"@ {
                TagModel { album_artists: m.album_artists + split_names(v@), ..m }
            } else if k == "ARTIST"@ {
                TagModel { artists: m.artists + split_names(v@), ..m }
            } else if k == "DATE"@ {
                TagModel { year: i32_value(v@), ..m }
            } else if k == "LYRICS"@ {
                TagModel { lyrics: Some(v@), ..m }
            } else if k == "METADATA_BLOCK_PICTURE"@ {
                match base64_decoded(v@) {
                    Some(block) => match block_payload_artwork(block) {
                        Some(a) => TagModel { artworks: m.artworks.push(a), ..m },
                        None => m,
                    },
                    None => m,
                }
            } else {
                m
            }
        },
    }
}

/// The canonical tag the entries of a probed stream map to, entry by entry.
pub open spec fn ogg_model(entries: Seq<TagEntry>, path: Option<Seq<char>>) -> TagModel
    decreases entries.len(),
{
    if entries.len() == 0 {
        TagModel { path, ..empty_model(MusicFormat::Ogg) }
    } else {
        ogg_step(ogg_model(entries.drop_last(), path), entries.last())
    }
}

fn m4a_artworks_of(imgs: &Vec<M4aImage>) -> (r: Vec<Artwork>)
    ensures
        artworks_model(r@) == m4a_artworks(imgs@),
{
    let mut out: Vec<Artwork> = Vec::new();
    let mut i: usize = 0;
    while i < imgs.len()
        invariant
            i <= imgs.len(),
            artworks_model(out@) == m4a_artworks(imgs@.subrange(0, i as int)),
        decreases imgs.len() - i,
    {
        let im = &imgs[i];
        let ghost before = out@;
        assert(imgs@.subrange(0, i + 1).drop_last() == imgs@.subrange(0, i as int));
        assert(imgs@.subrange(0, i + 1).last() == *im);
        let fmt = if im.png { ImgFmt::PNG } else { ImgFmt::JPEG };
        match blob_size(im.data.as_slice()) {
            Ok(size) => {
                out.push(Artwork { height: size.1, width: size.0, data: im.data.clone(), fmt });
                assert(artworks_model(out@) =~= artworks_model(before).push((size.0, size.1, im.data@, fmt)));
            },
            Err(_) => {},
        }
        i = i + 1;
    }
    assert(imgs@.subrange(0, imgs@.len() as int) == imgs@);
    out
}

fn year_from_text(t: &Option<String>) -> (r: Option<i32>)
    ensures
        r == year_of_text(opt_view(*t)),
{
    match t {
        Some(s) => parse_i32(s.as_str()),
        None => None,
    }
}

impl MusicTag {
    /// Maps an ID3 tag to the canonical model.
    pub fn from_id3(f: &Id3Fields, path: Option<String>) -> (r: MusicTag)
        ensures
            r@ == id3_model(*f, opt_view(path)),
    {
        let album_artists = match &f.album_artist {
            Some(a) => split_artist_to_string(a.as_str()),
            None => Vec::new(),
        };
        let r = MusicTag {
            path,
            fmt: MusicFormat::Mp3,
            title: clone_opt(&f.title),
            artists: split_artists_to_string(&f.artists),
            album: clone_opt(&f.album),
            album_artists,
            year: f.year,
            artworks: cover_artworks(&f.pictures),
            lyrics: first_string(&f.lyrics),
        };
        assert(r@.album_artists =~= id3_model(*f, opt_view(path)).album_artists);
        r
    }

    /// Maps a FLAC tag to the canonical model.
    pub fn from_flac(f: &FlacFields, path: Option<String>) -> (r: MusicTag)
        ensures
            r@ == flac_model(*f, opt_view(path)),
    {
        MusicTag {
            path,
            fmt: MusicFormat::Flac,
            title: first_string(&f.title),
            artists: split_artists_to_string(&f.artist),
            album: first_string(&f.album),
            album_artists: split_artists_to_string(&f.album_artist),
            year: year_from_text(&first_string(&f.date)),
            artworks: cover_artworks(&f.pictures),
            lyrics: first_string(&f.lyrics),
        }
    }

    /// Maps an M4A tag to the canonical model.
    pub fn from_m4a(f: &M4aFields, path: Option<String>) -> (r: MusicTag)
        ensures
            r@ == m4a_model(*f, opt_view(path)),
    {
        MusicTag {
            path,
            fmt: MusicFormat::M4a,
            title: clone_opt(&f.title),
            artists: split_artists_to_string(&f.artists),
            album: clone_opt(&f.album),
            album_artists: split_artists_to_string(&f.album_artists),
            year: year_from_text(&f.year),
            artworks: m4a_artworks_of(&f.artworks),
            lyrics: clone_opt(&f.lyrics),
        }
    }

    /// Maps the metadata entries of a probed stream to the canonical model.
    pub fn from_entries(entries: &Vec<TagEntry>, path: Option<String>) -> (r: MusicTag)
        ensures
            r@ == ogg_model(entries@, opt_view(path)),
    {
        let ghost p = opt_view(path);
        let mut info = default_info(MusicFormat::Ogg);
        info.path = path;
        let mut i: usize = 0;
        assert(entries@.subrange(0, 0) =~= Seq::<TagEntry>::empty());
        assert(info@ == ogg_model(entries@.subrange(0, 0), p));
        while i < entries.len()
            invariant
                i <= entries.len(),
                info@ == ogg_model(entries@.subrange(0, i as int), p),
            decreases entries.len() - i,
        {
            let e = &entries[i];
            assert(entries@.subrange(0, i + 1).drop_last() == entries@.subrange(0, i as int));
            assert(entries@.subrange(0, i + 1).last() == *e);
            let ghost m = info@;
            match &e.text {
                None => {},
                Some(v) => {
                    let k = e.key.as_str();
                    if str_eq(k, "TITLE") {
                        info.title = Some(v.clone());
                    } else if str_eq(k, "ALBUM") {
                        info.album = Some(v.clone());
                    } else if str_eq(k, "ALBUMARTIST") {
                        let mut names = split_artist_to_string(v.as_str());
                        info.album_artists.append(&mut names);
                        assert(info@.album_artists =~= m.album_artists + split_names(v@));
                    } else if str_eq(k, "ARTIST") {
                        let mut names = split_artist_to_string(v.as_str());
                        info.artists.append(&mut names);
                        assert(info@.artists =~= m.artists + split_names(v@));
                    } else if str_eq(k, "DATE") {
                        info.year = parse_i32(v.as_str());
                    } else if str_eq(k, "LYRICS") {
                        info.lyrics = Some(v.clone());
                    } else if str_eq(k, "METADATA_BLOCK_PICTURE") {
                        match block_artwork(v.as_str()) {
                            Some(a) => {
                                info.artworks.push(a);
                                assert(info@.artworks =~= m.artworks.push(artwork_model(a)));
                            },
                            None => {},
                        }
                    }
                },
            }
            assert(info@ == ogg_step(m, *e));
            i = i + 1;
        }
        assert(entries@.subrange(0, entries@.len() as int) == entries@);
        info
    }
}


/// The pictures that are not front covers, in order.
pub open spec fn other_pictures(ms: Seq<(bool, Seq<char>, Seq<u8>)>) -> Seq<(bool, Seq<char>, Seq<u8>)>
    decreases ms.len(),
{
    if ms.len() == 0 {
        Seq::empty()
    } else {
        let r = other_pictures(ms.drop_last());
        if ms.last().0 {
            r
        } else {
            r.push(ms.last())
        }
    }
}

/// One front-cover picture per artwork, with the MIME type of its format.
pub open spec fn cover_pictures(arts: Seq<(usize, usize, Seq<u8>, ImgFmt)>) -> Seq<(bool, Seq<char>, Seq<u8>)> {
    arts.map_values(|a: (usize, usize, Seq<u8>, ImgFmt)| (true, mime_of(a.3), a.2))
}

/// A list of names written as one value, or no value when there are none.
pub open spec fn joined_value(names: Seq<Seq<char>>) -> Seq<Seq<char>> {
    if names.len() == 0 {
        Seq::empty()
    } else {
        seq![joined(names)]
    }
}

/// An optional value as a list of at most one.
pub open spec fn opt_list(o: Option<Seq<char>>) -> Seq<Seq<char>> {
    match o {
        Some(v) => seq![v],
        None => Seq::empty(),
    }
}

/// A year as the text written for it.
pub open spec fn year_text(y: Option<i32>) -> Option<Seq<char>> {
    match y {
        Some(v) => Some(signed_decimal(v as int)),
        None => None,
    }
}

/// `r` is the ID3 tag `base` once the canonical tag `t` is written into it.
pub open spec fn id3_written(t: TagModel, base: Id3Fields, r: Id3Fields) -> bool {
    &&& opt_view(r.title) == t.title
    &&& opt_view(r.album) == t.album
    &&& r.year == t.year
    &&& strings_view(r.artists@) == joined_value(t.artists)
    &&& opt_view(r.album_artist) == first_of(joined_value(t.album_artists))
    &&& strings_view(r.lyrics@) == opt_list(t.lyrics)
    &&& pictures_model(r.pictures@) == other_pictures(pictures_model(base.pictures@)) + cover_pictures(t.artworks)
}

/// `r` is the FLAC tag `base` once the canonical tag `t` is written into it.
pub open spec fn flac_written(t: TagModel, base: FlacFields, r: FlacFields) -> bool {
    &&& strings_view(r.title@) == opt_list(t.title)
    &&& strings_view(r.album@) == opt_list(t.album)
    &&& strings_view(r.lyrics@) == opt_list(t.lyrics)
    &&& strings_view(r.artist@) == joined_value(t.artists)
    &&& strings_view(r.album_artist@) == joined_value(t.album_artists)
    &&& strings_view(r.date@) == opt_list(year_text(t.year))
    &&& pictures_model(r.pictures@) == other_pictures(pictures_model(base.pictures@)) + cover_pictures(t.artworks)
}

/// What an M4A image holds: (PNG or not, bytes).
pub open spec fn m4a_images_model(v: Seq<M4aImage>) -> Seq<(bool, Seq<u8>)> {
    v.map_values(|im: M4aImage| (im.png, im.data@))
}

/// `r` is the M4A tag `base` once the canonical tag `t` is written into it; its lyrics stay.
pub open spec fn m4a_written(t: TagModel, base: M4aFields, r: M4aFields) -> bool {
    &&& opt_view(r.title) == t.title
    &&& opt_view(r.album) == t.album
    &&& opt_view(r.year) == year_text(t.year)
    &&& strings_view(r.artists@) == t.artists
    &&& strings_view(r.album_artists@) == t.album_artists
    &&& opt_view(r.lyrics) == opt_view(base.lyrics)
    &&& m4a_images_model(r.artworks@) == t.artworks.map_values(
        |a: (usize, usize, Seq<u8>, ImgFmt)| (a.3 == ImgFmt::PNG, a.2),
    )
}

fn other_pictures_of(pics: &Vec<Picture>) -> (r: Vec<Picture>)
    ensures
        pictures_model(r@) == other_pictures(pictures_model(pics@)),
{
    let mut out: Vec<Picture> = Vec::new();
    let mut i: usize = 0;
    while i < pics.len()
        invariant
            i <= pics.len(),
            pictures_model(out@) == other_pictures(pictures_model(pics@.subrange(0, i as int))),
        decreases pics.len() - i,
    {
        let p = &pics[i];
        let ghost before = out@;
        assert(pictures_model(pics@.subrange(0, i + 1)).drop_last() == pictures_model(pics@.subrange(0, i as int)));
        assert(pictures_model(pics@.subrange(0, i + 1)).last() == picture_model(*p));
        if !p.cover_front {
            out.push(Picture { cover_front: p.cover_front, mime_type: p.mime_type.clone(), data: p.data.clone() });
            assert(pictures_model(out@) =~= pictures_model(before).push(picture_model(*p)));
        }
        i = i + 1;
    }
    assert(pics@.subrange(0, pics@.len() as int) == pics@);
    out
}

fn cover_pictures_of(arts: &Vec<Artwork>) -> (r: Vec<Picture>)
    ensures
        pictures_model(r@) == cover_pictures(artworks_model(arts@)),
{
    let mut out: Vec<Picture> = Vec::new();
    let mut i: usize = 0;
    while i < arts.len()
        invariant
            i <= arts.len(),
            pictures_model(out@) == cover_pictures(artworks_model(arts@.subrange(0, i as int))),
        decreases arts.len() - i,
    {
        let a = &arts[i];
        let ghost before = out@;
        out.push(Picture { cover_front: true, mime_type: String::from_str(a.mime_type()), data: a.data.clone() });
        assert(cover_pictures(artworks_model(arts@.subrange(0, i + 1))) =~= cover_pictures(
            artworks_model(arts@.subrange(0, i as int)),
        ).push((true, mime_of(a.fmt), a.data@)));
        assert(pictures_model(out@) =~= pictures_model(before).push((true, mime_of(a.fmt), a.data@)));
        i = i + 1;
    }
    assert(arts@.subrange(0, arts@.len() as int) == arts@);
    out
}

fn joined_list(names: &Vec<String>) -> (r: Vec<String>)
    ensures
        strings_view(r@) == joined_value(strings_view(names@)),
{
    let mut out: Vec<String> = Vec::new();
    if names.len() > 0 {
        out.push(generate_artist(names));
        assert(strings_view(out@) =~= joined_value(strings_view(names@)));
    } else {
        assert(strings_view(out@) =~= joined_value(strings_view(names@)));
    }
    out
}

fn opt_to_list(o: &Option<String>) -> (r: Vec<String>)
    ensures
        strings_view(r@) == opt_list(opt_view(*o)),
{
    let mut out: Vec<String> = Vec::new();
    match o {
        Some(v) => {
            out.push(v.clone());
        },
        None => {},
    }
    assert(strings_view(out@) =~= opt_list(opt_view(*o)));
    out
}

fn year_to_text(y: Option<i32>) -> (r: Option<String>)
    ensures
        opt_view(r) == year_text(y),
{
    match y {
        Some(v) => Some(i32_to_string(v)),
        None => None,
    }
}

impl MusicTag {
    /// Writes this tag into an ID3 tag: every mapped field is cleared and then set from
    /// this tag when it has a value; artists are joined with `/`; the front covers are
    /// replaced by this tag's artworks; other pictures stay.
    pub fn to_id3(&self, base: &Id3Fields) -> (r: Id3Fields)
        ensures
            id3_written(self@, *base, r),
    {
        let mut pictures = other_pictures_of(&base.pictures);
        let mut covers = cover_pictures_of(&self.artworks);
        let ghost others = pictures@;
        pictures.append(&mut covers);
        assert(pictures_model(pictures@) =~= pictures_model(others) + cover_pictures(self@.artworks));
        let album_artist = if self.album_artists.len() > 0 {
            Some(generate_artist(&self.album_artists))
        } else {
            None
        };
        let r = Id3Fields {
            title: clone_opt(&self.title),
            album: clone_opt(&self.album),
            artists: joined_list(&self.artists),
            album_artist,
            year: self.year,
            lyrics: opt_to_list(&self.lyrics),
            pictures,
        };
        assert(opt_view(r.album_artist) == first_of(joined_value(self@.album_artists)));
        r
    }

    /// Writes this tag into a FLAC tag, as `to_id3` does; the year is written as text.
    pub fn to_flac(&self, base: &FlacFields) -> (r: FlacFields)
        ensures
            flac_written(self@, *base, r),
    {
        let mut pictures = other_pictures_of(&base.pictures);
        let mut covers = cover_pictures_of(&self.artworks);
        let ghost others = pictures@;
        pictures.append(&mut covers);
        assert(pictures_model(pictures@) =~= pictures_model(others) + cover_pictures(self@.artworks));
        FlacFields {
            title: opt_to_list(&self.title),
            album: opt_to_list(&self.album),
            artist: joined_list(&self.artists),
            album_artist: joined_list(&self.album_artists),
            date: opt_to_list(&year_to_text(self.year)),
            lyrics: opt_to_list(&self.lyrics),
            pictures,
        }
    }

    /// Writes this tag into an M4A tag: artists and album artists as lists of values, all
    /// images replaced by this tag's artworks; the lyrics stay as they were.
    pub fn to_m4a(&self, base: &M4aFields) -> (r: M4aFields)
        ensures
            m4a_written(self@, *base, r),
    {
        let mut images: Vec<M4aImage> = Vec::new();
        let mut i: usize = 0;
        while i < self.artworks.len()
            invariant
                i <= self.artworks.len(),
                m4a_images_model(images@) == artworks_model(self.artworks@.subrange(0, i as int)).map_values(
                    |a: (usize, usize, Seq<u8>, ImgFmt)| (a.3 == ImgFmt::PNG, a.2),
                ),
            decreases self.artworks.len() - i,
        {
            let a = &self.artworks[i];
            let ghost before = images@;
            let png = match a.fmt {
                ImgFmt::PNG => true,
                ImgFmt::JPEG => false,
            };
            images.push(M4aImage { png, data: a.data.clone() });
            assert(m4a_images_model(images@) =~= m4a_images_model(before).push((png, a.data@)));
            assert(artworks_model(self.artworks@.subrange(0, i + 1)).map_values(
                |a: (usize, usize, Seq<u8>, ImgFmt)| (a.3 == ImgFmt::PNG, a.2),
            ) =~= artworks_model(self.artworks@.subrange(0, i as int)).map_values(
                |a: (usize, usize, Seq<u8>, ImgFmt)| (a.3 == ImgFmt::PNG, a.2),
            ).push((png, a.data@)));
            i = i + 1;
        }
        assert(self.artworks@.subrange(0, self.artworks@.len() as int) == self.artworks@);
        M4aFields {
            title: clone_opt(&self.title),
            album: clone_opt(&self.album),
            artists: clone_strings(&self.artists),
            album_artists: clone_strings(&self.album_artists),
            year: year_to_text(self.year),
            lyrics: clone_opt(&base.lyrics),
            artworks: images,
        }
    }
}


proof fn lemma_no_covers_among_others(ms: Seq<(bool, Seq<char>, Seq<u8>)>)
    ensures
        covers_in(other_pictures(ms)) == Seq::<(usize, usize, Seq<u8>, ImgFmt)>::empty(),
    decreases ms.len(),
{
    if ms.len() > 0 {
        lemma_no_covers_among_others(ms.drop_last());
        let o = other_pictures(ms.drop_last());
        if !ms.last().0 {
            assert(o.push(ms.last()).drop_last() == o);
            assert(o.push(ms.last()).last() == ms.last());
        }
    } else {
        assert(covers_in(other_pictures(ms)) =~= Seq::<(usize, usize, Seq<u8>, ImgFmt)>::empty());
    }
}

proof fn lemma_covers_kept(arts: Seq<(usize, usize, Seq<u8>, ImgFmt)>)
    requires
        forall|i: int| 0 <= i < arts.len() ==> (#[trigger] image_size_of(arts[i].2)) is Some,
    ensures
        covers_in(cover_pictures(arts)).len() == arts.len(),
    decreases arts.len(),
{
    if arts.len() > 0 {
        let init = arts.drop_last();
        assert forall|i: int| 0 <= i < init.len() implies (#[trigger] image_size_of(init[i].2)) is Some by {
            assert(init[i] == arts[i]);
        }
        lemma_covers_kept(init);
        assert(cover_pictures(arts).drop_last() =~= cover_pictures(init));
        assert(image_size_of(arts[arts.len() - 1].2) is Some);
    }
}

proof fn lemma_written_covers(base: Seq<(bool, Seq<char>, Seq<u8>)>, arts: Seq<(usize, usize, Seq<u8>, ImgFmt)>)
    requires
        forall|i: int| 0 <= i < arts.len() ==> (#[trigger] image_size_of(arts[i].2)) is Some,
    ensures
        covers_in(other_pictures(base) + cover_pictures(arts)).len() == arts.len(),
{
    lemma_covers_in_concat(other_pictures(base), cover_pictures(arts));
    lemma_no_covers_among_others(base);
    lemma_covers_kept(arts);
}

proof fn lemma_split_joined_value(names: Seq<Seq<char>>)
    requires
        forall|i: int| 0 <= i < names.len() ==> is_plain_name(#[trigger] names[i]),
    ensures
        split_all(joined_value(names)) == names,
        (match first_of(joined_value(names)) {
            Some(a) => split_names(a),
            None => Seq::empty(),
        }) == names,
{
    let e = Seq::<Seq<char>>::empty();
    if names.len() == 0 {
        assert(names =~= e);
    } else {
        lemma_split_joined(names);
        let v = seq![joined(names)];
        assert(v.drop_last() =~= e);
        assert(v.last() == joined(names));
        assert(split_all(e) == e);
        assert(split_all(v) =~= split_names(joined(names)));
    }
}

/// Writing a canonical tag into an ID3 tag and reading it back keeps the title, album, year
/// and lyrics, and as many artworks as were written when each one's size can be read; the
/// artists come back too when each is a plain name.
pub proof fn lemma_id3_round_trip(t: TagModel, base: Id3Fields, r: Id3Fields, path: Option<Seq<char>>)
    requires
        id3_written(t, base, r),
        forall|i: int| 0 <= i < t.artworks.len() ==> (#[trigger] image_size_of(t.artworks[i].2)) is Some,
    ensures
        id3_model(r, path).title == t.title,
        id3_model(r, path).album == t.album,
        id3_model(r, path).year == t.year,
        id3_model(r, path).lyrics == t.lyrics,
        id3_model(r, path).artworks.len() == t.artworks.len(),
        (forall|i: int| 0 <= i < t.artists.len() ==> is_plain_name(#[trigger] t.artists[i]))
            ==> id3_model(r, path).artists == t.artists,
        (forall|i: int| 0 <= i < t.album_artists.len() ==> is_plain_name(#[trigger] t.album_artists[i]))
            ==> id3_model(r, path).album_artists == t.album_artists,
{
    lemma_written_covers(pictures_model(base.pictures@), t.artworks);
    if forall|i: int| 0 <= i < t.artists.len() ==> is_plain_name(#[trigger] t.artists[i]) {
        lemma_split_joined_value(t.artists);
    }
    if forall|i: int| 0 <= i < t.album_artists.len() ==> is_plain_name(#[trigger] t.album_artists[i]) {
        lemma_split_joined_value(t.album_artists);
    }
}

/// Writing a canonical tag into a FLAC tag and reading it back keeps the title, album, year
/// and lyrics, and as many artworks as were written when each one's size can be read; the
/// artists come back too when each is a plain name.
pub proof fn lemma_flac_round_trip(t: TagModel, base: FlacFields, r: FlacFields, path: Option<Seq<char>>)
    requires
        flac_written(t, base, r),
        forall|i: int| 0 <= i < t.artworks.len() ==> (#[trigger] image_size_of(t.artworks[i].2)) is Some,
    ensures
        flac_model(r, path).title == t.title,
        flac_model(r, path).album == t.album,
        flac_model(r, path).year == t.year,
        flac_model(r, path).lyrics == t.lyrics,
        flac_model(r, path).artworks.len() == t.artworks.len(),
        (forall|i: int| 0 <= i < t.artists.len() ==> is_plain_name(#[trigger] t.artists[i]))
            ==> flac_model(r, path).artists == t.artists,
        (forall|i: int| 0 <= i < t.album_artists.len() ==> is_plain_name(#[trigger] t.album_artists[i]))
            ==> flac_model(r, path).album_artists == t.album_artists,
{
    lemma_written_covers(pictures_model(base.pictures@), t.artworks);
    if let Some(y) = t.year {
        lemma_i32_text_round_trip(y);
    }
    if forall|i: int| 0 <= i < t.artists.len() ==> is_plain_name(#[trigger] t.artists[i]) {
        lemma_split_joined_value(t.artists);
    }
    if forall|i: int| 0 <= i < t.album_artists.len() ==> is_plain_name(#[trigger] t.album_artists[i]) {
        lemma_split_joined_value(t.album_artists);
    }
}

proof fn lemma_m4a_artworks_kept(imgs: Seq<M4aImage>, arts: Seq<(usize, usize, Seq<u8>, ImgFmt)>)
    requires
        m4a_images_model(imgs) == arts.map_values(|a: (usize, usize, Seq<u8>, ImgFmt)| (a.3 == ImgFmt::PNG, a.2)),
        forall|i: int| 0 <= i < arts.len() ==> (#[trigger] image_size_of(arts[i].2)) is Some,
    ensures
        m4a_artworks(imgs).len() == arts.len(),
    decreases imgs.len(),
{
    assert(m4a_images_model(imgs).len() == imgs.len());
    if imgs.len() > 0 {
        let init = arts.drop_last();
        assert forall|i: int| 0 <= i < init.len() implies (#[trigger] image_size_of(init[i].2)) is Some by {
            assert(init[i] == arts[i]);
        }
        assert forall|j: int| 0 <= j < init.len() implies m4a_images_model(imgs.drop_last())[j] == (
            init[j].3 == ImgFmt::PNG,
            init[j].2,
        ) by {
            assert(m4a_images_model(imgs)[j] == (imgs[j].png, imgs[j].data@));
            assert(init[j] == arts[j]);
        }
        assert(m4a_images_model(imgs.drop_last()) =~= init.map_values(
            |a: (usize, usize, Seq<u8>, ImgFmt)| (a.3 == ImgFmt::PNG, a.2),
        ));
        lemma_m4a_artworks_kept(imgs.drop_last(), init);
        let k = imgs.len() - 1;
        assert(m4a_images_model(imgs)[k] == (imgs[k].png, imgs[k].data@));
        assert(imgs[k].data@ == arts[k].2);
        assert(image_size_of(arts[k].2) is Some);
    }
}

/// Writing a canonical tag into an M4A tag and reading it back keeps the title, album and
/// year, and as many artworks as were written when each one's size can be read.
pub proof fn lemma_m4a_round_trip(t: TagModel, base: M4aFields, r: M4aFields, path: Option<Seq<char>>)
    requires
        m4a_written(t, base, r),
        forall|i: int| 0 <= i < t.artworks.len() ==> (#[trigger] image_size_of(t.artworks[i].2)) is Some,
    ensures
        m4a_model(r, path).title == t.title,
        m4a_model(r, path).album == t.album,
        m4a_model(r, path).year == t.year,
        m4a_model(r, path).artworks.len() == t.artworks.len(),
{
    lemma_m4a_artworks_kept(r.artworks@, t.artworks);
    if let Some(y) = t.year {
        lemma_i32_text_round_trip(y);
    }
}


impl MusicTag {
    pub fn as_path(&self) -> (r: Option<&str>)
        ensures
            match r {
                Some(p) => self@.path == Some(p@),
                None => self@.path is None,
            },
    {
        match &self.path {
            Some(p) => Some(p.as_str()),
            None => None,
        }
    }

    pub fn fmt(&self) -> (r: MusicFormat)
        ensures
            r == self@.fmt,
    {
        self.fmt
    }

    pub fn title(&self) -> (r: Option<&str>)
        ensures
            match r {
                Some(t) => self@.title == Some(t@),
                None => self@.title is None,
            },
    {
        match &self.title {
            Some(t) => Some(t.as_str()),
            None => None,
        }
    }

    pub fn set_title(&mut self, title: &str)
        ensures
            final(self)@ == (TagModel { title: Some(title@), ..old(self)@ }),
    {
        self.title = Some(String::from_str(title));
    }

    /// The primary artist: the first of the list.
    pub fn artist(&self) -> (r: Option<&str>)
        ensures
            match r {
                Some(a) => self@.artists.len() > 0 && a@ == self@.artists[0],
                None => self@.artists.len() == 0,
            },
    {
        if self.artists.len() > 0 {
            Some(self.artists[0].as_str())
        } else {
            None
        }
    }

    pub fn artists(&self) -> (r: &Vec<String>)
        ensures
            strings_view(r@) == self@.artists,
    {
        &self.artists
    }

    pub fn set_artists(&mut self, artists: Vec<String>)
        ensures
            final(self)@ == (TagModel { artists: strings_view(artists@), ..old(self)@ }),
    {
        self.artists = artists;
    }

    pub fn album(&self) -> (r: Option<&str>)
        ensures
            match r {
                Some(t) => self@.album == Some(t@),
                None => self@.album is None,
            },
    {
        match &self.album {
            Some(t) => Some(t.as_str()),
            None => None,
        }
    }

    pub fn set_album(&mut self, album: &str)
        ensures
            final(self)@ == (TagModel { album: Some(album@), ..old(self)@ }),
    {
        self.album = Some(String::from_str(album));
    }

    /// The first album artist.
    pub fn album_artist(&self) -> (r: Option<&str>)
        ensures
            match r {
                Some(a) => self@.album_artists.len() > 0 && a@ == self@.album_artists[0],
                None => self@.album_artists.len() == 0,
            },
    {
        if self.album_artists.len() > 0 {
            Some(self.album_artists[0].as_str())
        } else {
            None
        }
    }

    pub fn album_artists(&self) -> (r: &Vec<String>)
        ensures
            strings_view(r@) == self@.album_artists,
    {
        &self.album_artists
    }

    pub fn set_album_artists(&mut self, album_artists: Vec<String>)
        ensures
            final(self)@ == (TagModel { album_artists: strings_view(album_artists@), ..old(self)@ }),
    {
        self.album_artists = album_artists;
    }

    pub fn year(&self) -> (r: Option<i32>)
        ensures
            r == self@.year,
    {
        self.year
    }

    pub fn set_year(&mut self, year: i32)
        ensures
            final(self)@ == (TagModel { year: Some(year), ..old(self)@ }),
    {
        self.year = Some(year);
    }

    /// The lyrics as lines, when the tag has any.
    pub fn lyrics(&self) -> (r: Option<Lyrics>)
        ensures
            match self@.lyrics {
                Some(l) => r matches Some(x) && x.view() == lyric_lines(l),
                None => r is None,
            },
    {
        match &self.lyrics {
            Some(l) => Some(Lyrics::from(l.as_str())),
            None => None,
        }
    }

    /// The first artwork.
    pub fn artwork(&self) -> (r: Option<&Artwork>)
        ensures
            match r {
                Some(a) => self@.artworks.len() > 0 && artwork_model(*a) == self@.artworks[0],
                None => self@.artworks.len() == 0,
            },
    {
        if self.artworks.len() > 0 {
            Some(&self.artworks[0])
        } else {
            None
        }
    }

    pub fn artworks(&self) -> (r: &Vec<Artwork>)
        ensures
            artworks_model(r@) == self@.artworks,
    {
        &self.artworks
    }

    pub fn add_artwork(&mut self, artwork: Artwork)
        ensures
            final(self)@ == (TagModel { artworks: old(self)@.artworks.push(artwork_model(artwork)), ..old(self)@ }),
    {
        let ghost before = self@;
        self.artworks.push(artwork);
        assert(self@.artworks =~= before.artworks.push(artwork_model(artwork)));
    }

    /// Replaces the artworks by the given images, each with the size read from its bytes.
    /// When some image's size cannot be read, fails with `ImageError` and changes nothing.
    pub fn set_artworks(&mut self, artworks: Vec<(Vec<u8>, ImgFmt)>) -> (r: Result<(), Error>)
        ensures
            (forall|i: int| 0 <= i < artworks@.len() ==> (#[trigger] image_size_of(artworks@[i].0@)) is Some)
                <==> r is Ok,
            r is Ok ==> final(self)@ == (TagModel { artworks: sized_artworks(artworks@), ..old(self)@ }),
            r is Err ==> final(self)@ == old(self)@ && r matches Err(Error::ImageError(_)),
    {
        let mut pics: Vec<Artwork> = Vec::new();
        let mut i: usize = 0;
        while i < artworks.len()
            invariant
                i <= artworks.len(),
                forall|j: int| 0 <= j < i ==> (#[trigger] image_size_of(artworks@[j].0@)) is Some,
                artworks_model(pics@) == sized_artworks(artworks@.subrange(0, i as int)),
            decreases artworks.len() - i,
        {
            let (data, fmt) = &artworks[i];
            let ghost before = pics@;
            match blob_size(data.as_slice()) {
                Ok(size) => {
                    pics.push(Artwork { height: size.1, width: size.0, data: data.clone(), fmt: *fmt });
                    proof {
                        let s = artworks@.subrange(0, i + 1);
                        assert(s.drop_last() == artworks@.subrange(0, i as int));
                        assert(s.last() == artworks@[i as int]);
                        assert(artworks_model(pics@) =~= artworks_model(before).push((size.0, size.1, data@, *fmt)));
                    }
                },
                Err(e) => {
                    return Err(Error::ImageError(e));
                },
            }
            i = i + 1;
        }
        assert(artworks@.subrange(0, artworks@.len() as int) == artworks@);
        let ghost before = self@;
        self.artworks = pics;
        assert(self@ == (TagModel { artworks: sized_artworks(artworks@), ..before }));
        Ok(())
    }
}

/// Images with the sizes read from their bytes; meaningful when every size can be read.
pub open spec fn sized_artworks(v: Seq<(Vec<u8>, ImgFmt)>) -> Seq<(usize, usize, Seq<u8>, ImgFmt)>
    decreases v.len(),
{
    if v.len() == 0 {
        Seq::empty()
    } else {
        let rest = sized_artworks(v.drop_last());
        let (data, fmt) = v.last();
        match image_size_of(data@) {
            Some(size) => rest.push((size.0, size.1, data@, fmt)),
            None => rest,
        }
    }
}

} // verus!
