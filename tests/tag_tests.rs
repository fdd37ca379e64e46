use base64::Engine;
use music_tag::info::{FlacFields, Id3Fields, M4aFields, M4aImage, TagEntry};
use music_tag::pic::{block_artwork, cover_artworks, picture_block_artwork, Picture};
use music_tag::{Artwork, AudioReader, Error, ImgFmt, MusicFormat, MusicTag, SeekPos};

/// A PNG header for a 123 x 321 image.
fn png() -> Vec<u8> {
    vec![
        0x89, 0x50, 0x4E, 0x47, 0x0D, 0x0A, 0x1A, 0x0A, 0x00, 0x00, 0x00, 0x0D, 0x49, 0x48, 0x44,
        0x52, 0x00, 0x00, 0x00, 0x7B, 0x00, 0x00, 0x01, 0x41, 0x08, 0x06, 0x00, 0x00, 0x00, 0x9A,
        0x38, 0xC4,
    ]
}

fn pic(front: bool, mime: &str, data: Vec<u8>) -> Picture {
    Picture { cover_front: front, mime_type: mime.to_string(), data }
}

fn strings(v: &[&str]) -> Vec<String> {
    v.iter().map(|s| s.to_string()).collect()
}

#[test]
fn mime_mapping() {
    assert_eq!(ImgFmt::from_mime("image/png"), ImgFmt::PNG);
    assert_eq!(ImgFmt::from_mime("image/gif"), ImgFmt::JPEG);
    let a = Artwork { height: 1, width: 1, data: vec![], fmt: ImgFmt::PNG };
    assert_eq!(a.mime_type(), "image/png");
    let a = Artwork { height: 1, width: 1, data: vec![], fmt: ImgFmt::JPEG };
    assert_eq!(a.mime_type(), "image/jpeg");
}

#[test]
fn only_front_covers_kept() {
    let pics = vec![
        pic(false, "image/png", png()),
        pic(true, "image/png", png()),
        pic(true, "image/png", vec![1, 2, 3]),
    ];
    let arts = cover_artworks(&pics);
    assert_eq!(arts.len(), 1);
    assert_eq!((arts[0].width, arts[0].height), (123, 321));
    assert_eq!(arts[0].fmt, ImgFmt::PNG);
}

#[test]
fn picture_block_offsets() {
    let mut block = vec![0u8; 42];
    block.extend(png());
    let a = picture_block_artwork(&block).unwrap();
    assert_eq!((a.width, a.height, a.data.len()), (123, 321, 32));
    let mut block = vec![0u8; 41];
    block.extend(png());
    let a = picture_block_artwork(&block).unwrap();
    assert_eq!(a.data, png());
    assert!(picture_block_artwork(&vec![0u8; 10]).is_none());
    let text = base64::prelude::BASE64_STANDARD.encode(&block);
    assert_eq!(block_artwork(&text).unwrap().data, png());
    assert!(block_artwork("not base64!").is_none());
}

#[test]
fn extension_detection() {
    assert_eq!(MusicFormat::from_extension(Some("mp3")).unwrap(), MusicFormat::Mp3);
    assert_eq!(MusicFormat::from_extension(Some("ogg")).unwrap(), MusicFormat::Ogg);
    match MusicFormat::from_extension(Some("wav")) {
        Err(Error::FmtError(e)) => assert_eq!(e, "wav"),
        other => panic!("unexpected {:?}", other),
    }
    match MusicFormat::from_extension(Some("MP3")) {
        Err(Error::FmtError(e)) => assert_eq!(e, "MP3"),
        other => panic!("unexpected {:?}", other),
    }
    match MusicFormat::from_extension(None) {
        Err(Error::FmtError(e)) => assert_eq!(e, "Not Supported"),
        other => panic!("unexpected {:?}", other),
    }
    assert!(matches!(MusicFormat::Ogg.check_writable(), Err(Error::NotSupportedError)));
    assert!(MusicFormat::Flac.check_writable().is_ok());
}

fn id3_base() -> Id3Fields {
    Id3Fields {
        title: Some("Old".into()),
        album: None,
        artists: strings(&["A & B/C", "D"]),
        album_artist: Some("E/F".into()),
        year: Some(1999),
        lyrics: strings(&["first", "second"]),
        pictures: vec![pic(false, "image/png", png()), pic(true, "image/jpeg", png())],
    }
}

#[test]
fn id3_decode() {
    let t = MusicTag::from_id3(&id3_base(), Some("x.mp3".into()));
    assert_eq!(t.fmt(), MusicFormat::Mp3);
    assert_eq!(t.as_path(), Some("x.mp3"));
    assert_eq!(t.title(), Some("Old"));
    assert_eq!(t.artists(), &strings(&["A", "B", "C", "D"]));
    assert_eq!(t.artist(), Some("A"));
    assert_eq!(t.album_artists(), &strings(&["E", "F"]));
    assert_eq!(t.album_artist(), Some("E"));
    assert_eq!(t.year(), Some(1999));
    assert_eq!(t.lyrics().unwrap().lines(), &strings(&["first"]));
    assert_eq!(t.artworks().len(), 1);
    assert_eq!(t.artwork().unwrap().fmt, ImgFmt::JPEG);
}

#[test]
fn id3_round_trip() {
    let base = id3_base();
    let mut t = MusicTag::from_id3(&base, None);
    t.set_title("New");
    t.set_artists(strings(&["Solo"]));
    t.set_album_artists(strings(&["Band"]));
    t.set_year(2024);
    t.set_artworks(vec![(png(), ImgFmt::PNG)]).unwrap();
    let written = t.to_id3(&base);
    assert_eq!(written.artists, strings(&["Solo/"]));
    assert_eq!(written.album_artist, Some("Band/".to_string()));
    assert_eq!(written.pictures.len(), 2);
    assert!(!written.pictures[0].cover_front);
    assert_eq!(written.pictures[1].mime_type, "image/png");
    let back = MusicTag::from_id3(&written, None);
    assert_eq!(back.title(), Some("New"));
    assert_eq!(back.year(), Some(2024));
    assert_eq!(back.artworks().len(), 1);
    assert_eq!(back.artists(), &strings(&["Solo"]));
    assert_eq!(back.album_artists(), &strings(&["Band"]));
}

#[test]
fn id3_cleared_fields_removed() {
    let base = id3_base();
    let t = music_tag::info::default_info(MusicFormat::Mp3);
    let written = t.to_id3(&base);
    assert_eq!(written.title, None);
    assert_eq!(written.year, None);
    assert!(written.artists.is_empty());
    assert_eq!(written.album_artist, None);
    assert!(written.lyrics.is_empty());
    assert_eq!(written.pictures.len(), 1);
}

#[test]
fn flac_round_trip() {
    let base = FlacFields {
        title: strings(&["T"]),
        album: strings(&["Al"]),
        artist: strings(&["A/B", "C"]),
        album_artist: vec![],
        date: strings(&["not a year"]),
        lyrics: vec![],
        pictures: vec![pic(true, "image/png", png())],
    };
    let mut t = MusicTag::from_flac(&base, None);
    assert_eq!(t.artists(), &strings(&["A", "B", "C"]));
    assert_eq!(t.year(), None);
    assert_eq!(t.album(), Some("Al"));
    assert_eq!(t.artworks().len(), 1);
    t.set_year(-5);
    t.set_album("Other");
    let written = t.to_flac(&base);
    assert_eq!(written.date, strings(&["-5"]));
    assert_eq!(written.artist, strings(&["A/B/C/"]));
    assert!(written.album_artist.is_empty());
    let back = MusicTag::from_flac(&written, None);
    assert_eq!(back.year(), Some(-5));
    assert_eq!(back.title(), Some("T"));
    assert_eq!(back.album(), Some("Other"));
    assert_eq!(back.artworks().len(), 1);
}

#[test]
fn m4a_round_trip() {
    let base = M4aFields {
        title: Some("T".into()),
        album: None,
        artists: strings(&["A & B"]),
        album_artists: vec![],
        year: Some("2001".into()),
        lyrics: Some("la".into()),
        artworks: vec![M4aImage { png: true, data: png() }, M4aImage { png: false, data: vec![0] }],
    };
    let mut t = MusicTag::from_m4a(&base, None);
    assert_eq!(t.artists(), &strings(&["A", "B"]));
    assert_eq!(t.year(), Some(2001));
    assert_eq!(t.artworks().len(), 1);
    assert_eq!(t.artworks()[0].fmt, ImgFmt::PNG);
    t.set_year(2002);
    let written = t.to_m4a(&base);
    assert_eq!(written.year, Some("2002".to_string()));
    assert_eq!(written.artists, strings(&["A", "B"]));
    assert_eq!(written.lyrics, Some("la".to_string()));
    let back = MusicTag::from_m4a(&written, None);
    assert_eq!(back.year(), Some(2002));
    assert_eq!(back.title(), Some("T"));
    assert_eq!(back.artworks().len(), 1);
}

#[test]
fn probed_entries_decode() {
    let mut block = vec![0u8; 42];
    block.extend(png());
    let entry = |k: &str, v: Option<&str>| TagEntry { key: k.to_string(), text: v.map(|s| s.to_string()) };
    let entries = vec![
        entry("TITLE", Some("One")),
        entry("TITLE", Some("Two")),
        entry("ARTIST", Some("A/B")),
        entry("ARTIST", Some("C")),
        entry("DATE", Some("2020")),
        entry("ALBUM", None),
        entry("METADATA_BLOCK_PICTURE", Some(&base64::prelude::BASE64_STANDARD.encode(&block))),
        entry("METADATA_BLOCK_PICTURE", Some("%%%")),
        entry("LYRICS", Some("x\ny")),
    ];
    let t = MusicTag::from_entries(&entries, None);
    assert_eq!(t.fmt(), MusicFormat::Ogg);
    assert_eq!(t.title(), Some("Two"));
    assert_eq!(t.album(), None);
    assert_eq!(t.artists(), &strings(&["A", "B", "C"]));
    assert_eq!(t.year(), Some(2020));
    assert_eq!(t.artworks().len(), 1);
    assert_eq!(t.lyrics().unwrap().lines(), &strings(&["x", "y"]));
}

#[test]
fn set_artworks_fails_on_unreadable_image() {
    let mut t = music_tag::info::default_info(MusicFormat::Flac);
    t.add_artwork(Artwork { height: 2, width: 2, data: vec![9], fmt: ImgFmt::JPEG });
    let r = t.set_artworks(vec![(png(), ImgFmt::PNG), (vec![1, 2], ImgFmt::JPEG)]);
    assert!(matches!(r, Err(Error::ImageError(_))));
    assert_eq!(t.artworks().len(), 1);
    assert_eq!(t.artworks()[0].data, vec![9]);
}

#[test]
fn reader_seek_and_read() {
    let mut r = AudioReader::new(vec![1, 2, 3, 4, 5]);
    assert_eq!(r.byte_len(), 5);
    let mut out = [0u8; 3];
    assert_eq!(r.read(&mut out), 3);
    assert_eq!(out, [1, 2, 3]);
    assert_eq!(r.read(&mut out), 2);
    assert_eq!(out, [4, 5, 3]);
    assert_eq!(r.read(&mut out), 0);
    assert_eq!(r.seek(SeekPos::Start(1)), Some(1));
    assert_eq!(r.seek(SeekPos::Current(2)), Some(3));
    assert_eq!(r.seek(SeekPos::Current(-4)), None);
    assert_eq!(r.seek(SeekPos::End(-1)), Some(4));
    assert_eq!(r.seek(SeekPos::End(1)), None);
    assert_eq!(r.seek(SeekPos::Start(6)), None);
    assert_eq!(r.read(&mut out), 1);
    assert_eq!(out[0], 5);
}
