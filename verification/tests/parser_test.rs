use std::path::PathBuf;
use zenth_utils::utils::sanitizer::parser::{Error, FileParser, FileType};

#[test]
fn test_file_type_from_extension() {
    let path = PathBuf::from("test.mp3");
    assert_eq!(FileType::from_extension(path.to_str().unwrap()).unwrap(), FileType::Mp3);

    let path = PathBuf::from("test.jpg");
    assert_eq!(FileType::from_extension(path.to_str().unwrap()).unwrap(), FileType::Jpeg);

    let path = PathBuf::from("test.JPEG");
    assert_eq!(FileType::from_extension(path.to_str().unwrap()).unwrap(), FileType::Jpeg);
}

#[test]
fn test_file_type_from_signature_mp3() {
    let data_id3 = b"ID3\x04\x00\x00\x00\x00\x00\x00";
    assert_eq!(FileType::from_signature(data_id3).unwrap(), FileType::Mp3);

    let data_frame = [0xFF, 0xFB, 0x90, 0x00];
    assert_eq!(FileType::from_signature(&data_frame).unwrap(), FileType::Mp3);
}

#[test]
fn test_file_type_from_signature_jpeg() {
    let data = [0xFF, 0xD8, 0xFF, 0xE0, 0x00, 0x10];
    assert_eq!(FileType::from_signature(&data).unwrap(), FileType::Jpeg);
}

#[test]
fn test_file_type_from_signature_png() {
    let data = [0x89, 0x50, 0x4E, 0x47, 0x0D, 0x0A, 0x1A, 0x0A];
    assert_eq!(FileType::from_signature(&data).unwrap(), FileType::Png);
}

#[test]
fn test_file_type_from_signature_pdf() {
    let data = b"%PDF-1.4\n";
    assert_eq!(FileType::from_signature(data).unwrap(), FileType::Pdf);
}

#[test]
fn test_analyze() {
    let path = PathBuf::from("test.mp3");
    let data = [0xFF, 0xFB, 0x90, 0x00];
    let info = FileParser::analyze(path.to_str().unwrap(), &data).unwrap();
    assert_eq!(info.file_type, FileType::Mp3);
    assert_eq!(info.size, 4);
    assert!(info.signature_valid);
}

#[test]
fn from_extension_all_supported_types() {
    assert_eq!(FileType::from_extension("a/b/photo.jpeg"), Ok(FileType::Jpeg));
    assert_eq!(FileType::from_extension("image.PNG"), Ok(FileType::Png));
    assert_eq!(FileType::from_extension("clip.Mp4"), Ok(FileType::Mp4));
    assert_eq!(FileType::from_extension("sound.WAV"), Ok(FileType::Wav));
    assert_eq!(FileType::from_extension("doc.pdf"), Ok(FileType::Pdf));
    assert_eq!(FileType::from_extension("archive.tar.mp3"), Ok(FileType::Mp3));
}

#[test]
fn from_extension_errors() {
    assert_eq!(
        FileType::from_extension("README"),
        Err(Error::UnsupportedFormat("No extension found"))
    );
    assert_eq!(
        FileType::from_extension(".bashrc"),
        Err(Error::UnsupportedFormat("No extension found"))
    );
    assert_eq!(
        FileType::from_extension("notes.txt"),
        Err(Error::UnsupportedFormat("Unknown file extension"))
    );
    assert_eq!(
        FileType::from_extension("dir.jpg/"),
        Ok(FileType::Jpeg)
    );
}

#[test]
fn from_lowercase_extension_is_case_sensitive() {
    assert_eq!(FileType::from_lowercase_extension("jpg"), Ok(FileType::Jpeg));
    assert_eq!(
        FileType::from_lowercase_extension("JPG"),
        Err(Error::UnsupportedFormat("Unknown file extension"))
    );
}

#[test]
fn from_signature_other_types_and_errors() {
    assert_eq!(
        FileType::from_signature(&[0x00, 0x00, 0x00, 0x18, b'f', b't', b'y', b'p']),
        Ok(FileType::Mp4)
    );
    assert_eq!(FileType::from_signature(b"RIFF\x24\x08\x00\x00WAVEfmt "), Ok(FileType::Wav));
    assert_eq!(
        FileType::from_signature(b"RIFF\x24\x08\x00\x00AVI "),
        Err(Error::InvalidSignature("Unknown file signature"))
    );
    assert_eq!(
        FileType::from_signature(&[0xFF, 0xD8, 0xFF]),
        Err(Error::InvalidSignature("File too small"))
    );
    assert_eq!(
        FileType::from_signature(b"NOT AN MP3"),
        Err(Error::InvalidSignature("Unknown file signature"))
    );
    // JPEG is tried before the MPEG frame sync.
    assert_eq!(FileType::from_signature(&[0xFF, 0xD8, 0xFF, 0xFB]), Ok(FileType::Jpeg));
    // A PNG header cut short is not a PNG.
    assert_eq!(
        FileType::from_signature(&[0x89, 0x50, 0x4E, 0x47, 0x0D]),
        Err(Error::InvalidSignature("Unknown file signature"))
    );
}

#[test]
fn signature_ignores_bytes_after_header() {
    let header = b"RIFF\x00\x00\x00\x00WAVE".to_vec();
    let mut longer = header.clone();
    longer.extend_from_slice(b"anything at all");
    assert_eq!(FileType::from_signature(&header), FileType::from_signature(&longer));
}

#[test]
fn parse_type_decisions() {
    let mp3 = [0xFF, 0xFB, 0x90, 0x00];
    assert_eq!(FileParser::parse_type("song.mp3", &mp3), Ok(FileType::Mp3));
    assert_eq!(
        FileParser::parse_type("song.pdf", &mp3),
        Err(Error::InvalidSignature("File signature doesn't match extension"))
    );
    // An unrecognised signature does not stop the extension's type.
    assert_eq!(FileParser::parse_type("test.mp3", b"NOT AN MP3"), Ok(FileType::Mp3));
    // Without a usable extension the signature decides.
    assert_eq!(FileParser::parse_type("song", &mp3), Ok(FileType::Mp3));
    assert_eq!(
        FileParser::parse_type("song.txt", b"xx"),
        Err(Error::InvalidSignature("File too small"))
    );
}

#[test]
fn analyze_reports_mismatch_and_failures() {
    let pdf = b"%PDF-1.7";
    let info = FileParser::analyze("doc.png", pdf).unwrap();
    assert_eq!(info.file_type, FileType::Png);
    assert_eq!(info.size, 8);
    assert!(!info.signature_valid);
    assert!(!info.extension_matches_signature);

    let info = FileParser::analyze("noext", pdf).unwrap();
    assert_eq!(info.file_type, FileType::Pdf);
    assert!(info.signature_valid);

    assert_eq!(
        FileParser::analyze("noext", b"zz").unwrap_err(),
        Error::InvalidSignature("File too small")
    );
}
