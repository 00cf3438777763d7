use vstd::prelude::*;
use crate::utils::text::{all_ascii, ascii_lower, chars_of, lowercase, to_lowercase};

verus! {

/// The file types that the sanitizer supports.
#[derive(Debug, Clone, Copy, PartialEq, Eq, Structural)]
pub enum FileType {
    Jpeg,
    Png,
    Mp3,
    Mp4,
    Wav,
    Pdf,
}

/// Why a file was refused before any sanitizing.
#[derive(Debug, Clone, Copy, PartialEq, Eq)]
pub enum Error {
    /// The path names no extension, or one that is not supported.
    UnsupportedFormat(&'static str),
    /// The content is too short, has no known magic bytes, or contradicts the extension.
    InvalidSignature(&'static str),
}

/// What `FileParser::analyze` reports of a file.
#[derive(Debug)]
pub struct FileInfo {
    pub file_type: FileType,
    pub size: usize,
    pub signature_valid: bool,
    pub extension_matches_signature: bool,
}

/// Detects file types and decides how a file is to be sanitized.
pub struct FileParser;

/// What `std::path::Path::extension` gives, as text, for the path written `path`.
pub uninterp spec fn path_extension(path: Seq<char>) -> Option<Seq<char>>;

/// Calls `std::path::Path::extension` on `path` and turns the result into text (the
/// conversion cannot fail, the path being UTF-8). The result is named by `path_extension`.
/// Its documentation also gives that a path without any `.` has no extension and that an
/// extension holds no `.`; how the final component of the path is found is left unsaid.
#[verifier::external_body]
fn extension_of(path: &str) -> (r: Option<String>)
    ensures
        match r {
            Some(e) => path_extension(path@) == Some(e@),
            None => path_extension(path@) is None,
        },
        !path@.contains('.') ==> r is None,
        r matches Some(e) ==> !e@.contains('.'),
{
    match std::path::Path::new(path).extension() {
        Some(ext) => ext.to_str().map(String::from),
        None => None,
    }
}

/// The file type named by a lower-case extension.
pub open spec fn extension_type(ext: Seq<char>) -> Result<FileType, Error> {
    if ext == "jpg"@ || ext == "jpeg"@ {
        Ok(FileType::Jpeg)
    } else if ext == "png"@ {
        Ok(FileType::Png)
    } else if ext == "mp3"@ {
        Ok(FileType::Mp3)
    } else if ext == "mp4"@ {
        Ok(FileType::Mp4)
    } else if ext == "wav"@ {
        Ok(FileType::Wav)
    } else if ext == "pdf"@ {
        Ok(FileType::Pdf)
    } else {
        Err(Error::UnsupportedFormat("Unknown file extension"))
    }
}

/// What `FileType::from_extension` answers for the path written `path`.
pub open spec fn extension_verdict(path: Seq<char>) -> Result<FileType, Error> {
    match path_extension(path) {
        None => Err(Error::UnsupportedFormat("No extension found")),
        Some(ext) => extension_type(lowercase(ext)),
    }
}

/// JPEG: `FF D8 FF`.
pub open spec fn is_jpeg_signature(d: Seq<u8>) -> bool {
    d.len() >= 3 && d[0] == 0xFF && d[1] == 0xD8 && d[2] == 0xFF
}

/// PNG: `89 'P' 'N' 'G' 0D 0A 1A 0A`.
pub open spec fn is_png_signature(d: Seq<u8>) -> bool {
    &&& d.len() >= 8
    &&& d[0] == 0x89 && d[1] == 0x50 && d[2] == 0x4E && d[3] == 0x47
    &&& d[4] == 0x0D && d[5] == 0x0A && d[6] == 0x1A && d[7] == 0x0A
}

/// MP3: an `"ID3"` tag, or an MPEG frame sync (`FF`, then a byte with its top three bits set).
pub open spec fn is_mp3_signature(d: Seq<u8>) -> bool {
    ||| d.len() >= 3 && d[0] == 0x49 && d[1] == 0x44 && d[2] == 0x33
    ||| d.len() >= 2 && d[0] == 0xFF && (d[1] & 0xE0) == 0xE0
}

/// MP4: `"ftyp"` at offset 4.
pub open spec fn is_mp4_signature(d: Seq<u8>) -> bool {
    d.len() >= 8 && d[4] == 0x66 && d[5] == 0x74 && d[6] == 0x79 && d[7] == 0x70
}

/// WAV: `"RIFF"`, four bytes, then `"WAVE"`.
pub open spec fn is_wav_signature(d: Seq<u8>) -> bool {
    &&& d.len() >= 12
    &&& d[0] == 0x52 && d[1] == 0x49 && d[2] == 0x46 && d[3] == 0x46
    &&& d[8] == 0x57 && d[9] == 0x41 && d[10] == 0x56 && d[11] == 0x45
}

/// PDF: `"%PDF"`.
pub open spec fn is_pdf_signature(d: Seq<u8>) -> bool {
    d.len() >= 4 && d[0] == 0x25 && d[1] == 0x50 && d[2] == 0x44 && d[3] == 0x46
}

/// What `FileType::from_signature` answers for the content `d`: content under four bytes
/// is refused, then the magic bytes are tried in the order JPEG, PNG, MP3, MP4, WAV, PDF.
pub open spec fn signature_verdict(d: Seq<u8>) -> Result<FileType, Error> {
    if d.len() < 4 {
        Err(Error::InvalidSignature("File too small"))
    } else if is_jpeg_signature(d) {
        Ok(FileType::Jpeg)
    } else if is_png_signature(d) {
        Ok(FileType::Png)
    } else if is_mp3_signature(d) {
        Ok(FileType::Mp3)
    } else if is_mp4_signature(d) {
        Ok(FileType::Mp4)
    } else if is_wav_signature(d) {
        Ok(FileType::Wav)
    } else if is_pdf_signature(d) {
        Ok(FileType::Pdf)
    } else {
        Err(Error::InvalidSignature("Unknown file signature"))
    }
}

/// The type by which `parse` sanitizes a file: the extension's type when the path has a
/// supported one and the content's signature, if recognised, agrees with it; the
/// signature's type when the extension does not tell.
pub open spec fn parse_verdict(path: Seq<char>, d: Seq<u8>) -> Result<FileType, Error> {
    match extension_verdict(path) {
        Ok(t) => match signature_verdict(d) {
            Ok(s) => if s != t {
                Err(Error::InvalidSignature("File signature doesn't match extension"))
            } else {
                Ok(t)
            },
            Err(_) => Ok(t),
        },
        Err(_) => signature_verdict(d),
    }
}

/// Whether the content's signature is recognised and names `t`.
pub open spec fn signature_confirms(d: Seq<u8>, t: FileType) -> bool {
    signature_verdict(d) == Ok::<FileType, Error>(t)
}

/// The type that `analyze` reports: the extension's, else the signature's.
pub open spec fn analyzed_type(path: Seq<char>, d: Seq<u8>) -> Result<FileType, Error> {
    match extension_verdict(path) {
        Ok(t) => Ok(t),
        Err(_) => signature_verdict(d),
    }
}

/// Whether two strings hold the same characters.
fn same_text(a: &str, b: &str) -> (r: bool)
    ensures
        r == (a@ == b@),
{
    let va = chars_of(a);
    let vb = chars_of(b);
    if va.len() != vb.len() {
        return false;
    }
    let mut i: usize = 0;
    while i < va.len()
        invariant
            va@ == a@,
            vb@ == b@,
            va.len() == vb.len(),
            i <= va.len(),
            forall|j: int| 0 <= j < i ==> va@[j] == vb@[j],
        decreases va.len() - i,
    {
        if va[i] != vb[i] {
            return false;
        }
        i = i + 1;
    }
    assert(va@ =~= vb@);
    true
}

impl FileType {
    /// Maps an extension already in lower case to its file type.
    pub fn from_lowercase_extension(ext: &str) -> (res: Result<FileType, Error>)
        ensures
            res == extension_type(ext@),
    {
        if same_text(ext, "jpg") || same_text(ext, "jpeg") {
            Ok(FileType::Jpeg)
        } else if same_text(ext, "png") {
            Ok(FileType::Png)
        } else if same_text(ext, "mp3") {
            Ok(FileType::Mp3)
        } else if same_text(ext, "mp4") {
            Ok(FileType::Mp4)
        } else if same_text(ext, "wav") {
            Ok(FileType::Wav)
        } else if same_text(ext, "pdf") {
            Ok(FileType::Pdf)
        } else {
            Err(Error::UnsupportedFormat("Unknown file extension"))
        }
    }

    /// Detects the file type from the extension of `path`, regardless of its case.
    pub fn from_extension(path: &str) -> (res: Result<FileType, Error>)
        ensures
            res == extension_verdict(path@),
            path_extension(path@) matches Some(e) ==> (all_ascii(e) ==> res == extension_type(
                e.map_values(|c: char| ascii_lower(c)),
            )),
    {
        match extension_of(path) {
            None => Err(Error::UnsupportedFormat("No extension found")),
            Some(ext) => {
                let lower = to_lowercase(ext.as_str());
                FileType::from_lowercase_extension(lower.as_str())
            },
        }
    }

    /// Detects the file type from the magic bytes at the start of `data`.
    pub fn from_signature(data: &[u8]) -> (res: Result<FileType, Error>)
        ensures
            res == signature_verdict(data@),
    {
        let n: usize = data.len();
        if n < 4 {
            return Err(Error::InvalidSignature("File too small"));
        }
        if data[0] == 0xFF && data[1] == 0xD8 && data[2] == 0xFF {
            return Ok(FileType::Jpeg);
        }
        if n >= 8 && data[0] == 0x89 && data[1] == 0x50 && data[2] == 0x4E && data[3] == 0x47
            && data[4] == 0x0D && data[5] == 0x0A && data[6] == 0x1A && data[7] == 0x0A {
            return Ok(FileType::Png);
        }
        if (data[0] == 0x49 && data[1] == 0x44 && data[2] == 0x33) || (data[0] == 0xFF && (data[1]
            & 0xE0) == 0xE0) {
            return Ok(FileType::Mp3);
        }
        if n >= 8 && data[4] == 0x66 && data[5] == 0x74 && data[6] == 0x79 && data[7] == 0x70 {
            return Ok(FileType::Mp4);
        }
        if n >= 12 && data[0] == 0x52 && data[1] == 0x49 && data[2] == 0x46 && data[3] == 0x46
            && data[8] == 0x57 && data[9] == 0x41 && data[10] == 0x56 && data[11] == 0x45 {
            return Ok(FileType::Wav);
        }
        if data[0] == 0x25 && data[1] == 0x50 && data[2] == 0x44 && data[3] == 0x46 {
            return Ok(FileType::Pdf);
        }
        Err(Error::InvalidSignature("Unknown file signature"))
    }
}

impl FileParser {
    /// Decides the type by which `parse` sanitizes a file: the extension's type, refused
    /// when the content's recognised signature names another; the signature's type when
    /// the extension gives none.
    pub fn parse_type(path: &str, data: &[u8]) -> (res: Result<FileType, Error>)
        ensures
            res == parse_verdict(path@, data@),
    {
        if let Ok(file_type) = FileType::from_extension(path) {
            if let Ok(sig_type) = FileType::from_signature(data) {
                if file_type != sig_type {
                    return Err(Error::InvalidSignature("File signature doesn't match extension"));
                }
            }
            return Ok(file_type);
        }
        FileType::from_signature(data)
    }

    /// Analyses a file without sanitizing it: its type (by extension, else by signature),
    /// its size, and whether its signature confirms that type.
    pub fn analyze(path: &str, data: &[u8]) -> (res: Result<FileInfo, Error>)
        ensures
            match analyzed_type(path@, data@) {
                Ok(t) => res matches Ok(info) && info.file_type == t && info.size == data@.len()
                    && info.signature_valid == signature_confirms(data@, t)
                    && info.extension_matches_signature == info.signature_valid,
                Err(e) => res == Err::<FileInfo, Error>(e),
            },
    {
        let file_type = match FileType::from_extension(path) {
            Ok(t) => t,
            Err(_) => FileType::from_signature(data)?,
        };
        let signature_valid = match FileType::from_signature(data) {
            Ok(sig) => sig == file_type,
            Err(_) => false,
        };
        Ok(FileInfo {
            file_type,
            size: data.len(),
            signature_valid,
            extension_matches_signature: signature_valid,
        })
    }
}

} // verus!

verus! {

/// The detected type depends only on the first twelve bytes: appending anything to a
/// content of at least twelve bytes leaves `from_signature` unchanged.
pub proof fn lemma_signature_depends_on_header(d: Seq<u8>, rest: Seq<u8>)
    requires
        d.len() >= 12,
    ensures
        signature_verdict(d + rest) == signature_verdict(d),
{
    let e = d + rest;
    assert(forall|i: int| 0 <= i < 12 ==> e[i] == d[i]);
}

/// `parse` never sanitizes a file as a type that its recognised signature contradicts.
pub proof fn lemma_parse_respects_signature(path: Seq<char>, d: Seq<u8>, t: FileType)
    requires
        parse_verdict(path, d) == Ok::<FileType, Error>(t),
        signature_verdict(d) is Ok,
    ensures
        signature_confirms(d, t),
{
}

/// `analyze` and `parse` agree: when `analyze` reports type `t`, `parse` sanitizes as `t`
/// exactly when the signature confirms `t` or is not recognised, and refuses with the
/// mismatch error otherwise; when `analyze` fails, `parse` fails with the same error.
pub proof fn lemma_analyze_agrees_with_parse(path: Seq<char>, d: Seq<u8>)
    ensures
        match analyzed_type(path, d) {
            Ok(t) => if signature_confirms(d, t) || signature_verdict(d) is Err {
                parse_verdict(path, d) == Ok::<FileType, Error>(t)
            } else {
                parse_verdict(path, d) == Err::<FileType, Error>(
                    Error::InvalidSignature("File signature doesn't match extension"),
                )
            },
            Err(e) => parse_verdict(path, d) == Err::<FileType, Error>(e),
        },
{
}

/// `magic` stands in `d` from position `offset` on.
pub open spec fn magic_at(d: Seq<u8>, offset: int, magic: Seq<u8>) -> bool {
    &&& offset + magic.len() <= d.len()
    &&& d.subrange(offset, offset + magic.len()) == magic
}

/// The magic bytes of each supported type, as byte strings.
pub open spec fn has_magic(d: Seq<u8>, t: FileType) -> bool {
    match t {
        // FF D8 FF
        FileType::Jpeg => magic_at(d, 0, seq![0xFFu8, 0xD8u8, 0xFFu8]),
        // 89 "PNG" CR LF SUB LF
        FileType::Png => magic_at(
            d,
            0,
            seq![0x89u8, 0x50u8, 0x4Eu8, 0x47u8, 0x0Du8, 0x0Au8, 0x1Au8, 0x0Au8],
        ),
        // "ID3", or FF followed by a byte of at least E0 (MPEG frame sync)
        FileType::Mp3 => magic_at(d, 0, seq![0x49u8, 0x44u8, 0x33u8]) || (d.len() >= 2 && d[0]
            == 0xFFu8 && d[1] >= 0xE0u8),
        // "ftyp" at offset 4
        FileType::Mp4 => magic_at(d, 4, seq![0x66u8, 0x74u8, 0x79u8, 0x70u8]),
        // "RIFF", then "WAVE" at offset 8
        FileType::Wav => magic_at(d, 0, seq![0x52u8, 0x49u8, 0x46u8, 0x46u8]) && magic_at(
            d,
            8,
            seq![0x57u8, 0x41u8, 0x56u8, 0x45u8],
        ),
        // "%PDF"
        FileType::Pdf => magic_at(d, 0, seq![0x25u8, 0x50u8, 0x44u8, 0x46u8]),
    }
}

proof fn lemma_magic_bytes(d: Seq<u8>)
    ensures
        is_jpeg_signature(d) <==> has_magic(d, FileType::Jpeg),
        is_png_signature(d) <==> has_magic(d, FileType::Png),
        is_mp3_signature(d) <==> has_magic(d, FileType::Mp3),
        is_mp4_signature(d) <==> has_magic(d, FileType::Mp4),
        is_wav_signature(d) <==> has_magic(d, FileType::Wav),
        is_pdf_signature(d) <==> has_magic(d, FileType::Pdf),
{
    if d.len() >= 2 {
        let b = d[1];
        assert(((b & 0xE0u8) == 0xE0u8) <==> b >= 0xE0u8) by (bit_vector);
    }
    if d.len() >= 3 {
        if is_jpeg_signature(d) {
            assert(d.subrange(0, 3) =~= seq![0xFFu8, 0xD8u8, 0xFFu8]);
        }
        if has_magic(d, FileType::Jpeg) {
            assert(d.subrange(0, 3)[1] == d[1] && d.subrange(0, 3)[2] == d[2]);
        }
        if d[0] == 0x49 && d[1] == 0x44 && d[2] == 0x33 {
            assert(d.subrange(0, 3) =~= seq![0x49u8, 0x44u8, 0x33u8]);
        }
        if magic_at(d, 0, seq![0x49u8, 0x44u8, 0x33u8]) {
            assert(d.subrange(0, 3)[1] == d[1] && d.subrange(0, 3)[2] == d[2]);
        }
    }
    if d.len() >= 4 {
        if is_pdf_signature(d) {
            assert(d.subrange(0, 4) =~= seq![0x25u8, 0x50u8, 0x44u8, 0x46u8]);
        }
        if has_magic(d, FileType::Pdf) {
            assert(d.subrange(0, 4)[1] == d[1] && d.subrange(0, 4)[2] == d[2] && d.subrange(0, 4)[3] == d[3]);
        }
    }
    if d.len() >= 8 {
        if is_png_signature(d) {
            assert(d.subrange(0, 8) =~= seq![0x89u8, 0x50u8, 0x4Eu8, 0x47u8, 0x0Du8, 0x0Au8, 0x1Au8, 0x0Au8]);
        }
        if has_magic(d, FileType::Png) {
            let w = d.subrange(0, 8);
            assert(w[1] == d[1] && w[2] == d[2] && w[3] == d[3] && w[4] == d[4] && w[5] == d[5]
                && w[6] == d[6] && w[7] == d[7]);
        }
        if is_mp4_signature(d) {
            assert(d.subrange(4, 8) =~= seq![0x66u8, 0x74u8, 0x79u8, 0x70u8]);
        }
        if has_magic(d, FileType::Mp4) {
            let w = d.subrange(4, 8);
            assert(w[0] == d[4] && w[1] == d[5] && w[2] == d[6] && w[3] == d[7]);
        }
    }
    if d.len() >= 12 {
        if is_wav_signature(d) {
            assert(d.subrange(0, 4) =~= seq![0x52u8, 0x49u8, 0x46u8, 0x46u8]);
            assert(d.subrange(8, 12) =~= seq![0x57u8, 0x41u8, 0x56u8, 0x45u8]);
        }
        if has_magic(d, FileType::Wav) {
            let w = d.subrange(0, 4);
            let v = d.subrange(8, 12);
            assert(w[0] == d[0] && w[1] == d[1] && w[2] == d[2] && w[3] == d[3]);
            assert(v[0] == d[8] && v[1] == d[9] && v[2] == d[10] && v[3] == d[11]);
        }
    }
}

/// `from_signature` refuses content under four bytes, then names the first type, in the
/// order JPEG, PNG, MP3, MP4, WAV, PDF, whose magic bytes the content holds, and refuses
/// content that holds none.
pub proof fn lemma_signature_by_magic_bytes(d: Seq<u8>)
    ensures
        signature_verdict(d) == if d.len() < 4 {
            Err::<FileType, Error>(Error::InvalidSignature("File too small"))
        } else if has_magic(d, FileType::Jpeg) {
            Ok(FileType::Jpeg)
        } else if has_magic(d, FileType::Png) {
            Ok(FileType::Png)
        } else if has_magic(d, FileType::Mp3) {
            Ok(FileType::Mp3)
        } else if has_magic(d, FileType::Mp4) {
            Ok(FileType::Mp4)
        } else if has_magic(d, FileType::Wav) {
            Ok(FileType::Wav)
        } else if has_magic(d, FileType::Pdf) {
            Ok(FileType::Pdf)
        } else {
            Err(Error::InvalidSignature("Unknown file signature"))
        },
        signature_verdict(d) matches Ok(t) ==> has_magic(d, t),
{
    lemma_magic_bytes(d);
}

/// The lower-case extensions that `from_extension` accepts, letter by letter: `jpg` and
/// `jpeg` name JPEG, `png`, `mp3`, `mp4`, `wav` and `pdf` their own type, and no other
/// extension is accepted.
pub proof fn lemma_accepted_extensions(ext: Seq<char>)
    ensures
        extension_type(ext) == if ext == seq!['j', 'p', 'g'] || ext == seq!['j', 'p', 'e', 'g'] {
            Ok::<FileType, Error>(FileType::Jpeg)
        } else if ext == seq!['p', 'n', 'g'] {
            Ok(FileType::Png)
        } else if ext == seq!['m', 'p', '3'] {
            Ok(FileType::Mp3)
        } else if ext == seq!['m', 'p', '4'] {
            Ok(FileType::Mp4)
        } else if ext == seq!['w', 'a', 'v'] {
            Ok(FileType::Wav)
        } else if ext == seq!['p', 'd', 'f'] {
            Ok(FileType::Pdf)
        } else {
            Err(Error::UnsupportedFormat("Unknown file extension"))
        },
{
    reveal_strlit("jpg");
    reveal_strlit("jpeg");
    reveal_strlit("png");
    reveal_strlit("mp3");
    reveal_strlit("mp4");
    reveal_strlit("wav");
    reveal_strlit("pdf");
    assert("jpg"@ =~= seq!['j', 'p', 'g']);
    assert("jpeg"@ =~= seq!['j', 'p', 'e', 'g']);
    assert("png"@ =~= seq!['p', 'n', 'g']);
    assert("mp3"@ =~= seq!['m', 'p', '3']);
    assert("mp4"@ =~= seq!['m', 'p', '4']);
    assert("wav"@ =~= seq!['w', 'a', 'v']);
    assert("pdf"@ =~= seq!['p', 'd', 'f']);
}

/// A path without an extension is refused as having none; otherwise the extension,
/// lower-cased, decides, and for an ASCII extension that is the ASCII lower-casing.
pub proof fn lemma_extension_decides(path: Seq<char>)
    ensures
        path_extension(path) is None ==> extension_verdict(path) == Err::<FileType, Error>(
            Error::UnsupportedFormat("No extension found"),
        ),
        path_extension(path) matches Some(e) ==> extension_verdict(path) == extension_type(lowercase(e)),
{
}

} // verus!
