//! Media files: content types, file names of uploads, and entity tags.

use vstd::prelude::*;

use crate::text::{chars_of, push_char, push_str};
use vstd::utf8::is_ascii_chars;

verus! {

/// Serves and stores the media files kept under the private assets path.
#[derive(Clone, Debug)]
pub struct FileService {
    /// Root directory of the private assets.
    pub assets_private_path: String,
}

impl FileService {
    /// Creates a new `FileService` rooted at `assets_private_path`.
    pub fn new(assets_private_path: String) -> (r: FileService)
        ensures
            r.assets_private_path == assets_private_path,
    {
        FileService { assets_private_path }
    }

    /// The content type of a file, by the extension after its last dot (the
    /// whole name when it has none), compared after lowercasing.
    pub fn get_content_type_from_filename(filename: &str) -> (r: &'static str)
        ensures
            r@ == content_type_of(lowercase_of(last_segment(filename@))),
    {
        let v = chars_of(filename);
        let mut start: usize = v.len();
        while start > 0 && v[start - 1] != '.'
            invariant
                start <= v.len(),
                v@ == filename@,
                forall|j: int| start <= j < v.len() ==> v@[j] != '.',
            decreases start,
        {
            start = start - 1;
        }
        proof {
            lemma_last_segment(v@, start as int);
        }
        let segment = crate::text::string_of_range(&v, start, v.len());
        let lower = to_lowercase(segment.as_str());
        let ext = chars_of(lower.as_str());
        content_type_for(&ext)
    }

    /// The file extension of a MIME type of an image.
    pub fn get_extension_from_mime(mime: &str) -> (r: &'static str)
        ensures
            r@ == extension_of(mime@),
    {
        if crate::text::str_eq(mime, "image/jpeg") {
            "jpg"
        } else if crate::text::str_eq(mime, "image/png") {
            "png"
        } else if crate::text::str_eq(mime, "image/gif") {
            "gif"
        } else if crate::text::str_eq(mime, "image/webp") {
            "webp"
        } else if crate::text::str_eq(mime, "image/bmp") {
            "bmp"
        } else if crate::text::str_eq(mime, "image/svg+xml") {
            "svg"
        } else {
            "bin"
        }
    }
}

/// The part of `s` after its last `.`; all of `s` when it holds none.
pub open spec fn last_segment(s: Seq<char>) -> Seq<char>
    decreases s.len(),
{
    if s.len() == 0 {
        s
    } else if s.last() == '.' {
        seq![]
    } else {
        last_segment(s.drop_last()).push(s.last())
    }
}

proof fn lemma_last_segment(s: Seq<char>, start: int)
    requires
        0 <= start <= s.len(),
        start == 0 || s[start - 1] == '.',
        forall|j: int| start <= j < s.len() ==> s[j] != '.',
    ensures
        last_segment(s) == s.subrange(start, s.len() as int),
    decreases s.len(),
{
    if s.len() > start {
        let p = s.drop_last();
        lemma_last_segment(p, start);
        assert(s.subrange(start, s.len() as int) =~= p.subrange(start, p.len() as int).push(s.last()));
    } else if s.len() > 0 {
        assert(s.last() == '.');
        assert(s.subrange(start, s.len() as int) =~= Seq::<char>::empty());
    } else {
        assert(s.subrange(start, s.len() as int) =~= s);
    }
}

/// ASCII lowercase of one character.
pub open spec fn ascii_lower_of(c: char) -> char {
    if 'A' <= c && c <= 'Z' {
        ((c as u32) + 32) as char
    } else {
        c
    }
}

/// ASCII lowercase of a text: `A` to `Z` become `a` to `z`.
pub open spec fn ascii_lower(s: Seq<char>) -> Seq<char>
    decreases s.len(),
{
    if s.len() == 0 {
        s
    } else {
        ascii_lower(s.drop_last()).push(ascii_lower_of(s.last()))
    }
}

/// The content type of a lowercase extension.
pub open spec fn content_type_of(ext: Seq<char>) -> Seq<char> {
    if ext == "jpg"@ || ext == "jpeg"@ {
        "image/jpeg"@
    } else if ext == "png"@ {
        "image/png"@
    } else if ext == "gif"@ {
        "image/gif"@
    } else if ext == "webp"@ {
        "image/webp"@
    } else if ext == "bmp"@ {
        "image/bmp"@
    } else if ext == "svg"@ {
        "image/svg+xml"@
    } else {
        "application/octet-stream"@
    }
}

fn content_type_for(ext: &Vec<char>) -> (r: &'static str)
    ensures
        r@ == content_type_of(ext@),
{
    let jpg = chars_of("jpg");
    let jpeg = chars_of("jpeg");
    let png = chars_of("png");
    let gif = chars_of("gif");
    let webp = chars_of("webp");
    let bmp = chars_of("bmp");
    let svg = chars_of("svg");
    if crate::text::chars_eq(ext, &jpg) || crate::text::chars_eq(ext, &jpeg) {
        "image/jpeg"
    } else if crate::text::chars_eq(ext, &png) {
        "image/png"
    } else if crate::text::chars_eq(ext, &gif) {
        "image/gif"
    } else if crate::text::chars_eq(ext, &webp) {
        "image/webp"
    } else if crate::text::chars_eq(ext, &bmp) {
        "image/bmp"
    } else if crate::text::chars_eq(ext, &svg) {
        "image/svg+xml"
    } else {
        "application/octet-stream"
    }
}

/// The extension under which an image of a MIME type is stored.
pub open spec fn extension_of(mime: Seq<char>) -> Seq<char> {
    if mime == "image/jpeg"@ {
        "jpg"@
    } else if mime == "image/png"@ {
        "png"@
    } else if mime == "image/gif"@ {
        "gif"@
    } else if mime == "image/webp"@ {
        "webp"@
    } else if mime == "image/bmp"@ {
        "bmp"@
    } else if mime == "image/svg+xml"@ {
        "svg"@
    } else {
        "bin"@
    }
}

/// The file name of an uploaded image: its name, a dot, the extension of its MIME type.
pub fn upload_file_name(name: &str, mime: &str) -> (r: String)
    ensures
        r@ == name@ + "."@ + extension_of(mime@),
{
    let mut r = String::new();
    push_str(&mut r, name);
    push_str(&mut r, ".");
    push_str(&mut r, FileService::get_extension_from_mime(mime));
    r
}

/// The MD5 digest of `data`.
pub uninterp spec fn md5_digest(data: Seq<u8>) -> Seq<u8>;

/// `md5::compute`, whose `Digest` wraps the 16 digest bytes. The contract claims
/// only that the bytes are a function of the data alone (`md5_digest`).
#[verifier::external_body]
fn md5_compute(data: &[u8]) -> (r: [u8; 16])
    ensures
        r@ == md5_digest(data@),
{
    md5::compute(data).0
}

/// The lowercase hexadecimal digit of `d`.
pub open spec fn hex_digit(d: u8) -> char {
    if d < 10 {
        (('0' as u32) + (d as u32)) as char
    } else {
        (('a' as u32) + (d as u32) - 10) as char
    }
}

/// Bytes in lowercase hexadecimal, two digits each (`{:02x}` per byte).
pub open spec fn hex_text(bytes: Seq<u8>) -> Seq<char>
    decreases bytes.len(),
{
    if bytes.len() == 0 {
        seq![]
    } else {
        hex_text(bytes.drop_last()) + seq![hex_digit(bytes.last() / 16), hex_digit(bytes.last() % 16)]
    }
}

fn hex_digit_char(d: u8) -> (c: char)
    requires
        d < 16,
    ensures
        c == hex_digit(d),
{
    let code: u8 = if d < 10 {
        48 + d
    } else {
        87 + d
    };
    code as char
}

/// The entity tag of a media file: its MD5 digest in lowercase hex, quoted.
pub fn media_etag(content: &[u8]) -> (r: String)
    ensures
        r@ == seq!['"'] + hex_text(md5_digest(content@)) + seq!['"'],
{
    let digest = md5_compute(content);
    let mut r = String::new();
    push_char(&mut r, '"');
    let mut i: usize = 0;
    while i < 16
        invariant
            i <= 16,
            digest@ == md5_digest(content@),
            r@ == seq!['"'] + hex_text(digest@.take(i as int)),
        decreases 16 - i,
    {
        let b = digest[i];
        push_char(&mut r, hex_digit_char(b / 16));
        push_char(&mut r, hex_digit_char(b % 16));
        proof {
            assert(digest@.take(i + 1).drop_last() =~= digest@.take(i as int));
            assert(r@ =~= seq!['"'] + hex_text(digest@.take(i + 1)));
        }
        i = i + 1;
    }
    push_char(&mut r, '"');
    proof {
        assert(digest@.take(16) =~= digest@);
    }
    r
}

/// Unicode lowercase of a text, as `str::to_lowercase` computes it.
pub uninterp spec fn lowercase_text(s: Seq<char>) -> Seq<char>;

/// The lowercase of a text: ASCII lowercasing on ASCII text, Unicode
/// lowercasing (`lowercase_text`) otherwise.
pub open spec fn lowercase_of(s: Seq<char>) -> Seq<char> {
    if is_ascii_chars(s) {
        ascii_lower(s)
    } else {
        lowercase_text(s)
    }
}

/// `str::to_lowercase`. The contract claims that the lowercase text is a
/// function of the text alone (`lowercase_text`), and that on ASCII text it maps
/// `A` to `Z` to `a` to `z` and keeps every other character, as Unicode's
/// lowercase mapping does for ASCII.
#[verifier::external_body]
fn to_lowercase(s: &str) -> (r: String)
    ensures
        r@ == lowercase_text(s@),
        is_ascii_chars(s@) ==> r@ == ascii_lower(s@),
{
    s.to_lowercase()
}

/// Whether a file counts as an image: the lowercase text after its last dot is
/// one of the allowed extensions.
pub fn has_allowed_extension(file_name: &str, allowed: &[String]) -> (r: bool)
    ensures
        r == exists|k: int| 0 <= k < allowed@.len() && (#[trigger] allowed@[k])@ == lowercase_text(last_segment(file_name@)),
{
    let v = chars_of(file_name);
    let mut start: usize = v.len();
    while start > 0 && v[start - 1] != '.'
        invariant
            start <= v.len(),
            v@ == file_name@,
            forall|j: int| start <= j < v.len() ==> v@[j] != '.',
        decreases start,
    {
        start = start - 1;
    }
    proof {
        lemma_last_segment(v@, start as int);
    }
    let segment = crate::text::string_of_range(&v, start, v.len());
    let ext = to_lowercase(segment.as_str());
    let mut k: usize = 0;
    while k < allowed.len()
        invariant
            k <= allowed.len(),
            ext@ == lowercase_text(last_segment(file_name@)),
            forall|m: int| 0 <= m < k ==> (#[trigger] allowed@[m])@ != ext@,
        decreases allowed.len() - k,
    {
        if allowed[k] == ext {
            return true;
        }
        k = k + 1;
    }
    false
}

/// Whether an idol still lacks images: none of the files in its media directory
/// has an allowed extension. Idols with a non-positive id are never listed.
pub fn idol_lacks_images(idol_id: i64, file_names: &[String], allowed: &[String]) -> (r: bool)
    ensures
        r == (idol_id > 0 && forall|f: int|
            0 <= f < file_names@.len() ==> !exists|k: int|
                0 <= k < allowed@.len() && (#[trigger] allowed@[k])@ == lowercase_text(
                    last_segment((#[trigger] file_names@[f])@),
                )),
{
    if idol_id <= 0 {
        return false;
    }
    let mut f: usize = 0;
    while f < file_names.len()
        invariant
            f <= file_names.len(),
            forall|g: int|
                0 <= g < f ==> !exists|k: int|
                    0 <= k < allowed@.len() && (#[trigger] allowed@[k])@ == lowercase_text(
                        last_segment((#[trigger] file_names@[g])@),
                    ),
        decreases file_names.len() - f,
    {
        if has_allowed_extension(file_names[f].as_str(), allowed) {
            return false;
        }
        f = f + 1;
    }
    true
}

proof fn lemma_last_segment_after_dot(s: Seq<char>, t: Seq<char>)
    requires
        forall|j: int| 0 <= j < t.len() ==> t[j] != '.',
    ensures
        last_segment(s + seq!['.'] + t) == t,
    decreases t.len(),
{
    let u = s + seq!['.'] + t;
    if t.len() == 0 {
        assert(u.last() == '.');
    } else {
        assert(u.drop_last() =~= s + seq!['.'] + t.drop_last());
        lemma_last_segment_after_dot(s, t.drop_last());
        assert(t.drop_last().push(t.last()) =~= t);
    }
}

/// An image stored under the name `upload_file_name` gives back the MIME type it
/// was uploaded with, for each image type the service knows.
pub proof fn lemma_upload_name_content_type(name: Seq<char>, mime: Seq<char>)
    requires
        mime == "image/jpeg"@ || mime == "image/png"@ || mime == "image/gif"@ || mime
            == "image/webp"@ || mime == "image/bmp"@ || mime == "image/svg+xml"@,
    ensures
        content_type_of(lowercase_of(last_segment(name + "."@ + extension_of(mime)))) == mime,
{
    reveal_strlit(".");
    reveal_strlit("jpg");
    reveal_strlit("jpeg");
    reveal_strlit("png");
    reveal_strlit("gif");
    reveal_strlit("webp");
    reveal_strlit("bmp");
    reveal_strlit("svg");
    reveal_strlit("bin");
    reveal_strlit("image/jpeg");
    reveal_strlit("image/png");
    reveal_strlit("image/gif");
    reveal_strlit("image/webp");
    reveal_strlit("image/bmp");
    reveal_strlit("image/svg+xml");
    let ext = extension_of(mime);
    assert("."@ =~= seq!['.']);
    assert(forall|j: int| 0 <= j < ext.len() ==> ext[j] != '.');
    lemma_last_segment_after_dot(name, ext);
    assert(is_ascii_chars(ext));
    reveal_with_fuel(ascii_lower, 5);
    assert(ascii_lower(ext) =~= ext);
}

} // verus!
