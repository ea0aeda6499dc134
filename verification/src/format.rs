//! The format resolver: maps a user-supplied format name to an image-format
//! tag through a fixed extension table, ASCII case-insensitively. An absent
//! name falls back to `png`; a present but unrecognized name is an error,
//! never a silent fallback.
use vstd::prelude::*;

use crate::error::UnsupportedFormat;
use crate::text::str_to_chars;

verus! {

/// Supported raster encodings: exactly one tag per recognized extension
/// string. The table mirrors the extension table of the image codec
/// collaborator that encodes the rendered buffer.
#[derive(Clone, Copy, PartialEq, Eq, Structural, Debug)]
pub enum ImageFormatTag {
    Avif,
    Jpeg,
    Png,
    Gif,
    WebP,
    Tiff,
    Tga,
    Dds,
    Bmp,
    Ico,
    Hdr,
    OpenExr,
    Pnm,
    Farbfeld,
    Qoi,
}

/// `a` reads as the (lowercase) reference character `b`, ASCII
/// case-insensitively.
pub open spec fn lower_eq_char(a: char, b: char) -> bool {
    a as int == b as int || ('A' as int <= a as int && a as int <= 'Z' as int && a as int + 32
        == b as int)
}

/// `s` spells the lowercase reference name `t`, ASCII case-insensitively.
pub open spec fn name_is(s: Seq<char>, t: Seq<char>) -> bool {
    s.len() == t.len() && forall|i: int| 0 <= i < s.len() ==> lower_eq_char(#[trigger] s[i], t[i])
}

/// The fixed extension table: the tag a format name denotes, if any.
pub open spec fn format_of_name(s: Seq<char>) -> Option<ImageFormatTag> {
    if name_is(s, "avif"@) {
        Some(ImageFormatTag::Avif)
    } else if name_is(s, "jpg"@) || name_is(s, "jpeg"@) || name_is(s, "jfif"@) {
        Some(ImageFormatTag::Jpeg)
    } else if name_is(s, "png"@) || name_is(s, "apng"@) {
        Some(ImageFormatTag::Png)
    } else if name_is(s, "gif"@) {
        Some(ImageFormatTag::Gif)
    } else if name_is(s, "webp"@) {
        Some(ImageFormatTag::WebP)
    } else if name_is(s, "tif"@) || name_is(s, "tiff"@) {
        Some(ImageFormatTag::Tiff)
    } else if name_is(s, "tga"@) {
        Some(ImageFormatTag::Tga)
    } else if name_is(s, "dds"@) {
        Some(ImageFormatTag::Dds)
    } else if name_is(s, "bmp"@) {
        Some(ImageFormatTag::Bmp)
    } else if name_is(s, "ico"@) {
        Some(ImageFormatTag::Ico)
    } else if name_is(s, "hdr"@) {
        Some(ImageFormatTag::Hdr)
    } else if name_is(s, "exr"@) {
        Some(ImageFormatTag::OpenExr)
    } else if name_is(s, "pbm"@) || name_is(s, "pam"@) || name_is(s, "ppm"@) || name_is(s, "pgm"@)
        || name_is(s, "pnm"@) {
        Some(ImageFormatTag::Pnm)
    } else if name_is(s, "ff"@) {
        Some(ImageFormatTag::Farbfeld)
    } else if name_is(s, "qoi"@) {
        Some(ImageFormatTag::Qoi)
    } else {
        None
    }
}

fn lower_eq_exec(a: char, b: char) -> (r: bool)
    ensures
        r == lower_eq_char(a, b),
{
    let au = a as u32;
    let bu = b as u32;
    au == bu || (('A' as u32) <= au && au <= ('Z' as u32) && au + 32 == bu)
}

fn name_is_exec(s: &Vec<char>, t: &str) -> (r: bool)
    ensures
        r == name_is(s@, t@),
{
    let tc = str_to_chars(t);
    if s.len() != tc.len() {
        return false;
    }
    let mut i: usize = 0;
    while i < s.len()
        invariant
            s@.len() == tc@.len(),
            tc@ == t@,
            0 <= i <= s@.len(),
            forall|j: int| 0 <= j < i ==> lower_eq_char(#[trigger] s@[j], t@[j]),
        decreases s@.len() - i,
    {
        if !lower_eq_exec(s[i], tc[i]) {
            return false;
        }
        i += 1;
    }
    true
}

/// Maps a format name to its tag: an absent name resolves to the default
/// `png`; a present name goes through the fixed extension table, ASCII
/// case-insensitively, and an unrecognized one fails rather than falling
/// back to the default.
pub fn resolve_format(name: &Option<String>) -> (r: Result<ImageFormatTag, UnsupportedFormat>)
    ensures
        match name {
            Some(n) => match format_of_name(n@) {
                Some(tag) => r is Ok && r->Ok_0 == tag,
                None => r is Err && r->Err_0.name@ == n@,
            },
            None => r is Ok && r->Ok_0 == ImageFormatTag::Png,
        },
{
    match name {
        None => Ok(ImageFormatTag::Png),
        Some(n) => {
            let s = str_to_chars(n.as_str());
            if name_is_exec(&s, "avif") {
                Ok(ImageFormatTag::Avif)
            } else if name_is_exec(&s, "jpg") || name_is_exec(&s, "jpeg") || name_is_exec(&s, "jfif") {
                Ok(ImageFormatTag::Jpeg)
            } else if name_is_exec(&s, "png") || name_is_exec(&s, "apng") {
                Ok(ImageFormatTag::Png)
            } else if name_is_exec(&s, "gif") {
                Ok(ImageFormatTag::Gif)
            } else if name_is_exec(&s, "webp") {
                Ok(ImageFormatTag::WebP)
            } else if name_is_exec(&s, "tif") || name_is_exec(&s, "tiff") {
                Ok(ImageFormatTag::Tiff)
            } else if name_is_exec(&s, "tga") {
                Ok(ImageFormatTag::Tga)
            } else if name_is_exec(&s, "dds") {
                Ok(ImageFormatTag::Dds)
            } else if name_is_exec(&s, "bmp") {
                Ok(ImageFormatTag::Bmp)
            } else if name_is_exec(&s, "ico") {
                Ok(ImageFormatTag::Ico)
            } else if name_is_exec(&s, "hdr") {
                Ok(ImageFormatTag::Hdr)
            } else if name_is_exec(&s, "exr") {
                Ok(ImageFormatTag::OpenExr)
            } else if name_is_exec(&s, "pbm") || name_is_exec(&s, "pam") || name_is_exec(&s, "ppm")
                || name_is_exec(&s, "pgm") || name_is_exec(&s, "pnm") {
                Ok(ImageFormatTag::Pnm)
            } else if name_is_exec(&s, "ff") {
                Ok(ImageFormatTag::Farbfeld)
            } else if name_is_exec(&s, "qoi") {
                Ok(ImageFormatTag::Qoi)
            } else {
                Err(UnsupportedFormat { name: n.clone() })
            }
        },
    }
}

} // verus!
