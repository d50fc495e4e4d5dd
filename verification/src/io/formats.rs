//! The image format a flat export is written in, chosen by the file extension.

use vstd::prelude::*;

verus! {

/// The encoders a flat export can use; `FromPath` leaves the choice to the image library's own
/// reading of the path.
#[derive(Debug, Clone, Copy, PartialEq, Eq, Structural)]
pub enum FlatFormat {
    Png,
    Jpeg,
    WebP,
    Gif,
    Bmp,
    Tiff,
    Tga,
    Dds,
    Hdr,
    Exr,
    FromPath,
}

/// `c` with ASCII upper case mapped to lower case.
pub open spec fn ascii_lower(c: char) -> char {
    if 65 <= c as int <= 90 {
        ((c as int) + 32) as char
    } else {
        c
    }
}

/// An ASCII literal differs from any sequence holding a character outside ASCII.
proof fn lemma_not_ascii_differs(e: Seq<char>, k: int, lit: Seq<char>)
    requires
        0 <= k < e.len(),
        !(e[k] as int <= 0x7f),
        vstd::utf8::is_ascii_chars(lit),
    ensures
        e != lit,
{
    if e == lit {
        assert(lit[k] <= '\u{7f}');
    }
}

/// The format for a file extension, compared without regard to case.
pub open spec fn format_for(ext: Seq<char>) -> FlatFormat {
    let e = ext.map_values(|c: char| ascii_lower(c));
    if e == "png"@ {
        FlatFormat::Png
    } else if e == "jpg"@ || e == "jpeg"@ {
        FlatFormat::Jpeg
    } else if e == "webp"@ {
        FlatFormat::WebP
    } else if e == "gif"@ {
        FlatFormat::Gif
    } else if e == "bmp"@ {
        FlatFormat::Bmp
    } else if e == "tiff"@ || e == "tif"@ {
        FlatFormat::Tiff
    } else if e == "tga"@ {
        FlatFormat::Tga
    } else if e == "dds"@ {
        FlatFormat::Dds
    } else if e == "hdr"@ {
        FlatFormat::Hdr
    } else if e == "exr"@ {
        FlatFormat::Exr
    } else {
        FlatFormat::FromPath
    }
}

/// The lower-cased bytes of an ASCII extension equal the ASCII literal `lit`.
fn lower_eq(b: &[u8], lit: &str) -> (r: bool)
    requires
        vstd::string::is_ascii(lit),
    ensures
        r == (Seq::new(b@.len(), |i: int| ascii_lower(b@[i] as char)) == lit@),
{
    let l = lit.as_bytes();
    proof {
        vstd::string::is_ascii_spec_bytes(lit);
    }
    let ghost lc = Seq::new(b@.len(), |i: int| ascii_lower(b@[i] as char));
    if b.len() != l.len() {
        assert(lc.len() != lit@.len());
        return false;
    }
    let mut i: usize = 0;
    while i < b.len()
        invariant
            b@.len() == l@.len(),
            l@.len() == lit@.len(),
            lc == Seq::new(b@.len(), |i: int| ascii_lower(b@[i] as char)),
            forall|k: int| 0 <= k < lit@.len() ==> #[trigger] (l@[k] as char) == lit@[k],
            i <= b@.len(),
            forall|k: int| 0 <= k < i ==> lc[k] == lit@[k],
        decreases b@.len() - i,
    {
        let c: u8 = b[i];
        let lo: u8 = if c >= 65 && c <= 90 { c + 32 } else { c };
        assert((c as char) as int == c as int);
        assert((lo as char) as int == lo as int);
        assert(ascii_lower(c as char) == lo as char);
        if lo != l[i] {
            assert((l@[i as int] as char) as int == l@[i as int] as int);
            assert(lc[i as int] != lit@[i as int]);
            return false;
        }
        i = i + 1;
    }
    assert(lc =~= lit@);
    true
}

/// The format a flat export of a file with extension `ext` uses.
pub fn format_for_extension(ext: &str) -> (f: FlatFormat)
    ensures
        f == format_for(ext@),
{
    let ghost e = ext@.map_values(|c: char| ascii_lower(c));
    proof {
        reveal_strlit("png");
        reveal_strlit("jpg");
        reveal_strlit("jpeg");
        reveal_strlit("webp");
        reveal_strlit("gif");
        reveal_strlit("bmp");
        reveal_strlit("tiff");
        reveal_strlit("tif");
        reveal_strlit("tga");
        reveal_strlit("dds");
        reveal_strlit("hdr");
        reveal_strlit("exr");
    }
    if !ext.is_ascii() {
        proof {
            let k = choose|k: int| 0 <= k < ext@.len() && !('\0' <= #[trigger] ext@[k] <= '\u{7f}');
            assert(e[k] == ext@[k]);
            assert(vstd::utf8::is_ascii_chars("png"@));
            lemma_not_ascii_differs(e, k, "png"@);
            assert(vstd::utf8::is_ascii_chars("jpg"@));
            lemma_not_ascii_differs(e, k, "jpg"@);
            assert(vstd::utf8::is_ascii_chars("jpeg"@));
            lemma_not_ascii_differs(e, k, "jpeg"@);
            assert(vstd::utf8::is_ascii_chars("webp"@));
            lemma_not_ascii_differs(e, k, "webp"@);
            assert(vstd::utf8::is_ascii_chars("gif"@));
            lemma_not_ascii_differs(e, k, "gif"@);
            assert(vstd::utf8::is_ascii_chars("bmp"@));
            lemma_not_ascii_differs(e, k, "bmp"@);
            assert(vstd::utf8::is_ascii_chars("tiff"@));
            lemma_not_ascii_differs(e, k, "tiff"@);
            assert(vstd::utf8::is_ascii_chars("tif"@));
            lemma_not_ascii_differs(e, k, "tif"@);
            assert(vstd::utf8::is_ascii_chars("tga"@));
            lemma_not_ascii_differs(e, k, "tga"@);
            assert(vstd::utf8::is_ascii_chars("dds"@));
            lemma_not_ascii_differs(e, k, "dds"@);
            assert(vstd::utf8::is_ascii_chars("hdr"@));
            lemma_not_ascii_differs(e, k, "hdr"@);
            assert(vstd::utf8::is_ascii_chars("exr"@));
            lemma_not_ascii_differs(e, k, "exr"@);
        }
        return FlatFormat::FromPath;
    }
    let b = ext.as_bytes();
    proof {
        vstd::string::is_ascii_spec_bytes(ext);
        assert(Seq::new(b@.len(), |i: int| ascii_lower(b@[i] as char)) =~= e);
    }
    if lower_eq(b, "png") {
        FlatFormat::Png
    } else if lower_eq(b, "jpg") || lower_eq(b, "jpeg") {
        FlatFormat::Jpeg
    } else if lower_eq(b, "webp") {
        FlatFormat::WebP
    } else if lower_eq(b, "gif") {
        FlatFormat::Gif
    } else if lower_eq(b, "bmp") {
        FlatFormat::Bmp
    } else if lower_eq(b, "tiff") || lower_eq(b, "tif") {
        FlatFormat::Tiff
    } else if lower_eq(b, "tga") {
        FlatFormat::Tga
    } else if lower_eq(b, "dds") {
        FlatFormat::Dds
    } else if lower_eq(b, "hdr") {
        FlatFormat::Hdr
    } else if lower_eq(b, "exr") {
        FlatFormat::Exr
    } else {
        FlatFormat::FromPath
    }
}

} // verus!
