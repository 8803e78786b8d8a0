//! Content-type classification: deriving a content type from a file name,
//! and deciding whether that type is an already-compressed medium.

use vstd::prelude::*;
use vstd::string::StrSliceExecFns;

verus! {

/// The content type that mime_guess derives for a file name, in its bare
/// "type/subtype" form ("text/plain" when the extension is unknown).
pub uninterp spec fn mime_of(path: Seq<char>) -> Seq<char>;

/// Relies on mime_guess::from_path(..).first_or_text_plain(): the guess is a
/// table lookup on the file name's extension, so it depends on the path
/// alone; essence_str is the bare "type/subtype" form.
#[verifier::external_body]
pub(crate) fn guess_mime(path: &str) -> (r: String)
    ensures
        r@ == mime_of(path@),
{
    mime_guess::from_path(path).first_or_text_plain().essence_str().to_string()
}

/// Whether the content type names an already-compressed medium: a raster
/// image or a video.
pub open spec fn is_media_mime(m: Seq<char>) -> bool {
    m.len() >= 6 && (m.take(6) == "image/"@ || m.take(6) == "video/"@)
}

/// Decides `is_media_mime` for a concrete content type.
pub fn check_media_mime(m: &String) -> (r: bool)
    ensures
        r == is_media_mime(m@),
{
    let s = m.as_str();
    let n: usize = s.unicode_len();
    if n < 6 {
        return false;
    }
    let c0: char = s.get_char(0);
    let c1: char = s.get_char(1);
    let c2: char = s.get_char(2);
    let c3: char = s.get_char(3);
    let c4: char = s.get_char(4);
    let c5: char = s.get_char(5);
    let img: bool = c0 == 'i' && c1 == 'm' && c2 == 'a' && c3 == 'g' && c4 == 'e' && c5 == '/';
    let vid: bool = c0 == 'v' && c1 == 'i' && c2 == 'd' && c3 == 'e' && c4 == 'o' && c5 == '/';
    proof {
        reveal_strlit("image/");
        reveal_strlit("video/");
        if img {
            assert(m@.take(6) =~= "image/"@);
        }
        if vid {
            assert(m@.take(6) =~= "video/"@);
        }
        if !img && !vid {
            assert(m@.take(6)[0] == m@[0]);
            assert(m@.take(6)[1] == m@[1]);
            assert(m@.take(6)[2] == m@[2]);
            assert(m@.take(6)[3] == m@[3]);
            assert(m@.take(6)[4] == m@[4]);
            assert(m@.take(6)[5] == m@[5]);
            assert(m@.take(6) != "image/"@);
            assert(m@.take(6) != "video/"@);
        }
    }
    img || vid
}

} // verus!
