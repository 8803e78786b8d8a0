//! HTML shell synthesis: locating the literal injection markers in the
//! template and rewriting them into script and stylesheet tags, for the
//! production and the development variant.

use vstd::prelude::*;
use vstd::string::StrSliceExecFns;
use vstd::string::StringExecFns;
use vstd::string::StringSliceAdditionalSpecFns;
use vstd::utf8::encode_utf8;

use crate::table::BundleError;

verus! {

/// The literal marker that the script tags replace.
pub open spec fn script_marker() -> Seq<char> {
    "<!--vite-embed script injection-->"@
}

/// The literal marker that the stylesheet links replace.
pub open spec fn style_marker() -> Seq<char> {
    "<!--vite-embed stylesheet injection-->"@
}

/// The origin that development mode loads from and proxies to.
pub open spec fn dev_origin() -> Seq<char> {
    "http://localhost:5173"@
}

/// The single module-script tag of the production shell.
pub open spec fn prod_script_tag(entry_file: Seq<char>) -> Seq<char> {
    "<script type=\"module\" src=\"/"@ + entry_file + "\"></script>"@
}

/// One stylesheet link of the production shell.
pub open spec fn link_tag(css_file: Seq<char>) -> Seq<char> {
    "<link rel=\"stylesheet\" href=\"/"@ + css_file + "\">"@
}

/// All stylesheet links, in manifest order.
pub open spec fn link_tag_list(css: Seq<Seq<char>>) -> Seq<char>
    decreases css.len(),
{
    if css.len() == 0 {
        Seq::<char>::empty()
    } else {
        link_tag(css[0]) + link_tag_list(css.drop_first())
    }
}

/// The two module-script tags of the development shell: the dev server's
/// client-runtime bootstrap, then the entry module, both at the dev origin.
pub open spec fn dev_script_tags(entry_point: Seq<char>) -> Seq<char> {
    "<script type=\"module\" src=\""@ + dev_origin() + "/@vite/client\"></script>\n<script type=\"module\" src=\""@
        + dev_origin() + "/"@ + entry_point + "\"></script>"@
}

/// Whether `needle` occurs in `hay` starting at index `i`.
pub open spec fn matches_at(hay: Seq<u8>, needle: Seq<u8>, i: int) -> bool {
    &&& 0 <= i
    &&& i + needle.len() <= hay.len()
    &&& hay.subrange(i, i + needle.len()) == needle
}

/// The first occurrence of `needle` in `hay` at or after `i`, if any.
pub open spec fn find_from(hay: Seq<u8>, needle: Seq<u8>, i: int) -> Option<int>
    decreases hay.len() - i,
{
    if i < 0 || i + needle.len() > hay.len() {
        None
    } else if matches_at(hay, needle, i) {
        Some(i)
    } else if i < hay.len() {
        find_from(hay, needle, i + 1)
    } else {
        None
    }
}

/// The first occurrence of `needle` in `hay`, if any.
pub open spec fn find_sub(hay: Seq<u8>, needle: Seq<u8>) -> Option<int> {
    find_from(hay, needle, 0)
}

/// `hay` with the first occurrence of `needle` replaced by `replacement`,
/// or nothing when `needle` does not occur.
pub open spec fn replace_first(hay: Seq<u8>, needle: Seq<u8>, replacement: Seq<u8>) -> Option<
    Seq<u8>,
> {
    match find_sub(hay, needle) {
        Option::None => Option::None,
        Option::Some(i) => Option::Some(
            hay.take(i) + replacement + hay.skip(i + needle.len()),
        ),
    }
}

/// The production shell: the script marker rewritten to the entry's module
/// tag, then the stylesheet marker rewritten to the link list. Nothing when
/// either marker is absent.
pub open spec fn prod_shell(template: Seq<u8>, entry_file: Seq<char>, css: Seq<Seq<char>>) -> Option<
    Seq<u8>,
> {
    match replace_first(template, encode_utf8(script_marker()), encode_utf8(prod_script_tag(entry_file))) {
        Option::None => Option::None,
        Option::Some(t) => replace_first(t, encode_utf8(style_marker()), encode_utf8(link_tag_list(css))),
    }
}

/// The development shell: the script marker rewritten to the two dev-origin
/// script tags. Nothing when the marker is absent.
pub open spec fn dev_shell(template: Seq<u8>, entry_point: Seq<char>) -> Option<Seq<u8>> {
    replace_first(template, encode_utf8(script_marker()), encode_utf8(dev_script_tags(entry_point)))
}

/// A found index really is a match, and is the first one at or after `s`.
proof fn lemma_find_from_some(hay: Seq<u8>, needle: Seq<u8>, s: int, i: int)
    requires
        find_from(hay, needle, s) == Some(i),
    ensures
        s <= i,
        matches_at(hay, needle, i),
    decreases hay.len() - s,
{
    if s < 0 || s + needle.len() > hay.len() {
    } else if matches_at(hay, needle, s) {
    } else if s < hay.len() {
        lemma_find_from_some(hay, needle, s + 1, i);
    }
}

fn push_byte_range(dst: &mut Vec<u8>, src: &Vec<u8>, from: usize, to: usize)
    requires
        from <= to <= src@.len(),
    ensures
        final(dst)@ == old(dst)@ + src@.subrange(from as int, to as int),
{
    let mut j: usize = from;
    while j < to
        invariant
            from <= j <= to <= src@.len(),
            dst@ == old(dst)@ + src@.subrange(from as int, j as int),
        decreases to - j,
    {
        let b: u8 = src[j];
        dst.push(b);
        proof {
            assert(src@.subrange(from as int, j + 1 as int) =~= src@.subrange(
                from as int,
                j as int,
            ).push(src@[j as int]));
            assert(dst@ =~= old(dst)@ + src@.subrange(from as int, j + 1 as int));
        }
        j = j + 1;
    }
    proof {
        assert(dst@ =~= old(dst)@ + src@.subrange(from as int, to as int));
    }
}

fn match_at(hay: &Vec<u8>, needle: &Vec<u8>, i: usize) -> (r: bool)
    requires
        i + needle@.len() <= hay@.len(),
    ensures
        r == matches_at(hay@, needle@, i as int),
{
    let hay_len: usize = hay.len();
    let mut j: usize = 0;
    while j < needle.len()
        invariant
            i + needle@.len() <= hay@.len(),
            hay@.len() == hay_len,
            j <= needle@.len(),
            forall|k: int| 0 <= k < j ==> hay@[i + k] == needle@[k],
        decreases needle@.len() - j,
    {
        if hay[i + j] != needle[j] {
            proof {
                assert(hay@.subrange(i as int, i + needle@.len())[j as int] == hay@[i + j]);
                assert(hay@.subrange(i as int, i + needle@.len()) != needle@);
            }
            return false;
        }
        j = j + 1;
    }
    proof {
        assert(hay@.subrange(i as int, i + needle@.len()) =~= needle@);
    }
    true
}

/// The index of the first occurrence of `needle` in `hay`, if any.
pub fn find_marker(hay: &Vec<u8>, needle: &Vec<u8>) -> (r: Option<usize>)
    ensures
        r matches Some(i) ==> find_sub(hay@, needle@) == Some(i as int),
        r is None ==> find_sub(hay@, needle@) is None,
{
    if needle.len() > hay.len() {
        return None;
    }
    let end: usize = hay.len() - needle.len();
    let mut i: usize = 0;
    while i <= end
        invariant
            needle@.len() <= hay@.len(),
            hay@.len() <= usize::MAX,
            end == hay@.len() - needle@.len(),
            i <= end + 1,
            find_sub(hay@, needle@) == find_from(hay@, needle@, i as int),
        decreases end + 1 - i,
    {
        if match_at(hay, needle, i) {
            return Some(i);
        }
        proof {
            if needle@.len() == 0 {
                assert(hay@.subrange(i as int, i as int) =~= needle@);
            }
            assert(find_from(hay@, needle@, i as int) == find_from(hay@, needle@, i + 1));
        }
        i = i + 1;
    }
    None
}

/// `hay` with its first occurrence of `needle` replaced by `replacement`;
/// nothing when `needle` does not occur.
pub fn replace_marker(hay: &Vec<u8>, needle: &Vec<u8>, replacement: &Vec<u8>) -> (r: Option<
    Vec<u8>,
>)
    ensures
        r matches Some(v) ==> replace_first(hay@, needle@, replacement@) == Some(v@),
        r is None <==> replace_first(hay@, needle@, replacement@) is None,
{
    match find_marker(hay, needle) {
        None => None,
        Some(i) => {
            proof {
                lemma_find_from_some(hay@, needle@, 0, i as int);
            }
            let hay_len: usize = hay.len();
            let mut out: Vec<u8> = Vec::new();
            push_byte_range(&mut out, hay, 0, i);
            push_byte_range(&mut out, replacement, 0, replacement.len());
            push_byte_range(&mut out, hay, i + needle.len(), hay_len);
            proof {
                assert(replacement@.subrange(0, replacement@.len() as int) =~= replacement@);
                assert(out@ =~= hay@.take(i as int) + replacement@ + hay@.skip(
                    i + needle@.len(),
                ));
            }
            Some(out)
        },
    }
}

fn script_marker_bytes() -> (r: Vec<u8>)
    ensures
        r@ == encode_utf8(script_marker()),
{
    "<!--vite-embed script injection-->".as_bytes_vec()
}

fn style_marker_bytes() -> (r: Vec<u8>)
    ensures
        r@ == encode_utf8(style_marker()),
{
    "<!--vite-embed stylesheet injection-->".as_bytes_vec()
}

fn prod_script_tag_bytes(entry_file: &String) -> (r: Vec<u8>)
    ensures
        r@ == encode_utf8(prod_script_tag(entry_file@)),
{
    let mut s = String::from_str("<script type=\"module\" src=\"/");
    s.append(entry_file.as_str());
    s.append("\"></script>");
    s.as_str().as_bytes_vec()
}

fn link_tag_list_bytes(css: &Vec<String>) -> (r: Vec<u8>)
    ensures
        r@ == encode_utf8(link_tag_list(css.deep_view())),
{
    let mut s = String::new();
    let mut i: usize = 0;
    while i < css.len()
        invariant
            i <= css@.len(),
            css.deep_view().len() == css@.len(),
            s@ == link_tag_list(css.deep_view().take(i as int)),
        decreases css@.len() - i,
    {
        let mut tag = String::from_str("<link rel=\"stylesheet\" href=\"/");
        tag.append(css[i].as_str());
        tag.append("\">");
        proof {
            assert(css.deep_view()[i as int] == css@[i as int]@);
            lemma_link_tag_list_snoc(css.deep_view(), i as int);
        }
        s.append(tag.as_str());
        i = i + 1;
    }
    proof {
        assert(css.deep_view().take(css.deep_view().len() as int) =~= css.deep_view());
    }
    s.as_str().as_bytes_vec()
}

/// Extending the stylesheet list by one appends one link tag.
proof fn lemma_link_tag_list_snoc(css: Seq<Seq<char>>, i: int)
    requires
        0 <= i < css.len(),
    ensures
        link_tag_list(css.take(i + 1)) == link_tag_list(css.take(i)) + link_tag(css[i]),
    decreases i,
{
    if i == 0 {
        assert(css.take(1).drop_first() =~= css.take(0));
        assert(css.take(1)[0] == css[0]);
        assert(link_tag_list(css.take(0)) == Seq::<char>::empty());
        assert(link_tag_list(css.take(1)) =~= link_tag(css[0]) + link_tag_list(css.take(0)));
        assert(link_tag_list(css.take(0)) + link_tag(css[0]) =~= link_tag(css[0]));
        assert(link_tag_list(css.take(1)) =~= link_tag_list(css.take(0)) + link_tag(css[0]));
    } else {
        lemma_link_tag_list_snoc(css.drop_first(), i - 1);
        assert(css.take(i + 1).drop_first() =~= css.drop_first().take(i));
        assert(css.take(i).drop_first() =~= css.drop_first().take(i - 1));
        assert(css.drop_first()[i - 1] == css[i]);
        assert(link_tag_list(css.take(i + 1)) == link_tag(css[0]) + link_tag_list(
            css.drop_first().take(i),
        ));
        assert(link_tag_list(css.take(i)) == link_tag(css[0]) + link_tag_list(
            css.drop_first().take(i - 1),
        ));
        assert(link_tag_list(css.take(i + 1)) =~= link_tag_list(css.take(i)) + link_tag(css[i]));
    }
}

fn dev_script_tags_bytes(entry_point: &String) -> (r: Vec<u8>)
    ensures
        r@ == encode_utf8(dev_script_tags(entry_point@)),
{
    let mut s = String::from_str("<script type=\"module\" src=\"");
    s.append("http://localhost:5173");
    s.append("/@vite/client\"></script>\n<script type=\"module\" src=\"");
    s.append("http://localhost:5173");
    s.append("/");
    s.append(entry_point.as_str());
    s.append("\"></script>");
    s.as_str().as_bytes_vec()
}

/// Synthesizes the production shell from the template bytes: the entry's
/// script tag at the script marker, the stylesheet links at the stylesheet
/// marker. Fails exactly when a marker is absent.
pub fn synth_prod_shell(template: &Vec<u8>, entry_file: &String, css: &Vec<String>) -> (r: Result<
    Vec<u8>,
    BundleError,
>)
    ensures
        r matches Ok(v) ==> prod_shell(template@, entry_file@, css.deep_view()) == Some(v@),
        r is Err <==> prod_shell(template@, entry_file@, css.deep_view()) is None,
        r is Err ==> r matches Err(BundleError::TemplateMarkerError),
{
    let marker = script_marker_bytes();
    let tag = prod_script_tag_bytes(entry_file);
    match replace_marker(template, &marker, &tag) {
        None => Err(BundleError::TemplateMarkerError),
        Some(t) => {
            let marker2 = style_marker_bytes();
            let links = link_tag_list_bytes(css);
            match replace_marker(&t, &marker2, &links) {
                None => Err(BundleError::TemplateMarkerError),
                Some(out) => Ok(out),
            }
        },
    }
}

/// Synthesizes the development shell from the template bytes: the two
/// dev-origin script tags at the script marker. Fails exactly when the
/// marker is absent.
pub fn synth_dev_shell(template: &Vec<u8>, entry_point: &String) -> (r: Result<
    Vec<u8>,
    BundleError,
>)
    ensures
        r matches Ok(v) ==> dev_shell(template@, entry_point@) == Some(v@),
        r is Err <==> dev_shell(template@, entry_point@) is None,
        r is Err ==> r matches Err(BundleError::TemplateMarkerError),
{
    let marker = script_marker_bytes();
    let tags = dev_script_tags_bytes(entry_point);
    match replace_marker(template, &marker, &tags) {
        None => Err(BundleError::TemplateMarkerError),
        Some(out) => Ok(out),
    }
}

} // verus!
