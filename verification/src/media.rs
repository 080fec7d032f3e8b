//! Cover images: their content types, file names in the local cache, and the
//! `data:` URLs the interface shows them through.

use vstd::prelude::*;
use base64::Engine;
use crate::names::{extension_of, stem_of};
use crate::text::{contains_seq, lemma_rfind_is, occurs_at, rfind, str_contains, str_eq};
use crate::names::file_stem;

verus! {

/// The text base64's standard engine (standard alphabet, with padding)
/// writes for `bytes`.
pub uninterp spec fn base64_standard(bytes: Seq<u8>) -> Seq<char>;

/// `base64::engine::general_purpose::STANDARD.encode(bytes)`: the result is
/// the standard base64 text of `bytes`, a function of `bytes` alone. The
/// crate panics when the encoded length overflows `usize`, so such inputs are
/// left out.
#[verifier::external_body]
fn base64_encode(bytes: &[u8]) -> (s: String)
    requires
        (bytes@.len() / 3) * 4 + 4 <= usize::MAX,
    ensures
        s@ == base64_standard(bytes@),
{
    base64::engine::general_purpose::STANDARD.encode(bytes)
}

/// `data:{mime};base64,{encoded}`.
pub open spec fn data_url_of(mime: Seq<char>, encoded: Seq<char>) -> Seq<char> {
    "data:"@ + mime + ";base64,"@ + encoded
}

/// The `data:` URL of already encoded content.
pub fn data_url_from(mime: &str, encoded: &str) -> (u: String)
    ensures
        u@ == data_url_of(mime@, encoded@),
{
    let mut u = String::from_str("data:");
    u.append(mime);
    u.append(";base64,");
    u.append(encoded);
    u
}

/// The `data:` URL of `bytes` of type `mime`.
pub fn data_url(mime: &str, bytes: &[u8]) -> (u: String)
    requires
        (bytes@.len() / 3) * 4 + 4 <= usize::MAX,
    ensures
        u@ == data_url_of(mime@, base64_standard(bytes@)),
{
    let encoded = base64_encode(bytes);
    data_url_from(mime, encoded.as_str())
}

/// The file extension a cover of content type `mime` is cached under.
pub open spec fn ext_from_mime_of(mime: Seq<char>) -> Seq<char> {
    if contains_seq(mime, "png"@) {
        "png"@
    } else if contains_seq(mime, "webp"@) {
        "webp"@
    } else {
        "jpg"@
    }
}

pub fn ext_from_mime(mime: &str) -> (e: &'static str)
    ensures
        e@ == ext_from_mime_of(mime@),
{
    if str_contains(mime, "png") {
        "png"
    } else if str_contains(mime, "webp") {
        "webp"
    } else {
        "jpg"
    }
}

/// The content type of a cached cover, by its extension.
pub open spec fn mime_from_ext_of(ext: Seq<char>) -> Seq<char> {
    if ext == "png"@ {
        "image/png"@
    } else if ext == "webp"@ {
        "image/webp"@
    } else {
        "image/jpeg"@
    }
}

pub fn mime_from_ext(ext: &str) -> (m: String)
    ensures
        m@ == mime_from_ext_of(ext@),
{
    if str_eq(ext, "png") {
        String::from_str("image/png")
    } else if str_eq(ext, "webp") {
        String::from_str("image/webp")
    } else {
        String::from_str("image/jpeg")
    }
}

/// The cache file name of a cover: `{slug}.{ext}`.
pub fn cover_file_name(slug: &str, content_type: &str) -> (n: String)
    ensures
        n@ == slug@ + "."@ + ext_from_mime_of(content_type@),
{
    let mut n = String::from_str(slug);
    n.append(".");
    n.append(ext_from_mime(content_type));
    n
}

/// A cached file holds the cover of `slug` when its stem is the slug.
pub fn is_cover_of(file_name: &str, slug: &str) -> (b: bool)
    ensures
        b == (stem_of(file_name@) == slug@),
{
    let stem = file_stem(file_name);
    str_eq(stem.as_str(), slug)
}

/// The content types a cover is stored under and read back as.
pub open spec fn is_cover_type(ct: Seq<char>) -> bool {
    ct == "image/png"@ || ct == "image/webp"@ || ct == "image/jpeg"@
}

/// A cover cached on its first fetch answers the next call with the same
/// `data:` URL: the cache file `{slug}.{ext}` is found by its stem, its
/// extension is the one it was written with, and that extension gives back
/// the content type it came with. (A slug must not be empty: `.png` has no
/// extension.)
pub proof fn law_cover_cache_round_trip(slug: Seq<char>, ct: Seq<char>, bytes: Seq<u8>)
    requires
        slug.len() > 0,
        is_cover_type(ct),
    ensures
        ({
            let name = slug + "."@ + ext_from_mime_of(ct);
            &&& stem_of(name) == slug
            &&& extension_of(name) == Some(ext_from_mime_of(ct))
            &&& mime_from_ext_of(ext_from_mime_of(ct)) == ct
            &&& data_url_of(mime_from_ext_of(ext_from_mime_of(ct)), base64_standard(bytes))
                == data_url_of(ct, base64_standard(bytes))
        }),
{
    reveal_strlit("image/png");
    reveal_strlit("image/webp");
    reveal_strlit("image/jpeg");
    reveal_strlit("png");
    reveal_strlit("webp");
    reveal_strlit("jpg");
    reveal_strlit(".");
    let png = "png"@;
    let webp = "webp"@;
    if ct == "image/png"@ {
        assert(occurs_at(ct, png, 6)) by {
            assert(ct.subrange(6, 9) =~= png);
        }
    } else {
        assert forall|i: int| !occurs_at(ct, png, i) by {
            if occurs_at(ct, png, i) {
                assert(ct.subrange(i, i + 3)[0] == 'p' && ct.subrange(i, i + 3)[1] == 'n');
                assert(ct[i] == 'p' && ct[i + 1] == 'n');
            }
        }
        if ct == "image/webp"@ {
            assert(occurs_at(ct, webp, 6)) by {
                assert(ct.subrange(6, 10) =~= webp);
            }
        } else {
            assert forall|i: int| !occurs_at(ct, webp, i) by {
                if occurs_at(ct, webp, i) {
                    assert(ct.subrange(i, i + 4)[0] == 'w');
                    assert(ct[i] == 'w');
                }
            }
        }
    }
    let ext = ext_from_mime_of(ct);
    assert(ext.len() >= 3 && forall|i: int| 0 <= i < ext.len() ==> ext[i] != '.');
    let dot = "."@;
    let name = slug + dot + ext;
    assert(occurs_at(name, dot, slug.len() as int)) by {
        assert(name.subrange(slug.len() as int, slug.len() as int + 1) =~= dot);
    }
    assert forall|k: int| slug.len() < k implies !occurs_at(name, dot, k) by {
        if occurs_at(name, dot, k) {
            assert(name.subrange(k, k + 1)[0] == '.');
            assert(name[k] == ext[k - slug.len() - 1]);
        }
    }
    lemma_rfind_is(name, dot, slug.len() as int);
    assert(name != seq!['.', '.']) by {
        assert(name.len() >= 5);
    }
    assert(name.take(slug.len() as int) =~= slug);
    assert(name.skip(slug.len() as int + 1) =~= ext);
    assert(rfind(name, dot) == Some(slug.len() as int));
    assert(dot =~= seq!['.']);
    assert(stem_of(name) == slug);
    assert(extension_of(name) == Some(ext));
    assert("jpg"@[0] != "png"@[0] && "jpg"@[0] != "webp"@[0] && "webp"@[0] != "png"@[0]);
    assert(mime_from_ext_of(ext) == ct);
}

} // verus!
