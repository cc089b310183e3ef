//! Choosing the workspace media worth converting to WebP.
use vstd::prelude::*;
use vstd::string::{StrSliceExecFns, StringExecFns};
use vstd::utf8::is_ascii_chars;
use crate::workspace::{forward_slashed, forward_slashes};

verus! {

/// Directory of a workspace that holds its media.
pub const ASSETS_DIR: &'static str = "assets";

/// Rewrites the media references of the cards from an old relative path to
/// a new one.
pub const UPDATE_MEDIA_SQL: &'static str = "UPDATE cards
                 SET media = REPLACE(media, ?1, ?2)
                 WHERE media LIKE '%' || ?1 || '%'";

/// The Unicode lowercase of a text, as `str::to_lowercase` computes it.
pub uninterp spec fn lowercase(s: Seq<char>) -> Seq<char>;

/// The lowercase of an ASCII character: `A` to `Z` become `a` to `z`, every
/// other character stays as it is.
pub open spec fn ascii_lower(c: char) -> char {
    if 65 <= (c as u32) && (c as u32) <= 90 {
        ((c as u32) + 32) as char
    } else {
        c
    }
}

/// The lowercase of an ASCII text.
pub open spec fn ascii_lowercase(s: Seq<char>) -> Seq<char> {
    s.map_values(|c: char| ascii_lower(c))
}

/// Calls `str::to_lowercase`. Claimed: the result is `lowercase` of the
/// text, and on ASCII text it lowers `A` to `Z` and keeps every other
/// character, as Unicode's case mapping does for ASCII.
#[verifier::external_body]
fn to_lowercase(s: &str) -> (res: String)
    ensures
        res@ == lowercase(s@),
        is_ascii_chars(s@) ==> res@ == ascii_lowercase(s@),
{
    s.to_lowercase()
}

/// A lowercase extension of an image format worth converting: png, jpg or
/// jpeg.
pub open spec fn is_heavy_format(lowercase_extension: Seq<char>) -> bool {
    lowercase_extension == "png"@ || lowercase_extension == "jpg"@ || lowercase_extension == "jpeg"@
}

/// An extension whose images are worth converting: png, jpg or jpeg, in any
/// case.
pub open spec fn is_convertible_extension(extension: Seq<char>) -> bool {
    is_heavy_format(lowercase(extension))
}

/// Whether an extension, already in lowercase, names a format worth
/// converting.
pub fn heavy_format(lowercase_extension: &String) -> (res: bool)
    ensures
        res == is_heavy_format(lowercase_extension@),
{
    let png = String::from_str("png");
    let jpg = String::from_str("jpg");
    let jpeg = String::from_str("jpeg");
    *lowercase_extension == png || *lowercase_extension == jpg || *lowercase_extension == jpeg
}

/// Whether images with this extension are converted.
pub fn is_convertible_image(extension: &str) -> (res: bool)
    ensures
        res == is_convertible_extension(extension@),
        is_ascii_chars(extension@) ==> res == is_heavy_format(ascii_lowercase(extension@)),
{
    let l = to_lowercase(extension);
    heavy_format(&l)
}

/// An entry found under the assets directory: whether it is a file, and its
/// extension where it has one that is valid text.
#[derive(Debug, Clone, PartialEq, Eq)]
pub struct AssetEntry {
    pub is_file: bool,
    pub extension: Option<String>,
}

/// An entry that is converted: a file with a convertible extension.
pub open spec fn is_convertible(e: AssetEntry) -> bool {
    e.is_file && match e.extension {
        Some(x) => is_convertible_extension(x@),
        None => false,
    }
}

/// The positions of the convertible entries, in order.
pub open spec fn convertible_positions(entries: Seq<AssetEntry>) -> Seq<usize>
    decreases entries.len(),
{
    if entries.len() == 0 {
        Seq::empty()
    } else {
        let prev = convertible_positions(entries.drop_last());
        if is_convertible(entries.last()) {
            prev.push((entries.len() - 1) as usize)
        } else {
            prev
        }
    }
}

/// An entry picked for conversion: a file whose extension, lowered, is
/// `png`, `jpg` or `jpeg`.
pub open spec fn picked(e: AssetEntry) -> bool {
    e.is_file && match e.extension {
        Some(x) => lowercase(x@) == "png"@ || lowercase(x@) == "jpg"@ || lowercase(x@) == "jpeg"@,
        None => false,
    }
}

/// The positions chosen are exactly those of the files whose extension,
/// lowered, is png, jpg or jpeg, each once and in increasing order.
pub proof fn lemma_convertible_positions(entries: Seq<AssetEntry>)
    requires
        entries.len() <= usize::MAX,
    ensures
        forall|i: int| 0 <= i < entries.len() ==> (convertible_positions(entries).contains(i as usize) <==> #[trigger] picked(entries[i])),
        forall|k: int| 0 <= k < convertible_positions(entries).len() ==> (#[trigger] convertible_positions(entries)[k]) < entries.len(),
        forall|k: int, l: int|
            0 <= k < l < convertible_positions(entries).len() ==> #[trigger] convertible_positions(entries)[k]
                < #[trigger] convertible_positions(entries)[l],
    decreases entries.len(),
{
    if entries.len() > 0 {
        let before = entries.drop_last();
        lemma_convertible_positions(before);
        let prev = convertible_positions(before);
        let cur = convertible_positions(entries);
        let last = (entries.len() - 1) as usize;
        assert(last as int == entries.len() - 1);
        assert(picked(entries.last()) == is_convertible(entries.last()));
        assert forall|k: int| 0 <= k < prev.len() implies prev[k] < last by {
            assert(prev[k] < before.len());
        }
        assert forall|k: int| 0 <= k < cur.len() implies cur[k] < entries.len() by {
            if k < prev.len() {
                assert(cur[k] == prev[k]);
                assert(prev[k] < before.len());
            }
        }
        assert forall|k: int, l: int| 0 <= k < l < cur.len() implies #[trigger] cur[k] < #[trigger] cur[l] by {
            if l < prev.len() {
                assert(prev[k] < prev[l]);
            } else {
                assert(cur[k] == prev[k]);
                assert(prev[k] < before.len());
            }
        }
        assert forall|i: int| 0 <= i < entries.len() implies (cur.contains(i as usize) <==> #[trigger] picked(entries[i])) by {
            if i < entries.len() - 1 {
                assert(before[i] == entries[i]);
                assert(picked(before[i]) == picked(entries[i]));
                if cur.contains(i as usize) {
                    let k = choose|k: int| 0 <= k < cur.len() && cur[k] == i as usize;
                    if k < prev.len() {
                        assert(prev[k] == i as usize);
                    }
                }
                if prev.contains(i as usize) {
                    let k = choose|k: int| 0 <= k < prev.len() && prev[k] == i as usize;
                    assert(cur[k] == i as usize);
                }
            } else {
                if cur.contains(i as usize) {
                    let k = choose|k: int| 0 <= k < cur.len() && cur[k] == i as usize;
                    if k < prev.len() {
                        assert(prev[k] < before.len());
                    }
                }
                if picked(entries[i]) {
                    assert(cur[cur.len() - 1] == last);
                }
            }
        }
    }
}

/// The positions, in order, of the entries to convert: exactly the files
/// whose extension, lowered, is png, jpg or jpeg.
pub fn images_to_convert(entries: &Vec<AssetEntry>) -> (res: Vec<usize>)
    ensures
        res@ == convertible_positions(entries@),
        forall|i: int| 0 <= i < entries.len() ==> (res@.contains(i as usize) <==> #[trigger] picked(entries@[i])),
        forall|k: int, l: int| 0 <= k < l < res.len() ==> #[trigger] res@[k] < #[trigger] res@[l],
        forall|k: int| 0 <= k < res.len() ==> (#[trigger] res@[k]) < entries.len(),
{
    let len = entries.len();
    proof {
        assert(entries@.len() == len as nat);
        lemma_convertible_positions(entries@);
    }
    let mut res: Vec<usize> = Vec::new();
    let n = entries.len();
    assert(entries@.take(0) =~= Seq::<AssetEntry>::empty());
    for i in 0..n
        invariant
            n == entries@.len(),
            res@ == convertible_positions(entries@.take(i as int)),
    {
        let e = &entries[i];
        assert(entries@.take(i + 1).drop_last() =~= entries@.take(i as int));
        assert(entries@.take(i + 1).last() == entries@[i as int]);
        let take = match &e.extension {
            Some(x) => e.is_file && is_convertible_image(x.as_str()),
            None => false,
        };
        if take {
            res.push(i);
        }
    }
    assert(entries@.take(n as int) =~= entries@);
    res
}

/// The path `p` ends in the file extension `ext` (as `Path::extension`
/// gives it for a file): `ext` is not empty and follows a dot, and a name
/// stem stands before that dot.
pub open spec fn has_extension(p: Seq<char>, ext: Seq<char>) -> bool {
    &&& ext.len() > 0
    &&& p.len() > ext.len() + 1
    &&& p[p.len() - ext.len() - 1] == '.'
    &&& p.skip(p.len() - ext.len()) == ext
}

/// The text `webp`.
pub open spec fn webp_extension() -> Seq<char> {
    seq!['w', 'e', 'b', 'p']
}

/// The path of the WebP file that replaces the file at `p`, whose
/// extension is `ext`: the extension replaced by `webp`, as
/// `Path::set_extension` does.
pub open spec fn webp_replacement(p: Seq<char>, ext: Seq<char>) -> Seq<char> {
    p.take(p.len() - ext.len()) + webp_extension()
}

/// The replacement of a file with an extension has the extension `webp`,
/// and the rest of its path is the original's.
pub proof fn lemma_webp_replacement(p: Seq<char>, ext: Seq<char>)
    requires
        has_extension(p, ext),
    ensures
        has_extension(webp_replacement(p, ext), webp_extension()),
        webp_replacement(p, ext).take(p.len() - ext.len()) == p.take(p.len() - ext.len()),
{
    let w = webp_replacement(p, ext);
    let k = p.len() - ext.len();
    assert(w.len() == k + 4);
    assert(w[k - 1] == p[k - 1]);
    assert(w.skip(k) =~= webp_extension());
    assert(w.take(k) =~= p.take(k));
}

/// The path of the WebP file that replaces the file at `relative`, whose
/// extension is `extension`; `None` where the path does not end in that
/// extension.
pub fn webp_path_for(relative: &str, extension: &str) -> (res: Option<String>)
    ensures
        match res {
            Some(p) => has_extension(relative@, extension@) && p@ == webp_replacement(relative@, extension@),
            None => !has_extension(relative@, extension@),
        },
{
    let n = relative.unicode_len();
    let k = extension.unicode_len();
    if k == 0 || n <= k || n - k <= 1 {
        return None;
    }
    if relative.get_char(n - k - 1) != '.' {
        return None;
    }
    let tail = String::from_str(relative.substring_char(n - k, n));
    let ext = String::from_str(extension);
    if tail != ext {
        assert(tail@ != ext@);
        return None;
    }
    let webp = "webp";
    proof {
        reveal_strlit("webp");
        assert(webp@ =~= webp_extension());
    }
    let mut res = String::from_str(relative.substring_char(0, n - k));
    res.append(webp);
    Some(res)
}

/// The bytes open a WebP file: a RIFF container of form `WEBP`.
pub open spec fn is_webp_file(bytes: Seq<u8>) -> bool {
    &&& bytes.len() >= 12
    &&& bytes.take(4) == seq![0x52u8, 0x49u8, 0x46u8, 0x46u8]
    &&& bytes.subrange(8, 12) == seq![0x57u8, 0x45u8, 0x42u8, 0x50u8]
}

/// A lowercase extension that `image::ImageFormat::from_extension` maps to
/// a format this build can decode: JPEG (`jpg`, `jpeg`, `jfif`), PNG (`png`,
/// `apng`) or WebP (`webp`).
pub open spec fn is_decodable_extension(lowercase_extension: Seq<char>) -> bool {
    ||| lowercase_extension == "jpg"@
    ||| lowercase_extension == "jpeg"@
    ||| lowercase_extension == "jfif"@
    ||| lowercase_extension == "png"@
    ||| lowercase_extension == "apng"@
    ||| lowercase_extension == "webp"@
}

/// Decodes an image with `image::load_from_memory_with_format`, in the
/// format that `image::ImageFormat::from_extension` gives for `extension`,
/// and encodes it with `write_to` as (lossless) WebP. Claimed: what comes
/// back opens as a WebP file, since the encoder writes the `RIFF`/`WEBP`
/// header first; and it comes back only for an extension whose ASCII
/// lowercase names JPEG, PNG or WebP, the formats this build has decoders
/// for (`from_extension` lowers the extension with `to_ascii_lowercase`).
/// Which images decode, and the exact bytes, are left unsaid: decoders may
/// take machine-specific paths.
#[verifier::external_body]
fn webp_of_image(image: &[u8], extension: &str) -> (res: Option<Vec<u8>>)
    ensures
        res matches Some(webp) ==> is_webp_file(webp@),
        res is Some ==> is_decodable_extension(ascii_lowercase(extension@)),
{
    let format = image::ImageFormat::from_extension(extension)?;
    let decoded = image::load_from_memory_with_format(image, format).ok()?;
    let mut out = std::io::Cursor::new(Vec::new());
    decoded.write_to(&mut out, image::ImageFormat::WebP).ok()?;
    Some(out.into_inner())
}

/// An image converted to WebP: the workspace-relative path of its
/// replacement with the system's separators, where the WebP file goes; the
/// paths of the original and of the replacement as the cards' media refer
/// to them; and the WebP bytes.
pub struct WebpConversion {
    pub new_path: String,
    pub old_src: String,
    pub new_src: String,
    pub webp: Vec<u8>,
}

/// Converts the image at `relative` (its path under the workspace, with the
/// system's separators), whose extension is `extension` and whose bytes are
/// `image`, to WebP, decoding it by that extension. The new path replaces
/// the extension with `webp`; both paths are then given forward slashes.
/// `None` where the path does not end in the extension, or the image cannot
/// be decoded or encoded.
pub fn convert_image(relative: &str, extension: &str, image: &[u8]) -> (res: Option<WebpConversion>)
    ensures
        !has_extension(relative@, extension@) ==> res is None,
        res matches Some(c) ==> {
            &&& has_extension(relative@, extension@)
            &&& c.new_path@ == webp_replacement(relative@, extension@)
            &&& c.old_src@ == forward_slashed(relative@)
            &&& c.new_src@ == forward_slashed(webp_replacement(relative@, extension@))
            &&& is_webp_file(c.webp@)
            &&& is_decodable_extension(ascii_lowercase(extension@))
        },
{
    let new_path = match webp_path_for(relative, extension) {
        Some(p) => p,
        None => {
            return None;
        },
    };
    match webp_of_image(image, extension) {
        Some(webp) => Some(
            WebpConversion {
                old_src: forward_slashes(relative),
                new_src: forward_slashes(new_path.as_str()),
                new_path,
                webp,
            },
        ),
        None => None,
    }
}

} // verus!
