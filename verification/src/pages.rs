//! The page generators: the per-image detail document and the gallery
//! index, each an exact substitution of filenames into a fixed template.

use vstd::prelude::*;
use vstd::string::StrSliceExecFns;
use vstd::string::StringExecFns;
use crate::GalleryError;
use crate::views_of;

verus! {

/// Detail page template up to the page's own URL, which ends in the image's base name.
pub const DETAIL_A: &'static str = "<html><head>\n\t\t<meta charset=\"UTF-8\">\n\t\t<link rel=\"stylesheet\" type=\"text/css\" href=\"each.css\">\n        <meta property=\"og:title\" content=\"📷\" />\n        <meta property=\"og:description\" content=\"📸\" />\n        <meta property=\"og:type\" content=\"website\" />\n        <meta property=\"og:url\" content=\"https://slnq.github.io/photos/";

/// Detail page template between the page URL and the preview image URL.
pub const DETAIL_B: &'static str = ".html\" />\n        <meta property=\"og:image\" content=\"https://slnq.github.io/photos/imgs/";

/// Detail page template between the preview image URL and the card image URL.
pub const DETAIL_C: &'static str = "\" />\n        <meta property=\"og:site_name\" content=\"📸\" />\n        <meta name=\"twitter:card\" content=\"summary_large_image\" />\n        <meta name=\"twitter:title\" content=\"📷\" /><meta name=\"twitter:description\" content=\"📸\" /><meta name=\"twitter:image\" content=\"https://slnq.github.io/photos/imgs/";

/// Detail page template between the card image URL and the displayed image path.
pub const DETAIL_D: &'static str = "\" /><link href=\"./imgs/f.ico\" rel=\"icon\"></head><body class=\"bdy\"><img src=\"./imgs/";

/// Detail page template after the displayed image path: the caption script and the tail of the document.
pub const DETAIL_E: &'static str = "\" class=\"photo1\"/></body></html><div id=\"caption\"></div><script src=\"https://cdn.rawgit.com/exif-js/exif-js/master/exif.js\"></script><script>\twindow.onload = function() {\t  var element = document.getElementsByClassName('photo1')[0];\t  var caption = document.getElementById('caption');\t  if (element) {\t\tEXIF.getData(element, function() {\t\t  var userComment = EXIF.getTag(this, 'UserComment');\t\t  if (userComment) {\t\t\tvar trimmedComment = userComment.slice(8);\t\t\tvar decodedComment = decodeUserComment(trimmedComment);\t\t\tcaption.innerHTML += decodedComment;\t\t  }\t\t});\t  } else {\t\tconsole.error('Class \"photo1\" not found');\t  }\t};\tfunction decodeUserComment(comment) {\t  try {\t\tvar decoder = new TextDecoder('utf-16le');\t\treturn decoder.decode(new Uint8Array(comment));\t  } catch (e) {\t\tconsole.error('Failed to decode UserComment', e);\t\treturn comment;\t  }\t}  </script>\n\t\t";

/// Index page template before the image grid.
pub const INDEX_HEAD: &'static str = "<html><head><link rel=\"stylesheet\" type=\"text/css\" href=\"main.css\"><link href=\"./imgs/f.ico\" rel=\"icon\"></head><body><div class=\"container\">";

/// Index page template after the image grid: the lightbox script and the tail of the document.
pub const INDEX_FOOT: &'static str = "</div><script src=\"https://cdn.jsdelivr.net/npm/exif-js\"></script><div id=\"lightbox\">    <img id=\"lightboxImg\">    <div id=\"caption\"></div></div><script>window.onload = function() {    var images = document.querySelectorAll('.container img');    images.forEach(function(img) {        img.addEventListener('click', function() {            openLightbox(img);         });    });    var lightbox = document.getElementById('lightbox');    var lightboxImg = document.getElementById('lightboxImg');    lightbox.addEventListener('click', function(e) {        if (e.target !== lightboxImg) {            closeLightbox();         }    });    lightboxImg.addEventListener('click', function() {        var src = lightboxImg.src;        var filename = src.split('/').pop();         var basename = filename.split('.').slice(0, -1).join('.');         window.location.href = basename + \".html\";     });};function openLightbox(element) {    var lightbox = document.getElementById('lightbox');    var lightboxImg = document.getElementById('lightboxImg');    var caption = document.getElementById('caption');    lightboxImg.src = element.src;      caption.innerHTML = element.alt;      EXIF.getData(element, function() {        var userComment = EXIF.getTag(this, 'UserComment');        if (userComment) {            var trimmedComment = userComment.slice(8);             var decodedComment = decodeUserComment(trimmedComment);            caption.innerHTML += decodedComment;        }    });    lightbox.style.display = \"flex\";  lightbox.style.flexDirection = \"column\";  }function closeLightbox() {    var lightbox = document.getElementById('lightbox');    lightbox.style.display = \"none\";  }function decodeUserComment(userComment) {    var uint8Array = new Uint8Array(userComment);    var decoder = new TextDecoder('utf-16le');    return decoder.decode(uint8Array);}</script></body></html>";

/// Opening of one grid image tag, up to the filename.
pub const IMG_OPEN: &'static str = "<img src=\"./imgs/";

/// Closing of a grid image tag inside column 0.
pub const IMG_D1: &'static str = "\" class=\"d1\"/>";

/// Closing of the grid image tag that ends column 0.
pub const IMG_D1_LAST: &'static str = "\" class=\"d1\" id=\"lst\"/>";

/// Closing of a grid image tag that ends column 1 or the grid.
pub const IMG_PHOTO_LAST: &'static str = "\" class=\"photo\" id=\"lst\"/>";

/// Closing of an ordinary grid image tag.
pub const IMG_PHOTO: &'static str = "\" class=\"photo\"/>";

/// Separator emitted after the last member of columns 0 and 1.
pub const GROUP_BREAK: &'static str = "</br>";

/// Whether the name contains a dot, so that a base name can be split off.
pub open spec fn has_dot(name: Seq<char>) -> bool {
    exists|i: int| 0 <= i < name.len() && name[i] == '.'
}

/// The position of the first dot in the name.
pub open spec fn first_dot(name: Seq<char>) -> int {
    choose|i: int|
        0 <= i < name.len() && name[i] == '.' && (forall|j: int| 0 <= j < i ==> name[j] != '.')
}

/// The base name: everything before the first dot.
pub open spec fn base_of(name: Seq<char>) -> Seq<char> {
    name.take(first_dot(name))
}

/// The full text of one image's detail page.
pub open spec fn detail_page_text(name: Seq<char>) -> Seq<char> {
    DETAIL_A@ + base_of(name) + DETAIL_B@ + name + DETAIL_C@ + name + DETAIL_D@ + name
        + DETAIL_E@
}

/// Splits the base name off a filename: the part before the first dot.
/// A filename without a dot has no extension and is rejected.
pub fn base_name(name: &str) -> (r: Result<String, GalleryError>)
    ensures
        match r {
            Ok(b) => has_dot(name@) && b@ == base_of(name@),
            Err(e) => e == GalleryError::MissingExtension && !has_dot(name@),
        },
{
    let n = name.unicode_len();
    let mut i: usize = 0;
    while i < n
        invariant
            n == name@.len(),
            0 <= i <= n,
            forall|j: int| 0 <= j < i ==> name@[j] != '.',
        decreases n - i,
    {
        if name.get_char(i) == '.' {
            proof {
                let ii = i as int;
                assert(0 <= ii < name@.len() && name@[ii] == '.' && (forall|j: int|
                    0 <= j < ii ==> name@[j] != '.'));
                let w = first_dot(name@);
                assert(0 <= w < name@.len() && name@[w] == '.' && (forall|j: int|
                    0 <= j < w ==> name@[j] != '.'));
                assert(w == ii);
            }
            let b = name.substring_char(0, i);
            return Ok(b.to_owned());
        }
        i += 1;
    }
    Err(GalleryError::MissingExtension)
}

/// Renders one image's detail page: the fixed template with the image's base
/// name and filename substituted in.
pub fn generate_html(filename: &str) -> (r: Result<String, GalleryError>)
    ensures
        match r {
            Ok(h) => has_dot(filename@) && h@ == detail_page_text(filename@),
            Err(e) => e == GalleryError::MissingExtension && !has_dot(filename@),
        },
{
    let base = match base_name(filename) {
        Ok(b) => b,
        Err(e) => {
            return Err(e);
        },
    };
    let mut h = String::new();
    h.append(DETAIL_A);
    h.append(base.as_str());
    h.append(DETAIL_B);
    h.append(filename);
    h.append(DETAIL_C);
    h.append(filename);
    h.append(DETAIL_D);
    h.append(filename);
    h.append(DETAIL_E);
    proof {
        assert(h@ =~= detail_page_text(filename@));
    }
    Ok(h)
}

/// One grid entry of the index page: the image tag for position `i`, marked
/// when it closes column 0, closes column 1, or is the grid's last entry.
pub open spec fn img_tag(files: Seq<Seq<char>>, a1: int, a2: int, i: int) -> Seq<char> {
    if i + 1 < a1 {
        IMG_OPEN@ + files[i] + IMG_D1@
    } else if i + 1 == a1 {
        IMG_OPEN@ + files[i] + IMG_D1_LAST@
    } else if i + 1 == a1 + a2 || i == files.len() - 1 {
        IMG_OPEN@ + files[i] + IMG_PHOTO_LAST@
    } else {
        IMG_OPEN@ + files[i] + IMG_PHOTO@
    }
}

/// The text the index page holds for position `i`: the image tag, and the
/// group separator where columns 0 and 1 end.
pub open spec fn index_chunk(files: Seq<Seq<char>>, a1: int, a2: int, i: int) -> Seq<char> {
    img_tag(files, a1, a2, i) + if i + 1 == a1 || i + 1 == a1 + a2 {
        GROUP_BREAK@
    } else {
        Seq::<char>::empty()
    }
}

/// The concatenated grid text for the first `i` positions.
pub open spec fn index_items(files: Seq<Seq<char>>, a1: int, a2: int, i: int) -> Seq<char>
    decreases i,
{
    if i <= 0 {
        Seq::empty()
    } else {
        index_items(files, a1, a2, i - 1) + index_chunk(files, a1, a2, i - 1)
    }
}

/// The full text of the gallery index page.
pub open spec fn index_page_text(files: Seq<Seq<char>>, a1: int, a2: int) -> Seq<char> {
    INDEX_HEAD@ + index_items(files, a1, a2, files.len() as int) + INDEX_FOOT@
}

/// Renders the gallery index: every filename in the packed order, with the
/// boundary markers and group separators at positions `a1` and `a1 + a2`.
pub fn generate_index_html(image_files: &[String], a1: u32, a2: u32) -> (r: String)
    requires
        image_files@.len() < 0xFFFF_FFFF,
        image_files@.len() > 0 ==> a1 >= 1,
    ensures
        r@ == index_page_text(views_of(image_files@), a1 as int, a2 as int),
{
    let ghost vs = views_of(image_files@);
    let mut h = String::new();
    h.append(INDEX_HEAD);
    let n = image_files.len();
    let mut i: usize = 0;
    while i < n
        invariant
            n == image_files@.len(),
            n < 0xFFFF_FFFF,
            n > 0 ==> a1 >= 1,
            0 <= i <= n,
            vs == views_of(image_files@),
            h@ == INDEX_HEAD@ + index_items(vs, a1 as int, a2 as int, i as int),
        decreases n - i,
    {
        let name: &str = image_files[i].as_str();
        proof {
            assert(vs[i as int] == image_files@[i as int]@);
        }
        h.append(IMG_OPEN);
        h.append(name);
        let ip1: u64 = i as u64 + 1;
        if ip1 < a1 as u64 {
            h.append(IMG_D1);
        } else if ip1 == a1 as u64 {
            h.append(IMG_D1_LAST);
        } else if ip1 == a1 as u64 + a2 as u64 || i == n - 1 {
            h.append(IMG_PHOTO_LAST);
        } else {
            h.append(IMG_PHOTO);
        }
        if ip1 == a1 as u64 || ip1 == a1 as u64 + a2 as u64 {
            h.append(GROUP_BREAK);
        }
        i = i + 1;
        proof {
            assert(h@ =~= INDEX_HEAD@ + index_items(vs, a1 as int, a2 as int, i as int));
        }
    }
    h.append(INDEX_FOOT);
    proof {
        assert(h@ =~= index_page_text(vs, a1 as int, a2 as int));
    }
    h
}

} // verus!
