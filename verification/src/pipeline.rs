//! The pipeline's compute steps: filtering and probing the source files
//! and rendering every document of the gallery.

use vstd::prelude::*;
use crate::GalleryError;
use crate::order::is_reserved;
use crate::order::is_reserved_name;
use crate::pack::lemma_boundary_arithmetic;
use crate::pack::pack;
use crate::pack::ImageEntry;
use crate::pack::LayoutPlan;
use crate::pack::pack_model;
use crate::pack::packed_order;
use crate::pack::MAX_IMAGES;
use crate::pages::base_name;
use crate::pages::base_of;
use crate::pages::detail_page_text;
use crate::pages::generate_html;
use crate::pages::generate_index_html;
use crate::pages::has_dot;
use crate::pages::index_page_text;
use crate::probe::probe_dimensions;
use crate::probe::probed_dims;
use crate::views_of;

verus! {

/// One file of the source directory: its name and its encoded bytes.
pub struct SourceFile {
    pub name: String,
    pub data: Vec<u8>,
}

/// One generated output document: its target filename and its full text.
#[derive(Debug)]
pub struct Page {
    pub path: String,
    pub text: String,
}

/// The files that enter the gallery: everything but the reserved assets.
pub open spec fn eligible(files: Seq<SourceFile>) -> Seq<SourceFile> {
    files.filter(|f: SourceFile| !is_reserved_name(f.name@))
}

/// Whether probing yields usable dimensions: a recognised image whose
/// height is positive (the packer scales every width by the height).
pub open spec fn usable_dims(d: Option<(u32, u32)>) -> bool {
    match d {
        Some(p) => p.1 >= 1,
        None => false,
    }
}

/// Probes every eligible file, in the order given, skipping the reserved
/// assets. Succeeds exactly when every eligible file is a readable image
/// of positive height; the first unreadable file aborts the run.
pub fn build_entries(files: &Vec<SourceFile>) -> (r: Result<Vec<ImageEntry>, GalleryError>)
    ensures
        match r {
            Ok(entries) => {
                &&& entries@.len() == eligible(files@).len()
                &&& forall|i: int|
                    0 <= i < entries@.len() ==> {
                        &&& (#[trigger] entries@[i]).filename@ == eligible(files@)[i].name@
                        &&& probed_dims(eligible(files@)[i].data@) == Some(
                            (entries@[i].width, entries@[i].height),
                        )
                        &&& entries@[i].height >= 1
                    }
            },
            Err(e) => {
                &&& e == GalleryError::UnsupportedFormat
                &&& exists|i: int|
                    0 <= i < eligible(files@).len() && !usable_dims(
                        probed_dims(#[trigger] eligible(files@)[i].data@),
                    )
            },
        },
{
    let mut entries: Vec<ImageEntry> = Vec::new();
    let mut k: usize = 0;
    while k < files.len()
        invariant
            0 <= k <= files@.len(),
            entries@.len() == eligible(files@.take(k as int)).len(),
            forall|i: int|
                0 <= i < entries@.len() ==> {
                    &&& (#[trigger] entries@[i]).filename@ == eligible(
                        files@.take(k as int),
                    )[i].name@
                    &&& probed_dims(eligible(files@.take(k as int))[i].data@) == Some(
                        (entries@[i].width, entries@[i].height),
                    )
                    &&& entries@[i].height >= 1
                },
        decreases files@.len() - k,
    {
        let ghost pre = eligible(files@.take(k as int));
        let f = &files[k];
        let reserved = is_reserved(f.name.as_str());
        if !reserved {
            let (w, h) = match probe_dimensions(&f.data) {
                Ok(d) => d,
                Err(e) => {
                    proof {
                        lemma_eligible_extends(files@, k as int);
                        lemma_eligible_prefix(files@, k as int + 1);
                        assert(eligible(files@)[pre.len() as int] == files@[k as int]);
                    }
                    return Err(e);
                },
            };
            if h == 0 {
                proof {
                    lemma_eligible_extends(files@, k as int);
                    lemma_eligible_prefix(files@, k as int + 1);
                    assert(eligible(files@)[pre.len() as int] == files@[k as int]);
                }
                return Err(GalleryError::UnsupportedFormat);
            }
            entries.push(ImageEntry { filename: f.name.clone(), width: w, height: h });
        }
        k += 1;
        proof {
            lemma_eligible_extends(files@, k as int - 1);
        }
    }
    proof {
        assert(files@.take(files@.len() as int) =~= files@);
    }
    Ok(entries)
}

/// Extending the probed prefix by one file extends its eligible part by
/// that file exactly when the file is not reserved.
proof fn lemma_eligible_extends(files: Seq<SourceFile>, k: int)
    requires
        0 <= k < files.len(),
    ensures
        eligible(files.take(k + 1)) == if is_reserved_name(files[k].name@) {
            eligible(files.take(k))
        } else {
            eligible(files.take(k)).push(files[k])
        },
{
    reveal_with_fuel(Seq::<SourceFile>::filter, 2);
    let s = files.take(k + 1);
    assert(s.drop_last() =~= files.take(k));
    assert(s.last() == files[k]);
    assert(s.filter(|f: SourceFile| !is_reserved_name(f.name@)) == if is_reserved_name(
        files[k].name@,
    ) {
        s.drop_last().filter(|f: SourceFile| !is_reserved_name(f.name@))
    } else {
        s.drop_last().filter(|f: SourceFile| !is_reserved_name(f.name@)).push(files[k])
    });
}

/// Every eligible file of a prefix is eligible in the whole listing, at the
/// same position.
proof fn lemma_eligible_prefix(files: Seq<SourceFile>, k: int)
    requires
        0 <= k <= files.len(),
    ensures
        eligible(files.take(k)).len() <= eligible(files).len(),
        forall|i: int|
            0 <= i < eligible(files.take(k)).len() ==> #[trigger] eligible(files)[i] == eligible(
                files.take(k),
            )[i],
    decreases files.len() - k,
{
    if k < files.len() {
        lemma_eligible_extends(files, k);
        lemma_eligible_prefix(files, k + 1);
    } else {
        assert(files.take(k) =~= files);
    }
}

/// Renders one detail page per entry, in order. Succeeds exactly when every
/// filename carries an extension to derive the page's name from.
pub fn render_pages(entries: &Vec<ImageEntry>) -> (r: Result<Vec<Page>, GalleryError>)
    ensures
        match r {
            Ok(pages) => {
                &&& pages@.len() == entries@.len()
                &&& forall|i: int|
                    0 <= i < pages@.len() ==> {
                        &&& has_dot((#[trigger] entries@[i]).filename@)
                        &&& pages@[i].path@ == base_of(entries@[i].filename@) + ".html"@
                        &&& pages@[i].text@ == detail_page_text(entries@[i].filename@)
                    }
            },
            Err(e) => {
                &&& e == GalleryError::MissingExtension
                &&& exists|i: int|
                    0 <= i < entries@.len() && !has_dot((#[trigger] entries@[i]).filename@)
            },
        },
{
    let mut pages: Vec<Page> = Vec::new();
    let mut k: usize = 0;
    while k < entries.len()
        invariant
            0 <= k <= entries@.len(),
            pages@.len() == k,
            forall|i: int|
                0 <= i < k ==> {
                    &&& has_dot((#[trigger] entries@[i]).filename@)
                    &&& pages@[i].path@ == base_of(entries@[i].filename@) + ".html"@
                    &&& pages@[i].text@ == detail_page_text(entries@[i].filename@)
                },
        decreases entries@.len() - k,
    {
        let e = &entries[k];
        let text = match generate_html(e.filename.as_str()) {
            Ok(t) => t,
            Err(err) => {
                return Err(err);
            },
        };
        let mut path = match base_name(e.filename.as_str()) {
            Ok(b) => b,
            Err(err) => {
                return Err(err);
            },
        };
        path.append(".html");
        pages.push(Page { path, text });
        k += 1;
    }
    Ok(pages)
}

/// The gallery's full output as a function of the probed entries: every
/// detail page's text in processing order, and the index page's text over
/// the packed ordering and boundary counters.
pub open spec fn gallery_output(entries: Seq<ImageEntry>) -> (Seq<Seq<char>>, Seq<char>) {
    (
        entries.map_values(|e: ImageEntry| detail_page_text(e.filename@)),
        index_page_text(
            packed_order(entries),
            pack_model(entries).q0.len() as int,
            pack_model(entries).q1.len() as int,
        ),
    )
}


/// Everything one gallery run produces: the probed entries, the layout
/// plan, the detail pages, and the index page's text.
#[derive(Debug)]
pub struct GalleryRun {
    pub entries: Vec<ImageEntry>,
    pub plan: LayoutPlan,
    pub pages: Vec<Page>,
    pub index: String,
}

/// Runs the whole compute pipeline over the source files, in the order
/// given: probes every eligible file, packs the columns, and renders every
/// detail page and the index page.
pub fn run_pipeline(files: &Vec<SourceFile>) -> (r: Result<GalleryRun, GalleryError>)
    requires
        files@.len() <= MAX_IMAGES,
    ensures
        match r {
            Ok(run) => {
                &&& run.entries@.len() == eligible(files@).len()
                &&& forall|i: int|
                    0 <= i < run.entries@.len() ==> {
                        &&& (#[trigger] run.entries@[i]).filename@ == eligible(files@)[i].name@
                        &&& probed_dims(eligible(files@)[i].data@) == Some(
                            (run.entries@[i].width, run.entries@[i].height),
                        )
                    }
                &&& views_of(run.plan.order@) == packed_order(run.entries@)
                &&& run.plan.a1 == pack_model(run.entries@).q0.len()
                &&& run.plan.a2 == pack_model(run.entries@).q1.len()
                &&& run.pages@.map_values(|p: Page| p.text@) == gallery_output(run.entries@).0
                &&& forall|i: int|
                    0 <= i < run.pages@.len() ==> (#[trigger] run.pages@[i]).path@ == base_of(
                        run.entries@[i].filename@,
                    ) + ".html"@
                &&& run.index@ == gallery_output(run.entries@).1
            },
            Err(e) => {
                ||| {
                    &&& e == GalleryError::UnsupportedFormat
                    &&& exists|i: int|
                        0 <= i < eligible(files@).len() && !usable_dims(
                            probed_dims(#[trigger] eligible(files@)[i].data@),
                        )
                }
                ||| {
                    &&& e == GalleryError::MissingExtension
                    &&& exists|i: int|
                        0 <= i < eligible(files@).len() && !has_dot(
                            (#[trigger] eligible(files@)[i]).name@,
                        )
                }
            },
        },
{
    proof {
        files@.lemma_filter_len(|f: SourceFile| !is_reserved_name(f.name@));
    }
    let entries = match build_entries(files) {
        Ok(entries) => entries,
        Err(e) => {
            return Err(e);
        },
    };
    let plan = pack(&entries);
    let pages = match render_pages(&entries) {
        Ok(pages) => pages,
        Err(e) => {
            return Err(e);
        },
    };
    proof {
        lemma_boundary_arithmetic(entries@);
    }
    let index = generate_index_html(plan.order.as_slice(), plan.a1, plan.a2);
    proof {
        assert(pages@.map_values(|p: Page| p.text@) =~= entries@.map_values(
            |e: ImageEntry| detail_page_text(e.filename@),
        ));
    }
    Ok(GalleryRun { entries, plan, pages, index })
}

/// Whether two probed listings describe the same source directory state:
/// the same filenames with the same dimensions, in the same order.
pub open spec fn same_sources(e1: Seq<ImageEntry>, e2: Seq<ImageEntry>) -> bool {
    &&& e1.len() == e2.len()
    &&& forall|i: int|
        0 <= i < e1.len() ==> {
            &&& (#[trigger] e1[i]).filename@ == (#[trigger] e2[i]).filename@
            &&& e1[i].width == e2[i].width
            &&& e1[i].height == e2[i].height
        }
}

/// Two listings of the same source state pack identically.
proof fn lemma_pack_model_same(e1: Seq<ImageEntry>, e2: Seq<ImageEntry>)
    requires
        same_sources(e1, e2),
    ensures
        pack_model(e1) == pack_model(e2),
    decreases e1.len(),
{
    if e1.len() > 0 {
        assert(same_sources(e1.drop_last(), e2.drop_last()));
        lemma_pack_model_same(e1.drop_last(), e2.drop_last());
    }
}

/// Determinism: the gallery's output is a function of the source directory
/// state alone, so two runs over an unchanged source produce identical
/// text for every page.
pub proof fn lemma_determinism(e1: Seq<ImageEntry>, e2: Seq<ImageEntry>)
    requires
        same_sources(e1, e2),
    ensures
        gallery_output(e1) == gallery_output(e2),
{
    lemma_pack_model_same(e1, e2);
    assert(e1.map_values(|e: ImageEntry| detail_page_text(e.filename@)) =~= e2.map_values(
        |e: ImageEntry| detail_page_text(e.filename@),
    ));
}

} // verus!
