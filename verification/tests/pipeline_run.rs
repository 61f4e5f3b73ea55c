use gallery::pack::pack;
use gallery::pages::generate_index_html;
use gallery::pipeline::build_entries;
use gallery::pipeline::render_pages;
use gallery::pipeline::run_pipeline;
use gallery::pipeline::SourceFile;
use gallery::probe::probe_dimensions;
use gallery::order::order_entries;
use gallery::pages::INDEX_FOOT;
use gallery::pages::INDEX_HEAD;
use gallery::GalleryError;

fn png_2x3() -> Vec<u8> {
    vec![
        137, 80, 78, 71, 13, 10, 26, 10, 0, 0, 0, 13, 73, 72, 68, 82, 0, 0, 0, 2, 0, 0, 0, 3, 8,
        2, 0, 0, 0, 54, 136, 73, 214, 0, 0, 0, 14, 73, 68, 65, 84, 120, 156, 99, 16, 4, 3, 6, 20,
        10, 0, 12, 162, 1, 51, 219, 17, 134, 213, 0, 0, 0, 0, 73, 69, 78, 68, 174, 66, 96, 130,
    ]
}

fn png_1x1() -> Vec<u8> {
    vec![
        137, 80, 78, 71, 13, 10, 26, 10, 0, 0, 0, 13, 73, 72, 68, 82, 0, 0, 0, 1, 0, 0, 0, 1, 8,
        2, 0, 0, 0, 144, 119, 83, 222, 0, 0, 0, 12, 73, 68, 65, 84, 120, 156, 99, 16, 20, 20, 4,
        0, 0, 106, 0, 52, 185, 226, 240, 205, 0, 0, 0, 0, 73, 69, 78, 68, 174, 66, 96, 130,
    ]
}

fn file(name: &str, data: Vec<u8>) -> SourceFile {
    SourceFile { name: name.to_string(), data }
}

#[test]
fn probe_reads_png_dimensions() {
    assert_eq!(probe_dimensions(&png_2x3()), Ok((2, 3)));
    assert_eq!(probe_dimensions(&png_1x1()), Ok((1, 1)));
}

#[test]
fn probe_rejects_unrecognised_bytes() {
    let junk = vec![0u8, 1, 2, 3, 4, 5, 6, 7, 8, 9];
    assert_eq!(probe_dimensions(&junk), Err(GalleryError::UnsupportedFormat));
    let empty: Vec<u8> = Vec::new();
    assert_eq!(probe_dimensions(&empty), Err(GalleryError::UnsupportedFormat));
}

#[test]
fn build_entries_skips_reserved_assets() {
    let files = vec![
        file("main.css", vec![1, 2, 3]),
        file("b.jpg", png_2x3()),
        file("f.ico", vec![4, 5]),
        file("a.jpg", png_1x1()),
        file("each.css", vec![6]),
    ];
    let entries = build_entries(&files).unwrap();
    assert_eq!(entries.len(), 2);
    assert_eq!(entries[0].filename, "b.jpg");
    assert_eq!((entries[0].width, entries[0].height), (2, 3));
    assert_eq!(entries[1].filename, "a.jpg");
    assert_eq!((entries[1].width, entries[1].height), (1, 1));
}

#[test]
fn build_entries_rejects_unreadable_image() {
    let files = vec![file("a.jpg", vec![9, 9, 9])];
    assert_eq!(build_entries(&files).unwrap_err(), GalleryError::UnsupportedFormat);
}

#[test]
fn build_entries_empty_source() {
    let files = vec![file("main.css", vec![1]), file("each.css", vec![2]), file("f.ico", vec![3])];
    let entries = build_entries(&files).unwrap();
    assert!(entries.is_empty());
}

#[test]
fn render_pages_names_pages_after_base_names() {
    let files = vec![file("d.jpg", png_2x3()), file("c.jpg", png_1x1())];
    let entries = build_entries(&files).unwrap();
    let pages = render_pages(&entries).unwrap();
    assert_eq!(pages.len(), 2);
    assert_eq!(pages[0].path, "d.html");
    assert_eq!(pages[1].path, "c.html");
    assert!(pages[0].text.contains(r#"<img src="./imgs/d.jpg" class="photo1"/>"#));
    assert!(!pages[0].text.contains("c.jpg"));
}

#[test]
fn reserved_names_never_reach_the_output() {
    let files = vec![
        file("main.css", vec![1]),
        file("b.jpg", png_2x3()),
        file("f.ico", vec![2]),
        file("a.jpg", png_1x1()),
    ];
    let entries = build_entries(&files).unwrap();
    let plan = pack(&entries);
    assert!(plan.order.iter().all(|n| n != "main.css" && n != "each.css" && n != "f.ico"));
    let index = generate_index_html(&plan.order, plan.a1, plan.a2);
    assert!(!index.contains("imgs/main.css"));
    assert!(!index.contains("imgs/f.ico\" class"));
}

#[test]
fn pipeline_is_deterministic() {
    let listing = vec![
        "c.jpg".to_string(),
        "a.jpg".to_string(),
        "main.css".to_string(),
        "b.jpg".to_string(),
    ];
    let mut outputs: Vec<(Vec<String>, String)> = Vec::new();
    for _ in 0..2 {
        let ordered = order_entries(listing.clone());
        let files: Vec<SourceFile> = ordered
            .iter()
            .map(|n| {
                if n == "a.jpg" {
                    file(n, png_1x1())
                } else if n == "main.css" {
                    file(n, vec![0])
                } else {
                    file(n, png_2x3())
                }
            })
            .collect();
        let entries = build_entries(&files).unwrap();
        let plan = pack(&entries);
        let pages = render_pages(&entries).unwrap();
        let index = generate_index_html(&plan.order, plan.a1, plan.a2);
        let mut texts: Vec<String> = pages.into_iter().map(|p| p.text).collect();
        texts.push(index);
        outputs.push((plan.order, texts.concat()));
    }
    assert_eq!(outputs[0], outputs[1]);
}

#[test]
fn run_pipeline_end_to_end() {
    let files = vec![
        file("main.css", vec![1]),
        file("b.jpg", png_2x3()),
        file("a.jpg", png_1x1()),
        file("f.ico", vec![2]),
    ];
    let run = run_pipeline(&files).unwrap();
    assert_eq!(run.entries.len(), 2);
    assert_eq!((run.entries[0].width, run.entries[0].height), (2, 3));
    assert_eq!((run.entries[1].width, run.entries[1].height), (1, 1));
    assert_eq!(run.plan.a1, 1);
    assert_eq!(run.plan.a2, 1);
    let order: Vec<&str> = run.plan.order.iter().map(|s| s.as_str()).collect();
    assert_eq!(order, vec!["b.jpg", "a.jpg"]);
    assert_eq!(run.pages[0].path, "b.html");
    assert_eq!(run.pages[1].path, "a.html");
    let expected_index = format!(
        "{}{}{}{}",
        INDEX_HEAD,
        r#"<img src="./imgs/b.jpg" class="d1" id="lst"/></br>"#,
        r#"<img src="./imgs/a.jpg" class="photo" id="lst"/></br>"#,
        INDEX_FOOT
    );
    assert_eq!(run.index, expected_index);
}

#[test]
fn run_pipeline_surfaces_missing_extension() {
    let files = vec![file("noext", png_1x1())];
    assert_eq!(run_pipeline(&files).unwrap_err(), GalleryError::MissingExtension);
}
