use koharu::export::{
    export_jobs, export_page_job, page_file, page_format, page_stem, plan_export, ExportPlan,
    ExportRequest, PageExportFormat, PageLookup, ProjectExportFormat,
};
use koharu::paths::PathStyle;

#[test]
fn creates_safe_page_file_stems() {
    assert_eq!(page_stem("  Chapter 1.png  "), "Chapter 1");
    assert_eq!(page_stem("page:01?.webp"), "page_01_");
    assert_eq!(page_stem("..."), "page");
}

#[test]
fn stems_have_no_unsafe_characters() {
    assert_eq!(page_stem("a<b>c:d\"e/f\\g|h?i*j\u{7}k"), "a_b_c_d_e_f_g_h_i_j_k");
    assert_eq!(page_stem(""), "page");
    assert_eq!(page_stem(".png"), "page");
    assert_eq!(page_stem("a.b.png . "), "a.b");
    assert_eq!(page_stem("..x"), ".");
    assert_eq!(page_stem("  \u{3000} "), "page");
}

#[test]
fn names_page_formats() {
    assert_eq!(page_format(PageExportFormat::Png), ("PNG Image", "png"));
    assert_eq!(page_format(PageExportFormat::Psd), ("Photoshop Document", "psd"));
}

#[test]
fn numbers_the_pages_of_a_project() {
    let page = export_page_job(8, "Page 1.png", Some(0));
    assert_eq!((page.id, page.stem.as_str()), (8, "0001_Page 1"));
    assert_eq!(export_page_job(8, "x", Some(12345)).stem, "12346_x");
    assert_eq!(export_page_job(8, "x.png", None).stem, "x");
    assert_ne!(
        export_page_job(1, "2_x", Some(0)).stem,
        export_page_job(2, "x", Some(1)).stem
    );
    assert_eq!(page_file(PathStyle::Slashes, "out", "0001_x", PageExportFormat::Psd), "out/0001_x.psd");
}

fn lookup(id: u64, label: &str) -> PageLookup {
    PageLookup { id, label: Ok(label.to_owned()) }
}

fn labelled(text: &str) -> Result<String, String> {
    Ok(text.to_owned())
}

#[test]
fn makes_jobs_of_all_pages() {
    let pages = export_jobs(&vec![lookup(5, "a.png"), lookup(3, "a.png")]).unwrap();
    let jobs: Vec<(u64, &str)> = pages.iter().map(|page| (page.id, page.stem.as_str())).collect();
    assert_eq!(jobs, [(5, "0001_a"), (3, "0002_a")]);
    assert_eq!(export_jobs(&Vec::new()).unwrap_err().message, "there are no pages to export");
    let missing = PageLookup { id: 9, label: Err("page is missing".to_owned()) };
    let error = export_jobs(&vec![lookup(5, "a"), missing, lookup(3, "b")]).unwrap_err();
    assert_eq!(error.message, "page is missing");
}

#[test]
fn plans_the_export_of_a_page() {
    let request = ExportRequest::CurrentPage { page: 3, format: PageExportFormat::Png };
    let plan = plan_export(request, Some("Manga"), labelled("cover.jpg"), &Vec::new());
    let Ok(ExportPlan::SavePage { page, format, label, extension, file_name }) = plan else {
        panic!("a page is exported");
    };
    assert_eq!((page.id, page.stem.as_str()), (3, "cover"));
    assert_eq!(format, PageExportFormat::Png);
    assert_eq!((label.as_str(), extension.as_str()), ("PNG Image", "png"));
    assert_eq!(file_name, "cover.png");

    let missing = Err("no such page".to_owned());
    let error = plan_export(request, Some("Manga"), missing, &Vec::new()).unwrap_err();
    assert_eq!(error.message, "no such page");
    let error = plan_export(request, None, labelled("x"), &Vec::new()).unwrap_err();
    assert_eq!(error.message, "no project is open");
}

#[test]
fn plans_the_export_of_a_project() {
    let lookups = vec![lookup(1, "a.png"), lookup(2, "b.png")];
    let request = ExportRequest::EntireProject { format: ProjectExportFormat::Psd };
    let Ok(ExportPlan::SaveFolder { pages, format, folder }) =
        plan_export(request, Some("Manga"), labelled("x"), &lookups)
    else {
        panic!("a folder is exported");
    };
    assert_eq!(pages.len(), 2);
    assert_eq!(pages[1].stem, "0002_b");
    assert_eq!((format, folder.as_str()), (PageExportFormat::Psd, "Manga"));

    let request = ExportRequest::EntireProject { format: ProjectExportFormat::Png };
    assert!(matches!(
        plan_export(request, Some("Manga"), labelled("x"), &lookups),
        Ok(ExportPlan::SaveFolder { format: PageExportFormat::Png, .. })
    ));

    let request = ExportRequest::EntireProject { format: ProjectExportFormat::Cbz };
    let Ok(ExportPlan::SaveArchive { pages, label, extension, file_name }) =
        plan_export(request, Some("Manga"), labelled("x"), &lookups)
    else {
        panic!("an archive is exported");
    };
    assert_eq!(pages.len(), 2);
    assert_eq!((label.as_str(), extension.as_str()), ("Comic Book Archive", "cbz"));
    assert_eq!(file_name, "Manga.cbz");

    let error = plan_export(request, Some("Manga"), labelled("x"), &Vec::new()).unwrap_err();
    assert_eq!(error.message, "there are no pages to export");
    let error = plan_export(request, None, labelled("x"), &lookups).unwrap_err();
    assert_eq!(error.message, "no project is open");
}

#[test]
fn stems_sort_in_the_order_of_pages() {
    let stems: Vec<String> = (0..9999)
        .map(|i| export_page_job(0, ["z", "a", "10"][i % 3], Some(i)).stem)
        .collect();
    let mut sorted = stems.clone();
    sorted.sort();
    assert_eq!(stems, sorted);
    assert!(export_page_job(0, "a", Some(9998)).stem > export_page_job(0, "a", Some(9999)).stem);
}

#[test]
fn stems_depend_neither_on_the_extension_nor_on_outer_space() {
    for name in ["", " ", " x", "a.b", "a.", "第1章"] {
        let stem = page_stem(&format!("{name}.png"));
        assert_eq!(page_stem(&format!("{name}.jpeg")), stem);
        assert_eq!(page_stem(&format!(" \t{name}.png\u{3000}\n")), stem);
    }
}

#[test]
fn page_files_follow_the_style_of_the_system() {
    let file = |directory| page_file(PathStyle::Windows, directory, "0001_x", PageExportFormat::Png);
    assert_eq!(file("C:\\out"), "C:\\out\\0001_x.png");
    assert_eq!(file("C:"), "C:0001_x.png");
}
