use unity_crop::discovery::{
    add_file, build_filters, default_exclude_patterns, discover_file, exclusion_patterns,
    is_png_path, meta_path_for, select_entry, selection_patterns, should_visit, slash_path,
    sort_sheets, Discovery, SpriteSheetFiles,
};
use unity_crop::{Cli, CollisionPolicy};

fn cli() -> Cli {
    Cli {
        input: "Project".to_owned(),
        output: "Export".to_owned(),
        recursive: true,
        jobs: 0,
        include_globs: Vec::new(),
        exclude: Vec::new(),
        no_default_excludes: false,
        follow_links: false,
        path_template: "{relative_dir}/{sheet}".to_owned(),
        name_template: "{sprite}.png".to_owned(),
        collision: CollisionPolicy::Rename,
        dry_run: false,
        fail_fast: false,
        verbose: false,
    }
}

#[test]
fn default_globs_select_png_files() {
    let c = cli();
    assert_eq!(selection_patterns(&c), vec!["*.png".to_owned(), "**/*.png".to_owned()]);
    let excl = exclusion_patterns(&c);
    assert_eq!(excl.len(), 14);
    assert_eq!(excl, default_exclude_patterns());
    let mut c2 = cli();
    c2.include_globs = vec!["Assets/UI/**/*.png".to_owned()];
    c2.exclude = vec!["**/Drafts/**".to_owned()];
    c2.no_default_excludes = true;
    assert_eq!(selection_patterns(&c2), vec!["Assets/UI/**/*.png".to_owned()]);
    assert_eq!(exclusion_patterns(&c2), vec!["**/Drafts/**".to_owned()]);
}

#[test]
fn filters_select_and_exclude() {
    let filters = build_filters(&cli()).unwrap();
    assert!(filters.selects("Assets/a.png"));
    assert!(!filters.selects("Assets/a.jpg"));
    assert!(!filters.selects("Library/a.png"));
    assert!(filters.excludes("Temp"));
    assert!(filters.excludes(".git/objects"));
    assert!(!filters.excludes("Assets"));
}

#[test]
fn invalid_globs_are_reported() {
    let mut c = cli();
    c.include_globs = vec!["a[".to_owned()];
    let error = build_filters(&c).err().unwrap();
    assert_eq!(
        error,
        "invalid include glob 'a[': error parsing glob 'a[': unclosed character class; missing ']'"
    );
    let mut c = cli();
    c.exclude = vec!["{x".to_owned()];
    let error = build_filters(&c).err().unwrap();
    assert_eq!(
        error,
        "invalid exclude glob '{x': error parsing glob '{x': unclosed alternate group; missing '}' (maybe escape '{' with '[{]'?)"
    );
}

#[test]
fn entries_are_selected_relative_to_the_input() {
    let filters = build_filters(&cli()).unwrap();
    assert_eq!(select_entry(&filters, "Project", "Project/Assets/UI/icons.png"), Some("Assets/UI".to_owned()));
    assert_eq!(select_entry(&filters, "Project", "Project/icons.png"), Some(String::new()));
    assert_eq!(select_entry(&filters, "Project", "Project/Library/x.png"), None);
    assert_eq!(select_entry(&filters, "Project", "Project/readme.txt"), None);
    assert_eq!(select_entry(&filters, "Project/", "Project//Assets/i.png"), Some("Assets".to_owned()));
    assert_eq!(select_entry(&filters, "./Project", "Project/Assets/i.png"), Some("Project/Assets".to_owned()));
}

#[test]
fn the_scan_skips_excluded_directories_and_the_output() {
    let filters = build_filters(&cli()).unwrap();
    assert!(should_visit(&filters, "/p", 0, "/p", "/p"));
    assert!(!should_visit(&filters, "/p/out", 1, "/p", "/p/out/"));
    assert!(!should_visit(&filters, "/p/Library", 1, "/p", "/o"));
    assert!(should_visit(&filters, "/p/Assets", 1, "/p", "/o"));
}

#[test]
fn png_files_need_their_meta_file() {
    assert_eq!(meta_path_for("a/b.png"), "a/b.png.meta");
    assert!(is_png_path("a/b.PNG"));
    assert!(!is_png_path("a/.png"));
    assert!(!is_png_path("a/b.pngx"));
    assert!(is_png_path("..png"));
    let mut d = Discovery::new();
    add_file(&mut d, "a/b.png", "a", false);
    add_file(&mut d, "a/c.jpg", "a", true);
    add_file(&mut d, "a/d.png", "a", true);
    assert_eq!(d.png_without_meta, 1);
    assert_eq!(d.sheets.len(), 1);
    assert_eq!(d.sheets[0].image, "a/d.png");
    assert_eq!(d.sheets[0].meta, "a/d.png.meta");
    assert_eq!(d.sheets[0].relative_dir, "a");
}

#[test]
fn a_single_file_input_is_checked_against_the_globs() {
    let filters = build_filters(&cli()).unwrap();
    let d = discover_file("dir/sheet.png", "dir", &filters, true);
    assert_eq!(d.sheets.len(), 1);
    assert_eq!(d.sheets[0].relative_dir, "");
    let d = discover_file("dir/sheet.png", "dir", &filters, false);
    assert_eq!((d.sheets.len(), d.png_without_meta), (0, 1));
    let d = discover_file("dir/sheet.bmp", "dir", &filters, true);
    assert_eq!((d.sheets.len(), d.png_without_meta), (0, 0));
}

#[test]
fn sheets_are_sorted_by_path_components() {
    let mut d = Discovery::new();
    for image in ["p/b.png", "p/a.b.png", "p/a/z.png", "p/A.png", "/p/x.png"] {
        d.sheets.push(SpriteSheetFiles { image: image.to_owned(), meta: String::new(), relative_dir: String::new() });
    }
    sort_sheets(&mut d);
    let order: Vec<&str> = d.sheets.iter().map(|s| s.image.as_str()).collect();
    assert_eq!(order, vec!["/p/x.png", "p/A.png", "p/a/z.png", "p/a.b.png", "p/b.png"]);
    let mut expected: Vec<std::path::PathBuf> = order.iter().map(std::path::PathBuf::from).collect();
    expected.sort();
    assert_eq!(expected, order.iter().map(std::path::PathBuf::from).collect::<Vec<_>>());
}

#[test]
fn sheets_with_equal_image_paths_keep_their_order() {
    let mut d = Discovery::new();
    for (image, meta) in [("p//b.png", "first"), ("p/a.png", "second"), ("p/./b.png", "third"), ("p/b.png", "fourth")] {
        d.sheets.push(SpriteSheetFiles { image: image.to_owned(), meta: meta.to_owned(), relative_dir: String::new() });
    }
    sort_sheets(&mut d);
    let order: Vec<&str> = d.sheets.iter().map(|s| s.meta.as_str()).collect();
    assert_eq!(order, vec!["second", "first", "third", "fourth"]);
}

#[test]
fn scan_errors_are_recorded() {
    let mut d = Discovery::new();
    d.record_scan_error("permission denied");
    assert_eq!(d.errors, vec!["scan error: permission denied".to_owned()]);
    assert_eq!(slash_path("a\\b/c"), "a/b/c");
}

#[test]
fn leaving_include_out_is_the_same_as_the_default_globs() {
    let plain = cli();
    let mut given = cli();
    given.include_globs = vec!["*.png".to_owned(), "**/*.png".to_owned()];
    assert_eq!(selection_patterns(&plain), selection_patterns(&given));
    let (a, b) = (build_filters(&plain).unwrap(), build_filters(&given).unwrap());
    for path in ["x.png", "a/b/c.PNG", "Library/x.png", "y.jpg", "Assets/z.png"] {
        assert_eq!(a.selects(path), b.selects(path), "{path}");
    }
    let (mut plain, mut given) = (plain, given);
    plain.exclude = vec!["[".to_owned()];
    given.exclude = vec!["[".to_owned()];
    assert_eq!(build_filters(&plain).err(), build_filters(&given).err());
}
