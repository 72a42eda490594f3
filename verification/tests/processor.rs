use unity_crop::discovery::{Discovery, SpriteSheetFiles};
use unity_crop::processor::{
    plan_export, sheet_name, sprite_region, validate_rect, CropRegion, ExportOutcome, SheetReport, SheetRun, SheetStep, Summary,
};
use unity_crop::{Cli, CollisionPolicy, SpriteData, SpriteRect, SpriteSheet, TextureImporter, UnityMetaFile};

fn sprite(name: &str, x: u32, y: u32, width: u32, height: u32) -> SpriteData {
    SpriteData { name: name.to_owned(), rect: SpriteRect { x, y, width, height } }
}

fn files() -> SpriteSheetFiles {
    SpriteSheetFiles {
        image: "Project/Assets/UI/icons.v2.png".to_owned(),
        meta: "Project/Assets/UI/icons.v2.png.meta".to_owned(),
        relative_dir: "Assets/UI".to_owned(),
    }
}

#[test]
fn rectangles_must_fit_the_image() {
    assert!(validate_rect(&sprite("a", 0, 0, 2, 2), 4, 2, "img.png").is_ok());
    assert_eq!(
        validate_rect(&sprite("a", 0, 0, 0, 2), 4, 2, "img.png").unwrap_err(),
        "img.png / a: sprite rectangle cannot be empty"
    );
    assert_eq!(
        validate_rect(&sprite("b", 3, 1, 2, 2), 4, 2, "img.png").unwrap_err(),
        "img.png / b: rectangle x=3 y=1 w=2 h=2 exceeds image 4x2"
    );
    assert!(validate_rect(&sprite("c", u32::MAX, 0, 1, 1), u32::MAX, 1, "i").is_err());
}

#[test]
fn unity_y_is_flipped() {
    let region = sprite_region(&sprite("a", 2, 1, 2, 3), 8, 10, "i").unwrap();
    assert_eq!(region, CropRegion { x: 2, top: 6, width: 2, height: 3 });
    let region = sprite_region(&sprite("a", 0, 0, 4, 2), 4, 2, "i").unwrap();
    assert_eq!(region, CropRegion { x: 0, top: 0, width: 4, height: 2 });
}

#[test]
fn sheet_names_come_from_the_file_stem() {
    assert_eq!(sheet_name("a/icons.v2.png"), "icons.v2");
    assert_eq!(sheet_name("a/.png"), ".png");
    assert_eq!(sheet_name("/"), "sheet");
}

#[test]
fn exports_are_planned_from_the_templates() {
    let cli = Cli {
        input: "Project".to_owned(),
        output: "Export".to_owned(),
        recursive: true,
        jobs: 2,
        include_globs: Vec::new(),
        exclude: Vec::new(),
        no_default_excludes: false,
        follow_links: false,
        path_template: "{relative_dir}/{sheet}".to_owned(),
        name_template: "{index}_{sprite}".to_owned(),
        collision: CollisionPolicy::Rename,
        dry_run: false,
        fail_fast: false,
        verbose: false,
    };
    let f = files();
    let plan = plan_export(&cli, &f, "icons.v2", 0, &sprite("red:icon", 0, 0, 2, 2), 4, 2).unwrap();
    assert_eq!(plan.requested, "Export/Assets/UI/icons.v2/1_red_icon.png");
    assert_eq!(plan.region, CropRegion { x: 0, top: 0, width: 2, height: 2 });
    let plan = plan_export(&cli, &f, "icons.v2", 1, &sprite("green_icon", 2, 0, 2, 2), 4, 2).unwrap();
    assert_eq!(plan.requested, "Export/Assets/UI/icons.v2/2_green_icon.png");
    assert!(plan_export(&cli, &f, "icons.v2", 1, &sprite("big", 2, 0, 3, 2), 4, 2).is_err());
}

#[test]
fn sheets_without_sprites_are_empty() {
    let f = files();
    let (mut run, step) = SheetRun::begin(&f.image, false, false);
    assert_eq!(step, SheetStep::ReadMetadata);
    let none = UnityMetaFile { texture_importer: None };
    assert_eq!(run.metadata_read(&f, none), SheetStep::Finished);
    let report = run.into_report();
    assert!(report.empty && !report.processed);
    assert_eq!(
        report.messages,
        vec![
            "sheet: Project/Assets/UI/icons.v2.png".to_owned(),
            "skip: Project/Assets/UI/icons.v2.png.meta has no TextureImporter section".to_owned()
        ]
    );

    let (mut run, _) = SheetRun::begin(&f.image, false, false);
    let no_sprites = UnityMetaFile { texture_importer: Some(TextureImporter { sprite_sheet: SpriteSheet::default() }) };
    assert_eq!(run.metadata_read(&f, no_sprites), SheetStep::Finished);
    assert_eq!(run.into_report().messages[1], "skip: Project/Assets/UI/icons.v2.png has no sliced sprites");
}

fn two_sprites() -> UnityMetaFile {
    UnityMetaFile {
        texture_importer: Some(TextureImporter {
            sprite_sheet: SpriteSheet { sprites: vec![sprite("a", 0, 0, 1, 1), sprite("b", 1, 0, 1, 1)] },
        }),
    }
}

#[test]
fn sprites_are_exported_in_order() {
    let f = files();
    let (mut run, _) = SheetRun::begin(&f.image, false, false);
    assert_eq!(run.metadata_read(&f, two_sprites()), SheetStep::DecodeImage);
    assert_eq!(run.image_decoded(false, false), SheetStep::ExportSprite(0));
    assert_eq!(run.sprite(0).name, "a");
    let t = run.sprite_finished(ExportOutcome::Written("out/a.png".to_owned()), false, false);
    assert_eq!(t.step, SheetStep::ExportSprite(1));
    assert!(!t.cancel);
    let t = run.sprite_finished(ExportOutcome::Failed("bad".to_owned()), false, false);
    assert_eq!(t.step, SheetStep::Finished);
    assert!(t.cancel);
    let report = run.into_report();
    assert!(report.processed);
    assert_eq!((report.written, report.skipped), (1, 0));
    assert_eq!(report.errors, vec!["bad".to_owned()]);
    assert_eq!(report.messages[1], "write: out/a.png");
}

#[test]
fn each_step_of_a_sheet_comes_once() {
    let f = files();
    let (mut run, mut step) = SheetRun::begin(&f.image, false, false);
    let mut steps = vec![step];
    while step != SheetStep::Finished {
        assert_eq!(run.pending_step(), step);
        step = match step {
            SheetStep::ReadMetadata => run.metadata_read(&f, two_sprites()),
            SheetStep::DecodeImage => run.image_decoded(false, false),
            SheetStep::ExportSprite(i) => {
                let path = format!("out/{}.png", run.sprite(i).name);
                run.sprite_finished(ExportOutcome::Written(path), false, false).step
            }
            SheetStep::Finished => unreachable!(),
        };
        steps.push(step);
    }
    assert_eq!(
        steps,
        vec![
            SheetStep::ReadMetadata,
            SheetStep::DecodeImage,
            SheetStep::ExportSprite(0),
            SheetStep::ExportSprite(1),
            SheetStep::Finished
        ]
    );
    assert_eq!(run.into_report().written, 2);
}

#[test]
fn fail_fast_stops_after_the_first_error() {
    let f = files();
    let (run, step) = SheetRun::begin(&f.image, true, true);
    assert_eq!(step, SheetStep::Finished);
    assert!(run.into_report().messages.is_empty());

    let (mut run, _) = SheetRun::begin(&f.image, true, false);
    run.metadata_read(&f, two_sprites());
    assert_eq!(run.image_decoded(true, false), SheetStep::ExportSprite(0));
    let t = run.sprite_finished(ExportOutcome::Failed("bad".to_owned()), true, false);
    assert_eq!(t.step, SheetStep::Finished);

    let (mut run, _) = SheetRun::begin(&f.image, true, false);
    run.metadata_read(&f, two_sprites());
    run.image_decoded(true, false);
    let t = run.sprite_finished(ExportOutcome::Skipped("out/a.png".to_owned()), true, true);
    assert_eq!(t.step, SheetStep::Finished);
    assert_eq!(run.report_counts(), (0, 1));

    let (mut run, _) = SheetRun::begin(&f.image, false, false);
    let t = run.fail("no metadata".to_owned());
    assert_eq!(t.step, SheetStep::Finished);
    assert!(t.cancel);
    assert_eq!(run.into_report().errors, vec!["no metadata".to_owned()]);
}

#[test]
fn summaries_add_up_the_reports() {
    let mut d = Discovery::new();
    d.png_without_meta = 2;
    d.record_scan_error("x");
    d.sheets.push(files());
    let mut summary = Summary::from_discovery(d, std::time::Duration::from_millis(5));
    assert_eq!(summary.sheets_found, 1);
    let mut report = SheetReport::start("i.png");
    report.mark_processed();
    report.record_written("out/a.png");
    report.record_written("out/b.png");
    report.record_skipped("out/c.png");
    report.record_error("boom".to_owned());
    let messages = summary.add_report(report);
    assert_eq!(messages, vec!["sheet: i.png", "write: out/a.png", "write: out/b.png", "skip: out/c.png"]);
    let mut empty = SheetReport::new();
    empty.empty = true;
    summary.add_report(empty);
    assert_eq!(
        (summary.sheets_processed, summary.empty_sheets, summary.sprites_written, summary.sprites_skipped, summary.png_without_meta),
        (1, 1, 2, 1, 2)
    );
    assert_eq!(summary.errors, vec!["scan error: x".to_owned(), "boom".to_owned()]);
}

#[test]
fn the_order_of_reports_does_not_change_the_counts() {
    fn reports() -> Vec<SheetReport> {
        let mut a = SheetReport::start("a.png");
        a.mark_processed();
        a.record_written("out/a.png");
        a.record_error("a failed".to_owned());
        let mut b = SheetReport::new();
        b.empty = true;
        let mut c = SheetReport::start("c.png");
        c.mark_processed();
        c.record_skipped("out/c.png");
        c.record_written("out/c_2.png");
        vec![a, b, c]
    }
    let counts = |order: [usize; 3]| {
        let mut summary = Summary::default();
        let mut rs: Vec<Option<SheetReport>> = reports().into_iter().map(Some).collect();
        for i in order {
            summary.add_report(rs[i].take().unwrap());
        }
        (summary.sheets_processed, summary.empty_sheets, summary.sprites_written, summary.sprites_skipped, summary.errors.len())
    };
    assert_eq!(counts([0, 1, 2]), (2, 1, 2, 1, 1));
    assert_eq!(counts([2, 0, 1]), counts([0, 1, 2]));
    assert_eq!(counts([1, 2, 0]), counts([0, 1, 2]));
}

#[test]
fn sprites_are_cut_from_the_region() {
    let image = image::DynamicImage::new_rgba8(4, 2);
    let region = sprite_region(&sprite("a", 1, 0, 2, 1), 4, 2, "i").unwrap();
    assert_eq!(region, CropRegion { x: 1, top: 1, width: 2, height: 1 });
    let cropped = unity_crop::crop_sprite(&image, &region);
    assert_eq!((cropped.width(), cropped.height()), (2, 1));
}
