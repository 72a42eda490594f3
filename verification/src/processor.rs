//! The decisions made for each sprite sheet and each sprite: whether a sheet
//! has sprites, whether a sprite rectangle fits its image, where the sprite is
//! cut from the image and where it is written; and the tallies of a run.
use vstd::prelude::*;

use core::time::Duration;
use image::DynamicImage;

use crate::cli::Cli;
use crate::discovery::{Discovery, SpriteSheetFiles};
use crate::unity_meta_file::{SpriteData, SpriteRect, UnityMetaFile};
use crate::naming::{lemma_placeholder_values, output_path, render_output_path, substituted, NamingContext, NamingValues};
use crate::paths::{file_stem, file_stem_of};
use crate::text::{chars_of, decimal_text, push_decimal, push_str, string_from_chars};

verus! {

#[verifier::external_type_specification]
#[verifier::external_body]
pub struct ExDynamicImage(image::DynamicImage);

/// The image that `DynamicImage::crop_imm` makes of `image` for the rectangle at
/// (`x`, `y`) of `width` by `height`: a copy of that part of the image, cut to
/// the image's bounds.
pub uninterp spec fn cropped(image: DynamicImage, x: u32, y: u32, width: u32, height: u32) -> DynamicImage;

/// `image::DynamicImage::crop_imm`: its result is a function of the image and
/// the rectangle alone (`cropped`); what its pixels are is not stated here.
#[verifier::external_body]
fn crop_image(image: &DynamicImage, x: u32, y: u32, width: u32, height: u32) -> (r: DynamicImage)
    ensures
        r == cropped(*image, x, y, width, height),
{
    image.crop_imm(x, y, width, height)
}

/// Where a sprite is cut from its image, in image coordinates (`top` measured
/// down from the top edge).
#[derive(Debug, Clone, Copy, PartialEq, Eq, Structural)]
pub struct CropRegion {
    pub x: u32,
    pub top: u32,
    pub width: u32,
    pub height: u32,
}

/// Where and how a sprite is exported: the part of the image, and the output
/// path asked for (before collisions are handled).
#[derive(Debug)]
pub struct ExportPlan {
    pub region: CropRegion,
    pub requested: String,
}

/// What one sprite sheet came to.
#[derive(Debug)]
pub struct SheetReport {
    /// The image was decoded and its sprites were worked on.
    pub processed: bool,
    /// The metadata had no sliced sprites.
    pub empty: bool,
    pub written: usize,
    pub skipped: usize,
    /// Lines for verbose output.
    pub messages: Vec<String>,
    pub errors: Vec<String>,
}

/// The tallies of a run.
#[derive(Debug)]
pub struct Summary {
    pub sheets_found: usize,
    pub sheets_processed: usize,
    pub empty_sheets: usize,
    pub png_without_meta: usize,
    pub sprites_written: usize,
    pub sprites_skipped: usize,
    pub errors: Vec<String>,
    pub elapsed: Duration,
}

/// Whether the rectangle has a size and lies inside a `width` by `height` image.
pub open spec fn rect_fits(r: SpriteRect, width: u32, height: u32) -> bool {
    r.width > 0 && r.height > 0 && r.x + r.width <= width && r.y + r.height <= height
}

/// The message for an empty rectangle.
pub open spec fn empty_rect_message(image: Seq<char>, name: Seq<char>) -> Seq<char> {
    image + " / "@ + name + ": sprite rectangle cannot be empty"@
}

/// The message for a rectangle that does not lie inside its image.
pub open spec fn outside_rect_message(image: Seq<char>, name: Seq<char>, r: SpriteRect, width: u32, height: u32) -> Seq<char> {
    image + " / "@ + name + ": rectangle x="@ + decimal_text(r.x as nat) + " y="@ + decimal_text(r.y as nat)
        + " w="@ + decimal_text(r.width as nat) + " h="@ + decimal_text(r.height as nat)
        + " exceeds image "@ + decimal_text(width as nat) + "x"@ + decimal_text(height as nat)
}

/// The message for a rectangle that does not fit, or `None` when it fits.
pub open spec fn rect_error(sprite: SpriteData, width: u32, height: u32, image: Seq<char>) -> Option<Seq<char>> {
    let r = sprite.rect;
    if r.width == 0 || r.height == 0 {
        Some(empty_rect_message(image, sprite.name@))
    } else if r.x + r.width > width || r.y + r.height > height {
        Some(outside_rect_message(image, sprite.name@, r, width, height))
    } else {
        None
    }
}

/// The part of the image a fitting rectangle covers: Unity counts `y` up from
/// the bottom edge, images count rows down from the top.
pub open spec fn region_of(r: SpriteRect, height: u32) -> CropRegion {
    CropRegion { x: r.x, top: (height - (r.y + r.height)) as u32, width: r.width, height: r.height }
}

/// Checks that a sprite rectangle is not empty and lies inside the image
/// (`image` names the image in messages).
pub fn validate_rect(sprite: &SpriteData, width: u32, height: u32, image: &str) -> (r: Result<(), String>)
    ensures
        r is Ok <==> rect_fits(sprite.rect, width, height),
        match r {
            Ok(()) => rect_error(*sprite, width, height, image@) is None,
            Err(m) => rect_error(*sprite, width, height, image@) == Some(m@),
        },
{
    let rect = &sprite.rect;
    if rect.width == 0 || rect.height == 0 {
        let mut m: Vec<char> = Vec::new();
        push_str(&mut m, image);
        push_str(&mut m, " / ");
        push_str(&mut m, sprite.name.as_str());
        push_str(&mut m, ": sprite rectangle cannot be empty");
        return Err(string_from_chars(&m));
    }
    let right = rect.x.checked_add(rect.width);
    let top = rect.y.checked_add(rect.height);
    let right_out = match right {
        None => true,
        Some(v) => v > width,
    };
    let top_out = match top {
        None => true,
        Some(v) => v > height,
    };
    if right_out || top_out {
        let mut m: Vec<char> = Vec::new();
        push_str(&mut m, image);
        push_str(&mut m, " / ");
        push_str(&mut m, sprite.name.as_str());
        push_str(&mut m, ": rectangle x=");
        push_decimal(&mut m, rect.x as u64);
        push_str(&mut m, " y=");
        push_decimal(&mut m, rect.y as u64);
        push_str(&mut m, " w=");
        push_decimal(&mut m, rect.width as u64);
        push_str(&mut m, " h=");
        push_decimal(&mut m, rect.height as u64);
        push_str(&mut m, " exceeds image ");
        push_decimal(&mut m, width as u64);
        push_str(&mut m, "x");
        push_decimal(&mut m, height as u64);
        return Err(string_from_chars(&m));
    }
    Ok(())
}

/// The part of the image a sprite covers, once its rectangle is checked.
pub fn sprite_region(sprite: &SpriteData, width: u32, height: u32, image: &str) -> (r: Result<CropRegion, String>)
    ensures
        match r {
            Ok(c) => rect_error(*sprite, width, height, image@) is None && c == region_of(sprite.rect, height),
            Err(m) => rect_error(*sprite, width, height, image@) == Some(m@),
        },
        r matches Ok(c) ==> c.width > 0 && c.height > 0 && c.x + c.width <= width && c.top + c.height <= height,
{
    validate_rect(sprite, width, height, image)?;
    let bottom = sprite.rect.y + sprite.rect.height;
    let top = height - bottom;
    Ok(CropRegion { x: sprite.rect.x, top, width: sprite.rect.width, height: sprite.rect.height })
}

/// The sprite's pixels: the region cut out of the sheet's image.
pub fn crop_sprite(image: &DynamicImage, region: &CropRegion) -> (r: DynamicImage)
    ensures
        r == cropped(*image, region.x, region.top, region.width, region.height),
{
    crop_image(image, region.x, region.top, region.width, region.height)
}

/// The name that `{sheet}` stands for: the image's file stem, or `sheet` when
/// the path has none.
pub open spec fn sheet_name_of(image: Seq<char>) -> Seq<char> {
    match file_stem(image) {
        Some(s) => s,
        None => "sheet"@,
    }
}

/// The name that `{sheet}` stands for (see `sheet_name_of`).
pub fn sheet_name(image: &str) -> (out: String)
    ensures
        out@ == sheet_name_of(image@),
{
    match file_stem_of(&chars_of(image)) {
        Some(s) => string_from_chars(&s),
        None => "sheet".to_owned(),
    }
}

/// The naming context of sprite number `index` of a sheet.
pub open spec fn context_of(files: SpriteSheetFiles, sheet: Seq<char>, index: usize, sprite: SpriteData) -> NamingValues {
    NamingValues { sprite: sprite.name@, sheet, relative_dir: files.relative_dir@, index, rect: sprite.rect }
}

/// A planned export is named from the sprite itself: the naming values hold the
/// sprite's name, the sheet's name and directory, the index and the sprite's
/// rectangle unchanged, so `{x}`, `{y}`, `{width}` and `{height}` render the
/// rectangle's own numbers and `{index}` the index plus one.
pub proof fn lemma_export_is_named_from_the_sprite(files: SpriteSheetFiles, sheet: Seq<char>, index: usize, sprite: SpriteData)
    ensures
        context_of(files, sheet, index, sprite).sprite == sprite.name@,
        context_of(files, sheet, index, sprite).sheet == sheet,
        context_of(files, sheet, index, sprite).relative_dir == files.relative_dir@,
        context_of(files, sheet, index, sprite).index == index,
        context_of(files, sheet, index, sprite).rect == sprite.rect,
        substituted(seq!['{', 'x', '}'], context_of(files, sheet, index, sprite)) == decimal_text(sprite.rect.x as nat),
        substituted(seq!['{', 'y', '}'], context_of(files, sheet, index, sprite)) == decimal_text(sprite.rect.y as nat),
        substituted(seq!['{', 'w', 'i', 'd', 't', 'h', '}'], context_of(files, sheet, index, sprite)) == decimal_text(
            sprite.rect.width as nat,
        ),
        substituted(seq!['{', 'h', 'e', 'i', 'g', 'h', 't', '}'], context_of(files, sheet, index, sprite)) == decimal_text(
            sprite.rect.height as nat,
        ),
        substituted(seq!['{', 'i', 'n', 'd', 'e', 'x', '}'], context_of(files, sheet, index, sprite)) == decimal_text(
            (index + 1) as nat,
        ),
{
    lemma_placeholder_values(context_of(files, sheet, index, sprite));
}

/// Plans the export of sprite number `index` of a sheet whose image is `width`
/// by `height`: the rectangle is checked, then the output path rendered from the
/// templates of `cli`.
pub fn plan_export(
    cli: &Cli,
    files: &SpriteSheetFiles,
    sheet: &str,
    index: usize,
    sprite: &SpriteData,
    width: u32,
    height: u32,
) -> (r: Result<ExportPlan, String>)
    requires
        index < usize::MAX,
    ensures
        rect_error(*sprite, width, height, files.image@) matches Some(m) ==> r matches Err(e) && e@ == m,
        rect_error(*sprite, width, height, files.image@) is None ==> {
            let p = output_path(
                cli.output@,
                cli.path_template@,
                cli.name_template@,
                context_of(*files, sheet@, index, *sprite),
            );
            match r {
                Ok(plan) => p == Ok::<Seq<char>, Seq<char>>(plan.requested@) && plan.region == region_of(sprite.rect, height),
                Err(e) => p == Err::<Seq<char>, Seq<char>>(e@),
            }
        },
{
    let region = sprite_region(sprite, width, height, files.image.as_str())?;
    let context = NamingContext {
        sprite: sprite.name.as_str(),
        sheet,
        relative_dir: files.relative_dir.as_str(),
        index,
        rect: &sprite.rect,
    };
    let requested = render_output_path(
        cli.output.as_str(),
        cli.path_template.as_str(),
        cli.name_template.as_str(),
        &context,
    )?;
    Ok(ExportPlan { region, requested })
}


impl SheetReport {
    /// A report for a sheet that was not looked at.
    pub fn new() -> (r: SheetReport)
        ensures
            !r.processed && !r.empty && r.written == 0 && r.skipped == 0,
            r.messages@.len() == 0 && r.errors@.len() == 0,
    {
        SheetReport {
            processed: false,
            empty: false,
            written: 0,
            skipped: 0,
            messages: Vec::new(),
            errors: Vec::new(),
        }
    }

    /// A report for a sheet whose work begins, noting `sheet: <image>`.
    pub fn start(image: &str) -> (r: SheetReport)
        ensures
            !r.processed && !r.empty && r.written == 0 && r.skipped == 0,
            r.errors@.len() == 0,
            r.messages@.len() == 1 && r.messages@[0]@ == "sheet: "@ + image@,
    {
        let mut r = SheetReport::new();
        r.note_pair("sheet: ", image);
        r
    }

    fn note(&mut self, head: &str, middle: &str, tail: &str)
        ensures
            final(self).processed == old(self).processed,
            final(self).empty == old(self).empty,
            final(self).written == old(self).written,
            final(self).skipped == old(self).skipped,
            final(self).errors@ == old(self).errors@,
            final(self).messages@.len() == old(self).messages@.len() + 1,
            forall|i: int| 0 <= i < old(self).messages@.len() ==> final(self).messages@[i] == old(self).messages@[i],
            final(self).messages@.last()@ == head@ + middle@ + tail@,
    {
        let mut m: Vec<char> = Vec::new();
        push_str(&mut m, head);
        push_str(&mut m, middle);
        push_str(&mut m, tail);
        self.messages.push(string_from_chars(&m));
    }

    fn note_pair(&mut self, head: &str, middle: &str)
        ensures
            final(self).processed == old(self).processed,
            final(self).empty == old(self).empty,
            final(self).written == old(self).written,
            final(self).skipped == old(self).skipped,
            final(self).errors@ == old(self).errors@,
            final(self).messages@.len() == old(self).messages@.len() + 1,
            forall|i: int| 0 <= i < old(self).messages@.len() ==> final(self).messages@[i] == old(self).messages@[i],
            final(self).messages@.last()@ == head@ + middle@,
    {
        let mut m: Vec<char> = Vec::new();
        push_str(&mut m, head);
        push_str(&mut m, middle);
        self.messages.push(string_from_chars(&m));
    }

    /// Counts a sprite written (or, in a dry run, planned) at `path`.
    pub fn record_written(&mut self, path: &str)
        requires
            old(self).written < usize::MAX,
        ensures
            final(self).written == old(self).written + 1,
            final(self).skipped == old(self).skipped,
            final(self).processed == old(self).processed,
            final(self).empty == old(self).empty,
            final(self).errors@ == old(self).errors@,
            final(self).messages@ == old(self).messages@.push(final(self).messages@.last()),
            final(self).messages@.last()@ == "write: "@ + path@,
    {
        self.written += 1;
        self.note_pair("write: ", path);
        assert(self.messages@ =~= old(self).messages@.push(self.messages@.last()));
    }

    /// Counts a sprite skipped because `path` was taken.
    pub fn record_skipped(&mut self, path: &str)
        requires
            old(self).skipped < usize::MAX,
        ensures
            final(self).skipped == old(self).skipped + 1,
            final(self).written == old(self).written,
            final(self).processed == old(self).processed,
            final(self).empty == old(self).empty,
            final(self).errors@ == old(self).errors@,
            final(self).messages@ == old(self).messages@.push(final(self).messages@.last()),
            final(self).messages@.last()@ == "skip: "@ + path@,
    {
        self.skipped += 1;
        self.note_pair("skip: ", path);
        assert(self.messages@ =~= old(self).messages@.push(self.messages@.last()));
    }

    /// Records an error.
    pub fn record_error(&mut self, message: String)
        ensures
            final(self).errors@ == old(self).errors@.push(message),
            final(self).messages@ == old(self).messages@,
            final(self).written == old(self).written,
            final(self).skipped == old(self).skipped,
            final(self).processed == old(self).processed,
            final(self).empty == old(self).empty,
    {
        self.errors.push(message);
    }

    /// Marks the sheet's image as decoded.
    pub fn mark_processed(&mut self)
        ensures
            final(self).processed,
            final(self).empty == old(self).empty,
            final(self).written == old(self).written,
            final(self).skipped == old(self).skipped,
            final(self).messages@ == old(self).messages@,
            final(self).errors@ == old(self).errors@,
    {
        self.processed = true;
    }
}

/// What the program does next for a sprite sheet.
#[derive(Debug, Clone, Copy, PartialEq, Eq, Structural)]
pub enum SheetStep {
    /// Read and parse the sheet's `.meta` file, then call `metadata_read` or `fail`.
    ReadMetadata,
    /// Decode the sheet's image once, then call `image_decoded` or `fail`.
    DecodeImage,
    /// Export the sprite with this index, then call `sprite_finished`.
    ExportSprite(usize),
    /// Nothing more: take the report with `into_report`.
    Finished,
}

/// How the export of one sprite ended.
#[derive(Debug)]
pub enum ExportOutcome {
    /// Written (or, in a dry run, planned) at this path.
    Written(String),
    /// Not written, because this path is taken.
    Skipped(String),
    /// Not written; the message says why.
    Failed(String),
}

/// The next step, and whether an error was just recorded (the program then
/// raises the run's shared cancellation flag).
#[derive(Debug, Clone, Copy)]
pub struct Transition {
    pub step: SheetStep,
    pub cancel: bool,
}

/// The work on one sprite sheet, one step at a time: the program performs each
/// step (reading, decoding, exporting) and reports back how it went.
pub struct SheetRun {
    report: SheetReport,
    sprites: Vec<SpriteData>,
    next: usize,
    pending: SheetStep,
}

/// The step after the sprites before `next` are done: stop when work is
/// cancelled under `--fail-fast` or when no sprite is left.
pub open spec fn step_after(next: int, count: int, stop: bool) -> SheetStep {
    if stop || next >= count {
        SheetStep::Finished
    } else {
        SheetStep::ExportSprite(next as usize)
    }
}

/// The stage of a sheet's work that a step belongs to.
pub open spec fn stage(s: SheetStep) -> int {
    match s {
        SheetStep::ReadMetadata => 0,
        SheetStep::DecodeImage => 1,
        SheetStep::ExportSprite(_) => 2,
        SheetStep::Finished => 3,
    }
}

/// The work on a sheet moves on from step `a` to step `b`: to a later stage,
/// or from one sprite to a later one.
pub open spec fn moves_on(a: SheetStep, b: SheetStep) -> bool {
    stage(a) < stage(b) || (a matches SheetStep::ExportSprite(i) && b matches SheetStep::ExportSprite(j) && i < j)
}

proof fn lemma_moves_on_transitive(a: SheetStep, b: SheetStep, c: SheetStep)
    requires
        moves_on(a, b),
        moves_on(b, c),
    ensures
        moves_on(a, c),
{
}

proof fn lemma_moves_on_chain(steps: Seq<SheetStep>, i: int, j: int)
    requires
        forall|k: int| 0 <= k < steps.len() - 1 ==> moves_on(#[trigger] steps[k], steps[k + 1]),
        0 <= i < j < steps.len(),
    ensures
        moves_on(steps[i], steps[j]),
    decreases j - i,
{
    if i + 1 < j {
        lemma_moves_on_chain(steps, i, j - 1);
        assert(moves_on(steps[j - 1], steps[j]));
        lemma_moves_on_transitive(steps[i], steps[j - 1], steps[j]);
    }
}

/// A sheet's work never comes back to a step it has taken: along the steps
/// that `SheetRun` asks for one after another, each step comes at most once.
/// So each sheet's image is decoded at most once, and each of its sprites is
/// exported at most once, in the order of their indices.
pub proof fn lemma_steps_never_repeat(steps: Seq<SheetStep>)
    requires
        forall|k: int| 0 <= k < steps.len() - 1 ==> moves_on(#[trigger] steps[k], steps[k + 1]),
    ensures
        forall|i: int, j: int| 0 <= i < j < steps.len() ==> #[trigger] steps[i] != #[trigger] steps[j],
        forall|i: int, j: int|
            0 <= i < j < steps.len() && #[trigger] steps[i] is ExportSprite && #[trigger] steps[j] is ExportSprite
                ==> steps[i]->0 < steps[j]->0,
{
    assert forall|i: int, j: int| 0 <= i < j < steps.len() implies #[trigger] steps[i] != #[trigger] steps[j] by {
        lemma_moves_on_chain(steps, i, j);
    }
    assert forall|i: int, j: int|
        0 <= i < j < steps.len() && #[trigger] steps[i] is ExportSprite && #[trigger] steps[j] is ExportSprite
            implies steps[i]->0 < steps[j]->0 by {
        lemma_moves_on_chain(steps, i, j);
    }
}

impl SheetRun {
    /// The report so far.
    pub closed spec fn report(&self) -> SheetReport {
        self.report
    }

    /// The sheet's sprites, once its metadata is read.
    pub closed spec fn sprites(&self) -> Seq<SpriteData> {
        self.sprites@
    }

    /// The index of the next sprite to export.
    pub closed spec fn next(&self) -> int {
        self.next as int
    }

    /// The step the program is to perform next.
    pub closed spec fn pending(&self) -> SheetStep {
        self.pending
    }

    /// Starts work on the sheet whose image is `image`. Under `--fail-fast`,
    /// work that is already cancelled does not start, and its report is empty.
    pub fn begin(image: &str, fail_fast: bool, cancelled: bool) -> (r: (SheetRun, SheetStep))
        ensures
            r.0.sprites().len() == 0,
            r.0.next() == 0,
            !r.0.report().processed && !r.0.report().empty,
            r.0.report().written == 0 && r.0.report().skipped == 0,
            r.0.report().errors@.len() == 0,
            r.0.pending() == r.1,
            fail_fast && cancelled ==> r.1 == SheetStep::Finished && r.0.report().messages@.len() == 0,
            !(fail_fast && cancelled) ==> r.1 == SheetStep::ReadMetadata && r.0.report().messages@.len() == 1
                && r.0.report().messages@[0]@ == "sheet: "@ + image@,
    {
        if fail_fast && cancelled {
            (SheetRun { report: SheetReport::new(), sprites: Vec::new(), next: 0, pending: SheetStep::Finished }, SheetStep::Finished)
        } else {
            (
                SheetRun { report: SheetReport::start(image), sprites: Vec::new(), next: 0, pending: SheetStep::ReadMetadata },
                SheetStep::ReadMetadata,
            )
        }
    }

    /// Records that the pending step failed; the sheet is finished.
    pub fn fail(&mut self, message: String) -> (t: Transition)
        requires
            old(self).pending() != SheetStep::Finished,
        ensures
            t.step == SheetStep::Finished,
            final(self).pending() == t.step,
            moves_on(old(self).pending(), final(self).pending()),
            t.cancel,
            final(self).report().errors@ == old(self).report().errors@.push(message),
            final(self).report().messages@ == old(self).report().messages@,
            final(self).report().processed == old(self).report().processed,
            final(self).report().empty == old(self).report().empty,
            final(self).report().written == old(self).report().written,
            final(self).report().skipped == old(self).report().skipped,
            final(self).sprites() == old(self).sprites(),
            final(self).next() == old(self).next(),
    {
        self.report.record_error(message);
        self.pending = SheetStep::Finished;
        Transition { step: SheetStep::Finished, cancel: true }
    }

    /// Takes the parsed metadata of the sheet (`files` names its files). A sheet
    /// without a `TextureImporter` section or without sprites is empty and
    /// finished, and the report says which; otherwise the image is decoded next.
    pub fn metadata_read(&mut self, files: &SpriteSheetFiles, metadata: UnityMetaFile) -> (step: SheetStep)
        requires
            old(self).pending() == SheetStep::ReadMetadata,
        ensures
            final(self).pending() == step,
            moves_on(old(self).pending(), final(self).pending()),
            final(self).report().processed == old(self).report().processed,
            final(self).report().written == old(self).report().written,
            final(self).report().skipped == old(self).report().skipped,
            final(self).report().errors@ == old(self).report().errors@,
            final(self).next() == old(self).next(),
            forall|i: int| 0 <= i < old(self).report().messages@.len() ==> final(self).report().messages@[i] == old(self).report().messages@[i],
            match metadata.texture_importer {
                None => step == SheetStep::Finished && final(self).report().empty
                    && final(self).report().messages@.len() == old(self).report().messages@.len() + 1
                    && final(self).report().messages@.last()@ == "skip: "@ + files.meta@ + " has no TextureImporter section"@
                    && final(self).sprites() == old(self).sprites(),
                Some(importer) => if importer.sprite_sheet.sprites@.len() == 0 {
                    step == SheetStep::Finished && final(self).report().empty
                        && final(self).report().messages@.len() == old(self).report().messages@.len() + 1
                        && final(self).report().messages@.last()@ == "skip: "@ + files.image@ + " has no sliced sprites"@
                        && final(self).sprites() == old(self).sprites()
                } else {
                    step == SheetStep::DecodeImage && final(self).sprites() == importer.sprite_sheet.sprites@
                        && final(self).report().empty == old(self).report().empty
                        && final(self).report().messages@ == old(self).report().messages@
                },
            },
    {
        let step = match metadata.texture_importer {
            None => {
                self.report.empty = true;
                self.report.note("skip: ", files.meta.as_str(), " has no TextureImporter section");
                SheetStep::Finished
            },
            Some(importer) => {
                if importer.sprite_sheet.sprites.len() == 0 {
                    self.report.empty = true;
                    self.report.note("skip: ", files.image.as_str(), " has no sliced sprites");
                    SheetStep::Finished
                } else {
                    self.sprites = importer.sprite_sheet.sprites;
                    SheetStep::DecodeImage
                }
            },
        };
        self.pending = step;
        step
    }

    /// Records that the image is decoded; the sprites are exported next, from
    /// the first, unless work is cancelled under `--fail-fast`.
    pub fn image_decoded(&mut self, fail_fast: bool, cancelled: bool) -> (step: SheetStep)
        requires
            old(self).pending() == SheetStep::DecodeImage,
        ensures
            final(self).pending() == step,
            moves_on(old(self).pending(), final(self).pending()),
            final(self).report().processed,
            final(self).report().empty == old(self).report().empty,
            final(self).report().written == old(self).report().written,
            final(self).report().skipped == old(self).report().skipped,
            final(self).report().messages@ == old(self).report().messages@,
            final(self).report().errors@ == old(self).report().errors@,
            final(self).sprites() == old(self).sprites(),
            final(self).next() == old(self).next(),
            step == step_after(old(self).next(), old(self).sprites().len() as int, fail_fast && cancelled),
    {
        self.report.mark_processed();
        let step = self.step(fail_fast && cancelled);
        self.pending = step;
        step
    }

    fn step(&self, stop: bool) -> (step: SheetStep)
        ensures
            step == step_after(self.next(), self.sprites().len() as int, stop),
    {
        if stop || self.next >= self.sprites.len() {
            SheetStep::Finished
        } else {
            SheetStep::ExportSprite(self.next)
        }
    }

    /// The step the program is to perform next.
    pub fn pending_step(&self) -> (s: SheetStep)
        ensures
            s == self.pending(),
    {
        self.pending
    }

    /// The numbers of sprites written and skipped so far.
    pub fn report_counts(&self) -> (r: (usize, usize))
        ensures
            r == (self.report().written, self.report().skipped),
    {
        (self.report.written, self.report.skipped)
    }

    /// The sprite with index `index`.
    pub fn sprite(&self, index: usize) -> (s: &SpriteData)
        requires
            index < self.sprites().len(),
        ensures
            *s == self.sprites()[index as int],
    {
        &self.sprites[index]
    }

    /// Records how the export of the current sprite ended. The next sprite
    /// follows unless none is left, or work is cancelled under `--fail-fast`
    /// (by another sheet, or by this failure).
    pub fn sprite_finished(&mut self, outcome: ExportOutcome, fail_fast: bool, cancelled: bool) -> (t: Transition)
        requires
            old(self).pending() == SheetStep::ExportSprite(old(self).next() as usize),
            old(self).next() < old(self).sprites().len(),
            old(self).report().written < usize::MAX,
            old(self).report().skipped < usize::MAX,
        ensures
            final(self).next() == old(self).next() + 1,
            final(self).sprites() == old(self).sprites(),
            final(self).report().processed == old(self).report().processed,
            final(self).report().empty == old(self).report().empty,
            t.cancel == outcome is Failed,
            final(self).pending() == t.step,
            moves_on(old(self).pending(), final(self).pending()),
            t.step == step_after(final(self).next(), final(self).sprites().len() as int, fail_fast && (cancelled || t.cancel)),
            match outcome {
                ExportOutcome::Written(p) => final(self).report().written == old(self).report().written + 1
                    && final(self).report().skipped == old(self).report().skipped
                    && final(self).report().errors@ == old(self).report().errors@
                    && final(self).report().messages@ == old(self).report().messages@.push(final(self).report().messages@.last())
                    && final(self).report().messages@.last()@ == "write: "@ + p@,
                ExportOutcome::Skipped(p) => final(self).report().skipped == old(self).report().skipped + 1
                    && final(self).report().written == old(self).report().written
                    && final(self).report().errors@ == old(self).report().errors@
                    && final(self).report().messages@ == old(self).report().messages@.push(final(self).report().messages@.last())
                    && final(self).report().messages@.last()@ == "skip: "@ + p@,
                ExportOutcome::Failed(m) => final(self).report().errors@ == old(self).report().errors@.push(m)
                    && final(self).report().written == old(self).report().written
                    && final(self).report().skipped == old(self).report().skipped
                    && final(self).report().messages@ == old(self).report().messages@,
            },
    {
        let count = self.sprites.len();
        assert(self.next < count);
        let cancel = match outcome {
            ExportOutcome::Written(path) => {
                self.report.record_written(path.as_str());
                false
            },
            ExportOutcome::Skipped(path) => {
                self.report.record_skipped(path.as_str());
                false
            },
            ExportOutcome::Failed(message) => {
                self.report.record_error(message);
                true
            },
        };
        self.next = self.next + 1;
        let step = self.step(fail_fast && (cancelled || cancel));
        self.pending = step;
        Transition { step, cancel }
    }

    /// The report of the finished work.
    pub fn into_report(self) -> (r: SheetReport)
        ensures
            r == self.report(),
    {
        self.report
    }
}

/// The five counts of a run: sheets processed, empty sheets, sprites written,
/// sprites skipped, and errors.
pub open spec fn summary_tallies(s: Summary) -> (int, int, int, int, int) {
    (s.sheets_processed as int, s.empty_sheets as int, s.sprites_written as int, s.sprites_skipped as int, s.errors@.len() as int)
}

/// What one sheet's report adds to the five counts of a run.
pub open spec fn report_tallies(r: SheetReport) -> (int, int, int, int, int) {
    (
        if r.processed { 1int } else { 0int },
        if r.empty { 1int } else { 0int },
        r.written as int,
        r.skipped as int,
        r.errors@.len() as int,
    )
}

/// The counts `a` and `b` added together, each to each.
pub open spec fn plus(a: (int, int, int, int, int), b: (int, int, int, int, int)) -> (int, int, int, int, int) {
    (a.0 + b.0, a.1 + b.1, a.2 + b.2, a.3 + b.3, a.4 + b.4)
}

/// What a list of reports adds to the counts of a run.
pub open spec fn tallies(rs: Seq<SheetReport>) -> (int, int, int, int, int)
    decreases rs.len(),
{
    if rs.len() == 0 {
        (0, 0, 0, 0, 0)
    } else {
        plus(tallies(rs.drop_last()), report_tallies(rs.last()))
    }
}

proof fn lemma_tallies_remove(rs: Seq<SheetReport>, j: int)
    requires
        0 <= j < rs.len(),
    ensures
        tallies(rs) == plus(tallies(rs.remove(j)), report_tallies(rs[j])),
    decreases rs.len(),
{
    if j == rs.len() - 1 {
        assert(rs.remove(j) =~= rs.drop_last());
    } else {
        lemma_tallies_remove(rs.drop_last(), j);
        assert(rs.remove(j).drop_last() =~= rs.drop_last().remove(j));
        assert(rs.remove(j).last() == rs.last());
    }
}

proof fn lemma_tallies_permutation(a: Seq<SheetReport>, b: Seq<SheetReport>)
    requires
        a.to_multiset() == b.to_multiset(),
    ensures
        tallies(a) == tallies(b),
    decreases a.len(),
{
    broadcast use vstd::seq_lib::group_to_multiset_ensures, vstd::multiset::group_multiset_axioms;
    if a.len() == 0 {
        assert(b.to_multiset().len() == 0);
    } else {
        let x = a.last();
        assert(a =~= a.drop_last().push(x));
        assert(a.to_multiset().count(x) > 0);
        assert(b.to_multiset().contains(x));
        let j = b.index_of(x);
        vstd::seq_lib::to_multiset_remove(b, j);
        assert(a.drop_last().to_multiset() =~= b.remove(j).to_multiset());
        lemma_tallies_permutation(a.drop_last(), b.remove(j));
        lemma_tallies_remove(b, j);
    }
}

proof fn lemma_steps_add_up(states: Seq<Summary>, rs: Seq<SheetReport>)
    requires
        states.len() == rs.len() + 1,
        forall|k: int| 0 <= k < rs.len() ==> summary_tallies(#[trigger] states[k + 1]) == plus(summary_tallies(states[k]), report_tallies(rs[k])),
    ensures
        summary_tallies(states.last()) == plus(summary_tallies(states[0]), tallies(rs)),
    decreases rs.len(),
{
    if rs.len() > 0 {
        let k = rs.len() - 1;
        lemma_steps_add_up(states.drop_last(), rs.drop_last());
        assert(summary_tallies(states[k + 1]) == plus(summary_tallies(states[k]), report_tallies(rs[k])));
        assert(states.drop_last().last() == states[k]);
    }
}

/// The counts of a run do not depend on the order in which the sheets' reports
/// come in: adding the same reports to summaries with the same counts, one
/// `add_report` step each, in any two orders, ends with the same counts.
pub proof fn lemma_tallies_ignore_order(first: Seq<Summary>, a: Seq<SheetReport>, second: Seq<Summary>, b: Seq<SheetReport>)
    requires
        first.len() == a.len() + 1,
        second.len() == b.len() + 1,
        forall|k: int| 0 <= k < a.len() ==> summary_tallies(#[trigger] first[k + 1]) == plus(summary_tallies(first[k]), report_tallies(a[k])),
        forall|k: int| 0 <= k < b.len() ==> summary_tallies(#[trigger] second[k + 1]) == plus(summary_tallies(second[k]), report_tallies(b[k])),
        summary_tallies(first[0]) == summary_tallies(second[0]),
        a.to_multiset() == b.to_multiset(),
    ensures
        summary_tallies(first.last()) == summary_tallies(second.last()),
{
    lemma_steps_add_up(first, a);
    lemma_steps_add_up(second, b);
    lemma_tallies_permutation(a, b);
}

/// `Duration::default`, the zero duration. Nothing is stated of the value:
/// `Duration` is opaque here.
#[verifier::external_body]
fn zero_duration() -> Duration {
    Duration::default()
}

impl Default for Summary {
    /// Tallies with nothing counted, no errors and no time taken.
    fn default() -> (s: Summary)
        ensures
            s.sheets_found == 0 && s.sheets_processed == 0 && s.empty_sheets == 0,
            s.png_without_meta == 0 && s.sprites_written == 0 && s.sprites_skipped == 0,
            s.errors@.len() == 0,
    {
        Summary {
            sheets_found: 0,
            sheets_processed: 0,
            empty_sheets: 0,
            png_without_meta: 0,
            sprites_written: 0,
            sprites_skipped: 0,
            errors: Vec::new(),
            elapsed: zero_duration(),
        }
    }
}

impl Summary {
    /// The tallies before any sheet is worked on: what the scan found.
    pub fn from_discovery(discovery: Discovery, elapsed: Duration) -> (s: Summary)
        ensures
            s.sheets_found == discovery.sheets@.len(),
            s.png_without_meta == discovery.png_without_meta,
            s.errors@ == discovery.errors@,
            s.sheets_processed == 0 && s.empty_sheets == 0 && s.sprites_written == 0 && s.sprites_skipped == 0,
            s.elapsed == elapsed,
    {
        Summary {
            sheets_found: discovery.sheets.len(),
            sheets_processed: 0,
            empty_sheets: 0,
            png_without_meta: discovery.png_without_meta,
            sprites_written: 0,
            sprites_skipped: 0,
            errors: discovery.errors,
            elapsed,
        }
    }

    /// Adds a sheet's report to the tallies and hands back its messages.
    pub fn add_report(&mut self, report: SheetReport) -> (messages: Vec<String>)
        requires
            old(self).sheets_processed < usize::MAX,
            old(self).empty_sheets < usize::MAX,
            old(self).sprites_written + report.written <= usize::MAX,
            old(self).sprites_skipped + report.skipped <= usize::MAX,
        ensures
            final(self).sheets_found == old(self).sheets_found,
            final(self).png_without_meta == old(self).png_without_meta,
            final(self).sheets_processed == old(self).sheets_processed + if report.processed { 1usize } else { 0 },
            final(self).empty_sheets == old(self).empty_sheets + if report.empty { 1usize } else { 0 },
            final(self).sprites_written == old(self).sprites_written + report.written,
            final(self).sprites_skipped == old(self).sprites_skipped + report.skipped,
            final(self).errors@ == old(self).errors@ + report.errors@,
            final(self).elapsed == old(self).elapsed,
            summary_tallies(*final(self)) == plus(summary_tallies(*old(self)), report_tallies(report)),
            messages@ == report.messages@,
    {
        if report.processed {
            self.sheets_processed += 1;
        }
        if report.empty {
            self.empty_sheets += 1;
        }
        self.sprites_written += report.written;
        self.sprites_skipped += report.skipped;
        let SheetReport { processed: _, empty: _, written: _, skipped: _, messages, mut errors } = report;
        let ghost before = self.errors@;
        let ghost added = errors@;
        self.errors.append(&mut errors);
        assert(self.errors@ == before + added);
        messages
    }
}

} // verus!
