//! Which files of the input become sprite sheets: glob selection, the Unity
//! project directories skipped by default, the `.meta` file next to each PNG,
//! and the order in which sheets are processed.
use vstd::prelude::*;

use globset::GlobSet;
use vstd::multiset::Multiset;

use crate::cli::Cli;
use crate::globs::{
    any_glob_matches, build_glob_set, glob_set_error, glob_set_matches, glob_set_ok,
    set_patterns, texts,
};
use crate::paths::{
    components, components_are_less, extension, extension_of, lemma_components_less_asymmetric,
    lemma_components_less_transitive, parent, parent_path, path_components, path_less,
    same_components, strip_path_prefix, strip_prefix,
};
use crate::text::{
    ascii_lower, chars_of, push_str, string_from_chars, swap_char, swap_chars, to_ascii_lower,
    views,
};

verus! {

/// A sprite sheet found in the input: the PNG, its `.meta` file, and the PNG's
/// directory relative to the input.
#[derive(Debug, Clone)]
pub struct SpriteSheetFiles {
    pub image: String,
    pub meta: String,
    pub relative_dir: String,
}

impl View for SpriteSheetFiles {
    type V = (Seq<char>, Seq<char>, Seq<char>);

    open spec fn view(&self) -> Self::V {
        (self.image@, self.meta@, self.relative_dir@)
    }
}

/// What a scan of the input found.
#[derive(Debug)]
pub struct Discovery {
    pub sheets: Vec<SpriteSheetFiles>,
    /// PNG files that were selected but have no `.meta` file next to them.
    pub png_without_meta: usize,
    pub errors: Vec<String>,
}

/// The compiled globs that select files.
pub struct PathFilters {
    pub include_set: GlobSet,
    pub exclude_set: GlobSet,
}

/// The views of a list of sheets.
pub open spec fn sheet_views(s: Seq<SpriteSheetFiles>) -> Seq<(Seq<char>, Seq<char>, Seq<char>)> {
    s.map_values(|f: SpriteSheetFiles| f@)
}

impl Discovery {
    /// A scan that has found nothing yet.
    pub fn new() -> (d: Discovery)
        ensures
            d.sheets@.len() == 0,
            d.png_without_meta == 0,
            d.errors@.len() == 0,
    {
        Discovery { sheets: Vec::new(), png_without_meta: 0, errors: Vec::new() }
    }

    /// Records an error met while walking the input, as `scan error: <error>`.
    pub fn record_scan_error(&mut self, error: &str)
        ensures
            final(self).sheets@ == old(self).sheets@,
            final(self).png_without_meta == old(self).png_without_meta,
            final(self).errors@.len() == old(self).errors@.len() + 1,
            forall|i: int| 0 <= i < old(self).errors@.len() ==> final(self).errors@[i] == old(self).errors@[i],
            final(self).errors@.last()@ == "scan error: "@ + error@,
    {
        let mut m: Vec<char> = Vec::new();
        push_str(&mut m, "scan error: ");
        push_str(&mut m, error);
        self.errors.push(string_from_chars(&m));
    }
}

/// The Unity project directories that are skipped unless told otherwise.
pub open spec fn default_excludes() -> Seq<Seq<char>> {
    seq![
        ".git"@, ".git/**"@, "Library"@, "Library/**"@, "Temp"@, "Temp/**"@, "Logs"@, "Logs/**"@,
        "obj"@, "obj/**"@, "Build"@, "Build/**"@, "Builds"@, "Builds/**"@,
    ]
}

/// The globs used when none are given to select PNG files.
pub open spec fn default_png_globs() -> Seq<Seq<char>> {
    seq!["*.png"@, "**/*.png"@]
}

/// The globs that select files: the given ones, or `*.png` and `**/*.png`.
pub open spec fn selection_globs(cli: Cli) -> Seq<Seq<char>> {
    if cli.include_globs@.len() == 0 {
        default_png_globs()
    } else {
        texts(cli.include_globs@)
    }
}

/// The globs that exclude paths: the given ones, then the Unity project
/// directories unless the defaults are switched off.
pub open spec fn exclusion_globs(cli: Cli) -> Seq<Seq<char>> {
    if cli.no_default_excludes {
        texts(cli.exclude@)
    } else {
        texts(cli.exclude@) + default_excludes()
    }
}

/// The Unity project directories that are skipped unless told otherwise.
pub fn default_exclude_patterns() -> (out: Vec<String>)
    ensures
        texts(out@) == default_excludes(),
{
    let out = vec![
        ".git".to_owned(),
        ".git/**".to_owned(),
        "Library".to_owned(),
        "Library/**".to_owned(),
        "Temp".to_owned(),
        "Temp/**".to_owned(),
        "Logs".to_owned(),
        "Logs/**".to_owned(),
        "obj".to_owned(),
        "obj/**".to_owned(),
        "Build".to_owned(),
        "Build/**".to_owned(),
        "Builds".to_owned(),
        "Builds/**".to_owned(),
    ];
    assert(texts(out@) =~= default_excludes());
    out
}

fn copy_strings(v: &Vec<String>) -> (out: Vec<String>)
    ensures
        texts(out@) == texts(v@),
{
    let mut out: Vec<String> = Vec::new();
    let mut i: usize = 0;
    while i < v.len()
        invariant
            i <= v.len(),
            texts(out@) == texts(v@).take(i as int),
        decreases v.len() - i,
    {
        let ghost before = texts(out@);
        let c = v[i].clone();
        out.push(c);
        assert(texts(out@) =~= before.push(v@[i as int]@));
        assert(texts(v@).take(i + 1) =~= texts(v@).take(i as int).push(v@[i as int]@));
        i += 1;
    }
    assert(texts(v@).take(v.len() as int) =~= texts(v@));
    out
}

/// Unless `--no-default-excludes` is given, the Unity project directories are
/// excluded whatever `--exclude` holds: the exclusion globs are the given ones,
/// in order, followed by `.git`, `.git/**`, `Library`, `Library/**`, `Temp`,
/// `Temp/**`, `Logs`, `Logs/**`, `obj`, `obj/**`, `Build`, `Build/**`, `Builds`
/// and `Builds/**`. With it they are the given ones alone.
pub proof fn lemma_default_excludes_always_added(cli: Cli)
    ensures
        forall|i: int| 0 <= i < cli.exclude@.len() ==> #[trigger] exclusion_globs(cli)[i] == cli.exclude@[i]@,
        cli.no_default_excludes ==> exclusion_globs(cli).len() == cli.exclude@.len(),
        !cli.no_default_excludes ==> exclusion_globs(cli).skip(cli.exclude@.len() as int) == seq![
            ".git"@, ".git/**"@, "Library"@, "Library/**"@, "Temp"@, "Temp/**"@, "Logs"@, "Logs/**"@,
            "obj"@, "obj/**"@, "Build"@, "Build/**"@, "Builds"@, "Builds/**"@,
        ],
{
    let given = texts(cli.exclude@);
    assert(given.len() == cli.exclude@.len());
    if !cli.no_default_excludes {
        assert((given + default_excludes()).skip(given.len() as int) =~= default_excludes());
    }
}

/// The globs that select files (see `selection_globs`).
pub fn selection_patterns(cli: &Cli) -> (out: Vec<String>)
    ensures
        texts(out@) == selection_globs(*cli),
{
    if cli.include_globs.len() == 0 {
        let out = vec!["*.png".to_owned(), "**/*.png".to_owned()];
        assert(texts(out@) =~= default_png_globs());
        out
    } else {
        copy_strings(&cli.include_globs)
    }
}

/// The globs that exclude paths (see `exclusion_globs`).
pub fn exclusion_patterns(cli: &Cli) -> (out: Vec<String>)
    ensures
        texts(out@) == exclusion_globs(*cli),
{
    let mut out = copy_strings(&cli.exclude);
    if !cli.no_default_excludes {
        let defaults = default_exclude_patterns();
        let ghost start = texts(out@);
        let mut i: usize = 0;
        while i < defaults.len()
            invariant
                i <= defaults.len(),
                texts(defaults@) == default_excludes(),
                texts(out@) == start + default_excludes().take(i as int),
            decreases defaults.len() - i,
        {
            let ghost before = texts(out@);
            let c = defaults[i].clone();
            out.push(c);
            assert(texts(out@) =~= before.push(defaults@[i as int]@));
            assert(texts(defaults@)[i as int] == defaults@[i as int]@);
            assert(default_excludes().take(i + 1) =~= default_excludes().take(i as int).push(defaults@[i as int]@));
            i += 1;
            assert(texts(out@) =~= start + default_excludes().take(i as int));
        }
        assert(default_excludes().take(default_excludes().len() as int) =~= default_excludes());
    }
    out
}

/// What compiling the globs of `cli` comes to: the patterns of the selection
/// set and of the exclusion set, or the message for the first that fails
/// (selection first, kind `include`; then exclusion, kind `exclude`).
pub open spec fn filters_outcome(cli: Cli) -> Result<(Seq<Seq<char>>, Seq<Seq<char>>), Seq<char>> {
    if !glob_set_ok(selection_globs(cli)) {
        Err(glob_set_error(selection_globs(cli), "include"@))
    } else if !glob_set_ok(exclusion_globs(cli)) {
        Err(glob_set_error(exclusion_globs(cli), "exclude"@))
    } else {
        Ok((selection_globs(cli), exclusion_globs(cli)))
    }
}

/// Leaving `--include` out is the same as giving `*.png` and `**/*.png`: two
/// settings that differ only there compile to sets of the same patterns, or
/// fail with the same message. (Everything the scan then decides goes by those
/// patterns alone.)
pub proof fn lemma_default_include(cli: Cli, given: Cli)
    requires
        cli.include_globs@.len() == 0,
        texts(given.include_globs@) == default_png_globs(),
        texts(given.exclude@) == texts(cli.exclude@),
        given.no_default_excludes == cli.no_default_excludes,
    ensures
        selection_globs(cli) == selection_globs(given),
        exclusion_globs(cli) == exclusion_globs(given),
        filters_outcome(cli) == filters_outcome(given),
{
    assert(texts(given.include_globs@).len() == given.include_globs@.len());
}

/// Compiles the selection globs, then the exclusion globs (see `filters_outcome`).
pub fn build_filters(cli: &Cli) -> (r: Result<PathFilters, String>)
    ensures
        match r {
            Ok(f) => filters_outcome(*cli) == Ok::<(Seq<Seq<char>>, Seq<Seq<char>>), Seq<char>>(
                (set_patterns(f.include_set), set_patterns(f.exclude_set)),
            ),
            Err(m) => filters_outcome(*cli) == Err::<(Seq<Seq<char>>, Seq<Seq<char>>), Seq<char>>(m@),
        },
{
    let wanted = selection_patterns(cli);
    let include_set = build_glob_set(&wanted, "include")?;
    let unwanted = exclusion_patterns(cli);
    let exclude_set = build_glob_set(&unwanted, "exclude")?;
    Ok(PathFilters { include_set, exclude_set })
}

impl PathFilters {
    /// Whether a relative path is selected: some selection glob matches it and
    /// no exclusion glob does.
    pub fn selects(&self, relative: &str) -> (r: bool)
        ensures
            r == (any_glob_matches(set_patterns(self.include_set), relative@) && !any_glob_matches(
                set_patterns(self.exclude_set),
                relative@,
            )),
    {
        glob_set_matches(&self.include_set, relative) && !glob_set_matches(&self.exclude_set, relative)
    }

    /// Whether some exclusion glob matches a relative path.
    pub fn excludes(&self, relative: &str) -> (r: bool)
        ensures
            r == any_glob_matches(set_patterns(self.exclude_set), relative@),
    {
        glob_set_matches(&self.exclude_set, relative)
    }
}

/// A path with `\` written as `/`, the form globs are matched against.
pub fn slash_path(path: &str) -> (out: String)
    ensures
        out@ == swap_char(path@, '\\', '/'),
{
    let v = chars_of(path);
    string_from_chars(&swap_chars(&v, '\\', '/'))
}

/// The `.meta` file that Unity keeps next to `image`: its path with `.meta` appended.
pub fn meta_path_for(image: &str) -> (out: String)
    ensures
        out@ == image@ + ".meta"@,
{
    let mut m: Vec<char> = Vec::new();
    push_str(&mut m, image);
    push_str(&mut m, ".meta");
    string_from_chars(&m)
}

/// Whether the extension of `p` is `png` in any ASCII case.
pub open spec fn is_png(p: Seq<char>) -> bool {
    match extension(p) {
        Some(e) => ascii_lower(e) == seq!['p', 'n', 'g'],
        None => false,
    }
}

/// Whether `image` has the extension `png`, in any ASCII case.
pub fn is_png_path(image: &str) -> (r: bool)
    ensures
        r == is_png(image@),
{
    let p = chars_of(image);
    match extension_of(&p) {
        Some(e) => {
            if e.len() != 3 {
                assert(ascii_lower(e@).len() != 3);
                return false;
            }
            let r = to_ascii_lower(e[0]) == 'p' && to_ascii_lower(e[1]) == 'n' && to_ascii_lower(e[2]) == 'g';
            assert(r ==> ascii_lower(e@) =~= seq!['p', 'n', 'g']);
            assert(ascii_lower(e@) =~= seq!['p', 'n', 'g'] ==> r) by {
                if ascii_lower(e@) =~= seq!['p', 'n', 'g'] {
                    assert(ascii_lower(e@)[0] == 'p');
                    assert(ascii_lower(e@)[1] == 'n');
                    assert(ascii_lower(e@)[2] == 'g');
                }
            }
            r
        },
        None => false,
    }
}

/// Adds a PNG to the scan. A path whose extension is not `png` is ignored; a
/// PNG without its `.meta` file (`meta_is_file` tells whether
/// `meta_path_for(image)` is a file) is counted; any other PNG becomes a sheet.
pub fn add_file(discovery: &mut Discovery, image: &str, relative_dir: &str, meta_is_file: bool)
    requires
        old(discovery).png_without_meta < usize::MAX,
    ensures
        final(discovery).errors@ == old(discovery).errors@,
        !is_png(image@) ==> final(discovery).sheets@ == old(discovery).sheets@
            && final(discovery).png_without_meta == old(discovery).png_without_meta,
        is_png(image@) && !meta_is_file ==> final(discovery).sheets@ == old(discovery).sheets@
            && final(discovery).png_without_meta == old(discovery).png_without_meta + 1,
        is_png(image@) && meta_is_file ==> final(discovery).png_without_meta
            == old(discovery).png_without_meta && sheet_views(final(discovery).sheets@)
            == sheet_views(old(discovery).sheets@).push((image@, image@ + ".meta"@, relative_dir@)),
{
    if !is_png_path(image) {
        return;
    }
    if !meta_is_file {
        discovery.png_without_meta += 1;
        return;
    }
    let ghost before = sheet_views(discovery.sheets@);
    let meta = meta_path_for(image);
    discovery.sheets.push(
        SpriteSheetFiles { image: image.to_owned(), meta, relative_dir: relative_dir.to_owned() },
    );
    assert(sheet_views(discovery.sheets@) =~= before.push((image@, image@ + ".meta"@, relative_dir@)));
}

/// `entry` relative to `input`, or `entry` itself when it is not under `input`.
pub open spec fn relative_to(entry: Seq<char>, input: Seq<char>) -> Seq<char> {
    match strip_prefix(entry, input) {
        Some(r) => r,
        None => entry,
    }
}

/// The directory of a relative path, or the empty path when it has none.
pub open spec fn directory_of(relative: Seq<char>) -> Seq<char> {
    match parent(relative) {
        Some(p) => p,
        None => seq![],
    }
}

/// Whether the filters select a file at `relative`, written with `/`.
pub open spec fn selected(filters: PathFilters, relative: Seq<char>) -> bool {
    let m = swap_char(relative, '\\', '/');
    any_glob_matches(set_patterns(filters.include_set), m) && !any_glob_matches(
        set_patterns(filters.exclude_set),
        m,
    )
}

fn relative_path(entry: &str, input: &str) -> (out: Vec<char>)
    ensures
        out@ == relative_to(entry@, input@),
{
    let e = chars_of(entry);
    let i = chars_of(input);
    match strip_path_prefix(&e, &i) {
        Some(r) => r,
        None => e,
    }
}

fn selects_relative(filters: &PathFilters, relative: &Vec<char>) -> (r: bool)
    ensures
        r == selected(*filters, relative@),
{
    let m = string_from_chars(&swap_chars(relative, '\\', '/'));
    filters.selects(m.as_str())
}

/// Decides on a file met while walking `input`: when the filters select its path
/// relative to `input`, the directory (relative to `input`) that it lies in.
pub fn select_entry(filters: &PathFilters, input: &str, entry: &str) -> (r: Option<String>)
    ensures
        match r {
            Some(dir) => selected(*filters, relative_to(entry@, input@)) && dir@ == directory_of(
                relative_to(entry@, input@),
            ),
            None => !selected(*filters, relative_to(entry@, input@)),
        },
{
    let relative = relative_path(entry, input);
    if !selects_relative(filters, &relative) {
        return None;
    }
    match parent_path(&relative) {
        Some(p) => Some(string_from_chars(&p)),
        None => {
            let empty: Vec<char> = Vec::new();
            assert(empty@ =~= Seq::<char>::empty());
            Some(string_from_chars(&empty))
        },
    }
}

/// A scan of a single file `input` whose parent directory is `root`: the file is
/// added (with an empty relative directory) when the filters select its path
/// relative to `root`.
pub fn discover_file(input: &str, root: &str, filters: &PathFilters, meta_is_file: bool) -> (d: Discovery)
    ensures
        d.errors@.len() == 0,
        !selected(*filters, relative_to(input@, root@)) || !is_png(input@) ==> d.sheets@.len() == 0
            && d.png_without_meta == 0,
        selected(*filters, relative_to(input@, root@)) && is_png(input@) && !meta_is_file
            ==> d.sheets@.len() == 0 && d.png_without_meta == 1,
        selected(*filters, relative_to(input@, root@)) && is_png(input@) && meta_is_file
            ==> d.png_without_meta == 0 && sheet_views(d.sheets@) == seq![(input@, input@ + ".meta"@, Seq::<char>::empty())],
{
    let mut d = Discovery::new();
    let relative = relative_path(input, root);
    if selects_relative(filters, &relative) {
        let empty: Vec<char> = Vec::new();
        let dir = string_from_chars(&empty);
        assert(dir@ =~= Seq::<char>::empty());
        let ghost before = sheet_views(d.sheets@);
        assert(before =~= Seq::<(Seq<char>, Seq<char>, Seq<char>)>::empty());
        add_file(&mut d, input, dir.as_str(), meta_is_file);
        assert(is_png(input@) && meta_is_file ==> sheet_views(d.sheets@) =~= seq![(input@, input@ + ".meta"@, Seq::<char>::empty())]);
    }
    d
}

/// Whether a scan should enter `entry` (an absolute path at `depth` below the
/// input): never the output directory below the input, and nothing that an
/// exclusion glob matches relative to the input.
pub open spec fn visits(filters: PathFilters, entry: Seq<char>, depth: int, input: Seq<char>, output: Seq<char>) -> bool {
    if depth > 0 && path_components(entry) == path_components(output) {
        false
    } else {
        !any_glob_matches(set_patterns(filters.exclude_set), swap_char(relative_to(entry, input), '\\', '/'))
    }
}

/// Whether a scan should enter `entry` (see `visits`); `input` and `output` are
/// absolute too.
pub fn should_visit(filters: &PathFilters, entry: &str, depth: usize, input: &str, output: &str) -> (r: bool)
    ensures
        r == visits(*filters, entry@, depth as int, input@, output@),
{
    let e = chars_of(entry);
    let o = chars_of(output);
    if depth > 0 && same_components(&components(&e), &components(&o)) {
        return false;
    }
    let relative = relative_path(entry, input);
    let m = string_from_chars(&swap_chars(&relative, '\\', '/'));
    !filters.excludes(m.as_str())
}

/// Sheets in the order of their image paths, as `PathBuf` orders them.
pub open spec fn sorted_by_image(s: Seq<SpriteSheetFiles>) -> bool {
    forall|i: int, j: int| 0 <= i < j < s.len() ==> !path_less(#[trigger] s[j].image@, #[trigger] s[i].image@)
}

/// Whether a sheet's image has the components `key`.
pub open spec fn has_image(key: Seq<Seq<char>>) -> spec_fn(SpriteSheetFiles) -> bool {
    |s: SpriteSheetFiles| path_components(s.image@) == key
}

/// The sheets whose images have the components `key`, in their order.
pub open spec fn with_image(sheets: Seq<SpriteSheetFiles>, key: Seq<Seq<char>>) -> Seq<SpriteSheetFiles> {
    sheets.filter(has_image(key))
}

/// Inserting a sheet before every sheet with a different image, but after all
/// sheets with its own, appends it to the sheets with its image.
proof fn lemma_with_image_insert(s: Seq<SpriteSheetFiles>, k: int, item: SpriteSheetFiles, key: Seq<Seq<char>>)
    requires
        0 <= k <= s.len(),
        forall|j: int| k <= j < s.len() ==> path_components(#[trigger] s[j].image@) != path_components(item.image@),
    ensures
        with_image(s.insert(k, item), key) == if path_components(item.image@) == key {
            with_image(s, key).push(item)
        } else {
            with_image(s, key)
        },
{
    let p = has_image(key);
    let a = s.take(k);
    let b = s.skip(k);
    assert(s =~= a + b);
    assert(s.insert(k, item) =~= a.push(item) + b);
    Seq::filter_distributes_over_add(a.push(item), b, p);
    Seq::filter_distributes_over_add(a, b, p);
    a.lemma_filter_push(item, p);
    if path_components(item.image@) == key {
        if b.filter(p).len() > 0 {
            let e = b.filter(p)[0];
            b.lemma_filter_pred(p, 0);
            assert(b.filter(p).contains(e));
            b.lemma_filter_contains_rev(p, e);
            let j = choose|j: int| 0 <= j < b.len() && b[j] == e;
            assert(s[k + j] == b[j]);
        }
        assert(b.filter(p) =~= Seq::<SpriteSheetFiles>::empty());
        assert(with_image(s.insert(k, item), key) =~= with_image(s, key).push(item));
    } else {
        assert(with_image(s.insert(k, item), key) =~= with_image(s, key));
    }
}

/// Puts the sheets in the order of their image paths; nothing is added or lost,
/// and sheets whose images compare equal keep their order.
pub fn sort_sheets(discovery: &mut Discovery)
    ensures
        final(discovery).sheets@.to_multiset() == old(discovery).sheets@.to_multiset(),
        sorted_by_image(final(discovery).sheets@),
        forall|key: Seq<Seq<char>>| #[trigger] with_image(final(discovery).sheets@, key) == with_image(old(discovery).sheets@, key),
        final(discovery).png_without_meta == old(discovery).png_without_meta,
        final(discovery).errors@ == old(discovery).errors@,
{
    broadcast use vstd::seq_lib::group_to_multiset_ensures, vstd::multiset::group_multiset_axioms;
    let mut rest: Vec<SpriteSheetFiles> = Vec::new();
    std::mem::swap(&mut rest, &mut discovery.sheets);
    let ghost initial = rest@;
    let mut out: Vec<SpriteSheetFiles> = Vec::new();
    let mut keys: Vec<Vec<Vec<char>>> = Vec::new();
    assert(out@.to_multiset() =~= Multiset::<SpriteSheetFiles>::empty()) by {
        assert(out@.to_multiset().len() == 0);
    }
    assert(out@.to_multiset().add(rest@.to_multiset()) =~= initial.to_multiset());
    assert forall|key: Seq<Seq<char>>| #[trigger] with_image(out@, key) + with_image(rest@, key) == with_image(initial, key) by {
        reveal(Seq::filter);
        assert(with_image(out@, key) + with_image(rest@, key) =~= with_image(initial, key));
    }
    while rest.len() > 0
        invariant
            out@.len() == keys@.len(),
            forall|k: int| 0 <= k < keys@.len() ==> views(#[trigger] keys@[k]@) == path_components(out@[k].image@),
            sorted_by_image(out@),
            out@.to_multiset().add(rest@.to_multiset()) == initial.to_multiset(),
            forall|key: Seq<Seq<char>>| #[trigger] with_image(out@, key) + with_image(rest@, key) == with_image(initial, key),
        decreases rest.len(),
    {
        let ghost rest_before = rest@;
        let ghost out_before = out@;
        let item = rest.remove(0);
        proof {
            assert(rest@ == rest_before.remove(0));
            vstd::seq_lib::to_multiset_remove(rest_before, 0);
            vstd::seq_lib::to_multiset_contains(rest_before, rest_before[0]);
            assert(rest_before.contains(rest_before[0]));
            assert(rest@.to_multiset() == rest_before.to_multiset().remove(rest_before[0]));
            assert(rest_before.to_multiset().contains(rest_before[0]));
        }
        let ghost x = item.image@;
        let key = components(&chars_of(item.image.as_str()));
        let mut k: usize = 0;
        while k < out.len() && !components_are_less(&key, &keys[k])
            invariant
                k <= out@.len() == keys@.len(),
                forall|m: int| 0 <= m < keys@.len() ==> views(#[trigger] keys@[m]@) == path_components(out@[m].image@),
                views(key@) == path_components(x),
                forall|m: int| 0 <= m < k ==> !path_less(x, #[trigger] out@[m].image@),
            decreases out.len() - k,
        {
            assert(views(keys@[k as int]@) == path_components(out@[k as int].image@));
            k += 1;
        }
        let ghost old_out = out@;
        proof {
            if k < old_out.len() {
                assert(views(keys@[k as int]@) == path_components(old_out[k as int].image@));
                assert(path_less(x, old_out[k as int].image@));
                lemma_components_less_asymmetric(path_components(x), path_components(old_out[k as int].image@));
                assert forall|j: int| k <= j < old_out.len() implies !path_less(#[trigger] old_out[j].image@, x) by {
                    if j > k && path_less(old_out[j].image@, x) {
                        lemma_components_less_transitive(
                            path_components(old_out[j].image@),
                            path_components(x),
                            path_components(old_out[k as int].image@),
                        );
                    }
                }
            }
        }
        let ghost g = item;
        assert(g == rest_before[0]);
        out.insert(k, item);
        keys.insert(k, key);
        proof {
            vstd::seq_lib::to_multiset_insert(old_out, k as int, g);
        }
        proof {
            let new_out = out@;
            assert(new_out == old_out.insert(k as int, new_out[k as int]));
            assert forall|i: int, j: int| 0 <= i < j < new_out.len() implies !path_less(#[trigger] new_out[j].image@, #[trigger] new_out[i].image@) by {
                if j < k {
                    assert(new_out[i] == old_out[i] && new_out[j] == old_out[j]);
                } else if j == k {
                    assert(new_out[i] == old_out[i]);
                } else if i < k {
                    assert(new_out[i] == old_out[i] && new_out[j] == old_out[j - 1]);
                } else if i == k {
                    assert(new_out[j] == old_out[j - 1]);
                } else {
                    assert(new_out[i] == old_out[i - 1] && new_out[j] == old_out[j - 1]);
                }
            }
            assert forall|m: int| 0 <= m < keys@.len() implies views(#[trigger] keys@[m]@) == path_components(out@[m].image@) by {
                if m > k {
                    assert(out@[m] == old_out[m - 1]);
                } else if m < k {
                    assert(out@[m] == old_out[m]);
                }
            }
            assert(out@.to_multiset() == old_out.to_multiset().insert(g));
            assert(out@.to_multiset().add(rest@.to_multiset()) =~= initial.to_multiset());
        }
        proof {
            assert forall|j: int| k <= j < old_out.len() implies path_components(#[trigger] old_out[j].image@) != path_components(x) by {
                assert(path_less(x, old_out[k as int].image@));
                lemma_components_less_asymmetric(path_components(x), path_components(x));
                if j > k {
                    assert(!path_less(old_out[j].image@, old_out[k as int].image@));
                }
            }
            assert(out@ == old_out.insert(k as int, g));
            assert(rest_before =~= seq![g] + rest@);
            assert forall|key: Seq<Seq<char>>| #[trigger] with_image(out@, key) + with_image(rest@, key) == with_image(initial, key) by {
                lemma_with_image_insert(old_out, k as int, g, key);
                rest@.lemma_filter_prepend(g, has_image(key));
                assert(with_image(old_out, key) + with_image(rest_before, key) == with_image(initial, key));
                assert(with_image(out@, key) + with_image(rest@, key) =~= with_image(old_out, key) + with_image(rest_before, key));
            }
        }
    }
    assert(rest@.to_multiset() =~= Multiset::<SpriteSheetFiles>::empty()) by {
        assert(rest@.to_multiset().len() == 0);
    }
    assert(out@.to_multiset() =~= initial.to_multiset());
    assert forall|key: Seq<Seq<char>>| #[trigger] with_image(out@, key) == with_image(initial, key) by {
        reveal(Seq::filter);
        assert(with_image(out@, key) + with_image(rest@, key) == with_image(initial, key));
        assert(with_image(out@, key) =~= with_image(out@, key) + with_image(rest@, key));
    }
    discovery.sheets = out;
}

} // verus!
