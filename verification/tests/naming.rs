use unity_crop::naming::{render_output_path, sanitize_component, validate_templates, NamingContext};
use unity_crop::SpriteRect;

fn rect() -> SpriteRect {
    SpriteRect { x: 10, y: 20, width: 30, height: 40 }
}

#[test]
fn renders_and_sanitizes_output_path() {
    let rect = rect();
    let context = NamingContext {
        sprite: "hero:idle",
        sheet: "characters.v2",
        relative_dir: "Assets/UI",
        index: 2,
        rect: &rect,
    };
    let path = render_output_path("out", "{relative_dir}/{sheet}", "{index}_{sprite}", &context).unwrap();
    assert_eq!(path, "out/Assets/UI/characters.v2/3_hero_idle.png");
}

#[test]
fn rejects_unknown_tokens_and_parent_paths() {
    assert!(validate_templates("{unknown}", "{sprite}").is_err());
    assert!(validate_templates("../{sheet}", "{sprite}").is_err());
}

#[test]
fn protects_windows_reserved_names() {
    assert_eq!(sanitize_component("CON"), "_CON");
    assert_eq!(sanitize_component("hello?.png"), "hello_.png");
}

#[test]
fn template_errors_name_the_problem() {
    assert_eq!(validate_templates("{sheet", "{sprite}").unwrap_err(), "unclosed template token in '{sheet'");
    assert_eq!(validate_templates("{sheet}", "{nope}.png").unwrap_err(), "unknown template token '{nope}'");
    assert_eq!(validate_templates("a}", "{sprite}").unwrap_err(), "unmatched '}' in template 'a}'");
    assert_eq!(
        validate_templates("/abs/{sheet}", "{sprite}").unwrap_err(),
        "--path-template must be relative to --output"
    );
    assert_eq!(validate_templates("a\\..\\b", "{sprite}").unwrap_err(), "--path-template cannot contain '..'");
    assert_eq!(
        validate_templates("{sheet}", "a\\{sprite}").unwrap_err(),
        "--name-template cannot contain path separators"
    );
    assert!(validate_templates("{relative_dir}/{sheet}", "{sprite}.png").is_ok());
    assert!(validate_templates("{x}_{y}_{width}_{height}/{index}", "{sheet}-{sprite}").is_ok());
    assert!(validate_templates("a..b/{sheet}", "{sprite}").is_ok());
}

#[test]
fn sanitizing_trims_and_names_empty_components() {
    assert_eq!(sanitize_component("  name. . "), "name");
    assert_eq!(sanitize_component(""), "unnamed");
    assert_eq!(sanitize_component(".."), "unnamed");
    assert_eq!(sanitize_component("..."), "unnamed");
    assert_eq!(sanitize_component("a\tb"), "a_b");
    assert_eq!(sanitize_component("a<b>c:d\"e/f\\g|h?i*j"), "a_b_c_d_e_f_g_h_i_j");
    assert_eq!(sanitize_component("\u{a0}x\u{3000}"), "x");
    assert_eq!(sanitize_component("com1.txt"), "_com1.txt");
    assert_eq!(sanitize_component("lpt9"), "_lpt9");
    assert_eq!(sanitize_component("COM0"), "COM0");
    assert_eq!(sanitize_component("CONSOLE"), "CONSOLE");
    assert_eq!(sanitize_component("aux.tar.gz"), "_aux.tar.gz");
}

#[test]
fn sanitized_components_are_safe_names() {
    let samples = [
        "", ".", "..", " ", "a.", "a ", "\u{7f}", "\u{85}", "x\u{a0}.", "CON", "ok", "a/b", "\u{2000}",
        "héllo wörld", "*?*", "name\u{1f}",
    ];
    for s in samples {
        let out = sanitize_component(s);
        assert!(!out.is_empty());
        assert!(!out.ends_with('.') && !out.ends_with(' '));
        assert!(out.chars().all(|c| !c.is_control() && !"<>:\"/\\|?*".contains(c)));
        assert!(out != "." && out != "..");
    }
}

#[test]
fn white_space_and_control_classes_agree_with_std() {
    for code in 0u32..0x3100 {
        if let Some(c) = char::from_u32(code) {
            let s = format!("a{c}b");
            let expected = if c.is_control() || "<>:\"/\\|?*".contains(c) { "a_b".to_owned() } else { s.clone() };
            assert_eq!(sanitize_component(&s), expected);
            let edge = format!("{c}z");
            let trimmed = sanitize_component(&edge);
            if c.is_whitespace() && !c.is_control() {
                assert_eq!(trimmed, "z");
            }
        }
    }
}

#[test]
fn placeholders_are_replaced_in_one_pass() {
    let rect = SpriteRect { x: 0, y: 7, width: 123, height: 4000000000 };
    let context = NamingContext { sprite: "{sheet}", sheet: "atlas", relative_dir: "./a//b/../c/", index: 0, rect: &rect };
    let path = render_output_path("", "{relative_dir}", "{sprite}_{index}_{x}_{y}_{width}_{height}", &context).unwrap();
    assert_eq!(path, "a/b/c/{sheet}_1_0_7_123_4000000000.png");
    let context = NamingContext { sprite: "s", sheet: "{x}", relative_dir: "{index}", index: 4, rect: &rect };
    let path = render_output_path("out", "{relative_dir}/{sheet}", "{{sprite}}{unknown}", &context).unwrap();
    assert_eq!(path, "out/{index}/{x}/{s}{unknown}.png");
}

#[test]
fn png_extension_is_added_once() {
    let rect = rect();
    let context = NamingContext { sprite: "Hero.PNG", sheet: "s", relative_dir: "", index: 0, rect: &rect };
    assert_eq!(render_output_path("out/", "{sheet}", "{sprite}", &context).unwrap(), "out/s/Hero.PNG");
    assert_eq!(render_output_path("out", "", "{sheet}", &context).unwrap(), "out/s.png");
    assert_eq!(render_output_path("/abs", "x", "y.jpg", &context).unwrap(), "/abs/x/y.jpg.png");
}

#[test]
fn rendering_rejects_empty_names_and_escapes() {
    let rect = rect();
    let context = NamingContext { sprite: "s", sheet: "t", relative_dir: "", index: 0, rect: &rect };
    assert_eq!(
        render_output_path("out", "{sheet}", ".png", &context).unwrap_err(),
        "the filename template produced an empty name"
    );
    assert_eq!(
        render_output_path("out", "a/../../{sheet}", "{sprite}", &context).unwrap_err(),
        "rendered path attempts to leave the output directory"
    );
    assert_eq!(render_output_path("out", "a\\b/./c", "n", &context).unwrap(), "out/a/b/c/n.png");
}

#[test]
fn sanitizing_twice_changes_nothing() {
    for name in ["CON", " a. ", "x\t\u{85}y:", "", "...", "lpt3.txt", "a\u{3000}b", "  \n"] {
        let once = sanitize_component(name);
        assert_eq!(sanitize_component(&once), once, "{name:?}");
    }
    let once = sanitize_component("a\u{3000}.");
    assert_eq!(once, "a\u{3000}");
    assert_eq!(sanitize_component(&once), "a");
}
