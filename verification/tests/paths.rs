use std::path::Path;

use unity_crop::paths::parent_path;

#[test]
fn parents_keep_the_text_of_the_path() {
    for p in [
        "", "/", ".", "..", "a", "/a", "./a", "../a", "a/b", "a/b/", "a//b", "a/./b", "a/b/.", "a/./",
        "//a", "/./a", "./", "out/./x/s.png", "out//x///s.png", ".a/b", "a/../b", "./.", "/.",
    ] {
        let chars: Vec<char> = p.chars().collect();
        let ours: Option<String> = parent_path(&chars).map(|v| v.into_iter().collect());
        let std: Option<String> = Path::new(p).parent().map(|q| q.to_str().unwrap().to_owned());
        assert_eq!(ours, std, "parent of {p:?}");
    }
}
