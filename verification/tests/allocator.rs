use std::path::{Path, PathBuf};

use unity_crop::allocator::{unique_candidate, Allocation, OutputAllocator};
use unity_crop::CollisionPolicy;

fn allocate_on_disk(allocator: &mut OutputAllocator, requested: &Path) -> Result<Option<PathBuf>, String> {
    let text = requested.to_str().unwrap();
    match allocator.allocate(text, requested.exists()) {
        Allocation::Granted(p) => Ok(Some(PathBuf::from(p))),
        Allocation::Skipped => Ok(None),
        Allocation::Refused(m) => Err(m),
        Allocation::Rename(first) => {
            let mut suffix = first;
            loop {
                let candidate = unique_candidate(text, suffix);
                let on_disk = Path::new(&candidate).exists();
                match allocator.try_candidate(text, suffix, on_disk) {
                    Ok(p) => return Ok(Some(PathBuf::from(p))),
                    Err(next) => suffix = next,
                }
            }
        }
    }
}

#[test]
fn allocator_renames_collisions_in_the_same_run() {
    let mut allocator = OutputAllocator::new(CollisionPolicy::Rename);
    let path = Path::new("out/sprite.png");
    assert_eq!(allocate_on_disk(&mut allocator, path).unwrap(), Some(path.to_owned()));
    assert_eq!(allocate_on_disk(&mut allocator, path).unwrap(), Some(PathBuf::from("out/sprite_2.png")));
}

#[test]
fn renaming_skips_taken_candidates() {
    let mut allocator = OutputAllocator::new(CollisionPolicy::Rename);
    assert!(matches!(allocator.allocate("out/a.png", false), Allocation::Granted(p) if p == "out/a.png"));
    assert!(matches!(allocator.allocate("out/a_2.png", false), Allocation::Granted(_)));
    assert!(matches!(allocator.allocate("out/a.png", false), Allocation::Rename(2)));
    assert_eq!(allocator.try_candidate("out/a.png", 2, false), Err(3));
    assert_eq!(allocator.try_candidate("out/a.png", 3, true), Err(4));
    assert_eq!(allocator.try_candidate("out/a.png", 4, false), Ok("out/a_4.png".to_owned()));
    assert!(matches!(allocator.allocate("out/./a_4.png", false), Allocation::Rename(2)));
}

#[test]
fn renaming_finds_a_free_suffix_among_the_first_ones() {
    let mut allocator = OutputAllocator::new(CollisionPolicy::Rename);
    for path in ["o/s.png", "o/s_2.png", "o/s_3.png", "o/s_5.png"] {
        assert!(matches!(allocator.allocate(path, false), Allocation::Granted(_)));
    }
    let Allocation::Rename(mut suffix) = allocator.allocate("o/s.png", false) else {
        panic!("expected a rename");
    };
    let granted = loop {
        match allocator.try_candidate("o/s.png", suffix, false) {
            Ok(p) => break p,
            Err(next) => suffix = next,
        }
    };
    assert_eq!(granted, "o/s_4.png");
    assert!(suffix <= 2 + 4);
    assert_ne!(unique_candidate("o/s.png", 1), unique_candidate("o/s.png", 10));
}

#[test]
fn a_file_on_disk_is_renamed_too() {
    let mut allocator = OutputAllocator::new(CollisionPolicy::Rename);
    assert!(matches!(allocator.allocate("x/b.png", true), Allocation::Rename(2)));
    assert_eq!(allocator.try_candidate("x/b.png", 2, false), Ok("x/b_2.png".to_owned()));
}

#[test]
fn skip_policy_keeps_existing_files() {
    let mut allocator = OutputAllocator::new(CollisionPolicy::Skip);
    assert!(matches!(allocator.allocate("o/s.png", true), Allocation::Skipped));
    assert!(matches!(allocator.allocate("o/s.png", false), Allocation::Granted(_)));
    assert!(matches!(allocator.allocate("o/s.png", false), Allocation::Skipped));
}

#[test]
fn overwrite_policy_rejects_only_duplicates_of_the_run() {
    let mut allocator = OutputAllocator::new(CollisionPolicy::Overwrite);
    assert!(matches!(allocator.allocate("o/s.png", true), Allocation::Granted(p) if p == "o/s.png"));
    match allocator.allocate("o//s.png", true) {
        Allocation::Refused(m) => assert_eq!(m, "o//s.png: multiple sprites resolve to the same output during this run"),
        other => panic!("unexpected {other:?}"),
    }
}

#[test]
fn error_policy_reports_every_collision() {
    let mut allocator = OutputAllocator::new(CollisionPolicy::Error);
    match allocator.allocate("o/s.png", true) {
        Allocation::Refused(m) => {
            assert_eq!(m, "o/s.png: output already exists (use --collision skip, overwrite, or rename)")
        }
        other => panic!("unexpected {other:?}"),
    }
    assert!(matches!(allocator.allocate("o/t.png", false), Allocation::Granted(_)));
    assert!(matches!(allocator.allocate("o/t.png", false), Allocation::Refused(_)));
}

#[test]
fn candidates_keep_directory_and_extension() {
    assert_eq!(unique_candidate("out/sprite.png", 2), "out/sprite_2.png");
    assert_eq!(unique_candidate("out/./x/s.png", 2), "out/./x/s_2.png");
    assert_eq!(unique_candidate("out//x/./s.png", 3), "out//x/s_3.png");
    assert_eq!(unique_candidate("out/archive.tar.gz", 10), "out/archive.tar_10.gz");
    assert_eq!(unique_candidate("noext", 3), "noext_3");
    assert_eq!(unique_candidate(".hidden", 2), ".hidden_2");
    assert_eq!(unique_candidate("/", 2), "sprite_2");
    assert_eq!(unique_candidate("", 2), "sprite_2");
}

#[test]
fn collision_policy_defaults_to_rename() {
    assert_eq!(CollisionPolicy::default(), CollisionPolicy::Rename);
}
