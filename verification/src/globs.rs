//! Glob patterns, matched by the `globset` crate.
use vstd::prelude::*;

use globset::{Glob, GlobSet, GlobSetBuilder};

use crate::text::{push_str, string_from_chars};

verus! {

#[verifier::external_type_specification]
#[verifier::external_body]
pub struct ExGlob(globset::Glob);

#[verifier::external_type_specification]
#[verifier::external_body]
pub struct ExGlobSetBuilder(globset::GlobSetBuilder);

#[verifier::external_type_specification]
#[verifier::external_body]
pub struct ExGlobSet(globset::GlobSet);

/// Whether `Glob::new` accepts `pattern` (with globset's defaults for the
/// platform the crate is built for, as for the other names here).
pub uninterp spec fn glob_parses(pattern: Seq<char>) -> bool;

/// The pattern text that a `Glob` holds (what `Glob::glob` returns).
pub uninterp spec fn glob_pattern(glob: Glob) -> Seq<char>;

/// The pattern texts of the globs added to a builder, in order.
pub uninterp spec fn builder_patterns(builder: GlobSetBuilder) -> Seq<Seq<char>>;

/// The pattern texts of the globs a set was built from, in order.
pub uninterp spec fn set_patterns(set: GlobSet) -> Seq<Seq<char>>;

/// Whether `GlobSetBuilder::build` succeeds for globs with these patterns.
pub uninterp spec fn glob_set_builds(patterns: Seq<Seq<char>>) -> bool;

/// The text (`Display`) of the error that `Glob::new` gives for `pattern`.
pub uninterp spec fn glob_error_text(pattern: Seq<char>) -> Seq<char>;

/// The text (`Display`) of the error that `GlobSetBuilder::build` gives for
/// globs with these patterns.
pub uninterp spec fn glob_set_error_text(patterns: Seq<Seq<char>>) -> Seq<char>;

/// Whether the glob that `Glob::new` builds from `pattern` matches `path`.
pub uninterp spec fn glob_matches(pattern: Seq<char>, path: Seq<char>) -> bool;

/// `globset::Glob::new`: succeeds exactly for the patterns it accepts, and the
/// glob keeps the pattern text; an error is handed back as its text, which
/// depends on the pattern alone.
#[verifier::external_body]
fn new_glob(pattern: &str) -> (r: Result<Glob, String>)
    ensures
        r is Ok <==> glob_parses(pattern@),
        r matches Ok(g) ==> glob_pattern(g) == pattern@,
        r matches Err(e) ==> e@ == glob_error_text(pattern@),
{
    match Glob::new(pattern) {
        Ok(glob) => Ok(glob),
        Err(error) => Err(error.to_string()),
    }
}

/// `globset::GlobSetBuilder::new`: a builder with no globs.
#[verifier::external_body]
fn new_builder() -> (b: GlobSetBuilder)
    ensures
        builder_patterns(b) == Seq::<Seq<char>>::empty(),
{
    GlobSetBuilder::new()
}

/// `globset::GlobSetBuilder::add`: appends the glob to the builder's list.
#[verifier::external_body]
fn add_glob(builder: &mut GlobSetBuilder, glob: Glob)
    ensures
        builder_patterns(*final(builder)) == builder_patterns(*old(builder)).push(glob_pattern(glob)),
{
    builder.add(glob);
}

/// `globset::GlobSetBuilder::build`: a set of exactly the added globs, when the
/// globs can be compiled together; an error is handed back as its text, which
/// depends on the patterns alone.
#[verifier::external_body]
fn build_set(builder: &GlobSetBuilder) -> (r: Result<GlobSet, String>)
    ensures
        r is Ok <==> glob_set_builds(builder_patterns(*builder)),
        r matches Ok(s) ==> set_patterns(s) == builder_patterns(*builder),
        r matches Err(e) ==> e@ == glob_set_error_text(builder_patterns(*builder)),
{
    match builder.build() {
        Ok(set) => Ok(set),
        Err(error) => Err(error.to_string()),
    }
}

/// `globset::GlobSet::is_match`: true exactly when some glob of the set matches
/// the path, as its documentation states.
#[verifier::external_body]
fn set_is_match(set: &GlobSet, path: &str) -> (r: bool)
    ensures
        r == (exists|i: int| 0 <= i < set_patterns(*set).len() && #[trigger] glob_matches(set_patterns(*set)[i], path@)),
{
    set.is_match(path)
}

/// The texts of some strings.
pub open spec fn texts(v: Seq<String>) -> Seq<Seq<char>> {
    v.map_values(|s: String| s@)
}

/// Whether some glob with a pattern in `patterns` matches `path`.
pub open spec fn any_glob_matches(patterns: Seq<Seq<char>>, path: Seq<char>) -> bool {
    exists|i: int| 0 <= i < patterns.len() && #[trigger] glob_matches(patterns[i], path)
}

/// The index of the first pattern that `Glob::new` refuses, or the length.
pub open spec fn first_bad_pattern(patterns: Seq<Seq<char>>) -> int
    decreases patterns.len(),
{
    if patterns.len() == 0 {
        0
    } else if !glob_parses(patterns[0]) {
        0
    } else {
        1 + first_bad_pattern(patterns.skip(1))
    }
}

proof fn lemma_first_bad_pattern(patterns: Seq<Seq<char>>)
    ensures
        0 <= first_bad_pattern(patterns) <= patterns.len(),
        forall|j: int| 0 <= j < first_bad_pattern(patterns) ==> glob_parses(#[trigger] patterns[j]),
        first_bad_pattern(patterns) < patterns.len() ==> !glob_parses(patterns[first_bad_pattern(patterns)]),
    decreases patterns.len(),
{
    if patterns.len() > 0 && glob_parses(patterns[0]) {
        lemma_first_bad_pattern(patterns.skip(1));
        assert forall|j: int| 0 <= j < first_bad_pattern(patterns) implies glob_parses(#[trigger] patterns[j]) by {
            if j > 0 {
                assert(patterns[j] == patterns.skip(1)[j - 1]);
            }
        }
    }
}

/// Whether a set of globs can be built from `patterns`: each is a glob, and
/// together they compile.
pub open spec fn glob_set_ok(patterns: Seq<Seq<char>>) -> bool {
    first_bad_pattern(patterns) == patterns.len() && glob_set_builds(patterns)
}

/// The message when a set of `kind` globs cannot be built from `patterns`:
/// `invalid <kind> glob '<pattern>': ` and the `globset` error for the first
/// pattern that is not a glob, or `failed to build <kind> globs: ` and the
/// `globset` error for the set.
pub open spec fn glob_set_error(patterns: Seq<Seq<char>>, kind: Seq<char>) -> Seq<char> {
    let i = first_bad_pattern(patterns);
    if i < patterns.len() {
        "invalid "@ + kind + " glob '"@ + patterns[i] + "': "@ + glob_error_text(patterns[i])
    } else {
        "failed to build "@ + kind + " globs: "@ + glob_set_error_text(patterns)
    }
}

/// A set of globs, one per pattern, built in order. It fails when a pattern is
/// not a glob, or when the globs cannot be compiled together (see
/// `glob_set_error` for the message).
pub fn build_glob_set(patterns: &Vec<String>, kind: &str) -> (r: Result<GlobSet, String>)
    ensures
        r is Ok <==> glob_set_ok(texts(patterns@)),
        r matches Ok(s) ==> set_patterns(s) == texts(patterns@),
        r matches Err(m) ==> m@ == glob_set_error(texts(patterns@), kind@),
{
    let ghost ps = texts(patterns@);
    proof {
        lemma_first_bad_pattern(ps);
    }
    let mut builder = new_builder();
    let mut i: usize = 0;
    while i < patterns.len()
        invariant
            i <= patterns.len(),
            ps == texts(patterns@),
            forall|j: int| 0 <= j < i ==> glob_parses(#[trigger] ps[j]),
            builder_patterns(builder) == ps.take(i as int),
            0 <= first_bad_pattern(ps) <= ps.len(),
            forall|j: int| 0 <= j < first_bad_pattern(ps) ==> glob_parses(#[trigger] ps[j]),
            first_bad_pattern(ps) < ps.len() ==> !glob_parses(ps[first_bad_pattern(ps)]),
        decreases patterns.len() - i,
    {
        let pattern: &str = patterns[i].as_str();
        assert(pattern@ == ps[i as int]);
        match new_glob(pattern) {
            Ok(glob) => {
                add_glob(&mut builder, glob);
                assert(ps.take(i + 1) =~= ps.take(i as int).push(ps[i as int]));
            },
            Err(error) => {
                assert(first_bad_pattern(ps) == i);
                let mut m: Vec<char> = Vec::new();
                push_str(&mut m, "invalid ");
                push_str(&mut m, kind);
                push_str(&mut m, " glob '");
                push_str(&mut m, pattern);
                push_str(&mut m, "': ");
                push_str(&mut m, error.as_str());
                return Err(string_from_chars(&m));
            },
        }
        i += 1;
    }
    assert(ps.take(patterns.len() as int) =~= ps);
    assert(first_bad_pattern(ps) == ps.len());
    match build_set(&builder) {
        Ok(set) => Ok(set),
        Err(error) => {
            let mut m: Vec<char> = Vec::new();
            push_str(&mut m, "failed to build ");
            push_str(&mut m, kind);
            push_str(&mut m, " globs: ");
            push_str(&mut m, error.as_str());
            Err(string_from_chars(&m))
        },
    }
}

/// Whether some glob of `set` matches `path`.
pub fn glob_set_matches(set: &GlobSet, path: &str) -> (r: bool)
    ensures
        r == any_glob_matches(set_patterns(*set), path@),
{
    set_is_match(set, path)
}

} // verus!
