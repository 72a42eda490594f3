//! Output paths for a run: each sprite gets a path that no earlier sprite of the
//! run got, and an existing file is handled as the collision policy says.
//!
//! Whether a path exists on disk is not known here: the caller asks the file
//! system and passes the answer in.
use vstd::prelude::*;

use crate::cli::CollisionPolicy;
use crate::paths::{
    components, file_stem, file_stem_of, extension, extension_of, lemma_stem_and_extension_have_no_slash,
    parent, parent_path, path_components, same_components,
};
use crate::naming::{lemma_join_ends_with_name, path_join};
use crate::text::{
    chars_of, decimal_text, lemma_decimal_text_digits, lemma_decimal_text_injective, push_chars,
    push_decimal, push_str, string_from_chars, views,
};

verus! {

/// The answer to a request for an output path.
#[derive(Debug)]
pub enum Allocation {
    /// Write the sprite to this path; it is now reserved for this run.
    Granted(String),
    /// Do not write the sprite: the path is taken and the policy is to skip.
    Skipped,
    /// The sprite cannot be written; the message says why.
    Refused(String),
    /// The path is taken and the policy is to rename: try the candidate that
    /// `unique_candidate` gives for this suffix with `try_candidate`, and so on
    /// with the suffix that each refusal names.
    Rename(u64),
}

/// Paths reserved during a run, compared as `PathBuf`s are: by their components.
pub struct OutputAllocator {
    collision: CollisionPolicy,
    reserved: Vec<Vec<Vec<char>>>,
}

/// The key under which a path is reserved: its components.
pub open spec fn path_key(p: Seq<char>) -> Seq<Seq<char>> {
    path_components(p)
}

/// The keys held in a list of component lists.
pub open spec fn key_views(v: Seq<Vec<Vec<char>>>) -> Seq<Seq<Seq<char>>> {
    v.map_values(|k: Vec<Vec<char>>| views(k@))
}

/// The file name of the renamed candidate with number `suffix`:
/// `<stem>_<suffix>.<extension>`, or `<stem>_<suffix>` when the requested path
/// has no extension; the stem is `sprite` when the path has no file name.
pub open spec fn candidate_name(requested: Seq<char>, suffix: nat) -> Seq<char> {
    let stem = match file_stem(requested) {
        Some(s) => s,
        None => "sprite"@,
    };
    match extension(requested) {
        Some(e) => stem + seq!['_'] + decimal_text(suffix) + seq!['.'] + e,
        None => stem + seq!['_'] + decimal_text(suffix),
    }
}

/// The renamed candidate with number `suffix`: `candidate_name` in the
/// requested path's directory.
pub open spec fn candidate_path(requested: Seq<char>, suffix: nat) -> Seq<char> {
    let dir = match parent(requested) {
        Some(p) => p,
        None => seq![],
    };
    path_join(dir, candidate_name(requested, suffix))
}

/// The message when an output exists and the policy is `error`.
pub open spec fn exists_message(requested: Seq<char>) -> Seq<char> {
    requested + ": output already exists (use --collision skip, overwrite, or rename)"@
}

/// The message when two sprites of a run resolve to one path and the policy is
/// `overwrite`.
pub open spec fn duplicate_message(requested: Seq<char>) -> Seq<char> {
    requested + ": multiple sprites resolve to the same output during this run"@
}

/// The renamed candidate with number `suffix` (see `candidate_path`).
pub fn unique_candidate(requested: &str, suffix: u64) -> (out: String)
    ensures
        out@ == candidate_path(requested@, suffix as nat),
{
    let r = chars_of(requested);
    let mut name: Vec<char> = Vec::new();
    match file_stem_of(&r) {
        Some(s) => push_chars(&mut name, &s),
        None => push_str(&mut name, "sprite"),
    }
    name.push('_');
    push_decimal(&mut name, suffix);
    match extension_of(&r) {
        Some(e) => {
            name.push('.');
            push_chars(&mut name, &e);
        },
        None => {},
    }
    assert(name@ =~= candidate_name(requested@, suffix as nat));
    let dir = match parent_path(&r) {
        Some(p) => p,
        None => Vec::new(),
    };
    let mut out: Vec<char> = Vec::new();
    if name.len() > 0 && name[0] == '/' {
        push_chars(&mut out, &name);
    } else {
        push_chars(&mut out, &dir);
        if dir.len() > 0 && dir[dir.len() - 1] != '/' {
            out.push('/');
        }
        push_chars(&mut out, &name);
    }
    assert(dir@.len() > 0 ==> dir@.last() == dir@[dir.len() - 1]);
    assert(out@ =~= path_join(dir@, name@));
    string_from_chars(&out)
}

/// Grants a path, or not, from a run's reservations and whether the path is
/// taken; the reservations after the step and the path granted, if any.
pub open spec fn allocation_step(before: Set<Seq<Seq<char>>>, after: Set<Seq<Seq<char>>>, grant: Option<Seq<char>>) -> bool {
    match grant {
        Some(p) => !before.contains(path_key(p)) && after == before.insert(path_key(p)),
        None => after == before,
    }
}

impl OutputAllocator {
    /// The paths reserved so far, by key.
    pub closed spec fn reserved_set(&self) -> Set<Seq<Seq<char>>> {
        key_views(self.reserved@).to_set()
    }

    /// The collision policy.
    pub closed spec fn policy(&self) -> CollisionPolicy {
        self.collision
    }

    /// An allocator with the given policy and nothing reserved.
    pub fn new(collision: CollisionPolicy) -> (a: Self)
        ensures
            a.policy() == collision,
            a.reserved_set() == Set::<Seq<Seq<char>>>::empty(),
    {
        let a = OutputAllocator { collision, reserved: Vec::new() };
        assert(key_views(a.reserved@) =~= Seq::<Seq<Seq<char>>>::empty());
        assert(a.reserved_set() =~= Set::<Seq<Seq<char>>>::empty());
        a
    }

    fn is_reserved(&self, key: &Vec<Vec<char>>) -> (r: bool)
        ensures
            r == self.reserved_set().contains(views(key@)),
    {
        let mut i: usize = 0;
        while i < self.reserved.len()
            invariant
                i <= self.reserved.len(),
                forall|j: int| 0 <= j < i ==> key_views(self.reserved@)[j] != views(key@),
            decreases self.reserved.len() - i,
        {
            if same_components(&self.reserved[i], key) {
                assert(key_views(self.reserved@)[i as int] == views(key@));
                return true;
            }
            i += 1;
        }
        assert(!key_views(self.reserved@).contains(views(key@)));
        false
    }

    fn reserve(&mut self, key: Vec<Vec<char>>)
        ensures
            final(self).reserved_set() == old(self).reserved_set().insert(views(key@)),
            final(self).policy() == old(self).policy(),
    {
        let ghost before = key_views(self.reserved@);
        let ghost k = views(key@);
        self.reserved.push(key);
        assert(key_views(self.reserved@) =~= before.push(k));
        proof {
            before.lemma_push_to_set_commute(k);
        }
    }

    /// Answers a request for `requested`, given whether it exists on disk:
    /// a path taken (reserved in this run, or on disk) is refused under `error`,
    /// skipped under `skip`, and sent to renaming under `rename`; under
    /// `overwrite` only a path reserved in this run is refused. Any other request
    /// is granted as it stands and reserved.
    pub fn allocate(&mut self, requested: &str, occupied_on_disk: bool) -> (r: Allocation)
        ensures
            final(self).policy() == old(self).policy(),
            allocation_step(
                old(self).reserved_set(),
                final(self).reserved_set(),
                match r {
                    Allocation::Granted(p) => Some(p@),
                    _ => None,
                },
            ),
            ({
                let in_run = old(self).reserved_set().contains(path_key(requested@));
                let occupied = in_run || occupied_on_disk;
                match old(self).policy() {
                    CollisionPolicy::Error if occupied => r matches Allocation::Refused(m) && m@
                        == exists_message(requested@) && final(self).reserved_set() == old(self).reserved_set(),
                    CollisionPolicy::Skip if occupied => r is Skipped && final(self).reserved_set()
                        == old(self).reserved_set(),
                    CollisionPolicy::Overwrite if in_run => r matches Allocation::Refused(m) && m@
                        == duplicate_message(requested@) && final(self).reserved_set() == old(self).reserved_set(),
                    CollisionPolicy::Rename if occupied => r matches Allocation::Rename(first) && first == 2
                        && final(self).reserved_set() == old(self).reserved_set(),
                    _ => r matches Allocation::Granted(p) && p@ == requested@ && final(self).reserved_set()
                        == old(self).reserved_set().insert(path_key(requested@)),
                }
            }),
    {
        let key = components(&chars_of(requested));
        let in_run = self.is_reserved(&key);
        let occupied = in_run || occupied_on_disk;
        match self.collision {
            CollisionPolicy::Error if occupied => {
                let mut m: Vec<char> = Vec::new();
                push_str(&mut m, requested);
                push_str(&mut m, ": output already exists (use --collision skip, overwrite, or rename)");
                Allocation::Refused(string_from_chars(&m))
            },
            CollisionPolicy::Skip if occupied => Allocation::Skipped,
            CollisionPolicy::Overwrite if in_run => {
                let mut m: Vec<char> = Vec::new();
                push_str(&mut m, requested);
                push_str(&mut m, ": multiple sprites resolve to the same output during this run");
                Allocation::Refused(string_from_chars(&m))
            },
            CollisionPolicy::Rename if occupied => Allocation::Rename(2),
            _ => {
                self.reserve(key);
                Allocation::Granted(requested.to_owned())
            },
        }
    }

    /// Tries the renamed candidate with number `suffix` for `requested`, given
    /// whether that candidate exists on disk: it is granted and reserved when it
    /// is neither on disk nor reserved in this run; otherwise the next suffix is
    /// to be tried.
    pub fn try_candidate(&mut self, requested: &str, suffix: u64, candidate_on_disk: bool) -> (r: Result<String, u64>)
        requires
            suffix < u64::MAX,
        ensures
            final(self).policy() == old(self).policy(),
            allocation_step(
                old(self).reserved_set(),
                final(self).reserved_set(),
                match r {
                    Ok(p) => Some(p@),
                    Err(_) => None,
                },
            ),
            ({
                let c = candidate_path(requested@, suffix as nat);
                if !candidate_on_disk && !old(self).reserved_set().contains(path_key(c)) {
                    r matches Ok(p) && p@ == c && final(self).reserved_set() == old(self).reserved_set().insert(path_key(c))
                } else {
                    r matches Err(next) && next == suffix + 1 && final(self).reserved_set() == old(self).reserved_set()
                }
            }),
    {
        let candidate = unique_candidate(requested, suffix);
        if candidate_on_disk {
            return Err(suffix + 1);
        }
        let key = components(&chars_of(candidate.as_str()));
        if self.is_reserved(&key) {
            return Err(suffix + 1);
        }
        self.reserve(key);
        Ok(candidate)
    }
}

/// A candidate's file name is a plain name: not empty, not `.`, without `/`.
proof fn lemma_candidate_name_is_plain(requested: Seq<char>, suffix: nat)
    ensures
        candidate_name(requested, suffix).len() > 1,
        forall|j: int| 0 <= j < candidate_name(requested, suffix).len() ==> #[trigger] candidate_name(requested, suffix)[j] != '/',
{
    reveal_strlit("sprite");
    lemma_stem_and_extension_have_no_slash(requested);
    lemma_decimal_text_digits(suffix);
    let stem = match file_stem(requested) {
        Some(s) => s,
        None => "sprite"@,
    };
    let d = decimal_text(suffix);
    let name = candidate_name(requested, suffix);
    let head = stem + seq!['_'] + d;
    assert forall|j: int| 0 <= j < head.len() implies #[trigger] head[j] != '/' by {
        if j < stem.len() {
            assert(head[j] == stem[j]);
        } else if j > stem.len() {
            assert(head[j] == d[j - stem.len() - 1]);
        }
    }
    match extension(requested) {
        Some(e) => {
            assert(name =~= head + seq!['.'] + e);
            assert forall|j: int| 0 <= j < name.len() implies #[trigger] name[j] != '/' by {
                if j < head.len() {
                    assert(name[j] == head[j]);
                } else if j > head.len() {
                    assert(name[j] == e[j - head.len() - 1]);
                }
            }
        },
        None => {
            assert(name =~= head);
        },
    }
}

/// Renamed candidates with different suffixes are different paths.
pub proof fn lemma_candidates_differ(requested: Seq<char>, a: nat, b: nat)
    requires
        a != b,
    ensures
        path_key(candidate_path(requested, a)) != path_key(candidate_path(requested, b)),
{
    let na = candidate_name(requested, a);
    let nb = candidate_name(requested, b);
    lemma_candidate_name_is_plain(requested, a);
    lemma_candidate_name_is_plain(requested, b);
    let dir = match parent(requested) {
        Some(p) => p,
        None => seq![],
    };
    lemma_join_ends_with_name(dir, na);
    lemma_join_ends_with_name(dir, nb);
    if na == nb {
        let stem = match file_stem(requested) {
            Some(s) => s,
            None => "sprite"@,
        };
        let da = decimal_text(a);
        let db = decimal_text(b);
        let start: int = stem.len() as int + 1;
        assert(na.subrange(start, start + da.len() as int) =~= da);
        assert(nb.subrange(start, start + db.len() as int) =~= db);
        assert(da.len() == db.len());
        lemma_decimal_text_injective(a, b);
    }
}

/// Reservations cannot hold renaming up: for a finite set of reserved keys,
/// some suffix from `start` up to `start` plus the number of keys has a
/// candidate that is not reserved.
proof fn lemma_unreserved_among(requested: Seq<char>, reserved: Set<Seq<Seq<char>>>, start: nat)
    requires
        reserved.finite(),
    ensures
        exists|s: nat|
            start <= s <= start + reserved.len() && !reserved.contains(path_key(#[trigger] candidate_path(requested, s))),
    decreases reserved.len(),
{
    let k = path_key(candidate_path(requested, start));
    if reserved.contains(k) {
        let rest = reserved.remove(k);
        vstd::set::axiom_set_remove_finite(reserved, k);
        vstd::set::axiom_set_remove_len(reserved, k);
        lemma_unreserved_among(requested, rest, start + 1);
        let s = choose|s: nat|
            start + 1 <= s <= start + 1 + rest.len() && !rest.contains(path_key(#[trigger] candidate_path(requested, s)));
        lemma_candidates_differ(requested, start, s);
        assert(!reserved.contains(path_key(candidate_path(requested, s))));
    } else {
        assert(!reserved.contains(path_key(candidate_path(requested, start))));
    }
}

/// Renaming is never held up by the run's own reservations: among the
/// suffixes from 2 up to 2 plus the number of reserved paths, some candidate
/// is not reserved. (Candidates with different suffixes are different paths;
/// only files on disk can take the others.)
pub proof fn lemma_unreserved_candidate_exists(allocator: &OutputAllocator, requested: Seq<char>)
    ensures
        exists|s: nat|
            2 <= s <= 2 + allocator.reserved_set().len()
                && !allocator.reserved_set().contains(path_key(#[trigger] candidate_path(requested, s))),
{
    vstd::seq_lib::seq_to_set_is_finite(key_views(allocator.reserved@));
    lemma_unreserved_among(requested, allocator.reserved_set(), 2);
}

/// The reservations of a run only grow.
proof fn lemma_run_grows(
    states: Seq<Set<Seq<Seq<char>>>>,
    grants: Seq<Option<Seq<char>>>,
    i: int,
    j: int,
)
    requires
        states.len() == grants.len() + 1,
        forall|k: int| 0 <= k < grants.len() ==> allocation_step(#[trigger] states[k], states[k + 1], grants[k]),
        0 <= i <= j < states.len(),
    ensures
        states[i].subset_of(states[j]),
    decreases j - i,
{
    if i < j {
        lemma_run_grows(states, grants, i, j - 1);
        assert(allocation_step(states[j - 1], states[j], grants[j - 1]));
    }
}

/// No path is handed out twice in a run: along any sequence of allocation
/// steps (`allocate` and `try_candidate` each take one), the granted paths
/// differ pairwise (as `PathBuf`s compare, by components), and every one of
/// them stays reserved.
pub proof fn lemma_run_grants_distinct(states: Seq<Set<Seq<Seq<char>>>>, grants: Seq<Option<Seq<char>>>)
    requires
        states.len() == grants.len() + 1,
        forall|k: int| 0 <= k < grants.len() ==> allocation_step(#[trigger] states[k], states[k + 1], grants[k]),
    ensures
        forall|i: int, j: int|
            0 <= i < j < grants.len() && grants[i] is Some && grants[j] is Some ==> path_key(
                #[trigger] grants[i]->0,
            ) != path_key(#[trigger] grants[j]->0),
        forall|i: int| 0 <= i < grants.len() && #[trigger] grants[i] is Some ==> states.last().contains(
            path_key(grants[i]->0),
        ),
{
    assert forall|i: int, j: int|
        0 <= i < j < grants.len() && grants[i] is Some && grants[j] is Some implies path_key(
            #[trigger] grants[i]->0,
        ) != path_key(#[trigger] grants[j]->0) by {
        assert(allocation_step(states[i], states[i + 1], grants[i]));
        assert(allocation_step(states[j], states[j + 1], grants[j]));
        lemma_run_grows(states, grants, i + 1, j);
    }
    assert forall|i: int| 0 <= i < grants.len() && #[trigger] grants[i] is Some implies states.last().contains(
        path_key(grants[i]->0),
    ) by {
        assert(allocation_step(states[i], states[i + 1], grants[i]));
        lemma_run_grows(states, grants, i + 1, states.len() - 1);
    }
}

} // verus!
