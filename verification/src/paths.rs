//! Paths as text, with `/` between components, read the way `std::path::Path`
//! reads them on Unix.
use vstd::prelude::*;

use crate::text::{chars_equal, lemma_split_on_pieces, push_chars, split_chars, split_on, views};

verus! {

/// The components among `parts` (pieces between `/`) other than empty and `.` ones.
pub open spec fn body_components(parts: Seq<Seq<char>>) -> Seq<Seq<char>>
    decreases parts.len(),
{
    if parts.len() == 0 {
        seq![]
    } else {
        let r = body_components(parts.drop_last());
        let c = parts.last();
        if c.len() == 0 || c == seq!['.'] {
            r
        } else {
            r.push(c)
        }
    }
}

/// The components of a path as `Path::components` yields them on Unix, as text:
/// `/` for the root, `.` for a leading current-directory mark, `..` for a parent
/// directory, and names; empty components and inner `.` are skipped.
pub open spec fn path_components(p: Seq<char>) -> Seq<Seq<char>> {
    let parts = split_on(p, '/');
    if p.len() > 0 && p[0] == '/' {
        seq![seq!['/']] + body_components(parts)
    } else if parts[0] == seq!['.'] {
        seq![seq!['.']] + body_components(parts)
    } else {
        body_components(parts)
    }
}

/// The path that pushing each component in turn onto an empty `PathBuf` builds.
pub open spec fn path_from(comps: Seq<Seq<char>>) -> Seq<char>
    decreases comps.len(),
{
    if comps.len() == 0 {
        seq![]
    } else {
        let base = path_from(comps.drop_last());
        let part = comps.last();
        if part.len() > 0 && part[0] == '/' {
            part
        } else if base.len() > 0 && base.last() != '/' {
            base.push('/') + part
        } else {
            base + part
        }
    }
}

/// `path` without the leading components of `base`, as `Path::strip_prefix`
/// gives it (with redundant separators and inner `.` removed); `None` when the
/// components of `base` do not begin those of `path`.
pub open spec fn strip_prefix(path: Seq<char>, base: Seq<char>) -> Option<Seq<char>> {
    let pc = path_components(path);
    let bc = path_components(base);
    if bc.len() <= pc.len() && pc.take(bc.len() as int) == bc {
        Some(path_from(pc.skip(bc.len() as int)))
    } else {
        None
    }
}

/// The length of what comes before the body of `p`: a leading `/`, or a
/// leading `.` that is followed by `/` or ends the path.
pub open spec fn head_len(p: Seq<char>) -> int {
    if p.len() > 0 && p[0] == '/' {
        1
    } else if p.len() > 0 && p[0] == '.' && (p.len() == 1 || p[1] == '/') {
        1
    } else {
        0
    }
}

/// `p` without the empty and `.` pieces at its end, each with the `/` before
/// it, never cutting into the first `h` characters (as `Path` trims them).
pub open spec fn trim_back(p: Seq<char>, h: int) -> Seq<char>
    decreases p.len(),
{
    if h < 0 || p.len() <= h {
        p
    } else {
        let k = last_index(p.skip(h), '/');
        let piece = p.skip(h + k + 1);
        if piece.len() == 0 || piece == seq!['.'] {
            proof {
                lemma_last_index(p.skip(h), '/');
            }
            trim_back(p.take(if k >= 0 { h + k } else { h }), h)
        } else {
            p
        }
    }
}

/// The parent of `p` as `Path::parent` gives it on Unix: the text of `p` without
/// its last component, trailing empty and `.` pieces trimmed around it; the
/// empty path for a lone `.`; `None` for an empty path or the root.
pub open spec fn parent(p: Seq<char>) -> Option<Seq<char>> {
    let h = head_len(p);
    let q = trim_back(p, h);
    if q.len() > h {
        let k = last_index(q.skip(h), '/');
        Some(trim_back(q.take(if k >= 0 { h + k } else { h }), h))
    } else if h == 1 && p[0] == '.' {
        Some(seq![])
    } else {
        None
    }
}

/// The last component of `p` when it is a name, as `Path::file_name` gives it.
pub open spec fn file_name(p: Seq<char>) -> Option<Seq<char>> {
    let c = path_components(p);
    if c.len() == 0 || c.last() == seq!['/'] || c.last() == seq!['.'] || c.last() == seq!['.', '.'] {
        None
    } else {
        Some(c.last())
    }
}

/// The index of the last `c` in `s`, or -1 when there is none.
pub open spec fn last_index(s: Seq<char>, c: char) -> int
    decreases s.len(),
{
    if s.len() == 0 {
        -1
    } else if s.last() == c {
        s.len() - 1
    } else {
        last_index(s.drop_last(), c)
    }
}

/// The extension of a file name, as `Path::extension` gives it: the text after
/// its last dot, unless there is no dot or the only dot starts the name.
pub open spec fn name_extension(name: Seq<char>) -> Option<Seq<char>> {
    let d = last_index(name, '.');
    if d <= 0 {
        None
    } else {
        Some(name.skip(d + 1))
    }
}

/// The stem of a file name, as `Path::file_stem` gives it: the text before its
/// last dot, or the whole name when there is no dot or the only dot starts it.
pub open spec fn name_stem(name: Seq<char>) -> Seq<char> {
    let d = last_index(name, '.');
    if d <= 0 {
        name
    } else {
        name.take(d)
    }
}

/// The extension of the path `p`.
pub open spec fn extension(p: Seq<char>) -> Option<Seq<char>> {
    match file_name(p) {
        Some(n) => name_extension(n),
        None => None,
    }
}

/// The stem of the path `p`.
pub open spec fn file_stem(p: Seq<char>) -> Option<Seq<char>> {
    match file_name(p) {
        Some(n) => Some(name_stem(n)),
        None => None,
    }
}

proof fn lemma_body_components_avoid(parts: Seq<Seq<char>>, c: char)
    requires
        forall|i: int, j: int| 0 <= i < parts.len() && 0 <= j < parts[i].len() ==> #[trigger] parts[i][j] != c,
    ensures
        forall|i: int, j: int|
            0 <= i < body_components(parts).len() && 0 <= j < body_components(parts)[i].len() ==> #[trigger] body_components(parts)[i][j] != c,
    decreases parts.len(),
{
    if parts.len() > 0 {
        let rest = parts.drop_last();
        assert forall|i: int, j: int| 0 <= i < rest.len() && 0 <= j < rest[i].len() implies #[trigger] rest[i][j] != c by {
            assert(rest[i] == parts[i]);
        }
        lemma_body_components_avoid(rest, c);
        let b = body_components(parts);
        assert forall|i: int, j: int| 0 <= i < b.len() && 0 <= j < b[i].len() implies #[trigger] b[i][j] != c by {
            if i < body_components(rest).len() {
                assert(b[i] == body_components(rest)[i]);
            } else {
                assert(b[i] == parts[parts.len() - 1]);
            }
        }
    }
}

/// Every component of a path but the root is free of `/`.
pub proof fn lemma_components_have_no_slash(p: Seq<char>)
    ensures
        forall|i: int, j: int|
            0 <= i < path_components(p).len() && 0 <= j < path_components(p)[i].len() && path_components(p)[i] != seq!['/']
                ==> #[trigger] path_components(p)[i][j] != '/',
{
    lemma_split_on_pieces(p, '/');
    let parts = split_on(p, '/');
    lemma_body_components_avoid(parts, '/');
    let b = body_components(parts);
    let c = path_components(p);
    assert forall|i: int, j: int| 0 <= i < c.len() && 0 <= j < c[i].len() && c[i] != seq!['/'] implies #[trigger] c[i][j] != '/' by {
        if (p.len() > 0 && p[0] == '/') || parts[0] == seq!['.'] {
            if i > 0 {
                assert(c[i] == b[i - 1]);
            }
        } else {
            assert(c[i] == b[i]);
        }
    }
}

/// The stem and the extension of a path are free of `/`.
pub proof fn lemma_stem_and_extension_have_no_slash(p: Seq<char>)
    ensures
        file_stem(p) matches Some(s) ==> forall|j: int| 0 <= j < s.len() ==> s[j] != '/',
        extension(p) matches Some(e) ==> forall|j: int| 0 <= j < e.len() ==> e[j] != '/',
{
    lemma_components_have_no_slash(p);
    let c = path_components(p);
    if let Some(n) = file_name(p) {
        assert(n == c[c.len() - 1]);
        assert forall|j: int| 0 <= j < n.len() implies n[j] != '/' by {
            assert(n[j] == c[c.len() - 1][j]);
        }
        let d = last_index(n, '.');
        if d > 0 {
            lemma_last_index(n, '.');
            assert forall|j: int| 0 <= j < n.take(d).len() implies #[trigger] n.take(d)[j] != '/' by {
                assert(n.take(d)[j] == n[j]);
            }
            assert forall|j: int| 0 <= j < n.skip(d + 1).len() implies #[trigger] n.skip(d + 1)[j] != '/' by {
                assert(n.skip(d + 1)[j] == n[d + 1 + j]);
            }
        }
    }
}

pub proof fn lemma_last_index(s: Seq<char>, c: char)
    ensures
        -1 <= last_index(s, c) < s.len(),
        last_index(s, c) >= 0 ==> s[last_index(s, c)] == c,
        forall|j: int| last_index(s, c) < j < s.len() ==> s[j] != c,
    decreases s.len(),
{
    if s.len() > 0 && s.last() != c {
        lemma_last_index(s.drop_last(), c);
        assert forall|j: int| last_index(s, c) < j < s.len() implies s[j] != c by {
            if j < s.len() - 1 {
                assert(s[j] == s.drop_last()[j]);
            }
        }
    }
}

fn body_of(parts: &Vec<Vec<char>>) -> (out: Vec<Vec<char>>)
    ensures
        views(out@) == body_components(views(parts@)),
{
    let mut out: Vec<Vec<char>> = Vec::new();
    let mut i: usize = 0;
    while i < parts.len()
        invariant
            i <= parts.len(),
            views(out@) == body_components(views(parts@).take(i as int)),
        decreases parts.len() - i,
    {
        let ghost before = views(out@);
        assert(views(parts@).take(i + 1).drop_last() =~= views(parts@).take(i as int));
        assert(views(parts@).take(i + 1).last() == parts@[i as int]@);
        let part = &parts[i];
        if part.len() == 0 || (part.len() == 1 && part[0] == '.') {
            assert(part.len() == 1 && part[0] == '.' ==> part@ =~= seq!['.']);
        } else {
            assert(part@ != seq!['.']) by {
                if part@ == seq!['.'] {
                    assert(part@[0] == '.');
                }
            }
            let mut copy: Vec<char> = Vec::new();
            push_chars(&mut copy, part);
            assert(copy@ =~= part@);
            out.push(copy);
            assert(views(out@) =~= before.push(part@));
        }
        i += 1;
    }
    assert(views(parts@).take(parts.len() as int) =~= views(parts@));
    out
}

/// `first` followed by the components of `rest`.
fn with_first(first: Vec<char>, rest: Vec<Vec<char>>) -> (out: Vec<Vec<char>>)
    ensures
        views(out@) == seq![first@] + views(rest@),
{
    let ghost f = first@;
    let ghost r = rest@;
    let mut out: Vec<Vec<char>> = Vec::new();
    out.push(first);
    let mut rest = rest;
    out.append(&mut rest);
    assert(out@ =~= seq![out@[0]] + r);
    assert(views(out@) =~= seq![f] + views(r));
    out
}

/// The components of `p` (see `path_components`).
pub fn components(p: &Vec<char>) -> (out: Vec<Vec<char>>)
    ensures
        views(out@) == path_components(p@),
{
    let parts = split_chars(p, '/');
    proof {
        crate::text::lemma_split_on_nonempty(p@, '/');
    }
    let body = body_of(&parts);
    if p.len() > 0 && p[0] == '/' {
        let first = vec!['/'];
        assert(first@ =~= seq!['/']);
        with_first(first, body)
    } else if parts[0].len() == 1 && parts[0][0] == '.' {
        assert(views(parts@)[0] == parts@[0]@);
        assert(parts@[0]@ =~= seq!['.']);
        let first = vec!['.'];
        assert(first@ =~= seq!['.']);
        with_first(first, body)
    } else {
        assert(views(parts@)[0] == parts@[0]@);
        assert(parts@[0]@ != seq!['.']) by {
            if parts@[0]@ == seq!['.'] {
                assert(parts@[0]@.len() == 1 && parts@[0]@[0] == '.');
            }
        }
        body
    }
}

/// The path built from `comps` (see `path_from`).
pub fn from_components(comps: &Vec<Vec<char>>, from: usize) -> (out: Vec<char>)
    requires
        from <= comps.len(),
    ensures
        out@ == path_from(views(comps@).skip(from as int)),
{
    let mut out: Vec<char> = Vec::new();
    let mut i = from;
    let ghost all = views(comps@).skip(from as int);
    assert(all.take(0) =~= Seq::<Seq<char>>::empty());
    while i < comps.len()
        invariant
            from <= i <= comps.len(),
            all == views(comps@).skip(from as int),
            out@ == path_from(all.take(i - from)),
        decreases comps.len() - i,
    {
        let ghost base = out@;
        assert(all.take(i - from + 1).drop_last() =~= all.take(i - from));
        assert(all.take(i - from + 1).last() == comps@[i as int]@);
        let part = &comps[i];
        if part.len() > 0 && part[0] == '/' {
            let mut fresh: Vec<char> = Vec::new();
            push_chars(&mut fresh, part);
            out = fresh;
            assert(out@ =~= part@);
        } else {
            if out.len() > 0 && out[out.len() - 1] != '/' {
                out.push('/');
            }
            push_chars(&mut out, part);
            assert(base.len() > 0 ==> base.last() == base[base.len() - 1]);
        }
        i += 1;
    }
    assert(all.take(comps.len() - from) =~= all);
    out
}

/// Whether the components of `a` and `b` are the same, as `==` on paths tells.
pub fn same_components(a: &Vec<Vec<char>>, b: &Vec<Vec<char>>) -> (r: bool)
    ensures
        r == (views(a@) == views(b@)),
{
    if a.len() != b.len() {
        assert(views(a@).len() != views(b@).len());
        return false;
    }
    let mut i: usize = 0;
    while i < a.len()
        invariant
            i <= a.len(),
            a.len() == b.len(),
            forall|j: int| 0 <= j < i ==> views(a@)[j] == views(b@)[j],
        decreases a.len() - i,
    {
        if !chars_equal(&a[i], &b[i]) {
            assert(views(a@)[i as int] != views(b@)[i as int]);
            return false;
        }
        i += 1;
    }
    assert(views(a@) =~= views(b@));
    true
}

/// Whether the components of `base` begin those of `path`.
pub fn starts_with_components(path: &Vec<Vec<char>>, base: &Vec<Vec<char>>) -> (r: bool)
    ensures
        r == (views(base@).len() <= views(path@).len() && views(path@).take(views(base@).len() as int) == views(base@)),
{
    if base.len() > path.len() {
        return false;
    }
    let mut i: usize = 0;
    while i < base.len()
        invariant
            i <= base.len() <= path.len(),
            forall|j: int| 0 <= j < i ==> views(path@)[j] == views(base@)[j],
        decreases base.len() - i,
    {
        if !chars_equal(&path[i], &base[i]) {
            assert(views(path@).take(base.len() as int)[i as int] != views(base@)[i as int]);
            return false;
        }
        i += 1;
    }
    assert(views(path@).take(base.len() as int) =~= views(base@));
    true
}

/// `path` without the leading components of `base` (see `strip_prefix`).
pub fn strip_path_prefix(path: &Vec<char>, base: &Vec<char>) -> (r: Option<Vec<char>>)
    ensures
        match r {
            Some(p) => strip_prefix(path@, base@) == Some(p@),
            None => strip_prefix(path@, base@) is None,
        },
{
    let pc = components(path);
    let bc = components(base);
    if starts_with_components(&pc, &bc) {
        Some(from_components(&pc, bc.len()))
    } else {
        None
    }
}

/// The parent of `p` (see `parent`).
/// The index of the last `/` in `p` between `h` and `n`, if any.
fn last_slash_between(p: &Vec<char>, h: usize, n: usize) -> (r: Option<usize>)
    requires
        h <= n <= p.len(),
    ensures
        match r {
            Some(j) => h <= j < n && last_index(p@.take(n as int).skip(h as int), '/') == j - h,
            None => last_index(p@.take(n as int).skip(h as int), '/') == -1,
        },
{
    let ghost body = p@.take(n as int).skip(h as int);
    let mut j = n;
    while j > h
        invariant
            h <= j <= n <= p.len(),
            body == p@.take(n as int).skip(h as int),
            forall|m: int| j <= m < n ==> p@[m] != '/',
        decreases j - h,
    {
        if p[j - 1] == '/' {
            proof {
                lemma_last_index(body, '/');
                assert(body[j - 1 - h] == '/');
                assert forall|m: int| j - 1 - h < m < body.len() implies body[m] != '/' by {
                    assert(body[m] == p@[m + h]);
                }
                let li = last_index(body, '/');
                if li > j - 1 - h {
                    assert(body[li] == p@[li + h]);
                }
            }
            return Some(j - 1);
        }
        j -= 1;
    }
    proof {
        lemma_last_index(body, '/');
        let li = last_index(body, '/');
        if li >= 0 {
            assert(body[li] == p@[li + h]);
        }
    }
    None
}

/// The length `m` such that the first `m` characters of `p` are the first `n`
/// with their trailing empty and `.` pieces trimmed (see `trim_back`).
fn trimmed_length(p: &Vec<char>, h: usize, n: usize) -> (m: usize)
    requires
        h <= n <= p.len(),
    ensures
        h <= m <= n,
        p@.take(m as int) == trim_back(p@.take(n as int), h as int),
{
    let mut m = n;
    while m > h
        invariant
            h <= m <= n <= p.len(),
            trim_back(p@.take(m as int), h as int) == trim_back(p@.take(n as int), h as int),
        decreases m,
    {
        let ghost s = p@.take(m as int);
        let k = last_slash_between(p, h, m);
        let start = match k {
            Some(j) => j + 1,
            None => h,
        };
        proof {
            assert(s.skip(h + last_index(s.skip(h as int), '/') + 1) =~= p@.subrange(start as int, m as int));
        }
        let dot_piece = m - start == 1 && p[start] == '.';
        if m == start || dot_piece {
            let cut = match k {
                Some(j) => j,
                None => h,
            };
            proof {
                if dot_piece {
                    assert(p@.subrange(start as int, m as int) =~= seq!['.']);
                }
                assert(s.take(cut as int) =~= p@.take(cut as int));
            }
            m = cut;
        } else {
            proof {
                if p@.subrange(start as int, m as int) == seq!['.'] {
                    assert(p@.subrange(start as int, m as int)[0] == p@[start as int]);
                }
            }
            return m;
        }
    }
    m
}

fn head_length(p: &Vec<char>) -> (h: usize)
    ensures
        h == head_len(p@),
{
    if p.len() > 0 && p[0] == '/' {
        1
    } else if p.len() > 0 && p[0] == '.' && (p.len() == 1 || p[1] == '/') {
        1
    } else {
        0
    }
}

/// The parent of `p` (see `parent`).
pub fn parent_path(p: &Vec<char>) -> (r: Option<Vec<char>>)
    ensures
        match r {
            Some(q) => parent(p@) == Some(q@),
            None => parent(p@) is None,
        },
{
    let h = head_length(p);
    if h > p.len() {
        return None;
    }
    let n = trimmed_length(p, h, p.len());
    assert(p@.take(p.len() as int) =~= p@);
    if n > h {
        let k = last_slash_between(p, h, n);
        let cut = match k {
            Some(j) => j,
            None => h,
        };
        let m = trimmed_length(p, h, cut);
        proof {
            assert(p@.take(n as int).take(cut as int) =~= p@.take(cut as int));
        }
        let mut out: Vec<char> = Vec::new();
        let mut i: usize = 0;
        while i < m
            invariant
                i <= m <= p.len(),
                out@ == p@.take(i as int),
            decreases m - i,
        {
            out.push(p[i]);
            i += 1;
            assert(out@ =~= p@.take(i as int));
        }
        Some(out)
    } else if h == 1 && p[0] == '.' {
        let out: Vec<char> = Vec::new();
        assert(out@ =~= Seq::<char>::empty());
        Some(out)
    } else {
        None
    }
}

fn is_special(c: &Vec<char>) -> (r: bool)
    ensures
        r == (c@ == seq!['/'] || c@ == seq!['.'] || c@ == seq!['.', '.']),
{
    let slash = vec!['/'];
    let dot = vec!['.'];
    let dotdot = vec!['.', '.'];
    assert(slash@ =~= seq!['/']);
    assert(dot@ =~= seq!['.']);
    assert(dotdot@ =~= seq!['.', '.']);
    chars_equal(c, &slash) || chars_equal(c, &dot) || chars_equal(c, &dotdot)
}

/// The file name of `p` (see `file_name`).
pub fn file_name_of(p: &Vec<char>) -> (r: Option<Vec<char>>)
    ensures
        match r {
            Some(n) => file_name(p@) == Some(n@),
            None => file_name(p@) is None,
        },
{
    let mut c = components(p);
    if c.len() == 0 {
        return None;
    }
    let last = c.len() - 1;
    assert(views(c@).last() == c@[last as int]@);
    if is_special(&c[last]) {
        return None;
    }
    c.pop()
}

/// The index of the last `c` in `s`, or `None`.
pub fn last_index_of(s: &Vec<char>, c: char) -> (r: Option<usize>)
    ensures
        match r {
            Some(i) => last_index(s@, c) == i,
            None => last_index(s@, c) == -1,
        },
{
    let mut i = s.len();
    assert(s@.take(i as int) =~= s@);
    while i > 0
        invariant
            i <= s.len(),
            last_index(s@, c) == last_index(s@.take(i as int), c),
        decreases i,
    {
        assert(s@.take(i as int).drop_last() =~= s@.take(i - 1));
        assert(s@.take(i as int).last() == s@[i - 1]);
        if s[i - 1] == c {
            return Some(i - 1);
        }
        i -= 1;
    }
    None
}

/// The extension of `p` (see `extension`).
pub fn extension_of(p: &Vec<char>) -> (r: Option<Vec<char>>)
    ensures
        match r {
            Some(e) => extension(p@) == Some(e@),
            None => extension(p@) is None,
        },
{
    let name = file_name_of(p)?;
    proof {
        lemma_last_index(name@, '.');
    }
    match last_index_of(&name, '.') {
        Some(d) if d > 0 => {
            let mut e: Vec<char> = Vec::new();
            let mut i = d + 1;
            while i < name.len()
                invariant
                    d + 1 <= i <= name.len(),
                    e@ == name@.subrange(d + 1, i as int),
                decreases name.len() - i,
            {
                e.push(name[i]);
                i += 1;
                assert(e@ =~= name@.subrange(d + 1, i as int));
            }
            assert(name@.skip(d + 1) =~= name@.subrange(d + 1, name.len() as int));
            Some(e)
        },
        _ => None,
    }
}

/// The stem of `p` (see `file_stem`).
pub fn file_stem_of(p: &Vec<char>) -> (r: Option<Vec<char>>)
    ensures
        match r {
            Some(s) => file_stem(p@) == Some(s@),
            None => file_stem(p@) is None,
        },
{
    let mut name = file_name_of(p)?;
    match last_index_of(&name, '.') {
        Some(d) if d > 0 => {
            proof {
                lemma_last_index(name@, '.');
            }
            let ghost whole = name@;
            name.truncate(d);
            assert(name@ =~= whole.take(d as int));
            Some(name)
        },
        _ => Some(name),
    }
}


/// Lexicographic order of texts by character code, which is the order of their
/// UTF-8 bytes, as `OsStr` compares them.
pub open spec fn text_less(a: Seq<char>, b: Seq<char>) -> bool
    decreases a.len(),
{
    if a.len() == 0 {
        b.len() > 0
    } else if b.len() == 0 {
        false
    } else if a[0] != b[0] {
        a[0] < b[0]
    } else {
        text_less(a.skip(1), b.skip(1))
    }
}

/// The rank of a component kind in the order of `std::path::Component`:
/// root, current directory, parent directory, then names.
pub open spec fn component_rank(c: Seq<char>) -> int {
    if c == seq!['/'] {
        0
    } else if c == seq!['.'] {
        1
    } else if c == seq!['.', '.'] {
        2
    } else {
        3
    }
}

/// The order of two components: by kind, and names by their text.
pub open spec fn component_less(a: Seq<char>, b: Seq<char>) -> bool {
    component_rank(a) < component_rank(b) || (component_rank(a) == 3 && component_rank(b) == 3
        && text_less(a, b))
}

/// Lexicographic order of component lists.
pub open spec fn components_less(x: Seq<Seq<char>>, y: Seq<Seq<char>>) -> bool
    decreases x.len(),
{
    if x.len() == 0 {
        y.len() > 0
    } else if y.len() == 0 {
        false
    } else if component_less(x[0], y[0]) {
        true
    } else if component_less(y[0], x[0]) {
        false
    } else {
        components_less(x.skip(1), y.skip(1))
    }
}

/// The order of paths, as `Ord` for `PathBuf` compares them: by their components.
pub open spec fn path_less(p: Seq<char>, q: Seq<char>) -> bool {
    components_less(path_components(p), path_components(q))
}

proof fn lemma_text_less_facts(a: Seq<char>, b: Seq<char>)
    ensures
        text_less(a, b) ==> !text_less(b, a),
        !text_less(a, b) && !text_less(b, a) ==> a == b,
    decreases a.len(),
{
    if a.len() > 0 && b.len() > 0 && a[0] == b[0] {
        lemma_text_less_facts(a.skip(1), b.skip(1));
        if !text_less(a, b) && !text_less(b, a) {
            assert(a =~= seq![a[0]] + a.skip(1));
            assert(b =~= seq![b[0]] + b.skip(1));
        }
    }
}

proof fn lemma_text_less_trans(a: Seq<char>, b: Seq<char>, c: Seq<char>)
    requires
        text_less(a, b),
        text_less(b, c),
    ensures
        text_less(a, c),
    decreases a.len(),
{
    if a.len() > 0 && b.len() > 0 && c.len() > 0 && a[0] == b[0] && b[0] == c[0] {
        lemma_text_less_trans(a.skip(1), b.skip(1), c.skip(1));
    }
}

proof fn lemma_component_less_facts(a: Seq<char>, b: Seq<char>, c: Seq<char>)
    ensures
        component_less(a, b) ==> !component_less(b, a),
        !component_less(a, b) && !component_less(b, a) ==> a == b,
        component_less(a, b) && component_less(b, c) ==> component_less(a, c),
{
    lemma_text_less_facts(a, b);
    if component_less(a, b) && component_less(b, c) && component_rank(a) == 3 && component_rank(c) == 3 {
        lemma_text_less_trans(a, b, c);
    }
}

/// Path order is a strict order: no path is before itself, and of two paths at
/// most one is before the other.
pub proof fn lemma_components_less_asymmetric(x: Seq<Seq<char>>, y: Seq<Seq<char>>)
    ensures
        components_less(x, y) ==> !components_less(y, x),
    decreases x.len(),
{
    if x.len() > 0 && y.len() > 0 {
        lemma_component_less_facts(x[0], y[0], x[0]);
        lemma_components_less_asymmetric(x.skip(1), y.skip(1));
    }
}

/// Path order is transitive.
pub proof fn lemma_components_less_transitive(x: Seq<Seq<char>>, y: Seq<Seq<char>>, z: Seq<Seq<char>>)
    requires
        components_less(x, y),
        components_less(y, z),
    ensures
        components_less(x, z),
    decreases x.len(),
{
    if x.len() > 0 && y.len() > 0 && z.len() > 0 {
        lemma_component_less_facts(x[0], y[0], z[0]);
        lemma_component_less_facts(y[0], z[0], x[0]);
        lemma_component_less_facts(z[0], x[0], y[0]);
        lemma_component_less_facts(x[0], z[0], y[0]);
        lemma_component_less_facts(y[0], x[0], z[0]);
        lemma_component_less_facts(z[0], y[0], x[0]);
        if !component_less(x[0], y[0]) && !component_less(y[0], x[0]) && !component_less(y[0], z[0])
            && !component_less(z[0], y[0]) {
            lemma_components_less_transitive(x.skip(1), y.skip(1), z.skip(1));
        }
    }
}

fn text_is_less(a: &Vec<char>, b: &Vec<char>) -> (r: bool)
    ensures
        r == text_less(a@, b@),
{
    let mut i: usize = 0;
    assert(a@.skip(0) =~= a@);
    assert(b@.skip(0) =~= b@);
    while i < a.len() && i < b.len() && a[i] == b[i]
        invariant
            i <= a.len(),
            i <= b.len(),
            text_less(a@, b@) == text_less(a@.skip(i as int), b@.skip(i as int)),
        decreases a.len() - i,
    {
        assert(a@.skip(i as int).skip(1) =~= a@.skip(i + 1));
        assert(b@.skip(i as int).skip(1) =~= b@.skip(i + 1));
        i += 1;
    }
    if i == a.len() {
        i < b.len()
    } else if i == b.len() {
        false
    } else {
        a[i] < b[i]
    }
}

fn rank(c: &Vec<char>) -> (r: u8)
    ensures
        r == component_rank(c@),
{
    let slash = vec!['/'];
    let dot = vec!['.'];
    let dotdot = vec!['.', '.'];
    assert(slash@ =~= seq!['/']);
    assert(dot@ =~= seq!['.']);
    assert(dotdot@ =~= seq!['.', '.']);
    if chars_equal(c, &slash) {
        0
    } else if chars_equal(c, &dot) {
        1
    } else if chars_equal(c, &dotdot) {
        2
    } else {
        3
    }
}

fn component_is_less(a: &Vec<char>, b: &Vec<char>) -> (r: bool)
    ensures
        r == component_less(a@, b@),
{
    let ra = rank(a);
    let rb = rank(b);
    ra < rb || (ra == 3 && rb == 3 && text_is_less(a, b))
}

/// Whether the component list `a` comes before `b` (see `components_less`).
pub fn components_are_less(a: &Vec<Vec<char>>, b: &Vec<Vec<char>>) -> (r: bool)
    ensures
        r == components_less(views(a@), views(b@)),
{
    let ghost x = views(a@);
    let ghost y = views(b@);
    let mut i: usize = 0;
    assert(x.skip(0) =~= x);
    assert(y.skip(0) =~= y);
    while i < a.len() && i < b.len()
        invariant
            i <= a.len(),
            i <= b.len(),
            x == views(a@),
            y == views(b@),
            components_less(x, y) == components_less(x.skip(i as int), y.skip(i as int)),
        decreases a.len() - i,
    {
        assert(x.skip(i as int)[0] == a@[i as int]@);
        assert(y.skip(i as int)[0] == b@[i as int]@);
        if component_is_less(&a[i], &b[i]) {
            return true;
        }
        if component_is_less(&b[i], &a[i]) {
            return false;
        }
        assert(x.skip(i as int).skip(1) =~= x.skip(i + 1));
        assert(y.skip(i as int).skip(1) =~= y.skip(i + 1));
        i += 1;
    }
    i == a.len() && i < b.len()
}

} // verus!
