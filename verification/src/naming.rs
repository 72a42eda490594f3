//! Output names: template checking, placeholder substitution and the cleaning
//! of every path component so that it is a valid file name on Windows too.
use vstd::prelude::*;

use crate::paths::{body_components, path_components};
use crate::unity_meta_file::SpriteRect;
use crate::text::{
    ascii_upper, ascii_upper_char, chars_equal, chars_of, contains_char, decimal_text,
    ends_with_ci, ends_with_ignoring_ascii_case, join_chars, joined, lemma_split_on_append,
    lemma_split_on_nonempty, occurs_at, occurs_at_exec, push_chars, push_decimal, push_str,
    split_chars, split_on, string_from_chars, swap_char, swap_chars, to_ascii_upper, views,
};

verus! {

/// Control characters (Unicode category Cc), as `char::is_control` tells them.
pub open spec fn is_control_char(c: char) -> bool {
    c <= '\u{1f}' || ('\u{7f}' <= c && c <= '\u{9f}')
}

/// Characters that Windows does not allow in a file name.
pub open spec fn is_forbidden_char(c: char) -> bool {
    c == '<' || c == '>' || c == ':' || c == '"' || c == '/' || c == '\\' || c == '|' || c == '?'
        || c == '*'
}

/// Unicode `White_Space` characters, as `char::is_whitespace` tells them.
pub open spec fn is_white_space(c: char) -> bool {
    ('\t' <= c && c <= '\r') || c == ' ' || c == '\u{85}' || c == '\u{a0}' || c == '\u{1680}'
        || ('\u{2000}' <= c && c <= '\u{200a}') || c == '\u{2028}' || c == '\u{2029}'
        || c == '\u{202f}' || c == '\u{205f}' || c == '\u{3000}'
}

/// Every control or forbidden character of `s` changed to `_`.
pub open spec fn unsafe_replaced(s: Seq<char>) -> Seq<char> {
    s.map_values(|c: char| if is_control_char(c) || is_forbidden_char(c) { '_' } else { c })
}

/// `s` without its leading white space.
pub open spec fn trim_start_ws(s: Seq<char>) -> Seq<char>
    decreases s.len(),
{
    if s.len() > 0 && is_white_space(s[0]) {
        trim_start_ws(s.skip(1))
    } else {
        s
    }
}

/// `s` without its trailing white space.
pub open spec fn trim_end_ws(s: Seq<char>) -> Seq<char>
    decreases s.len(),
{
    if s.len() > 0 && is_white_space(s.last()) {
        trim_end_ws(s.drop_last())
    } else {
        s
    }
}

/// `s` without its trailing dots and spaces.
pub open spec fn trim_end_dots(s: Seq<char>) -> Seq<char>
    decreases s.len(),
{
    if s.len() > 0 && (s.last() == '.' || s.last() == ' ') {
        trim_end_dots(s.drop_last())
    } else {
        s
    }
}

/// The index of the first `c` in `s`, or the length of `s` when there is none.
pub open spec fn first_index(s: Seq<char>, c: char) -> int
    decreases s.len(),
{
    if s.len() == 0 {
        0
    } else if s[0] == c {
        0
    } else {
        1 + first_index(s.skip(1), c)
    }
}

/// The text of `s` before its first `c`: what `s.split(c).next()` yields.
pub open spec fn before_first(s: Seq<char>, c: char) -> Seq<char> {
    s.take(first_index(s, c))
}

/// `first_index` points at the first occurrence, or past the end.
pub proof fn lemma_first_index(s: Seq<char>, c: char)
    ensures
        0 <= first_index(s, c) <= s.len(),
        forall|j: int| 0 <= j < first_index(s, c) ==> s[j] != c,
        first_index(s, c) < s.len() ==> s[first_index(s, c)] == c,
        first_index(s, c) == s.len() <==> !s.contains(c),
    decreases s.len(),
{
    if s.len() > 0 && s[0] != c {
        lemma_first_index(s.skip(1), c);
        assert forall|j: int| 0 <= j < first_index(s, c) implies s[j] != c by {
            if j > 0 {
                assert(s[j] == s.skip(1)[j - 1]);
            }
        }
        if s.contains(c) {
            let k = choose|k: int| 0 <= k < s.len() && s[k] == c;
            assert(s.skip(1)[k - 1] == c);
        }
        if s.skip(1).contains(c) {
            let k = choose|k: int| 0 <= k < s.skip(1).len() && s.skip(1)[k] == c;
            assert(s[k + 1] == c);
        }
    }
}

/// The Windows device names (`CON`, `PRN`, `AUX`, `NUL`, `COM1`-`COM9`,
/// `LPT1`-`LPT9`), in upper case.
pub open spec fn is_device_name(s: Seq<char>) -> bool {
    ||| s == seq!['C', 'O', 'N']
    ||| s == seq!['P', 'R', 'N']
    ||| s == seq!['A', 'U', 'X']
    ||| s == seq!['N', 'U', 'L']
    ||| (s.len() == 4 && ((s[0] == 'C' && s[1] == 'O' && s[2] == 'M') || (s[0] == 'L' && s[1]
        == 'P' && s[2] == 'T')) && '1' <= s[3] && s[3] <= '9')
}

/// The name used for a component that is empty once cleaned.
pub open spec fn unnamed() -> Seq<char> {
    seq!['u', 'n', 'n', 'a', 'm', 'e', 'd']
}

/// `value` with unsafe characters replaced and surrounding white space, trailing
/// dots and trailing spaces removed.
pub open spec fn cleaned(value: Seq<char>) -> Seq<char> {
    trim_end_dots(trim_end_ws(trim_start_ws(unsafe_replaced(value))))
}

/// What `sanitize_component` makes of `value`.
pub open spec fn sanitized(value: Seq<char>) -> Seq<char> {
    let base = if cleaned(value).len() == 0 { unnamed() } else { cleaned(value) };
    if is_device_name(ascii_upper(before_first(base, '.'))) {
        seq!['_'] + base
    } else {
        base
    }
}

/// A path component that is safe to create inside a directory on any platform:
/// not empty, free of control and forbidden characters (so of path separators
/// too), not ending in a dot or a space, so neither `.` nor `..`.
pub open spec fn is_safe_component(s: Seq<char>) -> bool {
    &&& s.len() > 0
    &&& forall|i: int| 0 <= i < s.len() ==> !is_control_char(#[trigger] s[i]) && !is_forbidden_char(s[i])
    &&& s.last() != '.'
    &&& s.last() != ' '
}

/// Whether no character of `s` is a control or forbidden character.
pub open spec fn all_clean(s: Seq<char>) -> bool {
    forall|i: int| 0 <= i < s.len() ==> !is_control_char(#[trigger] s[i]) && !is_forbidden_char(s[i])
}

proof fn lemma_trims_keep_clean(s: Seq<char>)
    requires
        all_clean(s),
    ensures
        all_clean(trim_start_ws(s)),
        all_clean(trim_end_ws(s)),
        all_clean(trim_end_dots(s)),
        trim_end_dots(s).len() > 0 ==> trim_end_dots(s).last() != '.' && trim_end_dots(s).last() != ' ',
    decreases s.len(),
{
    if s.len() > 0 {
        assert(all_clean(s.skip(1))) by {
            assert forall|i: int| 0 <= i < s.skip(1).len() implies !is_control_char(#[trigger] s.skip(1)[i]) && !is_forbidden_char(s.skip(1)[i]) by {
                assert(s.skip(1)[i] == s[i + 1]);
            }
        }
        assert(all_clean(s.drop_last())) by {
            assert forall|i: int| 0 <= i < s.drop_last().len() implies !is_control_char(#[trigger] s.drop_last()[i]) && !is_forbidden_char(s.drop_last()[i]) by {
                assert(s.drop_last()[i] == s[i]);
            }
        }
        lemma_trims_keep_clean(s.skip(1));
        lemma_trims_keep_clean(s.drop_last());
    }
}

proof fn lemma_unsafe_replaced_clean(s: Seq<char>)
    ensures
        all_clean(unsafe_replaced(s)),
{
}

/// A sanitized component is always safe.
pub proof fn lemma_sanitized_is_safe(value: Seq<char>)
    ensures
        is_safe_component(sanitized(value)),
{
    let r = unsafe_replaced(value);
    lemma_unsafe_replaced_clean(value);
    lemma_trims_keep_clean(r);
    lemma_trims_keep_clean(trim_start_ws(r));
    lemma_trims_keep_clean(trim_end_ws(trim_start_ws(r)));
    let base = if cleaned(value).len() == 0 { unnamed() } else { cleaned(value) };
    assert(all_clean(base));
    assert(base.len() > 0 && base.last() != '.' && base.last() != ' ');
    if is_device_name(ascii_upper(before_first(base, '.'))) {
        let out = seq!['_'] + base;
        assert(out.last() == base.last());
        assert forall|i: int| 0 <= i < out.len() implies !is_control_char(#[trigger] out[i]) && !is_forbidden_char(out[i]) by {
            if i > 0 {
                assert(out[i] == base[i - 1]);
            }
        }
    }
}

/// Whether the only white space in `s` is plain spaces.
pub open spec fn white_space_is_space(s: Seq<char>) -> bool {
    forall|i: int| 0 <= i < s.len() && is_white_space(#[trigger] s[i]) ==> s[i] == ' '
}

proof fn lemma_trims_keep_spaces(s: Seq<char>)
    requires
        white_space_is_space(s),
    ensures
        white_space_is_space(trim_start_ws(s)),
        white_space_is_space(trim_end_ws(s)),
        white_space_is_space(trim_end_dots(s)),
    decreases s.len(),
{
    if s.len() > 0 {
        assert(white_space_is_space(s.skip(1))) by {
            assert forall|i: int| 0 <= i < s.skip(1).len() && is_white_space(#[trigger] s.skip(1)[i]) implies s.skip(1)[i] == ' ' by {
                assert(s.skip(1)[i] == s[i + 1]);
            }
        }
        assert(white_space_is_space(s.drop_last())) by {
            assert forall|i: int| 0 <= i < s.drop_last().len() && is_white_space(#[trigger] s.drop_last()[i]) implies s.drop_last()[i] == ' ' by {
                assert(s.drop_last()[i] == s[i]);
            }
        }
        lemma_trims_keep_spaces(s.skip(1));
        lemma_trims_keep_spaces(s.drop_last());
    }
}

proof fn lemma_trim_shapes(s: Seq<char>)
    ensures
        trim_start_ws(s).len() > 0 ==> !is_white_space(trim_start_ws(s)[0]),
        trim_end_ws(s) == s.take(trim_end_ws(s).len() as int),
        trim_end_ws(s).len() <= s.len(),
        trim_end_dots(s) == s.take(trim_end_dots(s).len() as int),
        trim_end_dots(s).len() <= s.len(),
    decreases s.len(),
{
    if s.len() > 0 {
        lemma_trim_shapes(s.skip(1));
        lemma_trim_shapes(s.drop_last());
        if is_white_space(s.last()) {
            assert(s.drop_last().take(trim_end_ws(s).len() as int) =~= s.take(trim_end_ws(s).len() as int));
        } else {
            assert(s.take(s.len() as int) =~= s);
        }
        if s.last() == '.' || s.last() == ' ' {
            assert(s.drop_last().take(trim_end_dots(s).len() as int) =~= s.take(trim_end_dots(s).len() as int));
        } else {
            assert(s.take(s.len() as int) =~= s);
        }
    }
}

/// Sanitizing a sanitized name changes nothing, provided the only white space
/// in the name is plain spaces and control characters. (Other white space, such
/// as U+3000 before a trailing dot, can be left at the end by the first pass and
/// trimmed by the second.)
pub proof fn lemma_sanitize_idempotent(value: Seq<char>)
    requires
        forall|i: int| 0 <= i < value.len() && is_white_space(#[trigger] value[i]) ==> value[i] == ' ' || is_control_char(value[i]),
    ensures
        sanitized(sanitized(value)) == sanitized(value),
{
    reveal_strlit("unnamed");
    let r = unsafe_replaced(value);
    assert(white_space_is_space(r)) by {
        assert forall|i: int| 0 <= i < r.len() && is_white_space(#[trigger] r[i]) implies r[i] == ' ' by {
            assert(is_white_space(value[i]));
        }
    }
    let a = trim_start_ws(r);
    let b = trim_end_ws(a);
    let c = trim_end_dots(b);
    lemma_trims_keep_spaces(r);
    lemma_trims_keep_spaces(a);
    lemma_trims_keep_spaces(b);
    lemma_trim_shapes(r);
    lemma_trim_shapes(a);
    lemma_trim_shapes(b);
    lemma_unsafe_replaced_clean(value);
    lemma_trims_keep_clean(r);
    lemma_trims_keep_clean(a);
    lemma_trims_keep_clean(b);
    assert(c == cleaned(value));
    let base = if c.len() == 0 { unnamed() } else { c };
    if c.len() > 0 {
        assert(c[0] == b[0] && b[0] == a[0]);
        assert(!is_white_space(base.last())) by {
            assert(c[c.len() - 1] == c.last());
        }
    }
    assert(base.len() > 0 && !is_white_space(base[0]) && !is_white_space(base.last()));
    let t = sanitized(value);
    lemma_sanitized_is_safe(value);
    assert(t.len() > 0 && !is_white_space(t[0]) && !is_white_space(t.last()));
    assert(unsafe_replaced(t) =~= t);
    assert(trim_start_ws(t) == t);
    assert(trim_end_ws(t) == t);
    assert(trim_end_dots(t) == t);
    assert(cleaned(t) == t);
    let stem = ascii_upper(before_first(t, '.'));
    lemma_first_index(t, '.');
    if t[0] == '_' {
        assert(stem.len() > 0 && stem[0] == '_');
        assert(!is_device_name(stem)) by {
            if is_device_name(stem) {
                assert(stem[0] != '_');
            }
        }
    } else {
        assert(t == base);
    }
}

fn is_control(c: char) -> (r: bool)
    ensures
        r == is_control_char(c),
{
    c <= '\u{1f}' || ('\u{7f}' <= c && c <= '\u{9f}')
}

fn is_forbidden(c: char) -> (r: bool)
    ensures
        r == is_forbidden_char(c),
{
    c == '<' || c == '>' || c == ':' || c == '"' || c == '/' || c == '\\' || c == '|' || c == '?'
        || c == '*'
}

fn is_space(c: char) -> (r: bool)
    ensures
        r == is_white_space(c),
{
    ('\t' <= c && c <= '\r') || c == ' ' || c == '\u{85}' || c == '\u{a0}' || c == '\u{1680}'
        || ('\u{2000}' <= c && c <= '\u{200a}') || c == '\u{2028}' || c == '\u{2029}'
        || c == '\u{202f}' || c == '\u{205f}' || c == '\u{3000}'
}

/// The characters of `value` that lie in `from..to`.
fn slice_chars(value: &Vec<char>, from: usize, to: usize) -> (out: Vec<char>)
    requires
        from <= to <= value.len(),
    ensures
        out@ == value@.subrange(from as int, to as int),
{
    let mut out: Vec<char> = Vec::new();
    let mut i = from;
    while i < to
        invariant
            from <= i <= to <= value.len(),
            out@ == value@.subrange(from as int, i as int),
        decreases to - i,
    {
        out.push(value[i]);
        i += 1;
        assert(out@ =~= value@.subrange(from as int, i as int));
    }
    out
}

/// The cleaned characters of `value` (see `cleaned`).
fn clean_chars(value: &Vec<char>) -> (out: Vec<char>)
    ensures
        out@ == cleaned(value@),
{
    let mut mapped: Vec<char> = Vec::new();
    let mut i: usize = 0;
    while i < value.len()
        invariant
            i <= value.len(),
            mapped@ == unsafe_replaced(value@.take(i as int)),
        decreases value.len() - i,
    {
        let c = value[i];
        mapped.push(if is_control(c) || is_forbidden(c) { '_' } else { c });
        i += 1;
        assert(mapped@ =~= unsafe_replaced(value@.take(i as int)));
    }
    assert(value@.take(value.len() as int) =~= value@);
    let ghost m = mapped@;
    let n = mapped.len();

    let mut a: usize = 0;
    assert(m.skip(0) =~= m);
    while a < n && is_space(mapped[a])
        invariant
            a <= n == m.len(),
            mapped@ == m,
            trim_start_ws(m) == trim_start_ws(m.skip(a as int)),
        decreases n - a,
    {
        assert(m.skip(a as int).skip(1) =~= m.skip(a + 1));
        a += 1;
    }
    assert(trim_start_ws(m) == m.subrange(a as int, n as int)) by {
        assert(m.skip(a as int) =~= m.subrange(a as int, n as int));
    }

    let mut b: usize = n;
    while b > a && is_space(mapped[b - 1])
        invariant
            a <= b <= n == m.len(),
            mapped@ == m,
            trim_end_ws(m.subrange(a as int, n as int)) == trim_end_ws(m.subrange(a as int, b as int)),
        decreases b - a,
    {
        assert(m.subrange(a as int, b as int).drop_last() =~= m.subrange(a as int, b - 1));
        b -= 1;
    }
    let mut c: usize = b;
    while c > a && (mapped[c - 1] == '.' || mapped[c - 1] == ' ')
        invariant
            a <= c <= b <= n == m.len(),
            mapped@ == m,
            trim_end_dots(m.subrange(a as int, b as int)) == trim_end_dots(m.subrange(a as int, c as int)),
        decreases c - a,
    {
        assert(m.subrange(a as int, c as int).drop_last() =~= m.subrange(a as int, c - 1));
        c -= 1;
    }
    slice_chars(&mapped, a, c)
}

/// Replaces the characters that Windows forbids in file names (and control
/// characters) with `_`, trims surrounding white space and trailing dots and
/// spaces, names an empty result `unnamed`, and puts `_` before a Windows device
/// name.
pub fn sanitize_component(value: &str) -> (out: String)
    ensures
        out@ == sanitized(value@),
        is_safe_component(out@),
{
    proof {
        lemma_sanitized_is_safe(value@);
    }
    let v = chars_of(value);
    let out = sanitize_chars(&v);
    string_from_chars(&out)
}

/// The sanitized form of the characters `v` (see `sanitize_component`).
pub fn sanitize_chars(v: &Vec<char>) -> (out: Vec<char>)
    ensures
        out@ == sanitized(v@),
{
    let mut base = clean_chars(v);
    if base.len() == 0 {
        base = vec!['u', 'n', 'n', 'a', 'm', 'e', 'd'];
        assert(base@ =~= unnamed());
    }
    let ghost b = base@;
    let mut k: usize = 0;
    while k < base.len() && base[k] != '.'
        invariant
            k <= base.len(),
            base@ == b,
            forall|j: int| 0 <= j < k ==> b[j] != '.',
        decreases base.len() - k,
    {
        k += 1;
    }
    proof {
        lemma_first_index(b, '.');
        if first_index(b, '.') < k {
            assert(b[first_index(b, '.')] != '.');
        }
        if k < first_index(b, '.') {
            assert(b[k as int] != '.');
        }
        assert(first_index(b, '.') == k);
    }
    let reserved = if k == 3 {
        let c0 = to_ascii_upper(base[0]);
        let c1 = to_ascii_upper(base[1]);
        let c2 = to_ascii_upper(base[2]);
        (c0 == 'C' && c1 == 'O' && c2 == 'N') || (c0 == 'P' && c1 == 'R' && c2 == 'N') || (c0
            == 'A' && c1 == 'U' && c2 == 'X') || (c0 == 'N' && c1 == 'U' && c2 == 'L')
    } else if k == 4 {
        let c0 = to_ascii_upper(base[0]);
        let c1 = to_ascii_upper(base[1]);
        let c2 = to_ascii_upper(base[2]);
        let c3 = to_ascii_upper(base[3]);
        ((c0 == 'C' && c1 == 'O' && c2 == 'M') || (c0 == 'L' && c1 == 'P' && c2 == 'T')) && '1'
            <= c3 && c3 <= '9'
    } else {
        false
    };
    proof {
        let stem = ascii_upper(before_first(b, '.'));
        assert(stem.len() == k);
        assert(forall|j: int| 0 <= j < k ==> stem[j] == ascii_upper_char(b[j]));
        if k == 3 {
            assert(reserved == is_device_name(stem)) by {
                if reserved {
                    assert(stem =~= seq![stem[0], stem[1], stem[2]]);
                }
            }
        } else if k == 4 {
            assert(reserved == is_device_name(stem));
        } else {
            assert(!is_device_name(stem));
        }
    }
    if reserved {
        let mut prefixed: Vec<char> = vec!['_'];
        let mut i: usize = 0;
        while i < base.len()
            invariant
                i <= base.len(),
                base@ == b,
                prefixed@ == seq!['_'] + b.take(i as int),
            decreases base.len() - i,
        {
            prefixed.push(base[i]);
            i += 1;
            assert(prefixed@ =~= seq!['_'] + b.take(i as int));
        }
        assert(b.take(b.len() as int) =~= b);
        prefixed
    } else {
        base
    }
}


/// The values that the placeholders of the output templates stand for.
pub struct NamingContext<'a> {
    pub sprite: &'a str,
    pub sheet: &'a str,
    /// The sheet's directory relative to the input, `/` between components.
    pub relative_dir: &'a str,
    /// Zero-based position of the sprite in its sheet; `{index}` shows it plus one.
    pub index: usize,
    pub rect: &'a SpriteRect,
}

/// What a naming context holds, as plain values.
pub struct NamingValues {
    pub sprite: Seq<char>,
    pub sheet: Seq<char>,
    pub relative_dir: Seq<char>,
    pub index: usize,
    pub rect: SpriteRect,
}

impl<'a> View for NamingContext<'a> {
    type V = NamingValues;

    open spec fn view(&self) -> NamingValues {
        NamingValues {
            sprite: self.sprite@,
            sheet: self.sheet@,
            relative_dir: self.relative_dir@,
            index: self.index,
            rect: *self.rect,
        }
    }
}

pub open spec fn tok_sprite() -> Seq<char> {
    seq!['{', 's', 'p', 'r', 'i', 't', 'e', '}']
}

pub open spec fn tok_sheet() -> Seq<char> {
    seq!['{', 's', 'h', 'e', 'e', 't', '}']
}

pub open spec fn tok_relative_dir() -> Seq<char> {
    seq!['{', 'r', 'e', 'l', 'a', 't', 'i', 'v', 'e', '_', 'd', 'i', 'r', '}']
}

pub open spec fn tok_index() -> Seq<char> {
    seq!['{', 'i', 'n', 'd', 'e', 'x', '}']
}

pub open spec fn tok_x() -> Seq<char> {
    seq!['{', 'x', '}']
}

pub open spec fn tok_y() -> Seq<char> {
    seq!['{', 'y', '}']
}

pub open spec fn tok_width() -> Seq<char> {
    seq!['{', 'w', 'i', 'd', 't', 'h', '}']
}

pub open spec fn tok_height() -> Seq<char> {
    seq!['{', 'h', 'e', 'i', 'g', 'h', 't', '}']
}

/// The placeholders that templates may use.
pub open spec fn is_known_token(t: Seq<char>) -> bool {
    ||| t == tok_sprite()
    ||| t == tok_sheet()
    ||| t == tok_relative_dir()
    ||| t == tok_index()
    ||| t == tok_x()
    ||| t == tok_y()
    ||| t == tok_width()
    ||| t == tok_height()
}

/// A component that `Path::components` reports as a normal name.
pub open spec fn is_normal_component(c: Seq<char>) -> bool {
    c.len() > 0 && c != seq!['.'] && c != seq!['.', '.']
}

/// The normal components among `parts`, each sanitized.
pub open spec fn sanitized_normal_parts(parts: Seq<Seq<char>>) -> Seq<Seq<char>>
    decreases parts.len(),
{
    if parts.len() == 0 {
        seq![]
    } else {
        let r = sanitized_normal_parts(parts.drop_last());
        if is_normal_component(parts.last()) {
            r.push(sanitized(parts.last()))
        } else {
            r
        }
    }
}

/// What `{relative_dir}` stands for: the normal components of the directory,
/// each sanitized, with `/` between them.
pub open spec fn relative_dir_text(dir: Seq<char>) -> Seq<char> {
    joined(sanitized_normal_parts(split_on(dir, '/')), '/')
}

/// The known placeholder that `s` begins with, if any.
pub open spec fn token_at(s: Seq<char>) -> Option<Seq<char>> {
    if occurs_at(s, tok_sprite(), 0) {
        Some(tok_sprite())
    } else if occurs_at(s, tok_sheet(), 0) {
        Some(tok_sheet())
    } else if occurs_at(s, tok_relative_dir(), 0) {
        Some(tok_relative_dir())
    } else if occurs_at(s, tok_index(), 0) {
        Some(tok_index())
    } else if occurs_at(s, tok_x(), 0) {
        Some(tok_x())
    } else if occurs_at(s, tok_y(), 0) {
        Some(tok_y())
    } else if occurs_at(s, tok_width(), 0) {
        Some(tok_width())
    } else if occurs_at(s, tok_height(), 0) {
        Some(tok_height())
    } else {
        None
    }
}

/// What the placeholder `t` stands for: the sanitized sprite and sheet names,
/// the sheet's directory, the one-based index, and the rectangle's numbers.
pub open spec fn token_value(t: Seq<char>, ctx: NamingValues) -> Seq<char> {
    if t == tok_sprite() {
        sanitized(ctx.sprite)
    } else if t == tok_sheet() {
        sanitized(ctx.sheet)
    } else if t == tok_relative_dir() {
        relative_dir_text(ctx.relative_dir)
    } else if t == tok_index() {
        decimal_text((ctx.index + 1) as nat)
    } else if t == tok_x() {
        decimal_text(ctx.rect.x as nat)
    } else if t == tok_y() {
        decimal_text(ctx.rect.y as nat)
    } else if t == tok_width() {
        decimal_text(ctx.rect.width as nat)
    } else {
        decimal_text(ctx.rect.height as nat)
    }
}

/// `template` with its placeholders replaced in one pass from left to right:
/// each placeholder becomes its value, and the values are not read again.
pub open spec fn substituted(template: Seq<char>, ctx: NamingValues) -> Seq<char>
    decreases template.len(),
{
    if template.len() == 0 {
        seq![]
    } else {
        match token_at(template) {
            Some(t) => token_value(t, ctx) + substituted(template.skip(t.len() as int), ctx),
            None => seq![template[0]] + substituted(template.skip(1), ctx),
        }
    }
}

/// A rendered template: a directory keeps its separators, a file name is
/// sanitized as one component.
pub open spec fn rendered(template: Seq<char>, ctx: NamingValues, allow_directory: bool) -> Seq<char> {
    if allow_directory {
        substituted(template, ctx)
    } else {
        sanitized(substituted(template, ctx))
    }
}

fn sanitized_normal(parts: &Vec<Vec<char>>) -> (out: Vec<Vec<char>>)
    ensures
        views(out@) == sanitized_normal_parts(views(parts@)),
{
    let mut out: Vec<Vec<char>> = Vec::new();
    let mut i: usize = 0;
    while i < parts.len()
        invariant
            i <= parts.len(),
            views(out@) == sanitized_normal_parts(views(parts@).take(i as int)),
        decreases parts.len() - i,
    {
        let ghost before = views(out@);
        assert(views(parts@).take(i + 1).drop_last() =~= views(parts@).take(i as int));
        assert(views(parts@).take(i + 1).last() == parts@[i as int]@);
        let part = &parts[i];
        let dot = vec!['.'];
        let dotdot = vec!['.', '.'];
        if part.len() > 0 && !chars_equal(part, &dot) && !chars_equal(part, &dotdot) {
            assert(dot@ =~= seq!['.']);
            assert(dotdot@ =~= seq!['.', '.']);
            let clean = sanitize_chars(part);
            out.push(clean);
            assert(views(out@) =~= before.push(sanitized(part@)));
        } else {
            assert(dot@ =~= seq!['.']);
            assert(dotdot@ =~= seq!['.', '.']);
        }
        i += 1;
    }
    assert(views(parts@).take(parts.len() as int) =~= views(parts@));
    out
}

fn decimal_chars(n: u64) -> (out: Vec<char>)
    ensures
        out@ == decimal_text(n as nat),
{
    let mut out: Vec<char> = Vec::new();
    push_decimal(&mut out, n);
    assert(out@ =~= decimal_text(n as nat));
    out
}

proof fn lemma_occurs_at_skip(s: Seq<char>, pat: Seq<char>, i: int)
    requires
        0 <= i <= s.len(),
    ensures
        occurs_at(s.skip(i), pat, 0) == occurs_at(s, pat, i),
{
    if i + pat.len() <= s.len() {
        assert(s.skip(i).subrange(0, pat.len() as int) =~= s.subrange(i, i + pat.len()));
    }
}

/// The template with its placeholders replaced (see `rendered`).
fn render(template: &str, context: &NamingContext<'_>, allow_directory: bool) -> (out: Vec<char>)
    requires
        context.index < usize::MAX,
    ensures
        out@ == rendered(template@, context@, allow_directory),
{
    let ghost ctx = context@;
    let dir = chars_of(context.relative_dir);
    let dir_parts = split_chars(&dir, '/');
    let kept = sanitized_normal(&dir_parts);
    let relative_dir = join_chars(&kept, '/');

    let sprite = sanitize_chars(&chars_of(context.sprite));
    let sheet = sanitize_chars(&chars_of(context.sheet));
    let index = decimal_chars((context.index + 1) as u64);
    let x = decimal_chars(context.rect.x as u64);
    let y = decimal_chars(context.rect.y as u64);
    let width = decimal_chars(context.rect.width as u64);
    let height = decimal_chars(context.rect.height as u64);

    let t_sprite = vec!['{', 's', 'p', 'r', 'i', 't', 'e', '}'];
    let t_sheet = vec!['{', 's', 'h', 'e', 'e', 't', '}'];
    let t_dir = vec!['{', 'r', 'e', 'l', 'a', 't', 'i', 'v', 'e', '_', 'd', 'i', 'r', '}'];
    let t_index = vec!['{', 'i', 'n', 'd', 'e', 'x', '}'];
    let t_x = vec!['{', 'x', '}'];
    let t_y = vec!['{', 'y', '}'];
    let t_width = vec!['{', 'w', 'i', 'd', 't', 'h', '}'];
    let t_height = vec!['{', 'h', 'e', 'i', 'g', 'h', 't', '}'];
    assert(t_sprite@ =~= tok_sprite() && t_sheet@ =~= tok_sheet() && t_dir@ =~= tok_relative_dir());
    assert(t_index@ =~= tok_index() && t_x@ =~= tok_x() && t_y@ =~= tok_y());
    assert(t_width@ =~= tok_width() && t_height@ =~= tok_height());

    let t = chars_of(template);
    let mut v: Vec<char> = Vec::new();
    let mut i: usize = 0;
    assert(t@.skip(0) =~= t@);
    while i < t.len()
        invariant
            i <= t.len(),
            t@ == template@,
            v@ + substituted(t@.skip(i as int), ctx) == substituted(t@, ctx),
            sprite@ == sanitized(ctx.sprite),
            sheet@ == sanitized(ctx.sheet),
            relative_dir@ == relative_dir_text(ctx.relative_dir),
            index@ == decimal_text((ctx.index + 1) as nat),
            x@ == decimal_text(ctx.rect.x as nat),
            y@ == decimal_text(ctx.rect.y as nat),
            width@ == decimal_text(ctx.rect.width as nat),
            height@ == decimal_text(ctx.rect.height as nat),
            t_sprite@ == tok_sprite(),
            t_sheet@ == tok_sheet(),
            t_dir@ == tok_relative_dir(),
            t_index@ == tok_index(),
            t_x@ == tok_x(),
            t_y@ == tok_y(),
            t_width@ == tok_width(),
            t_height@ == tok_height(),
        decreases t.len() - i,
    {
        let ghost rest = t@.skip(i as int);
        let ghost before = v@;
        proof {
            lemma_occurs_at_skip(t@, tok_sprite(), i as int);
            lemma_occurs_at_skip(t@, tok_sheet(), i as int);
            lemma_occurs_at_skip(t@, tok_relative_dir(), i as int);
            lemma_occurs_at_skip(t@, tok_index(), i as int);
            lemma_occurs_at_skip(t@, tok_x(), i as int);
            lemma_occurs_at_skip(t@, tok_y(), i as int);
            lemma_occurs_at_skip(t@, tok_width(), i as int);
            lemma_occurs_at_skip(t@, tok_height(), i as int);
        }
        let found: Option<(&Vec<char>, usize)> = if occurs_at_exec(&t, &t_sprite, i) {
            Some((&sprite, 8))
        } else if occurs_at_exec(&t, &t_sheet, i) {
            Some((&sheet, 7))
        } else if occurs_at_exec(&t, &t_dir, i) {
            Some((&relative_dir, 14))
        } else if occurs_at_exec(&t, &t_index, i) {
            Some((&index, 7))
        } else if occurs_at_exec(&t, &t_x, i) {
            Some((&x, 3))
        } else if occurs_at_exec(&t, &t_y, i) {
            Some((&y, 3))
        } else if occurs_at_exec(&t, &t_width, i) {
            Some((&width, 7))
        } else if occurs_at_exec(&t, &t_height, i) {
            Some((&height, 8))
        } else {
            None
        };
        match found {
            Some((value, step)) => {
                proof {
                    let tok = token_at(rest)->0;
                    assert(token_at(rest) is Some && tok.len() == step && value@ == token_value(tok, ctx));
                    assert(rest.skip(step as int) =~= t@.skip(i + step));
                    assert(substituted(rest, ctx) == value@ + substituted(t@.skip(i + step), ctx));
                }
                push_chars(&mut v, value);
                i += step;
            },
            None => {
                proof {
                    assert(token_at(rest) is None);
                    assert(rest.skip(1) =~= t@.skip(i + 1));
                    assert(rest[0] == t@[i as int]);
                }
                v.push(t[i]);
                i += 1;
            },
        }
        assert(v@ + substituted(t@.skip(i as int), ctx) =~= before + substituted(rest, ctx));
    }
    assert(substituted(t@.skip(i as int), ctx) =~= Seq::<char>::empty());
    assert(v@ =~= v@ + substituted(t@.skip(i as int), ctx));

    if allow_directory {
        v
    } else {
        sanitize_chars(&v)
    }
}


/// The message for the first placeholder problem in `rest`, a tail of
/// `template`: a `{` without a later `}`, a placeholder that is not known, or a
/// `}` after the last placeholder.
pub open spec fn token_error(template: Seq<char>, rest: Seq<char>) -> Option<Seq<char>>
    decreases rest.len(),
{
    let start = first_index(rest, '{');
    if start >= rest.len() {
        if rest.contains('}') {
            Some("unmatched '}' in template '"@ + template + "'"@)
        } else {
            None
        }
    } else {
        let after = rest.skip(start);
        let end = first_index(after, '}');
        if end >= after.len() || end < 0 {
            Some("unclosed template token in '"@ + template + "'"@)
        } else {
            let token = after.take(end + 1);
            if !is_known_token(token) {
                Some("unknown template token '"@ + token + "'"@)
            } else {
                proof {
                    lemma_first_index(rest, '{');
                }
                token_error(template, after.skip(end + 1))
            }
        }
    }
}

/// The message for the first problem in a pair of templates, or `None`.
pub open spec fn template_error(path_template: Seq<char>, name_template: Seq<char>) -> Option<Seq<char>> {
    if token_error(path_template, path_template) is Some {
        token_error(path_template, path_template)
    } else if token_error(name_template, name_template) is Some {
        token_error(name_template, name_template)
    } else if path_template.len() > 0 && path_template[0] == '/' {
        Some("--path-template must be relative to --output"@)
    } else if split_on(swap_char(path_template, '\\', '/'), '/').contains(seq!['.', '.']) {
        Some("--path-template cannot contain '..'"@)
    } else if name_template.contains('/') || name_template.contains('\\') {
        Some("--name-template cannot contain path separators"@)
    } else {
        None
    }
}

/// `from` plus the index of the first `c` in `v` at or after `from`, or the length of `v`.
fn find_from(v: &Vec<char>, c: char, from: usize) -> (r: usize)
    requires
        from <= v.len(),
    ensures
        r == from + first_index(v@.skip(from as int), c),
        from <= r <= v.len(),
{
    let mut i = from;
    proof {
        lemma_first_index(v@.skip(from as int), c);
    }
    while i < v.len() && v[i] != c
        invariant
            from <= i <= v.len(),
            forall|j: int| from <= j < i ==> v@[j] != c,
        decreases v.len() - i,
    {
        i += 1;
    }
    proof {
        let t = v@.skip(from as int);
        let f = first_index(t, c);
        lemma_first_index(t, c);
        if f < i - from {
            assert(t[f] == v@[from + f]);
        }
        if i - from < f {
            assert(t[i - from] == v@[i as int]);
        }
    }
    i
}

fn message(head: &str, middle: &Vec<char>, tail: &str) -> (out: String)
    ensures
        out@ == head@ + middle@ + tail@,
{
    let mut m: Vec<char> = Vec::new();
    push_str(&mut m, head);
    push_chars(&mut m, middle);
    push_str(&mut m, tail);
    string_from_chars(&m)
}

fn is_known(token: &Vec<char>) -> (r: bool)
    ensures
        r == is_known_token(token@),
{
    let a = vec!['{', 's', 'p', 'r', 'i', 't', 'e', '}'];
    let b = vec!['{', 's', 'h', 'e', 'e', 't', '}'];
    let c = vec!['{', 'r', 'e', 'l', 'a', 't', 'i', 'v', 'e', '_', 'd', 'i', 'r', '}'];
    let d = vec!['{', 'i', 'n', 'd', 'e', 'x', '}'];
    let e = vec!['{', 'x', '}'];
    let f = vec!['{', 'y', '}'];
    let g = vec!['{', 'w', 'i', 'd', 't', 'h', '}'];
    let h = vec!['{', 'h', 'e', 'i', 'g', 'h', 't', '}'];
    assert(a@ =~= tok_sprite());
    assert(b@ =~= tok_sheet());
    assert(c@ =~= tok_relative_dir());
    assert(d@ =~= tok_index());
    assert(e@ =~= tok_x());
    assert(f@ =~= tok_y());
    assert(g@ =~= tok_width());
    assert(h@ =~= tok_height());
    chars_equal(token, &a) || chars_equal(token, &b) || chars_equal(token, &c) || chars_equal(
        token,
        &d,
    ) || chars_equal(token, &e) || chars_equal(token, &f) || chars_equal(token, &g)
        || chars_equal(token, &h)
}

/// Checks the placeholders of one template.
fn validate_tokens(template: &str) -> (r: Result<(), String>)
    ensures
        match r {
            Ok(()) => token_error(template@, template@) is None,
            Err(m) => token_error(template@, template@) == Some(m@),
        },
{
    let t = chars_of(template);
    let mut pos: usize = 0;
    assert(t@.skip(0) =~= t@);
    loop
        invariant
            pos <= t.len(),
            t@ == template@,
            token_error(t@, t@) == token_error(t@, t@.skip(pos as int)),
        decreases t.len() - pos,
    {
        let ghost rest = t@.skip(pos as int);
        let start = find_from(&t, '{', pos);
        if start == t.len() {
            let mut k = pos;
            while k < t.len() && t[k] != '}'
                invariant
                    pos <= k <= t.len(),
                    forall|j: int| pos <= j < k ==> t@[j] != '}',
                decreases t.len() - k,
            {
                k += 1;
            }
            if k < t.len() {
                assert(rest[k - pos] == '}');
                return Err(message("unmatched '}' in template '", &t, "'"));
            }
            assert(!rest.contains('}')) by {
                if rest.contains('}') {
                    let j = choose|j: int| 0 <= j < rest.len() && rest[j] == '}';
                    assert(t@[pos + j] == '}');
                }
            }
            return Ok(());
        }
        let ghost after = rest.skip(start - pos);
        assert(after =~= t@.skip(start as int));
        let end = find_from(&t, '}', start);
        assert(t@.skip(start as int) =~= after);
        if end == t.len() {
            return Err(message("unclosed template token in '", &t, "'"));
        }
        let mut token: Vec<char> = Vec::new();
        let mut k = start;
        while k <= end
            invariant
                start <= k <= end + 1,
                end < t.len(),
                token@ == t@.subrange(start as int, k as int),
            decreases end + 1 - k,
        {
            token.push(t[k]);
            k += 1;
            assert(token@ =~= t@.subrange(start as int, k as int));
        }
        assert(token@ =~= after.take(end - start + 1));
        if !is_known(&token) {
            return Err(message("unknown template token '", &token, "'"));
        }
        assert(after.skip(end - start + 1) =~= t@.skip(end + 1));
        pos = end + 1;
    }
}

/// Checks the output templates: every placeholder known and closed, the
/// directory template relative and free of `..`, the file name template free of
/// path separators.
pub fn validate_templates(path_template: &str, name_template: &str) -> (r: Result<(), String>)
    ensures
        match r {
            Ok(()) => template_error(path_template@, name_template@) is None,
            Err(m) => template_error(path_template@, name_template@) == Some(m@),
        },
{
    validate_tokens(path_template)?;
    validate_tokens(name_template)?;

    let p = chars_of(path_template);
    if p.len() > 0 && p[0] == '/' {
        return Err("--path-template must be relative to --output".to_owned());
    }
    let normalized = swap_chars(&p, '\\', '/');
    let parts = split_chars(&normalized, '/');
    let dotdot = vec!['.', '.'];
    assert(dotdot@ =~= seq!['.', '.']);
    let mut i: usize = 0;
    while i < parts.len()
        invariant
            i <= parts.len(),
            dotdot@ == seq!['.', '.'],
            views(parts@) == split_on(swap_char(path_template@, '\\', '/'), '/'),
            token_error(path_template@, path_template@) is None,
            token_error(name_template@, name_template@) is None,
            !(path_template@.len() > 0 && path_template@[0] == '/'),
            forall|j: int| 0 <= j < i ==> views(parts@)[j] != seq!['.', '.'],
        decreases parts.len() - i,
    {
        if chars_equal(&parts[i], &dotdot) {
            assert(views(parts@)[i as int] == seq!['.', '.']);
            assert(split_on(swap_char(path_template@, '\\', '/'), '/').contains(seq!['.', '.']));
            return Err("--path-template cannot contain '..'".to_owned());
        }
        i += 1;
    }
    assert(!split_on(swap_char(path_template@, '\\', '/'), '/').contains(seq!['.', '.']));
    let n = chars_of(name_template);
    if contains_char(&n, '/') || contains_char(&n, '\\') {
        return Err("--name-template cannot contain path separators".to_owned());
    }
    Ok(())
}


/// The components that a rendered directory becomes: empty and `.` components
/// dropped, the others sanitized; `None` when a component is `..`.
pub open spec fn safe_parts(parts: Seq<Seq<char>>) -> Option<Seq<Seq<char>>>
    decreases parts.len(),
{
    if parts.len() == 0 {
        Some(seq![])
    } else {
        match safe_parts(parts.drop_last()) {
            None => None,
            Some(r) => {
                let c = parts.last();
                if c.len() == 0 || c == seq!['.'] {
                    Some(r)
                } else if c == seq!['.', '.'] {
                    None
                } else {
                    Some(r.push(sanitized(c)))
                }
            },
        }
    }
}

/// A rendered directory as a relative path (`\` read as `/`), or `None` when it
/// would leave the output root.
pub open spec fn safe_relative(value: Seq<char>) -> Option<Seq<char>> {
    match safe_parts(split_on(swap_char(value, '\\', '/'), '/')) {
        Some(p) => Some(joined(p, '/')),
        None => None,
    }
}

/// `part` appended to the path `base` as `PathBuf::push` does on Unix: an
/// absolute `part` replaces `base`, and a `/` is put between them when `base` is
/// not empty and does not already end with one.
pub open spec fn path_join(base: Seq<char>, part: Seq<char>) -> Seq<char> {
    if part.len() > 0 && part[0] == '/' {
        part
    } else if base.len() > 0 && base.last() != '/' {
        base.push('/') + part
    } else {
        base + part
    }
}

/// The last component of `base` joined with a plain name is that name.
pub proof fn lemma_join_ends_with_name(base: Seq<char>, name: Seq<char>)
    requires
        name.len() > 0,
        name != seq!['.'],
        forall|j: int| 0 <= j < name.len() ==> name[j] != '/',
    ensures
        path_components(path_join(base, name)).len() > 0,
        path_components(path_join(base, name)).last() == name,
{
    let p = path_join(base, name);
    let parts = split_on(p, '/');
    lemma_split_on_nonempty(base, '/');
    if base.len() > 0 && base.last() != '/' {
        let slashed = base.push('/');
        assert(slashed.drop_last() =~= base);
        lemma_split_on_append(slashed, name, '/');
        assert(parts =~= split_on(base, '/').push(name));
        assert(parts.drop_last() =~= split_on(base, '/'));
    } else {
        if base.len() > 0 {
            lemma_split_on_nonempty(base.drop_last(), '/');
        }
        assert(split_on(base, '/').last() =~= Seq::<char>::empty());
        lemma_split_on_append(base, name, '/');
        assert(split_on(base, '/').last() + name =~= name);
        assert(parts.drop_last() =~= split_on(base, '/').drop_last());
    }
    assert(parts.last() == name);
    let b = body_components(parts);
    assert(b.len() > 0 && b.last() == name);
    let c = path_components(p);
    if (p.len() > 0 && p[0] == '/') || parts[0] == seq!['.'] {
        assert(c.last() == b.last());
    }
}

/// The extension that every exported file gets.
pub open spec fn png_extension() -> Seq<char> {
    seq!['.', 'p', 'n', 'g']
}

/// `name`, with `.png` appended unless it already ends with it in any ASCII case.
pub open spec fn with_png_extension(name: Seq<char>) -> Seq<char> {
    if ends_with_ignoring_ascii_case(name, png_extension()) {
        name
    } else {
        name + png_extension()
    }
}

/// What `render_output_path` gives for these arguments.
pub open spec fn output_path(
    root: Seq<char>,
    path_template: Seq<char>,
    name_template: Seq<char>,
    ctx: NamingValues,
) -> Result<Seq<char>, Seq<char>> {
    let dir = rendered(path_template, ctx, true);
    let name = with_png_extension(rendered(name_template, ctx, false));
    if name == png_extension() {
        Err("the filename template produced an empty name"@)
    } else {
        match safe_relative(dir) {
            None => Err("rendered path attempts to leave the output directory"@),
            Some(rel) => Ok(path_join(path_join(root, rel), name)),
        }
    }
}

proof fn lemma_safe_parts_stays_none(parts: Seq<Seq<char>>, k: int)
    requires
        0 <= k <= parts.len(),
        safe_parts(parts.take(k)) is None,
    ensures
        safe_parts(parts) is None,
    decreases parts.len(),
{
    if k == parts.len() {
        assert(parts.take(k) =~= parts);
    } else {
        assert(parts.drop_last().take(k) =~= parts.take(k));
        lemma_safe_parts_stays_none(parts.drop_last(), k);
    }
}

/// The rendered directory as a relative path, or `None` when it contains `..`.
fn safe_relative_path(value: &Vec<char>) -> (r: Option<Vec<char>>)
    ensures
        match r {
            Some(p) => safe_relative(value@) == Some(p@),
            None => safe_relative(value@) is None,
        },
{
    let normalized = swap_chars(value, '\\', '/');
    let parts = split_chars(&normalized, '/');
    let ghost all = views(parts@);
    let mut kept: Vec<Vec<char>> = Vec::new();
    let dot = vec!['.'];
    let dotdot = vec!['.', '.'];
    assert(dot@ =~= seq!['.']);
    assert(dotdot@ =~= seq!['.', '.']);
    let mut i: usize = 0;
    assert(all.take(0) =~= Seq::<Seq<char>>::empty());
    assert(views(kept@) =~= Seq::<Seq<char>>::empty());
    while i < parts.len()
        invariant
            i <= parts.len(),
            all == views(parts@),
            all == split_on(swap_char(value@, '\\', '/'), '/'),
            dot@ == seq!['.'],
            dotdot@ == seq!['.', '.'],
            safe_parts(all.take(i as int)) == Some(views(kept@)),
        decreases parts.len() - i,
    {
        let ghost before = views(kept@);
        assert(all.take(i + 1).drop_last() =~= all.take(i as int));
        assert(all.take(i + 1).last() == parts@[i as int]@);
        let part = &parts[i];
        if part.len() == 0 || chars_equal(part, &dot) {
        } else if chars_equal(part, &dotdot) {
            proof {
                lemma_safe_parts_stays_none(all, i + 1);
            }
            return None;
        } else {
            kept.push(sanitize_chars(part));
            assert(views(kept@) =~= before.push(sanitized(part@)));
        }
        i += 1;
    }
    assert(all.take(parts.len() as int) =~= all);
    Some(join_chars(&kept, '/'))
}

/// `part` appended to the path `base` (see `path_join`).
fn join_path(base: &Vec<char>, part: &Vec<char>) -> (out: Vec<char>)
    ensures
        out@ == path_join(base@, part@),
{
    let mut out: Vec<char> = Vec::new();
    if part.len() > 0 && part[0] == '/' {
        push_chars(&mut out, part);
        assert(out@ =~= part@);
        return out;
    }
    push_chars(&mut out, base);
    if base.len() > 0 && base[base.len() - 1] != '/' {
        out.push('/');
    }
    push_chars(&mut out, part);
    assert(base@.len() > 0 ==> base@.last() == base@[base.len() - 1]);
    out
}

/// The file an exported sprite goes to: the directory template and the file name
/// template rendered for `context`, the directory made safe and relative, the
/// name given a `.png` extension, both put under `output_root`.
pub fn render_output_path(
    output_root: &str,
    path_template: &str,
    name_template: &str,
    context: &NamingContext<'_>,
) -> (r: Result<String, String>)
    requires
        context.index < usize::MAX,
    ensures
        match r {
            Ok(p) => output_path(output_root@, path_template@, name_template@, context@) == Ok::<Seq<char>, Seq<char>>(p@),
            Err(m) => output_path(output_root@, path_template@, name_template@, context@) == Err::<Seq<char>, Seq<char>>(m@),
        },
{
    let rendered_dir = render(path_template, context, true);
    let mut rendered_name = render(name_template, context, false);
    let png = vec!['.', 'p', 'n', 'g'];
    assert(png@ =~= png_extension());
    if !ends_with_ci(&rendered_name, &png) {
        push_chars(&mut rendered_name, &png);
    }
    if chars_equal(&rendered_name, &png) {
        return Err("the filename template produced an empty name".to_owned());
    }
    let relative_dir = match safe_relative_path(&rendered_dir) {
        Some(p) => p,
        None => {
            return Err("rendered path attempts to leave the output directory".to_owned());
        },
    };
    let root = chars_of(output_root);
    let dir = join_path(&root, &relative_dir);
    let result = join_path(&dir, &rendered_name);
    Ok(string_from_chars(&result))
}


/// The path made of the components `comps` put under `root`.
pub open spec fn under_root(root: Seq<char>, comps: Seq<Seq<char>>) -> Seq<char> {
    path_join(root, joined(comps, '/'))
}

proof fn lemma_safe_parts_are_safe(parts: Seq<Seq<char>>)
    requires
        safe_parts(parts) is Some,
    ensures
        forall|i: int| 0 <= i < safe_parts(parts)->0.len() ==> is_safe_component(#[trigger] safe_parts(parts)->0[i]),
    decreases parts.len(),
{
    if parts.len() > 0 {
        lemma_safe_parts_are_safe(parts.drop_last());
        lemma_sanitized_is_safe(parts.last());
    }
}

proof fn lemma_png_name_is_safe(name: Seq<char>)
    requires
        is_safe_component(name),
    ensures
        is_safe_component(with_png_extension(name)),
{
    let out = with_png_extension(name);
    if !ends_with_ignoring_ascii_case(name, png_extension()) {
        assert forall|i: int| 0 <= i < out.len() implies !is_control_char(#[trigger] out[i]) && !is_forbidden_char(out[i]) by {
            if i >= name.len() {
                assert(out[i] == png_extension()[i - name.len()]);
            } else {
                assert(out[i] == name[i]);
            }
        }
        assert(out.last() == 'g');
    }
}

proof fn lemma_joined_safe_last(comps: Seq<Seq<char>>)
    requires
        comps.len() > 0,
        forall|i: int| 0 <= i < comps.len() ==> is_safe_component(#[trigger] comps[i]),
    ensures
        joined(comps, '/').len() > 0,
        joined(comps, '/').last() != '/',
        joined(comps, '/')[0] != '/',
    decreases comps.len(),
{
    assert(is_safe_component(comps[0]));
    assert(is_safe_component(comps.last()));
    assert(!is_forbidden_char(comps.last().last()));
    assert(!is_forbidden_char(comps[0][0]));
    if comps.len() > 1 {
        assert forall|i: int| 0 <= i < comps.drop_last().len() implies is_safe_component(#[trigger] comps.drop_last()[i]) by {
            assert(comps.drop_last()[i] == comps[i]);
        }
        lemma_joined_safe_last(comps.drop_last());
        let j = joined(comps.drop_last(), '/').push('/') + comps.last();
        assert(j.last() == comps.last().last());
        assert(j[0] == joined(comps.drop_last(), '/')[0]);
    }
}

/// Templates cannot make an output path escape the output root: whenever
/// `render_output_path` succeeds, its path is the root followed by components
/// each of which is a safe name (never empty, `.` or `..`, never holding a path
/// separator), the last of them a file name ending in `.png`.
pub proof fn lemma_output_path_stays_under_root(
    root: Seq<char>,
    path_template: Seq<char>,
    name_template: Seq<char>,
    ctx: NamingValues,
) -> (comps: Seq<Seq<char>>)
    requires
        output_path(root, path_template, name_template, ctx) is Ok,
    ensures
        comps.len() > 0,
        forall|i: int| 0 <= i < comps.len() ==> is_safe_component(#[trigger] comps[i]),
        ends_with_ignoring_ascii_case(comps.last(), png_extension()),
        output_path(root, path_template, name_template, ctx) == Ok::<Seq<char>, Seq<char>>(under_root(root, comps)),
{
    let dir = rendered(path_template, ctx, true);
    let name = with_png_extension(rendered(name_template, ctx, false));
    lemma_sanitized_is_safe(substituted(name_template, ctx));
    lemma_png_name_is_safe(rendered(name_template, ctx, false));
    let parts = safe_parts(split_on(swap_char(dir, '\\', '/'), '/'))->0;
    lemma_safe_parts_are_safe(split_on(swap_char(dir, '\\', '/'), '/'));
    let comps = parts.push(name);
    assert forall|i: int| 0 <= i < comps.len() implies is_safe_component(#[trigger] comps[i]) by {
        if i < parts.len() {
            assert(comps[i] == parts[i]);
        }
    }
    let png = png_extension();
    assert(ends_with_ignoring_ascii_case(name, png)) by {
        let r = rendered(name_template, ctx, false);
        if !ends_with_ignoring_ascii_case(r, png) {
            assert((r + png).skip((r + png).len() - png.len()) =~= png);
        }
    }
    assert(comps.drop_last() =~= parts);
    assert(!is_forbidden_char(name[0]));
    if parts.len() == 0 {
        assert(joined(parts, '/') =~= Seq::<char>::empty());
        assert(joined(comps, '/') == name);
    } else {
        lemma_joined_safe_last(parts);
        assert(joined(comps, '/') == joined(parts, '/').push('/') + name);
        assert(joined(comps, '/')[0] == joined(parts, '/')[0]);
        let rel = joined(parts, '/');
        if root.len() > 0 && root.last() != '/' {
            assert(path_join(root, rel) == root.push('/') + rel);
            assert((root.push('/') + rel).last() == rel.last());
            assert(path_join(path_join(root, rel), name) =~= root.push('/') + (rel.push('/') + name));
        } else {
            assert(path_join(root, rel) == root + rel);
            assert((root + rel).last() == rel.last());
            assert(path_join(path_join(root, rel), name) =~= root + (rel.push('/') + name));
        }
    }
    comps
}

/// Whether a piece of a rendered directory becomes a component: not empty, not `.`.
pub open spec fn kept_piece(c: Seq<char>) -> bool {
    c.len() > 0 && c != seq!['.']
}

/// The sanitized form of each piece.
pub open spec fn sanitize_each(pieces: Seq<Seq<char>>) -> Seq<Seq<char>> {
    pieces.map_values(|c: Seq<char>| sanitized(c))
}

proof fn lemma_safe_parts_filtered(parts: Seq<Seq<char>>)
    ensures
        safe_parts(parts) is None <==> parts.contains(seq!['.', '.']),
        !parts.contains(seq!['.', '.']) ==> safe_parts(parts) == Some(
            sanitize_each(parts.filter(|c: Seq<char>| kept_piece(c))),
        ),
    decreases parts.len(),
{
    let keep = |c: Seq<char>| kept_piece(c);
    if parts.len() == 0 {
        reveal(Seq::filter);
        assert(parts.filter(keep) =~= Seq::<Seq<char>>::empty());
        assert(sanitize_each(parts.filter(keep)) =~= Seq::<Seq<char>>::empty());
    } else {
        let rest = parts.drop_last();
        let c = parts.last();
        lemma_safe_parts_filtered(rest);
        assert(parts =~= rest.push(c));
        assert(parts.contains(seq!['.', '.']) <==> (rest.contains(seq!['.', '.']) || c == seq!['.', '.'])) by {
            if parts.contains(seq!['.', '.']) {
                let j = choose|j: int| 0 <= j < parts.len() && parts[j] == seq!['.', '.'];
                if j < rest.len() {
                    assert(rest[j] == parts[j]);
                }
            }
            if rest.contains(seq!['.', '.']) {
                let j = choose|j: int| 0 <= j < rest.len() && rest[j] == seq!['.', '.'];
                assert(parts[j] == rest[j]);
            }
        }
        rest.lemma_filter_push(c, keep);
        if !parts.contains(seq!['.', '.']) {
            let f = rest.filter(keep);
            if kept_piece(c) {
                assert(c != seq!['.', '.'] && c.len() > 0 && c != seq!['.']);
                assert(sanitize_each(f.push(c)) =~= sanitize_each(f).push(sanitized(c)));
            }
        }
    }
}

/// A rendered output path is refused only when the file name is empty or a
/// piece of the rendered directory (`\` read as `/`) is `..`. Otherwise it is
/// the root, then the sanitized pieces of the directory that are neither empty
/// nor `.`, then the name: an empty `{relative_dir}` or a leading `/` adds
/// nothing.
pub proof fn lemma_output_path_refused_only_for_escapes(
    root: Seq<char>,
    path_template: Seq<char>,
    name_template: Seq<char>,
    ctx: NamingValues,
)
    ensures
        ({
            let name = with_png_extension(rendered(name_template, ctx, false));
            let pieces = split_on(swap_char(rendered(path_template, ctx, true), '\\', '/'), '/');
            &&& output_path(root, path_template, name_template, ctx) is Err ==> name == seq!['.', 'p', 'n', 'g']
                || pieces.contains(seq!['.', '.'])
            &&& name != seq!['.', 'p', 'n', 'g'] && !pieces.contains(seq!['.', '.']) ==> output_path(
                root,
                path_template,
                name_template,
                ctx,
            ) == Ok::<Seq<char>, Seq<char>>(
                path_join(path_join(root, joined(sanitize_each(pieces.filter(|c: Seq<char>| kept_piece(c))), '/')), name),
            )
        }),
{
    let pieces = split_on(swap_char(rendered(path_template, ctx, true), '\\', '/'), '/');
    lemma_safe_parts_filtered(pieces);
    assert(png_extension() =~= seq!['.', 'p', 'n', 'g']);
}

/// A name that needs no cleaning is kept as it is: every character is printable
/// ASCII other than those Windows forbids (`< > : " / \ | ? *`), or lies above
/// U+3000 (past every control and white-space character); it does not begin or
/// end with a space, does not end with a dot, and is no device name before its
/// first dot.
pub proof fn lemma_clean_name_is_kept(value: Seq<char>)
    requires
        value.len() > 0,
        forall|i: int| 0 <= i < value.len() ==> {
            let c = #[trigger] value[i];
            (' ' <= c <= '~' && c != '<' && c != '>' && c != ':' && c != '"' && c != '/' && c != '\\'
                && c != '|' && c != '?' && c != '*') || c > '\u{3000}'
        },
        value[0] != ' ',
        value.last() != ' ',
        value.last() != '.',
        !is_device_name(ascii_upper(before_first(value, '.'))),
    ensures
        sanitized(value) == value,
{
    assert(unsafe_replaced(value) =~= value) by {
        assert forall|i: int| 0 <= i < value.len() implies !is_control_char(#[trigger] value[i]) && !is_forbidden_char(value[i]) by {
            let c = value[i];
        }
    }
    assert(!is_white_space(value[0]));
    assert(!is_white_space(value[value.len() - 1]));
    assert(trim_start_ws(value) == value);
    assert(trim_end_ws(value) == value);
    assert(trim_end_dots(value) == value);
    assert(cleaned(value) == value);
}

/// Templates are refused when the name template holds a path separator (`/`
/// or `\`), when the directory template is absolute, or when a piece of it
/// (`\` read as `/`) is `..`.
pub proof fn lemma_unsafe_templates_are_refused(path_template: Seq<char>, name_template: Seq<char>)
    ensures
        name_template.contains('/') || name_template.contains('\\') ==> template_error(path_template, name_template) is Some,
        path_template.len() > 0 && path_template[0] == '/' ==> template_error(path_template, name_template) is Some,
        split_on(swap_char(path_template, '\\', '/'), '/').contains(seq!['.', '.']) ==> template_error(
            path_template,
            name_template,
        ) is Some,
{
}

/// Each placeholder alone renders its documented value: the sanitized sprite
/// and sheet names, the one-based index, and the rectangle's own `x`, `y`,
/// `width` and `height`.
pub proof fn lemma_placeholder_values(ctx: NamingValues)
    ensures
        substituted(seq!['{', 's', 'p', 'r', 'i', 't', 'e', '}'], ctx) == sanitized(ctx.sprite),
        substituted(seq!['{', 's', 'h', 'e', 'e', 't', '}'], ctx) == sanitized(ctx.sheet),
        substituted(seq!['{', 'i', 'n', 'd', 'e', 'x', '}'], ctx) == decimal_text((ctx.index + 1) as nat),
        substituted(seq!['{', 'x', '}'], ctx) == decimal_text(ctx.rect.x as nat),
        substituted(seq!['{', 'y', '}'], ctx) == decimal_text(ctx.rect.y as nat),
        substituted(seq!['{', 'w', 'i', 'd', 't', 'h', '}'], ctx) == decimal_text(ctx.rect.width as nat),
        substituted(seq!['{', 'h', 'e', 'i', 'g', 'h', 't', '}'], ctx) == decimal_text(ctx.rect.height as nat),
{
    lemma_placeholder_alone(seq!['{', 's', 'p', 'r', 'i', 't', 'e', '}'], ctx);
    lemma_placeholder_alone(seq!['{', 's', 'h', 'e', 'e', 't', '}'], ctx);
    lemma_placeholder_alone(seq!['{', 'i', 'n', 'd', 'e', 'x', '}'], ctx);
    lemma_placeholder_alone(seq!['{', 'x', '}'], ctx);
    lemma_placeholder_alone(seq!['{', 'y', '}'], ctx);
    lemma_placeholder_alone(seq!['{', 'w', 'i', 'd', 't', 'h', '}'], ctx);
    lemma_placeholder_alone(seq!['{', 'h', 'e', 'i', 'g', 'h', 't', '}'], ctx);
}

proof fn lemma_placeholder_alone(t: Seq<char>, ctx: NamingValues)
    requires
        is_known_token(t),
    ensures
        substituted(t, ctx) == token_value(t, ctx),
{
    assert(t.subrange(0, t.len() as int) =~= t);
    assert forall|u: Seq<char>| is_known_token(u) && occurs_at(t, u, 0) implies u == t by {
        let w = t.subrange(0, u.len() as int);
        assert(w[1] == t[1] && w[2] == t[2]);
        assert(u[1] == t[1] && u[2] == t[2]);
    }
    assert(occurs_at(t, t, 0));
    assert(token_at(t) == Some(t));
    assert(t.len() > 0);
    assert(t.skip(t.len() as int) =~= Seq::<char>::empty());
    assert(substituted(t.skip(t.len() as int), ctx) == Seq::<char>::empty());
    assert(substituted(t, ctx) == token_value(t, ctx) + substituted(t.skip(t.len() as int), ctx));
    assert(token_value(t, ctx) + Seq::<char>::empty() =~= token_value(t, ctx));
}

} // verus!
