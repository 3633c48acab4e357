//! A guard in front of the template renderer.
//!
//! The renderer aborts the process when an interpolation tag resolves to a
//! boolean, an array or an object, so the library only hands it inputs on
//! which that cannot happen. Two verified steps make that possible. The
//! probe reads a template and either returns the paths of its interpolation
//! tags — admitting only text, comments (`{{! ... }}`) and interpolations
//! (`{{name}}`, `{{&name}}`, `{{{name}}}`, with ASCII dotted names) — or
//! refuses it; a refused template counts as a failed rendering and the
//! message is kept unchanged. The payload is prepared: within each object a
//! key occurring twice keeps its first entry only, so the renderer reads the
//! same values the evaluator does; booleans become the texts `true` and
//! `false`; a number outside the signed 64-bit range becomes null. A
//! template is then rendered only when each of its paths resolves on the
//! prepared payload to nothing, null, text or an integer.

use vstd::prelude::*;

use crate::json::{obj_get, obj_get_str, json_obj_view, json_seq_view, lemma_json_obj_view, lemma_json_seq_view, Json, JsonView};
use crate::strutil::{find_char, find_char_in, lemma_find_char};

verus! {

/// Whether `c` is one of the six ASCII whitespace characters.
pub open spec fn is_ascii_ws(c: char) -> bool {
    c == ' ' || c == '\t' || c == '\n' || c == '\r' || c == '\u{b}' || c == '\u{c}'
}

/// Executable form of [`is_ascii_ws`].
fn is_ascii_ws_exec(c: char) -> (r: bool)
    ensures
        r == is_ascii_ws(c),
{
    c == ' ' || c == '\t' || c == '\n' || c == '\r' || c == '\u{b}' || c == '\u{c}'
}

/// Whether every character is ASCII. On such text, trimming whitespace
/// removes exactly the ASCII whitespace characters.
pub open spec fn all_ascii(s: Seq<char>) -> bool {
    forall|i: int| 0 <= i < s.len() ==> (#[trigger] s[i] as u32) < 128
}

/// `s` without leading ASCII whitespace.
pub open spec fn trim_start(s: Seq<char>) -> Seq<char>
    decreases s.len(),
{
    if s.len() > 0 && is_ascii_ws(s[0]) {
        trim_start(s.skip(1))
    } else {
        s
    }
}

/// `s` without trailing ASCII whitespace.
pub open spec fn trim_end(s: Seq<char>) -> Seq<char>
    decreases s.len(),
{
    if s.len() > 0 && is_ascii_ws(s.last()) {
        trim_end(s.drop_last())
    } else {
        s
    }
}

/// `s` without leading or trailing ASCII whitespace.
pub open spec fn trim_ws(s: Seq<char>) -> Seq<char> {
    trim_end(trim_start(s))
}

/// Skipping a whitespace prefix does not change the trimmed text.
proof fn lemma_trim_start_shift(s: Seq<char>, k: int)
    requires
        0 <= k <= s.len(),
        forall|j: int| 0 <= j < k ==> is_ascii_ws(#[trigger] s[j]),
    ensures
        trim_start(s) == trim_start(s.skip(k)),
    decreases k,
{
    if k > 0 {
        assert(s.skip(1).skip(k - 1) =~= s.skip(k));
        assert(forall|j: int| 0 <= j < k - 1 ==> #[trigger] s.skip(1)[j] == s[j + 1]);
        lemma_trim_start_shift(s.skip(1), k - 1);
    } else {
        assert(s.skip(0) =~= s);
    }
}

/// Dropping a whitespace suffix does not change the trimmed text.
proof fn lemma_trim_end_shift(s: Seq<char>, k: int)
    requires
        0 <= k <= s.len(),
        forall|j: int| k <= j < s.len() ==> is_ascii_ws(#[trigger] s[j]),
    ensures
        trim_end(s) == trim_end(s.take(k)),
    decreases s.len() - k,
{
    if k < s.len() {
        assert(is_ascii_ws(s.last()));
        assert(s.drop_last() =~= s.take(s.len() - 1));
        assert(forall|j: int|
            0 <= j < s.len() - 1 ==> #[trigger] s.take(s.len() - 1)[j] == s[j]);
        lemma_trim_end_shift(s.take(s.len() - 1), k);
        assert(s.take(s.len() - 1).take(k) =~= s.take(k));
    } else {
        assert(s.take(k) =~= s);
    }
}

/// Trims ASCII whitespace from both ends of a string slice.
fn trim_ws_str<'a>(s: &'a str) -> (r: &'a str)
    ensures
        r@ == trim_ws(s@),
{
    let n = s.unicode_len();
    let mut a: usize = 0;
    while a < n && is_ascii_ws_exec(s.get_char(a))
        invariant
            n == s@.len(),
            0 <= a <= n,
            forall|j: int| 0 <= j < a ==> is_ascii_ws(#[trigger] s@[j]),
        decreases n - a,
    {
        a = a + 1;
    }
    proof {
        lemma_trim_start_shift(s@, a as int);
        if a < n {
            assert(s@.skip(a as int)[0] == s@[a as int]);
        } else {
            assert(s@.skip(a as int).len() == 0);
        }
        assert(trim_start(s@) == s@.skip(a as int));
    }
    let ghost mid = s@.skip(a as int);
    let mut b: usize = n;
    while b > a && is_ascii_ws_exec(s.get_char(b - 1))
        invariant
            n == s@.len(),
            0 <= a <= b <= n,
            mid == s@.skip(a as int),
            forall|j: int| 0 <= j < a ==> is_ascii_ws(#[trigger] s@[j]),
            forall|j: int| b <= j < n ==> is_ascii_ws(#[trigger] s@[j]),
        decreases b,
    {
        b = b - 1;
    }
    proof {
        assert(forall|j: int| 0 <= j < mid.len() ==> #[trigger] mid[j] == s@[j + a]);
        assert(forall|j: int| b - a <= j < mid.len() ==> is_ascii_ws(#[trigger] mid[j]));
        lemma_trim_end_shift(mid, b - a);
        if b > a {
            assert(!is_ascii_ws(mid[b - a - 1]));
            assert(mid.take(b - a).last() == mid[b - a - 1]);
        } else {
            assert(mid.take(b - a).len() == 0);
        }
        assert(trim_end(mid) == mid.take(b - a));
        assert(mid.take(b - a) =~= s@.subrange(a as int, b as int));
    }
    s.substring_char(a, b)
}

/// Splits a sequence on `.`; the result always has at least one part.
pub open spec fn split_dot(s: Seq<char>) -> Seq<Seq<char>>
    decreases s.len(),
    via split_dot_dec
{
    match find_char(s, '.') {
        None => seq![s],
        Some(i) => seq![s.take(i)] + split_dot(s.skip(i + 1)),
    }
}

#[via_fn]
proof fn split_dot_dec(s: Seq<char>) {
    lemma_find_char(s, '.');
}

/// Splits a string slice on `.`.
fn split_dot_str<'a>(s: &'a str) -> (r: Vec<&'a str>)
    ensures
        r@.len() == split_dot(s@).len(),
        forall|i: int| 0 <= i < r@.len() ==> (#[trigger] r@[i])@ == split_dot(s@)[i],
{
    let n = s.unicode_len();
    let mut r: Vec<&'a str> = Vec::new();
    let mut pos: usize = 0;
    proof {
        assert(s@.skip(0) =~= s@);
        assert(r@.map_values(|t: &str| t@) =~= Seq::<Seq<char>>::empty());
        assert(r@.map_values(|t: &str| t@) + split_dot(s@) =~= split_dot(s@));
    }
    loop
        invariant
            n == s@.len(),
            0 <= pos <= n,
            split_dot(s@) =~= r@.map_values(|t: &str| t@) + split_dot(s@.skip(pos as int)),
        decreases n - pos,
    {
        let ghost prev = r@.map_values(|t: &str| t@);
        let rest = s.substring_char(pos, n);
        proof {
            assert(rest@ =~= s@.skip(pos as int));
        }
        match find_char_in(rest, '.') {
            Some(j) => {
                proof {
                    lemma_find_char(rest@, '.');
                }
                let tok = s.substring_char(pos, pos + j);
                proof {
                    assert(tok@ =~= rest@.take(j as int));
                }
                r.push(tok);
                proof {
                    assert(rest@.skip(j + 1) =~= s@.skip(pos + j + 1));
                    assert(r@.map_values(|t: &str| t@) =~= prev.push(tok@));
                    assert(seq![rest@.take(j as int)] + split_dot(rest@.skip(j + 1))
                        =~= seq![tok@] + split_dot(s@.skip(pos + j + 1)));
                    assert(prev + (seq![tok@] + split_dot(s@.skip(pos + j + 1))) =~= prev.push(
                        tok@,
                    ) + split_dot(s@.skip(pos + j + 1)));
                }
                pos = pos + j + 1;
            },
            None => {
                r.push(rest);
                proof {
                    assert(r@.map_values(|t: &str| t@) =~= prev.push(rest@));
                    assert(prev + seq![rest@] =~= prev.push(rest@));
                }
                return r;
            },
        }
    }
}

/// The path named by a trimmed, non-empty tag name: `.` names the payload
/// root; any other name is split on `.`, with one trailing empty part
/// dropped.
pub open spec fn tag_path(nm: Seq<char>) -> Seq<Seq<char>> {
    if nm == seq!['.'] {
        Seq::empty()
    } else {
        let parts = split_dot(nm);
        if parts.len() > 0 && parts.last().len() == 0 {
            parts.drop_last()
        } else {
            parts
        }
    }
}

/// What one tag's content means: `None` refuses the template, `Some(None)`
/// is a comment, `Some(Some(path))` an interpolation of that path. The
/// content of a triple-braced tag is its inner name. Contents are limited
/// to ASCII; section, partial and set-delimiter tags are refused.
pub open spec fn tag_action(content: Seq<char>, triple: bool) -> Option<Option<Seq<Seq<char>>>> {
    if content.len() == 0 {
        None
    } else if !all_ascii(content) {
        None
    } else if triple {
        let nm = trim_ws(content);
        if nm.len() == 0 {
            None
        } else {
            Some(Some(tag_path(nm)))
        }
    } else if content[0] == '!' {
        Some(None)
    } else if content[0] == '&' {
        let nm = trim_ws(content.skip(1));
        if nm.len() == 0 {
            None
        } else {
            Some(Some(tag_path(nm)))
        }
    } else if content[0] == '#' || content[0] == '^' || content[0] == '/' || content[0] == '>'
        || content[0] == '=' || content[0] == '{' {
        None
    } else {
        let nm = trim_ws(content);
        if nm.len() == 0 {
            None
        } else {
            Some(Some(tag_path(nm)))
        }
    }
}

/// The interpolation paths of a template, when it consists only of text,
/// comments and interpolation tags; `None` when it holds anything else or a
/// malformed tag.
pub open spec fn probe(t: Seq<char>) -> Option<Seq<Seq<Seq<char>>>>
    decreases t.len(), 0int,
    via probe_dec
{
    if t.len() < 2 || !(t[0] == '{' && t[1] == '{') {
        if t.len() == 0 {
            Some(Seq::empty())
        } else {
            probe(t.skip(1))
        }
    } else if t.len() >= 3 && t[2] == '{' {
        match find_char(t.skip(3), '}') {
            None => None,
            Some(i) => {
                if 3 + i + 3 <= t.len() && t[3 + i + 1] == '}' && t[3 + i + 2] == '}' {
                    probe_after_tag(t.skip(3).take(i), true, t.skip(3 + i + 3))
                } else {
                    None
                }
            },
        }
    } else {
        match find_char(t.skip(2), '}') {
            None => None,
            Some(i) => {
                if 2 + i + 2 <= t.len() && t[2 + i + 1] == '}' {
                    probe_after_tag(t.skip(2).take(i), false, t.skip(2 + i + 2))
                } else {
                    None
                }
            },
        }
    }
}

#[via_fn]
proof fn probe_dec(t: Seq<char>) {
    if t.len() >= 3 && t[0] == '{' && t[1] == '{' && t[2] == '{' {
        lemma_find_char(t.skip(3), '}');
    } else if t.len() >= 2 && t[0] == '{' && t[1] == '{' {
        lemma_find_char(t.skip(2), '}');
    }
}

/// One tag handled; the rest of the template follows.
pub open spec fn probe_after_tag(content: Seq<char>, triple: bool, rest: Seq<char>) -> Option<
    Seq<Seq<Seq<char>>>,
>
    decreases rest.len(), 1int,
{
    match tag_action(content, triple) {
        None => None,
        Some(None) => probe(rest),
        Some(Some(p)) => match probe(rest) {
            None => None,
            Some(ps) => Some(seq![p] + ps),
        },
    }
}

/// The value a path names on a payload: the payload itself for the empty
/// path, else a walk through objects, entry keys matched exactly, the first
/// entry winning. A step into anything but an object resolves to nothing.
pub open spec fn resolve_path(v: JsonView, path: Seq<Seq<char>>) -> Option<JsonView>
    decreases path.len(),
{
    if path.len() == 0 {
        Some(v)
    } else {
        match v {
            JsonView::Object(fields) => match obj_get(fields, path[0]) {
                Some(child) => resolve_path(child, path.skip(1)),
                None => None,
            },
            _ => None,
        }
    }
}

/// Values the renderer can interpolate without aborting: nothing, null,
/// text, or an integer (rendered in decimal).
pub open spec fn value_renders_safely(o: Option<JsonView>) -> bool {
    match o {
        None => true,
        Some(v) => v is Null || v is Str || v is Int,
    }
}

/// Whether every path interpolates safely on `v`.
pub open spec fn paths_safe(paths: Seq<Seq<Seq<char>>>, v: JsonView) -> bool {
    forall|i: int|
        0 <= i < paths.len() ==> value_renders_safely(resolve_path(v, #[trigger] paths[i]))
}

/// Whether the renderer accepts the template and payload without aborting:
/// the probe admits the template and every interpolation is safe.
pub open spec fn renderable(t: Seq<char>, v: JsonView) -> bool {
    match probe(t) {
        Some(paths) => paths_safe(paths, v),
        None => false,
    }
}

/// Whether `key` occurs among the first `upto` entries.
pub open spec fn key_in_prefix(fields: Seq<(Seq<char>, JsonView)>, key: Seq<char>, upto: int) -> bool {
    exists|j: int| 0 <= j < upto && (#[trigger] fields[j]).0 == key
}

/// The payload as the renderer sees it: object keys deduplicated with the
/// first entry winning, booleans turned into the texts `true` and `false`,
/// and numbers outside the signed 64-bit range turned into null.
pub open spec fn prepare(v: JsonView) -> JsonView
    decreases v, 0int,
{
    match v {
        JsonView::Null => JsonView::Null,
        JsonView::Bool(b) => JsonView::Str(
            if b {
                "true"@
            } else {
                "false"@
            },
        ),
        JsonView::Int(i) => JsonView::Int(i),
        JsonView::Str(s) => JsonView::Str(s),
        JsonView::Array(xs) => JsonView::Array(prepare_seq(xs)),
        JsonView::Object(fs) => JsonView::Object(prepare_obj(fs)),
        JsonView::OtherNumber => JsonView::Null,
    }
}

/// Element-wise [`prepare`].
pub open spec fn prepare_seq(xs: Seq<JsonView>) -> Seq<JsonView>
    decreases xs, 1int,
{
    if xs.len() == 0 {
        Seq::empty()
    } else {
        prepare_seq(xs.drop_last()).push(prepare(xs.last()))
    }
}

/// Entry-wise [`prepare`], keeping only the first entry of each key.
pub open spec fn prepare_obj(fs: Seq<(Seq<char>, JsonView)>) -> Seq<(Seq<char>, JsonView)>
    decreases fs, 1int,
{
    if fs.len() == 0 {
        Seq::empty()
    } else {
        let front = prepare_obj(fs.drop_last());
        if key_in_prefix(fs, fs.last().0, fs.len() - 1) {
            front
        } else {
            front.push((fs.last().0, prepare(fs.last().1)))
        }
    }
}

/// Unfolds `obj_get` over a pushed entry.
proof fn lemma_obj_get_push(
    fields: Seq<(Seq<char>, JsonView)>,
    e: (Seq<char>, JsonView),
    key: Seq<char>,
)
    ensures
        obj_get(fields.push(e), key) == match obj_get(fields, key) {
            Some(v) => Some(v),
            None => if e.0 == key {
                Some(e.1)
            } else {
                None
            },
        },
    decreases fields.len(),
{
    if fields.len() == 0 {
        assert(fields.push(e)[0] == e);
        assert(fields.push(e).skip(1) =~= Seq::<(Seq<char>, JsonView)>::empty());
        assert(obj_get(Seq::<(Seq<char>, JsonView)>::empty(), key) == None::<JsonView>);
    } else {
        assert(fields.push(e)[0] == fields[0]);
        assert(fields.push(e).skip(1) =~= fields.skip(1).push(e));
        lemma_obj_get_push(fields.skip(1), e, key);
    }
}

/// Preparing a payload preserves every key lookup, up to preparing the
/// value found: the renderer reads exactly what the evaluator reads, even
/// when a key occurs twice.
pub proof fn lemma_prepare_obj_get(fs: Seq<(Seq<char>, JsonView)>, key: Seq<char>)
    ensures
        obj_get(prepare_obj(fs), key) == match obj_get(fs, key) {
            Some(v) => Some(prepare(v)),
            None => None::<JsonView>,
        },
    decreases fs.len(),
{
    if fs.len() > 0 {
        lemma_prepare_obj_get(fs.drop_last(), key);
        lemma_obj_get_push(fs.drop_last(), fs.last(), key);
        assert(fs.drop_last().push(fs.last()) =~= fs);
        if key_in_prefix(fs, fs.last().0, fs.len() - 1) {
            let j = choose|j: int| 0 <= j < fs.len() - 1 && (#[trigger] fs[j]).0 == fs.last().0;
            lemma_obj_get_found(fs.drop_last(), fs.last().0, j);
        } else {
            lemma_obj_get_push(prepare_obj(fs.drop_last()), (fs.last().0, prepare(fs.last().1)), key);
            if obj_get(fs.drop_last(), key) is None && fs.last().0 == key {
            }
        }
    }
}

/// A present key is found: `obj_get` returns a value when some entry holds
/// the key.
proof fn lemma_obj_get_found(fields: Seq<(Seq<char>, JsonView)>, key: Seq<char>, j: int)
    requires
        0 <= j < fields.len(),
        fields[j].0 == key,
    ensures
        obj_get(fields, key) is Some,
    decreases j,
{
    if fields[0].0 != key {
        assert(fields.skip(1)[j - 1] == fields[j]);
        lemma_obj_get_found(fields.skip(1), key, j - 1);
    }
}

/// Every key of a prepared object comes from the input object.
proof fn lemma_prepare_obj_keys(fs: Seq<(Seq<char>, JsonView)>, j: int)
    requires
        0 <= j < prepare_obj(fs).len(),
    ensures
        exists|i: int| 0 <= i < fs.len() && (#[trigger] fs[i]).0 == prepare_obj(fs)[j].0,
    decreases fs.len(),
{
    if fs.len() > 0 {
        let front = prepare_obj(fs.drop_last());
        if key_in_prefix(fs, fs.last().0, fs.len() - 1) {
            lemma_prepare_obj_keys(fs.drop_last(), j);
            let i = choose|i: int|
                0 <= i < fs.drop_last().len() && (#[trigger] fs.drop_last()[i]).0
                    == prepare_obj(fs.drop_last())[j].0;
            assert(fs.drop_last()[i] == fs[i]);
            assert(fs[i].0 == prepare_obj(fs)[j].0);
        } else {
            if j < front.len() {
                assert(prepare_obj(fs)[j] == front[j]);
                lemma_prepare_obj_keys(fs.drop_last(), j);
                let i = choose|i: int|
                    0 <= i < fs.drop_last().len() && (#[trigger] fs.drop_last()[i]).0
                        == prepare_obj(fs.drop_last())[j].0;
                assert(fs.drop_last()[i] == fs[i]);
                assert(fs[i].0 == prepare_obj(fs)[j].0);
            } else {
                assert(prepare_obj(fs)[j] == (fs.last().0, prepare(fs.last().1)));
                assert((fs[fs.len() - 1]).0 == prepare_obj(fs)[j].0);
            }
        }
    }
}

/// Preparing is idempotent: a prepared payload is a fixed point of
/// [`prepare`] — its objects are free of duplicate keys and it holds no
/// boolean and no out-of-range number.
pub proof fn lemma_prepare_idempotent(v: JsonView)
    ensures
        prepare(prepare(v)) == prepare(v),
    decreases v, 0int,
{
    match v {
        JsonView::Array(xs) => {
            lemma_prepare_seq_idempotent(xs);
        },
        JsonView::Object(fs) => {
            lemma_prepare_obj_idempotent(fs);
        },
        _ => {
        },
    }
}

/// Element-wise [`lemma_prepare_idempotent`].
proof fn lemma_prepare_seq_idempotent(xs: Seq<JsonView>)
    ensures
        prepare_seq(prepare_seq(xs)) == prepare_seq(xs),
    decreases xs, 1int,
{
    if xs.len() > 0 {
        lemma_prepare_seq_idempotent(xs.drop_last());
        lemma_prepare_idempotent(xs.last());
        let ps = prepare_seq(xs);
        assert(ps.drop_last() =~= prepare_seq(xs.drop_last()));
        assert(ps.last() == prepare(xs.last()));
    }
}

/// Entry-wise [`lemma_prepare_idempotent`].
proof fn lemma_prepare_obj_idempotent(fs: Seq<(Seq<char>, JsonView)>)
    ensures
        prepare_obj(prepare_obj(fs)) == prepare_obj(fs),
    decreases fs, 1int,
{
    if fs.len() > 0 {
        lemma_prepare_obj_idempotent(fs.drop_last());
        let pf = prepare_obj(fs.drop_last());
        if !key_in_prefix(fs, fs.last().0, fs.len() - 1) {
            lemma_prepare_idempotent(fs.last().1);
            let po = prepare_obj(fs);
            assert(po == pf.push((fs.last().0, prepare(fs.last().1))));
            assert(po.drop_last() =~= pf);
            assert(po.last() == (fs.last().0, prepare(fs.last().1)));
            assert forall|jj: int| 0 <= jj < pf.len() implies (#[trigger] po[jj]).0
                != fs.last().0 by {
                assert(po[jj] == pf[jj]);
                if pf[jj].0 == fs.last().0 {
                    lemma_prepare_obj_keys(fs.drop_last(), jj);
                    let i = choose|i: int|
                        0 <= i < fs.drop_last().len() && (#[trigger] fs.drop_last()[i]).0
                            == prepare_obj(fs.drop_last())[jj].0;
                    assert(fs.drop_last()[i] == fs[i]);
                    assert(key_in_prefix(fs, fs.last().0, fs.len() - 1));
                }
            }
            assert(!key_in_prefix(po, po.last().0, po.len() - 1));
            assert(prepare_obj(po) == prepare_obj(po.drop_last()).push(
                (po.last().0, prepare(po.last().1)),
            ));
        }
    }
}

/// The characters of one exec path's segments.
pub open spec fn path_view_one(p: Seq<String>) -> Seq<Seq<char>> {
    p.map_values(|s: String| s@)
}

/// The characters of a list of exec paths.
pub open spec fn paths_view(ps: Seq<Vec<String>>) -> Seq<Seq<Seq<char>>> {
    ps.map_values(|p: Vec<String>| path_view_one(p@))
}

/// Whether every character of a string slice is ASCII.
fn is_all_ascii(s: &str) -> (r: bool)
    ensures
        r == all_ascii(s@),
{
    let n = s.unicode_len();
    let mut i: usize = 0;
    while i < n
        invariant
            n == s@.len(),
            0 <= i <= n,
            forall|j: int| 0 <= j < i ==> (#[trigger] s@[j] as u32) < 128,
        decreases n - i,
    {
        if s.get_char(i) as u32 >= 128 {
            return false;
        }
        i = i + 1;
    }
    true
}

/// The path named by a trimmed, non-empty tag name, in executable form.
fn tag_path_exec(nm: &str) -> (p: Vec<String>)
    ensures
        path_view_one(p@) == tag_path(nm@),
{
    if nm.unicode_len() == 1 && nm.get_char(0) == '.' {
        proof {
            assert(nm@ =~= seq!['.']);
            assert(path_view_one(Seq::<String>::empty()) =~= Seq::<Seq<char>>::empty());
        }
        Vec::new()
    } else {
        proof {
            if nm@ == seq!['.'] {
                assert(nm@.len() == 1 && nm@[0] == '.');
            }
        }
        let parts = split_dot_str(nm);
        let ghost sv = split_dot(nm@);
        let mut out: Vec<String> = Vec::new();
        let mut i: usize = 0;
        while i < parts.len()
            invariant
                parts@.len() == sv.len(),
                forall|j: int| 0 <= j < sv.len() ==> (#[trigger] parts@[j])@ == sv[j],
                0 <= i <= sv.len(),
                out@.len() == i,
                forall|j: int| 0 <= j < i ==> (#[trigger] out@[j])@ == sv[j],
            decreases parts@.len() - i,
        {
            out.push(parts[i].to_owned());
            i = i + 1;
        }
        if out.len() > 0 && out[out.len() - 1].as_str().unicode_len() == 0 {
            let ghost full = out@;
            out.pop();
            proof {
                assert(out@ =~= full.drop_last());
                assert(sv.len() > 0 && sv.last().len() == 0);
                assert(path_view_one(out@) =~= sv.drop_last());
            }
        } else {
            proof {
                assert(sv.len() > 0 ==> sv.last() == out@.last()@);
                assert(path_view_one(out@) =~= sv);
            }
        }
        out
    }
}

/// What one tag's content means, in executable form.
fn tag_action_exec(content: &str, triple: bool) -> (r: Option<Option<Vec<String>>>)
    ensures
        match r {
            None => tag_action(content@, triple) == None::<Option<Seq<Seq<char>>>>,
            Some(None) => tag_action(content@, triple) == Some(None::<Seq<Seq<char>>>),
            Some(Some(p)) => tag_action(content@, triple) == Some(Some(path_view_one(p@))),
        },
{
    let n = content.unicode_len();
    if n == 0 {
        return None;
    }
    if !is_all_ascii(content) {
        return None;
    }
    if triple {
        let nm = trim_ws_str(content);
        if nm.unicode_len() == 0 {
            return None;
        }
        return Some(Some(tag_path_exec(nm)));
    }
    let c0 = content.get_char(0);
    if c0 == '!' {
        return Some(None);
    }
    if c0 == '&' {
        let tail = content.substring_char(1, n);
        proof {
            assert(tail@ =~= content@.skip(1));
        }
        let nm = trim_ws_str(tail);
        if nm.unicode_len() == 0 {
            return None;
        }
        return Some(Some(tag_path_exec(nm)));
    }
    if c0 == '#' || c0 == '^' || c0 == '/' || c0 == '>' || c0 == '=' || c0 == '{' {
        return None;
    }
    let nm = trim_ws_str(content);
    if nm.unicode_len() == 0 {
        return None;
    }
    Some(Some(tag_path_exec(nm)))
}

/// Reads a template and returns its interpolation paths, or nothing when
/// the template holds more than text, comments and interpolation tags.
#[verifier::rlimit(80)]
pub fn probe_template(t: &str) -> (r: Option<Vec<Vec<String>>>)
    ensures
        match r {
            Some(ps) => probe(t@) == Some(paths_view(ps@)),
            None => probe(t@) == None::<Seq<Seq<Seq<char>>>>,
        },
{
    let n = t.unicode_len();
    let mut acc: Vec<Vec<String>> = Vec::new();
    let mut pos: usize = 0;
    proof {
        assert(t@.skip(0) =~= t@);
        assert(paths_view(acc@) =~= Seq::<Seq<Seq<char>>>::empty());
    }
    loop
        invariant
            n == t@.len(),
            0 <= pos <= n,
            probe(t@) == match probe(t@.skip(pos as int)) {
                None => None::<Seq<Seq<Seq<char>>>>,
                Some(ps) => Some(paths_view(acc@) + ps),
            },
        decreases n - pos,
    {
        let ghost rem = t@.skip(pos as int);
        if pos == n {
            proof {
                assert(rem.len() == 0);
                assert(paths_view(acc@) + Seq::<Seq<Seq<char>>>::empty() =~= paths_view(acc@));
            }
            return Some(acc);
        }
        let two = pos + 1 < n && t.get_char(pos) == '{' && t.get_char(pos + 1) == '{';
        proof {
            assert(rem[0] == t@[pos as int]);
            if pos + 1 < n {
                assert(rem[1] == t@[pos + 1]);
            }
        }
        if !two {
            proof {
                assert(rem.skip(1) =~= t@.skip(pos + 1));
            }
            pos = pos + 1;
            continue ;
        }
        let triple = pos + 2 < n && t.get_char(pos + 2) == '{';
        proof {
            if pos + 2 < n {
                assert(rem[2] == t@[pos + 2]);
            }
        }
        if triple {
            let tail = t.substring_char(pos + 3, n);
            proof {
                assert(tail@ =~= rem.skip(3));
            }
            match find_char_in(tail, '}') {
                None => {
                    return None;
                },
                Some(j) => {
                    proof {
                        lemma_find_char(tail@, '}');
                    }
                    if n - pos >= 6 && j <= n - pos - 6 && t.get_char(pos + 3 + j + 1) == '}'
                        && t.get_char(pos + 3 + j + 2) == '}' {
                        proof {
                            assert(rem[3 + j + 1] == t@[pos + 3 + j + 1]);
                            assert(rem[3 + j + 2] == t@[pos + 3 + j + 2]);
                        }
                        let content = t.substring_char(pos + 3, pos + 3 + j);
                        let ghost rst = t@.skip(pos + 3 + j + 3);
                        proof {
                            assert(content@ =~= rem.skip(3).take(j as int));
                            assert(rem.skip(3 + j + 3) =~= rst);
                            assert(3 + j + 3 <= rem.len());
                            assert(probe(rem) == probe_after_tag(
                                rem.skip(3).take(j as int),
                                true,
                                rem.skip(3 + j + 3),
                            ));
                            assert(probe(rem) == probe_after_tag(content@, true, rst));
                        }
                        match tag_action_exec(content, true) {
                            None => {
                                proof {
                                    assert(probe_after_tag(content@, true, rst)
                                        == None::<Seq<Seq<Seq<char>>>>);
                                }
                                return None;
                            },
                            Some(act) => {
                                match act {
                                    None => {
                                        proof {
                                            assert(probe_after_tag(content@, true, rst) == probe(
                                                rst,
                                            ));
                                        }
                                    },
                                    Some(p) => {
                                        let ghost prev = paths_view(acc@);
                                        let ghost pv = path_view_one(p@);
                                        acc.push(p);
                                        proof {
                                            assert(paths_view(acc@) =~= prev.push(pv));
                                            assert(probe_after_tag(content@, true, rst)
                                                == match probe(rst) {
                                                None => None::<Seq<Seq<Seq<char>>>>,
                                                Some(ps) => Some(seq![pv] + ps),
                                            });
                                            lemma_paths_extend(prev, pv, probe(rst));
                                        }
                                    },
                                }
                                pos = pos + 3 + j + 3;
                            },
                        }
                    } else {
                        proof {
                            if 3 + j + 3 <= rem.len() {
                                assert(rem[3 + j + 1] == t@[pos + 3 + j + 1]);
                                assert(rem[3 + j + 2] == t@[pos + 3 + j + 2]);
                            }
                        }
                        return None;
                    }
                },
            }
        } else {
            let tail = t.substring_char(pos + 2, n);
            proof {
                assert(tail@ =~= rem.skip(2));
            }
            match find_char_in(tail, '}') {
                None => {
                    return None;
                },
                Some(j) => {
                    proof {
                        lemma_find_char(tail@, '}');
                    }
                    if n - pos >= 4 && j <= n - pos - 4 && t.get_char(pos + 2 + j + 1) == '}' {
                        proof {
                            assert(rem[2 + j + 1] == t@[pos + 2 + j + 1]);
                        }
                        let content = t.substring_char(pos + 2, pos + 2 + j);
                        let ghost rst = t@.skip(pos + 2 + j + 2);
                        proof {
                            assert(content@ =~= rem.skip(2).take(j as int));
                            assert(rem.skip(2 + j + 2) =~= rst);
                            assert(2 + j + 2 <= rem.len());
                            assert(probe(rem) == probe_after_tag(
                                rem.skip(2).take(j as int),
                                false,
                                rem.skip(2 + j + 2),
                            ));
                            assert(probe(rem) == probe_after_tag(content@, false, rst));
                        }
                        match tag_action_exec(content, false) {
                            None => {
                                proof {
                                    assert(probe_after_tag(content@, false, rst)
                                        == None::<Seq<Seq<Seq<char>>>>);
                                }
                                return None;
                            },
                            Some(act) => {
                                match act {
                                    None => {
                                        proof {
                                            assert(probe_after_tag(content@, false, rst) == probe(
                                                rst,
                                            ));
                                        }
                                    },
                                    Some(p) => {
                                        let ghost prev = paths_view(acc@);
                                        let ghost pv = path_view_one(p@);
                                        acc.push(p);
                                        proof {
                                            assert(paths_view(acc@) =~= prev.push(pv));
                                            assert(probe_after_tag(content@, false, rst)
                                                == match probe(rst) {
                                                None => None::<Seq<Seq<Seq<char>>>>,
                                                Some(ps) => Some(seq![pv] + ps),
                                            });
                                            lemma_paths_extend(prev, pv, probe(rst));
                                        }
                                    },
                                }
                                pos = pos + 2 + j + 2;
                            },
                        }
                    } else {
                        proof {
                            if 2 + j + 2 <= rem.len() {
                                assert(rem[2 + j + 1] == t@[pos + 2 + j + 1]);
                            }
                        }
                        return None;
                    }
                },
            }
        }
    }
}

/// Appending one found path keeps the accumulated-prefix relation.
proof fn lemma_paths_extend(
    prev: Seq<Seq<Seq<char>>>,
    pv: Seq<Seq<char>>,
    rest: Option<Seq<Seq<Seq<char>>>>,
)
    ensures
        match rest {
            None => true,
            Some(ps) => prev + (seq![pv] + ps) =~= prev.push(pv) + ps,
        },
{
    match rest {
        None => {
        },
        Some(ps) => {
            assert(prev + (seq![pv] + ps) =~= prev.push(pv) + ps);
        },
    }
}

/// Prepares a payload for the renderer: object keys deduplicated with the
/// first entry winning, booleans turned into text, out-of-range numbers
/// into null.
pub fn prepare_payload(v: &Json) -> (r: Json)
    ensures
        r@ == prepare(v@),
    decreases v@, 0int,
{
    match v {
        Json::Null => Json::Null,
        Json::Bool(b) => {
            if *b {
                Json::Str(String::from_str("true"))
            } else {
                Json::Str(String::from_str("false"))
            }
        },
        Json::Int(i) => Json::Int(*i),
        Json::Str(s) => Json::Str(s.clone()),
        Json::Array(xs) => {
            proof {
                assert(decreases_to!(v@ => json_seq_view(xs@)));
            }
            Json::Array(prepare_list(xs))
        },
        Json::Object(fs) => {
            proof {
                assert(decreases_to!(v@ => json_obj_view(fs@)));
            }
            Json::Object(prepare_entries(fs))
        },
        Json::OtherNumber => Json::Null,
    }
}

/// Element-wise [`prepare_payload`].
fn prepare_list(xs: &Vec<Json>) -> (r: Vec<Json>)
    ensures
        json_seq_view(r@) == prepare_seq(json_seq_view(xs@)),
    decreases json_seq_view(xs@), 1int,
{
    let ghost jv = json_seq_view(xs@);
    proof {
        lemma_json_seq_view(xs@);
    }
    let mut r: Vec<Json> = Vec::new();
    let mut i: usize = 0;
    proof {
        assert(jv.take(0) =~= Seq::<JsonView>::empty());
        assert(json_seq_view(r@) =~= prepare_seq(jv.take(0)));
    }
    while i < xs.len()
        invariant
            jv == json_seq_view(xs@),
            jv.len() == xs@.len(),
            forall|j: int| 0 <= j < xs@.len() ==> jv[j] == #[trigger] xs@[j]@,
            0 <= i <= xs@.len(),
            r@.len() == i,
            json_seq_view(r@) == prepare_seq(jv.take(i as int)),
        decreases xs@.len() - i,
    {
        let ghost prev = r@;
        proof {
            assert(jv.take(i + 1).drop_last() =~= jv.take(i as int));
            assert(jv.take(i + 1).last() == jv[i as int]);
            assert(decreases_to!(jv => jv[i as int]));
        }
        let e = prepare_payload(&xs[i]);
        r.push(e);
        proof {
            assert(r@.drop_last() =~= prev);
            assert(json_seq_view(r@) == json_seq_view(prev).push(r@.last()@));
        }
        i = i + 1;
    }
    proof {
        assert(jv.take(xs@.len() as int) =~= jv);
    }
    r
}

/// Whether `key` occurs among the first `upto` entries, in executable form.
fn key_in_prefix_exec(fields: &Vec<(String, Json)>, upto: usize, key: &str) -> (r: bool)
    requires
        upto <= fields@.len(),
    ensures
        r == key_in_prefix(json_obj_view(fields@), key@, upto as int),
{
    proof {
        lemma_json_obj_view(fields@);
    }
    let ghost vfs = json_obj_view(fields@);
    let mut j: usize = 0;
    while j < upto
        invariant
            upto <= fields@.len(),
            vfs == json_obj_view(fields@),
            vfs.len() == fields@.len(),
            forall|k: int|
                0 <= k < fields@.len() ==> #[trigger] vfs[k] == (fields@[k].0@, fields@[k].1@),
            0 <= j <= upto,
            forall|k: int| 0 <= k < j ==> (#[trigger] vfs[k]).0 != key@,
        decreases upto - j,
    {
        if crate::strutil::str_eq(fields[j].0.as_str(), key) {
            proof {
                assert((vfs[j as int]).0 == key@);
            }
            return true;
        }
        j = j + 1;
    }
    false
}

/// Entry-wise [`prepare_payload`], keeping only the first entry of each key.
fn prepare_entries(fs: &Vec<(String, Json)>) -> (r: Vec<(String, Json)>)
    ensures
        json_obj_view(r@) == prepare_obj(json_obj_view(fs@)),
    decreases json_obj_view(fs@), 1int,
{
    let ghost vfs = json_obj_view(fs@);
    proof {
        lemma_json_obj_view(fs@);
    }
    let mut r: Vec<(String, Json)> = Vec::new();
    let mut i: usize = 0;
    proof {
        assert(vfs.take(0) =~= Seq::<(Seq<char>, JsonView)>::empty());
        assert(json_obj_view(r@) =~= prepare_obj(vfs.take(0)));
    }
    while i < fs.len()
        invariant
            vfs == json_obj_view(fs@),
            vfs.len() == fs@.len(),
            forall|k: int|
                0 <= k < fs@.len() ==> #[trigger] vfs[k] == (fs@[k].0@, fs@[k].1@),
            0 <= i <= fs@.len(),
            json_obj_view(r@) == prepare_obj(vfs.take(i as int)),
        decreases fs@.len() - i,
    {
        let ghost prev = r@;
        proof {
            assert(vfs.take(i + 1).drop_last() =~= vfs.take(i as int));
            assert(vfs.take(i + 1).last() == vfs[i as int]);
            assert(forall|k: int| 0 <= k < i ==> #[trigger] vfs.take(i + 1)[k] == vfs[k]);
        }
        if key_in_prefix_exec(fs, i, fs[i].0.as_str()) {
            proof {
                let j = choose|j: int| 0 <= j < i && (#[trigger] vfs[j]).0 == vfs[i as int].0;
                assert(vfs.take(i + 1)[j] == vfs[j]);
                assert(key_in_prefix(vfs.take(i + 1), vfs[i as int].0, i as int));
            }
        } else {
            proof {
                assert forall|j: int| 0 <= j < i implies (#[trigger] vfs.take(i + 1)[j]).0
                    != vfs[i as int].0 by {
                    assert(vfs.take(i + 1)[j] == vfs[j]);
                }
                assert(!key_in_prefix(vfs.take(i + 1), vfs[i as int].0, i as int));
                assert(decreases_to!(vfs => vfs[i as int]));
                assert(decreases_to!(vfs[i as int] => vfs[i as int].1));
            }
            let pv = prepare_payload(&fs[i].1);
            r.push((fs[i].0.clone(), pv));
            proof {
                assert(r@.drop_last() =~= prev);
                assert(json_obj_view(r@) == json_obj_view(prev).push(
                    (r@.last().0@, r@.last().1@),
                ));
            }
        }
        i = i + 1;
    }
    proof {
        assert(vfs.take(fs@.len() as int) =~= vfs);
    }
    r
}

/// Resolves one interpolation path against a payload.
fn resolve_value<'a>(v: &'a Json, path: &Vec<String>) -> (r: Option<&'a Json>)
    ensures
        match r {
            Some(c) => resolve_path(v@, path_view_one(path@)) == Some(c@),
            None => resolve_path(v@, path_view_one(path@)) == None::<JsonView>,
        },
{
    let ghost pv = path_view_one(path@);
    let mut cur: &'a Json = v;
    let mut i: usize = 0;
    proof {
        assert(pv.skip(0) =~= pv);
    }
    while i < path.len()
        invariant
            pv == path_view_one(path@),
            pv.len() == path@.len(),
            0 <= i <= path@.len(),
            resolve_path(v@, pv) == resolve_path(cur@, pv.skip(i as int)),
        decreases path@.len() - i,
    {
        proof {
            assert(pv.skip(i as int)[0] == pv[i as int]);
            assert(pv[i as int] == path@[i as int]@);
        }
        match cur {
            Json::Object(fields) => {
                match obj_get_str(fields, path[i].as_str()) {
                    Some(child) => {
                        proof {
                            assert(pv.skip(i as int).skip(1) =~= pv.skip(i + 1));
                        }
                        cur = child;
                    },
                    None => {
                        return None;
                    },
                }
            },
            _ => {
                return None;
            },
        }
        i = i + 1;
    }
    proof {
        assert(pv.skip(path@.len() as int).len() == 0);
    }
    Some(cur)
}

/// Whether every probed path interpolates safely on a payload.
pub fn check_paths_safe(paths: &Vec<Vec<String>>, v: &Json) -> (r: bool)
    ensures
        r == paths_safe(paths_view(paths@), v@),
{
    let ghost psv = paths_view(paths@);
    let mut i: usize = 0;
    while i < paths.len()
        invariant
            psv == paths_view(paths@),
            psv.len() == paths@.len(),
            0 <= i <= paths@.len(),
            forall|j: int|
                0 <= j < i ==> value_renders_safely(resolve_path(v@, #[trigger] psv[j])),
        decreases paths@.len() - i,
    {
        proof {
            assert(psv[i as int] == path_view_one(paths@[i as int]@));
        }
        let ok = match resolve_value(v, &paths[i]) {
            None => true,
            Some(c) => match c {
                Json::Null => true,
                Json::Str(_) => true,
                Json::Int(_) => true,
                _ => false,
            },
        };
        if !ok {
            proof {
                assert(!value_renders_safely(resolve_path(v@, psv[i as int])));
            }
            return false;
        }
        i = i + 1;
    }
    true
}

} // verus!
