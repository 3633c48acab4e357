//! The fact accessor: resolving a pointer-style field path against a
//! [`Json`](crate::json::Json) payload.
//!
//! A path addresses nested structure with `/`-separated segments. A leading
//! `/` is required at this level (the condition evaluator prepends one when
//! it is missing). Inside a segment, `~1` stands for `/` and `~0` for `~`.
//! A segment applied to an array must be a decimal index without a sign or a
//! leading zero. A path that does not resolve yields `None`, never an error.

use vstd::prelude::*;

use crate::json::{lemma_obj_get_shift, obj_get, json_obj_view, json_seq_view, lemma_json_obj_view, lemma_json_seq_view, Json, JsonView};
use crate::strutil::{find_char, find_char_in, lemma_find_char, str_eq_chars};

verus! {

/// A segment with its escapes undone: `~1` becomes `/`, `~0` becomes `~`,
/// scanned left to right.
pub open spec fn unescape(t: Seq<char>) -> Seq<char>
    decreases t.len(),
{
    if t.len() == 0 {
        Seq::empty()
    } else if t.len() >= 2 && t[0] == '~' && t[1] == '1' {
        seq!['/'] + unescape(t.skip(2))
    } else if t.len() >= 2 && t[0] == '~' && t[1] == '0' {
        seq!['~'] + unescape(t.skip(2))
    } else {
        seq![t[0]] + unescape(t.skip(1))
    }
}

/// Undoes the escapes of one path segment.
pub fn unescape_token(t: &str) -> (r: Vec<char>)
    ensures
        r@ == unescape(t@),
{
    let n = t.unicode_len();
    let mut r: Vec<char> = Vec::new();
    let mut i: usize = 0;
    proof {
        assert(t@.skip(0) =~= t@);
        assert(r@ + unescape(t@) =~= unescape(t@));
    }
    while i < n
        invariant
            n == t@.len(),
            0 <= i <= n,
            unescape(t@) == r@ + unescape(t@.skip(i as int)),
        decreases n - i,
    {
        let ghost prev = r@;
        let c = t.get_char(i);
        if c == '~' && i + 1 < n {
            let c2 = t.get_char(i + 1);
            if c2 == '1' {
                r.push('/');
                proof {
                    assert(t@.skip(i as int).skip(2) =~= t@.skip(i + 2));
                    assert(prev + unescape(t@.skip(i as int)) =~= r@ + unescape(t@.skip(i + 2)));
                }
                i = i + 2;
                continue ;
            }
            if c2 == '0' {
                r.push('~');
                proof {
                    assert(t@.skip(i as int).skip(2) =~= t@.skip(i + 2));
                    assert(prev + unescape(t@.skip(i as int)) =~= r@ + unescape(t@.skip(i + 2)));
                }
                i = i + 2;
                continue ;
            }
        }
        r.push(c);
        proof {
            assert(t@.skip(i as int).skip(1) =~= t@.skip(i + 1));
            assert(prev + unescape(t@.skip(i as int)) =~= r@ + unescape(t@.skip(i + 1)));
        }
        i = i + 1;
    }
    proof {
        assert(unescape(t@.skip(n as int)) =~= Seq::<char>::empty());
        assert(r@ + Seq::<char>::empty() =~= r@);
    }
    r
}

/// Whether `c` is a decimal digit.
pub open spec fn is_digit(c: char) -> bool {
    c == '0' || c == '1' || c == '2' || c == '3' || c == '4' || c == '5' || c == '6' || c == '7'
        || c == '8' || c == '9'
}

/// The value of a decimal digit; zero on any other character.
pub open spec fn char_digit(c: char) -> nat {
    if c == '1' {
        1
    } else if c == '2' {
        2
    } else if c == '3' {
        3
    } else if c == '4' {
        4
    } else if c == '5' {
        5
    } else if c == '6' {
        6
    } else if c == '7' {
        7
    } else if c == '8' {
        8
    } else if c == '9' {
        9
    } else {
        0
    }
}

/// The value of a digit string, most significant digit first.
pub open spec fn digits_value(t: Seq<char>) -> nat
    decreases t.len(),
{
    if t.len() == 0 {
        0
    } else {
        digits_value(t.drop_last()) * 10 + char_digit(t.last())
    }
}

/// An array index as a pointer segment denotes it: decimal digits, no sign,
/// no leading zero, and a value that fits `usize`.
pub open spec fn spec_parse_index(t: Seq<char>) -> Option<int> {
    if t.len() == 0 {
        None
    } else if t[0] == '+' {
        None
    } else if t[0] == '0' && t.len() != 1 {
        None
    } else if !(forall|i: int| 0 <= i < t.len() ==> is_digit(#[trigger] t[i])) {
        None
    } else if digits_value(t) > usize::MAX as nat {
        None
    } else {
        Some(digits_value(t) as int)
    }
}

/// Appending digits never lowers the value of a digit string.
proof fn lemma_digits_value_monotone(t: Seq<char>, i: int)
    requires
        0 <= i <= t.len(),
    ensures
        digits_value(t.take(i)) <= digits_value(t),
    decreases t.len() - i,
{
    if i < t.len() {
        assert(t.take(i + 1).drop_last() =~= t.take(i));
        assert(digits_value(t.take(i)) * 10 >= digits_value(t.take(i))) by (nonlinear_arith);
        lemma_digits_value_monotone(t, i + 1);
    } else {
        assert(t.take(i) =~= t);
    }
}

/// The digit value of a digit character, in executable form.
fn char_digit_exec(c: char) -> (d: usize)
    ensures
        d == char_digit(c),
        d < 10,
{
    if c == '1' {
        1
    } else if c == '2' {
        2
    } else if c == '3' {
        3
    } else if c == '4' {
        4
    } else if c == '5' {
        5
    } else if c == '6' {
        6
    } else if c == '7' {
        7
    } else if c == '8' {
        8
    } else if c == '9' {
        9
    } else {
        0
    }
}

/// Whether `c` is a decimal digit, in executable form.
fn is_digit_exec(c: char) -> (r: bool)
    ensures
        r == is_digit(c),
{
    c == '0' || c == '1' || c == '2' || c == '3' || c == '4' || c == '5' || c == '6' || c == '7'
        || c == '8' || c == '9'
}

/// Parses an unescaped segment as an array index.
pub fn parse_index(t: &Vec<char>) -> (r: Option<usize>)
    ensures
        match r {
            Some(i) => spec_parse_index(t@) == Some(i as int),
            None => spec_parse_index(t@) == None::<int>,
        },
{
    let n = t.len();
    if n == 0 {
        return None;
    }
    if t[0] == '+' {
        return None;
    }
    if t[0] == '0' && n != 1 {
        return None;
    }
    let mut acc: usize = 0;
    let mut i: usize = 0;
    while i < n
        invariant
            n == t@.len(),
            n > 0,
            !(t@[0] == '+'),
            !(t@[0] == '0' && n != 1),
            0 <= i <= n,
            forall|j: int| 0 <= j < i ==> is_digit(#[trigger] t@[j]),
            acc == digits_value(t@.take(i as int)),
        decreases n - i,
    {
        let c = t[i];
        if !is_digit_exec(c) {
            return None;
        }
        let d = char_digit_exec(c);
        let next = match acc.checked_mul(10) {
            Some(x) => x.checked_add(d),
            None => None,
        };
        proof {
            assert(t@.take(i + 1).drop_last() =~= t@.take(i as int));
            assert(t@.take(i + 1).last() == t@[i as int]);
        }
        match next {
            Some(x) => {
                acc = x;
            },
            None => {
                proof {
                    assert(digits_value(t@.take(i + 1)) > usize::MAX as nat);
                    lemma_digits_value_monotone(t@, i + 1);
                }
                return None;
            },
        }
        i = i + 1;
    }
    proof {
        assert(t@.take(n as int) =~= t@);
    }
    Some(acc)
}

/// Splits a sequence on `/`. The result always has at least one (possibly
/// empty) part; no part contains `/`.
pub open spec fn split_slash(s: Seq<char>) -> Seq<Seq<char>>
    decreases s.len(),
    via split_slash_dec
{
    match find_char(s, '/') {
        None => seq![s],
        Some(i) => seq![s.take(i)] + split_slash(s.skip(i + 1)),
    }
}

#[via_fn]
proof fn split_slash_dec(s: Seq<char>) {
    lemma_find_char(s, '/');
}

/// Splits a string slice on `/`.
pub fn split_slash_str<'a>(s: &'a str) -> (r: Vec<&'a str>)
    ensures
        r@.len() == split_slash(s@).len(),
        forall|i: int| 0 <= i < r@.len() ==> (#[trigger] r@[i])@ == split_slash(s@)[i],
{
    let n = s.unicode_len();
    let mut r: Vec<&'a str> = Vec::new();
    let mut pos: usize = 0;
    proof {
        assert(s@.skip(0) =~= s@);
        assert(r@.map_values(|t: &str| t@) =~= Seq::<Seq<char>>::empty());
        assert(r@.map_values(|t: &str| t@) + split_slash(s@) =~= split_slash(s@));
    }
    loop
        invariant
            n == s@.len(),
            0 <= pos <= n,
            split_slash(s@) =~= r@.map_values(|t: &str| t@) + split_slash(s@.skip(pos as int)),
        decreases n - pos,
    {
        let ghost prev = r@.map_values(|t: &str| t@);
        let rest = s.substring_char(pos, n);
        proof {
            assert(rest@ =~= s@.skip(pos as int));
        }
        match find_char_in(rest, '/') {
            Some(j) => {
                proof {
                    lemma_find_char(rest@, '/');
                }
                let tok = s.substring_char(pos, pos + j);
                proof {
                    assert(tok@ =~= rest@.take(j as int));
                }
                r.push(tok);
                proof {
                    assert(rest@.skip(j + 1) =~= s@.skip(pos + j + 1));
                    assert(r@.map_values(|t: &str| t@) =~= prev.push(tok@));
                    assert(seq![rest@.take(j as int)] + split_slash(rest@.skip(j + 1))
                        =~= seq![tok@] + split_slash(s@.skip(pos + j + 1)));
                    assert(prev + (seq![tok@] + split_slash(s@.skip(pos + j + 1))) =~= prev.push(
                        tok@,
                    ) + split_slash(s@.skip(pos + j + 1)));
                }
                pos = pos + j + 1;
            },
            None => {
                r.push(rest);
                proof {
                    assert(r@.map_values(|t: &str| t@) =~= prev.push(rest@));
                    assert(prev + seq![rest@] =~= prev.push(rest@));
                }
                return r;
            },
        }
    }
}

/// Resolves a sequence of still-escaped segments against a value, one level
/// per segment: object segments select an entry by key, array segments by
/// index; any other value ends the walk.
pub open spec fn lookup_tokens(v: JsonView, tokens: Seq<Seq<char>>) -> Option<JsonView>
    decreases tokens.len(),
{
    if tokens.len() == 0 {
        Some(v)
    } else {
        let t = unescape(tokens[0]);
        match v {
            JsonView::Object(fields) => match obj_get(fields, t) {
                Some(child) => lookup_tokens(child, tokens.skip(1)),
                None => None,
            },
            JsonView::Array(xs) => match spec_parse_index(t) {
                Some(i) => if 0 <= i < xs.len() {
                    lookup_tokens(xs[i], tokens.skip(1))
                } else {
                    None
                },
                None => None,
            },
            _ => None,
        }
    }
}

/// Resolves a full pointer: the empty pointer names the root, any other
/// pointer must start with `/` and is split into segments.
pub open spec fn spec_lookup_pointer(v: JsonView, ptr: Seq<char>) -> Option<JsonView> {
    if ptr.len() == 0 {
        Some(v)
    } else if ptr[0] != '/' {
        None
    } else {
        lookup_tokens(v, split_slash(ptr.skip(1)))
    }
}

/// Looks a key up among an object's entries; the first matching entry wins.
fn obj_lookup<'a>(fields: &'a Vec<(String, Json)>, key: &Vec<char>) -> (r: Option<&'a Json>)
    ensures
        match r {
            Some(c) => obj_get(json_obj_view(fields@), key@) == Some(c@),
            None => obj_get(json_obj_view(fields@), key@) == None::<JsonView>,
        },
{
    proof {
        lemma_json_obj_view(fields@);
    }
    let ghost vfields = json_obj_view(fields@);
    let n = fields.len();
    let mut i: usize = 0;
    while i < n
        invariant
            n == fields@.len(),
            vfields == json_obj_view(fields@),
            vfields.len() == n,
            forall|j: int| 0 <= j < n ==> #[trigger] vfields[j] == (fields@[j].0@, fields@[j].1@),
            0 <= i <= n,
            forall|j: int| 0 <= j < i ==> (#[trigger] vfields[j]).0 != key@,
        decreases n - i,
    {
        if str_eq_chars(fields[i].0.as_str(), key) {
            proof {
                lemma_obj_get_shift(vfields, key@, i as int);
                assert(vfields.skip(i as int)[0] == vfields[i as int]);
            }
            return Some(&fields[i].1);
        }
        i = i + 1;
    }
    proof {
        lemma_obj_get_shift(vfields, key@, n as int);
        assert(vfields.skip(n as int).len() == 0);
    }
    None
}

/// Resolves a pointer against a value, returning the addressed subvalue if
/// the path resolves.
pub fn lookup_pointer<'a>(v: &'a Json, ptr: &str) -> (r: Option<&'a Json>)
    ensures
        match r {
            Some(c) => spec_lookup_pointer(v@, ptr@) == Some(c@),
            None => spec_lookup_pointer(v@, ptr@) == None::<JsonView>,
        },
{
    let n = ptr.unicode_len();
    if n == 0 {
        return Some(v);
    }
    if ptr.get_char(0) != '/' {
        return None;
    }
    let rest = ptr.substring_char(1, n);
    proof {
        assert(rest@ =~= ptr@.skip(1));
    }
    let tokens = split_slash_str(rest);
    let ghost toks = split_slash(ptr@.skip(1));
    let mut cur: &'a Json = v;
    let mut ti: usize = 0;
    proof {
        assert(toks.skip(0) =~= toks);
    }
    while ti < tokens.len()
        invariant
            n == ptr@.len(),
            0 < n,
            ptr@[0] == '/',
            toks == split_slash(ptr@.skip(1)),
            tokens@.len() == toks.len(),
            forall|i: int| 0 <= i < toks.len() ==> (#[trigger] tokens@[i])@ == toks[i],
            0 <= ti <= toks.len(),
            lookup_tokens(v@, toks) == lookup_tokens(cur@, toks.skip(ti as int)),
        decreases tokens@.len() - ti,
    {
        let un = unescape_token(tokens[ti]);
        match cur {
            Json::Object(fields) => {
                match obj_lookup(fields, &un) {
                    Some(child) => {
                        proof {
                            assert(toks.skip(ti as int)[0] == toks[ti as int]);
                            assert(toks.skip(ti as int).skip(1) =~= toks.skip(ti + 1));
                        }
                        cur = child;
                    },
                    None => {
                        proof {
                            assert(toks.skip(ti as int)[0] == toks[ti as int]);
                        }
                        return None;
                    },
                }
            },
            Json::Array(xs) => {
                proof {
                    lemma_json_seq_view(xs@);
                    assert(toks.skip(ti as int)[0] == toks[ti as int]);
                }
                match parse_index(&un) {
                    Some(idx) => {
                        if idx < xs.len() {
                            proof {
                                assert(toks.skip(ti as int).skip(1) =~= toks.skip(ti + 1));
                            }
                            cur = &xs[idx];
                        } else {
                            return None;
                        }
                    },
                    None => {
                        return None;
                    },
                }
            },
            _ => {
                proof {
                    assert(toks.skip(ti as int)[0] == toks[ti as int]);
                }
                return None;
            },
        }
        ti = ti + 1;
    }
    proof {
        assert(toks.skip(toks.len() as int).len() == 0);
    }
    Some(cur)
}

/// A leaf's field path with the leading `/` made explicit: one is prepended
/// when the path does not already start with it.
pub open spec fn normalize_path(field: Seq<char>) -> Seq<char> {
    if field.len() > 0 && field[0] == '/' {
        field
    } else {
        seq!['/'] + field
    }
}

/// Resolves a leaf's field path against a payload, prepending the implied
/// leading `/` when it is missing.
pub fn lookup_field<'a>(v: &'a Json, field: &str) -> (r: Option<&'a Json>)
    ensures
        match r {
            Some(c) => spec_lookup_pointer(v@, normalize_path(field@)) == Some(c@),
            None => spec_lookup_pointer(v@, normalize_path(field@)) == None::<JsonView>,
        },
{
    let n = field.unicode_len();
    if n > 0 && field.get_char(0) == '/' {
        lookup_pointer(v, field)
    } else {
        let mut p = String::from_str("/");
        p.append(field);
        proof {
            reveal_strlit("/");
            assert(p@ =~= normalize_path(field@));
        }
        lookup_pointer(v, p.as_str())
    }
}

} // verus!
