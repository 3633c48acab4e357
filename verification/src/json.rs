//! The library's model of a semi-structured fact payload.
//!
//! A condition tree is evaluated against a tree of typed values: the shapes a
//! JSON document can take, except that numbers are held as signed 64-bit
//! integers. A numeric value outside that range (for instance a fraction) is
//! kept as [`Json::OtherNumber`]: every typed read fails on it, so a
//! constraint matched against it is `NotMet`.

use vstd::prelude::*;

use crate::strutil::str_eq;

verus! {

/// A semi-structured value: the fact payload a condition tree is checked
/// against, and the target of the rule serialization grammar.
#[derive(Debug, PartialEq)]
pub enum Json {
    /// An explicit null.
    Null,
    /// A boolean.
    Bool(bool),
    /// An integer. Only numbers representable as `i64` are held; see
    /// [`Json::OtherNumber`] for the rest.
    Int(i64),
    /// A text value.
    Str(String),
    /// An ordered sequence of values.
    Array(Vec<Json>),
    /// An ordered sequence of key/value entries. A key occurring twice is
    /// shadowed by its first entry on lookup.
    Object(Vec<(String, Json)>),
    /// A numeric value that does not fit a signed 64-bit integer. It
    /// participates in the tree but every typed read of it fails.
    OtherNumber,
}

/// The mathematical shape of a [`Json`] value.
pub enum JsonView {
    Null,
    Bool(bool),
    Int(int),
    Str(Seq<char>),
    Array(Seq<JsonView>),
    Object(Seq<(Seq<char>, JsonView)>),
    OtherNumber,
}

/// View of a sequence of values, element by element.
pub open spec fn json_seq_view(xs: Seq<Json>) -> Seq<JsonView>
    decreases xs,
{
    if xs.len() == 0 {
        Seq::empty()
    } else {
        json_seq_view(xs.drop_last()).push(xs.last()@)
    }
}

/// View of a sequence of object entries, entry by entry.
pub open spec fn json_obj_view(fs: Seq<(String, Json)>) -> Seq<(Seq<char>, JsonView)>
    decreases fs,
{
    if fs.len() == 0 {
        Seq::empty()
    } else {
        json_obj_view(fs.drop_last()).push((fs.last().0@, fs.last().1@))
    }
}

impl View for Json {
    type V = JsonView;

    open spec fn view(&self) -> JsonView
        decreases self,
    {
        match self {
            Json::Null => JsonView::Null,
            Json::Bool(b) => JsonView::Bool(*b),
            Json::Int(i) => JsonView::Int(*i as int),
            Json::Str(s) => JsonView::Str(s@),
            Json::Array(xs) => JsonView::Array(json_seq_view(xs@)),
            Json::Object(fs) => JsonView::Object(json_obj_view(fs@)),
            Json::OtherNumber => JsonView::OtherNumber,
        }
    }
}

/// The view of a value sequence keeps its length and maps each element.
pub proof fn lemma_json_seq_view(xs: Seq<Json>)
    ensures
        json_seq_view(xs).len() == xs.len(),
        forall|i: int| 0 <= i < xs.len() ==> json_seq_view(xs)[i] == #[trigger] xs[i]@,
        forall|i: int| 0 <= i < xs.len() ==> #[trigger] json_seq_view(xs)[i] == xs[i]@,
    decreases xs,
{
    if xs.len() > 0 {
        lemma_json_seq_view(xs.drop_last());
        assert(json_seq_view(xs) == json_seq_view(xs.drop_last()).push(xs.last()@));
        assert forall|i: int| 0 <= i < xs.len() implies json_seq_view(xs)[i]
            == #[trigger] xs[i]@ by {
            if i < xs.len() - 1 {
                assert(xs.drop_last()[i] == xs[i]);
            } else {
                assert(xs.last() == xs[i]);
            }
        }
    }
}

/// The view of an entry sequence keeps its length and maps each entry.
pub proof fn lemma_json_obj_view(fs: Seq<(String, Json)>)
    ensures
        json_obj_view(fs).len() == fs.len(),
        forall|i: int|
            0 <= i < fs.len() ==> json_obj_view(fs)[i] == (#[trigger] fs[i].0@, fs[i].1@),
        forall|i: int|
            0 <= i < fs.len() ==> #[trigger] json_obj_view(fs)[i] == (fs[i].0@, fs[i].1@),
    decreases fs,
{
    if fs.len() > 0 {
        lemma_json_obj_view(fs.drop_last());
        assert(json_obj_view(fs) == json_obj_view(fs.drop_last()).push(
            (fs.last().0@, fs.last().1@),
        ));
        assert forall|i: int| 0 <= i < fs.len() implies json_obj_view(fs)[i] == (
        #[trigger] fs[i].0@,
        fs[i].1@,
        ) by {
            if i < fs.len() - 1 {
                assert(fs.drop_last()[i] == fs[i]);
            } else {
                assert(fs.last() == fs[i]);
            }
        }
    }
}

/// First entry of `fields` whose key is `key`, if any.
pub open spec fn obj_get(fields: Seq<(Seq<char>, JsonView)>, key: Seq<char>) -> Option<JsonView>
    decreases fields,
{
    if fields.len() == 0 {
        None
    } else if fields[0].0 == key {
        Some(fields[0].1)
    } else {
        obj_get(fields.skip(1), key)
    }
}

/// First entry of `fields` whose key matches, if any, skipping a prefix
/// known not to match.
pub proof fn lemma_obj_get_shift(fields: Seq<(Seq<char>, JsonView)>, key: Seq<char>, k: int)
    requires
        0 <= k <= fields.len(),
        forall|j: int| 0 <= j < k ==> (#[trigger] fields[j]).0 != key,
    ensures
        obj_get(fields, key) == obj_get(fields.skip(k), key),
    decreases k,
{
    if k > 0 {
        assert(fields.skip(1).skip(k - 1) =~= fields.skip(k));
        assert(forall|j: int| 0 <= j < k - 1 ==> (#[trigger] fields.skip(1)[j]) == fields[j + 1]);
        lemma_obj_get_shift(fields.skip(1), key, k - 1);
    } else {
        assert(fields.skip(0) =~= fields);
    }
}

/// Looks a key up among an object's entries; the first matching entry wins.
pub(crate) fn obj_get_str<'a>(fields: &'a Vec<(String, Json)>, key: &str) -> (r: Option<&'a Json>)
    ensures
        match r {
            Some(c) => obj_get(json_obj_view(fields@), key@) == Some(c@),
            None => obj_get(json_obj_view(fields@), key@) == None::<JsonView>,
        },
{
    proof {
        lemma_json_obj_view(fields@);
    }
    let ghost vfields = json_obj_view(fields@);
    let n = fields.len();
    let mut i: usize = 0;
    while i < n
        invariant
            n == fields@.len(),
            vfields == json_obj_view(fields@),
            vfields.len() == n,
            forall|j: int| 0 <= j < n ==> #[trigger] vfields[j] == (fields@[j].0@, fields@[j].1@),
            0 <= i <= n,
            forall|j: int| 0 <= j < i ==> (#[trigger] vfields[j]).0 != key@,
        decreases n - i,
    {
        if str_eq(fields[i].0.as_str(), key) {
            proof {
                lemma_obj_get_shift(vfields, key@, i as int);
                assert(vfields.skip(i as int)[0] == vfields[i as int]);
            }
            return Some(&fields[i].1);
        }
        i = i + 1;
    }
    proof {
        lemma_obj_get_shift(vfields, key@, n as int);
        assert(vfields.skip(n as int).len() == 0);
    }
    None
}

} // verus!
