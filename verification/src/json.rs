//! JSON values. An object is a list of fields in ascending key order; `put`
//! keeps it so. A number that is not an integer is held by its printed form.

use crate::order::{is_less, less};
use crate::text::same;
use vstd::prelude::*;

verus! {

/// A JSON number: a non-negative integer, a negative one, or any other, in the
/// form in which it is printed.
#[derive(Debug, PartialEq, Eq)]
pub enum Number {
    Pos(u64),
    Neg(i64),
    Float(String),
}

/// A JSON value.
#[derive(Debug, PartialEq, Eq)]
pub enum Json {
    Null,
    Bool(bool),
    Number(Number),
    Text(String),
    Array(Vec<Json>),
    Object(Vec<(String, Json)>),
}

/// The fields of an object.
pub type Object = Vec<(String, Json)>;

/// What a `Number` is.
pub enum Num {
    Pos(u64),
    Neg(i64),
    Float(Seq<char>),
}

/// What a `Json` value is.
pub enum Tree {
    Null,
    Bool(bool),
    Number(Num),
    Text(Seq<char>),
    Array(Seq<Tree>),
    Object(Seq<(Seq<char>, Tree)>),
}

/// What the fields of an object are.
pub type Fields = Seq<(Seq<char>, Tree)>;

impl View for Number {
    type V = Num;

    open spec fn view(&self) -> Num {
        match self {
            Number::Pos(n) => Num::Pos(*n),
            Number::Neg(n) => Num::Neg(*n),
            Number::Float(text) => Num::Float(text@),
        }
    }
}

impl View for Json {
    type V = Tree;

    open spec fn view(&self) -> Tree
        decreases self,
    {
        match self {
            Json::Null => Tree::Null,
            Json::Bool(b) => Tree::Bool(*b),
            Json::Number(n) => Tree::Number(n@),
            Json::Text(s) => Tree::Text(s@),
            Json::Array(items) => Tree::Array(
                Seq::new(
                    items@.len(),
                    |i: int|
                        if 0 <= i < items@.len() {
                            items@[i].view()
                        } else {
                            Tree::Null
                        },
                ),
            ),
            Json::Object(o) => Tree::Object(
                Seq::new(
                    o@.len(),
                    |i: int|
                        if 0 <= i < o@.len() {
                            (o@[i].0@, o@[i].1.view())
                        } else {
                            (Seq::empty(), Tree::Null)
                        },
                ),
            ),
        }
    }
}

/// The values that a list holds.
pub open spec fn trees(items: Seq<Json>) -> Seq<Tree> {
    Seq::new(items.len(), |i: int| items[i]@)
}

/// The keys and values that an object holds.
pub open spec fn fields(o: Seq<(String, Json)>) -> Fields {
    Seq::new(o.len(), |i: int| (o[i].0@, o[i].1@))
}

pub broadcast proof fn lemma_array_view(items: Vec<Json>)
    ensures
        #[trigger] Json::Array(items)@ == Tree::Array(trees(items@)),
{
    reveal_with_fuel(<Json as View>::view, 2);
    match Json::Array(items)@ {
        Tree::Array(s) => {
            assert(s =~= trees(items@));
        },
        _ => {},
    }
}

pub broadcast proof fn lemma_object_view(o: Vec<(String, Json)>)
    ensures
        #[trigger] Json::Object(o)@ == Tree::Object(fields(o@)),
{
    reveal_with_fuel(<Json as View>::view, 2);
    match Json::Object(o)@ {
        Tree::Object(s) => {
            assert(s =~= fields(o@));
        },
        _ => {},
    }
}

pub broadcast group group_json_views {
    lemma_array_view,
    lemma_object_view,
}

/// What a list or an object is, whichever `v` is.
pub proof fn lemma_views_known(v: Json)
    ensures
        v matches Json::Array(items) ==> v@ == Tree::Array(trees(items@)),
        v matches Json::Object(o) ==> v@ == Tree::Object(fields(o@)),
{
    match v {
        Json::Array(items) => lemma_array_view(items),
        Json::Object(o) => lemma_object_view(o),
        _ => {},
    }
}

/// Where `k` first stands among the fields, or their number.
pub open spec fn position(o: Fields, k: Seq<char>) -> int
    decreases o.len(),
{
    if o.len() == 0 || o[0].0 == k {
        0
    } else {
        1 + position(o.drop_first(), k)
    }
}

/// How many leading keys come before `k`.
pub open spec fn slot(o: Fields, k: Seq<char>) -> int
    decreases o.len(),
{
    if o.len() == 0 || !less(o[0].0, k) {
        0
    } else {
        1 + slot(o.drop_first(), k)
    }
}

/// The value under `k`.
pub open spec fn get(o: Fields, k: Seq<char>) -> Option<Tree> {
    if position(o, k) < o.len() {
        Some(o[position(o, k)].1)
    } else {
        None
    }
}

/// The fields with `v` under `k`: in place of what stood there, else at its
/// place in the order of keys.
#[verifier::opaque]
pub open spec fn put(o: Fields, k: Seq<char>, v: Tree) -> Fields {
    if position(o, k) < o.len() {
        o.update(position(o, k), (k, v))
    } else {
        o.insert(slot(o, k), (k, v))
    }
}

/// The fields without `k`.
pub open spec fn without(o: Fields, k: Seq<char>) -> Fields {
    if position(o, k) < o.len() {
        o.remove(position(o, k))
    } else {
        o
    }
}

/// Building up fields by keys.
pub trait Entries {
    spec fn with(self, k: Seq<char>, v: Tree) -> Self;
}

impl Entries for Seq<(Seq<char>, Tree)> {
    open spec fn with(self, k: Seq<char>, v: Tree) -> Self {
        put(self, k, v)
    }
}

/// No fields.
pub open spec fn no_fields() -> Fields {
    Seq::empty()
}

/// Every key comes before the next, so no key occurs twice.
pub open spec fn in_order(o: Fields) -> bool {
    forall|i: int, j: int| 0 <= i < j < o.len() ==> less(#[trigger] o[i].0, #[trigger] o[j].0)
}

pub proof fn lemma_position(o: Fields, k: Seq<char>)
    ensures
        0 <= position(o, k) <= o.len(),
        position(o, k) < o.len() ==> o[position(o, k)].0 == k,
        forall|i: int| 0 <= i < position(o, k) ==> #[trigger] o[i].0 != k,
    decreases o.len(),
{
    if o.len() > 0 && o[0].0 != k {
        let t = o.drop_first();
        lemma_position(t, k);
        assert forall|i: int| 0 <= i < position(o, k) implies #[trigger] o[i].0 != k by {
            if i > 0 {
                assert(t[i - 1].0 != k);
            }
        }
    }
}

pub proof fn lemma_slot(o: Fields, k: Seq<char>)
    ensures
        0 <= slot(o, k) <= o.len(),
        forall|i: int| 0 <= i < slot(o, k) ==> less(#[trigger] o[i].0, k),
        slot(o, k) < o.len() ==> !less(o[slot(o, k)].0, k),
    decreases o.len(),
{
    if o.len() > 0 && less(o[0].0, k) {
        let t = o.drop_first();
        lemma_slot(t, k);
        assert forall|i: int| 0 <= i < slot(o, k) implies less(#[trigger] o[i].0, k) by {
            if i > 0 {
                assert(less(t[i - 1].0, k));
            }
        }
        if slot(o, k) < o.len() {
            assert(!less(t[slot(t, k)].0, k));
        }
    }
}

/// Where the first field with key `k` is known, that is its position.
pub proof fn lemma_position_is(o: Fields, k: Seq<char>, p: int)
    requires
        0 <= p <= o.len(),
        p < o.len() ==> o[p].0 == k,
        forall|i: int| 0 <= i < p ==> #[trigger] o[i].0 != k,
    ensures
        position(o, k) == p,
{
    lemma_position(o, k);
    let q = position(o, k);
    if q < p {
        assert(o[q].0 != k);
    }
    if p < q {
        assert(o[p].0 != k);
    }
}

/// A value put under a key is found under it, and every other key finds what it
/// found before.
pub proof fn put_then_get(o: Fields, k: Seq<char>, v: Tree, other: Seq<char>)
    ensures
        get(put(o, k, v), k) == Some(v),
        other != k ==> get(put(o, k, v), other) == get(o, other),
{
    reveal(put);
    lemma_position(o, k);
    lemma_slot(o, k);
    lemma_position(o, other);
    let r = put(o, k, v);
    let p = position(o, k);
    let q = position(o, other);
    let s = slot(o, k);
    if p < o.len() {
        assert forall|i: int| 0 <= i < p implies #[trigger] r[i].0 != k by {
            assert(o[i].0 != k);
        }
        lemma_position_is(r, k, p);
        if other != k {
            assert forall|i: int| 0 <= i < q implies #[trigger] r[i].0 != other by {
                assert(o[i].0 != other);
            }
            lemma_position_is(r, other, q);
        }
    } else {
        assert forall|i: int| 0 <= i < s implies #[trigger] r[i].0 != k by {
            assert(r[i] == o[i]);
        }
        lemma_position_is(r, k, s);
        if other != k {
            let q2 = if q < s {
                q
            } else {
                q + 1
            };
            assert forall|i: int| 0 <= i < q2 implies #[trigger] r[i].0 != other by {
                if i < s {
                    assert(r[i] == o[i]);
                } else if i > s {
                    assert(r[i] == o[i - 1]);
                }
            }
            if q2 < r.len() {
                if q < s {
                    assert(r[q2] == o[q]);
                } else {
                    assert(r[q2] == o[q]);
                }
            }
            lemma_position_is(r, other, q2);
        }
    }
}

/// Putting a value keeps the keys in order.
pub proof fn put_keeps_order(o: Fields, k: Seq<char>, v: Tree)
    requires
        in_order(o),
    ensures
        in_order(put(o, k, v)),
{
    reveal(put);
    lemma_position(o, k);
    lemma_slot(o, k);
    let r = put(o, k, v);
    let p = position(o, k);
    let s = slot(o, k);
    if p < o.len() {
        assert forall|i: int, j: int| 0 <= i < j < r.len() implies less(#[trigger] r[i].0, #[trigger] r[j].0) by {
            assert(r[i].0 == o[i].0 && r[j].0 == o[j].0);
        }
    } else {
        if s < o.len() {
            assert(o[s].0 != k);
            crate::order::lemma_less_total(k, o[s].0);
        }
        assert forall|i: int, j: int| 0 <= i < j < r.len() implies less(#[trigger] r[i].0, #[trigger] r[j].0) by {
            let oi = if i < s {
                i
            } else {
                i - 1
            };
            let oj = if j < s {
                j
            } else {
                j - 1
            };
            if i != s && j != s {
                assert(r[i] == o[oi] && r[j] == o[oj]);
                assert(less(o[oi].0, o[oj].0));
            } else if j == s {
                assert(r[i] == o[i]);
                assert(less(o[i].0, k));
            } else {
                assert(r[j] == o[oj]);
                if oj > s {
                    assert(less(o[s].0, o[oj].0));
                    crate::order::lemma_less_transitive(k, o[s].0, o[oj].0);
                }
            }
        }
    }
}

/// Taking a key out keeps the keys in order.
pub proof fn without_keeps_order(o: Fields, k: Seq<char>)
    requires
        in_order(o),
    ensures
        in_order(without(o, k)),
{
    lemma_position(o, k);
    let r = without(o, k);
    let p = position(o, k);
    if p < o.len() {
        assert forall|i: int, j: int| 0 <= i < j < r.len() implies less(#[trigger] r[i].0, #[trigger] r[j].0) by {
            let oi = if i < p {
                i
            } else {
                i + 1
            };
            let oj = if j < p {
                j
            } else {
                j + 1
            };
            assert(r[i] == o[oi] && r[j] == o[oj]);
            assert(less(o[oi].0, o[oj].0));
        }
    }
}

/// Where `k` first stands in the object, or its length.
fn find_key(o: &Object, k: &str) -> (r: usize)
    ensures
        r == position(fields(o@), k@),
        r <= o@.len(),
{
    let mut i: usize = 0;
    while i < o.len()
        invariant
            i <= o@.len(),
            forall|j: int| 0 <= j < i ==> #[trigger] fields(o@)[j].0 != k@,
        decreases o@.len() - i,
    {
        if same(&o[i].0, k) {
            proof {
                lemma_position_is(fields(o@), k@, i as int);
            }
            return i;
        }
        i = i + 1;
    }
    proof {
        lemma_position_is(fields(o@), k@, i as int);
    }
    i
}

/// The value under `k`.
pub fn field<'a>(o: &'a Object, k: &str) -> (r: Option<&'a Json>)
    ensures
        match r {
            Some(v) => get(fields(o@), k@) == Some(v@),
            None => get(fields(o@), k@) is None,
        },
{
    let i = find_key(o, k);
    if i < o.len() {
        Some(&o[i].1)
    } else {
        None
    }
}

/// Whether there is a value under `k`.
pub fn has_field(o: &Object, k: &str) -> (r: bool)
    ensures
        r == get(fields(o@), k@) is Some,
{
    let i = find_key(o, k);
    i < o.len()
}

/// Puts `v` under `k`.
pub fn set_field(o: &mut Object, k: &str, v: Json)
    ensures
        fields(final(o)@) == put(fields(old(o)@), k@, v@),
{
    proof {
        reveal(put);
    }
    let ghost before = fields(o@);
    let i = find_key(o, k);
    if i < o.len() {
        o.set(i, (k.to_owned(), v));
        assert(fields(o@) =~= before.update(i as int, (k@, v@)));
    } else {
        let mut s: usize = 0;
        assert(before.skip(0) =~= before);
        while s < o.len() && is_less(&o[s].0, k)
            invariant
                before == fields(o@),
                s <= o@.len(),
                s + slot(before.skip(s as int), k@) == slot(before, k@),
            decreases o@.len() - s,
        {
            assert(before.skip(s as int)[0] == before[s as int]);
            assert(before.skip(s as int).drop_first() =~= before.skip(s + 1));
            s = s + 1;
        }
        proof {
            if s < o@.len() {
                assert(before.skip(s as int)[0] == before[s as int]);
            }
        }
        o.insert(s, (k.to_owned(), v));
        assert(fields(o@) =~= before.insert(s as int, (k@, v@)));
    }
}

/// Takes out what stands under `k`.
pub fn remove_field(o: &mut Object, k: &str) -> (r: Option<Json>)
    ensures
        fields(final(o)@) == without(fields(old(o)@), k@),
        match r {
            Some(v) => get(fields(old(o)@), k@) == Some(v@),
            None => get(fields(old(o)@), k@) is None,
        },
{
    let ghost before = fields(o@);
    let i = find_key(o, k);
    if i < o.len() {
        let (_, v) = o.remove(i);
        assert(fields(o@) =~= before.remove(i as int));
        Some(v)
    } else {
        None
    }
}

pub fn no_object() -> (r: Object)
    ensures
        fields(r@) == no_fields(),
{
    let r: Object = Vec::new();
    assert(fields(r@) =~= no_fields());
    r
}

/// The fields of a value; none where it is not an object.
pub fn into_object(v: Json) -> (r: Object)
    ensures
        match v@ {
            Tree::Object(o) => fields(r@) == o,
            _ => fields(r@) == no_fields(),
        },
{
    broadcast use group_json_views;

    match v {
        Json::Object(o) => o,
        _ => no_object(),
    }
}

pub fn string(s: &str) -> (r: Json)
    ensures
        r@ == Tree::Text(s@),
{
    Json::Text(s.to_owned())
}

pub fn count(n: u64) -> (r: Json)
    ensures
        r@ == Tree::Number(Num::Pos(n)),
{
    Json::Number(Number::Pos(n))
}

/// The number that an integer is.
pub open spec fn integer_num(n: i64) -> Num {
    if n >= 0 {
        Num::Pos(n as u64)
    } else {
        Num::Neg(n)
    }
}

pub fn integer(n: i64) -> (r: Json)
    ensures
        r@ == Tree::Number(integer_num(n)),
{
    if n >= 0 {
        Json::Number(Number::Pos(n as u64))
    } else {
        Json::Number(Number::Neg(n))
    }
}

/// `null`, or the text.
pub open spec fn text_or_null(s: Option<Seq<char>>) -> Tree {
    match s {
        Some(t) => Tree::Text(t),
        None => Tree::Null,
    }
}

pub fn opt_string(s: Option<&str>) -> (r: Json)
    ensures
        r@ == text_or_null(
            match s {
                Some(t) => Some(t@),
                None => None,
            },
        ),
{
    match s {
        Some(t) => string(t),
        None => Json::Null,
    }
}

/// A list of texts.
pub open spec fn text_list(texts: Seq<Seq<char>>) -> Tree {
    Tree::Array(Seq::new(texts.len(), |i: int| Tree::Text(texts[i])))
}

pub fn strings(texts: &Vec<String>) -> (r: Json)
    ensures
        r@ == text_list(crate::text::views(texts@)),
{
    broadcast use group_json_views;

    let mut items: Vec<Json> = Vec::new();
    let mut i: usize = 0;
    while i < texts.len()
        invariant
            i <= texts@.len(),
            items@.len() == i,
            forall|j: int| 0 <= j < i ==> (#[trigger] items@[j])@ == Tree::Text(texts@[j]@),
        decreases texts@.len() - i,
    {
        items.push(string(&texts[i]));
        i = i + 1;
    }
    assert(trees(items@) =~= Seq::new(
        crate::text::views(texts@).len(),
        |i: int| Tree::Text(crate::text::views(texts@)[i]),
    ));
    Json::Array(items)
}

/// The texts among values.
pub open spec fn texts_among(items: Seq<Tree>) -> Seq<Seq<char>>
    decreases items.len(),
{
    if items.len() == 0 {
        Seq::empty()
    } else {
        match items.last() {
            Tree::Text(s) => texts_among(items.drop_last()).push(s),
            _ => texts_among(items.drop_last()),
        }
    }
}

pub fn pick_texts(items: &Vec<Json>) -> (r: Vec<String>)
    ensures
        crate::text::views(r@) == texts_among(trees(items@)),
{
    let ghost all = trees(items@);
    let mut out: Vec<String> = Vec::new();
    let mut i: usize = 0;
    assert(crate::text::views(out@) =~= texts_among(all.take(0)));
    while i < items.len()
        invariant
            i <= items@.len(),
            all == trees(items@),
            crate::text::views(out@) == texts_among(all.take(i as int)),
        decreases items@.len() - i,
    {
        proof {
            lemma_views_known(items@[i as int]);
        }
        assert(all.take(i + 1).drop_last() =~= all.take(i as int));
        assert(all.take(i + 1).last() == items@[i as int]@);
        let ghost before = crate::text::views(out@);
        if let Json::Text(s) = &items[i] {
            out.push(s.clone());
            assert(crate::text::views(out@) =~= before.push(s@));
        }
        i = i + 1;
    }
    assert(all.take(i as int) =~= all);
    out
}

/// A value as text, where it is one.
pub open spec fn as_text(t: Option<Tree>) -> Option<Seq<char>> {
    match t {
        Some(Tree::Text(s)) => Some(s),
        _ => None,
    }
}

/// A value as a truth value, where it is one.
pub open spec fn as_flag(t: Option<Tree>) -> Option<bool> {
    match t {
        Some(Tree::Bool(b)) => Some(b),
        _ => None,
    }
}

/// A value as a non-negative integer, where it is one.
pub open spec fn as_count(t: Option<Tree>) -> Option<u64> {
    match t {
        Some(Tree::Number(Num::Pos(n))) => Some(n),
        _ => None,
    }
}

/// A value as an integer of 64 bits, where it is one.
pub open spec fn as_integer(t: Option<Tree>) -> Option<i64> {
    match t {
        Some(Tree::Number(Num::Pos(n))) => if n <= i64::MAX {
            Some(n as i64)
        } else {
            None
        },
        Some(Tree::Number(Num::Neg(n))) => Some(n),
        _ => None,
    }
}

/// A value as fields, where it is an object.
pub open spec fn as_fields(t: Option<Tree>) -> Option<Fields> {
    match t {
        Some(Tree::Object(o)) => Some(o),
        _ => None,
    }
}

/// A value as a list, where it is one.
pub open spec fn as_list(t: Option<Tree>) -> Option<Seq<Tree>> {
    match t {
        Some(Tree::Array(items)) => Some(items),
        _ => None,
    }
}

/// The text under a key, where there is one.
pub fn text_field<'a>(o: &'a Object, k: &str) -> (r: Option<&'a str>)
    ensures
        match r {
            Some(s) => as_text(get(fields(o@), k@)) == Some(s@),
            None => as_text(get(fields(o@), k@)) is None,
        },
{
    match field(o, k) {
        Some(Json::Text(s)) => Some(s.as_str()),
        _ => None,
    }
}

/// The truth value under a key, where there is one.
pub fn flag_field(o: &Object, k: &str) -> (r: Option<bool>)
    ensures
        r == as_flag(get(fields(o@), k@)),
{
    match field(o, k) {
        Some(Json::Bool(b)) => Some(*b),
        _ => None,
    }
}

/// The count under a key, where there is one.
pub fn count_field(o: &Object, k: &str) -> (r: Option<u64>)
    ensures
        r == as_count(get(fields(o@), k@)),
{
    match field(o, k) {
        Some(Json::Number(Number::Pos(n))) => Some(*n),
        _ => None,
    }
}

/// The integer under a key, where there is one that fits.
pub fn integer_field(o: &Object, k: &str) -> (r: Option<i64>)
    ensures
        r == as_integer(get(fields(o@), k@)),
{
    match field(o, k) {
        Some(Json::Number(Number::Pos(n))) => if *n <= 9223372036854775807u64 {
            Some(*n as i64)
        } else {
            None
        },
        Some(Json::Number(Number::Neg(n))) => Some(*n),
        _ => None,
    }
}

/// The object under a key, where there is one.
pub fn object_field<'a>(o: &'a Object, k: &str) -> (r: Option<&'a Object>)
    ensures
        match r {
            Some(f) => as_fields(get(fields(o@), k@)) == Some(fields(f@)),
            None => as_fields(get(fields(o@), k@)) is None,
        },
{
    broadcast use group_json_views;

    match field(o, k) {
        Some(Json::Object(f)) => Some(f),
        _ => None,
    }
}

/// The list under a key, where there is one.
pub fn list_field<'a>(o: &'a Object, k: &str) -> (r: Option<&'a Vec<Json>>)
    ensures
        match r {
            Some(f) => as_list(get(fields(o@), k@)) == Some(trees(f@)),
            None => as_list(get(fields(o@), k@)) is None,
        },
{
    broadcast use group_json_views;

    match field(o, k) {
        Some(Json::Array(f)) => Some(f),
        _ => None,
    }
}

pub fn copy_number(n: &Number) -> (r: Number)
    ensures
        r@ == n@,
{
    match n {
        Number::Pos(v) => Number::Pos(*v),
        Number::Neg(v) => Number::Neg(*v),
        Number::Float(text) => Number::Float(text.clone()),
    }
}

/// A value equal to `v`.
pub fn copy(v: &Json) -> (r: Json)
    ensures
        r@ == v@,
    decreases v,
{
    broadcast use group_json_views;

    match v {
        Json::Null => Json::Null,
        Json::Bool(b) => Json::Bool(*b),
        Json::Number(n) => Json::Number(copy_number(n)),
        Json::Text(s) => Json::Text(s.clone()),
        Json::Array(items) => {
            let mut out: Vec<Json> = Vec::new();
            let mut i: usize = 0;
            while i < items.len()
                invariant
                    i <= items@.len(),
                    v == Json::Array(*items),
                    out@.len() == i,
                    forall|j: int| 0 <= j < i ==> (#[trigger] out@[j])@ == items@[j]@,
                decreases items@.len() - i,
            {
                assert(decreases_to!(v => v->Array_0));
                assert(decreases_to!(v->Array_0 => v->Array_0@));
                assert(decreases_to!(v->Array_0@ => v->Array_0@[i as int]));
                out.push(copy(&items[i]));
                i = i + 1;
            }
            assert(trees(out@) =~= trees(items@));
            Json::Array(out)
        },
        Json::Object(o) => {
            let mut out: Object = Vec::new();
            let mut i: usize = 0;
            while i < o.len()
                invariant
                    i <= o@.len(),
                    v == Json::Object(*o),
                    out@.len() == i,
                    forall|j: int| 0 <= j < i ==> fields(out@)[j] == #[trigger] fields(o@)[j],
                decreases o@.len() - i,
            {
                assert(decreases_to!(v => v->Object_0));
                assert(decreases_to!(v->Object_0 => v->Object_0@));
                assert(decreases_to!(v->Object_0@ => v->Object_0@[i as int]));
                assert(decreases_to!(v->Object_0@[i as int] => v->Object_0@[i as int].1));
                out.push((o[i].0.clone(), copy(&o[i].1)));
                i = i + 1;
            }
            assert(fields(out@) =~= fields(o@));
            Json::Object(out)
        },
    }
}

/// An object with the same fields as `o`.
pub fn copy_object(o: &Object) -> (r: Object)
    ensures
        fields(r@) == fields(o@),
{
    let mut out: Object = Vec::new();
    let mut i: usize = 0;
    while i < o.len()
        invariant
            i <= o@.len(),
            out@.len() == i,
            forall|j: int| 0 <= j < i ==> fields(out@)[j] == #[trigger] fields(o@)[j],
        decreases o@.len() - i,
    {
        out.push((o[i].0.clone(), copy(&o[i].1)));
        i = i + 1;
    }
    assert(fields(out@) =~= fields(o@));
    out
}

/// A float that is zero, whatever its sign.
pub open spec fn zero_text(s: Seq<char>) -> bool {
    s == "0.0"@ || s == "-0.0"@
}

/// Two numbers that are equal as JSON compares them.
pub open spec fn alike_numbers(a: Num, b: Num) -> bool {
    match (a, b) {
        (Num::Pos(x), Num::Pos(y)) => x == y,
        (Num::Neg(x), Num::Neg(y)) => x == y,
        (Num::Float(x), Num::Float(y)) => x == y || (zero_text(x) && zero_text(y)),
        _ => false,
    }
}

/// Two values that are equal as JSON compares them.
pub open spec fn alike(a: Tree, b: Tree) -> bool
    decreases a,
{
    match (a, b) {
        (Tree::Null, Tree::Null) => true,
        (Tree::Bool(x), Tree::Bool(y)) => x == y,
        (Tree::Number(x), Tree::Number(y)) => alike_numbers(x, y),
        (Tree::Text(x), Tree::Text(y)) => x == y,
        (Tree::Array(x), Tree::Array(y)) => alike_items(x, y),
        (Tree::Object(x), Tree::Object(y)) => alike_fields(x, y),
        _ => false,
    }
}

pub open spec fn alike_items(a: Seq<Tree>, b: Seq<Tree>) -> bool
    decreases a,
{
    if a.len() != b.len() {
        false
    } else if a.len() == 0 {
        true
    } else {
        alike_items(a.drop_last(), b.drop_last()) && alike(a.last(), b.last())
    }
}

pub open spec fn alike_fields(a: Fields, b: Fields) -> bool
    decreases a,
{
    if a.len() != b.len() {
        false
    } else if a.len() == 0 {
        true
    } else {
        alike_fields(a.drop_last(), b.drop_last()) && alike_field(a.last(), b.last())
    }
}

pub open spec fn alike_field(a: (Seq<char>, Tree), b: (Seq<char>, Tree)) -> bool
    decreases a,
{
    a.0 == b.0 && alike(a.1, b.1)
}

proof fn lemma_items_prefix(a: Seq<Tree>, b: Seq<Tree>, n: int)
    requires
        a.len() == b.len(),
        0 <= n <= a.len(),
        !alike_items(a.take(n), b.take(n)),
    ensures
        !alike_items(a, b),
    decreases a.len() - n,
{
    if n == a.len() {
        assert(a.take(n) =~= a);
        assert(b.take(n) =~= b);
    } else {
        assert(a.take(n + 1).drop_last() =~= a.take(n));
        assert(b.take(n + 1).drop_last() =~= b.take(n));
        lemma_items_prefix(a, b, n + 1);
    }
}

proof fn lemma_fields_prefix(a: Fields, b: Fields, n: int)
    requires
        a.len() == b.len(),
        0 <= n <= a.len(),
        !alike_fields(a.take(n), b.take(n)),
    ensures
        !alike_fields(a, b),
    decreases a.len() - n,
{
    if n == a.len() {
        assert(a.take(n) =~= a);
        assert(b.take(n) =~= b);
    } else {
        assert(a.take(n + 1).drop_last() =~= a.take(n));
        assert(b.take(n + 1).drop_last() =~= b.take(n));
        lemma_fields_prefix(a, b, n + 1);
    }
}

fn equal_numbers(a: &Number, b: &Number) -> (r: bool)
    ensures
        r == alike_numbers(a@, b@),
{
    match (a, b) {
        (Number::Pos(x), Number::Pos(y)) => *x == *y,
        (Number::Neg(x), Number::Neg(y)) => *x == *y,
        (Number::Float(x), Number::Float(y)) => same(x, y) || ((same(x, "0.0") || same(x, "-0.0")) && (same(y, "0.0")
            || same(y, "-0.0"))),
        _ => false,
    }
}

/// `a == b` as JSON compares values.
pub fn equal(a: &Json, b: &Json) -> (r: bool)
    ensures
        r == alike(a@, b@),
    decreases a,
{
    broadcast use group_json_views;

    match (a, b) {
        (Json::Null, Json::Null) => true,
        (Json::Bool(x), Json::Bool(y)) => *x == *y,
        (Json::Number(x), Json::Number(y)) => equal_numbers(x, y),
        (Json::Text(x), Json::Text(y)) => same(x, y),
        (Json::Array(x), Json::Array(y)) => {
            if x.len() != y.len() {
                return false;
            }
            let ghost s = trees(x@);
            let ghost t = trees(y@);
            let mut i: usize = 0;
            while i < x.len()
                invariant
                    i <= x@.len(),
                    x@.len() == y@.len(),
                    a == Json::Array(*x),
                    s == trees(x@),
                    t == trees(y@),
                    alike(a@, b@) == alike_items(s, t),
                    alike_items(s.take(i as int), t.take(i as int)),
                decreases x@.len() - i,
            {
                assert(decreases_to!(a => a->Array_0));
                assert(decreases_to!(a->Array_0 => a->Array_0@));
                assert(decreases_to!(a->Array_0@ => a->Array_0@[i as int]));
                assert(s.take(i + 1).drop_last() =~= s.take(i as int));
                assert(t.take(i + 1).drop_last() =~= t.take(i as int));
                if !equal(&x[i], &y[i]) {
                    proof {
                        lemma_items_prefix(s, t, i + 1);
                    }
                    return false;
                }
                i = i + 1;
            }
            assert(s.take(i as int) =~= s);
            assert(t.take(i as int) =~= t);
            true
        },
        (Json::Object(x), Json::Object(y)) => {
            if x.len() != y.len() {
                return false;
            }
            let ghost s = fields(x@);
            let ghost t = fields(y@);
            let mut i: usize = 0;
            while i < x.len()
                invariant
                    i <= x@.len(),
                    x@.len() == y@.len(),
                    a == Json::Object(*x),
                    s == fields(x@),
                    t == fields(y@),
                    alike(a@, b@) == alike_fields(s, t),
                    alike_fields(s.take(i as int), t.take(i as int)),
                decreases x@.len() - i,
            {
                assert(decreases_to!(a => a->Object_0));
                assert(decreases_to!(a->Object_0 => a->Object_0@));
                assert(decreases_to!(a->Object_0@ => a->Object_0@[i as int]));
                assert(decreases_to!(a->Object_0@[i as int] => a->Object_0@[i as int].1));
                assert(s.take(i + 1).drop_last() =~= s.take(i as int));
                assert(t.take(i + 1).drop_last() =~= t.take(i as int));
                assert(alike_field(s[i as int], t[i as int]) == (s[i as int].0 == t[i as int].0 && alike(
                    s[i as int].1,
                    t[i as int].1,
                )));
                if !same(&x[i].0, &y[i].0) || !equal(&x[i].1, &y[i].1) {
                    proof {
                        lemma_fields_prefix(s, t, i + 1);
                    }
                    return false;
                }
                i = i + 1;
            }
            assert(s.take(i as int) =~= s);
            assert(t.take(i as int) =~= t);
            true
        },
        _ => false,
    }
}

/// Looking up a key after a value was put under one.
pub broadcast proof fn lemma_get_put(o: Fields, k: Seq<char>, v: Tree, j: Seq<char>)
    ensures
        #[trigger] get(put(o, k, v), j) == if j == k {
            Some(v)
        } else {
            get(o, j)
        },
{
    put_then_get(o, k, v, j);
}

/// A text, or null.
pub fn optional(s: &Option<String>) -> (r: Json)
    ensures
        r@ == text_or_null(crate::text::opt_view(*s)),
{
    match s {
        Some(t) => string(t),
        None => Json::Null,
    }
}

/// A flag that is set.
pub fn read_flag(payload: &Object, key: &str) -> (r: bool)
    ensures
        r == (as_flag(get(fields(payload@), key@)) == Some(true)),
{
    match flag_field(payload, key) {
        Some(b) => b,
        None => false,
    }
}

/// A value is alike to itself.
pub proof fn values_are_alike_to_themselves(t: Tree)
    ensures
        alike(t, t),
    decreases t,
{
    match t {
        Tree::Array(items) => lemma_items_alike(items),
        Tree::Object(o) => lemma_fields_alike(o),
        _ => {},
    }
}

proof fn lemma_items_alike(items: Seq<Tree>)
    ensures
        alike_items(items, items),
    decreases items,
{
    if items.len() > 0 {
        lemma_items_alike(items.drop_last());
        values_are_alike_to_themselves(items.last());
    }
}

proof fn lemma_fields_alike(o: Fields)
    ensures
        alike_fields(o, o),
    decreases o,
{
    if o.len() > 0 {
        lemma_fields_alike(o.drop_last());
        lemma_field_alike(o.last());
    }
}

proof fn lemma_field_alike(f: (Seq<char>, Tree))
    ensures
        alike_field(f, f),
    decreases f,
{
    values_are_alike_to_themselves(f.1);
}

/// Values that differ in kind, in a text, in a whole number or in how many entries they have
/// are not alike.
pub proof fn different_values_are_not_alike(a: Seq<char>, b: Seq<char>, m: u64, n: u64, x: Seq<Tree>, y: Seq<Tree>, t: Tree)
    ensures
        alike(Tree::Text(a), Tree::Text(b)) <==> a == b,
        alike(Tree::Number(Num::Pos(m)), Tree::Number(Num::Pos(n))) <==> m == n,
        alike(Tree::Array(x), Tree::Array(y)) ==> x.len() == y.len(),
        alike(Tree::Null, t) <==> t is Null,
        !alike(Tree::Bool(true), Tree::Bool(false)),
        !alike(Tree::Text(a), Tree::Number(Num::Pos(n))),
{
}

} // verus!
