//! JSON text, read and written by `serde_json`.

use crate::json::{
    fields, group_json_views, in_order, lemma_position_is, lemma_slot, no_fields, put, slot, trees, Fields, Json, Num,
    Number, Object, Tree,
};
use crate::order::{lemma_less_irreflexive, less};
use crate::text::bytes_of;
use crate::time::{finite_text, tidy_seconds};
use vstd::prelude::*;

verus! {

/// A JSON value of `serde_json`.
#[verifier::external_type_specification]
#[verifier::external_body]
pub struct ExValue(serde_json::Value);

/// What a value of `serde_json` holds; an object's fields in the order of their keys.
pub uninterp spec fn json_tree(v: serde_json::Value) -> Tree;

/// A value taken apart by one level.
pub enum Shape<'a> {
    Null,
    Bool(bool),
    Pos(u64),
    Neg(i64),
    Float(String),
    Text(String),
    Array(Vec<&'a serde_json::Value>),
    Object(Vec<(&'a String, &'a serde_json::Value)>),
}

/// What the parts of a value are together.
pub open spec fn shape_tree(s: Shape<'_>) -> Tree {
    match s {
        Shape::Null => Tree::Null,
        Shape::Bool(b) => Tree::Bool(b),
        Shape::Pos(n) => Tree::Number(Num::Pos(n)),
        Shape::Neg(n) => Tree::Number(Num::Neg(n)),
        Shape::Float(text) => Tree::Number(Num::Float(text@)),
        Shape::Text(text) => Tree::Text(text@),
        Shape::Array(items) => Tree::Array(Seq::new(items@.len(), |i: int| json_tree(*items@[i]))),
        Shape::Object(o) => Tree::Object(Seq::new(o@.len(), |i: int| (o@[i].0@, json_tree(*o@[i].1)))),
    }
}

/// The variants of `serde_json::Value`: a number by `as_u64`, else `as_i64`, else
/// `to_string`; an object's entries as its map (ordered by key) walks them.
#[verifier::external_body]
fn shape<'a>(v: &'a serde_json::Value) -> (r: Shape<'a>)
    ensures
        json_tree(*v) == shape_tree(r),
{
    match v {
        serde_json::Value::Null => Shape::Null,
        serde_json::Value::Bool(b) => Shape::Bool(*b),
        serde_json::Value::Number(n) => match (n.as_u64(), n.as_i64()) {
            (Some(n), _) => Shape::Pos(n),
            (None, Some(n)) => Shape::Neg(n),
            (None, None) => Shape::Float(n.to_string()),
        },
        serde_json::Value::String(s) => Shape::Text(s.clone()),
        serde_json::Value::Array(items) => Shape::Array(items.iter().collect()),
        serde_json::Value::Object(o) => Shape::Object(o.iter().collect()),
    }
}

/// The parts that a value is made of.
pub enum Parts {
    Null,
    Bool(bool),
    Pos(u64),
    Neg(i64),
    Float(String),
    Text(String),
    Array(Vec<serde_json::Value>),
    Object(Vec<(String, serde_json::Value)>),
}

/// The fields that entries are together, a later one under the same key replacing
/// an earlier one.
pub open spec fn gathered(entries: Fields) -> Fields
    decreases entries.len(),
{
    if entries.len() == 0 {
        no_fields()
    } else {
        put(gathered(entries.drop_last()), entries.last().0, entries.last().1)
    }
}

/// What a value made of parts is.
pub open spec fn parts_tree(p: Parts) -> Tree {
    match p {
        Parts::Null => Tree::Null,
        Parts::Bool(b) => Tree::Bool(b),
        Parts::Pos(n) => Tree::Number(Num::Pos(n)),
        Parts::Neg(n) => if n >= 0 {
            Tree::Number(Num::Pos(n as u64))
        } else {
            Tree::Number(Num::Neg(n))
        },
        Parts::Float(text) => match finite_text(text@) {
            Some(printed) => Tree::Number(Num::Float(printed)),
            None => Tree::Null,
        },
        Parts::Text(text) => Tree::Text(text@),
        Parts::Array(items) => Tree::Array(Seq::new(items@.len(), |i: int| json_tree(items@[i]))),
        Parts::Object(o) => Tree::Object(gathered(Seq::new(o@.len(), |i: int| (o@[i].0@, json_tree(o@[i].1))))),
    }
}

/// The constructors of `serde_json::Value`: integers by `From`, a float by
/// `Number::from_f64` (`Null` where the text is no finite number), an object by
/// collecting entries into its map, which keeps keys in order and the last value
/// of each.
#[verifier::external_body]
fn assemble(p: Parts) -> (r: serde_json::Value)
    ensures
        json_tree(r) == parts_tree(p),
{
    match p {
        Parts::Null => serde_json::Value::Null,
        Parts::Bool(b) => serde_json::Value::Bool(b),
        Parts::Pos(n) => serde_json::Value::from(n),
        Parts::Neg(n) => serde_json::Value::from(n),
        Parts::Float(text) => text.parse().ok().and_then(serde_json::Number::from_f64).into(),
        Parts::Text(text) => serde_json::Value::String(text),
        Parts::Array(items) => serde_json::Value::Array(items),
        Parts::Object(o) => serde_json::Value::Object(o.into_iter().collect()),
    }
}

/// The value that JSON text is, or what `serde_json` says of it.
pub uninterp spec fn parsed_json(bytes: Seq<u8>) -> Result<Tree, Seq<char>>;

/// Text that is the value `t`.
pub open spec fn sound(t: Tree) -> Result<Tree, Seq<char>> {
    Ok(t)
}

/// `serde_json::from_slice` to a `Value`, the error by its `to_string`.
#[verifier::external_body]
fn parse(bytes: &[u8]) -> (r: Result<serde_json::Value, String>)
    ensures
        match r {
            Ok(v) => parsed_json(bytes@) == Ok::<Tree, Seq<char>>(json_tree(v)),
            Err(e) => parsed_json(bytes@) == Err::<Tree, Seq<char>>(e@),
        },
{
    serde_json::from_slice(bytes).map_err(|error| error.to_string())
}

/// A value whose numbers are integers or tidy seconds, with the fields of every
/// object in order, that nests at most `depth` deep.
pub open spec fn plain(t: Tree, depth: int) -> bool
    decreases t,
{
    match t {
        Tree::Number(Num::Neg(n)) => n < 0,
        Tree::Number(Num::Float(text)) => tidy_seconds(text),
        Tree::Array(items) => depth > 0 && plain_items(items, depth - 1),
        Tree::Object(o) => depth > 0 && in_order(o) && plain_fields(o, depth - 1),
        _ => true,
    }
}

pub open spec fn plain_items(items: Seq<Tree>, depth: int) -> bool
    decreases items,
{
    items.len() == 0 || (plain_items(items.drop_last(), depth) && plain(items.last(), depth))
}

pub open spec fn plain_fields(o: Fields, depth: int) -> bool
    decreases o,
{
    o.len() == 0 || (plain_fields(o.drop_last(), depth) && plain_field(o.last(), depth))
}

pub open spec fn plain_field(f: (Seq<char>, Tree), depth: int) -> bool
    decreases f,
{
    plain(f.1, depth)
}

/// How deep a value may nest to be read.
pub const MAX_DEPTH: usize = 127;

/// Bytes, at least one, without a newline among them.
pub open spec fn one_line(b: Seq<u8>) -> bool {
    b.len() > 0 && forall|i: int| 0 <= i < b.len() ==> #[trigger] b[i] != 10
}

/// A value as JSON text without spaces.
pub uninterp spec fn printed_json(t: Tree) -> Seq<char>;

/// `serde_json::Value::to_string`. `serde_json::from_slice` gives a plain value back
/// from its text, as deep as it reads values: it divides the digits of tidy seconds,
/// which a double holds, by a power of ten, and the quotient is the nearest double.
/// Of other fractions it promises less. The text is one line: a newline in a string
/// is escaped, and nothing stands between values but signs.
#[verifier::external_body]
fn print(v: &serde_json::Value) -> (r: String)
    ensures
        r@ == printed_json(json_tree(*v)),
        plain(json_tree(*v), MAX_DEPTH as int) ==> parsed_json(bytes_of(r@)) == sound(json_tree(*v)),
        one_line(bytes_of(r@)),
{
    v.to_string()
}

/// The value that `serde_json` makes of a tree: numbers in its own form, fields
/// gathered by key.
pub open spec fn carried(t: Tree) -> Tree
    decreases t,
{
    match t {
        Tree::Number(Num::Neg(n)) => if n >= 0 {
            Tree::Number(Num::Pos(n as u64))
        } else {
            t
        },
        Tree::Number(Num::Float(text)) => match finite_text(text) {
            Some(printed) => Tree::Number(Num::Float(printed)),
            None => Tree::Null,
        },
        Tree::Array(items) => Tree::Array(carried_items(items)),
        Tree::Object(o) => Tree::Object(gathered(carried_fields(o))),
        _ => t,
    }
}

pub open spec fn carried_items(items: Seq<Tree>) -> Seq<Tree>
    decreases items,
{
    if items.len() == 0 {
        Seq::empty()
    } else {
        carried_items(items.drop_last()).push(carried(items.last()))
    }
}

pub open spec fn carried_fields(o: Fields) -> Fields
    decreases o,
{
    if o.len() == 0 {
        Seq::empty()
    } else {
        carried_fields(o.drop_last()).push(carried_field(o.last()))
    }
}

pub open spec fn carried_field(f: (Seq<char>, Tree)) -> (Seq<char>, Tree)
    decreases f,
{
    (f.0, carried(f.1))
}

/// A plain value is carried as it is.
pub proof fn plain_values_are_carried(t: Tree, depth: int)
    requires
        plain(t, depth),
    ensures
        carried(t) == t,
    decreases t,
{
    match t {
        Tree::Array(items) => lemma_plain_items(items, depth - 1),
        Tree::Object(o) => {
            lemma_plain_fields(o, depth - 1);
            lemma_gathered(o);
        },
        _ => {},
    }
}

proof fn lemma_plain_items(items: Seq<Tree>, depth: int)
    requires
        plain_items(items, depth),
    ensures
        carried_items(items) == items,
    decreases items,
{
    if items.len() > 0 {
        lemma_plain_items(items.drop_last(), depth);
        plain_values_are_carried(items.last(), depth);
        assert(carried_items(items) =~= items);
    }
}

proof fn lemma_plain_fields(o: Fields, depth: int)
    requires
        plain_fields(o, depth),
    ensures
        carried_fields(o) == o,
    decreases o,
{
    if o.len() > 0 {
        lemma_plain_fields(o.drop_last(), depth);
        lemma_plain_field(o.last(), depth);
        assert(carried_fields(o) =~= o);
    }
}

proof fn lemma_plain_field(f: (Seq<char>, Tree), depth: int)
    requires
        plain_field(f, depth),
    ensures
        carried_field(f) == f,
    decreases f,
{
    plain_values_are_carried(f.1, depth);
}

/// Fields in order are gathered as they are.
proof fn lemma_gathered(o: Fields)
    requires
        in_order(o),
    ensures
        gathered(o) == o,
    decreases o.len(),
{
    if o.len() > 0 {
        let before = o.drop_last();
        let (k, v) = o.last();
        assert forall|i: int, j: int| 0 <= i < j < before.len() implies less(
            #[trigger] before[i].0,
            #[trigger] before[j].0,
        ) by {
            assert(before[i] == o[i] && before[j] == o[j]);
        }
        lemma_gathered(before);
        assert forall|i: int| 0 <= i < before.len() implies #[trigger] before[i].0 != k && less(before[i].0, k) by {
            assert(before[i] == o[i]);
            assert(less(o[i].0, o[o.len() - 1].0));
            lemma_less_irreflexive(k);
        }
        lemma_position_is(before, k, before.len() as int);
        lemma_slot(before, k);
        reveal(put);
        assert(slot(before, k) == before.len());
        assert(put(before, k, v) =~= o);
    }
}

fn inward(v: &serde_json::Value) -> (r: Json)
    ensures
        r@ == json_tree(*v),
    decreases json_tree(*v),
{
    broadcast use group_json_views;

    match shape(v) {
        Shape::Null => Json::Null,
        Shape::Bool(b) => Json::Bool(b),
        Shape::Pos(n) => Json::Number(Number::Pos(n)),
        Shape::Neg(n) => Json::Number(Number::Neg(n)),
        Shape::Float(text) => Json::Number(Number::Float(text)),
        Shape::Text(text) => Json::Text(text),
        Shape::Array(items) => {
            let ghost all = json_tree(*v)->Array_0;
            let mut out: Vec<Json> = Vec::new();
            let mut i: usize = 0;
            while i < items.len()
                invariant
                    i <= items@.len(),
                    json_tree(*v) == Tree::Array(all),
                    all == Seq::new(items@.len(), |i: int| json_tree(*items@[i])),
                    out@.len() == i,
                    forall|j: int| 0 <= j < i ==> (#[trigger] out@[j])@ == all[j],
                decreases items@.len() - i,
            {
                assert(all[i as int] == json_tree(*items@[i as int]));
                assert(decreases_to!(json_tree(*v) => json_tree(*v)->Array_0));
                assert(decreases_to!(all => all[i as int]));
                out.push(inward(items[i]));
                i = i + 1;
            }
            assert(trees(out@) =~= all);
            Json::Array(out)
        },
        Shape::Object(o) => {
            let ghost all = json_tree(*v)->Object_0;
            let mut out: Object = Vec::new();
            let mut i: usize = 0;
            while i < o.len()
                invariant
                    i <= o@.len(),
                    json_tree(*v) == Tree::Object(all),
                    all == Seq::new(o@.len(), |i: int| (o@[i].0@, json_tree(*o@[i].1))),
                    out@.len() == i,
                    forall|j: int| 0 <= j < i ==> (#[trigger] fields(out@)[j]) == all[j],
                decreases o@.len() - i,
            {
                assert(all[i as int] == (o@[i as int].0@, json_tree(*o@[i as int].1)));
                assert(decreases_to!(json_tree(*v) => json_tree(*v)->Object_0));
                assert(decreases_to!(all => all[i as int]));
                assert(decreases_to!(all[i as int] => all[i as int].1));
                let ghost before = out@;
                out.push((o[i].0.clone(), inward(o[i].1)));
                i = i + 1;
                assert forall|j: int| 0 <= j < i implies (#[trigger] fields(out@)[j]) == all[j] by {
                    if j < i - 1 {
                        assert(fields(before)[j] == all[j]);
                    }
                }
            }
            assert(fields(out@) =~= all);
            Json::Object(out)
        },
    }
}

fn outward(v: &Json) -> (r: serde_json::Value)
    ensures
        json_tree(r) == carried(v@),
    decreases v,
{
    broadcast use group_json_views;

    match v {
        Json::Null => assemble(Parts::Null),
        Json::Bool(b) => assemble(Parts::Bool(*b)),
        Json::Number(Number::Pos(n)) => assemble(Parts::Pos(*n)),
        Json::Number(Number::Neg(n)) => assemble(Parts::Neg(*n)),
        Json::Number(Number::Float(text)) => assemble(Parts::Float(text.clone())),
        Json::Text(s) => assemble(Parts::Text(s.clone())),
        Json::Array(items) => {
            let ghost all = trees(items@);
            let mut out: Vec<serde_json::Value> = Vec::new();
            let mut i: usize = 0;
            while i < items.len()
                invariant
                    i <= items@.len(),
                    v == Json::Array(*items),
                    all == trees(items@),
                    Seq::new(out@.len(), |i: int| json_tree(out@[i])) == carried_items(all.take(i as int)),
                decreases items@.len() - i,
            {
                assert(decreases_to!(v => v->Array_0));
                assert(decreases_to!(v->Array_0 => v->Array_0@));
                assert(decreases_to!(v->Array_0@ => v->Array_0@[i as int]));
                let ghost before = Seq::new(out@.len(), |i: int| json_tree(out@[i]));
                out.push(outward(&items[i]));
                i = i + 1;
                assert(all.take(i as int).drop_last() =~= all.take(i - 1));
                assert(Seq::new(out@.len(), |i: int| json_tree(out@[i])) =~= before.push(carried(all[i - 1])));
            }
            assert(all.take(i as int) =~= all);
            assemble(Parts::Array(out))
        },
        Json::Object(o) => {
            let ghost all = fields(o@);
            let mut out: Vec<(String, serde_json::Value)> = Vec::new();
            let mut i: usize = 0;
            assert(Seq::new(out@.len(), |i: int| (out@[i].0@, json_tree(out@[i].1))) =~= carried_fields(all.take(0)));
            while i < o.len()
                invariant
                    i <= o@.len(),
                    v == Json::Object(*o),
                    all == fields(o@),
                    Seq::new(out@.len(), |i: int| (out@[i].0@, json_tree(out@[i].1))) == carried_fields(
                        all.take(i as int),
                    ),
                decreases o@.len() - i,
            {
                assert(decreases_to!(v => v->Object_0));
                assert(decreases_to!(v->Object_0 => v->Object_0@));
                assert(decreases_to!(v->Object_0@ => v->Object_0@[i as int]));
                assert(decreases_to!(v->Object_0@[i as int] => v->Object_0@[i as int].1));
                let ghost before = Seq::new(out@.len(), |i: int| (out@[i].0@, json_tree(out@[i].1)));
                out.push((o[i].0.clone(), outward(&o[i].1)));
                i = i + 1;
                assert(all.take(i as int).drop_last() =~= all.take(i - 1));
                assert(all.take(i as int).last() == all[i - 1]);
                assert(carried_field(all[i - 1]) == (all[i - 1].0, carried(all[i - 1].1)));
                assert(Seq::new(out@.len(), |i: int| (out@[i].0@, json_tree(out@[i].1))) =~= before.push(
                    carried_field(all[i - 1]),
                ));
            }
            assert(all.take(i as int) =~= all);
            assemble(Parts::Object(out))
        },
    }
}

/// The JSON value in `bytes`, or what is wrong with them.
pub fn read_json(bytes: &[u8]) -> (r: Result<Json, String>)
    ensures
        match r {
            Ok(v) => parsed_json(bytes@) == Ok::<Tree, Seq<char>>(v@),
            Err(e) => parsed_json(bytes@) == Err::<Tree, Seq<char>>(e@),
        },
{
    match parse(bytes) {
        Ok(v) => Ok(inward(&v)),
        Err(e) => Err(e),
    }
}

/// A value as one line of JSON text, from which a plain value is read back.
pub fn write_json(v: &Json) -> (r: String)
    ensures
        r@ == printed_json(carried(v@)),
        plain(v@, MAX_DEPTH as int) ==> parsed_json(bytes_of(r@)) == sound(v@),
        one_line(bytes_of(r@)),
{
    proof {
        if plain(v@, MAX_DEPTH as int) {
            plain_values_are_carried(v@, MAX_DEPTH as int);
        }
    }
    print(&outward(v))
}

} // verus!
