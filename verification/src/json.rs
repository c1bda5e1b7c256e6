//! JSON documents and their compact and pretty renderings.
//!
//! Content identities and digests are taken over exact JSON bytes, so the
//! renderings here follow one fixed layout: compact text without spaces, and
//! pretty text indented by two spaces per level.

use vstd::prelude::*;

use crate::codec::{decimal, decimal_of, json_quoted, json_string};
use crate::text::concat;

verus! {

/// The abstract value of a JSON document.
pub enum JsonModel {
    Null,
    Bool(bool),
    Number(nat),
    Text(Seq<char>),
    Array(Seq<JsonModel>),
    Object(Seq<(Seq<char>, JsonModel)>),
}

/// A JSON value; object members keep the order they are given in.
#[derive(Debug)]
pub enum Json {
    /// `null`.
    Null,
    /// `true` or `false`.
    Bool(bool),
    /// A non-negative integer.
    Number(u64),
    /// A string.
    Text(String),
    /// An array.
    Array(Vec<Json>),
    /// An object.
    Object(Vec<(String, Json)>),
}

/// The abstract value of a concrete document.
pub open spec fn json_model(v: Json) -> JsonModel
    decreases v,
{
    match v {
        Json::Null => JsonModel::Null,
        Json::Bool(b) => JsonModel::Bool(b),
        Json::Number(n) => JsonModel::Number(n as nat),
        Json::Text(s) => JsonModel::Text(s@),
        Json::Array(items) => {
            proof {
                assert(decreases_to!(v => items));
                assert(decreases_to!(items => items@));
            }
            JsonModel::Array(json_models(items@))
        },
        Json::Object(members) => {
            proof {
                assert(decreases_to!(v => members));
                assert(decreases_to!(members => members@));
            }
            JsonModel::Object(member_models(members@))
        },
    }
}

/// The abstract values of a sequence of documents.
pub open spec fn json_models(items: Seq<Json>) -> Seq<JsonModel>
    decreases items,
{
    if items.len() == 0 {
        Seq::empty()
    } else {
        proof {
            assert(decreases_to!(items => items[items.len() - 1]));
            assert(items.drop_last() =~= items.subrange(0, items.len() - 1));
        }
        json_models(items.drop_last()).push(json_model(items.last()))
    }
}

/// The abstract values of object members.
pub open spec fn member_models(members: Seq<(String, Json)>) -> Seq<(Seq<char>, JsonModel)>
    decreases members,
{
    if members.len() == 0 {
        Seq::empty()
    } else {
        proof {
            assert(decreases_to!(members => members[members.len() - 1]));
            assert(decreases_to!(members[members.len() - 1] => members[members.len() - 1].1));
            assert(members.drop_last() =~= members.subrange(0, members.len() - 1));
        }
        member_models(members.drop_last()).push((members.last().0@, json_model(members.last().1)))
    }
}

impl View for Json {
    type V = JsonModel;

    open spec fn view(&self) -> JsonModel {
        json_model(*self)
    }
}

/// The models of a prefix are the prefix of the models.
pub proof fn lemma_json_models_take(items: Seq<Json>, i: int)
    requires
        0 <= i <= items.len(),
    ensures
        json_models(items).len() == items.len(),
        json_models(items.take(i)) == json_models(items).take(i),
        i < items.len() ==> json_models(items)[i] == json_model(items[i]),
    decreases items.len(),
{
    if items.len() > 0 {
        let short = items.drop_last();
        if i == items.len() {
            assert(items.take(i) =~= items);
            lemma_json_models_take(short, i - 1);
        } else {
            assert(items.take(i) =~= short.take(i));
            lemma_json_models_take(short, i);
        }
        lemma_json_models_take(short, short.len() as int);
        assert(short.take(short.len() as int) =~= short);
    }
}

/// The models of a prefix of members are the prefix of the member models.
pub proof fn lemma_member_models_take(members: Seq<(String, Json)>, i: int)
    requires
        0 <= i <= members.len(),
    ensures
        member_models(members).len() == members.len(),
        member_models(members.take(i)) == member_models(members).take(i),
        i < members.len() ==> member_models(members)[i] == (members[i].0@, json_model(members[i].1)),
    decreases members.len(),
{
    if members.len() > 0 {
        let short = members.drop_last();
        if i == members.len() {
            assert(members.take(i) =~= members);
            lemma_member_models_take(short, i - 1);
        } else {
            assert(members.take(i) =~= short.take(i));
            lemma_member_models_take(short, i);
        }
        lemma_member_models_take(short, short.len() as int);
        assert(short.take(short.len() as int) =~= short);
    }
}

/// The compact rendering of a value.
pub open spec fn compact(v: JsonModel) -> Seq<char>
    decreases v,
{
    match v {
        JsonModel::Null => "null"@,
        JsonModel::Bool(b) => if b {
            "true"@
        } else {
            "false"@
        },
        JsonModel::Number(n) => decimal_of(n),
        JsonModel::Text(s) => json_quoted(s),
        JsonModel::Array(items) => "["@ + compact_items(items) + "]"@,
        JsonModel::Object(members) => "{"@ + compact_members(members) + "}"@,
    }
}

/// The compact renderings of array items, separated by commas.
pub open spec fn compact_items(items: Seq<JsonModel>) -> Seq<char>
    decreases items,
{
    if items.len() == 0 {
        Seq::empty()
    } else {
        proof {
            assert(items.drop_last() =~= items.subrange(0, items.len() - 1));
        }
        let head = compact_items(items.drop_last());
        (if items.len() > 1 {
            head + ","@
        } else {
            head
        }) + compact(items.last())
    }
}

/// The compact renderings of object members, separated by commas.
pub open spec fn compact_members(members: Seq<(Seq<char>, JsonModel)>) -> Seq<char>
    decreases members,
{
    if members.len() == 0 {
        Seq::empty()
    } else {
        proof {
            assert(decreases_to!(members => members[members.len() - 1]));
            assert(decreases_to!(members[members.len() - 1] => members[members.len() - 1].1));
            assert(members.drop_last() =~= members.subrange(0, members.len() - 1));
        }
        let head = compact_members(members.drop_last());
        (if members.len() > 1 {
            head + ","@
        } else {
            head
        }) + json_quoted(members.last().0) + ":"@ + compact(members.last().1)
    }
}

/// The line break that opens the `n`-th entry of a pretty array or object.
pub open spec fn entry_break(n: nat) -> Seq<char> {
    if n > 1 {
        ",\n"@
    } else {
        "\n"@
    }
}

/// The pretty rendering of a value whose first line starts after `indent`:
/// each nested level is indented by two more spaces, an empty array or object
/// stays on one line, and a member's key is followed by a colon and a space.
pub open spec fn pretty(v: JsonModel, indent: Seq<char>) -> Seq<char>
    decreases v,
{
    match v {
        JsonModel::Array(items) => if items.len() == 0 {
            "[]"@
        } else {
            "["@ + pretty_items(items, indent + "  "@) + "\n"@ + indent + "]"@
        },
        JsonModel::Object(members) => if members.len() == 0 {
            "{}"@
        } else {
            "{"@ + pretty_members(members, indent + "  "@) + "\n"@ + indent + "}"@
        },
        _ => compact(v),
    }
}

/// The pretty renderings of array items, one per line at `indent`.
pub open spec fn pretty_items(items: Seq<JsonModel>, indent: Seq<char>) -> Seq<char>
    decreases items,
{
    if items.len() == 0 {
        Seq::empty()
    } else {
        proof {
            assert(items.drop_last() =~= items.subrange(0, items.len() - 1));
        }
        pretty_items(items.drop_last(), indent) + entry_break(items.len()) + indent + pretty(items.last(), indent)
    }
}

/// The pretty renderings of object members, one per line at `indent`.
pub open spec fn pretty_members(members: Seq<(Seq<char>, JsonModel)>, indent: Seq<char>) -> Seq<char>
    decreases members,
{
    if members.len() == 0 {
        Seq::empty()
    } else {
        proof {
            assert(decreases_to!(members => members[members.len() - 1]));
            assert(decreases_to!(members[members.len() - 1] => members[members.len() - 1].1));
            assert(members.drop_last() =~= members.subrange(0, members.len() - 1));
        }
        pretty_members(members.drop_last(), indent) + entry_break(members.len()) + indent + json_quoted(
            members.last().0,
        ) + ": "@ + pretty(members.last().1, indent)
    }
}

/// A pretty document: the value at top level and one closing line break.
pub open spec fn pretty_document(v: JsonModel) -> Seq<char> {
    pretty(v, Seq::empty()) + "\n"@
}

/// Renders a value compactly.
#[verifier::loop_isolation(false)]
#[verifier::rlimit(40)]
pub fn render_compact(v: &Json) -> (r: String)
    ensures
        r@ == compact(v@),
    decreases v,
{
    match v {
        Json::Null => String::from_str("null"),
        Json::Bool(b) => if *b {
            String::from_str("true")
        } else {
            String::from_str("false")
        },
        Json::Number(n) => decimal(*n),
        Json::Text(s) => json_string(s.as_str()).unwrap(),
        Json::Array(items) => {
            let ghost ms = json_models(items@);
            let mut out = String::from_str("[");
            let mut i: usize = 0;
            while i < items.len()
                invariant
                    i <= items@.len(),
                    out@ == "["@ + compact_items(ms.take(i as int)),
                decreases items.len() - i,
            {
                proof {
                    assert(decreases_to!(v => items));
                    assert(decreases_to!(items => items@));
                    assert(decreases_to!(items@ => items@[i as int]));
                    lemma_json_models_take(items@, i as int);
                    assert(ms.take(i + 1).drop_last() =~= ms.take(i as int));
                }
                if i > 0 {
                    out.append(",");
                }
                let item = render_compact(&items[i]);
                out.append(item.as_str());
                i = i + 1;
            }
            proof {
                lemma_json_models_take(items@, 0);
                assert(ms.take(ms.len() as int) =~= ms);
            }
            out.append("]");
            out
        },
        Json::Object(members) => {
            let ghost ms = member_models(members@);
            let mut out = String::from_str("{");
            let mut i: usize = 0;
            while i < members.len()
                invariant
                    i <= members@.len(),
                    out@ == "{"@ + compact_members(ms.take(i as int)),
                decreases members.len() - i,
            {
                proof {
                    assert(decreases_to!(v => members));
                    assert(decreases_to!(members => members@));
                    assert(decreases_to!(members@ => members@[i as int]));
                    assert(decreases_to!(members@[i as int] => members@[i as int].1));
                    lemma_member_models_take(members@, i as int);
                    assert(ms.take(i + 1).drop_last() =~= ms.take(i as int));
                }
                if i > 0 {
                    out.append(",");
                }
                let key = json_string(members[i].0.as_str()).unwrap();
                out.append(key.as_str());
                out.append(":");
                let value = render_compact(&members[i].1);
                out.append(value.as_str());
                i = i + 1;
            }
            proof {
                lemma_member_models_take(members@, 0);
                assert(ms.take(ms.len() as int) =~= ms);
            }
            out.append("}");
            out
        },
    }
}

/// Renders a value pretty, its first line starting after `indent`.
#[verifier::loop_isolation(false)]
#[verifier::rlimit(60)]
pub fn render_pretty(v: &Json, indent: &str) -> (r: String)
    ensures
        r@ == pretty(v@, indent@),
    decreases v,
{
    match v {
        Json::Array(items) => {
            proof {
                lemma_json_models_take(items@, 0);
            }
            if items.len() == 0 {
                return String::from_str("[]");
            }
            let ghost ms = json_models(items@);
            let inner = concat(indent, "  ");
            let mut out = String::from_str("[");
            let mut i: usize = 0;
            while i < items.len()
                invariant
                    i <= items@.len(),
                    inner@ == indent@ + "  "@,
                    out@ == "["@ + pretty_items(ms.take(i as int), inner@),
                decreases items.len() - i,
            {
                proof {
                    assert(decreases_to!(v => items));
                    assert(decreases_to!(items => items@));
                    assert(decreases_to!(items@ => items@[i as int]));
                    lemma_json_models_take(items@, i as int);
                    assert(ms.take(i + 1).drop_last() =~= ms.take(i as int));
                }
                if i > 0 {
                    out.append(",\n");
                } else {
                    out.append("\n");
                }
                out.append(inner.as_str());
                let item = render_pretty(&items[i], inner.as_str());
                out.append(item.as_str());
                i = i + 1;
            }
            proof {
                assert(ms.take(ms.len() as int) =~= ms);
            }
            out.append("\n");
            out.append(indent);
            out.append("]");
            out
        },
        Json::Object(members) => {
            proof {
                lemma_member_models_take(members@, 0);
            }
            if members.len() == 0 {
                return String::from_str("{}");
            }
            let ghost ms = member_models(members@);
            let inner = concat(indent, "  ");
            let mut out = String::from_str("{");
            let mut i: usize = 0;
            while i < members.len()
                invariant
                    i <= members@.len(),
                    inner@ == indent@ + "  "@,
                    out@ == "{"@ + pretty_members(ms.take(i as int), inner@),
                decreases members.len() - i,
            {
                proof {
                    assert(decreases_to!(v => members));
                    assert(decreases_to!(members => members@));
                    assert(decreases_to!(members@ => members@[i as int]));
                    assert(decreases_to!(members@[i as int] => members@[i as int].1));
                    lemma_member_models_take(members@, i as int);
                    assert(ms.take(i + 1).drop_last() =~= ms.take(i as int));
                }
                if i > 0 {
                    out.append(",\n");
                } else {
                    out.append("\n");
                }
                out.append(inner.as_str());
                let key = json_string(members[i].0.as_str()).unwrap();
                out.append(key.as_str());
                out.append(": ");
                let value = render_pretty(&members[i].1, inner.as_str());
                out.append(value.as_str());
                i = i + 1;
            }
            proof {
                assert(ms.take(ms.len() as int) =~= ms);
            }
            out.append("\n");
            out.append(indent);
            out.append("}");
            out
        },
        _ => render_compact(v),
    }
}

/// Renders a pretty document with its closing line break.
pub fn render_pretty_document(v: &Json) -> (r: String)
    ensures
        r@ == pretty_document(v@),
{
    let mut out = render_pretty(v, "");
    proof {
        reveal_strlit("");
        assert(""@ =~= Seq::<char>::empty());
    }
    out.append("\n");
    out
}

/// The models of a sequence of documents, position by position.
pub proof fn lemma_json_models(items: Seq<Json>)
    ensures
        json_models(items).len() == items.len(),
        forall|i: int| 0 <= i < items.len() ==> #[trigger] json_models(items)[i] == json_model(items[i]),
{
    assert forall|i: int| 0 <= i < items.len() implies #[trigger] json_models(items)[i] == json_model(items[i]) by {
        lemma_json_models_take(items, i);
    }
    lemma_json_models_take(items, 0);
}

/// The models of object members, position by position.
pub proof fn lemma_member_models(members: Seq<(String, Json)>)
    ensures
        member_models(members).len() == members.len(),
        forall|i: int|
            0 <= i < members.len() ==> #[trigger] member_models(members)[i] == (members[i].0@, json_model(members[i].1)),
{
    assert forall|i: int| 0 <= i < members.len() implies #[trigger] member_models(members)[i] == (
        members[i].0@,
        json_model(members[i].1),
    ) by {
        lemma_member_models_take(members, i);
    }
    lemma_member_models_take(members, 0);
}

/// String values of texts.
pub open spec fn text_values(s: Seq<Seq<char>>) -> Seq<JsonModel> {
    s.map_values(|t: Seq<char>| JsonModel::Text(t))
}

/// An array of the given texts.
pub fn text_array(items: &[String]) -> (r: Json)
    ensures
        r@ == JsonModel::Array(text_values(items@.map_values(|s: String| s@))),
{
    let mut out: Vec<Json> = Vec::new();
    let mut i: usize = 0;
    while i < items.len()
        invariant
            i <= items@.len(),
            out@.len() == i,
            forall|k: int| 0 <= k < i ==> #[trigger] json_model(out@[k]) == JsonModel::Text(items@[k]@),
        decreases items.len() - i,
    {
        out.push(Json::Text(String::from_str(items[i].as_str())));
        i = i + 1;
    }
    proof {
        lemma_json_models(out@);
        assert(json_models(out@) =~= text_values(items@.map_values(|s: String| s@)));
    }
    Json::Array(out)
}

/// A text value.
pub fn text(s: &str) -> (r: Json)
    ensures
        r@ == JsonModel::Text(s@),
{
    Json::Text(String::from_str(s))
}

/// A value with one canonical JSON document.
pub trait JsonDocument: View + Sized {
    /// The document of an abstract value.
    spec fn document(v: Self::V) -> JsonModel;

    /// The value as a JSON document.
    fn to_json(&self) -> (r: Json)
        ensures
            r@ == Self::document(self@),
    ;
}

/// The documents of the given values, as one array.
pub fn documents<T: JsonDocument>(items: &[T]) -> (r: Json)
    ensures
        r@ == JsonModel::Array(crate::order::views(items@).map_values(|v: T::V| T::document(v))),
{
    let mut out: Vec<Json> = Vec::new();
    let mut i: usize = 0;
    while i < items.len()
        invariant
            i <= items@.len(),
            out@.len() == i,
            forall|k: int| 0 <= k < i ==> #[trigger] json_model(out@[k]) == T::document(items@[k]@),
        decreases items.len() - i,
    {
        out.push(items[i].to_json());
        i = i + 1;
    }
    proof {
        lemma_json_models(out@);
        assert(json_models(out@) =~= crate::order::views(items@).map_values(|v: T::V| T::document(v)));
    }
    Json::Array(out)
}

/// An optional text: the text, or null.
pub open spec fn optional_text_value(o: Option<Seq<char>>) -> JsonModel {
    match o {
        Some(t) => JsonModel::Text(t),
        None => JsonModel::Null,
    }
}

} // verus!
